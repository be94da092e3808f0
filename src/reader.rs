//! Reading field frames `[Length][Tag][Value]` out of a body.
use vstd::prelude::*;
use vstd::slice::slice_subrange;

use crate::codec::{decode_uint, lemma_pow256_values, lemma_uint_value_bound, uint_value};
use crate::error::{LTVError, LTVResult};
use crate::object::LTVItem;
use crate::ByteOrder;

verus! {

/// What parsing the frame at the start of `data` gives: the bytes it takes,
/// its tag and its value. A length below 1 is a marker of the prefix alone,
/// with tag 0 and no value.
pub open spec fn spec_parse_ltv(data: Seq<u8>, width: nat, order: ByteOrder) -> LTVResult<(nat, u8, Seq<u8>)> {
    if data.len() < width {
        Err(LTVError::WrongSize { field_id: 0, expected: width as usize, recieved: data.len() as usize })
    } else {
        let length = uint_value(data.subrange(0, width as int), order);
        if length < 1 {
            Ok((width, 0u8, Seq::empty()))
        } else if data.len() < width + length {
            Err(LTVError::WrongSize {
                field_id: 0,
                expected: (width + length) as usize,
                recieved: data.len() as usize,
            })
        } else {
            Ok(((width + length) as nat, data[width as int], data.subrange((width + 1) as int, (width + length) as int)))
        }
    }
}

/// The value of the first frame of `data` tagged `tag`, if any, or the error
/// of the first malformed frame before it.
pub open spec fn spec_find(data: Seq<u8>, tag: u8, width: nat, order: ByteOrder) -> LTVResult<Option<Seq<u8>>>
    decreases data.len(),
{
    if data.len() == 0 || width == 0 {
        Ok(None)
    } else {
        match spec_parse_ltv(data, width, order) {
            Err(e) => Err(e),
            Ok((n, t, v)) => if t == tag {
                Ok(Some(v))
            } else {
                spec_find(data.subrange(n as int, data.len() as int), tag, width, order)
            },
        }
    }
}

/// What looking up `tag` in `data` gives: the first such frame decoded as a
/// `T`, or what `T` gives when absent.
pub open spec fn spec_get<T: LTVItem>(data: Seq<u8>, tag: u8, width: nat, order: ByteOrder) -> LTVResult<T::Model> {
    match spec_find(data, tag, width, order) {
        Err(e) => Err(e),
        Ok(Some(v)) => T::spec_from_ltv(tag, v, order),
        Ok(None) => T::spec_when_absent(tag),
    }
}

/// Every frame of `data` tagged `tag` decoded as a `T`, in order; or the
/// first error met on the way.
pub open spec fn spec_many<T: LTVItem>(data: Seq<u8>, tag: u8, width: nat, order: ByteOrder) -> LTVResult<Seq<T::Model>>
    decreases data.len(),
{
    if data.len() == 0 || width == 0 {
        Ok(Seq::empty())
    } else {
        match spec_parse_ltv(data, width, order) {
            Err(e) => Err(e),
            Ok((n, t, v)) => {
                let rest = spec_many::<T>(data.subrange(n as int, data.len() as int), tag, width, order);
                if t == tag {
                    match T::spec_from_ltv(tag, v, order) {
                        Err(e) => Err(e),
                        Ok(x) => match rest {
                            Ok(xs) => Ok(seq![x] + xs),
                            Err(e) => Err(e),
                        },
                    }
                } else {
                    rest
                }
            },
        }
    }
}

/// The models of the values in `s`.
pub open spec fn models<T: LTVItem>(s: Seq<T>) -> Seq<T::Model> {
    s.map_values(|x: T| x.model())
}

/// A frame taken out of a body: its tag and its raw value.
pub struct LTVFieldBinary {
    pub field_id: u8,
    pub data: Vec<u8>,
}

/// Walks the frames of a body from left to right. After a malformed frame it
/// gives that error once and then ends.
pub struct LTVFieldIterator<'a> {
    body: &'a [u8],
    i: usize,
    done: bool,
    order: ByteOrder,
    length_size: usize,
}

impl<'a> LTVFieldIterator<'a> {
    #[verifier::type_invariant]
    spec fn inv(&self) -> bool {
        &&& self.i <= self.body@.len()
        &&& (self.length_size == 1 || self.length_size == 2)
    }

    /// The bytes that are left to walk.
    pub closed spec fn rest(&self) -> Seq<u8> {
        if self.done {
            Seq::empty()
        } else {
            self.body@.subrange(self.i as int, self.body@.len() as int)
        }
    }

    pub closed spec fn width(&self) -> nat {
        self.length_size as nat
    }

    pub closed spec fn order(&self) -> ByteOrder {
        self.order
    }

    /// A walk over the frames of `body`.
    pub fn new(body: &'a [u8], order: ByteOrder, length_size: usize) -> (r: Self)
        requires
            length_size == 1 || length_size == 2,
        ensures
            r.rest() == body@,
            r.width() == length_size,
            r.order() == order,
    {
        let r = LTVFieldIterator { body, i: 0, done: false, order, length_size };
        assert(r.rest() =~= body@);
        r
    }

    /// The next frame, or the error of a malformed one, or `None` at the end.
    pub fn next_field(&mut self) -> (r: Option<LTVResult<LTVFieldBinary>>)
        ensures
            final(self).width() == old(self).width(),
            final(self).order() == old(self).order(),
            match r {
                None => old(self).rest().len() == 0 && final(self).rest() == old(self).rest(),
                Some(Err(e)) => old(self).rest().len() > 0 && spec_parse_ltv(
                    old(self).rest(),
                    old(self).width(),
                    old(self).order(),
                ) == Err::<(nat, u8, Seq<u8>), LTVError>(e) && final(self).rest().len() == 0,
                Some(Ok(f)) => old(self).rest().len() > 0 && (spec_parse_ltv(
                    old(self).rest(),
                    old(self).width(),
                    old(self).order(),
                ) matches Ok((n, t, v)) && f.field_id == t && f.data@ == v && final(self).rest()
                    == old(self).rest().subrange(n as int, old(self).rest().len() as int)),
            },
    {
        proof {
            use_type_invariant(&*self);
        }
        if self.done || self.i >= self.body.len() {
            return None;
        }
        let rest = slice_subrange(self.body, self.i, self.body.len());
        match LTVReader::parse_ltv(rest, self.order, self.length_size) {
            Err(e) => {
                self.done = true;
                Some(Err(e))
            },
            Ok((n, t, v)) => {
                self.i = self.i + n;
                assert(self.body@.subrange(self.i as int, self.body@.len() as int) =~= rest@.subrange(
                    n as int,
                    rest@.len() as int,
                ));
                Some(Ok(LTVFieldBinary { field_id: t, data: vstd::slice::slice_to_vec(v) }))
            },
        }
    }
}

/// Reads the frames of one body, under one byte order and one width of the
/// length prefix.
pub struct LTVReader<'a> {
    body: &'a [u8],
    order: ByteOrder,
    length_size: usize,
}

impl<'a> LTVReader<'a> {
    #[verifier::type_invariant]
    spec fn inv(&self) -> bool {
        self.length_size == 1 || self.length_size == 2
    }

    /// The body that is read.
    pub closed spec fn body(&self) -> Seq<u8> {
        self.body@
    }

    pub closed spec fn width(&self) -> nat {
        self.length_size as nat
    }

    pub closed spec fn order(&self) -> ByteOrder {
        self.order
    }

    /// Parses the frame at the start of `data`.
    pub fn parse_ltv<'b>(data: &'b [u8], order: ByteOrder, length_size: usize) -> (r: LTVResult<(usize, u8, &'b [u8])>)
        requires
            length_size == 1 || length_size == 2,
        ensures
            match r {
                Ok((n, t, v)) => spec_parse_ltv(data@, length_size as nat, order) == Ok::<
                    (nat, u8, Seq<u8>),
                    LTVError,
                >((n as nat, t, v@)),
                Err(e) => spec_parse_ltv(data@, length_size as nat, order) == Err::<(nat, u8, Seq<u8>), LTVError>(e),
            },
    {
        if data.len() < length_size {
            return Err(LTVError::WrongSize { field_id: 0, expected: length_size, recieved: data.len() });
        }
        let prefix = slice_subrange(data, 0, length_size);
        proof {
            lemma_uint_value_bound(prefix@, order);
            lemma_pow256_values();
        }
        let length = decode_uint(prefix, order) as usize;
        if length < 1 {
            let none = slice_subrange(data, 0, 0);
            assert(none@ =~= Seq::<u8>::empty());
            return Ok((length_size, 0u8, none));
        }
        if data.len() - length_size < length {
            return Err(LTVError::WrongSize { field_id: 0, expected: length_size + length, recieved: data.len() });
        }
        Ok((length_size + length, data[length_size], slice_subrange(data, length_size + 1, length_size + length)))
    }

    /// A reader over `body`, the concatenated frames of one value.
    pub fn new(body: &'a [u8], order: ByteOrder, length_size: usize) -> (r: Self)
        requires
            length_size == 1 || length_size == 2,
        ensures
            r.body() == body@,
            r.width() == length_size,
            r.order() == order,
    {
        LTVReader { body, order, length_size }
    }

    /// A walk over the frames of the body.
    pub fn iter(&self) -> (r: LTVFieldIterator<'a>)
        ensures
            r.rest() == self.body(),
            r.width() == self.width(),
            r.order() == self.order(),
    {
        proof {
            use_type_invariant(self);
        }
        LTVFieldIterator::new(self.body, self.order, self.length_size)
    }

    /// The first frame tagged `field_id` decoded as a `T`, or `None` where no
    /// frame has that tag.
    pub fn get_item_optional<T: LTVItem>(&self, field_id: u8) -> (r: LTVResult<Option<T>>)
        ensures
            match spec_find(self.body(), field_id, self.width(), self.order()) {
                Err(e) => r == Err::<Option<T>, LTVError>(e),
                Ok(None) => r matches Ok(None),
                Ok(Some(v)) => match T::spec_from_ltv(field_id, v, self.order()) {
                    Ok(x) => r matches Ok(Some(y)) && y.model() == x,
                    Err(e) => r == Err::<Option<T>, LTVError>(e),
                },
            },
    {
        proof {
            use_type_invariant(self);
        }
        let mut it = self.iter();
        loop
            invariant
                it.width() == self.width(),
                it.order() == self.order(),
                it.width() >= 1,
                spec_find(self.body(), field_id, self.width(), self.order()) == spec_find(
                    it.rest(),
                    field_id,
                    self.width(),
                    self.order(),
                ),
            decreases it.rest().len(),
        {
            proof {
                use_type_invariant(self);
            }
            match it.next_field() {
                None => {
                    return Ok(None);
                },
                Some(Err(e)) => {
                    return Err(e);
                },
                Some(Ok(f)) => {
                    if f.field_id == field_id {
                        return match T::from_ltv(field_id, f.data.as_slice(), self.order) {
                            Ok(x) => Ok(Some(x)),
                            Err(e) => Err(e),
                        };
                    }
                },
            }
        }
    }

    /// The first frame tagged `field_id` decoded as a `T`; where there is
    /// none, what `T` gives when absent.
    pub fn get_item<T: LTVItem>(&self, field_id: u8) -> (r: LTVResult<T>)
        ensures
            match r {
                Ok(x) => spec_get::<T>(self.body(), field_id, self.width(), self.order()) == Ok::<
                    T::Model,
                    LTVError,
                >(x.model()),
                Err(e) => spec_get::<T>(self.body(), field_id, self.width(), self.order()) == Err::<
                    T::Model,
                    LTVError,
                >(e),
            },
    {
        match self.get_item_optional::<T>(field_id) {
            Err(e) => Err(e),
            Ok(Some(o)) => Ok(o),
            Ok(None) => T::default_when_absent(field_id),
        }
    }

    /// Every frame tagged `field_id` decoded as a `T`, in the order met;
    /// empty where there is none.
    pub fn get_many<T: LTVItem>(&self, field_id: u8) -> (r: LTVResult<Vec<T>>)
        ensures
            match r {
                Ok(xs) => spec_many::<T>(self.body(), field_id, self.width(), self.order()) == Ok::<
                    Seq<T::Model>,
                    LTVError,
                >(models(xs@)),
                Err(e) => spec_many::<T>(self.body(), field_id, self.width(), self.order()) == Err::<
                    Seq<T::Model>,
                    LTVError,
                >(e),
            },
    {
        let mut out: Vec<T> = Vec::new();
        proof {
            use_type_invariant(self);
        }
        let mut it = self.iter();
        loop
            invariant
                it.width() == self.width(),
                it.order() == self.order(),
                it.width() >= 1,
                spec_many::<T>(self.body(), field_id, self.width(), self.order()) == match spec_many::<T>(
                    it.rest(),
                    field_id,
                    self.width(),
                    self.order(),
                ) {
                    Ok(xs) => Ok(models(out@) + xs),
                    Err(e) => Err(e),
                },
            decreases it.rest().len(),
        {
            proof {
                use_type_invariant(self);
            }
            let ghost out_before = out@;
            match it.next_field() {
                None => {
                    assert(models(out@) + Seq::<T::Model>::empty() =~= models(out@));
                    return Ok(out);
                },
                Some(Err(e)) => {
                    return Err(e);
                },
                Some(Ok(f)) => {
                    if f.field_id == field_id {
                        match T::from_ltv(field_id, f.data.as_slice(), self.order) {
                            Ok(x) => {
                                out.push(x);
                                proof {
                                    assert(models(out@) =~= models(out_before) + seq![x.model()]);
                                    match spec_many::<T>(it.rest(), field_id, self.width(), self.order()) {
                                        Ok(xs) => {
                                            assert(models(out_before) + (seq![x.model()] + xs) =~= models(out@) + xs);
                                        },
                                        Err(_) => {},
                                    }
                                }
                            },
                            Err(e) => {
                                return Err(e);
                            },
                        }
                    }
                },
            }
        }
    }
}

} // verus!
