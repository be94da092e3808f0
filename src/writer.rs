//! Writing field frames `[Length][Tag][Value]` into a buffer.
use vstd::prelude::*;

use crate::codec::{encode_uint, lemma_uint_bytes_len, uint_bytes};
use crate::object::LTVItem;
use crate::reader::models;
use crate::ByteOrder;

verus! {

/// The frame `[Length][Tag][Value]` with `Length = 1 + len(Value)`, written in
/// `width` bytes (keeping the low bytes of a length too large for them).
pub open spec fn spec_frame(tag: u8, value: Seq<u8>, width: nat, order: ByteOrder) -> Seq<u8> {
    uint_bytes((value.len() + 1) as nat, width, order) + seq![tag] + value
}

/// What writing the value `v` of type `T` under `tag` emits: nothing for an
/// empty body that stands for absence, its frame otherwise.
pub open spec fn spec_field<T: LTVItem>(tag: u8, v: T::Model, width: nat, order: ByteOrder) -> Seq<u8> {
    let value = T::spec_to_ltv(v, order);
    if value.len() == 0 && T::spec_omit_empty() {
        Seq::empty()
    } else {
        spec_frame(tag, value, width, order)
    }
}

/// What writing each of `vs` under `tag`, in order, emits.
pub open spec fn spec_fields<T: LTVItem>(tag: u8, vs: Seq<T::Model>, width: nat, order: ByteOrder) -> Seq<u8>
    decreases vs.len(),
{
    if vs.len() == 0 {
        Seq::empty()
    } else {
        spec_field::<T>(tag, vs[0], width, order) + spec_fields::<T>(tag, vs.drop_first(), width, order)
    }
}

/// Writing one more value adds its field at the end.
pub proof fn lemma_fields_push<T: LTVItem>(tag: u8, vs: Seq<T::Model>, x: T::Model, width: nat, order: ByteOrder)
    ensures
        spec_fields::<T>(tag, vs.push(x), width, order) == spec_fields::<T>(tag, vs, width, order)
            + spec_field::<T>(tag, x, width, order),
    decreases vs.len(),
{
    if vs.len() == 0 {
        assert(vs.push(x).drop_first() =~= Seq::<T::Model>::empty());
        assert(vs.push(x)[0] == x);
        assert(spec_fields::<T>(tag, Seq::<T::Model>::empty(), width, order) == Seq::<u8>::empty());
        assert(spec_fields::<T>(tag, vs.push(x), width, order) =~= spec_field::<T>(tag, x, width, order));
    } else {
        assert(vs.push(x).drop_first() =~= vs.drop_first().push(x));
        lemma_fields_push::<T>(tag, vs.drop_first(), x, width, order);
        assert(spec_fields::<T>(tag, vs.push(x), width, order) =~= spec_fields::<T>(tag, vs, width, order)
            + spec_field::<T>(tag, x, width, order));
    }
}

/// Something that frames items and keeps the bytes.
pub trait LTVContainer {
    /// The bytes written so far.
    spec fn written(&self) -> Seq<u8>;

    spec fn width(&self) -> nat;

    spec fn order(&self) -> ByteOrder;

    /// Writes `obj` under the tag `obj_id` and gives the number of bytes
    /// written.
    fn write_ltv<T: LTVItem>(&mut self, obj_id: u8, obj: &T) -> (n: usize)
        ensures
            final(self).written() == old(self).written() + spec_field::<T>(
                obj_id,
                obj.model(),
                old(self).width(),
                old(self).order(),
            ),
            n == spec_field::<T>(obj_id, obj.model(), old(self).width(), old(self).order()).len(),
            final(self).width() == old(self).width(),
            final(self).order() == old(self).order(),
    ;
}

/// Accumulates frames into a byte buffer, under one byte order and one width
/// of the length prefix.
pub struct LTVWriter {
    writer: Vec<u8>,
    order: ByteOrder,
    /// Whether the length prefix takes two bytes rather than one.
    wide: bool,
}

impl LTVWriter {
    /// A writer that appends to `w`.
    pub fn new(w: Vec<u8>, order: ByteOrder, length_size: usize) -> (r: Self)
        requires
            length_size == 1 || length_size == 2,
        ensures
            r.written() == w@,
            r.width() == length_size,
            r.order() == order,
    {
        LTVWriter { writer: w, order, wide: length_size == 2 }
    }

    /// The buffer, with everything written.
    pub fn into_inner(self) -> (r: Vec<u8>)
        ensures
            r@ == self.written(),
    {
        self.writer
    }

    /// Writes each of `objs` under the tag `obj_id`, in order, and gives the
    /// number of bytes written.
    pub fn write_many<T: LTVItem>(&mut self, obj_id: u8, objs: &Vec<T>) -> (n: usize)
        ensures
            final(self).written() == old(self).written() + spec_fields::<T>(
                obj_id,
                models(objs@),
                old(self).width(),
                old(self).order(),
            ),
            n == spec_fields::<T>(obj_id, models(objs@), old(self).width(), old(self).order()).len(),
            final(self).width() == old(self).width(),
            final(self).order() == old(self).order(),
    {
        let ghost start = self.written();
        let before = self.writer.len();
        let mut i: usize = 0;
        while i < objs.len()
            invariant
                i <= objs@.len(),
                self.width() == old(self).width(),
                self.order() == old(self).order(),
                start == old(self).written(),
                before == start.len(),
                self.written() == start + spec_fields::<T>(
                    obj_id,
                    models(objs@).subrange(0, i as int),
                    self.width(),
                    self.order(),
                ),
            decreases objs@.len() - i,
        {
            self.write_ltv(obj_id, &objs[i]);
            proof {
                let ms = models(objs@);
                assert(ms.subrange(0, i + 1) =~= ms.subrange(0, i as int).push(objs@[i as int].model()));
                lemma_fields_push::<T>(obj_id, ms.subrange(0, i as int), objs@[i as int].model(), self.width(), self.order());
                assert(self.written() =~= start + spec_fields::<T>(
                    obj_id,
                    ms.subrange(0, i + 1),
                    self.width(),
                    self.order(),
                ));
            }
            i = i + 1;
        }
        assert(models(objs@).subrange(0, objs@.len() as int) =~= models(objs@));
        self.writer.len() - before
    }
}

impl LTVContainer for LTVWriter {
    closed spec fn written(&self) -> Seq<u8> {
        self.writer@
    }

    closed spec fn width(&self) -> nat {
        if self.wide {
            2
        } else {
            1
        }
    }

    closed spec fn order(&self) -> ByteOrder {
        self.order
    }

    fn write_ltv<T: LTVItem>(&mut self, obj_id: u8, obj: &T) -> (n: usize) {
        let mut data = obj.to_ltv(self.order);
        let ghost value = data@;
        if data.len() == 0 && T::omit_when_empty() {
            return 0;
        }
        let mut prefix = encode_uint(data.len() as u128 + 1, if self.wide { 2 } else { 1 }, self.order);
        let before = self.writer.len();
        self.writer.append(&mut prefix);
        self.writer.push(obj_id);
        self.writer.append(&mut data);
        proof {
            lemma_uint_bytes_len((value.len() + 1) as nat, if self.wide { 2 } else { 1 }, self.order);
        }
        self.writer.len() - before
    }
}

} // verus!
