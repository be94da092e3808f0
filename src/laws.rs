//! What holds of reading what was written.
use vstd::prelude::*;

use vstd::arithmetic::div_mod::lemma_small_mod;

use crate::codec::{lemma_pow256_values, lemma_uint_bytes_len, lemma_uint_round_trip, pow256, uint_bytes};
use crate::error::{LTVError, LTVResult};
use crate::framing::{LTVObject, LTVObjectConvertable};
use crate::object::{wrong_size, LTVItem};
use crate::reader::{spec_find, spec_get, spec_many, spec_parse_ltv};
use crate::writer::{spec_field, spec_fields, spec_frame};
use crate::ByteOrder;

verus! {

/// The body of `v` fits in a frame whose length prefix is `width` bytes.
pub open spec fn fits<T: LTVItem>(v: T::Model, width: nat, order: ByteOrder) -> bool {
    T::spec_to_ltv(v, order).len() + 1 < pow256(width)
}

/// A frame followed by anything parses back to its tag and value.
pub proof fn lemma_parse_frame(tag: u8, value: Seq<u8>, rest: Seq<u8>, width: nat, order: ByteOrder)
    requires
        width == 1 || width == 2,
        value.len() + 1 < pow256(width),
    ensures
        spec_parse_ltv(spec_frame(tag, value, width, order) + rest, width, order) == Ok::<
            (nat, u8, Seq<u8>),
            LTVError,
        >(((width + 1 + value.len()) as nat, tag, value)),
{
    let len = (value.len() + 1) as nat;
    let d = spec_frame(tag, value, width, order) + rest;
    lemma_uint_bytes_len(len, width, order);
    lemma_uint_round_trip(len, width, order);
    assert(d.subrange(0, width as int) =~= uint_bytes(len, width, order));
    lemma_small_mod(len, pow256(width));
    assert(d[width as int] == tag);
    assert(d.subrange((width + 1) as int, (width + len) as int) =~= value);
}

/// Looking a tag up in a frame followed by `rest`: the frame's value where
/// the tags agree, a lookup in `rest` otherwise.
pub proof fn lemma_find_frame(tag: u8, value: Seq<u8>, rest: Seq<u8>, look: u8, width: nat, order: ByteOrder)
    requires
        width == 1 || width == 2,
        value.len() + 1 < pow256(width),
    ensures
        spec_find(spec_frame(tag, value, width, order) + rest, look, width, order) == if tag == look {
            Ok::<Option<Seq<u8>>, LTVError>(Some(value))
        } else {
            spec_find(rest, look, width, order)
        },
{
    let d = spec_frame(tag, value, width, order) + rest;
    lemma_parse_frame(tag, value, rest, width, order);
    lemma_uint_bytes_len((value.len() + 1) as nat, width, order);
    assert(d.subrange((width + 1 + value.len()) as int, d.len() as int) =~= rest);
}

/// A field under another tag is passed over.
pub proof fn lemma_skip_field<T: LTVItem>(tag: u8, v: T::Model, rest: Seq<u8>, look: u8, width: nat, order: ByteOrder)
    requires
        width == 1 || width == 2,
        fits::<T>(v, width, order),
        tag != look,
    ensures
        spec_find(spec_field::<T>(tag, v, width, order) + rest, look, width, order) == spec_find(
            rest,
            look,
            width,
            order,
        ),
{
    let value = T::spec_to_ltv(v, order);
    if value.len() == 0 && T::spec_omit_empty() {
        assert(spec_field::<T>(tag, v, width, order) + rest =~= rest);
    } else {
        lemma_find_frame(tag, value, rest, look, width, order);
    }
}

/// A field reads back as the value written, when nothing after it holds its
/// tag in case it was left out.
pub proof fn lemma_get_field<T: LTVItem>(tag: u8, v: T::Model, rest: Seq<u8>, width: nat, order: ByteOrder)
    requires
        width == 1 || width == 2,
        fits::<T>(v, width, order),
        T::spec_valid(v, tag, order),
        T::spec_omit_empty() && T::spec_to_ltv(v, order).len() == 0 ==> spec_find(rest, tag, width, order)
            == Ok::<Option<Seq<u8>>, LTVError>(None),
    ensures
        spec_get::<T>(spec_field::<T>(tag, v, width, order) + rest, tag, width, order) == Ok::<
            T::Model,
            LTVError,
        >(v),
{
    let value = T::spec_to_ltv(v, order);
    T::lemma_round_trip(v, tag, order);
    if value.len() == 0 && T::spec_omit_empty() {
        assert(spec_field::<T>(tag, v, width, order) + rest =~= rest);
    } else {
        lemma_find_frame(tag, value, rest, tag, width, order);
    }
}

/// Round trip of an item: a valid value decodes from its own body, and one
/// whose empty body stands for absence is restored when absent.
pub proof fn lemma_item_round_trip<T: LTVItem>(v: T::Model, field_id: u8, order: ByteOrder)
    requires
        T::spec_valid(v, field_id, order),
    ensures
        T::spec_from_ltv(field_id, T::spec_to_ltv(v, order), order) == Ok::<T::Model, LTVError>(v),
        T::spec_omit_empty() && T::spec_to_ltv(v, order).len() == 0 ==> T::spec_when_absent(field_id)
            == Ok::<T::Model, LTVError>(v),
{
    T::lemma_round_trip(v, field_id, order);
}

/// Round trip of a field: a valid value written under a tag is what a reader
/// of those bytes gives for that tag.
pub proof fn lemma_field_round_trip<T: LTVItem>(tag: u8, v: T::Model, width: nat, order: ByteOrder)
    requires
        width == 1 || width == 2,
        fits::<T>(v, width, order),
        T::spec_valid(v, tag, order),
    ensures
        spec_get::<T>(spec_field::<T>(tag, v, width, order), tag, width, order) == Ok::<T::Model, LTVError>(v),
{
    lemma_get_field::<T>(tag, v, Seq::empty(), width, order);
    assert(spec_field::<T>(tag, v, width, order) + Seq::empty() =~= spec_field::<T>(tag, v, width, order));
}

/// Round trip of an object: a valid value whose body fits the prefix reads
/// back from its own object frame.
pub proof fn lemma_object_round_trip<T: LTVObject>(v: T::Model)
    requires
        T::spec_valid(v, T::spec_object_id(), T::spec_byte_order()),
        fits::<T>(v, T::spec_length_size(), T::spec_byte_order()),
    ensures
        T::spec_from_ltv_object(T::spec_to_ltv_object(v)) == Ok::<T::Model, LTVError>(v),
{
    let order = T::spec_byte_order();
    let width = T::spec_length_size();
    T::lemma_length_size();
    T::lemma_round_trip(v, T::spec_object_id(), order);
    let frame = spec_frame(T::spec_object_id(), T::spec_to_ltv(v, order), width, order);
    lemma_parse_frame(T::spec_object_id(), T::spec_to_ltv(v, order), Seq::empty(), width, order);
    assert(frame + Seq::empty() =~= frame);
}

/// Absence: an empty optional value writes no frame at all, and a body with
/// no frame under its tag reads it back as empty.
pub proof fn lemma_absent_optional<T: LTVItem>(tag: u8, body: Seq<u8>, width: nat, order: ByteOrder)
    ensures
        spec_field::<Option<T>>(tag, None, width, order) == Seq::<u8>::empty(),
        spec_find(body, tag, width, order) == Ok::<Option<Seq<u8>>, LTVError>(None) ==> spec_get::<Option<T>>(
            body,
            tag,
            width,
            order,
        ) == Ok::<Option<T::Model>, LTVError>(None),
{
}

/// No frame under a tag: the values of the many under it are none, and no
/// error.
pub proof fn lemma_many_absent<T: LTVItem>(body: Seq<u8>, tag: u8, width: nat, order: ByteOrder)
    requires
        spec_find(body, tag, width, order) == Ok::<Option<Seq<u8>>, LTVError>(None),
    ensures
        spec_many::<T>(body, tag, width, order) == Ok::<Seq<T::Model>, LTVError>(Seq::empty()),
    decreases body.len(),
{
    if body.len() > 0 && width > 0 {
        if let Ok((n, t, v)) = spec_parse_ltv(body, width, order) {
            lemma_many_absent::<T>(body.subrange(n as int, body.len() as int), tag, width, order);
        }
    }
}

/// Collecting the many under `look` from a frame followed by `rest`: the
/// frame's value decoded first where the tags agree, then those of `rest`.
pub proof fn lemma_many_frame<T: LTVItem>(tag: u8, value: Seq<u8>, rest: Seq<u8>, look: u8, width: nat, order: ByteOrder)
    requires
        width == 1 || width == 2,
        value.len() + 1 < pow256(width),
    ensures
        spec_many::<T>(spec_frame(tag, value, width, order) + rest, look, width, order) == if tag == look {
            match T::spec_from_ltv(look, value, order) {
                Err(e) => Err(e),
                Ok(x) => match spec_many::<T>(rest, look, width, order) {
                    Ok(xs) => Ok(seq![x] + xs),
                    Err(e) => Err(e),
                },
            }
        } else {
            spec_many::<T>(rest, look, width, order)
        },
{
    let d = spec_frame(tag, value, width, order) + rest;
    lemma_parse_frame(tag, value, rest, width, order);
    lemma_uint_bytes_len((value.len() + 1) as nat, width, order);
    assert(d.subrange((width + 1 + value.len()) as int, d.len() as int) =~= rest);
}

/// Repetition: values written one after another under one tag are read back
/// by that tag, all of them and in order, ahead of whatever follows.
#[verifier::rlimit(30)]
pub proof fn lemma_many_round_trip<T: LTVItem>(tag: u8, vs: Seq<T::Model>, rest: Seq<u8>, width: nat, order: ByteOrder)
    requires
        width == 1 || width == 2,
        forall|i: int|
            0 <= i < vs.len() ==> {
                &&& T::spec_valid(#[trigger] vs[i], tag, order)
                &&& fits::<T>(vs[i], width, order)
                &&& !(T::spec_omit_empty() && T::spec_to_ltv(vs[i], order).len() == 0)
            },
    ensures
        spec_many::<T>(spec_fields::<T>(tag, vs, width, order) + rest, tag, width, order) == match spec_many::<T>(
            rest,
            tag,
            width,
            order,
        ) {
            Ok(xs) => Ok::<Seq<T::Model>, LTVError>(vs + xs),
            Err(e) => Err(e),
        },
    decreases vs.len(),
{
    if vs.len() == 0 {
        assert(spec_fields::<T>(tag, vs, width, order) + rest =~= rest);
        assert(vs + Seq::<T::Model>::empty() =~= vs);
        match spec_many::<T>(rest, tag, width, order) {
            Ok(xs) => {
                assert(vs + xs =~= xs);
            },
            Err(_) => {},
        }
    } else {
        let x = vs[0];
        let value = T::spec_to_ltv(x, order);
        let tail = spec_fields::<T>(tag, vs.drop_first(), width, order) + rest;
        assert(spec_fields::<T>(tag, vs, width, order) + rest =~= spec_frame(tag, value, width, order) + tail);
        lemma_many_frame::<T>(tag, value, tail, tag, width, order);
        T::lemma_round_trip(x, tag, order);
        assert forall|i: int| 0 <= i < vs.drop_first().len() implies {
            &&& T::spec_valid(#[trigger] vs.drop_first()[i], tag, order)
            &&& fits::<T>(vs.drop_first()[i], width, order)
            &&& !(T::spec_omit_empty() && T::spec_to_ltv(vs.drop_first()[i], order).len() == 0)
        } by {
            assert(vs.drop_first()[i] == vs[i + 1]);
        }
        lemma_many_round_trip::<T>(tag, vs.drop_first(), rest, width, order);
        match spec_many::<T>(rest, tag, width, order) {
            Ok(xs) => {
                assert(seq![x] + (vs.drop_first() + xs) =~= vs + xs);
            },
            Err(_) => {},
        }
    }
}

/// Exact size: a fixed-width integer or array decodes only from a body of
/// exactly its width, and from any other body gives `WrongSize` with that
/// width expected.
pub proof fn lemma_exact_size(field_id: u8, data: Seq<u8>, order: ByteOrder)
    ensures
        data.len() != 1 ==> <u8 as LTVItem>::spec_from_ltv(field_id, data, order) == Err::<u8, LTVError>(
            wrong_size(field_id, 1, data),
        ),
        data.len() != 1 ==> <i8 as LTVItem>::spec_from_ltv(field_id, data, order) == Err::<i8, LTVError>(
            wrong_size(field_id, 1, data),
        ),
        data.len() != 2 ==> <u16 as LTVItem>::spec_from_ltv(field_id, data, order) == Err::<u16, LTVError>(
            wrong_size(field_id, 2, data),
        ),
        data.len() != 2 ==> <i16 as LTVItem>::spec_from_ltv(field_id, data, order) == Err::<i16, LTVError>(
            wrong_size(field_id, 2, data),
        ),
        data.len() != 4 ==> <u32 as LTVItem>::spec_from_ltv(field_id, data, order) == Err::<u32, LTVError>(
            wrong_size(field_id, 4, data),
        ),
        data.len() != 4 ==> <i32 as LTVItem>::spec_from_ltv(field_id, data, order) == Err::<i32, LTVError>(
            wrong_size(field_id, 4, data),
        ),
        data.len() != 16 ==> <u128 as LTVItem>::spec_from_ltv(field_id, data, order) == Err::<u128, LTVError>(
            wrong_size(field_id, 16, data),
        ),
        data.len() != 16 ==> <i128 as LTVItem>::spec_from_ltv(field_id, data, order) == Err::<i128, LTVError>(
            wrong_size(field_id, 16, data),
        ),
{
}

/// Exact size of a byte array of `N` bytes.
pub proof fn lemma_exact_size_array<const N: usize>(field_id: u8, data: Seq<u8>, order: ByteOrder)
    ensures
        data.len() != N ==> <[u8; N] as LTVItem>::spec_from_ltv(field_id, data, order) == Err::<
            Seq<u8>,
            LTVError,
        >(wrong_size(field_id, N as nat, data)),
{
}

} // verus!
