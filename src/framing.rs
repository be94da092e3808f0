//! Object frames `[Length][ObjectID][Body]`: values that describe themselves.
use vstd::prelude::*;

use crate::codec::encode_uint;
use crate::error::{LTVError, LTVResult};
use crate::object::LTVItem;
use crate::reader::{spec_parse_ltv, LTVReader};
use crate::writer::spec_frame;
use crate::ByteOrder;

verus! {

/// An item with a fixed object identifier, framed with its own byte order
/// and width of the length prefix.
pub trait LTVObject: LTVItem {
    spec fn spec_object_id() -> u8;

    spec fn spec_length_size() -> nat;

    spec fn spec_byte_order() -> ByteOrder;

    fn object_id() -> (r: u8)
        ensures
            r == Self::spec_object_id(),
    ;

    fn length_size() -> (r: usize)
        ensures
            r == Self::spec_length_size(),
    ;

    fn byte_order() -> (r: ByteOrder)
        ensures
            r == Self::spec_byte_order(),
    ;

    /// The length prefix takes one byte or two.
    proof fn lemma_length_size()
        ensures
            Self::spec_length_size() == 1 || Self::spec_length_size() == 2,
    ;
}

/// An item that can be written as an object frame and read back from one.
pub trait LTVObjectConvertable: LTVItem {
    /// The object frame of `v`.
    spec fn spec_to_ltv_object(v: Self::Model) -> Seq<u8>;

    /// What reading the object frame at the start of `data` gives.
    spec fn spec_from_ltv_object(data: Seq<u8>) -> LTVResult<Self::Model>;

    /// Strips the object frame at the start of `data` and decodes its body.
    fn from_ltv_object(data: &[u8]) -> (r: LTVResult<Self>)
        ensures
            match r {
                Ok(v) => Self::spec_from_ltv_object(data@) == Ok::<Self::Model, LTVError>(v.model()),
                Err(e) => Self::spec_from_ltv_object(data@) == Err::<Self::Model, LTVError>(e),
            },
    ;

    /// This value in an object frame.
    fn to_ltv_object(&self) -> (r: Vec<u8>)
        ensures
            r@ == Self::spec_to_ltv_object(self.model()),
    ;
}

/// What reading an object frame gives, under byte order `order` and prefix
/// width `width`: the body decoded as a `T` under the identifier found.
pub open spec fn spec_read_object<T: LTVItem>(data: Seq<u8>, width: nat, order: ByteOrder) -> LTVResult<T::Model> {
    match spec_parse_ltv(data, width, order) {
        Err(e) => Err(e),
        Ok((_, id, body)) => T::spec_from_ltv(id, body, order),
    }
}

/// Reads the object frame at the start of `data` and decodes its body as a
/// `T` under the identifier found.
pub fn read_object<T: LTVItem>(data: &[u8], order: ByteOrder, length_size: usize) -> (r: LTVResult<T>)
    requires
        length_size == 1 || length_size == 2,
    ensures
        match r {
            Ok(v) => spec_read_object::<T>(data@, length_size as nat, order) == Ok::<T::Model, LTVError>(
                v.model(),
            ),
            Err(e) => spec_read_object::<T>(data@, length_size as nat, order) == Err::<T::Model, LTVError>(e),
        },
{
    match LTVReader::parse_ltv(data, order, length_size) {
        Err(e) => Err(e),
        Ok((_, obj_id, body)) => T::from_ltv(obj_id, body, order),
    }
}

/// Puts `body` in a frame under `id`.
pub fn frame_body(id: u8, body: Vec<u8>, order: ByteOrder, length_size: usize) -> (r: Vec<u8>)
    ensures
        r@ == spec_frame(id, body@, length_size as nat, order),
{
    let mut body = body;
    let mut out = encode_uint(body.len() as u128 + 1, length_size, order);
    out.push(id);
    out.append(&mut body);
    out
}

impl<T: LTVObject> LTVObjectConvertable for T {
    open spec fn spec_to_ltv_object(v: T::Model) -> Seq<u8> {
        spec_frame(
            T::spec_object_id(),
            T::spec_to_ltv(v, T::spec_byte_order()),
            T::spec_length_size(),
            T::spec_byte_order(),
        )
    }

    open spec fn spec_from_ltv_object(data: Seq<u8>) -> LTVResult<T::Model> {
        spec_read_object::<T>(data, T::spec_length_size(), T::spec_byte_order())
    }

    fn from_ltv_object(data: &[u8]) -> (r: LTVResult<T>) {
        proof {
            T::lemma_length_size();
        }
        read_object::<T>(data, T::byte_order(), T::length_size())
    }

    fn to_ltv_object(&self) -> (r: Vec<u8>) {
        let order = T::byte_order();
        frame_body(T::object_id(), self.to_ltv(order), order, T::length_size())
    }
}

} // verus!
