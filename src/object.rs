//! The item contract: how a value becomes a raw body and back.
use vstd::prelude::*;

use crate::codec::{decode_uint, encode_uint, lemma_pow256_values, lemma_uint_bytes_len,
    lemma_uint_round_trip, lemma_uint_value_bound, pow256, uint_bytes, uint_value};
use crate::error::{LTVError, LTVResult};
use crate::ByteOrder;

verus! {

/// The error for a body `data` that should have had `expected` bytes.
pub open spec fn wrong_size(field_id: u8, expected: nat, data: Seq<u8>) -> LTVError {
    LTVError::WrongSize { field_id, expected: expected as usize, recieved: data.len() as usize }
}

/// A value that can be reduced to a raw body and rebuilt from one.
pub trait LTVItem: Sized {
    /// The mathematical value that a value of this type stands for.
    type Model;

    spec fn model(&self) -> Self::Model;

    /// The body of the value `v` under byte order `order`.
    spec fn spec_to_ltv(v: Self::Model, order: ByteOrder) -> Seq<u8>;

    /// What decoding `data`, found under `field_id`, gives.
    spec fn spec_from_ltv(field_id: u8, data: Seq<u8>, order: ByteOrder) -> LTVResult<Self::Model>;

    /// What a body without a frame for `field_id` gives.
    spec fn spec_when_absent(field_id: u8) -> LTVResult<Self::Model>;

    /// Whether an empty body of this type stands for absence, so that no
    /// frame is written for it.
    spec fn spec_omit_empty() -> bool;

    /// Whether `v`, written under `field_id`, reads back as itself.
    spec fn spec_valid(v: Self::Model, field_id: u8, order: ByteOrder) -> bool;

    /// Rebuilds a value from the body `data` found under `field_id`.
    fn from_ltv(field_id: u8, data: &[u8], order: ByteOrder) -> (r: LTVResult<Self>)
        ensures
            match r {
                Ok(v) => Self::spec_from_ltv(field_id, data@, order) == Ok::<Self::Model, LTVError>(v.model()),
                Err(e) => Self::spec_from_ltv(field_id, data@, order) == Err::<Self::Model, LTVError>(e),
            },
    ;

    /// The body of this value.
    fn to_ltv(&self, order: ByteOrder) -> (r: Vec<u8>)
        ensures
            r@ == Self::spec_to_ltv(self.model(), order),
    ;

    /// The value a reader gives when no frame for `field_id` is present.
    fn default_when_absent(field_id: u8) -> (r: LTVResult<Self>)
        ensures
            match r {
                Ok(v) => Self::spec_when_absent(field_id) == Ok::<Self::Model, LTVError>(v.model()),
                Err(e) => Self::spec_when_absent(field_id) == Err::<Self::Model, LTVError>(e),
            },
    ;

    /// Whether an empty body is left out of the enclosing frames.
    fn omit_when_empty() -> (r: bool)
        ensures
            r == Self::spec_omit_empty(),
    ;

    /// A valid value decodes from its own body; an omitted one is restored
    /// from absence.
    proof fn lemma_round_trip(v: Self::Model, field_id: u8, order: ByteOrder)
        requires
            Self::spec_valid(v, field_id, order),
        ensures
            Self::spec_from_ltv(field_id, Self::spec_to_ltv(v, order), order) == Ok::<Self::Model, LTVError>(v),
            Self::spec_omit_empty() && Self::spec_to_ltv(v, order).len() == 0
                ==> Self::spec_when_absent(field_id) == Ok::<Self::Model, LTVError>(v),
    ;
}

/// The model of a decoding result.
pub open spec fn model_result<T: LTVItem>(r: LTVResult<T>) -> LTVResult<T::Model> {
    match r {
        Ok(v) => Ok(v.model()),
        Err(e) => Err(e),
    }
}

/// The body of a value, written through the trait.
pub fn get_ltv<T: LTVItem>(obj: &T, order: ByteOrder) -> (r: Vec<u8>)
    ensures
        r@ == T::spec_to_ltv(obj.model(), order),
{
    obj.to_ltv(order)
}

impl LTVItem for u8 {
    type Model = u8;

    open spec fn model(&self) -> u8 {
        *self
    }

    open spec fn spec_to_ltv(v: u8, order: ByteOrder) -> Seq<u8> {
        uint_bytes(v as nat, 1, order)
    }

    open spec fn spec_from_ltv(field_id: u8, data: Seq<u8>, order: ByteOrder) -> LTVResult<u8> {
        if data.len() != 1 {
            Err(wrong_size(field_id, 1, data))
        } else {
            Ok(uint_value(data, order) as u8)
        }
    }

    open spec fn spec_when_absent(field_id: u8) -> LTVResult<u8> {
        Err(LTVError::NotFound(field_id))
    }

    open spec fn spec_omit_empty() -> bool {
        false
    }

    open spec fn spec_valid(v: Self::Model, field_id: u8, order: ByteOrder) -> bool {
        true
    }

    fn from_ltv(field_id: u8, data: &[u8], order: ByteOrder) -> (r: LTVResult<u8>) {
        if data.len() != 1 {
            Err(LTVError::WrongSize { field_id, expected: 1, recieved: data.len() })
        } else {
            let v = decode_uint(data, order);
            Ok(v as u8)
        }
    }

    fn to_ltv(&self, order: ByteOrder) -> (r: Vec<u8>) {
        encode_uint(*self as u128, 1, order)
    }

    fn default_when_absent(field_id: u8) -> (r: LTVResult<u8>) {
        Err(LTVError::NotFound(field_id))
    }

    fn omit_when_empty() -> (r: bool) {
        false
    }

    proof fn lemma_round_trip(v: Self::Model, field_id: u8, order: ByteOrder) {
        let x = v;
        lemma_uint_bytes_len(v as nat, 1, order);
        lemma_uint_round_trip(v as nat, 1, order);
        lemma_pow256_values();
    }
}

impl LTVItem for i8 {
    type Model = i8;

    open spec fn model(&self) -> i8 {
        *self
    }

    open spec fn spec_to_ltv(v: i8, order: ByteOrder) -> Seq<u8> {
        uint_bytes((#[verifier::truncate] (v as u8)) as nat, 1, order)
    }

    open spec fn spec_from_ltv(field_id: u8, data: Seq<u8>, order: ByteOrder) -> LTVResult<i8> {
        if data.len() != 1 {
            Err(wrong_size(field_id, 1, data))
        } else {
            Ok(#[verifier::truncate] ((uint_value(data, order) as u8) as i8))
        }
    }

    open spec fn spec_when_absent(field_id: u8) -> LTVResult<i8> {
        Err(LTVError::NotFound(field_id))
    }

    open spec fn spec_omit_empty() -> bool {
        false
    }

    open spec fn spec_valid(v: Self::Model, field_id: u8, order: ByteOrder) -> bool {
        true
    }

    fn from_ltv(field_id: u8, data: &[u8], order: ByteOrder) -> (r: LTVResult<i8>) {
        if data.len() != 1 {
            Err(LTVError::WrongSize { field_id, expected: 1, recieved: data.len() })
        } else {
            let v = decode_uint(data, order);
            Ok(#[verifier::truncate] ((v as u8) as i8))
        }
    }

    fn to_ltv(&self, order: ByteOrder) -> (r: Vec<u8>) {
        encode_uint((#[verifier::truncate] (*self as u8)) as u128, 1, order)
    }

    fn default_when_absent(field_id: u8) -> (r: LTVResult<i8>) {
        Err(LTVError::NotFound(field_id))
    }

    fn omit_when_empty() -> (r: bool) {
        false
    }

    proof fn lemma_round_trip(v: Self::Model, field_id: u8, order: ByteOrder) {
        let x = v;
        lemma_uint_bytes_len((#[verifier::truncate] (v as u8)) as nat, 1, order);
        lemma_uint_round_trip((#[verifier::truncate] (v as u8)) as nat, 1, order);
        lemma_pow256_values();
        assert(#[verifier::truncate] ((#[verifier::truncate] (x as u8)) as i8) == x) by (bit_vector);
    }
}

impl LTVItem for u16 {
    type Model = u16;

    open spec fn model(&self) -> u16 {
        *self
    }

    open spec fn spec_to_ltv(v: u16, order: ByteOrder) -> Seq<u8> {
        uint_bytes(v as nat, 2, order)
    }

    open spec fn spec_from_ltv(field_id: u8, data: Seq<u8>, order: ByteOrder) -> LTVResult<u16> {
        if data.len() != 2 {
            Err(wrong_size(field_id, 2, data))
        } else {
            Ok(uint_value(data, order) as u16)
        }
    }

    open spec fn spec_when_absent(field_id: u8) -> LTVResult<u16> {
        Err(LTVError::NotFound(field_id))
    }

    open spec fn spec_omit_empty() -> bool {
        false
    }

    open spec fn spec_valid(v: Self::Model, field_id: u8, order: ByteOrder) -> bool {
        true
    }

    fn from_ltv(field_id: u8, data: &[u8], order: ByteOrder) -> (r: LTVResult<u16>) {
        if data.len() != 2 {
            Err(LTVError::WrongSize { field_id, expected: 2, recieved: data.len() })
        } else {
            let v = decode_uint(data, order);
            Ok(v as u16)
        }
    }

    fn to_ltv(&self, order: ByteOrder) -> (r: Vec<u8>) {
        encode_uint(*self as u128, 2, order)
    }

    fn default_when_absent(field_id: u8) -> (r: LTVResult<u16>) {
        Err(LTVError::NotFound(field_id))
    }

    fn omit_when_empty() -> (r: bool) {
        false
    }

    proof fn lemma_round_trip(v: Self::Model, field_id: u8, order: ByteOrder) {
        let x = v;
        lemma_uint_bytes_len(v as nat, 2, order);
        lemma_uint_round_trip(v as nat, 2, order);
        lemma_pow256_values();
    }
}

impl LTVItem for i16 {
    type Model = i16;

    open spec fn model(&self) -> i16 {
        *self
    }

    open spec fn spec_to_ltv(v: i16, order: ByteOrder) -> Seq<u8> {
        uint_bytes((#[verifier::truncate] (v as u16)) as nat, 2, order)
    }

    open spec fn spec_from_ltv(field_id: u8, data: Seq<u8>, order: ByteOrder) -> LTVResult<i16> {
        if data.len() != 2 {
            Err(wrong_size(field_id, 2, data))
        } else {
            Ok(#[verifier::truncate] ((uint_value(data, order) as u16) as i16))
        }
    }

    open spec fn spec_when_absent(field_id: u8) -> LTVResult<i16> {
        Err(LTVError::NotFound(field_id))
    }

    open spec fn spec_omit_empty() -> bool {
        false
    }

    open spec fn spec_valid(v: Self::Model, field_id: u8, order: ByteOrder) -> bool {
        true
    }

    fn from_ltv(field_id: u8, data: &[u8], order: ByteOrder) -> (r: LTVResult<i16>) {
        if data.len() != 2 {
            Err(LTVError::WrongSize { field_id, expected: 2, recieved: data.len() })
        } else {
            let v = decode_uint(data, order);
            Ok(#[verifier::truncate] ((v as u16) as i16))
        }
    }

    fn to_ltv(&self, order: ByteOrder) -> (r: Vec<u8>) {
        encode_uint((#[verifier::truncate] (*self as u16)) as u128, 2, order)
    }

    fn default_when_absent(field_id: u8) -> (r: LTVResult<i16>) {
        Err(LTVError::NotFound(field_id))
    }

    fn omit_when_empty() -> (r: bool) {
        false
    }

    proof fn lemma_round_trip(v: Self::Model, field_id: u8, order: ByteOrder) {
        let x = v;
        lemma_uint_bytes_len((#[verifier::truncate] (v as u16)) as nat, 2, order);
        lemma_uint_round_trip((#[verifier::truncate] (v as u16)) as nat, 2, order);
        lemma_pow256_values();
        assert(#[verifier::truncate] ((#[verifier::truncate] (x as u16)) as i16) == x) by (bit_vector);
    }
}

impl LTVItem for u32 {
    type Model = u32;

    open spec fn model(&self) -> u32 {
        *self
    }

    open spec fn spec_to_ltv(v: u32, order: ByteOrder) -> Seq<u8> {
        uint_bytes(v as nat, 4, order)
    }

    open spec fn spec_from_ltv(field_id: u8, data: Seq<u8>, order: ByteOrder) -> LTVResult<u32> {
        if data.len() != 4 {
            Err(wrong_size(field_id, 4, data))
        } else {
            Ok(uint_value(data, order) as u32)
        }
    }

    open spec fn spec_when_absent(field_id: u8) -> LTVResult<u32> {
        Err(LTVError::NotFound(field_id))
    }

    open spec fn spec_omit_empty() -> bool {
        false
    }

    open spec fn spec_valid(v: Self::Model, field_id: u8, order: ByteOrder) -> bool {
        true
    }

    fn from_ltv(field_id: u8, data: &[u8], order: ByteOrder) -> (r: LTVResult<u32>) {
        if data.len() != 4 {
            Err(LTVError::WrongSize { field_id, expected: 4, recieved: data.len() })
        } else {
            let v = decode_uint(data, order);
            Ok(v as u32)
        }
    }

    fn to_ltv(&self, order: ByteOrder) -> (r: Vec<u8>) {
        encode_uint(*self as u128, 4, order)
    }

    fn default_when_absent(field_id: u8) -> (r: LTVResult<u32>) {
        Err(LTVError::NotFound(field_id))
    }

    fn omit_when_empty() -> (r: bool) {
        false
    }

    proof fn lemma_round_trip(v: Self::Model, field_id: u8, order: ByteOrder) {
        let x = v;
        lemma_uint_bytes_len(v as nat, 4, order);
        lemma_uint_round_trip(v as nat, 4, order);
        lemma_pow256_values();
    }
}

impl LTVItem for i32 {
    type Model = i32;

    open spec fn model(&self) -> i32 {
        *self
    }

    open spec fn spec_to_ltv(v: i32, order: ByteOrder) -> Seq<u8> {
        uint_bytes((#[verifier::truncate] (v as u32)) as nat, 4, order)
    }

    open spec fn spec_from_ltv(field_id: u8, data: Seq<u8>, order: ByteOrder) -> LTVResult<i32> {
        if data.len() != 4 {
            Err(wrong_size(field_id, 4, data))
        } else {
            Ok(#[verifier::truncate] ((uint_value(data, order) as u32) as i32))
        }
    }

    open spec fn spec_when_absent(field_id: u8) -> LTVResult<i32> {
        Err(LTVError::NotFound(field_id))
    }

    open spec fn spec_omit_empty() -> bool {
        false
    }

    open spec fn spec_valid(v: Self::Model, field_id: u8, order: ByteOrder) -> bool {
        true
    }

    fn from_ltv(field_id: u8, data: &[u8], order: ByteOrder) -> (r: LTVResult<i32>) {
        if data.len() != 4 {
            Err(LTVError::WrongSize { field_id, expected: 4, recieved: data.len() })
        } else {
            let v = decode_uint(data, order);
            Ok(#[verifier::truncate] ((v as u32) as i32))
        }
    }

    fn to_ltv(&self, order: ByteOrder) -> (r: Vec<u8>) {
        encode_uint((#[verifier::truncate] (*self as u32)) as u128, 4, order)
    }

    fn default_when_absent(field_id: u8) -> (r: LTVResult<i32>) {
        Err(LTVError::NotFound(field_id))
    }

    fn omit_when_empty() -> (r: bool) {
        false
    }

    proof fn lemma_round_trip(v: Self::Model, field_id: u8, order: ByteOrder) {
        let x = v;
        lemma_uint_bytes_len((#[verifier::truncate] (v as u32)) as nat, 4, order);
        lemma_uint_round_trip((#[verifier::truncate] (v as u32)) as nat, 4, order);
        lemma_pow256_values();
        assert(#[verifier::truncate] ((#[verifier::truncate] (x as u32)) as i32) == x) by (bit_vector);
    }
}

impl LTVItem for u128 {
    type Model = u128;

    open spec fn model(&self) -> u128 {
        *self
    }

    open spec fn spec_to_ltv(v: u128, order: ByteOrder) -> Seq<u8> {
        uint_bytes(v as nat, 16, order)
    }

    open spec fn spec_from_ltv(field_id: u8, data: Seq<u8>, order: ByteOrder) -> LTVResult<u128> {
        if data.len() != 16 {
            Err(wrong_size(field_id, 16, data))
        } else {
            Ok(uint_value(data, order) as u128)
        }
    }

    open spec fn spec_when_absent(field_id: u8) -> LTVResult<u128> {
        Err(LTVError::NotFound(field_id))
    }

    open spec fn spec_omit_empty() -> bool {
        false
    }

    open spec fn spec_valid(v: Self::Model, field_id: u8, order: ByteOrder) -> bool {
        true
    }

    fn from_ltv(field_id: u8, data: &[u8], order: ByteOrder) -> (r: LTVResult<u128>) {
        if data.len() != 16 {
            Err(LTVError::WrongSize { field_id, expected: 16, recieved: data.len() })
        } else {
            let v = decode_uint(data, order);
            Ok(v as u128)
        }
    }

    fn to_ltv(&self, order: ByteOrder) -> (r: Vec<u8>) {
        encode_uint(*self as u128, 16, order)
    }

    fn default_when_absent(field_id: u8) -> (r: LTVResult<u128>) {
        Err(LTVError::NotFound(field_id))
    }

    fn omit_when_empty() -> (r: bool) {
        false
    }

    proof fn lemma_round_trip(v: Self::Model, field_id: u8, order: ByteOrder) {
        let x = v;
        lemma_uint_bytes_len(v as nat, 16, order);
        lemma_uint_round_trip(v as nat, 16, order);
        lemma_pow256_values();
    }
}

impl LTVItem for i128 {
    type Model = i128;

    open spec fn model(&self) -> i128 {
        *self
    }

    open spec fn spec_to_ltv(v: i128, order: ByteOrder) -> Seq<u8> {
        uint_bytes((#[verifier::truncate] (v as u128)) as nat, 16, order)
    }

    open spec fn spec_from_ltv(field_id: u8, data: Seq<u8>, order: ByteOrder) -> LTVResult<i128> {
        if data.len() != 16 {
            Err(wrong_size(field_id, 16, data))
        } else {
            Ok(#[verifier::truncate] ((uint_value(data, order) as u128) as i128))
        }
    }

    open spec fn spec_when_absent(field_id: u8) -> LTVResult<i128> {
        Err(LTVError::NotFound(field_id))
    }

    open spec fn spec_omit_empty() -> bool {
        false
    }

    open spec fn spec_valid(v: Self::Model, field_id: u8, order: ByteOrder) -> bool {
        true
    }

    fn from_ltv(field_id: u8, data: &[u8], order: ByteOrder) -> (r: LTVResult<i128>) {
        if data.len() != 16 {
            Err(LTVError::WrongSize { field_id, expected: 16, recieved: data.len() })
        } else {
            let v = decode_uint(data, order);
            Ok(#[verifier::truncate] ((v as u128) as i128))
        }
    }

    fn to_ltv(&self, order: ByteOrder) -> (r: Vec<u8>) {
        encode_uint((#[verifier::truncate] (*self as u128)) as u128, 16, order)
    }

    fn default_when_absent(field_id: u8) -> (r: LTVResult<i128>) {
        Err(LTVError::NotFound(field_id))
    }

    fn omit_when_empty() -> (r: bool) {
        false
    }

    proof fn lemma_round_trip(v: Self::Model, field_id: u8, order: ByteOrder) {
        let x = v;
        lemma_uint_bytes_len((#[verifier::truncate] (v as u128)) as nat, 16, order);
        lemma_uint_round_trip((#[verifier::truncate] (v as u128)) as nat, 16, order);
        lemma_pow256_values();
        assert(#[verifier::truncate] ((#[verifier::truncate] (x as u128)) as i128) == x) by (bit_vector);
    }
}

/// Raw bytes: the body is the bytes themselves, of any length.
impl LTVItem for Vec<u8> {
    type Model = Seq<u8>;

    open spec fn model(&self) -> Seq<u8> {
        self@
    }

    open spec fn spec_to_ltv(v: Seq<u8>, order: ByteOrder) -> Seq<u8> {
        v
    }

    open spec fn spec_from_ltv(field_id: u8, data: Seq<u8>, order: ByteOrder) -> LTVResult<Seq<u8>> {
        Ok(data)
    }

    open spec fn spec_when_absent(field_id: u8) -> LTVResult<Seq<u8>> {
        Err(LTVError::NotFound(field_id))
    }

    open spec fn spec_omit_empty() -> bool {
        false
    }

    open spec fn spec_valid(v: Seq<u8>, field_id: u8, order: ByteOrder) -> bool {
        true
    }

    fn from_ltv(field_id: u8, data: &[u8], order: ByteOrder) -> (r: LTVResult<Vec<u8>>) {
        Ok(vstd::slice::slice_to_vec(data))
    }

    fn to_ltv(&self, order: ByteOrder) -> (r: Vec<u8>) {
        vstd::slice::slice_to_vec(self.as_slice())
    }

    fn default_when_absent(field_id: u8) -> (r: LTVResult<Vec<u8>>) {
        Err(LTVError::NotFound(field_id))
    }

    fn omit_when_empty() -> (r: bool) {
        false
    }

    proof fn lemma_round_trip(v: Seq<u8>, field_id: u8, order: ByteOrder) {
    }
}

/// A fixed-size byte array: the body is exactly its `N` bytes.
impl<const N: usize> LTVItem for [u8; N] {
    type Model = Seq<u8>;

    open spec fn model(&self) -> Seq<u8> {
        self@
    }

    open spec fn spec_to_ltv(v: Seq<u8>, order: ByteOrder) -> Seq<u8> {
        v
    }

    open spec fn spec_from_ltv(field_id: u8, data: Seq<u8>, order: ByteOrder) -> LTVResult<Seq<u8>> {
        if data.len() != N {
            Err(wrong_size(field_id, N as nat, data))
        } else {
            Ok(data)
        }
    }

    open spec fn spec_when_absent(field_id: u8) -> LTVResult<Seq<u8>> {
        Err(LTVError::NotFound(field_id))
    }

    open spec fn spec_omit_empty() -> bool {
        false
    }

    open spec fn spec_valid(v: Seq<u8>, field_id: u8, order: ByteOrder) -> bool {
        v.len() == N
    }

    fn from_ltv(field_id: u8, data: &[u8], order: ByteOrder) -> (r: LTVResult<[u8; N]>) {
        if data.len() != N {
            Err(LTVError::WrongSize { field_id, expected: N, recieved: data.len() })
        } else {
            let mut a: [u8; N] = [0u8; N];
            let mut i: usize = 0;
            while i < N
                invariant
                    i <= N,
                    data@.len() == N,
                    a@.len() == N,
                    forall|j: int| 0 <= j < i ==> a@[j] == data@[j],
                decreases N - i,
            {
                a[i] = data[i];
                i = i + 1;
            }
            assert(a@ =~= data@);
            Ok(a)
        }
    }

    fn to_ltv(&self, order: ByteOrder) -> (r: Vec<u8>) {
        vstd::slice::slice_to_vec(vstd::array::array_as_slice(self))
    }

    fn default_when_absent(field_id: u8) -> (r: LTVResult<[u8; N]>) {
        Err(LTVError::NotFound(field_id))
    }

    fn omit_when_empty() -> (r: bool) {
        false
    }

    proof fn lemma_round_trip(v: Seq<u8>, field_id: u8, order: ByteOrder) {
    }
}

/// An optional value: `None` has an empty body, which is never written, and
/// an empty or missing body reads back as `None`.
impl<T: LTVItem> LTVItem for Option<T> {
    type Model = Option<T::Model>;

    open spec fn model(&self) -> Option<T::Model> {
        match self {
            Some(x) => Some(x.model()),
            None => None,
        }
    }

    open spec fn spec_to_ltv(v: Option<T::Model>, order: ByteOrder) -> Seq<u8> {
        match v {
            Some(x) => T::spec_to_ltv(x, order),
            None => Seq::empty(),
        }
    }

    open spec fn spec_from_ltv(field_id: u8, data: Seq<u8>, order: ByteOrder) -> LTVResult<Option<T::Model>> {
        if data.len() == 0 {
            Ok(None)
        } else {
            match T::spec_from_ltv(field_id, data, order) {
                Ok(x) => Ok(Some(x)),
                Err(e) => Err(e),
            }
        }
    }

    open spec fn spec_when_absent(field_id: u8) -> LTVResult<Option<T::Model>> {
        Ok(None)
    }

    open spec fn spec_omit_empty() -> bool {
        true
    }

    open spec fn spec_valid(v: Option<T::Model>, field_id: u8, order: ByteOrder) -> bool {
        match v {
            Some(x) => T::spec_valid(x, field_id, order) && T::spec_to_ltv(x, order).len() > 0,
            None => true,
        }
    }

    fn from_ltv(field_id: u8, data: &[u8], order: ByteOrder) -> (r: LTVResult<Option<T>>) {
        if data.len() == 0 {
            Ok(None)
        } else {
            match T::from_ltv(field_id, data, order) {
                Ok(x) => Ok(Some(x)),
                Err(e) => Err(e),
            }
        }
    }

    fn to_ltv(&self, order: ByteOrder) -> (r: Vec<u8>) {
        match self {
            Some(x) => x.to_ltv(order),
            None => Vec::new(),
        }
    }

    fn default_when_absent(field_id: u8) -> (r: LTVResult<Option<T>>) {
        Ok(None)
    }

    fn omit_when_empty() -> (r: bool) {
        true
    }

    proof fn lemma_round_trip(v: Option<T::Model>, field_id: u8, order: ByteOrder) {
        if let Some(x) = v {
            T::lemma_round_trip(x, field_id, order);
        }
    }
}

/// A marker that carries no value: present or absent, it reads as `()`, and
/// a body for it must be empty.
impl LTVItem for () {
    type Model = ();

    open spec fn model(&self) -> () {
        ()
    }

    open spec fn spec_to_ltv(v: (), order: ByteOrder) -> Seq<u8> {
        Seq::empty()
    }

    open spec fn spec_from_ltv(field_id: u8, data: Seq<u8>, order: ByteOrder) -> LTVResult<()> {
        if data.len() == 0 {
            Ok(())
        } else {
            Err(LTVError::UnexpectedValue(field_id, MARKER_WITH_VALUE))
        }
    }

    open spec fn spec_when_absent(field_id: u8) -> LTVResult<()> {
        Ok(())
    }

    open spec fn spec_omit_empty() -> bool {
        false
    }

    open spec fn spec_valid(v: (), field_id: u8, order: ByteOrder) -> bool {
        true
    }

    fn from_ltv(field_id: u8, data: &[u8], order: ByteOrder) -> (r: LTVResult<()>) {
        if data.len() == 0 {
            Ok(())
        } else {
            Err(LTVError::UnexpectedValue(field_id, MARKER_WITH_VALUE))
        }
    }

    fn to_ltv(&self, order: ByteOrder) -> (r: Vec<u8>) {
        Vec::new()
    }

    fn default_when_absent(field_id: u8) -> (r: LTVResult<()>) {
        Ok(())
    }

    fn omit_when_empty() -> (r: bool) {
        false
    }

    proof fn lemma_round_trip(v: (), field_id: u8, order: ByteOrder) {
    }
}

/// The message of the error for a marker that was given a value.
pub const MARKER_WITH_VALUE: &'static str = "a marker carries no value";

} // verus!
