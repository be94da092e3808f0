//! Composite values with hand-written item implementations: plain structs
//! of tagged fields, a transparent wrapper, repeated fields and a tagged union.
use vstd::prelude::*;

use crate::error::{LTVError, LTVResult};
use crate::framing::{read_object, spec_read_object, LTVObject, LTVObjectConvertable};
use crate::codec::{lemma_pow256_values, lemma_uint_bytes_len};
use crate::laws::{fits, lemma_parse_frame, lemma_field_round_trip, lemma_get_field, lemma_many_round_trip, lemma_skip_field};
use crate::object::LTVItem;
use crate::reader::{models, spec_get, spec_many, spec_parse_ltv, LTVReader};
use crate::writer::{spec_field, spec_fields, spec_frame, LTVContainer, LTVWriter};
use crate::ByteOrder;

verus! {

/// One byte under tag 1.
#[derive(Debug, PartialEq, Eq)]
pub struct BasicLTV {
    pub field1: u8,
}

/// A byte under tag 1 and a 16-bit number under tag 2.
#[derive(Debug, PartialEq, Eq)]
pub struct InnerStructData {
    pub field1: u8,
    pub field2: u16,
}

impl LTVItem for BasicLTV {
    type Model = u8;

    open spec fn model(&self) -> u8 {
        self.field1.model()
    }

    open spec fn spec_to_ltv(v: u8, order: ByteOrder) -> Seq<u8> {
        spec_field::<u8>(1, v, 1, order)
    }

    open spec fn spec_from_ltv(field_id: u8, data: Seq<u8>, order: ByteOrder) -> LTVResult<u8> {
        match spec_get::<u8>(data, 1, 1, order) {
            Err(e) => Err(LTVError::InnerParseError(Box::new(e), "BasicLTV::field1")),
            Ok(a0) => {
                Ok(a0)
            },
        }
    }

    open spec fn spec_when_absent(field_id: u8) -> LTVResult<u8> {
        Err(LTVError::NotFound(field_id))
    }

    open spec fn spec_omit_empty() -> bool {
        false
    }

    open spec fn spec_valid(v: u8, field_id: u8, order: ByteOrder) -> bool {
        u8::spec_valid(v, 1, order) && fits::<u8>(v, 1, order)
    }

    fn from_ltv(field_id: u8, data: &[u8], order: ByteOrder) -> (r: LTVResult<BasicLTV>) {
        let reader = LTVReader::new(data, order, 1);
        let field1 = match reader.get_item::<u8>(1) {
            Ok(x) => x,
            Err(e) => {
                return Err(LTVError::InnerParseError(Box::new(e), "BasicLTV::field1"));
            },
        };
        Ok(BasicLTV { field1 })
    }

    fn to_ltv(&self, order: ByteOrder) -> (r: Vec<u8>) {
        let mut writer = LTVWriter::new(Vec::new(), order, 1);
        writer.write_ltv(1, &self.field1);
        let w = writer.into_inner();
        assert(w@ =~= Self::spec_to_ltv(self.model(), order));
        w
    }

    fn default_when_absent(field_id: u8) -> (r: LTVResult<BasicLTV>) {
        Err(LTVError::NotFound(field_id))
    }

    fn omit_when_empty() -> (r: bool) {
        false
    }

    proof fn lemma_round_trip(v: u8, field_id: u8, order: ByteOrder) {
        lemma_field_round_trip::<u8>(1, v, 1, order);
    }
}

impl LTVItem for InnerStructData {
    type Model = (u8, u16);

    open spec fn model(&self) -> (u8, u16) {
        (self.field1.model(), self.field2.model())
    }

    open spec fn spec_to_ltv(v: (u8, u16), order: ByteOrder) -> Seq<u8> {
        spec_field::<u8>(1, v.0, 1, order) + spec_field::<u16>(2, v.1, 1, order)
    }

    open spec fn spec_from_ltv(field_id: u8, data: Seq<u8>, order: ByteOrder) -> LTVResult<(u8, u16)> {
        match spec_get::<u8>(data, 1, 1, order) {
            Err(e) => Err(LTVError::InnerParseError(Box::new(e), "InnerStructData::field1")),
            Ok(a0) => {
                match spec_get::<u16>(data, 2, 1, order) {
                    Err(e) => Err(LTVError::InnerParseError(Box::new(e), "InnerStructData::field2")),
                    Ok(a1) => {
                        Ok((a0, a1))
                    },
                }
            },
        }
    }

    open spec fn spec_when_absent(field_id: u8) -> LTVResult<(u8, u16)> {
        Err(LTVError::NotFound(field_id))
    }

    open spec fn spec_omit_empty() -> bool {
        false
    }

    open spec fn spec_valid(v: (u8, u16), field_id: u8, order: ByteOrder) -> bool {
        u8::spec_valid(v.0, 1, order) && fits::<u8>(v.0, 1, order)
            && u16::spec_valid(v.1, 2, order) && fits::<u16>(v.1, 1, order)
    }

    fn from_ltv(field_id: u8, data: &[u8], order: ByteOrder) -> (r: LTVResult<InnerStructData>) {
        let reader = LTVReader::new(data, order, 1);
        let field1 = match reader.get_item::<u8>(1) {
            Ok(x) => x,
            Err(e) => {
                return Err(LTVError::InnerParseError(Box::new(e), "InnerStructData::field1"));
            },
        };
        let field2 = match reader.get_item::<u16>(2) {
            Ok(x) => x,
            Err(e) => {
                return Err(LTVError::InnerParseError(Box::new(e), "InnerStructData::field2"));
            },
        };
        Ok(InnerStructData { field1, field2 })
    }

    fn to_ltv(&self, order: ByteOrder) -> (r: Vec<u8>) {
        let mut writer = LTVWriter::new(Vec::new(), order, 1);
        writer.write_ltv(1, &self.field1);
        writer.write_ltv(2, &self.field2);
        let w = writer.into_inner();
        assert(w@ =~= Self::spec_to_ltv(self.model(), order));
        w
    }

    fn default_when_absent(field_id: u8) -> (r: LTVResult<InnerStructData>) {
        Err(LTVError::NotFound(field_id))
    }

    fn omit_when_empty() -> (r: bool) {
        false
    }

    proof fn lemma_round_trip(v: (u8, u16), field_id: u8, order: ByteOrder) {
        let f0 = spec_field::<u8>(1, v.0, 1, order);
        let f1 = spec_field::<u16>(2, v.1, 1, order);
        lemma_skip_field::<u16>(2, v.1, Seq::empty(), 1, 1, order);
        assert(f1 + Seq::<u8>::empty() =~= f1);
        lemma_get_field::<u8>(1, v.0, f1, 1, order);
        lemma_skip_field::<u8>(1, v.0, f1, 2, 1, order);
        lemma_get_field::<u16>(2, v.1, Seq::empty(), 1, order);
    }
}

/// A byte under tag 1 and three bytes under tag 2.
#[derive(Debug, PartialEq, Eq)]
pub struct ExampleStruct {
    pub field1: u8,
    pub field2: [u8; 3],
}

/// An object (identifier 10, one-byte prefix, big-endian) of a byte under
/// tag 1 and an optional byte under tag 2.
#[derive(Debug, PartialEq, Eq)]
pub struct ExampleSet {
    pub field1: u8,
    pub field2: Option<u8>,
}

/// An object (identifier 10, two-byte prefix, little-endian) of a 16-bit
/// number under tag 1 and an optional byte under tag 2.
#[derive(Debug, PartialEq, Eq)]
pub struct LTVObjectExample {
    pub field1: u16,
    pub field2: Option<u8>,
}

/// An object (identifier 10, one-byte prefix, big-endian) with a nested
/// struct under tag 1 and an optional byte under tag 2.
#[derive(Debug, PartialEq, Eq)]
pub struct ExampleNested {
    pub field1: InnerStructData,
    pub field2: Option<u8>,
}

/// An object (identifier 10, one-byte prefix, big-endian) that is its number
/// alone: its body is the body of the number.
#[derive(Debug, PartialEq, Eq)]
pub struct LTVObjectUnnamed(pub u32);

/// An object (identifier 11, two-byte prefix, little-endian) that is its
/// number alone.
#[derive(Debug, PartialEq, Eq)]
pub struct LTVObjectCount(pub u32);

/// An object (identifier 1, one-byte prefix, big-endian) with a wrapped
/// number under tag 1.
#[derive(Debug, PartialEq, Eq)]
pub struct ItemWihtUnnamedField {
    pub unnamed: LTVObjectUnnamed,
}

impl LTVItem for ExampleStruct {
    type Model = (u8, Seq<u8>);

    open spec fn model(&self) -> (u8, Seq<u8>) {
        (self.field1.model(), self.field2.model())
    }

    open spec fn spec_to_ltv(v: (u8, Seq<u8>), order: ByteOrder) -> Seq<u8> {
        spec_field::<u8>(1, v.0, 1, order) + spec_field::<[u8; 3]>(2, v.1, 1, order)
    }

    open spec fn spec_from_ltv(field_id: u8, data: Seq<u8>, order: ByteOrder) -> LTVResult<(u8, Seq<u8>)> {
        match spec_get::<u8>(data, 1, 1, order) {
            Err(e) => Err(LTVError::InnerParseError(Box::new(e), "ExampleStruct::field1")),
            Ok(a0) => {
                match spec_get::<[u8; 3]>(data, 2, 1, order) {
                    Err(e) => Err(LTVError::InnerParseError(Box::new(e), "ExampleStruct::field2")),
                    Ok(a1) => {
                        Ok((a0, a1))
                    },
                }
            },
        }
    }

    open spec fn spec_when_absent(field_id: u8) -> LTVResult<(u8, Seq<u8>)> {
        Err(LTVError::NotFound(field_id))
    }

    open spec fn spec_omit_empty() -> bool {
        false
    }

    open spec fn spec_valid(v: (u8, Seq<u8>), field_id: u8, order: ByteOrder) -> bool {
        u8::spec_valid(v.0, 1, order) && fits::<u8>(v.0, 1, order)
            && <[u8; 3] as LTVItem>::spec_valid(v.1, 2, order) && fits::<[u8; 3]>(v.1, 1, order)
    }

    fn from_ltv(field_id: u8, data: &[u8], order: ByteOrder) -> (r: LTVResult<ExampleStruct>) {
        let reader = LTVReader::new(data, order, 1);
        let field1 = match reader.get_item::<u8>(1) {
            Ok(x) => x,
            Err(e) => {
                return Err(LTVError::InnerParseError(Box::new(e), "ExampleStruct::field1"));
            },
        };
        let field2 = match reader.get_item::<[u8; 3]>(2) {
            Ok(x) => x,
            Err(e) => {
                return Err(LTVError::InnerParseError(Box::new(e), "ExampleStruct::field2"));
            },
        };
        Ok(ExampleStruct { field1, field2 })
    }

    fn to_ltv(&self, order: ByteOrder) -> (r: Vec<u8>) {
        let mut writer = LTVWriter::new(Vec::new(), order, 1);
        writer.write_ltv(1, &self.field1);
        writer.write_ltv(2, &self.field2);
        let w = writer.into_inner();
        assert(w@ =~= Self::spec_to_ltv(self.model(), order));
        w
    }

    fn default_when_absent(field_id: u8) -> (r: LTVResult<ExampleStruct>) {
        Err(LTVError::NotFound(field_id))
    }

    fn omit_when_empty() -> (r: bool) {
        false
    }

    proof fn lemma_round_trip(v: (u8, Seq<u8>), field_id: u8, order: ByteOrder) {
        let f0 = spec_field::<u8>(1, v.0, 1, order);
        let f1 = spec_field::<[u8; 3]>(2, v.1, 1, order);
        lemma_skip_field::<[u8; 3]>(2, v.1, Seq::empty(), 1, 1, order);
        assert(f1 + Seq::<u8>::empty() =~= f1);
        lemma_get_field::<u8>(1, v.0, f1, 1, order);
        lemma_skip_field::<u8>(1, v.0, f1, 2, 1, order);
        lemma_get_field::<[u8; 3]>(2, v.1, Seq::empty(), 1, order);
    }
}

impl LTVItem for ExampleSet {
    type Model = (u8, Option<u8>);

    open spec fn model(&self) -> (u8, Option<u8>) {
        (self.field1.model(), self.field2.model())
    }

    open spec fn spec_to_ltv(v: (u8, Option<u8>), order: ByteOrder) -> Seq<u8> {
        spec_field::<u8>(1, v.0, 1, order) + spec_field::<Option<u8>>(2, v.1, 1, order)
    }

    open spec fn spec_from_ltv(field_id: u8, data: Seq<u8>, order: ByteOrder) -> LTVResult<(u8, Option<u8>)> {
        match spec_get::<u8>(data, 1, 1, order) {
            Err(e) => Err(LTVError::InnerParseError(Box::new(e), "ExampleSet::field1")),
            Ok(a0) => {
                match spec_get::<Option<u8>>(data, 2, 1, order) {
                    Err(e) => Err(LTVError::InnerParseError(Box::new(e), "ExampleSet::field2")),
                    Ok(a1) => {
                        Ok((a0, a1))
                    },
                }
            },
        }
    }

    open spec fn spec_when_absent(field_id: u8) -> LTVResult<(u8, Option<u8>)> {
        Err(LTVError::NotFound(field_id))
    }

    open spec fn spec_omit_empty() -> bool {
        false
    }

    open spec fn spec_valid(v: (u8, Option<u8>), field_id: u8, order: ByteOrder) -> bool {
        u8::spec_valid(v.0, 1, order) && fits::<u8>(v.0, 1, order)
            && <Option<u8> as LTVItem>::spec_valid(v.1, 2, order) && fits::<Option<u8>>(v.1, 1, order)
    }

    fn from_ltv(field_id: u8, data: &[u8], order: ByteOrder) -> (r: LTVResult<ExampleSet>) {
        let reader = LTVReader::new(data, order, 1);
        let field1 = match reader.get_item::<u8>(1) {
            Ok(x) => x,
            Err(e) => {
                return Err(LTVError::InnerParseError(Box::new(e), "ExampleSet::field1"));
            },
        };
        let field2 = match reader.get_item::<Option<u8>>(2) {
            Ok(x) => x,
            Err(e) => {
                return Err(LTVError::InnerParseError(Box::new(e), "ExampleSet::field2"));
            },
        };
        Ok(ExampleSet { field1, field2 })
    }

    fn to_ltv(&self, order: ByteOrder) -> (r: Vec<u8>) {
        let mut writer = LTVWriter::new(Vec::new(), order, 1);
        writer.write_ltv(1, &self.field1);
        writer.write_ltv(2, &self.field2);
        let w = writer.into_inner();
        assert(w@ =~= Self::spec_to_ltv(self.model(), order));
        w
    }

    fn default_when_absent(field_id: u8) -> (r: LTVResult<ExampleSet>) {
        Err(LTVError::NotFound(field_id))
    }

    fn omit_when_empty() -> (r: bool) {
        false
    }

    proof fn lemma_round_trip(v: (u8, Option<u8>), field_id: u8, order: ByteOrder) {
        let f0 = spec_field::<u8>(1, v.0, 1, order);
        let f1 = spec_field::<Option<u8>>(2, v.1, 1, order);
        lemma_skip_field::<Option<u8>>(2, v.1, Seq::empty(), 1, 1, order);
        assert(f1 + Seq::<u8>::empty() =~= f1);
        lemma_get_field::<u8>(1, v.0, f1, 1, order);
        lemma_skip_field::<u8>(1, v.0, f1, 2, 1, order);
        lemma_get_field::<Option<u8>>(2, v.1, Seq::empty(), 1, order);
    }
}

impl LTVObject for ExampleSet {
    open spec fn spec_object_id() -> u8 {
        10
    }

    open spec fn spec_length_size() -> nat {
        1
    }

    open spec fn spec_byte_order() -> ByteOrder {
        ByteOrder::BE
    }

    fn object_id() -> (r: u8) {
        10
    }

    fn length_size() -> (r: usize) {
        1
    }

    fn byte_order() -> (r: ByteOrder) {
        ByteOrder::BE
    }

    proof fn lemma_length_size() {
    }
}

impl LTVItem for LTVObjectExample {
    type Model = (u16, Option<u8>);

    open spec fn model(&self) -> (u16, Option<u8>) {
        (self.field1.model(), self.field2.model())
    }

    open spec fn spec_to_ltv(v: (u16, Option<u8>), order: ByteOrder) -> Seq<u8> {
        spec_field::<u16>(1, v.0, 1, order) + spec_field::<Option<u8>>(2, v.1, 1, order)
    }

    open spec fn spec_from_ltv(field_id: u8, data: Seq<u8>, order: ByteOrder) -> LTVResult<(u16, Option<u8>)> {
        match spec_get::<u16>(data, 1, 1, order) {
            Err(e) => Err(LTVError::InnerParseError(Box::new(e), "LTVObjectExample::field1")),
            Ok(a0) => {
                match spec_get::<Option<u8>>(data, 2, 1, order) {
                    Err(e) => Err(LTVError::InnerParseError(Box::new(e), "LTVObjectExample::field2")),
                    Ok(a1) => {
                        Ok((a0, a1))
                    },
                }
            },
        }
    }

    open spec fn spec_when_absent(field_id: u8) -> LTVResult<(u16, Option<u8>)> {
        Err(LTVError::NotFound(field_id))
    }

    open spec fn spec_omit_empty() -> bool {
        false
    }

    open spec fn spec_valid(v: (u16, Option<u8>), field_id: u8, order: ByteOrder) -> bool {
        u16::spec_valid(v.0, 1, order) && fits::<u16>(v.0, 1, order)
            && <Option<u8> as LTVItem>::spec_valid(v.1, 2, order) && fits::<Option<u8>>(v.1, 1, order)
    }

    fn from_ltv(field_id: u8, data: &[u8], order: ByteOrder) -> (r: LTVResult<LTVObjectExample>) {
        let reader = LTVReader::new(data, order, 1);
        let field1 = match reader.get_item::<u16>(1) {
            Ok(x) => x,
            Err(e) => {
                return Err(LTVError::InnerParseError(Box::new(e), "LTVObjectExample::field1"));
            },
        };
        let field2 = match reader.get_item::<Option<u8>>(2) {
            Ok(x) => x,
            Err(e) => {
                return Err(LTVError::InnerParseError(Box::new(e), "LTVObjectExample::field2"));
            },
        };
        Ok(LTVObjectExample { field1, field2 })
    }

    fn to_ltv(&self, order: ByteOrder) -> (r: Vec<u8>) {
        let mut writer = LTVWriter::new(Vec::new(), order, 1);
        writer.write_ltv(1, &self.field1);
        writer.write_ltv(2, &self.field2);
        let w = writer.into_inner();
        assert(w@ =~= Self::spec_to_ltv(self.model(), order));
        w
    }

    fn default_when_absent(field_id: u8) -> (r: LTVResult<LTVObjectExample>) {
        Err(LTVError::NotFound(field_id))
    }

    fn omit_when_empty() -> (r: bool) {
        false
    }

    proof fn lemma_round_trip(v: (u16, Option<u8>), field_id: u8, order: ByteOrder) {
        let f0 = spec_field::<u16>(1, v.0, 1, order);
        let f1 = spec_field::<Option<u8>>(2, v.1, 1, order);
        lemma_skip_field::<Option<u8>>(2, v.1, Seq::empty(), 1, 1, order);
        assert(f1 + Seq::<u8>::empty() =~= f1);
        lemma_get_field::<u16>(1, v.0, f1, 1, order);
        lemma_skip_field::<u16>(1, v.0, f1, 2, 1, order);
        lemma_get_field::<Option<u8>>(2, v.1, Seq::empty(), 1, order);
    }
}

impl LTVObject for LTVObjectExample {
    open spec fn spec_object_id() -> u8 {
        10
    }

    open spec fn spec_length_size() -> nat {
        2
    }

    open spec fn spec_byte_order() -> ByteOrder {
        ByteOrder::LE
    }

    fn object_id() -> (r: u8) {
        10
    }

    fn length_size() -> (r: usize) {
        2
    }

    fn byte_order() -> (r: ByteOrder) {
        ByteOrder::LE
    }

    proof fn lemma_length_size() {
    }
}

impl LTVItem for ExampleNested {
    type Model = ((u8, u16), Option<u8>);

    open spec fn model(&self) -> ((u8, u16), Option<u8>) {
        (self.field1.model(), self.field2.model())
    }

    open spec fn spec_to_ltv(v: ((u8, u16), Option<u8>), order: ByteOrder) -> Seq<u8> {
        spec_field::<InnerStructData>(1, v.0, 1, order) + spec_field::<Option<u8>>(2, v.1, 1, order)
    }

    open spec fn spec_from_ltv(field_id: u8, data: Seq<u8>, order: ByteOrder) -> LTVResult<((u8, u16), Option<u8>)> {
        match spec_get::<InnerStructData>(data, 1, 1, order) {
            Err(e) => Err(LTVError::InnerParseError(Box::new(e), "ExampleNested::field1")),
            Ok(a0) => {
                match spec_get::<Option<u8>>(data, 2, 1, order) {
                    Err(e) => Err(LTVError::InnerParseError(Box::new(e), "ExampleNested::field2")),
                    Ok(a1) => {
                        Ok((a0, a1))
                    },
                }
            },
        }
    }

    open spec fn spec_when_absent(field_id: u8) -> LTVResult<((u8, u16), Option<u8>)> {
        Err(LTVError::NotFound(field_id))
    }

    open spec fn spec_omit_empty() -> bool {
        false
    }

    open spec fn spec_valid(v: ((u8, u16), Option<u8>), field_id: u8, order: ByteOrder) -> bool {
        InnerStructData::spec_valid(v.0, 1, order) && fits::<InnerStructData>(v.0, 1, order)
            && <Option<u8> as LTVItem>::spec_valid(v.1, 2, order) && fits::<Option<u8>>(v.1, 1, order)
    }

    fn from_ltv(field_id: u8, data: &[u8], order: ByteOrder) -> (r: LTVResult<ExampleNested>) {
        let reader = LTVReader::new(data, order, 1);
        let field1 = match reader.get_item::<InnerStructData>(1) {
            Ok(x) => x,
            Err(e) => {
                return Err(LTVError::InnerParseError(Box::new(e), "ExampleNested::field1"));
            },
        };
        let field2 = match reader.get_item::<Option<u8>>(2) {
            Ok(x) => x,
            Err(e) => {
                return Err(LTVError::InnerParseError(Box::new(e), "ExampleNested::field2"));
            },
        };
        Ok(ExampleNested { field1, field2 })
    }

    fn to_ltv(&self, order: ByteOrder) -> (r: Vec<u8>) {
        let mut writer = LTVWriter::new(Vec::new(), order, 1);
        writer.write_ltv(1, &self.field1);
        writer.write_ltv(2, &self.field2);
        let w = writer.into_inner();
        assert(w@ =~= Self::spec_to_ltv(self.model(), order));
        w
    }

    fn default_when_absent(field_id: u8) -> (r: LTVResult<ExampleNested>) {
        Err(LTVError::NotFound(field_id))
    }

    fn omit_when_empty() -> (r: bool) {
        false
    }

    proof fn lemma_round_trip(v: ((u8, u16), Option<u8>), field_id: u8, order: ByteOrder) {
        let f0 = spec_field::<InnerStructData>(1, v.0, 1, order);
        let f1 = spec_field::<Option<u8>>(2, v.1, 1, order);
        lemma_skip_field::<Option<u8>>(2, v.1, Seq::empty(), 1, 1, order);
        assert(f1 + Seq::<u8>::empty() =~= f1);
        lemma_get_field::<InnerStructData>(1, v.0, f1, 1, order);
        lemma_skip_field::<InnerStructData>(1, v.0, f1, 2, 1, order);
        lemma_get_field::<Option<u8>>(2, v.1, Seq::empty(), 1, order);
    }
}

impl LTVObject for ExampleNested {
    open spec fn spec_object_id() -> u8 {
        10
    }

    open spec fn spec_length_size() -> nat {
        1
    }

    open spec fn spec_byte_order() -> ByteOrder {
        ByteOrder::BE
    }

    fn object_id() -> (r: u8) {
        10
    }

    fn length_size() -> (r: usize) {
        1
    }

    fn byte_order() -> (r: ByteOrder) {
        ByteOrder::BE
    }

    proof fn lemma_length_size() {
    }
}

impl LTVItem for ItemWihtUnnamedField {
    type Model = u32;

    open spec fn model(&self) -> u32 {
        self.unnamed.model()
    }

    open spec fn spec_to_ltv(v: u32, order: ByteOrder) -> Seq<u8> {
        spec_field::<LTVObjectUnnamed>(1, v, 1, order)
    }

    open spec fn spec_from_ltv(field_id: u8, data: Seq<u8>, order: ByteOrder) -> LTVResult<u32> {
        match spec_get::<LTVObjectUnnamed>(data, 1, 1, order) {
            Err(e) => Err(LTVError::InnerParseError(Box::new(e), "ItemWihtUnnamedField::unnamed")),
            Ok(a0) => {
                Ok(a0)
            },
        }
    }

    open spec fn spec_when_absent(field_id: u8) -> LTVResult<u32> {
        Err(LTVError::NotFound(field_id))
    }

    open spec fn spec_omit_empty() -> bool {
        false
    }

    open spec fn spec_valid(v: u32, field_id: u8, order: ByteOrder) -> bool {
        LTVObjectUnnamed::spec_valid(v, 1, order) && fits::<LTVObjectUnnamed>(v, 1, order)
    }

    fn from_ltv(field_id: u8, data: &[u8], order: ByteOrder) -> (r: LTVResult<ItemWihtUnnamedField>) {
        let reader = LTVReader::new(data, order, 1);
        let unnamed = match reader.get_item::<LTVObjectUnnamed>(1) {
            Ok(x) => x,
            Err(e) => {
                return Err(LTVError::InnerParseError(Box::new(e), "ItemWihtUnnamedField::unnamed"));
            },
        };
        Ok(ItemWihtUnnamedField { unnamed })
    }

    fn to_ltv(&self, order: ByteOrder) -> (r: Vec<u8>) {
        let mut writer = LTVWriter::new(Vec::new(), order, 1);
        writer.write_ltv(1, &self.unnamed);
        let w = writer.into_inner();
        assert(w@ =~= Self::spec_to_ltv(self.model(), order));
        w
    }

    fn default_when_absent(field_id: u8) -> (r: LTVResult<ItemWihtUnnamedField>) {
        Err(LTVError::NotFound(field_id))
    }

    fn omit_when_empty() -> (r: bool) {
        false
    }

    proof fn lemma_round_trip(v: u32, field_id: u8, order: ByteOrder) {
        lemma_field_round_trip::<LTVObjectUnnamed>(1, v, 1, order);
    }
}

impl LTVObject for ItemWihtUnnamedField {
    open spec fn spec_object_id() -> u8 {
        1
    }

    open spec fn spec_length_size() -> nat {
        1
    }

    open spec fn spec_byte_order() -> ByteOrder {
        ByteOrder::BE
    }

    fn object_id() -> (r: u8) {
        1
    }

    fn length_size() -> (r: usize) {
        1
    }

    fn byte_order() -> (r: ByteOrder) {
        ByteOrder::BE
    }

    proof fn lemma_length_size() {
    }
}

impl LTVItem for LTVObjectUnnamed {
    type Model = u32;

    open spec fn model(&self) -> u32 {
        self.0
    }

    open spec fn spec_to_ltv(v: u32, order: ByteOrder) -> Seq<u8> {
        <u32 as LTVItem>::spec_to_ltv(v, order)
    }

    open spec fn spec_from_ltv(field_id: u8, data: Seq<u8>, order: ByteOrder) -> LTVResult<u32> {
        <u32 as LTVItem>::spec_from_ltv(field_id, data, order)
    }

    open spec fn spec_when_absent(field_id: u8) -> LTVResult<u32> {
        <u32 as LTVItem>::spec_when_absent(field_id)
    }

    open spec fn spec_omit_empty() -> bool {
        <u32 as LTVItem>::spec_omit_empty()
    }

    open spec fn spec_valid(v: u32, field_id: u8, order: ByteOrder) -> bool {
        <u32 as LTVItem>::spec_valid(v, field_id, order)
    }

    fn from_ltv(field_id: u8, data: &[u8], order: ByteOrder) -> (r: LTVResult<LTVObjectUnnamed>) {
        match u32::from_ltv(field_id, data, order) {
            Ok(x) => Ok(LTVObjectUnnamed(x)),
            Err(e) => Err(e),
        }
    }

    fn to_ltv(&self, order: ByteOrder) -> (r: Vec<u8>) {
        self.0.to_ltv(order)
    }

    fn default_when_absent(field_id: u8) -> (r: LTVResult<LTVObjectUnnamed>) {
        match u32::default_when_absent(field_id) {
            Ok(x) => Ok(LTVObjectUnnamed(x)),
            Err(e) => Err(e),
        }
    }

    fn omit_when_empty() -> (r: bool) {
        u32::omit_when_empty()
    }

    proof fn lemma_round_trip(v: u32, field_id: u8, order: ByteOrder) {
        <u32 as LTVItem>::lemma_round_trip(v, field_id, order);
    }
}

impl LTVObject for LTVObjectUnnamed {
    open spec fn spec_object_id() -> u8 {
        10
    }

    open spec fn spec_length_size() -> nat {
        1
    }

    open spec fn spec_byte_order() -> ByteOrder {
        ByteOrder::BE
    }

    fn object_id() -> (r: u8) {
        10
    }

    fn length_size() -> (r: usize) {
        1
    }

    fn byte_order() -> (r: ByteOrder) {
        ByteOrder::BE
    }

    proof fn lemma_length_size() {
    }
}

impl LTVItem for LTVObjectCount {
    type Model = u32;

    open spec fn model(&self) -> u32 {
        self.0
    }

    open spec fn spec_to_ltv(v: u32, order: ByteOrder) -> Seq<u8> {
        <u32 as LTVItem>::spec_to_ltv(v, order)
    }

    open spec fn spec_from_ltv(field_id: u8, data: Seq<u8>, order: ByteOrder) -> LTVResult<u32> {
        <u32 as LTVItem>::spec_from_ltv(field_id, data, order)
    }

    open spec fn spec_when_absent(field_id: u8) -> LTVResult<u32> {
        <u32 as LTVItem>::spec_when_absent(field_id)
    }

    open spec fn spec_omit_empty() -> bool {
        <u32 as LTVItem>::spec_omit_empty()
    }

    open spec fn spec_valid(v: u32, field_id: u8, order: ByteOrder) -> bool {
        <u32 as LTVItem>::spec_valid(v, field_id, order)
    }

    fn from_ltv(field_id: u8, data: &[u8], order: ByteOrder) -> (r: LTVResult<LTVObjectCount>) {
        match u32::from_ltv(field_id, data, order) {
            Ok(x) => Ok(LTVObjectCount(x)),
            Err(e) => Err(e),
        }
    }

    fn to_ltv(&self, order: ByteOrder) -> (r: Vec<u8>) {
        self.0.to_ltv(order)
    }

    fn default_when_absent(field_id: u8) -> (r: LTVResult<LTVObjectCount>) {
        match u32::default_when_absent(field_id) {
            Ok(x) => Ok(LTVObjectCount(x)),
            Err(e) => Err(e),
        }
    }

    fn omit_when_empty() -> (r: bool) {
        u32::omit_when_empty()
    }

    proof fn lemma_round_trip(v: u32, field_id: u8, order: ByteOrder) {
        <u32 as LTVItem>::lemma_round_trip(v, field_id, order);
    }
}

impl LTVObject for LTVObjectCount {
    open spec fn spec_object_id() -> u8 {
        11
    }

    open spec fn spec_length_size() -> nat {
        2
    }

    open spec fn spec_byte_order() -> ByteOrder {
        ByteOrder::LE
    }

    fn object_id() -> (r: u8) {
        11
    }

    fn length_size() -> (r: usize) {
        2
    }

    fn byte_order() -> (r: ByteOrder) {
        ByteOrder::LE
    }

    proof fn lemma_length_size() {
    }
}

/// An object (identifier 1, one-byte prefix, big-endian) whose bytes are
/// each a frame under tag 1.
#[derive(Debug, PartialEq, Eq)]
pub struct ItemWithList {
    pub items: Vec<u8>,
}

/// An object (identifier 1, one-byte prefix, little-endian) whose bytes are
/// each written as a frame under tag 1, and read back from the frames under
/// the tag it is decoded with.
#[derive(Debug, PartialEq, Eq)]
pub struct ItemUnnamedMany(pub Vec<u8>);

impl LTVItem for ItemWithList {
    type Model = Seq<u8>;

    open spec fn model(&self) -> Seq<u8> {
        self.items@
    }

    open spec fn spec_to_ltv(v: Seq<u8>, order: ByteOrder) -> Seq<u8> {
        spec_fields::<u8>(1, v, 1, order)
    }

    open spec fn spec_from_ltv(field_id: u8, data: Seq<u8>, order: ByteOrder) -> LTVResult<Seq<u8>> {
        match spec_many::<u8>(data, 1, 1, order) {
            Err(e) => Err(LTVError::InnerParseError(Box::new(e), "ItemWithList::items")),
            Ok(xs) => Ok(xs),
        }
    }

    open spec fn spec_when_absent(field_id: u8) -> LTVResult<Seq<u8>> {
        Err(LTVError::NotFound(field_id))
    }

    open spec fn spec_omit_empty() -> bool {
        false
    }

    open spec fn spec_valid(v: Seq<u8>, field_id: u8, order: ByteOrder) -> bool {
        true
    }

    fn from_ltv(field_id: u8, data: &[u8], order: ByteOrder) -> (r: LTVResult<ItemWithList>) {
        let reader = LTVReader::new(data, order, 1);
        match reader.get_many::<u8>(1) {
            Ok(xs) => {
                assert(models(xs@) =~= xs@);
                Ok(ItemWithList { items: xs })
            },
            Err(e) => Err(LTVError::InnerParseError(Box::new(e), "ItemWithList::items")),
        }
    }

    fn to_ltv(&self, order: ByteOrder) -> (r: Vec<u8>) {
        let mut writer = LTVWriter::new(Vec::new(), order, 1);
        writer.write_many(1, &self.items);
        assert(models(self.items@) =~= self.items@);
        let w = writer.into_inner();
        assert(w@ =~= Self::spec_to_ltv(self.model(), order));
        w
    }

    fn default_when_absent(field_id: u8) -> (r: LTVResult<ItemWithList>) {
        Err(LTVError::NotFound(field_id))
    }

    fn omit_when_empty() -> (r: bool) {
        false
    }

    proof fn lemma_round_trip(v: Seq<u8>, field_id: u8, order: ByteOrder) {
        lemma_pow256_values();
        assert forall|i: int| 0 <= i < v.len() implies {
            &&& <u8 as LTVItem>::spec_valid(#[trigger] v[i], 1, order)
            &&& fits::<u8>(v[i], 1, order)
            &&& !(<u8 as LTVItem>::spec_omit_empty() && <u8 as LTVItem>::spec_to_ltv(v[i], order).len() == 0)
        } by {
            lemma_uint_bytes_len(v[i] as nat, 1, order);
        }
        lemma_many_round_trip::<u8>(1, v, Seq::empty(), 1, order);
        assert(spec_fields::<u8>(1, v, 1, order) + Seq::<u8>::empty() =~= spec_fields::<u8>(1, v, 1, order));
        assert(v + Seq::<u8>::empty() =~= v);
    }
}

impl LTVObject for ItemWithList {
    open spec fn spec_object_id() -> u8 {
        1
    }

    open spec fn spec_length_size() -> nat {
        1
    }

    open spec fn spec_byte_order() -> ByteOrder {
        ByteOrder::BE
    }

    fn object_id() -> (r: u8) {
        1
    }

    fn length_size() -> (r: usize) {
        1
    }

    fn byte_order() -> (r: ByteOrder) {
        ByteOrder::BE
    }

    proof fn lemma_length_size() {
    }
}

impl LTVItem for ItemUnnamedMany {
    type Model = Seq<u8>;

    open spec fn model(&self) -> Seq<u8> {
        self.0@
    }

    open spec fn spec_to_ltv(v: Seq<u8>, order: ByteOrder) -> Seq<u8> {
        spec_fields::<u8>(1, v, 1, order)
    }

    open spec fn spec_from_ltv(field_id: u8, data: Seq<u8>, order: ByteOrder) -> LTVResult<Seq<u8>> {
        match spec_many::<u8>(data, field_id, 1, order) {
            Err(e) => Err(LTVError::InnerParseError(Box::new(e), "ItemUnnamedMany::0")),
            Ok(xs) => Ok(xs),
        }
    }

    open spec fn spec_when_absent(field_id: u8) -> LTVResult<Seq<u8>> {
        Err(LTVError::NotFound(field_id))
    }

    open spec fn spec_omit_empty() -> bool {
        false
    }

    open spec fn spec_valid(v: Seq<u8>, field_id: u8, order: ByteOrder) -> bool {
        field_id == 1
    }

    fn from_ltv(field_id: u8, data: &[u8], order: ByteOrder) -> (r: LTVResult<ItemUnnamedMany>) {
        let reader = LTVReader::new(data, order, 1);
        match reader.get_many::<u8>(field_id) {
            Ok(xs) => {
                assert(models(xs@) =~= xs@);
                Ok(ItemUnnamedMany(xs))
            },
            Err(e) => Err(LTVError::InnerParseError(Box::new(e), "ItemUnnamedMany::0")),
        }
    }

    fn to_ltv(&self, order: ByteOrder) -> (r: Vec<u8>) {
        let mut writer = LTVWriter::new(Vec::new(), order, 1);
        writer.write_many(1, &self.0);
        assert(models(self.0@) =~= self.0@);
        let w = writer.into_inner();
        assert(w@ =~= Self::spec_to_ltv(self.model(), order));
        w
    }

    fn default_when_absent(field_id: u8) -> (r: LTVResult<ItemUnnamedMany>) {
        Err(LTVError::NotFound(field_id))
    }

    fn omit_when_empty() -> (r: bool) {
        false
    }

    proof fn lemma_round_trip(v: Seq<u8>, field_id: u8, order: ByteOrder) {
        lemma_pow256_values();
        assert forall|i: int| 0 <= i < v.len() implies {
            &&& <u8 as LTVItem>::spec_valid(#[trigger] v[i], 1, order)
            &&& fits::<u8>(v[i], 1, order)
            &&& !(<u8 as LTVItem>::spec_omit_empty() && <u8 as LTVItem>::spec_to_ltv(v[i], order).len() == 0)
        } by {
            lemma_uint_bytes_len(v[i] as nat, 1, order);
        }
        lemma_many_round_trip::<u8>(1, v, Seq::empty(), 1, order);
        assert(spec_fields::<u8>(1, v, 1, order) + Seq::<u8>::empty() =~= spec_fields::<u8>(1, v, 1, order));
        assert(v + Seq::<u8>::empty() =~= v);
    }
}

impl LTVObject for ItemUnnamedMany {
    open spec fn spec_object_id() -> u8 {
        1
    }

    open spec fn spec_length_size() -> nat {
        1
    }

    open spec fn spec_byte_order() -> ByteOrder {
        ByteOrder::LE
    }

    fn object_id() -> (r: u8) {
        1
    }

    fn length_size() -> (r: usize) {
        1
    }

    fn byte_order() -> (r: ByteOrder) {
        ByteOrder::LE
    }

    proof fn lemma_length_size() {
    }
}

/// A tagged union of objects, framed with a two-byte prefix, little-endian.
/// Each variant is known by its object identifier.
#[derive(Debug, PartialEq, Eq)]
pub enum MyObjects {
    Object1(LTVObjectExample),
    Object2(LTVObjectCount),
}

/// The model of a `MyObjects`: the variant and the model of what it holds.
pub enum MyObjectsModel {
    Object1((u16, Option<u8>)),
    Object2(u32),
}

impl LTVItem for MyObjects {
    type Model = MyObjectsModel;

    open spec fn model(&self) -> MyObjectsModel {
        match self {
            MyObjects::Object1(x) => MyObjectsModel::Object1(x.model()),
            MyObjects::Object2(x) => MyObjectsModel::Object2(x.model()),
        }
    }

    open spec fn spec_to_ltv(v: MyObjectsModel, order: ByteOrder) -> Seq<u8> {
        match v {
            MyObjectsModel::Object1(x) => LTVObjectExample::spec_to_ltv(x, order),
            MyObjectsModel::Object2(x) => LTVObjectCount::spec_to_ltv(x, order),
        }
    }

    open spec fn spec_from_ltv(field_id: u8, data: Seq<u8>, order: ByteOrder) -> LTVResult<MyObjectsModel> {
        if field_id == LTVObjectExample::spec_object_id() {
            match LTVObjectExample::spec_from_ltv(field_id, data, order) {
                Ok(x) => Ok(MyObjectsModel::Object1(x)),
                Err(e) => Err(LTVError::InnerParseError(Box::new(e), "MyObjects::Object1")),
            }
        } else if field_id == LTVObjectCount::spec_object_id() {
            match LTVObjectCount::spec_from_ltv(field_id, data, order) {
                Ok(x) => Ok(MyObjectsModel::Object2(x)),
                Err(e) => Err(LTVError::InnerParseError(Box::new(e), "MyObjects::Object2")),
            }
        } else {
            Err(LTVError::NotFound(field_id))
        }
    }

    open spec fn spec_when_absent(field_id: u8) -> LTVResult<MyObjectsModel> {
        Err(LTVError::NotFound(field_id))
    }

    open spec fn spec_omit_empty() -> bool {
        false
    }

    open spec fn spec_valid(v: MyObjectsModel, field_id: u8, order: ByteOrder) -> bool {
        match v {
            MyObjectsModel::Object1(x) => field_id == LTVObjectExample::spec_object_id()
                && LTVObjectExample::spec_valid(x, field_id, order),
            MyObjectsModel::Object2(x) => field_id == LTVObjectCount::spec_object_id()
                && LTVObjectCount::spec_valid(x, field_id, order),
        }
    }

    fn from_ltv(field_id: u8, data: &[u8], order: ByteOrder) -> (r: LTVResult<MyObjects>) {
        if field_id == LTVObjectExample::object_id() {
            match LTVObjectExample::from_ltv(field_id, data, order) {
                Ok(x) => Ok(MyObjects::Object1(x)),
                Err(e) => Err(LTVError::InnerParseError(Box::new(e), "MyObjects::Object1")),
            }
        } else if field_id == LTVObjectCount::object_id() {
            match LTVObjectCount::from_ltv(field_id, data, order) {
                Ok(x) => Ok(MyObjects::Object2(x)),
                Err(e) => Err(LTVError::InnerParseError(Box::new(e), "MyObjects::Object2")),
            }
        } else {
            Err(LTVError::NotFound(field_id))
        }
    }

    fn to_ltv(&self, order: ByteOrder) -> (r: Vec<u8>) {
        match self {
            MyObjects::Object1(x) => x.to_ltv(order),
            MyObjects::Object2(x) => x.to_ltv(order),
        }
    }

    fn default_when_absent(field_id: u8) -> (r: LTVResult<MyObjects>) {
        Err(LTVError::NotFound(field_id))
    }

    fn omit_when_empty() -> (r: bool) {
        false
    }

    proof fn lemma_round_trip(v: MyObjectsModel, field_id: u8, order: ByteOrder) {
        match v {
            MyObjectsModel::Object1(x) => LTVObjectExample::lemma_round_trip(x, field_id, order),
            MyObjectsModel::Object2(x) => LTVObjectCount::lemma_round_trip(x, field_id, order),
        }
    }
}

/// The union is framed as the variant it holds is: it adds no frame of its
/// own, and reads the object frame with a two-byte prefix, little-endian.
impl LTVObjectConvertable for MyObjects {
    open spec fn spec_to_ltv_object(v: MyObjectsModel) -> Seq<u8> {
        match v {
            MyObjectsModel::Object1(x) => LTVObjectExample::spec_to_ltv_object(x),
            MyObjectsModel::Object2(x) => LTVObjectCount::spec_to_ltv_object(x),
        }
    }

    open spec fn spec_from_ltv_object(data: Seq<u8>) -> LTVResult<MyObjectsModel> {
        spec_read_object::<MyObjects>(data, 2, ByteOrder::LE)
    }

    fn from_ltv_object(data: &[u8]) -> (r: LTVResult<MyObjects>) {
        read_object::<MyObjects>(data, ByteOrder::LE, 2)
    }

    fn to_ltv_object(&self) -> (r: Vec<u8>) {
        match self {
            MyObjects::Object1(x) => x.to_ltv_object(),
            MyObjects::Object2(x) => x.to_ltv_object(),
        }
    }
}

/// Representational transparency: a union holding a value is written, as an
/// object and as a body, exactly as that value is.
pub proof fn lemma_union_transparent(v: MyObjectsModel, order: ByteOrder)
    ensures
        match v {
            MyObjectsModel::Object1(x) => MyObjects::spec_to_ltv_object(v) == LTVObjectExample::spec_to_ltv_object(x)
                && MyObjects::spec_to_ltv(v, order) == LTVObjectExample::spec_to_ltv(x, order),
            MyObjectsModel::Object2(x) => MyObjects::spec_to_ltv_object(v) == LTVObjectCount::spec_to_ltv_object(x)
                && MyObjects::spec_to_ltv(v, order) == LTVObjectCount::spec_to_ltv(x, order),
        },
{
}

/// Union dispatch: a body under an identifier that no variant has, or an
/// object frame that holds one, gives `NotFound` with that identifier.
pub proof fn lemma_union_unknown_id(field_id: u8, body: Seq<u8>, data: Seq<u8>, order: ByteOrder)
    ensures
        field_id != 10 && field_id != 11 ==> MyObjects::spec_from_ltv(field_id, body, order) == Err::<
            MyObjectsModel,
            LTVError,
        >(LTVError::NotFound(field_id)),
        spec_parse_ltv(data, 2, ByteOrder::LE) matches Ok((_, id, _)) ==> (id != 10 && id != 11
            ==> MyObjects::spec_from_ltv_object(data) == Err::<MyObjectsModel, LTVError>(LTVError::NotFound(id))),
{
}

/// Round trip of the union through its object frame, for a value whose body
/// fits a two-byte prefix.
pub proof fn lemma_union_round_trip(v: MyObjectsModel)
    requires
        match v {
            MyObjectsModel::Object1(x) => fits::<LTVObjectExample>(x, 2, ByteOrder::LE)
                && LTVObjectExample::spec_valid(x, 10, ByteOrder::LE),
            MyObjectsModel::Object2(x) => fits::<LTVObjectCount>(x, 2, ByteOrder::LE),
        },
    ensures
        MyObjects::spec_from_ltv_object(MyObjects::spec_to_ltv_object(v)) == Ok::<MyObjectsModel, LTVError>(v),
{
    match v {
        MyObjectsModel::Object1(x) => {
            let body = LTVObjectExample::spec_to_ltv(x, ByteOrder::LE);
            let frame = spec_frame(10, body, 2, ByteOrder::LE);
            LTVObjectExample::lemma_round_trip(x, 10, ByteOrder::LE);
            lemma_parse_frame(10, body, Seq::empty(), 2, ByteOrder::LE);
            assert(frame + Seq::<u8>::empty() =~= frame);
        },
        MyObjectsModel::Object2(x) => {
            let body = LTVObjectCount::spec_to_ltv(x, ByteOrder::LE);
            let frame = spec_frame(11, body, 2, ByteOrder::LE);
            LTVObjectCount::lemma_round_trip(x, 11, ByteOrder::LE);
            lemma_parse_frame(11, body, Seq::empty(), 2, ByteOrder::LE);
            assert(frame + Seq::<u8>::empty() =~= frame);
        },
    }
}

} // verus!
