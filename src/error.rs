use vstd::prelude::*;

verus! {

/// The ways decoding can fail.
#[derive(Debug)]
pub enum LTVError {
    /// A fixed-width value or a frame did not have the length it needs.
    WrongSize { field_id: u8, expected: usize, recieved: usize },
    /// A required field is absent, or an object identifier is unknown.
    NotFound(u8),
    /// A value is present where none is permitted.
    UnexpectedValue(u8, &'static str),
    /// A nested value failed to decode; the label says where.
    InnerParseError(Box<LTVError>, &'static str),
}

pub type LTVResult<T> = Result<T, LTVError>;

} // verus!
