//! The settings that describe how an object type is framed.
use vstd::prelude::*;

verus! {

/// A chosen byte order, or none.
#[derive(Debug, Clone, Copy, PartialEq, Eq, Structural)]
pub enum ByteOrderOption {
    BE,
    LE,
    Unset,
}

impl Default for ByteOrderOption {
    /// Big-endian, where nothing is chosen.
    fn default() -> (r: ByteOrderOption)
        ensures
            r == ByteOrderOption::BE,
    {
        ByteOrderOption::BE
    }
}

/// The framing settings of an object type: its identifier, the width of its
/// object length prefix and of its field length prefixes, and its byte order.
#[derive(Debug, Default)]
pub struct LTVObjectAttrabutes {
    pub object_id: Option<u8>,
    pub length_size: Option<u8>,
    pub field_length_size: Option<u8>,
    pub byte_order: ByteOrderOption,
}

} // verus!
