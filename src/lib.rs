//! A Length-Tag-Value codec: values are reduced to raw bodies, bodies are
//! wrapped in `[Length][Tag][Value]` frames, and whole values can be framed as
//! self-describing objects `[Length][ObjectID][Body]`.
use vstd::prelude::*;

pub mod attributes;
pub mod codec;
pub mod error;
pub mod framing;
pub mod laws;
pub mod object;
pub mod reader;
pub mod records;
pub mod writer;

pub use attributes::{ByteOrderOption, LTVObjectAttrabutes};
pub use error::{LTVError, LTVResult};
pub use framing::{LTVObject, LTVObjectConvertable};
pub use object::{get_ltv, LTVItem};
pub use reader::{LTVFieldBinary, LTVFieldIterator, LTVReader};
pub use writer::{LTVContainer, LTVWriter};

verus! {

/// The byte order of multi-byte integers and of length prefixes.
#[derive(Debug, Clone, Copy, PartialEq, Eq, Structural)]
pub enum ByteOrder {
    BE,
    LE,
}

/// The byte order used where none is chosen.
pub const DEFAULT_ED: ByteOrder = ByteOrder::BE;

} // verus!
