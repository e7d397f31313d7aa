//! Reading, editing and writing of Flash "shared object" documents.
//!
//! A document is a small named list of key/value pairs.  The crate owns the
//! container framing and the AMF0 value encoding end to end; the richer AMF3
//! value encoding is delegated to the `amf` crate.

pub mod amf0;
pub mod amf3;
pub mod container;
pub mod cursor;
pub mod document;
pub mod endian;
pub mod error;
pub mod laws;
pub mod render;
pub mod text;
pub mod traverse;

pub use container::{read_from_bytes, AmfWrite};
pub use document::{Amf0, Amf0Value, Amf3, Amf3Value, AmfVer, Pair, Sol, SolVariant};
pub use error::SolError;
pub use render::{Amf0Obj, Amf0ObjDisplay};
