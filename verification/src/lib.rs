//! A declarative binary codec: definitions annotated with per-field directives
//! are compiled into plans, and plans are run against seekable byte streams
//! to read and write values field by field.

pub mod binread;
pub mod binwrite;
pub mod definition;
pub mod derive;
pub mod directive;
pub mod endian;
pub mod error;
pub mod expr;
pub mod faithful;
pub mod ints;
pub mod io;
pub mod laws;
pub mod parser;
pub mod plan;
pub mod read;
pub mod round_trip;
pub mod value;
pub mod wellformed;
pub mod write;

pub use binread::{BinRead, BinReaderExt, ReadOptions};
pub use binwrite::{BinWrite, BinWriterExt, WriteOptions};
pub use endian::Endian;
pub use error::{BinResult, Error, LeafError, ParseResult};
pub use value::Value;
