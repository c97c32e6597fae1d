//! Access layer for WAD containers: header and directory decoding, name
//! lookup, level segmentation and typed reads of individual lumps.

pub mod name;
pub mod record;
pub mod stream;
pub mod types;
pub mod error;
pub mod text;
pub mod archive;

pub use archive::{Archive, LumpInfo};
pub use error::{FormatError, OpenError, ReadError, SizeError};
pub use name::WadName;
pub use record::Record;
pub use stream::{ByteStream, IoError, ReadExt};
