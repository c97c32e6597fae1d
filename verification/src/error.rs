//! What can go wrong while opening a container or reading a lump.

use vstd::prelude::*;
use crate::stream::IoError;

verus! {

/// The container's bytes do not have the expected shape.
#[derive(Clone, Copy, Debug, PartialEq, Eq, Structural)]
pub enum FormatError {
    /// The header's magic names no known kind of container.
    UnrecognizedMagic,
    /// The first directory entry is the marker of a level's data, so the
    /// level has no header lump in front of it.
    MalformedLevelGroup,
}

/// A lump's length does not fit the record type that was asked for.
#[derive(Clone, Copy, Debug, PartialEq, Eq, Structural)]
pub enum SizeError {
    /// The lump is empty, or its length is no multiple of the record size.
    NotAligned { len: usize, elem_size: usize },
    /// The lump's length is not the size of one record.
    Exact { expected: usize, actual: usize },
}

/// Why a typed read of a lump failed.
#[derive(Clone, Copy, Debug, PartialEq, Eq, Structural)]
pub enum ReadError {
    /// The lump's length does not fit the record type.
    Size(SizeError),
    /// The lump's bytes are not all inside the container.
    Io(IoError),
}

/// Why a container could not be opened.
#[derive(Debug, PartialEq, Eq)]
pub enum OpenError {
    /// The container ends before its header or its directory does.
    Io(IoError),
    /// The container's bytes do not have the expected shape.
    Format(FormatError),
    /// The metadata that belongs to the container could not be loaded.
    Metadata(String),
}

} // verus!
