//! The container's own records: the header and the directory entries.

use vstd::prelude::*;
use vstd::slice::slice_subrange;
use crate::name::{spec_name_of, WadName};
use crate::record::{
    i16_le, spec_i16_of, spec_u16_le, spec_u32_le, u16_le, u32_le, Record,
};

verus! {

/// The magic `IWAD`, read as a little-endian integer.
pub const IWAD_MAGIC: u32 = 0x44415749;

/// The magic `PWAD`, read as a little-endian integer.
pub const PWAD_MAGIC: u32 = 0x44415750;

/// The two kinds of container.
#[derive(Clone, Copy, Debug, PartialEq, Eq, Structural)]
pub enum WadType {
    /// A primary container, complete in itself.
    Initial,
    /// A patch container, meant to be laid over a primary one.
    Modifiable,
}

/// The container's header: twelve bytes at the start of the file.
#[derive(Clone, Copy, Debug, PartialEq, Eq, Structural)]
pub struct WadInfo {
    /// The four magic bytes, read as a little-endian integer.
    pub identifier: u32,
    /// Number of entries in the directory.
    pub num_lumps: u32,
    /// Where the directory starts, in bytes from the start of the file.
    pub info_table_offset: u32,
}

/// One directory entry as stored: sixteen bytes.
#[derive(Clone, Copy, Debug, PartialEq, Eq, Structural)]
pub struct WadLump {
    /// Where the lump's bytes start, from the start of the file.
    pub file_pos: u32,
    /// Number of bytes in the lump.
    pub size: u32,
    /// The lump's name as stored, not yet normalised.
    pub name: WadName,
}

/// The kind of container that a header announces, if it is a known one.
pub open spec fn spec_wad_type(info: WadInfo) -> Option<WadType> {
    if info.identifier == IWAD_MAGIC {
        Some(WadType::Initial)
    } else if info.identifier == PWAD_MAGIC {
        Some(WadType::Modifiable)
    } else {
        None
    }
}

/// The kind of container that a header announces; `None` for an unknown magic.
pub fn wad_type_from_info(info: &WadInfo) -> (kind: Option<WadType>)
    ensures
        kind == spec_wad_type(*info),
{
    if info.identifier == IWAD_MAGIC {
        Some(WadType::Initial)
    } else if info.identifier == PWAD_MAGIC {
        Some(WadType::Modifiable)
    } else {
        None
    }
}

impl Record for WadInfo {
    open spec fn spec_size() -> nat {
        12
    }

    open spec fn spec_decode(bytes: Seq<u8>) -> WadInfo {
        WadInfo {
            identifier: spec_u32_le(bytes.subrange(0, 4)),
            num_lumps: spec_u32_le(bytes.subrange(4, 8)),
            info_table_offset: spec_u32_le(bytes.subrange(8, 12)),
        }
    }

    fn size() -> (n: usize) {
        12
    }

    fn decode(bytes: &[u8]) -> (r: WadInfo) {
        WadInfo {
            identifier: u32_le(bytes, 0),
            num_lumps: u32_le(bytes, 4),
            info_table_offset: u32_le(bytes, 8),
        }
    }
}

impl Record for WadLump {
    open spec fn spec_size() -> nat {
        16
    }

    open spec fn spec_decode(bytes: Seq<u8>) -> WadLump {
        WadLump {
            file_pos: spec_u32_le(bytes.subrange(0, 4)),
            size: spec_u32_le(bytes.subrange(4, 8)),
            name: spec_name_of(bytes.subrange(8, 16)),
        }
    }

    fn size() -> (n: usize) {
        16
    }

    fn decode(bytes: &[u8]) -> (r: WadLump) {
        WadLump {
            file_pos: u32_le(bytes, 0),
            size: u32_le(bytes, 4),
            name: WadName::decode(slice_subrange(bytes, 8, 16)),
        }
    }
}

/// A thing placed in a level: ten bytes.
#[derive(Clone, Copy, Debug, PartialEq, Eq, Structural)]
pub struct WadThing {
    pub x: i16,
    pub y: i16,
    pub angle: u16,
    pub thing_type: u16,
    pub flags: u16,
}

impl Record for WadThing {
    open spec fn spec_size() -> nat {
        10
    }

    open spec fn spec_decode(bytes: Seq<u8>) -> WadThing {
        WadThing {
            x: spec_i16_of(spec_u16_le(bytes.subrange(0, 2))),
            y: spec_i16_of(spec_u16_le(bytes.subrange(2, 4))),
            angle: spec_u16_le(bytes.subrange(4, 6)),
            thing_type: spec_u16_le(bytes.subrange(6, 8)),
            flags: spec_u16_le(bytes.subrange(8, 10)),
        }
    }

    fn size() -> (n: usize) {
        10
    }

    fn decode(bytes: &[u8]) -> (r: WadThing) {
        WadThing {
            x: i16_le(bytes, 0),
            y: i16_le(bytes, 2),
            angle: u16_le(bytes, 4),
            thing_type: u16_le(bytes, 6),
            flags: u16_le(bytes, 8),
        }
    }
}

/// A line of a level's map: fourteen bytes.
#[derive(Clone, Copy, Debug, PartialEq, Eq, Structural)]
pub struct WadLinedef {
    pub start_vertex: u16,
    pub end_vertex: u16,
    pub flags: u16,
    pub special_type: u16,
    pub sector_tag: u16,
    pub right_side: u16,
    pub left_side: u16,
}

impl Record for WadLinedef {
    open spec fn spec_size() -> nat {
        14
    }

    open spec fn spec_decode(bytes: Seq<u8>) -> WadLinedef {
        WadLinedef {
            start_vertex: spec_u16_le(bytes.subrange(0, 2)),
            end_vertex: spec_u16_le(bytes.subrange(2, 4)),
            flags: spec_u16_le(bytes.subrange(4, 6)),
            special_type: spec_u16_le(bytes.subrange(6, 8)),
            sector_tag: spec_u16_le(bytes.subrange(8, 10)),
            right_side: spec_u16_le(bytes.subrange(10, 12)),
            left_side: spec_u16_le(bytes.subrange(12, 14)),
        }
    }

    fn size() -> (n: usize) {
        14
    }

    fn decode(bytes: &[u8]) -> (r: WadLinedef) {
        WadLinedef {
            start_vertex: u16_le(bytes, 0),
            end_vertex: u16_le(bytes, 2),
            flags: u16_le(bytes, 4),
            special_type: u16_le(bytes, 6),
            sector_tag: u16_le(bytes, 8),
            right_side: u16_le(bytes, 10),
            left_side: u16_le(bytes, 12),
        }
    }
}

} // verus!
