//! Fixed-layout records and how they are decoded from little-endian bytes.

use vstd::prelude::*;
use crate::name::{spec_name_of, WadName};

verus! {

/// A record with a fixed size on disk that is decoded field by field.
pub trait Record: Sized {
    /// Number of bytes one record takes in the container.
    spec fn spec_size() -> nat;

    /// The record that a run of `spec_size()` bytes stands for.
    spec fn spec_decode(bytes: Seq<u8>) -> Self;

    /// Number of bytes one record takes in the container; never zero.
    fn size() -> (n: usize)
        ensures
            n == Self::spec_size(),
            n > 0,
    ;

    /// Decodes one record from exactly `size()` bytes.
    fn decode(bytes: &[u8]) -> (r: Self)
        requires
            bytes@.len() == Self::spec_size(),
        ensures
            r == Self::spec_decode(bytes@),
    ;
}

/// The unsigned 16-bit integer stored in the first two bytes, low byte first.
pub open spec fn spec_u16_le(b: Seq<u8>) -> u16 {
    (b[0] as int + b[1] as int * 256) as u16
}

/// The unsigned 32-bit integer stored in the first four bytes, low byte first.
pub open spec fn spec_u32_le(b: Seq<u8>) -> u32 {
    (b[0] as int + b[1] as int * 256 + b[2] as int * 65536 + b[3] as int * 16777216) as u32
}

/// The two's-complement reading of an unsigned 16-bit value.
pub open spec fn spec_i16_of(u: u16) -> i16 {
    if u >= 32768 {
        (u as int - 65536) as i16
    } else {
        u as i16
    }
}

/// The two's-complement reading of an unsigned 32-bit value.
pub open spec fn spec_i32_of(u: u32) -> i32 {
    if u >= 2147483648 {
        (u as int - 4294967296) as i32
    } else {
        u as i32
    }
}

/// Reads an unsigned 16-bit integer at `at`, low byte first.
pub fn u16_le(bytes: &[u8], at: usize) -> (r: u16)
    requires
        at + 2 <= bytes@.len(),
    ensures
        r == spec_u16_le(bytes@.subrange(at as int, at + 2)),
{
    let lo: u16 = bytes[at] as u16;
    let hi: u16 = bytes[at + 1] as u16;
    lo + hi * 256
}

/// Reads an unsigned 32-bit integer at `at`, low byte first.
pub fn u32_le(bytes: &[u8], at: usize) -> (r: u32)
    requires
        at + 4 <= bytes@.len(),
    ensures
        r == spec_u32_le(bytes@.subrange(at as int, at + 4)),
{
    let b0: u32 = bytes[at] as u32;
    let b1: u32 = bytes[at + 1] as u32;
    let b2: u32 = bytes[at + 2] as u32;
    let b3: u32 = bytes[at + 3] as u32;
    b0 + b1 * 256 + b2 * 65536 + b3 * 16777216
}

/// Reads a signed 16-bit integer at `at`, low byte first.
pub fn i16_le(bytes: &[u8], at: usize) -> (r: i16)
    requires
        at + 2 <= bytes@.len(),
    ensures
        r == spec_i16_of(spec_u16_le(bytes@.subrange(at as int, at + 2))),
{
    let u: u16 = u16_le(bytes, at);
    if u >= 32768 {
        (u as i32 - 65536) as i16
    } else {
        u as i16
    }
}

impl Record for u8 {
    open spec fn spec_size() -> nat {
        1
    }

    open spec fn spec_decode(bytes: Seq<u8>) -> u8 {
        bytes[0]
    }

    fn size() -> (n: usize) {
        1
    }

    fn decode(bytes: &[u8]) -> (r: u8) {
        bytes[0]
    }
}

impl Record for u16 {
    open spec fn spec_size() -> nat {
        2
    }

    open spec fn spec_decode(bytes: Seq<u8>) -> u16 {
        spec_u16_le(bytes)
    }

    fn size() -> (n: usize) {
        2
    }

    fn decode(bytes: &[u8]) -> (r: u16) {
        proof {
            assert(bytes@.subrange(0, 2) =~= bytes@);
        }
        u16_le(bytes, 0)
    }
}

impl Record for i16 {
    open spec fn spec_size() -> nat {
        2
    }

    open spec fn spec_decode(bytes: Seq<u8>) -> i16 {
        spec_i16_of(spec_u16_le(bytes))
    }

    fn size() -> (n: usize) {
        2
    }

    fn decode(bytes: &[u8]) -> (r: i16) {
        proof {
            assert(bytes@.subrange(0, 2) =~= bytes@);
        }
        i16_le(bytes, 0)
    }
}

impl Record for u32 {
    open spec fn spec_size() -> nat {
        4
    }

    open spec fn spec_decode(bytes: Seq<u8>) -> u32 {
        spec_u32_le(bytes)
    }

    fn size() -> (n: usize) {
        4
    }

    fn decode(bytes: &[u8]) -> (r: u32) {
        proof {
            assert(bytes@.subrange(0, 4) =~= bytes@);
        }
        u32_le(bytes, 0)
    }
}

impl Record for i32 {
    open spec fn spec_size() -> nat {
        4
    }

    open spec fn spec_decode(bytes: Seq<u8>) -> i32 {
        spec_i32_of(spec_u32_le(bytes))
    }

    fn size() -> (n: usize) {
        4
    }

    fn decode(bytes: &[u8]) -> (r: i32) {
        proof {
            assert(bytes@.subrange(0, 4) =~= bytes@);
        }
        let u: u32 = u32_le(bytes, 0);
        if u >= 2147483648 {
            (u as i64 - 4294967296) as i32
        } else {
            u as i32
        }
    }
}

/// A name is stored as its eight bytes, exactly as written.
impl Record for WadName {
    open spec fn spec_size() -> nat {
        8
    }

    open spec fn spec_decode(bytes: Seq<u8>) -> WadName {
        spec_name_of(bytes)
    }

    fn size() -> (n: usize) {
        8
    }

    fn decode(bytes: &[u8]) -> (r: WadName) {
        let raw: [u8; 8] = [
            bytes[0],
            bytes[1],
            bytes[2],
            bytes[3],
            bytes[4],
            bytes[5],
            bytes[6],
            bytes[7],
        ];
        proof {
            assert(raw@ =~= bytes@);
        }
        WadName::from_raw(&raw)
    }
}

} // verus!
