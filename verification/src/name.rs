//! Eight-byte lump identifiers and their canonical form.

use vstd::prelude::*;

verus! {

/// ASCII upper-casing of one byte; every byte outside `a..=z` is left alone.
pub open spec fn spec_upper(b: u8) -> u8 {
    if 97 <= b && b <= 122 {
        (b - 32) as u8
    } else {
        b
    }
}

/// True when one of the first `i` bytes of `raw` is zero.
pub open spec fn ended_before(raw: Seq<u8>, i: int) -> bool
    decreases i,
{
    if i <= 0 {
        false
    } else {
        (i - 1 < raw.len() && raw[i - 1] == 0) || ended_before(raw, i - 1)
    }
}

/// The canonical form of an identifier: always eight bytes, upper-cased up
/// to the first zero byte (or the end of the input), zero from there on.
pub open spec fn canonical(raw: Seq<u8>) -> Seq<u8> {
    Seq::new(
        8,
        |i: int|
            if i < raw.len() && !ended_before(raw, i + 1) {
                spec_upper(raw[i])
            } else {
                0u8
            },
    )
}

/// The eight bytes held in a packed identifier, lowest byte first.
pub open spec fn unpack(k: u64) -> Seq<u8> {
    seq![
        (k & 0xff) as u8,
        ((k >> 8) & 0xff) as u8,
        ((k >> 16) & 0xff) as u8,
        ((k >> 24) & 0xff) as u8,
        ((k >> 32) & 0xff) as u8,
        ((k >> 40) & 0xff) as u8,
        ((k >> 48) & 0xff) as u8,
        ((k >> 56) & 0xff) as u8,
    ]
}

/// The identifier of a lump. Two names are equal exactly when their eight
/// bytes are equal.
#[derive(Clone, Copy, Debug, PartialEq, Eq, Hash, Structural)]
pub struct WadName {
    packed: u64,
}

fn upper(b: u8) -> (r: u8)
    ensures
        r == spec_upper(b),
{
    if 97 <= b && b <= 122 {
        b - 32
    } else {
        b
    }
}

/// The integer that holds the first eight bytes of `b`, lowest byte first.
spec fn spec_pack(b: Seq<u8>) -> u64 {
    (b[0] as u64) | ((b[1] as u64) << 8) | ((b[2] as u64) << 16) | ((b[3] as u64) << 24)
        | ((b[4] as u64) << 32) | ((b[5] as u64) << 40) | ((b[6] as u64) << 48)
        | ((b[7] as u64) << 56)
}

/// The name whose eight bytes are `bytes`; `lemma_name_of_view` says so.
pub closed spec fn spec_name_of(bytes: Seq<u8>) -> WadName {
    WadName { packed: spec_pack(bytes) }
}

fn pack(b: &[u8; 8]) -> (k: u64)
    ensures
        unpack(k) == b@,
        k == spec_pack(b@),
{
    let b0: u64 = b[0] as u64;
    let b1: u64 = b[1] as u64;
    let b2: u64 = b[2] as u64;
    let b3: u64 = b[3] as u64;
    let b4: u64 = b[4] as u64;
    let b5: u64 = b[5] as u64;
    let b6: u64 = b[6] as u64;
    let b7: u64 = b[7] as u64;
    let k: u64 = b0 | (b1 << 8) | (b2 << 16) | (b3 << 24) | (b4 << 32) | (b5 << 40) | (b6 << 48)
        | (b7 << 56);
    proof {
        lemma_pack_bytes(k, b0, b1, b2, b3, b4, b5, b6, b7);
        assert(unpack(k) =~= b@);
    }
    k
}

impl WadName {
    /// The eight bytes of the name.
    pub closed spec fn view(&self) -> Seq<u8> {
        unpack(self.packed)
    }

    /// The name as one integer; the catalog indexes names by it.
    pub closed spec fn spec_key(&self) -> u64 {
        self.packed
    }

    /// True when canonicalising the name would leave it unchanged.
    pub open spec fn is_canonical(&self) -> bool {
        canonical(self@) == self@
    }

    /// Builds the canonical name for `raw`: at most eight bytes are used,
    /// a shorter input is padded with zeros.
    pub fn from_bytes(raw: &[u8]) -> (name: WadName)
        ensures
            name@ == canonical(raw@),
            name == spec_name_of(canonical(raw@)),
            name.is_canonical(),
    {
        let mut out: [u8; 8] = [0u8; 8];
        let mut live = true;
        let mut i: usize = 0;
        while i < 8
            invariant
                i <= 8,
                live == (i <= raw@.len() && !ended_before(raw@, i as int)),
                forall|j: int| 0 <= j < i ==> out@[j] == #[trigger] canonical(raw@)[j],
            decreases 8 - i,
        {
            if live && i < raw.len() && raw[i] != 0 {
                out[i] = upper(raw[i]);
            } else {
                out[i] = 0u8;
                live = false;
            }
            i += 1;
        }
        let packed = pack(&out);
        proof {
            assert(out@ =~= canonical(raw@));
            lemma_canonical_idempotent(raw@);
        }
        WadName { packed }
    }

    /// Takes the eight bytes as they are, without normalising them.
    pub fn from_raw(raw: &[u8; 8]) -> (name: WadName)
        ensures
            name@ == raw@,
            name == spec_name_of(raw@),
    {
        WadName { packed: pack(raw) }
    }

    /// The eight bytes of the name, zero padding included.
    pub fn bytes(&self) -> (out: [u8; 8])
        ensures
            out@ == self@,
    {
        let k = self.packed;
        let out: [u8; 8] = [
            (k & 0xff) as u8,
            ((k >> 8) & 0xff) as u8,
            ((k >> 16) & 0xff) as u8,
            ((k >> 24) & 0xff) as u8,
            ((k >> 32) & 0xff) as u8,
            ((k >> 40) & 0xff) as u8,
            ((k >> 48) & 0xff) as u8,
            ((k >> 56) & 0xff) as u8,
        ];
        proof {
            assert(out@ =~= unpack(k));
        }
        out
    }

    /// Replaces the name by its canonical form.
    pub fn canonicalise(&mut self)
        ensures
            final(self)@ == canonical(old(self)@),
            *final(self) == spec_name_of(canonical(old(self)@)),
            final(self).is_canonical(),
    {
        let raw = self.bytes();
        let done = WadName::from_bytes(raw.as_slice());
        *self = done;
    }

    /// The integer under which the catalog files this name.
    pub fn key(&self) -> (k: u64)
        ensures
            k == self.spec_key(),
            unpack(k) == self@,
    {
        self.packed
    }
}

/// A name built from eight bytes holds those bytes.
pub proof fn lemma_name_of_view(bytes: Seq<u8>)
    requires
        bytes.len() == 8,
    ensures
        spec_name_of(bytes)@ == bytes,
{
    let b0: u64 = bytes[0] as u64;
    let b1: u64 = bytes[1] as u64;
    let b2: u64 = bytes[2] as u64;
    let b3: u64 = bytes[3] as u64;
    let b4: u64 = bytes[4] as u64;
    let b5: u64 = bytes[5] as u64;
    let b6: u64 = bytes[6] as u64;
    let b7: u64 = bytes[7] as u64;
    let k = spec_pack(bytes);
    lemma_pack_bytes(k, b0, b1, b2, b3, b4, b5, b6, b7);
    assert(unpack(k) =~= bytes);
}

proof fn lemma_pack_bytes(k: u64, b0: u64, b1: u64, b2: u64, b3: u64, b4: u64, b5: u64, b6: u64, b7: u64)
    requires
        b0 <= 0xff,
        b1 <= 0xff,
        b2 <= 0xff,
        b3 <= 0xff,
        b4 <= 0xff,
        b5 <= 0xff,
        b6 <= 0xff,
        b7 <= 0xff,
        k == b0 | (b1 << 8) | (b2 << 16) | (b3 << 24) | (b4 << 32) | (b5 << 40) | (b6 << 48) | (
        b7 << 56),
    ensures
        k & 0xff == b0,
        (k >> 8) & 0xff == b1,
        (k >> 16) & 0xff == b2,
        (k >> 24) & 0xff == b3,
        (k >> 32) & 0xff == b4,
        (k >> 40) & 0xff == b5,
        (k >> 48) & 0xff == b6,
        (k >> 56) & 0xff == b7,
{
    assert({
        &&& k & 0xff == b0
        &&& (k >> 8) & 0xff == b1
        &&& (k >> 16) & 0xff == b2
        &&& (k >> 24) & 0xff == b3
        &&& (k >> 32) & 0xff == b4
        &&& (k >> 40) & 0xff == b5
        &&& (k >> 48) & 0xff == b6
        &&& (k >> 56) & 0xff == b7
    }) by (bit_vector)
        requires
            b0 <= 0xff,
            b1 <= 0xff,
            b2 <= 0xff,
            b3 <= 0xff,
            b4 <= 0xff,
            b5 <= 0xff,
            b6 <= 0xff,
            b7 <= 0xff,
            k == b0 | (b1 << 8) | (b2 << 16) | (b3 << 24) | (b4 << 32) | (b5 << 40) | (b6 << 48)
                | (b7 << 56),
    ;
}

/// The name built from canonical bytes is canonical.
pub proof fn lemma_name_of_canonical(raw: Seq<u8>)
    ensures
        spec_name_of(canonical(raw))@ == canonical(raw),
        spec_name_of(canonical(raw)).is_canonical(),
{
    lemma_name_of_view(canonical(raw));
    lemma_canonical_idempotent(raw);
}

/// Names are filed under distinct integers.
pub proof fn lemma_key_injective(a: WadName, b: WadName)
    requires
        a.spec_key() == b.spec_key(),
    ensures
        a == b,
{
}

/// Names with the same bytes are the same name.
pub proof fn lemma_name_view_injective(a: WadName, b: WadName)
    requires
        a@ == b@,
    ensures
        a == b,
{
    let x = a.packed;
    let y = b.packed;
    assert(unpack(x)[0] == unpack(y)[0]);
    assert(unpack(x)[1] == unpack(y)[1]);
    assert(unpack(x)[2] == unpack(y)[2]);
    assert(unpack(x)[3] == unpack(y)[3]);
    assert(unpack(x)[4] == unpack(y)[4]);
    assert(unpack(x)[5] == unpack(y)[5]);
    assert(unpack(x)[6] == unpack(y)[6]);
    assert(unpack(x)[7] == unpack(y)[7]);
    assert(x == y) by (bit_vector)
        requires
            (x & 0xff) as u8 == (y & 0xff) as u8,
            ((x >> 8) & 0xff) as u8 == ((y >> 8) & 0xff) as u8,
            ((x >> 16) & 0xff) as u8 == ((y >> 16) & 0xff) as u8,
            ((x >> 24) & 0xff) as u8 == ((y >> 24) & 0xff) as u8,
            ((x >> 32) & 0xff) as u8 == ((y >> 32) & 0xff) as u8,
            ((x >> 40) & 0xff) as u8 == ((y >> 40) & 0xff) as u8,
            ((x >> 48) & 0xff) as u8 == ((y >> 48) & 0xff) as u8,
            ((x >> 56) & 0xff) as u8 == ((y >> 56) & 0xff) as u8,
    ;
}

/// Canonicalising twice gives what canonicalising once gives.
pub proof fn lemma_canonical_idempotent(raw: Seq<u8>)
    ensures
        canonical(canonical(raw)) == canonical(raw),
{
    let c = canonical(raw);
    assert forall|i: int| 0 <= i <= 8 implies (#[trigger] ended_before(c, i) <==> (i
        > raw.len() || ended_before(raw, i))) by {
        lemma_ended_prefix(raw, i);
    }
    assert forall|i: int| 0 <= i < 8 implies canonical(c)[i] == c[i] by {
        if i < raw.len() && !ended_before(raw, i + 1) {
            assert(raw[i] != 0);
            assert(!ended_before(c, i + 1));
        }
    }
    assert(canonical(c) =~= c);
}

proof fn lemma_ended_prefix(raw: Seq<u8>, i: int)
    requires
        0 <= i <= 8,
    ensures
        ended_before(canonical(raw), i) <==> (i > raw.len() || ended_before(raw, i)),
    decreases i,
{
    if i > 0 {
        lemma_ended_prefix(raw, i - 1);
        let c = canonical(raw);
        if i - 1 < raw.len() && !ended_before(raw, i) {
            assert(raw[i - 1] != 0);
            assert(c[i - 1] == spec_upper(raw[i - 1]));
            assert(c[i - 1] != 0);
        } else {
            assert(c[i - 1] == 0);
        }
    }
}

} // verus!
