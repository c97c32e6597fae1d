//! The archive: a container's bytes with its directory, its name index,
//! its levels and the metadata that goes with it.

use std::collections::HashMap;
use vstd::prelude::*;
use vstd::slice::slice_subrange;
use vstd::std_specs::hash::group_hash_axioms;
use crate::error::{FormatError, OpenError, ReadError, SizeError};
use crate::name::{
    canonical, lemma_key_injective, lemma_name_of_canonical, spec_name_of, WadName,
};
use crate::record::Record;
use crate::stream::{bytes_from, ByteStream, IoError, ReadExt};
use crate::types::{spec_wad_type, wad_type_from_info, WadInfo, WadLump};

verus! {

/// What the directory says of one lump.
#[derive(Clone, Copy, Debug, PartialEq, Eq, Structural)]
pub struct LumpInfo {
    /// The lump's normalised name.
    pub name: WadName,
    /// Where the lump's bytes start, from the start of the container.
    pub offset: u64,
    /// Number of bytes in the lump; zero for a marker without content.
    pub size: usize,
}

/// The bytes of the name `THINGS`, padded to eight.
pub open spec fn sentinel_bytes() -> Seq<u8> {
    seq![84u8, 72u8, 73u8, 78u8, 71u8, 83u8, 0u8, 0u8]
}

/// The name that opens the data of a level; the lump in front of it is
/// the level's header.
pub open spec fn spec_sentinel() -> WadName {
    spec_name_of(sentinel_bytes())
}

/// The name that opens the data of a level.
pub fn sentinel() -> (name: WadName)
    ensures
        name == spec_sentinel(),
        name@ == sentinel_bytes(),
{
    let raw: [u8; 8] = [84u8, 72u8, 73u8, 78u8, 71u8, 83u8, 0u8, 0u8];
    proof {
        assert(raw@ =~= sentinel_bytes());
    }
    WadName::from_raw(&raw)
}

/// The header that the first twelve bytes of a container hold.
pub open spec fn spec_header(bytes: Seq<u8>) -> WadInfo {
    WadInfo::spec_decode(bytes.take(12))
}

/// The directory entry number `i` of a container, its name normalised.
pub open spec fn spec_entry(bytes: Seq<u8>, header: WadInfo, i: int) -> LumpInfo {
    spec_entry_at(bytes, header.info_table_offset + 16 * i)
}

/// The directory entry stored in the sixteen bytes from `at` on, its name
/// normalised.
pub open spec fn spec_entry_at(bytes: Seq<u8>, at: int) -> LumpInfo {
    spec_entry_of(bytes.subrange(at, at + 16))
}

/// The directory entry that sixteen bytes stand for, its name normalised.
pub open spec fn spec_entry_of(stored: Seq<u8>) -> LumpInfo {
    let lump = WadLump::spec_decode(stored);
    LumpInfo {
        name: spec_name_of(canonical(lump.name@)),
        offset: lump.file_pos as u64,
        size: lump.size as usize,
    }
}

/// The whole directory of a container, in the order in which it is stored.
pub open spec fn directory(bytes: Seq<u8>) -> Seq<LumpInfo> {
    let header = spec_header(bytes);
    Seq::new(header.num_lumps as nat, |i: int| spec_entry(bytes, header, i))
}

/// The position of the last of the first `n` entries that has the name
/// `name`, if there is one.
pub open spec fn last_position(entries: Seq<LumpInfo>, name: WadName, n: int) -> Option<usize>
    decreases n,
{
    if n <= 0 {
        None
    } else if entries[n - 1].name == name {
        Some((n - 1) as usize)
    } else {
        last_position(entries, name, n - 1)
    }
}

/// The level headers among the first `n` entries, in directory order: for
/// each entry named like the sentinel, the position just before it.
pub open spec fn level_markers(entries: Seq<LumpInfo>, n: int) -> Seq<usize>
    decreases n,
{
    if n <= 0 {
        Seq::empty()
    } else if entries[n - 1].name == spec_sentinel() {
        level_markers(entries, n - 1).push((n - 2) as usize)
    } else {
        level_markers(entries, n - 1)
    }
}

/// True when `index` maps each name among the first `n` entries to the
/// last position that holds it, and no other name to anything.
pub open spec fn index_matches(index: Map<u64, usize>, entries: Seq<LumpInfo>, n: int) -> bool {
    forall|name: WadName|
        match #[trigger] last_position(entries, name, n) {
            Some(at) => index.contains_key(name.spec_key()) && index[name.spec_key()] == at,
            None => !index.contains_key(name.spec_key()),
        }
}

/// Why the bytes of a container cannot be opened, if they cannot. The
/// checks are listed in the order in which they are made.
pub open spec fn container_failure(bytes: Seq<u8>) -> Option<OpenError> {
    let header = spec_header(bytes);
    if bytes.len() < 12 {
        Some(OpenError::Io(IoError::UnexpectedEof))
    } else if spec_wad_type(header) is None {
        Some(OpenError::Format(FormatError::UnrecognizedMagic))
    } else if header.num_lumps == 0 {
        None
    } else if header.info_table_offset + 16 > bytes.len() {
        Some(OpenError::Io(IoError::UnexpectedEof))
    } else if spec_entry(bytes, header, 0).name == spec_sentinel() {
        Some(OpenError::Format(FormatError::MalformedLevelGroup))
    } else if header.info_table_offset + 16 * header.num_lumps > bytes.len() {
        Some(OpenError::Io(IoError::UnexpectedEof))
    } else {
        None
    }
}

/// Why a lump cannot be read as a sequence of `T`, if it cannot: it is
/// empty or no whole number of records, or it reaches past the end of a
/// container of `total` bytes.
pub open spec fn sequence_failure<T: Record>(entry: LumpInfo, total: nat) -> Option<ReadError> {
    if entry.size == 0 || entry.size as nat % T::spec_size() != 0 {
        Some(
            ReadError::Size(
                SizeError::NotAligned { len: entry.size, elem_size: T::spec_size() as usize },
            ),
        )
    } else if entry.offset + entry.size > total {
        Some(ReadError::Io(IoError::UnexpectedEof))
    } else {
        None
    }
}

/// Why a lump cannot be read as one `T`, if it cannot: its length is not
/// the size of `T`, or it reaches past the end of the container.
pub open spec fn single_failure<T: Record>(entry: LumpInfo, total: nat) -> Option<ReadError> {
    if entry.size as nat != T::spec_size() {
        Some(
            ReadError::Size(
                SizeError::Exact { expected: T::spec_size() as usize, actual: entry.size },
            ),
        )
    } else if entry.offset + entry.size > total {
        Some(ReadError::Io(IoError::UnexpectedEof))
    } else {
        None
    }
}

/// Record number `i` of the records stored back to back from `start` on.
pub open spec fn spec_record_at<T: Record>(bytes: Seq<u8>, start: int, i: int) -> T {
    T::spec_decode(bytes.subrange(start + i * T::spec_size(), start + (i + 1) * T::spec_size()))
}

/// True when `r` is what reading the lump `entry` of a container `bytes`
/// as a sequence of `T` gives.
pub open spec fn sequence_outcome<T: Record>(
    entry: LumpInfo,
    bytes: Seq<u8>,
    r: Result<Vec<T>, ReadError>,
) -> bool {
    match r {
        Ok(items) => {
            &&& sequence_failure::<T>(entry, bytes.len()) is None
            &&& items@.len() == entry.size as nat / T::spec_size()
            &&& forall|i: int|
                0 <= i < items@.len() ==> #[trigger] items@[i] == spec_record_at::<T>(
                    bytes,
                    entry.offset as int,
                    i,
                )
        },
        Err(e) => sequence_failure::<T>(entry, bytes.len()) == Some(e),
    }
}

/// True when `r` is what reading the lump `entry` of a container `bytes`
/// as one `T` gives.
pub open spec fn single_outcome<T: Record>(
    entry: LumpInfo,
    bytes: Seq<u8>,
    r: Result<T, ReadError>,
) -> bool {
    match r {
        Ok(value) => {
            &&& single_failure::<T>(entry, bytes.len()) is None
            &&& value == spec_record_at::<T>(bytes, entry.offset as int, 0)
        },
        Err(e) => single_failure::<T>(entry, bytes.len()) == Some(e),
    }
}

/// Reads the header at the cursor and checks its magic. The cursor moves
/// on by the twelve bytes of the header, if that many are left.
pub fn parse_header(file: &mut ByteStream) -> (r: Result<WadInfo, OpenError>)
    ensures
        final(file).bytes() == old(file).bytes(),
        match r {
            Ok(header) => {
                &&& old(file).pending().len() >= 12
                &&& header == WadInfo::spec_decode(old(file).pending().take(12))
                &&& spec_wad_type(header) is Some
                &&& final(file).pending() == old(file).pending().skip(12)
            },
            Err(e) => if old(file).pending().len() < 12 {
                e == OpenError::Io(IoError::UnexpectedEof)
            } else {
                &&& e == OpenError::Format(FormatError::UnrecognizedMagic)
                &&& spec_wad_type(WadInfo::spec_decode(old(file).pending().take(12))) is None
                &&& final(file).pending() == old(file).pending().skip(12)
            },
        },
{
    let header = match file.read_binary::<WadInfo>() {
        Ok(header) => header,
        Err(e) => {
            return Err(OpenError::Io(e));
        },
    };
    match wad_type_from_info(&header) {
        None => Err(OpenError::Format(FormatError::UnrecognizedMagic)),
        Some(_) => Ok(header),
    }
}

/// Reads the directory entry at the cursor and normalises its name.
fn read_entry(file: &mut ByteStream) -> (r: Result<LumpInfo, IoError>)
    ensures
        final(file).bytes() == old(file).bytes(),
        match r {
            Ok(entry) => {
                &&& old(file).pending().len() >= 16
                &&& entry == spec_entry_of(old(file).pending().take(16))
                &&& final(file).pending() == old(file).pending().skip(16)
            },
            Err(e) => {
                &&& e == IoError::UnexpectedEof
                &&& old(file).pending().len() < 16
            },
        },
{
    let fileinfo = match file.read_binary::<WadLump>() {
        Ok(lump) => lump,
        Err(e) => {
            return Err(e);
        },
    };
    let mut name = fileinfo.name;
    name.canonicalise();
    Ok(LumpInfo { name, offset: fileinfo.file_pos as u64, size: fileinfo.size as usize })
}

/// Filing entry `i` under its name keeps the index in step with the
/// directory.
proof fn lemma_index_insert(index: Map<u64, usize>, entries: Seq<LumpInfo>, i: int)
    requires
        0 <= i < entries.len(),
        i <= usize::MAX,
        index_matches(index, entries, i),
    ensures
        index_matches(index.insert(entries[i].name.spec_key(), i as usize), entries, i + 1),
{
    let name = entries[i].name;
    let after = index.insert(name.spec_key(), i as usize);
    assert forall|other: WadName|
        match #[trigger] last_position(entries, other, i + 1) {
            Some(at) => after.contains_key(other.spec_key()) && after[other.spec_key()] == at,
            None => !after.contains_key(other.spec_key()),
        } by {
        if other != name {
            if other.spec_key() == name.spec_key() {
                lemma_key_injective(other, name);
            }
            assert(last_position(entries, other, i + 1) == last_position(entries, other, i));
        }
    }
}

/// An opened container together with its metadata.
pub struct Archive<M> {
    file: ByteStream,
    index_map: HashMap<u64, usize>,
    lumps: Vec<LumpInfo>,
    levels: Vec<usize>,
    meta: M,
}

impl<M> Archive<M> {
    /// The bytes of the container.
    pub closed spec fn bytes(&self) -> Seq<u8> {
        self.file.bytes()
    }

    /// The directory, in the order in which the container stores it.
    pub closed spec fn lumps(&self) -> Seq<LumpInfo> {
        self.lumps@
    }

    /// The positions of the level headers, in directory order.
    pub closed spec fn levels(&self) -> Seq<usize> {
        self.levels@
    }

    /// The index from names, as integers, to positions.
    pub closed spec fn index(&self) -> Map<u64, usize> {
        self.index_map@
    }

    /// The metadata that was bound to the container.
    pub closed spec fn metadata(&self) -> M {
        self.meta
    }

    /// What holds of every archive that `open` returns: the index knows
    /// the last position of each name, the levels are those that the
    /// directory shows, the first entry is no sentinel, offsets and sizes
    /// are 32-bit values, and every name is in canonical form.
    pub open spec fn wf(&self) -> bool {
        &&& self.lumps().len() <= usize::MAX
        &&& index_matches(self.index(), self.lumps(), self.lumps().len() as int)
        &&& self.levels() == level_markers(self.lumps(), self.lumps().len() as int)
        &&& self.lumps().len() > 0 ==> self.lumps()[0].name != spec_sentinel()
        &&& forall|i: int|
            0 <= i < self.lumps().len() ==> {
                &&& (#[trigger] self.lumps()[i]).offset <= u32::MAX
                &&& self.lumps()[i].size <= u32::MAX
                &&& self.lumps()[i].name.is_canonical()
            }
    }

    /// True when `other` has the same bytes, directory, levels and metadata.
    pub open spec fn same_content(&self, other: &Archive<M>) -> bool {
        &&& self.bytes() == other.bytes()
        &&& self.lumps() == other.lumps()
        &&& self.levels() == other.levels()
        &&& self.index() == other.index()
        &&& self.metadata() == other.metadata()
    }

    /// Opens a container from its bytes and binds the metadata to it.
    ///
    /// The container is checked first: header, magic, then the directory
    /// entry by entry. Only a sound container looks at `meta`, and hands
    /// its error on if loading the metadata had failed.
    pub fn open(wad: Vec<u8>, meta: Result<M, String>) -> (r: Result<Archive<M>, OpenError>)
        ensures
            match r {
                Ok(archive) => {
                    &&& container_failure(wad@) is None
                    &&& meta is Ok
                    &&& archive.wf()
                    &&& archive.bytes() == wad@
                    &&& archive.lumps() == directory(wad@)
                    &&& archive.lumps().len() == spec_header(wad@).num_lumps
                    &&& archive.levels() == level_markers(
                        directory(wad@),
                        directory(wad@).len() as int,
                    )
                    &&& archive.metadata() == meta->Ok_0
                },
                Err(e) => match container_failure(wad@) {
                    Some(failure) => e == failure,
                    None => meta is Err && e == OpenError::Metadata(meta->Err_0),
                },
            },
    {
        broadcast use group_hash_axioms;

        let ghost bytes = wad@;
        let ghost dir = directory(bytes);
        let mut file = ByteStream::new(wad);
        proof {
            assert(file.pending() =~= bytes);
        }
        let header = match parse_header(&mut file) {
            Ok(header) => header,
            Err(e) => {
                return Err(e);
            },
        };
        let mut lumps: Vec<LumpInfo> = Vec::new();
        let mut levels: Vec<usize> = Vec::new();
        let mut index_map: HashMap<u64, usize> = HashMap::new();
        let level_start = sentinel();
        let start: u64 = header.info_table_offset as u64;
        file.seek(start);
        let mut i: u32 = 0;
        while i < header.num_lumps
            invariant
                i <= header.num_lumps,
                bytes == wad@,
                bytes.len() >= 12,
                header == spec_header(bytes),
                spec_wad_type(header) is Some,
                dir == directory(bytes),
                start == header.info_table_offset,
                level_start == spec_sentinel(),
                file.bytes() == bytes,
                file.pending() == bytes_from(bytes, (start + 16 * i) as nat),
                i > 0 ==> start + 16 * i <= bytes.len(),
                i > 0 ==> dir[0].name != spec_sentinel(),
                lumps@ == dir.take(i as int),
                index_matches(index_map@, dir, i as int),
                levels@ == level_markers(dir, i as int),
            decreases header.num_lumps - i,
        {
            let ghost at = start + 16 * i;
            let entry = match read_entry(&mut file) {
                Ok(entry) => entry,
                Err(e) => {
                    proof {
                        assert(dir[0] == spec_entry(bytes, header, 0));
                    }
                    return Err(OpenError::Io(e));
                },
            };
            let name = entry.name;
            let ghost before = index_map@;
            index_map.insert(name.key(), lumps.len());
            lumps.push(entry);
            proof {
                assert(bytes.skip(at).take(16) =~= bytes.subrange(at, at + 16));
                assert(file.pending() =~= bytes_from(bytes, (at + 16) as nat));
                assert(entry == dir[i as int]);
                assert(dir[0] == spec_entry(bytes, header, 0));
                assert(lumps@ =~= dir.take(i + 1));
                lemma_index_insert(before, dir, i as int);
            }
            if name == level_start {
                if i == 0 {
                    return Err(OpenError::Format(FormatError::MalformedLevelGroup));
                }
                levels.push((i - 1) as usize);
            }
            i += 1;
        }
        proof {
            assert(lumps@ =~= dir);
            assert forall|k: int| 0 <= k < dir.len() implies (#[trigger] dir[k]).name.is_canonical() by {
                lemma_directory_names_canonical(bytes, k);
            }
        }
        match meta {
            Ok(meta) => Ok(Archive { file, index_map, lumps, levels, meta }),
            Err(message) => Err(OpenError::Metadata(message)),
        }
    }

    /// Number of levels in the container.
    pub fn num_levels(&self) -> (n: usize)
        ensures
            n == self.levels().len(),
    {
        self.levels.len()
    }

    /// Directory position of the header lump of a level: the entry just
    /// before the sentinel that opens the level's data.
    pub fn get_level_lump_index(&self, level_index: usize) -> (position: usize)
        requires
            self.wf(),
            level_index < self.levels().len(),
        ensures
            position == self.levels()[level_index as int],
            position + 1 < self.lumps().len(),
            self.lumps()[position + 1].name == spec_sentinel(),
    {
        proof {
            lemma_markers_sound(self.lumps(), self.lumps().len() as int, level_index as int);
        }
        self.levels[level_index]
    }

    /// Name of a level: the name of its header lump.
    pub fn get_level_name(&self, level_index: usize) -> (name: &WadName)
        requires
            self.wf(),
            level_index < self.levels().len(),
        ensures
            self.levels()[level_index as int] + 1 < self.lumps().len(),
            *name == self.lumps()[self.levels()[level_index as int] as int].name,
    {
        self.get_lump_name(self.get_level_lump_index(level_index))
    }

    /// Number of entries in the directory.
    pub fn num_lumps(&self) -> (n: usize)
        ensures
            n == self.lumps().len(),
    {
        self.lumps.len()
    }

    /// Position of the lump called `name`; of the last one where several
    /// entries have that name, `None` where none has it.
    pub fn get_lump_index(&self, name: &WadName) -> (position: Option<usize>)
        requires
            self.wf(),
        ensures
            position == last_position(self.lumps(), *name, self.lumps().len() as int),
    {
        broadcast use group_hash_axioms;

        let key: u64 = name.key();
        match self.index_map.get(&key) {
            Some(position) => Some(*position),
            None => None,
        }
    }

    /// Name of the lump at a position of the directory.
    pub fn get_lump_name(&self, lump_index: usize) -> (name: &WadName)
        requires
            lump_index < self.lumps().len(),
        ensures
            *name == self.lumps()[lump_index as int].name,
    {
        &self.lumps[lump_index].name
    }

    /// True when the lump at a position is a marker without content.
    pub fn is_virtual_lump(&self, lump_index: usize) -> (r: bool)
        requires
            lump_index < self.lumps().len(),
        ensures
            r == (self.lumps()[lump_index as int].size == 0),
    {
        self.lumps[lump_index].size == 0
    }

    /// Reads the lump called `name` as a sequence of records.
    pub fn read_lump_by_name<T: Record>(&mut self, name: &WadName) -> (r: Result<
        Vec<T>,
        ReadError,
    >)
        requires
            old(self).wf(),
            last_position(old(self).lumps(), *name, old(self).lumps().len() as int) is Some,
        ensures
            final(self).wf(),
            final(self).same_content(old(self)),
            last_position(old(self).lumps(), *name, old(self).lumps().len() as int)->Some_0
                < old(self).lumps().len(),
            sequence_outcome::<T>(
                old(self).lumps()[last_position(
                    old(self).lumps(),
                    *name,
                    old(self).lumps().len() as int,
                )->Some_0 as int],
                old(self).bytes(),
                r,
            ),
    {
        proof {
            lemma_lookup_found(self.lumps(), *name, self.lumps().len() as int);
        }
        let index = self.get_lump_index(name).unwrap();
        self.read_lump(index)
    }

    /// Reads the lump at a position as a sequence of records. The lump
    /// must hold a whole number of records, and at least one.
    pub fn read_lump<T: Record>(&mut self, index: usize) -> (r: Result<Vec<T>, ReadError>)
        requires
            old(self).wf(),
            index < old(self).lumps().len(),
        ensures
            final(self).wf(),
            final(self).same_content(old(self)),
            sequence_outcome::<T>(old(self).lumps()[index as int], old(self).bytes(), r),
    {
        let info = self.lumps[index];
        let size: usize = T::size();
        if info.size == 0 || info.size % size != 0 {
            return Err(
                ReadError::Size(SizeError::NotAligned { len: info.size, elem_size: size }),
            );
        }
        let num_elems: usize = info.size / size;
        let ghost bytes = self.bytes();
        self.file.seek(info.offset);
        let buf = match self.file.read_at_least(info.size) {
            Ok(buf) => buf,
            Err(e) => {
                return Err(ReadError::Io(e));
            },
        };
        proof {
            assert(buf@ =~= bytes.subrange(info.offset as int, info.offset + info.size));
            assert(num_elems * size == info.size) by (nonlinear_arith)
                requires
                    size > 0,
                    info.size % size == 0,
                    num_elems == info.size / size,
            ;
        }
        let mut items: Vec<T> = Vec::new();
        let mut at: usize = 0;
        while items.len() < num_elems
            invariant
                size == T::spec_size(),
                size > 0,
                num_elems * size == info.size,
                buf@ == bytes.subrange(info.offset as int, info.offset + info.size),
                info.offset + info.size <= bytes.len(),
                items@.len() <= num_elems,
                at == items@.len() * size,
                forall|i: int|
                    0 <= i < items@.len() ==> #[trigger] items@[i] == spec_record_at::<T>(
                        bytes,
                        info.offset as int,
                        i,
                    ),
            decreases num_elems - items@.len(),
        {
            let ghost k = items@.len() as int;
            proof {
                assert((k + 1) * size <= num_elems * size) by (nonlinear_arith)
                    requires
                        k + 1 <= num_elems,
                        size > 0,
                ;
                assert((k + 1) * size == k * size + size) by (nonlinear_arith);
            }
            let item = T::decode(slice_subrange(buf.as_slice(), at, at + size));
            proof {
                assert(buf@.subrange(at as int, at + size) =~= bytes.subrange(
                    info.offset + k * size,
                    info.offset + (k + 1) * size,
                ));
            }
            items.push(item);
            at = at + size;
        }
        Ok(items)
    }

    /// Reads the lump at a position as one record. The lump must have
    /// exactly the size of the record.
    pub fn read_lump_single<T: Record>(&mut self, index: usize) -> (r: Result<T, ReadError>)
        requires
            old(self).wf(),
            index < old(self).lumps().len(),
        ensures
            final(self).wf(),
            final(self).same_content(old(self)),
            single_outcome::<T>(old(self).lumps()[index as int], old(self).bytes(), r),
    {
        let info = self.lumps[index];
        let size: usize = T::size();
        if info.size != size {
            return Err(ReadError::Size(SizeError::Exact { expected: size, actual: info.size }));
        }
        let ghost bytes = self.bytes();
        self.file.seek(info.offset);
        match self.file.read_binary::<T>() {
            Ok(value) => {
                proof {
                    assert(0 * size == 0 && (0 + 1) * size == size) by (nonlinear_arith);
                    assert(bytes.skip(info.offset as int).take(size as int) =~= bytes.subrange(
                        info.offset as int,
                        info.offset + size,
                    ));
                }
                Ok(value)
            },
            Err(e) => Err(ReadError::Io(e)),
        }
    }

    /// The metadata that was bound to the container.
    pub fn get_metadata(&self) -> (meta: &M)
        ensures
            *meta == self.metadata(),
    {
        &self.meta
    }
}

/// Every name of a directory is in canonical form.
pub proof fn lemma_directory_names_canonical(bytes: Seq<u8>, i: int)
    requires
        0 <= i < directory(bytes).len(),
    ensures
        directory(bytes)[i].name.is_canonical(),
{
    let header = spec_header(bytes);
    let at = header.info_table_offset + 16 * i;
    let lump = WadLump::spec_decode(bytes.subrange(at, at + 16));
    lemma_name_of_canonical(lump.name@);
}

/// A marker without content never reads as a sequence of records.
pub proof fn lemma_virtual_lump_never_reads<T: Record>(
    entry: LumpInfo,
    bytes: Seq<u8>,
    r: Result<Vec<T>, ReadError>,
)
    requires
        entry.size == 0,
        sequence_outcome::<T>(entry, bytes, r),
    ensures
        r == Err::<Vec<T>, ReadError>(
            ReadError::Size(SizeError::NotAligned { len: 0, elem_size: T::spec_size() as usize }),
        ),
{
}

/// A lump that is no whole number of records gives a size error; one that
/// is, and lies inside the container, gives its length divided by the
/// record size in records.
pub proof fn lemma_sequence_read_by_alignment<T: Record>(
    entry: LumpInfo,
    bytes: Seq<u8>,
    r: Result<Vec<T>, ReadError>,
)
    requires
        T::spec_size() > 0,
        sequence_outcome::<T>(entry, bytes, r),
    ensures
        entry.size as nat % T::spec_size() != 0 ==> r == Err::<Vec<T>, ReadError>(
            ReadError::Size(
                SizeError::NotAligned { len: entry.size, elem_size: T::spec_size() as usize },
            ),
        ),
        entry.size > 0 && entry.size as nat % T::spec_size() == 0 && entry.offset + entry.size
            <= bytes.len() ==> r is Ok && r->Ok_0@.len() == entry.size as nat / T::spec_size(),
{
}

/// A single record is read only from a lump of exactly its size.
pub proof fn lemma_single_read_by_size<T: Record>(
    entry: LumpInfo,
    bytes: Seq<u8>,
    r: Result<T, ReadError>,
)
    requires
        single_outcome::<T>(entry, bytes, r),
    ensures
        entry.size as nat != T::spec_size() ==> r == Err::<T, ReadError>(
            ReadError::Size(
                SizeError::Exact { expected: T::spec_size() as usize, actual: entry.size },
            ),
        ),
        r is Ok ==> entry.size as nat == T::spec_size(),
{
}

/// A container whose first directory entry is named like the sentinel
/// does not open: once header and first entry are read, the level
/// grouping is found malformed.
pub proof fn lemma_sentinel_first_never_opens(bytes: Seq<u8>)
    requires
        bytes.len() >= 12,
        spec_wad_type(spec_header(bytes)) is Some,
        spec_header(bytes).num_lumps > 0,
        spec_header(bytes).info_table_offset + 16 <= bytes.len(),
        directory(bytes)[0].name == spec_sentinel(),
    ensures
        container_failure(bytes) == Some(OpenError::Format(FormatError::MalformedLevelGroup)),
{
}

/// A container that opens has as many entries as its header says, all of
/// them inside its bytes, and a first entry that is no sentinel.
pub proof fn lemma_opened_directory(bytes: Seq<u8>)
    requires
        container_failure(bytes) is None,
    ensures
        bytes.len() >= 12,
        directory(bytes).len() == spec_header(bytes).num_lumps,
        spec_header(bytes).num_lumps > 0 ==> {
            &&& spec_header(bytes).info_table_offset + 16 * spec_header(bytes).num_lumps
                <= bytes.len()
            &&& directory(bytes)[0].name != spec_sentinel()
        },
{
}

/// A name that the lookup finds stands at a position of the directory,
/// under that name, and nowhere behind it.
pub proof fn lemma_lookup_found(entries: Seq<LumpInfo>, name: WadName, n: int)
    requires
        0 <= n <= entries.len(),
        n <= usize::MAX,
    ensures
        match last_position(entries, name, n) {
            Some(at) => {
                &&& at < n
                &&& entries[at as int].name == name
                &&& forall|j: int| at < j < n ==> (#[trigger] entries[j]).name != name
            },
            None => forall|j: int| 0 <= j < n ==> (#[trigger] entries[j]).name != name,
        },
    decreases n,
{
    if n > 0 && entries[n - 1].name != name {
        lemma_lookup_found(entries, name, n - 1);
    }
}

/// Last wins: the lookup of a name gives the position `at` whenever the
/// entry at `at` has that name and no later entry has it.
pub proof fn lemma_lookup_last_wins(entries: Seq<LumpInfo>, at: int, n: int)
    requires
        0 <= at < n <= entries.len(),
        n <= usize::MAX,
        forall|j: int| at < j < n ==> (#[trigger] entries[j]).name != entries[at].name,
    ensures
        last_position(entries, entries[at].name, n) == Some(at as usize),
    decreases n,
{
    if entries[n - 1].name != entries[at].name {
        lemma_lookup_last_wins(entries, at, n - 1);
    }
}

/// A name that only one entry has is found at that entry's position.
pub proof fn lemma_lookup_distinct(entries: Seq<LumpInfo>, at: int)
    requires
        0 <= at < entries.len(),
        entries.len() <= usize::MAX,
        forall|j: int|
            0 <= j < entries.len() && j != at ==> (#[trigger] entries[j]).name != entries[at].name,
    ensures
        last_position(entries, entries[at].name, entries.len() as int) == Some(at as usize),
{
    lemma_lookup_last_wins(entries, at, entries.len() as int);
}

/// Every level header stands just before a sentinel, and the headers come
/// in rising order, provided the first entry is no sentinel.
pub proof fn lemma_markers_sound(entries: Seq<LumpInfo>, n: int, level: int)
    requires
        0 <= n <= entries.len(),
        n <= usize::MAX,
        n > 0 ==> entries[0].name != spec_sentinel(),
        0 <= level < level_markers(entries, n).len(),
    ensures
        level_markers(entries, n)[level] + 1 < n,
        entries[level_markers(entries, n)[level] + 1].name == spec_sentinel(),
        forall|earlier: int|
            0 <= earlier < level ==> (#[trigger] level_markers(entries, n)[earlier])
                < level_markers(entries, n)[level],
    decreases n,
{
    if n > 0 {
        let rest = level_markers(entries, n - 1);
        if entries[n - 1].name == spec_sentinel() {
            if level < rest.len() {
                lemma_markers_sound(entries, n - 1, level);
            } else {
                assert forall|earlier: int| 0 <= earlier < level implies (#[trigger] level_markers(
                    entries,
                    n,
                )[earlier]) < level_markers(entries, n)[level] by {
                    lemma_markers_sound(entries, n - 1, earlier);
                }
            }
        } else {
            lemma_markers_sound(entries, n - 1, level);
        }
    }
}

/// Every sentinel behind the first entry gives a level whose header is
/// the entry just before it.
pub proof fn lemma_markers_complete(entries: Seq<LumpInfo>, n: int, at: int)
    requires
        1 <= at < n <= entries.len(),
        n <= usize::MAX,
        entries[at].name == spec_sentinel(),
    ensures
        exists|level: int|
            0 <= level < level_markers(entries, n).len() && #[trigger] level_markers(
                entries,
                n,
            )[level] == at - 1,
    decreases n,
{
    let here = level_markers(entries, n);
    let rest = level_markers(entries, n - 1);
    if at == n - 1 {
        assert(here[rest.len() as int] == at - 1);
    } else {
        lemma_markers_complete(entries, n - 1, at);
        let level = choose|level: int|
            0 <= level < rest.len() && #[trigger] rest[level] == at - 1;
        assert(here[level] == at - 1);
    }
}

} // verus!
