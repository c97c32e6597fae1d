use wad::archive::{sentinel, Archive};
use wad::error::{FormatError, OpenError, ReadError, SizeError};
use wad::name::WadName;
use wad::stream::IoError;
use wad::types::{WadLinedef, WadThing};

fn put_u32(out: &mut Vec<u8>, value: u32) {
    out.extend_from_slice(&value.to_le_bytes());
}

fn put_entry(out: &mut Vec<u8>, name: &[u8], offset: u32, len: u32) {
    put_u32(out, offset);
    put_u32(out, len);
    let mut padded = [0u8; 8];
    padded[..name.len()].copy_from_slice(name);
    out.extend_from_slice(&padded);
}

/// A container: header, then `payload` from byte 12 on, then the directory.
fn container(magic: &[u8; 4], payload: &[u8], entries: &[(&[u8], u32, u32)]) -> Vec<u8> {
    let mut out: Vec<u8> = Vec::new();
    out.extend_from_slice(magic);
    put_u32(&mut out, entries.len() as u32);
    put_u32(&mut out, 12 + payload.len() as u32);
    out.extend_from_slice(payload);
    for (name, offset, len) in entries {
        put_entry(&mut out, name, *offset, *len);
    }
    out
}

fn no_meta() -> Result<u32, String> {
    Ok(7)
}

fn one_level() -> Vec<u8> {
    let mut payload: Vec<u8> = Vec::new();
    for i in 0..4u16 {
        for field in [i, 10 + i, 90, 1, 7] {
            payload.extend_from_slice(&field.to_le_bytes());
        }
    }
    for i in 0..2u16 {
        for field in [i, i + 1, 0, 0, 0, 5, 0xffff] {
            payload.extend_from_slice(&field.to_le_bytes());
        }
    }
    container(b"IWAD", &payload, &[(b"E1M1", 0, 0), (b"THINGS", 12, 40), (b"LINEDEFS", 52, 28)])
}

#[test]
fn one_level_container_opens() {
    let archive = Archive::open(one_level(), no_meta()).unwrap();
    assert_eq!(archive.num_lumps(), 3);
    assert_eq!(archive.num_levels(), 1);
    assert_eq!(archive.get_level_lump_index(0), 0);
    assert_eq!(*archive.get_level_name(0), WadName::from_bytes(b"E1M1"));
    assert_eq!(archive.get_level_name(0).bytes(), *b"E1M1\0\0\0\0");
    assert_eq!(*archive.get_metadata(), 7);
}

#[test]
fn patch_container_opens() {
    let bytes = container(b"PWAD", &[], &[(b"DEMO1", 12, 0)]);
    let archive = Archive::open(bytes, no_meta()).unwrap();
    assert_eq!(archive.num_lumps(), 1);
    assert_eq!(archive.num_levels(), 0);
}

#[test]
fn every_distinct_name_is_found_at_its_position() {
    let names: [&[u8]; 6] = [b"PLAYPAL", b"colormap", b"E1M1", b"THINGS", b"Vertexes", b"F_END"];
    let entries: Vec<(&[u8], u32, u32)> = names.iter().map(|n| (*n, 12, 0)).collect();
    let archive = Archive::open(container(b"IWAD", &[], &entries), no_meta()).unwrap();
    assert_eq!(archive.num_lumps(), 6);
    for (position, name) in names.iter().enumerate() {
        assert_eq!(archive.get_lump_index(&WadName::from_bytes(name)), Some(position));
        assert_eq!(*archive.get_lump_name(position), WadName::from_bytes(name));
    }
    assert_eq!(archive.get_lump_index(&WadName::from_bytes(b"COLORMAP")), Some(1));
    assert_eq!(archive.get_lump_index(&WadName::from_bytes(b"vertexes")), Some(4));
    assert_eq!(archive.get_lump_index(&WadName::from_bytes(b"MISSING")), None);
    assert_eq!(archive.get_lump_index(&WadName::from_bytes(b"")), None);
}

#[test]
fn the_later_of_two_equal_names_wins() {
    let entries: [(&[u8], u32, u32); 7] = [
        (b"A", 12, 0),
        (b"B", 12, 0),
        (b"flat", 12, 0),
        (b"C", 12, 0),
        (b"D", 12, 0),
        (b"FLAT", 12, 0),
        (b"E", 12, 0),
    ];
    let archive = Archive::open(container(b"IWAD", &[], &entries), no_meta()).unwrap();
    assert_eq!(archive.num_lumps(), 7);
    assert_eq!(archive.get_lump_index(&WadName::from_bytes(b"FLAT")), Some(5));
    assert_eq!(*archive.get_lump_name(2), WadName::from_bytes(b"FLAT"));
    assert_eq!(*archive.get_lump_name(5), WadName::from_bytes(b"FLAT"));
    assert_eq!(archive.get_lump_index(&WadName::from_bytes(b"A")), Some(0));
    assert_eq!(archive.get_lump_index(&WadName::from_bytes(b"E")), Some(6));
}

#[test]
fn sentinel_in_front_is_refused() {
    let bytes = container(b"IWAD", &[0; 40], &[(b"THINGS", 12, 40), (b"E1M1", 12, 0)]);
    assert_eq!(
        Archive::open(bytes, no_meta()).err(),
        Some(OpenError::Format(FormatError::MalformedLevelGroup))
    );
    let lower = container(b"PWAD", &[], &[(b"things", 12, 0)]);
    assert_eq!(
        Archive::open(lower, no_meta()).err(),
        Some(OpenError::Format(FormatError::MalformedLevelGroup))
    );
}

#[test]
fn sentinel_is_the_name_things() {
    assert_eq!(sentinel(), WadName::from_bytes(b"THINGS"));
    assert_eq!(sentinel().bytes(), *b"THINGS\0\0");
}

#[test]
fn each_sentinel_marks_the_entry_before_it() {
    let entries: [(&[u8], u32, u32); 8] = [
        (b"PLAYPAL", 12, 0),
        (b"E1M1", 12, 0),
        (b"THINGS", 12, 0),
        (b"LINEDEFS", 12, 0),
        (b"MAP02", 12, 0),
        (b"things", 12, 0),
        (b"THINGS", 12, 0),
        (b"END", 12, 0),
    ];
    let archive = Archive::open(container(b"IWAD", &[], &entries), no_meta()).unwrap();
    assert_eq!(archive.num_levels(), 3);
    assert_eq!(archive.get_level_lump_index(0), 1);
    assert_eq!(archive.get_level_lump_index(1), 4);
    assert_eq!(archive.get_level_lump_index(2), 5);
    assert_eq!(*archive.get_level_name(0), WadName::from_bytes(b"E1M1"));
    assert_eq!(*archive.get_level_name(1), WadName::from_bytes(b"MAP02"));
    assert_eq!(*archive.get_level_name(2), WadName::from_bytes(b"THINGS"));
}

#[test]
fn virtual_lumps_are_those_without_bytes() {
    let mut archive = Archive::open(one_level(), no_meta()).unwrap();
    assert!(archive.is_virtual_lump(0));
    assert!(!archive.is_virtual_lump(1));
    assert!(!archive.is_virtual_lump(2));
    assert_eq!(
        archive.read_lump::<u8>(0),
        Err(ReadError::Size(SizeError::NotAligned { len: 0, elem_size: 1 }))
    );
    assert_eq!(
        archive.read_lump::<WadThing>(0),
        Err(ReadError::Size(SizeError::NotAligned { len: 0, elem_size: 10 }))
    );
}

#[test]
fn aligned_lump_reads_as_records() {
    let mut archive = Archive::open(one_level(), no_meta()).unwrap();
    let things = archive.read_lump::<WadThing>(1).unwrap();
    assert_eq!(things.len(), 4);
    assert_eq!(things[0], WadThing { x: 0, y: 10, angle: 90, thing_type: 1, flags: 7 });
    assert_eq!(things[3], WadThing { x: 3, y: 13, angle: 90, thing_type: 1, flags: 7 });
    let lines = archive.read_lump::<WadLinedef>(2).unwrap();
    assert_eq!(lines.len(), 2);
    assert_eq!(
        lines[1],
        WadLinedef {
            start_vertex: 1,
            end_vertex: 2,
            flags: 0,
            special_type: 0,
            sector_tag: 0,
            right_side: 5,
            left_side: 0xffff,
        }
    );
    let words = archive.read_lump::<u16>(1).unwrap();
    assert_eq!(words.len(), 20);
    assert_eq!(&words[..5], &[0, 10, 90, 1, 7]);
    let again = archive.read_lump::<WadThing>(1).unwrap();
    assert_eq!(again, things);
}

#[test]
fn misaligned_lump_is_refused() {
    let mut archive = Archive::open(one_level(), no_meta()).unwrap();
    assert_eq!(
        archive.read_lump::<WadLinedef>(1),
        Err(ReadError::Size(SizeError::NotAligned { len: 40, elem_size: 14 }))
    );
    assert_eq!(
        archive.read_lump::<WadThing>(2),
        Err(ReadError::Size(SizeError::NotAligned { len: 28, elem_size: 10 }))
    );
    assert_eq!(archive.read_lump::<u32>(2).map(|v| v.len()), Ok(7));
}

#[test]
fn single_read_wants_the_exact_size() {
    let payload = [0xf0, 0xff, 0x20, 0x00, 0x5a, 0x00, 0x01, 0x00, 0x07, 0x00, 0xaa, 0xbb];
    let bytes = container(
        b"IWAD",
        &payload,
        &[(b"ONE", 12, 10), (b"LONG", 12, 12), (b"SHORT", 12, 9), (b"NONE", 12, 0), (b"TWO", 22, 2)],
    );
    let mut archive = Archive::open(bytes, no_meta()).unwrap();
    assert_eq!(
        archive.read_lump_single::<WadThing>(0),
        Ok(WadThing { x: -16, y: 32, angle: 90, thing_type: 1, flags: 7 })
    );
    assert_eq!(
        archive.read_lump_single::<WadThing>(1),
        Err(ReadError::Size(SizeError::Exact { expected: 10, actual: 12 }))
    );
    assert_eq!(
        archive.read_lump_single::<WadThing>(2),
        Err(ReadError::Size(SizeError::Exact { expected: 10, actual: 9 }))
    );
    assert_eq!(
        archive.read_lump_single::<u16>(3),
        Err(ReadError::Size(SizeError::Exact { expected: 2, actual: 0 }))
    );
    assert_eq!(archive.read_lump_single::<u16>(4), Ok(0xbbaa));
}

#[test]
fn lump_is_read_by_name() {
    let mut archive = Archive::open(one_level(), no_meta()).unwrap();
    let things = archive.read_lump_by_name::<WadThing>(&WadName::from_bytes(b"things")).unwrap();
    assert_eq!(things.len(), 4);
    assert_eq!(things[2], WadThing { x: 2, y: 12, angle: 90, thing_type: 1, flags: 7 });
    assert_eq!(
        archive.read_lump_by_name::<u8>(&WadName::from_bytes(b"E1M1")),
        Err(ReadError::Size(SizeError::NotAligned { len: 0, elem_size: 1 }))
    );
}

#[test]
fn lump_past_the_end_is_an_io_error() {
    let bytes = container(
        b"IWAD",
        &[1, 2, 3, 4],
        &[(b"FAR", 4000, 4), (b"HALF", 14, 4), (b"EDGE", 12, 4), (b"WIDE", 0xffff_fff0, 0xffff_fffc)],
    );
    let mut archive = Archive::open(bytes, no_meta()).unwrap();
    assert_eq!(archive.read_lump::<u16>(0), Err(ReadError::Io(IoError::UnexpectedEof)));
    assert_eq!(archive.read_lump_single::<u32>(0), Err(ReadError::Io(IoError::UnexpectedEof)));
    assert_eq!(archive.read_lump::<u16>(3), Err(ReadError::Io(IoError::UnexpectedEof)));
    assert_eq!(archive.read_lump_single::<u32>(2), Ok(0x04030201));
    assert_eq!(archive.read_lump::<u16>(2), Ok(vec![0x0201, 0x0403]));
    let half = archive.read_lump::<u8>(1).unwrap();
    assert_eq!(half.len(), 4);
    assert_eq!(&half[..2], &[3, 4]);
}

#[test]
fn short_header_is_an_io_error() {
    assert_eq!(Archive::open(Vec::new(), no_meta()).err(), Some(OpenError::Io(IoError::UnexpectedEof)));
    assert_eq!(
        Archive::open(b"IWAD\0\0\0\0\x0c\0\0".to_vec(), no_meta()).err(),
        Some(OpenError::Io(IoError::UnexpectedEof))
    );
}

#[test]
fn unknown_magic_is_refused() {
    let bytes = container(b"WAD2", &[], &[(b"E1M1", 12, 0)]);
    assert_eq!(
        Archive::open(bytes, no_meta()).err(),
        Some(OpenError::Format(FormatError::UnrecognizedMagic))
    );
}

#[test]
fn truncated_directory_is_an_io_error() {
    let mut bytes = one_level();
    bytes.pop();
    assert_eq!(Archive::open(bytes, no_meta()).err(), Some(OpenError::Io(IoError::UnexpectedEof)));
    let mut far = container(b"IWAD", &[], &[(b"E1M1", 12, 0)]);
    far[8] = 0xff;
    far[9] = 0xff;
    assert_eq!(Archive::open(far, no_meta()).err(), Some(OpenError::Io(IoError::UnexpectedEof)));
}

#[test]
fn empty_directory_opens_wherever_it_points() {
    let mut bytes = container(b"PWAD", &[], &[]);
    bytes[8] = 0xff;
    bytes[9] = 0xff;
    let archive = Archive::open(bytes, no_meta()).unwrap();
    assert_eq!(archive.num_lumps(), 0);
    assert_eq!(archive.num_levels(), 0);
    assert_eq!(archive.get_lump_index(&WadName::from_bytes(b"E1M1")), None);
}

#[test]
fn metadata_error_comes_after_the_container_checks() {
    let failed = || -> Result<u32, String> { Err(String::from("no such file")) };
    assert_eq!(
        Archive::open(one_level(), failed()).err(),
        Some(OpenError::Metadata(String::from("no such file")))
    );
    let bad = container(b"WAD2", &[], &[]);
    assert_eq!(
        Archive::open(bad, failed()).err(),
        Some(OpenError::Format(FormatError::UnrecognizedMagic))
    );
    let first = container(b"IWAD", &[], &[(b"THINGS", 12, 0)]);
    assert_eq!(
        Archive::open(first, failed()).err(),
        Some(OpenError::Format(FormatError::MalformedLevelGroup))
    );
}

#[test]
fn truncation_of_the_first_entry_comes_before_its_name() {
    let mut bytes = container(b"IWAD", &[], &[(b"THINGS", 12, 0)]);
    bytes.pop();
    assert_eq!(Archive::open(bytes, no_meta()).err(), Some(OpenError::Io(IoError::UnexpectedEof)));
    let mut later = container(b"IWAD", &[], &[(b"THINGS", 12, 0), (b"E1M1", 12, 0)]);
    later.pop();
    assert_eq!(
        Archive::open(later, no_meta()).err(),
        Some(OpenError::Format(FormatError::MalformedLevelGroup))
    );
}

#[test]
fn metadata_is_handed_back() {
    let meta: Result<String, String> = Ok(String::from("sky = \"SKY1\""));
    let archive = Archive::open(one_level(), meta).unwrap();
    assert_eq!(archive.get_metadata().as_str(), "sky = \"SKY1\"");
}

#[test]
fn header_is_parsed_from_the_cursor() {
    let mut stream = wad::stream::ByteStream::new(one_level());
    let header = wad::archive::parse_header(&mut stream).unwrap();
    assert_eq!(header.identifier, wad::types::IWAD_MAGIC);
    assert_eq!(header.num_lumps, 3);
    assert_eq!(header.info_table_offset, 12 + 40 + 28);
    let mut short = wad::stream::ByteStream::new(b"PWAD\x01\0\0\0".to_vec());
    assert_eq!(wad::archive::parse_header(&mut short), Err(OpenError::Io(IoError::UnexpectedEof)));
    let mut other = wad::stream::ByteStream::new(b"WAD3\x01\0\0\0\x0c\0\0\0".to_vec());
    assert_eq!(
        wad::archive::parse_header(&mut other),
        Err(OpenError::Format(FormatError::UnrecognizedMagic))
    );
}
