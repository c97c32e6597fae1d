use wad::record::{i16_le, u16_le, u32_le, Record};
use wad::stream::{ByteStream, IoError, ReadExt};
use wad::text::{utf8_text, TextError};
use wad::types::{
    wad_type_from_info, WadInfo, WadLinedef, WadLump, WadThing, WadType, IWAD_MAGIC, PWAD_MAGIC,
};

#[test]
fn integers_are_little_endian() {
    assert_eq!(u16_le(&[0x34, 0x12], 0), 0x1234);
    assert_eq!(u16_le(&[0, 0x34, 0x12], 1), 0x1234);
    assert_eq!(u32_le(&[0x78, 0x56, 0x34, 0x12], 0), 0x12345678);
    assert_eq!(u32_le(&[0xff, 0xff, 0xff, 0xff], 0), u32::MAX);
    assert_eq!(i16_le(&[0xff, 0xff], 0), -1);
    assert_eq!(i16_le(&[0x00, 0x80], 0), i16::MIN);
    assert_eq!(i16_le(&[0xff, 0x7f], 0), i16::MAX);
}

#[test]
fn primitive_records_decode() {
    assert_eq!(<u8 as Record>::size(), 1);
    assert_eq!(<u16 as Record>::size(), 2);
    assert_eq!(<i16 as Record>::size(), 2);
    assert_eq!(<u32 as Record>::size(), 4);
    assert_eq!(<i32 as Record>::size(), 4);
    assert_eq!(<u8 as Record>::decode(&[7]), 7);
    assert_eq!(<u16 as Record>::decode(&[1, 2]), 0x0201);
    assert_eq!(<i16 as Record>::decode(&[0xfe, 0xff]), -2);
    assert_eq!(<u32 as Record>::decode(&[1, 2, 3, 4]), 0x04030201);
    assert_eq!(<i32 as Record>::decode(&[0xff, 0xff, 0xff, 0xff]), -1);
    assert_eq!(<i32 as Record>::decode(&[0, 0, 0, 0x80]), i32::MIN);
    assert_eq!(<i32 as Record>::decode(&[0xff, 0xff, 0xff, 0x7f]), i32::MAX);
}

#[test]
fn header_decodes_field_by_field() {
    let bytes = [b'I', b'W', b'A', b'D', 3, 0, 0, 0, 0x0c, 0x01, 0, 0];
    let header = <WadInfo as Record>::decode(&bytes);
    assert_eq!(<WadInfo as Record>::size(), 12);
    assert_eq!(header.identifier, IWAD_MAGIC);
    assert_eq!(header.num_lumps, 3);
    assert_eq!(header.info_table_offset, 0x010c);
}

#[test]
fn magic_decides_the_kind_of_container() {
    let mut header = WadInfo { identifier: IWAD_MAGIC, num_lumps: 0, info_table_offset: 12 };
    assert_eq!(wad_type_from_info(&header), Some(WadType::Initial));
    header.identifier = PWAD_MAGIC;
    assert_eq!(wad_type_from_info(&header), Some(WadType::Modifiable));
    header.identifier = u32::from_le_bytes(*b"ZWAD");
    assert_eq!(wad_type_from_info(&header), None);
    header.identifier = u32::from_le_bytes(*b"iwad");
    assert_eq!(wad_type_from_info(&header), None);
}

#[test]
fn directory_entry_decodes_with_its_raw_name() {
    let mut bytes = vec![0x10, 0x20, 0, 0, 40, 0, 0, 0];
    bytes.extend_from_slice(b"things\0\0");
    let lump = <WadLump as Record>::decode(&bytes);
    assert_eq!(<WadLump as Record>::size(), 16);
    assert_eq!(lump.file_pos, 0x2010);
    assert_eq!(lump.size, 40);
    assert_eq!(lump.name.bytes(), *b"things\0\0");
}

#[test]
fn thing_decodes_field_by_field() {
    let bytes = [0xf0, 0xff, 0x20, 0x00, 0x5a, 0x00, 0x01, 0x00, 0x07, 0x00];
    let thing = <WadThing as Record>::decode(&bytes);
    assert_eq!(<WadThing as Record>::size(), 10);
    assert_eq!(thing, WadThing { x: -16, y: 32, angle: 90, thing_type: 1, flags: 7 });
}

#[test]
fn linedef_decodes_field_by_field() {
    let bytes = [1, 0, 2, 0, 3, 0, 4, 0, 5, 0, 6, 0, 0xff, 0xff];
    let line = <WadLinedef as Record>::decode(&bytes);
    assert_eq!(<WadLinedef as Record>::size(), 14);
    assert_eq!(
        line,
        WadLinedef {
            start_vertex: 1,
            end_vertex: 2,
            flags: 3,
            special_type: 4,
            sector_tag: 5,
            right_side: 6,
            left_side: 0xffff,
        }
    );
}

#[test]
fn stream_reads_in_order() {
    let mut stream = ByteStream::new(vec![1, 2, 3, 4, 5]);
    assert_eq!(stream.len(), 5);
    assert_eq!(stream.read(2), vec![1, 2]);
    assert_eq!(stream.read(0), Vec::<u8>::new());
    assert_eq!(stream.read(10), vec![3, 4, 5]);
    assert_eq!(stream.read(1), Vec::<u8>::new());
}

#[test]
fn stream_read_at_least_gives_exactly_what_is_asked() {
    let mut stream = ByteStream::new(vec![1, 2, 3, 4, 5]);
    assert_eq!(stream.read_at_least(3), Ok(vec![1, 2, 3]));
    assert_eq!(stream.read_at_least(0), Ok(vec![]));
    assert_eq!(stream.read_at_least(3), Err(IoError::UnexpectedEof));
    assert_eq!(stream.read_at_least(1), Err(IoError::UnexpectedEof));
}

#[test]
fn stream_seek_moves_the_cursor() {
    let mut stream = ByteStream::new(vec![1, 2, 3, 4, 5]);
    stream.seek(3);
    assert_eq!(stream.read_at_least(2), Ok(vec![4, 5]));
    stream.seek(1);
    assert_eq!(stream.read_binary::<u16>(), Ok(0x0302));
    stream.seek(5);
    assert_eq!(stream.read_at_least(0), Ok(vec![]));
    assert_eq!(stream.read_binary::<u8>(), Err(IoError::UnexpectedEof));
    stream.seek(u64::MAX);
    assert_eq!(stream.read(4), Vec::<u8>::new());
    assert_eq!(stream.read_binary::<u8>(), Err(IoError::UnexpectedEof));
}

#[test]
fn stream_read_binary_decodes_a_record() {
    let mut stream = ByteStream::new(vec![0xff, 0xff, 0x78, 0x56, 0x34, 0x12, 9]);
    assert_eq!(stream.read_binary::<i16>(), Ok(-1));
    assert_eq!(stream.read_binary::<u32>(), Ok(0x12345678));
    assert_eq!(stream.read_binary::<u16>(), Err(IoError::UnexpectedEof));
}

#[test]
fn text_is_taken_from_valid_utf8() {
    assert_eq!(utf8_text(b"name = \"doom\"".to_vec()), Ok(String::from("name = \"doom\"")));
    assert_eq!(utf8_text(vec![0xc3, 0xa9]), Ok(String::from("\u{e9}")));
    assert_eq!(utf8_text(Vec::new()), Ok(String::new()));
}

#[test]
fn text_refuses_invalid_utf8() {
    assert_eq!(utf8_text(vec![0x66, 0xff, 0x6f]), Err(TextError::InvalidUtf8));
    assert_eq!(utf8_text(vec![0xc3]), Err(TextError::InvalidUtf8));
    assert_eq!(utf8_text(vec![0xed, 0xa0, 0x80]), Err(TextError::InvalidUtf8));
}

#[test]
fn stream_read_takes_what_is_there() {
    let mut stream = ByteStream::new(vec![9, 8, 7]);
    stream.seek(2);
    assert_eq!(stream.read(5), vec![7]);
    assert_eq!(stream.read(5), Vec::<u8>::new());
    stream.seek(0);
    assert_eq!(stream.read(3), vec![9, 8, 7]);
}
