use ltv::codec::{decode_uint, encode_uint};
use ltv::{ByteOrder, LTVContainer, LTVError, LTVItem, LTVReader, LTVWriter};

#[test]
fn integers_in_both_byte_orders() {
    assert_eq!(0x1234u16.to_ltv(ByteOrder::BE), vec![0x12, 0x34]);
    assert_eq!(0x1234u16.to_ltv(ByteOrder::LE), vec![0x34, 0x12]);
    assert_eq!((-2i16).to_ltv(ByteOrder::BE), vec![0xFF, 0xFE]);
    assert_eq!((-2i8).to_ltv(ByteOrder::LE), vec![0xFE]);
    assert_eq!(0x0102_0304u32.to_ltv(ByteOrder::BE), vec![1, 2, 3, 4]);
    assert_eq!(i32::from_ltv(0, &[0xFF, 0xFF, 0xFF, 0xFE], ByteOrder::BE).unwrap(), -2);
    assert_eq!(i32::from_ltv(0, &[0xFE, 0xFF, 0xFF, 0xFF], ByteOrder::LE).unwrap(), -2);
    let big: u128 = 0x0102_0304_0506_0708_090A_0B0C_0D0E_0F10;
    let bytes = big.to_ltv(ByteOrder::BE);
    assert_eq!(bytes, (1u8..=16).collect::<Vec<u8>>());
    assert_eq!(u128::from_ltv(0, &bytes, ByteOrder::BE).unwrap(), big);
    assert_eq!(i128::from_ltv(0, &(-5i128).to_ltv(ByteOrder::LE), ByteOrder::LE).unwrap(), -5);
    assert_eq!(encode_uint(0xABCD, 2, ByteOrder::LE), vec![0xCD, 0xAB]);
    assert_eq!(decode_uint(&[0xAB, 0xCD], ByteOrder::BE), 0xABCD);
}

#[test]
fn wrong_size_for_fixed_widths() {
    assert!(matches!(
        u16::from_ltv(7, &[1], ByteOrder::BE),
        Err(LTVError::WrongSize { field_id: 7, expected: 2, recieved: 1 })
    ));
    assert!(matches!(
        u8::from_ltv(3, &[], ByteOrder::BE),
        Err(LTVError::WrongSize { field_id: 3, expected: 1, recieved: 0 })
    ));
    assert!(matches!(
        i32::from_ltv(1, &[1, 2, 3, 4, 5], ByteOrder::LE),
        Err(LTVError::WrongSize { field_id: 1, expected: 4, recieved: 5 })
    ));
    assert!(matches!(
        u128::from_ltv(1, &[0; 15], ByteOrder::LE),
        Err(LTVError::WrongSize { field_id: 1, expected: 16, recieved: 15 })
    ));
    assert!(matches!(
        <[u8; 3]>::from_ltv(2, &[1, 2], ByteOrder::BE),
        Err(LTVError::WrongSize { field_id: 2, expected: 3, recieved: 2 })
    ));
    assert_eq!(<[u8; 3]>::from_ltv(2, &[1, 2, 3], ByteOrder::BE).unwrap(), [1, 2, 3]);
}

#[test]
fn raw_bytes_take_any_length() {
    assert_eq!(Vec::<u8>::from_ltv(1, &[], ByteOrder::BE).unwrap(), Vec::<u8>::new());
    assert_eq!(Vec::<u8>::from_ltv(1, &[9, 8, 7], ByteOrder::BE).unwrap(), vec![9, 8, 7]);
    assert_eq!(vec![9u8, 8].to_ltv(ByteOrder::LE), vec![9, 8]);
}

#[test]
fn marker_and_optional_absence() {
    assert!(<()>::from_ltv(4, &[], ByteOrder::BE).is_ok());
    assert!(matches!(
        <()>::from_ltv(4, &[1], ByteOrder::BE),
        Err(LTVError::UnexpectedValue(4, _))
    ));
    assert!(<()>::default_when_absent(4).is_ok());
    assert!(matches!(u8::default_when_absent(4), Err(LTVError::NotFound(4))));
    assert_eq!(Option::<u8>::default_when_absent(4).unwrap(), None);
    assert_eq!(Option::<u8>::from_ltv(4, &[], ByteOrder::BE).unwrap(), None);
    assert_eq!(Option::<u8>::from_ltv(4, &[6], ByteOrder::BE).unwrap(), Some(6));
}

#[test]
fn parse_one_frame() {
    let (n, tag, value) = LTVReader::parse_ltv(&[3, 9, 1, 2, 77], ByteOrder::BE, 1).unwrap();
    assert_eq!((n, tag, value), (4, 9, &[1u8, 2][..]));
    let (n, tag, value) = LTVReader::parse_ltv(&[3, 0, 9, 1, 2], ByteOrder::LE, 2).unwrap();
    assert_eq!((n, tag, value), (5, 9, &[1u8, 2][..]));
    let (n, tag, value) = LTVReader::parse_ltv(&[0, 3, 9, 1, 2, 4], ByteOrder::BE, 2).unwrap();
    assert_eq!((n, tag, value), (5, 9, &[1u8, 2][..]));
}

#[test]
fn zero_length_frame_is_a_bare_marker() {
    let (n, tag, value) = LTVReader::parse_ltv(&[0, 5, 6], ByteOrder::BE, 1).unwrap();
    assert_eq!((n, tag, value.len()), (1, 0, 0));
}

#[test]
fn short_frames_are_wrong_size() {
    assert!(matches!(
        LTVReader::parse_ltv(&[5, 1, 2], ByteOrder::BE, 1),
        Err(LTVError::WrongSize { field_id: 0, expected: 6, recieved: 3 })
    ));
    assert!(matches!(
        LTVReader::parse_ltv(&[5], ByteOrder::BE, 2),
        Err(LTVError::WrongSize { field_id: 0, expected: 2, recieved: 1 })
    ));
}

#[test]
fn iterator_gives_frames_then_the_error_then_ends() {
    let body: &[u8] = &[2, 1, 5, 3, 2, 6, 7, 9, 4];
    let reader = LTVReader::new(body, ByteOrder::BE, 1);
    let mut it = reader.iter();
    let f = it.next_field().unwrap().unwrap();
    assert_eq!((f.field_id, f.data.clone()), (1, vec![5]));
    let f = it.next_field().unwrap().unwrap();
    assert_eq!((f.field_id, f.data.clone()), (2, vec![6, 7]));
    assert!(matches!(
        it.next_field(),
        Some(Err(LTVError::WrongSize { expected: 10, recieved: 2, .. }))
    ));
    assert!(it.next_field().is_none());
}

#[test]
fn first_match_and_all_matches_share_a_tag() {
    let body: &[u8] = &[2, 1, 5, 2, 2, 9, 2, 1, 6];
    let reader = LTVReader::new(body, ByteOrder::BE, 1);
    assert_eq!(reader.get_item::<u8>(1).unwrap(), 5);
    assert_eq!(reader.get_many::<u8>(1).unwrap(), vec![5, 6]);
    assert_eq!(reader.get_many::<u8>(3).unwrap(), Vec::<u8>::new());
    assert_eq!(reader.get_item_optional::<u8>(3).unwrap(), None);
    assert_eq!(reader.get_item_optional::<u8>(2).unwrap(), Some(9));
}

#[test]
fn malformed_frame_before_the_tag_is_reported() {
    let body: &[u8] = &[2, 1, 5, 9, 2];
    let reader = LTVReader::new(body, ByteOrder::BE, 1);
    assert_eq!(reader.get_item::<u8>(1).unwrap(), 5);
    assert!(matches!(reader.get_item::<u8>(2), Err(LTVError::WrongSize { .. })));
    assert!(matches!(reader.get_many::<u8>(1), Err(LTVError::WrongSize { .. })));
}

#[test]
fn repetition_writes_one_frame_per_value() {
    let mut writer = LTVWriter::new(Vec::new(), ByteOrder::BE, 1);
    writer.write_many(7, &vec![1u8, 2, 3]);
    let bytes = writer.into_inner();
    assert_eq!(bytes, vec![2, 7, 1, 2, 7, 2, 2, 7, 3]);
    let reader = LTVReader::new(&bytes, ByteOrder::BE, 1);
    assert_eq!(reader.get_many::<u8>(7).unwrap(), vec![1, 2, 3]);
    assert_eq!(reader.get_many::<u8>(8).unwrap(), Vec::<u8>::new());
}

#[test]
fn writer_omits_empty_optional_and_counts_bytes() {
    let mut writer = LTVWriter::new(vec![0xAA], ByteOrder::LE, 2);
    assert_eq!(writer.write_ltv(1, &Option::<u8>::None), 0);
    assert_eq!(writer.write_ltv(2, &0x0102u16), 5);
    assert_eq!(writer.write_ltv(3, &Vec::<u8>::new()), 3);
    assert_eq!(writer.into_inner(), vec![0xAA, 3, 0, 2, 2, 1, 1, 0, 3]);
}

#[test]
fn round_trips_through_a_field() {
    let mut writer = LTVWriter::new(Vec::new(), ByteOrder::LE, 2);
    writer.write_ltv(1, &-300i16);
    writer.write_ltv(2, &Some(0xDEAD_BEEFu32));
    writer.write_ltv(3, &[7u8, 8, 9]);
    let bytes = writer.into_inner();
    let reader = LTVReader::new(&bytes, ByteOrder::LE, 2);
    assert_eq!(reader.get_item::<i16>(1).unwrap(), -300);
    assert_eq!(reader.get_item::<Option<u32>>(2).unwrap(), Some(0xDEAD_BEEF));
    assert_eq!(reader.get_item::<[u8; 3]>(3).unwrap(), [7, 8, 9]);
    assert_eq!(reader.get_item::<Option<u8>>(4).unwrap(), None);
}
