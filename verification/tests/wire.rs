use acceptor::wire::de::Deserializer;
use acceptor::wire::error::Error;
use acceptor::wire::ser::Serializer;

fn varint(v: u64, le: bool) -> Vec<u8> {
    let mut s = if le { Serializer::new_le() } else { Serializer::new() };
    s.serialize_u64(v);
    s.into_bytes()
}

#[test]
fn varint_forms() {
    assert_eq!(varint(0, false), vec![0]);
    assert_eq!(varint(0xFC, false), vec![0xFC]);
    assert_eq!(varint(0xFD, false), vec![0xFD, 0x00, 0xFD]);
    assert_eq!(varint(0xFFFF, false), vec![0xFD, 0xFF, 0xFF]);
    assert_eq!(varint(0x1234, true), vec![0xFD, 0x34, 0x12]);
    // between 0x1_0000 and 0xFF_FF00 the eight-byte form is written
    assert_eq!(varint(0x1_0000, false), vec![0xFF, 0, 0, 0, 0, 0, 1, 0, 0]);
    assert_eq!(varint(0xFF_FF00, false), vec![0xFF, 0, 0, 0, 0, 0, 0xFF, 0xFF, 0]);
    assert_eq!(varint(0xFF_FF01, false), vec![0xFE, 0, 0xFF, 0xFF, 0x01]);
    assert_eq!(varint(0xFFFF_FFFF, true), vec![0xFE, 0xFF, 0xFF, 0xFF, 0xFF]);
    assert_eq!(varint(0x1_0000_0000, false), vec![0xFF, 0, 0, 0, 1, 0, 0, 0, 0]);
    assert_eq!(varint(u64::MAX, true), vec![0xFF; 9]);
}

#[test]
fn varint_reads_back() {
    for &le in &[false, true] {
        for &v in &[0u64, 1, 0xFC, 0xFD, 0xFFFF, 0x1_0000, 0xFF_FF00, 0xFF_FF01, 0xFFFF_FFFF, 0x1_0000_0000, u64::MAX] {
            let mut bytes = varint(v, le);
            bytes.push(7);
            let mut d = if le { Deserializer::from_bytes_le(&bytes) } else { Deserializer::from_bytes(&bytes) };
            assert_eq!(d.parse_unsigned(), Ok(v));
            assert_eq!(d.position(), bytes.len() - 1);
        }
    }
}

#[test]
fn zigzag_values() {
    let mut s = Serializer::new();
    s.serialize_i64(0);
    s.serialize_i64(-1);
    s.serialize_i64(1);
    s.serialize_i64(-2);
    s.serialize_i8(-78);
    s.serialize_i32(i32::MIN);
    s.serialize_i64(i64::MAX);
    let bytes = s.into_bytes();
    assert_eq!(&bytes[..4], &[0, 1, 2, 3]);
    assert_eq!(&bytes[4..10], &[155, 0xFE, 0xFF, 0xFF, 0xFF, 0xFF]);
    let mut d = Deserializer::from_bytes(&bytes);
    assert_eq!(d.deserialize_i64(), Ok(0));
    assert_eq!(d.deserialize_i64(), Ok(-1));
    assert_eq!(d.deserialize_i64(), Ok(1));
    assert_eq!(d.deserialize_i64(), Ok(-2));
    assert_eq!(d.deserialize_i8(), Ok(-78));
    assert_eq!(d.deserialize_i32(), Ok(i32::MIN));
    assert_eq!(d.deserialize_i64(), Ok(i64::MAX));
    assert!(!d.has_remaining());
}

#[test]
fn zigzag_decode_direct() {
    let d = Deserializer::from_bytes(&[]);
    assert_eq!(d.zigzag_decode(0), 0);
    assert_eq!(d.zigzag_decode(1), -1);
    assert_eq!(d.zigzag_decode(155), -78);
    assert_eq!(d.zigzag_decode(u64::MAX), i64::MIN);
}

#[test]
fn bool_and_option_flags() {
    let mut s = Serializer::new();
    s.serialize_bool(true);
    s.serialize_bool(false);
    s.serialize_none();
    s.serialize_some();
    let bytes = s.into_bytes();
    assert_eq!(bytes, vec![1, 0, 0, 1]);
    let input = [0u8, 1, 7];
    let mut d = Deserializer::from_bytes(&input);
    assert_eq!(d.parse_bool(), Ok(false));
    assert_eq!(d.parse_bool(), Ok(true));
    assert_eq!(d.parse_bool(), Ok(true));
    assert_eq!(d.parse_bool(), Err(Error::Eof));
}

#[test]
fn truncating_reads() {
    let mut s = Serializer::new();
    s.serialize_u64(0x1_0000_0001);
    s.serialize_u64(300);
    let bytes = s.into_bytes();
    let mut d = Deserializer::from_bytes(&bytes);
    assert_eq!(d.deserialize_u32(), Ok(1));
    assert_eq!(d.deserialize_u8(), Ok(44));
}

#[test]
fn eof_errors() {
    let mut d = Deserializer::from_bytes(&[]);
    assert_eq!(d.parse_unsigned(), Err(Error::Eof));
    assert_eq!(d.position(), 0);
    let input = [0xFFu8, 1, 2];
    let mut d = Deserializer::from_bytes(&input);
    assert_eq!(d.parse_unsigned(), Err(Error::Eof));
    assert_eq!(d.position(), 1);
    let input = [0xFEu8, 1, 2, 3];
    assert_eq!(Deserializer::from_bytes(&input).parse_unsigned(), Err(Error::Eof));
    let input = [0xFDu8, 1];
    assert_eq!(Deserializer::from_bytes(&input).parse_unsigned(), Err(Error::Eof));
    let input = [3u8, b'a', b'b'];
    assert_eq!(Deserializer::from_bytes(&input).parse_bytes(), Err(Error::Eof));
}

#[test]
fn strings_and_bytes() {
    let mut s = Serializer::new();
    s.serialize_str("héllo");
    s.serialize_bytes(&[9, 8, 7]);
    let bytes = s.into_bytes();
    assert_eq!(bytes[0], 6);
    let mut d = Deserializer::from_bytes(&bytes);
    assert_eq!(d.parse_string().unwrap(), "héllo");
    assert_eq!(d.parse_bytes().unwrap(), vec![9, 8, 7]);
    let bad = [2u8, 0xC3, 0x28];
    assert_eq!(Deserializer::from_bytes(&bad).parse_string(), Err(Error::Format));
}

#[test]
fn seq_map_tuple_lengths() {
    let mut s = Serializer::new();
    s.serialize_seq(3);
    s.serialize_map(300);
    s.serialize_tuple(2);
    let bytes = s.into_bytes();
    assert_eq!(bytes, vec![3, 0xFD, 0x01, 0x2C, 2]);
    let mut d = Deserializer::from_bytes(&bytes);
    assert_eq!(d.parse_len(), Ok(3));
    assert_eq!(d.parse_len(), Ok(300));
    assert_eq!(d.parse_len(), Ok(2));
}

#[test]
fn raw_bytes() {
    let mut s = Serializer::new();
    s.append_raw(&1.5f32.to_be_bytes());
    let bytes = s.into_bytes();
    let mut d = Deserializer::from_bytes(&bytes);
    let raw = d.take_raw(4).unwrap();
    assert_eq!(f32::from_be_bytes([raw[0], raw[1], raw[2], raw[3]]), 1.5);
    assert_eq!(d.take_raw(1), Err(Error::Eof));
}
