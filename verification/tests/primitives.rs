use optical_protocol::deserializer::Deserializer;
use optical_protocol::error::Error;
use optical_protocol::serializer::Serializer;
use optical_protocol::types::{read_string, read_unsigned_short, write_string, MinecraftUuid};

#[test]
fn string_round_trip_empty() {
    let mut buf: Vec<u8> = Vec::new();
    write_string(&mut buf, "").unwrap();
    assert_eq!(buf, vec![0x00]);
    assert_eq!(read_string(&buf).unwrap(), "");
}

#[test]
fn string_round_trip_ascii() {
    let mut buf: Vec<u8> = Vec::new();
    write_string(&mut buf, "localhost").unwrap();
    assert_eq!(buf[0], 9);
    assert_eq!(&buf[1..], b"localhost");
    assert_eq!(read_string(&buf).unwrap(), "localhost");
}

#[test]
fn string_round_trip_long() {
    // A body as long as a frame might carry, minus its overhead.
    let long: String = "x".repeat(65_000);
    let mut buf: Vec<u8> = Vec::new();
    write_string(&mut buf, &long).unwrap();
    assert_eq!(read_string(&buf).unwrap(), long);
}

#[test]
fn string_round_trip_multibyte() {
    let s = "héllo wörld ✓";
    let mut buf: Vec<u8> = Vec::new();
    write_string(&mut buf, s).unwrap();
    // The prefix counts bytes, not characters.
    assert_eq!(buf[0] as usize, s.len());
    assert_eq!(read_string(&buf).unwrap(), s);
}

#[test]
fn string_with_invalid_utf8_is_malformed() {
    // Length 2, then an unfinished multi-byte sequence.
    assert_eq!(read_string(&[0x02, 0xc3, 0x28]), Err(Error::MalformedString));
}

#[test]
fn string_with_negative_length_is_malformed() {
    // VarInt -1 as the byte count.
    assert_eq!(
        read_string(&[0xff, 0xff, 0xff, 0xff, 0x0f]),
        Err(Error::MalformedString)
    );
}

#[test]
fn string_cut_short_is_malformed() {
    assert_eq!(read_string(&[0x05, b'a', b'b']), Err(Error::MalformedString));
}

#[test]
fn unsigned_short_is_big_endian() {
    assert_eq!(read_unsigned_short(&[0x63, 0xdd]).unwrap(), 25565);
    assert_eq!(read_unsigned_short(&[0x00, 0x01]).unwrap(), 1);
    assert_eq!(read_unsigned_short(&[0x01]), Err(Error::MalformedU16));
}

#[test]
fn serializer_writes_big_endian_fixed_width() {
    let mut s = Serializer::new();
    s.serialize_u16(0x1234);
    s.serialize_i32(-2);
    s.serialize_i64(42);
    let out = s.into_bytes();
    assert_eq!(
        out,
        vec![
            0x12, 0x34, 0xff, 0xff, 0xff, 0xfe, 0x00, 0x00, 0x00, 0x00, 0x00, 0x00, 0x00, 0x2a
        ]
    );
}

#[test]
fn serializer_bool_and_bytes() {
    let mut s = Serializer::new();
    s.serialize_bool(true);
    s.serialize_bool(false);
    s.serialize_u8(0x7f);
    s.serialize_bytes(&[1, 2, 3]);
    assert_eq!(s.into_bytes(), vec![1, 0, 0x7f, 1, 2, 3]);
}

#[test]
fn deserializer_reads_each_construct() {
    let mut s = Serializer::new();
    s.serialize_bool(true);
    s.serialize_u8(9);
    s.serialize_u16(25565);
    s.serialize_i64(-7);
    s.serialize_var_int(300);
    s.serialize_var_long(-1);
    s.serialize_uuid(&MinecraftUuid { most: 0x0123456789abcdef, least: 0xfedcba9876543210 });
    s.serialize_byte_vec(&vec![0xaa, 0xbb]).unwrap();
    s.serialize_bytes(&[0xde, 0xad]);

    let mut d = Deserializer::from_bytes(s.into_bytes());
    assert_eq!(d.read_bool().unwrap(), true);
    assert_eq!(d.read_u8().unwrap(), 9);
    assert_eq!(d.read_u16().unwrap(), 25565);
    assert_eq!(d.read_i64().unwrap(), -7);
    assert_eq!(d.read_var_int().unwrap().value, 300);
    assert_eq!(d.read_var_long().unwrap().value, -1);
    let u = d.read_uuid().unwrap();
    assert_eq!(u.most, 0x0123456789abcdef);
    assert_eq!(u.least, 0xfedcba9876543210);
    assert_eq!(d.read_byte_vec().unwrap(), vec![0xaa, 0xbb]);
    assert_eq!(d.read_byte_tail(), vec![0xde, 0xad]);
    assert_eq!(d.remaining_len(), 0);
}

#[test]
fn deserializer_reads_i32_big_endian() {
    let mut s = Serializer::new();
    s.serialize_i32(-559038737);
    let mut d = Deserializer::from_bytes(s.into_bytes());
    assert_eq!(d.read_i32().unwrap(), -559038737);
    let mut d = Deserializer::from_bytes(vec![0x00, 0x00]);
    assert_eq!(d.read_i32(), Err(Error::MalformedI32));
}

#[test]
fn deserializer_reports_each_shortage() {
    let mut d = Deserializer::from_bytes(vec![]);
    assert_eq!(d.read_bool(), Err(Error::MalformedBool));
    assert_eq!(d.read_u8(), Err(Error::NoMoreBytes));
    assert_eq!(d.read_u16(), Err(Error::MalformedU16));
    assert_eq!(d.read_i64(), Err(Error::MalformedI64));
    assert_eq!(d.read_var_int().unwrap_err(), Error::MalformedVarInt);
    assert_eq!(d.read_var_long().unwrap_err(), Error::MalformedVarLong);
    assert_eq!(d.read_uuid().unwrap_err(), Error::MalformedUuid);
    assert_eq!(d.read_byte_vec().unwrap_err(), Error::MalformedByteVec);
}

#[test]
fn deserializer_byte_vec_cut_short() {
    let mut d = Deserializer::from_bytes(vec![0x05, 0x01]);
    assert_eq!(d.read_byte_vec(), Err(Error::MalformedByteVec));
}

#[test]
fn deserializer_bool_reads_any_nonzero_as_true_only_for_one() {
    // 0x01 is true; anything else reads back as false.
    let mut d = Deserializer::from_bytes(vec![0x01, 0x00, 0x02]);
    assert_eq!(d.read_bool().unwrap(), true);
    assert_eq!(d.read_bool().unwrap(), false);
    assert_eq!(d.read_bool().unwrap(), false);
}
