use optical_protocol::error::Error;
use optical_protocol::types::{
    read_var_int, read_var_long, write_var_int, write_var_long, VarInt, VarLong,
};

fn var_int_round_trip(v: i32) {
    let mut buf: Vec<u8> = Vec::new();
    let n = write_var_int(&mut buf, v);
    assert_eq!(n, buf.len());
    let decoded = read_var_int(&buf).unwrap();
    assert_eq!(decoded, VarInt { value: v, size: n });
    // Trailing bytes are never consumed past the terminator.
    buf.push(0xAB);
    buf.push(0xCD);
    let again = read_var_int(&buf).unwrap();
    assert_eq!(again, VarInt { value: v, size: n });
}

fn var_long_round_trip(v: i64) {
    let mut buf: Vec<u8> = Vec::new();
    let n = write_var_long(&mut buf, v);
    assert_eq!(n, buf.len());
    let decoded = read_var_long(&buf).unwrap();
    assert_eq!(decoded, VarLong { value: v, size: n });
    buf.push(0x7f);
    let again = read_var_long(&buf).unwrap();
    assert_eq!(again, VarLong { value: v, size: n });
}

#[test]
fn var_int_boundary_values_round_trip() {
    var_int_round_trip(0);
    var_int_round_trip(1);
    var_int_round_trip(127);
    var_int_round_trip(128);
    var_int_round_trip(i32::MAX);
    var_int_round_trip(-1);
    var_int_round_trip(i32::MIN);
}

#[test]
fn var_long_boundary_values_round_trip() {
    var_long_round_trip(0);
    var_long_round_trip(1);
    var_long_round_trip(127);
    var_long_round_trip(128);
    var_long_round_trip(i64::MAX);
    var_long_round_trip(-1);
    var_long_round_trip(i64::MIN);
}

#[test]
fn var_int_known_encodings() {
    let mut buf: Vec<u8> = Vec::new();
    write_var_int(&mut buf, 0);
    assert_eq!(buf, vec![0x00]);

    let mut buf: Vec<u8> = Vec::new();
    write_var_int(&mut buf, 127);
    assert_eq!(buf, vec![0x7f]);

    let mut buf: Vec<u8> = Vec::new();
    write_var_int(&mut buf, 128);
    assert_eq!(buf, vec![0x80, 0x01]);

    let mut buf: Vec<u8> = Vec::new();
    write_var_int(&mut buf, 752);
    assert_eq!(buf, vec![0xf0, 0x05]);

    // Negative values re-encode bit for bit: always five bytes.
    let mut buf: Vec<u8> = Vec::new();
    write_var_int(&mut buf, -1);
    assert_eq!(buf, vec![0xff, 0xff, 0xff, 0xff, 0x0f]);

    let mut buf: Vec<u8> = Vec::new();
    write_var_int(&mut buf, i32::MAX);
    assert_eq!(buf, vec![0xff, 0xff, 0xff, 0xff, 0x07]);

    let mut buf: Vec<u8> = Vec::new();
    write_var_int(&mut buf, i32::MIN);
    assert_eq!(buf, vec![0x80, 0x80, 0x80, 0x80, 0x08]);
}

#[test]
fn var_long_negative_takes_ten_bytes() {
    let mut buf: Vec<u8> = Vec::new();
    let n = write_var_long(&mut buf, -1);
    assert_eq!(n, 10);
    assert_eq!(
        buf,
        vec![0xff, 0xff, 0xff, 0xff, 0xff, 0xff, 0xff, 0xff, 0xff, 0x01]
    );
}

#[test]
fn var_int_truncates_to_low_32_bits() {
    // Five groups carry 35 bits; the decoder keeps the low 32.
    let decoded = read_var_int(&[0xff, 0xff, 0xff, 0xff, 0x7f]).unwrap();
    assert_eq!(decoded, VarInt { value: -1, size: 5 });
}

#[test]
fn var_int_without_terminator_is_malformed() {
    assert_eq!(
        read_var_int(&[0xff, 0xff, 0xff, 0xff, 0xff]),
        Err(Error::MalformedVarInt)
    );
    assert_eq!(
        read_var_int(&[0xff, 0xff, 0xff, 0xff, 0xff, 0x00]),
        Err(Error::MalformedVarInt)
    );
}

#[test]
fn var_int_on_short_input_is_malformed() {
    assert_eq!(read_var_int(&[]), Err(Error::MalformedVarInt));
    assert_eq!(read_var_int(&[0x80]), Err(Error::MalformedVarInt));
    assert_eq!(read_var_int(&[0x80, 0x80]), Err(Error::MalformedVarInt));
}

#[test]
fn var_long_without_terminator_is_malformed() {
    assert_eq!(
        read_var_long(&[0xff; 10]),
        Err(Error::MalformedVarLong)
    );
    assert_eq!(read_var_long(&[0x80]), Err(Error::MalformedVarLong));
}

#[test]
fn var_int_from_value_records_true_size() {
    assert_eq!(VarInt::from_value(0).size, 1);
    assert_eq!(VarInt::from_value(127).size, 1);
    assert_eq!(VarInt::from_value(128).size, 2);
    assert_eq!(VarInt::from_value(-1).size, 5);
    assert_eq!(VarLong::from_value(-1).size, 10);
    assert_eq!(VarLong::from_value(127).size, 1);
}
