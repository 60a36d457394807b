use nx::bytes::{ByteReader, ByteWriter, IoError};
use nx::compare::{diff_bytes, DiffError};
use nx::text::{hex_string, push_decimal};

#[test]
fn reads_little_endian_values() {
    let mut r = ByteReader::new(vec![0x34, 0x12, 0x78, 0x56, 0x34, 0x12, 0xff, 0xfe, 0xff, 0xff, 0xff]);
    assert_eq!(r.read_u16(), Ok(0x1234));
    assert_eq!(r.read_u32(), Ok(0x1234_5678));
    assert_eq!(r.read_i16(), Ok(-257));
    assert_eq!(r.stream_position(), 8);
    assert_eq!(r.read_i32(), Err(IoError::UnexpectedEof));
    assert_eq!(r.read_i8(), Ok(-1));
}

#[test]
fn writes_little_endian_values() {
    let mut w = ByteWriter::new();
    w.write_u16(0x1234);
    w.write_u32(0xdead_beef);
    w.write_i16(-2);
    w.write_i32(-1);
    assert_eq!(w.into_bytes(), vec![0x34, 0x12, 0xef, 0xbe, 0xad, 0xde, 0xfe, 0xff, 0xff, 0xff, 0xff, 0xff]);
}

#[test]
fn writer_overwrites_after_seek() {
    let mut w = ByteWriter::new();
    w.write_u32(0x0403_0201);
    w.seek(1);
    w.write_u8(9);
    assert_eq!(w.stream_position(), 2);
    w.seek(6);
    w.write_u8(7);
    assert_eq!(w.into_bytes(), vec![1, 9, 3, 4, 0, 0, 7]);
}

#[test]
fn hex_and_decimal_text() {
    assert_eq!(hex_string(0xab), "0x0000ab");
    assert_eq!(hex_string(0x1234_5678), "0x12345678");
    assert_eq!(hex_string(0), "0x000000");
    let mut s = String::from("n=");
    push_decimal(&mut s, -42);
    push_decimal(&mut s, 0);
    push_decimal(&mut s, i32::MIN);
    assert_eq!(s, "n=-420-2147483648");
}

#[test]
fn diff_of_equal_bytes_is_ok() {
    assert_eq!(diff_bytes(&[1, 2, 3], &[1, 2, 3]), Ok(()));
    assert_eq!(diff_bytes(&[], &[]), Ok(()));
}

#[test]
fn diff_counts_different_bytes() {
    let e = diff_bytes(&[1, 2, 3, 4], &[1, 0, 3, 0]).unwrap_err();
    assert_eq!(e, DiffError::BytesDifferent(2));
    assert_eq!(e.to_string(), "2 bytes different");
}

#[test]
fn diff_reports_sizes() {
    let e = diff_bytes(&[1, 2, 3], &[1, 2]).unwrap_err();
    assert_eq!(e, DiffError::SizeMismatch(3, 2));
    assert_eq!(e.to_string(), "input size (3) does not match output size (2)");
}
