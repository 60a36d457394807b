use nx::bytes::{ByteReader, ByteWriter, IoError};
use nx::stdkey::{Key, StdKey};

fn table_bytes() -> Vec<u8> {
    let mut w = ByteWriter::new();
    for i in 0..256i32 {
        w.write_i16(i as i16);
        w.write_i16(-(i as i16));
        w.write_i16((2 * i) as i16);
        w.write_i16(7);
    }
    w.into_bytes()
}

#[test]
fn stdkey_reads_keys() {
    let bytes = table_bytes();
    assert_eq!(bytes.len(), 2048);
    let keys = StdKey::read(&mut ByteReader::new(bytes)).unwrap();
    assert_eq!(keys.len(), 256);
    assert_eq!(keys.get(5), Key { x: 5, y: -5, z: 10, n: 7 });
    assert_eq!(keys.get(255), Key { x: 255, y: -255, z: 510, n: 7 });
}

#[test]
fn stdkey_writes_back_what_it_read() {
    let bytes = table_bytes();
    let keys = StdKey::read(&mut ByteReader::new(bytes.clone())).unwrap();
    let mut w = ByteWriter::new();
    keys.write(&mut w);
    assert_eq!(w.into_bytes(), bytes);
}

#[test]
fn stdkey_needs_all_keys() {
    let mut bytes = table_bytes();
    bytes.pop();
    assert_eq!(StdKey::read(&mut ByteReader::new(bytes)).unwrap_err(), IoError::UnexpectedEof);
}

#[test]
fn key_round_trip() {
    let k = Key { x: -1, y: 2, z: -300, n: 32767 };
    let mut w = ByteWriter::new();
    k.write(&mut w);
    let bytes = w.into_bytes();
    assert_eq!(bytes, vec![0xff, 0xff, 2, 0, 0xd4, 0xfe, 0xff, 0x7f]);
    assert_eq!(Key::read(&mut ByteReader::new(bytes)), Ok(k));
}
