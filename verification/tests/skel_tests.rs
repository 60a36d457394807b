use nx::bytes::{ByteReader, ByteWriter, IoError};
use nx::ske;
use nx::skel::{self, Skeleton};

fn u16s(b: &mut Vec<u8>, v: &[u16]) {
    for x in v {
        b.extend_from_slice(&x.to_le_bytes());
    }
}

fn u32s(b: &mut Vec<u8>, v: &[u32]) {
    for x in v {
        b.extend_from_slice(&x.to_le_bytes());
    }
}

fn thps4_bytes() -> Vec<u8> {
    let mut b = Vec::new();
    u16s(&mut b, &[3, 0]);
    u32s(&mut b, &[2, 10, 20, 0, 10, 20, 0]);
    b
}

fn thug2_bytes() -> Vec<u8> {
    let mut b = Vec::new();
    u16s(&mut b, &[2, 9]);
    u32s(&mut b, &[0x11, 1, 0xabc, 0, 0]);
    u32s(&mut b, &[0x3f80_0000, 0, 0, 0x3f80_0000, 1, 2, 3, 4]);
    b
}

#[test]
fn thps4_skeleton_round_trip() {
    let bytes = thps4_bytes();
    let s = Skeleton::read(&mut ByteReader::new(bytes.clone())).unwrap();
    match &s {
        Skeleton::Thps4(k) => {
            assert_eq!(k.len(), 2);
            assert_eq!(k.header(), (3, 0, 2));
            assert_eq!(k.bones()[1].name, 20);
            assert_eq!(k.bones()[1].parent, Some(10));
            assert_eq!(k.bones()[0].flip, Some(20));
            assert_eq!(k.bones()[1].flip, None);
        }
        other => panic!("{:?}", other),
    }
    assert!(matches!(s.to_boned(), Err(skel::Error::Thps4NoQT)));
    let mut w = ByteWriter::new();
    s.write(&mut w);
    assert_eq!(w.into_bytes(), bytes);
}

#[test]
fn thug2_skeleton_round_trip() {
    let bytes = thug2_bytes();
    let s = Skeleton::read(&mut ByteReader::new(bytes.clone())).unwrap();
    match &s {
        Skeleton::Thug2(k) => assert_eq!(k.header(), (2, 9, 0x11, 1)),
        other => panic!("{:?}", other),
    }
    let bones = s.to_boned().unwrap();
    assert_eq!(bones.len(), 1);
    assert_eq!(bones[0].name, 0xabc);
    assert_eq!(bones[0].parent, None);
    assert_eq!(bones[0].quaternion.x, 0x3f80_0000);
    assert_eq!(bones[0].translation.w, 4);
    let mut w = ByteWriter::new();
    s.write(&mut w);
    assert_eq!(w.into_bytes(), bytes);
}

#[test]
fn skeleton_version_is_read_where_the_reader_stands() {
    let mut bytes = thps4_bytes();
    bytes.extend_from_slice(&[2, 0]);
    let mut r = ByteReader::new(bytes);
    r.seek(32);
    let e = Skeleton::read(&mut r).unwrap_err();
    assert!(matches!(e, skel::Error::Io(IoError::UnexpectedEof)));
}

#[test]
fn thaw_skeletons_are_not_read() {
    let e = Skeleton::read(&mut ByteReader::new(vec![1, 0, 0, 0])).unwrap_err();
    assert!(matches!(e, skel::Error::UnknownVersion(1)));
    // The version is read where the reader stands; the reader is left at the start.
    let mut r = ByteReader::new(vec![9, 9, 1, 0, 0, 0]);
    r.seek(2);
    let e = Skeleton::read(&mut r).unwrap_err();
    assert!(matches!(e, skel::Error::UnknownVersion(1)));
    assert_eq!(r.stream_position(), 0);
}

#[test]
fn skeleton_runs_out_of_bytes() {
    let mut bytes = thps4_bytes();
    bytes.pop();
    let e = Skeleton::read(&mut ByteReader::new(bytes)).unwrap_err();
    assert!(matches!(e, skel::Error::Io(IoError::UnexpectedEof)));
    let e = Skeleton::read(&mut ByteReader::new(vec![3])).unwrap_err();
    assert!(matches!(e, skel::Error::Io(IoError::UnexpectedEof)));
}

#[test]
fn ske_versions() {
    assert_eq!(ske::Version::try_from(2).unwrap(), ske::Version::THUG2);
    assert_eq!(ske::Version::try_from(1).unwrap(), ske::Version::THAW);
    assert_eq!(ske::Version::try_from(7).unwrap(), ske::Version::THPS4);
    assert_eq!(ske::Version::THUG2.to_string(), "thug2");
    assert_eq!(ske::Version::THAW.to_string(), "thaw");
    assert_eq!(ske::Version::THPS4.to_string(), "thps4");
}

#[test]
fn ske_reads_thug2_only() {
    let mut b = Vec::new();
    u16s(&mut b, &[2, 0]);
    u32s(&mut b, &[5, 1, 0xa, 0, 0, 1, 2, 3, 4]);
    assert!(matches!(ske::Skeleton::read(&mut ByteReader::new(b.clone())), Ok(ske::Skeleton::Thug2(_))));
    b.pop();
    assert!(matches!(ske::Skeleton::read(&mut ByteReader::new(b)), Err(ske::Error::Io(_))));
    let mut r = ByteReader::new(vec![4, 0]);
    let e = ske::Skeleton::read(&mut r).unwrap_err();
    assert!(matches!(e, ske::Error::UnsupportedVersion(ske::Version::THPS4)));
    assert_eq!(r.stream_position(), 0);
}
