use nx::anim::boned::{AnimBone, Animation as BonedAnimation};
use nx::anim::frames::{
    coord_kinds, BonedQFrame, BonedTFrame, QCoord, QCoordKind, QFrame, QFrameData, TFrame, TFrameData,
};
use nx::anim::{self, convert, Animation, Mapping, WriteContext};
use nx::bytes::{ByteReader, ByteWriter, IoError};
use nx::game::Game;
use nx::stdkey::StdKey;

fn keys(scale: i16) -> StdKey {
    let mut w = ByteWriter::new();
    for i in 0..256i32 {
        w.write_i16(i as i16 * scale);
        w.write_i16(1);
        w.write_i16(-(i as i16));
        w.write_i16(0);
    }
    StdKey::read(&mut ByteReader::new(w.into_bytes())).unwrap()
}

fn boned() -> BonedAnimation {
    BonedAnimation {
        duration: 0x3f80_0000,
        bones: vec![
            AnimBone {
                q_frames: vec![
                    BonedQFrame { time: 5, x: 1, y: 2, z: 3, w_negative: true },
                    BonedQFrame { time: 9, x: -4, y: 0, z: 100, w_negative: false },
                ],
                t_frames: vec![BonedTFrame { time: 7, x: -1, y: 0, z: 4 }],
            },
            AnimBone { q_frames: vec![], t_frames: vec![BonedTFrame { time: 0, x: 0, y: 0, z: 0 }] },
        ],
    }
}

fn written(game: Game) -> Vec<u8> {
    let a = Animation::from_boned(&boned(), game);
    let mut w = ByteWriter::new();
    a.write(&mut w, &mut WriteContext { game });
    w.into_bytes()
}

#[test]
fn boned_animation_survives_writing_and_reading() {
    let bytes = written(Game::THUG2);
    let a = Animation::read(&mut ByteReader::new(bytes)).unwrap();
    let b = a.to_boned(&keys(1), &keys(2));
    assert_eq!(b.duration, 0x3f80_0000);
    assert_eq!(b.bones.len(), 2);
    assert_eq!(b.bones[0].q_frames, boned().bones[0].q_frames);
    assert_eq!(b.bones[0].t_frames, boned().bones[0].t_frames);
    assert_eq!(b.bones[1].q_frames, vec![]);
    assert_eq!(b.bones[1].t_frames, boned().bones[1].t_frames);
}

#[test]
fn written_header_holds_counts_and_sizes() {
    let bytes = written(Game::THPS4);
    // header: nine values and two sizes per bone; blocks: 8 bytes per rotation
    // frame, 9 per translation frame
    assert_eq!(bytes.len(), 36 + 8 + 16 + 18);
    let word = |i: usize| u32::from_le_bytes([bytes[4 * i], bytes[4 * i + 1], bytes[4 * i + 2], bytes[4 * i + 3]]);
    assert_eq!(word(0), 1);
    assert_eq!(word(1), 0x2000000 | 0x4000000 | 0x800000 | 0x20000);
    assert_eq!(word(3), 2);
    assert_eq!(word(4), 2);
    assert_eq!(word(5), 2);
    assert_eq!(word(7), 16);
    assert_eq!(word(8), 18);
    assert_eq!(&bytes[36..44], &[16, 0, 0, 0, 9, 0, 9, 0]);
}

#[test]
fn thug_files_are_padded_to_four_bytes() {
    assert_eq!(written(Game::THPS4).len(), 78);
    let padded = written(Game::THUG);
    assert_eq!(padded.len(), 80);
    assert_eq!(&padded[78..], &[0, 0]);
    assert_eq!(written(Game::THUG2), padded);
}

#[test]
fn writing_again_gives_the_same_bytes() {
    let bytes = written(Game::THUG2);
    let a = Animation::read(&mut ByteReader::new(bytes.clone())).unwrap();
    let mut w = ByteWriter::new();
    a.write(&mut w, &mut WriteContext { game: Game::THUG2 });
    assert_eq!(w.stream_position(), 44);
    assert_eq!(w.into_bytes(), bytes);
}

#[test]
fn animation_versions() {
    let mut r = ByteReader::new(vec![7, 2, 0, 0, 0]);
    r.seek(1);
    let e = Animation::read(&mut r).unwrap_err();
    assert!(matches!(e, anim::Error::UnknownVersion(2)));
    assert_eq!(r.stream_position(), 0);
    let e = Animation::read(&mut ByteReader::new(vec![1, 0, 0])).unwrap_err();
    assert!(matches!(e, anim::Error::Io(IoError::UnexpectedEof)));
    let e = Animation::read(&mut ByteReader::new(vec![1, 0, 0, 0])).unwrap_err();
    assert!(matches!(e, anim::Error::Io(IoError::UnexpectedEof)));
}

#[test]
fn only_thug_to_thps4_converts() {
    assert!(matches!(convert(Game::THUG, Game::THPS4), Ok(Mapping::ThugToThps4)));
    assert!(matches!(
        convert(Game::THUG2, Game::THPS4),
        Err(anim::Error::MappingNotImplemented(Game::THUG2, Game::THPS4))
    ));
}

#[test]
fn coordinates() {
    assert_eq!(QCoord::U8(200).value(), 200);
    assert_eq!(QCoord::I16(-7).value(), -7);
    assert_eq!(QCoord::Shifted(0x80).value(), -32768);
    assert_eq!(QCoord::Shifted(0x01).value(), 256);
    assert_eq!(QCoord::Shifted(0x12).decompress(), QCoord::I16(0x1200));
}

#[test]
fn key_rotation_frame_is_decompressed() {
    // flags: single-byte value without coordinates: a key index
    let f = QFrame::read(&mut ByteReader::new(vec![0x05, 0xc0, 3]), 0).unwrap();
    assert_eq!(f, QFrame { time: None, flags: 0xc005, data: QFrameData::Key(3) });
    let d = f.decompress(&keys(10));
    assert_eq!(d.flags, 0x8005);
    assert_eq!(
        d.data,
        QFrameData::Inline { x: QCoord::I16(30), y: QCoord::I16(1), z: QCoord::I16(-3) }
    );
    let b = f.to_boned(&keys(10));
    assert_eq!(b, BonedQFrame { time: 5, x: 30, y: 1, z: -3, w_negative: true });
}

#[test]
fn rotation_frame_coordinate_widths() {
    // long frame times; flags: single-byte value, x and z single bytes
    let hf = 0x100;
    let bytes = vec![9, 0, 0x00, 0x68, 7, 0x34, 0x12, 0xff];
    let f = QFrame::read(&mut ByteReader::new(bytes.clone()), hf).unwrap();
    assert_eq!(f.time, Some(9));
    assert_eq!(
        f.data,
        QFrameData::Inline { x: QCoord::U8(7), y: QCoord::I16(0x1234), z: QCoord::U8(0xff) }
    );
    let mut w = ByteWriter::new();
    f.write(&mut w);
    assert_eq!(w.into_bytes(), bytes);
    // the header asks for single bytes everywhere
    let g = QFrame::read(&mut ByteReader::new(vec![0x00, 0x00, 1, 2, 3]), 0x8000).unwrap();
    assert_eq!(
        g.data,
        QFrameData::Inline { x: QCoord::Shifted(1), y: QCoord::Shifted(2), z: QCoord::Shifted(3) }
    );
    assert_eq!(g.to_boned(&keys(1)).y, 0x200);
}

#[test]
fn translation_frames() {
    let f = TFrame::read(&mut ByteReader::new(vec![0xc5, 4])).unwrap();
    assert_eq!(f, TFrame { flags: 0xc5, time: None, data: TFrameData::Key(4) });
    assert_eq!(f.to_boned(&keys(1)), BonedTFrame { time: 5, x: 4, y: 1, z: -4 });
    let d = f.decompress(&keys(1));
    assert_eq!(d, TFrame { flags: 0x45, time: None, data: TFrameData::Inline { x: 4, y: 1, z: -4 } });
    let g = TFrame::read(&mut ByteReader::new(vec![0, 3, 0, 1, 0, 2, 0, 0xff, 0xff])).unwrap();
    assert_eq!(g.time, Some(3));
    assert_eq!(g.data, TFrameData::Inline { x: 1, y: 2, z: -1 });
    assert_eq!(TFrame::read(&mut ByteReader::new(vec![0, 3])), Err(IoError::UnexpectedEof));
}

#[test]
fn decompressing_twice_changes_nothing() {
    let f = QFrame { time: None, flags: 0x7805, data: QFrameData::Inline { x: QCoord::U8(1), y: QCoord::Shifted(2), z: QCoord::I16(3) } };
    let k = keys(1);
    let once = f.decompress(&k);
    assert_eq!(once.flags, 0x0005);
    assert_eq!(once.decompress(&k), once);
}

#[test]
fn coordinate_kinds() {
    assert_eq!(coord_kinds(0, 0), Some((QCoordKind::I16, QCoordKind::I16, QCoordKind::I16)));
    assert_eq!(coord_kinds(0x4000, 0), None);
    assert_eq!(coord_kinds(0x5000, 0), Some((QCoordKind::I16, QCoordKind::I8, QCoordKind::I16)));
    assert_eq!(
        coord_kinds(0x5000, 0x8000),
        Some((QCoordKind::ShiftedI8, QCoordKind::ShiftedI8, QCoordKind::ShiftedI8))
    );
}

#[test]
fn game_names() {
    assert_eq!(Game::THPS4.to_string(), "THPS4");
    assert_eq!(Game::THUG.to_string(), "THUG");
    assert_eq!(Game::THUG2.to_string(), "THUG2");
}
