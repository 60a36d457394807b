//! The frames of a compressed animation: rotation frames, whose coordinates are
//! stored in one of several widths or as an index into the standard rotation
//! keys, and translation frames, stored inline or as an index into the standard
//! translation keys.
use crate::bytes::{
    avail, group_positions, i16_bytes, i16_le, lemma_bits_i16, lemma_emit_emit, lemma_i16_bits,
    lemma_reader_pos, lemma_u16_bytes_of_le, lemma_u16_round_trip, lemma_writer_pos, u16_bytes,
    u16_le, ByteReader, ByteWriter, IoError,
};
use crate::stdkey::{Key, StdKey};
use vstd::prelude::*;

verus! {

broadcast use group_positions;

/// Header flag: every rotation frame starts with a 16-bit time.
pub const LONG_FRAME_TIMES: u32 = 0x100;

/// Header flag: the inline coordinates of rotation frames are single bytes that
/// hold the high byte of a 16-bit value.
pub const ONLY_SINGLE_BYTE_QUATS: u32 = 0x8000;

/// Rotation frame flag: the rotation's w component is negative.
pub const W_SIGN_BIT: u16 = 0x8000;

/// Rotation frame flag: some coordinates are single bytes, or the frame is a key.
pub const SINGLE_BYTE_VALUE: u16 = 0x4000;

pub const SINGLE_BYTE_X: u16 = 0x2000;

pub const SINGLE_BYTE_Y: u16 = 0x1000;

pub const SINGLE_BYTE_Z: u16 = 0x0800;

/// Translation frame flag: the time is the low six bits of the flags.
pub const FLAG_TIME: u8 = 0x40;

/// Translation frame flag: the frame is an index into the key table.
pub const USE_LOOKUP: u8 = 0x80;

/// How an inline rotation coordinate is stored.
#[derive(Debug, Clone, Copy, PartialEq, Eq, Structural)]
pub enum QCoordKind {
    I8,
    I16,
    ShiftedI8,
}

/// An inline rotation coordinate as stored.
#[derive(Debug, Clone, Copy, PartialEq, Eq, Structural)]
pub enum QCoord {
    /// One byte, read as an unsigned value.
    U8(u8),
    /// Two bytes, a signed value.
    I16(i16),
    /// One byte, the high byte of a signed 16-bit value.
    Shifted(u8),
}

/// The data of a rotation frame: a key index, or three inline coordinates.
#[derive(Debug, Clone, Copy, PartialEq, Eq, Structural)]
pub enum QFrameData {
    Key(u8),
    Inline { x: QCoord, y: QCoord, z: QCoord },
}

/// A rotation frame.
#[derive(Debug, Clone, Copy, PartialEq, Eq, Structural)]
pub struct QFrame {
    /// Present exactly when the header asks for long frame times.
    pub time: Option<u16>,
    pub flags: u16,
    pub data: QFrameData,
}

/// The data of a translation frame: a key index, or three inline values.
#[derive(Debug, Clone, Copy, PartialEq, Eq, Structural)]
pub enum TFrameData {
    Key(u8),
    Inline { x: i16, y: i16, z: i16 },
}

/// A translation frame.
#[derive(Debug, Clone, Copy, PartialEq, Eq, Structural)]
pub struct TFrame {
    /// The low six bits are the time when `FLAG_TIME` is set.
    pub flags: u8,
    /// Present exactly when `FLAG_TIME` is clear.
    pub time: Option<u16>,
    pub data: TFrameData,
}

/// A rotation frame in the boned form: its time, its coordinates scaled by
/// 16384, and whether the w component is negative.
#[derive(Debug, Clone, Copy, PartialEq, Eq, Structural)]
pub struct BonedQFrame {
    pub time: u16,
    pub x: i16,
    pub y: i16,
    pub z: i16,
    pub w_negative: bool,
}

/// A translation frame in the boned form: its time and its coordinates scaled by
/// 32.
#[derive(Debug, Clone, Copy, PartialEq, Eq, Structural)]
pub struct BonedTFrame {
    pub time: u16,
    pub x: i16,
    pub y: i16,
    pub z: i16,
}

// ---------------------------------------------------------------------------
// What the bytes hold.

/// How the coordinates of a rotation frame with these flags are stored, under a
/// header with these flags; `None` when the frame is a key index.
pub open spec fn qkinds(flags: u16, hf: u32) -> Option<(QCoordKind, QCoordKind, QCoordKind)> {
    if flags & SINGLE_BYTE_VALUE == 0 {
        if hf & ONLY_SINGLE_BYTE_QUATS == 0 {
            Some((QCoordKind::I16, QCoordKind::I16, QCoordKind::I16))
        } else {
            Some((QCoordKind::ShiftedI8, QCoordKind::ShiftedI8, QCoordKind::ShiftedI8))
        }
    } else if flags & (SINGLE_BYTE_X | SINGLE_BYTE_Y | SINGLE_BYTE_Z) == 0 {
        None
    } else if hf & ONLY_SINGLE_BYTE_QUATS != 0 {
        Some((QCoordKind::ShiftedI8, QCoordKind::ShiftedI8, QCoordKind::ShiftedI8))
    } else {
        Some(
            (
                if flags & SINGLE_BYTE_X != 0 {
                    QCoordKind::I8
                } else {
                    QCoordKind::I16
                },
                if flags & SINGLE_BYTE_Y != 0 {
                    QCoordKind::I8
                } else {
                    QCoordKind::I16
                },
                if flags & SINGLE_BYTE_Z != 0 {
                    QCoordKind::I8
                } else {
                    QCoordKind::I16
                },
            ),
        )
    }
}

pub open spec fn qcoord_at(s: Seq<u8>, p: int, k: QCoordKind) -> Option<(QCoord, int)> {
    match k {
        QCoordKind::I8 => if avail(s, p, 1) {
            Some((QCoord::U8(s[p]), p + 1))
        } else {
            None
        },
        QCoordKind::I16 => if avail(s, p, 2) {
            Some((QCoord::I16(i16_le(s, p)), p + 2))
        } else {
            None
        },
        QCoordKind::ShiftedI8 => if avail(s, p, 1) {
            Some((QCoord::Shifted(s[p]), p + 1))
        } else {
            None
        },
    }
}

pub open spec fn qdata_at(s: Seq<u8>, p: int, kinds: Option<(QCoordKind, QCoordKind, QCoordKind)>) -> Option<
    (QFrameData, int),
> {
    match kinds {
        None => if avail(s, p, 1) {
            Some((QFrameData::Key(s[p]), p + 1))
        } else {
            None
        },
        Some((kx, ky, kz)) => match qcoord_at(s, p, kx) {
            Some((x, p1)) => match qcoord_at(s, p1, ky) {
                Some((y, p2)) => match qcoord_at(s, p2, kz) {
                    Some((z, p3)) => Some((QFrameData::Inline { x, y, z }, p3)),
                    None => None,
                },
                None => None,
            },
            None => None,
        },
    }
}

/// What reading a rotation frame at `p` gives, under a header with flags `hf`.
pub open spec fn qframe_at(s: Seq<u8>, p: int, hf: u32) -> Option<(QFrame, int)> {
    let long = hf & LONG_FRAME_TIMES != 0;
    if long && !avail(s, p, 2) {
        None
    } else {
        let time = if long {
            Some(u16_le(s, p))
        } else {
            None
        };
        let p1 = if long {
            p + 2
        } else {
            p
        };
        if !avail(s, p1, 2) {
            None
        } else {
            let flags = u16_le(s, p1);
            match qdata_at(s, p1 + 2, qkinds(flags, hf)) {
                Some((data, q)) => Some((QFrame { time, flags, data }, q)),
                None => None,
            }
        }
    }
}

/// What reading a translation frame at `p` gives.
pub open spec fn tframe_at(s: Seq<u8>, p: int) -> Option<(TFrame, int)> {
    if !avail(s, p, 1) {
        None
    } else {
        let flags = s[p];
        let short = flags & FLAG_TIME != 0;
        if !short && !avail(s, p + 1, 2) {
            None
        } else {
            let time = if short {
                None
            } else {
                Some(u16_le(s, p + 1))
            };
            let q = if short {
                p + 1
            } else {
                p + 3
            };
            if flags & USE_LOOKUP != 0 {
                if avail(s, q, 1) {
                    Some((TFrame { flags, time, data: TFrameData::Key(s[q]) }, q + 1))
                } else {
                    None
                }
            } else if avail(s, q, 6) {
                Some(
                    (
                        TFrame {
                            flags,
                            time,
                            data: TFrameData::Inline {
                                x: i16_le(s, q),
                                y: i16_le(s, q + 2),
                                z: i16_le(s, q + 4),
                            },
                        },
                        q + 6,
                    ),
                )
            } else {
                None
            }
        }
    }
}

pub open spec fn time_bytes(t: Option<u16>) -> Seq<u8> {
    match t {
        Some(v) => u16_bytes(v),
        None => Seq::empty(),
    }
}

pub open spec fn qcoord_bytes(c: QCoord) -> Seq<u8> {
    match c {
        QCoord::U8(v) => seq![v],
        QCoord::I16(v) => i16_bytes(v),
        QCoord::Shifted(v) => seq![v],
    }
}

pub open spec fn qdata_bytes(d: QFrameData) -> Seq<u8> {
    match d {
        QFrameData::Key(i) => seq![i],
        QFrameData::Inline { x, y, z } => qcoord_bytes(x) + qcoord_bytes(y) + qcoord_bytes(z),
    }
}

/// The bytes of a rotation frame: its time when it has one, its flags, its data.
pub open spec fn qframe_bytes(f: QFrame) -> Seq<u8> {
    time_bytes(f.time) + u16_bytes(f.flags) + qdata_bytes(f.data)
}

pub open spec fn tdata_bytes(d: TFrameData) -> Seq<u8> {
    match d {
        TFrameData::Key(i) => seq![i],
        TFrameData::Inline { x, y, z } => i16_bytes(x) + i16_bytes(y) + i16_bytes(z),
    }
}

/// The bytes of a translation frame: its flags, its time when it has one, its data.
pub open spec fn tframe_bytes(f: TFrame) -> Seq<u8> {
    seq![f.flags] + time_bytes(f.time) + tdata_bytes(f.data)
}

pub open spec fn qcoord_fits(c: QCoord, k: QCoordKind) -> bool {
    match k {
        QCoordKind::I8 => c is U8,
        QCoordKind::I16 => c is I16,
        QCoordKind::ShiftedI8 => c is Shifted,
    }
}

pub open spec fn qdata_fits(d: QFrameData, kinds: Option<(QCoordKind, QCoordKind, QCoordKind)>) -> bool {
    match kinds {
        None => d is Key,
        Some((kx, ky, kz)) => match d {
            QFrameData::Inline { x, y, z } => qcoord_fits(x, kx) && qcoord_fits(y, ky)
                && qcoord_fits(z, kz),
            QFrameData::Key(_) => false,
        },
    }
}

/// A rotation frame that reads back as itself under a header with flags `hf`:
/// it has a time exactly when the header asks for one, and its data is stored as
/// its flags say.
pub open spec fn qframe_fits(f: QFrame, hf: u32) -> bool {
    &&& (f.time is Some) == (hf & LONG_FRAME_TIMES != 0)
    &&& qdata_fits(f.data, qkinds(f.flags, hf))
}

/// A translation frame that reads back as itself: it has a time exactly when its
/// flags do not hold the time, and it is a key exactly when its flags say so.
pub open spec fn tframe_fits(f: TFrame) -> bool {
    &&& (f.time is None) == (f.flags & FLAG_TIME != 0)
    &&& (f.data is Key) == (f.flags & USE_LOOKUP != 0)
}

// ---------------------------------------------------------------------------
// Decompression and the boned form.

/// The signed value that a stored coordinate stands for.
pub open spec fn coord_value(c: QCoord) -> i16 {
    match c {
        QCoord::U8(v) => v as i16,
        QCoord::I16(v) => v,
        QCoord::Shifted(v) => (v * 256) as i16,
    }
}

pub open spec fn qdata_decompressed(d: QFrameData, keys: Seq<Key>) -> QFrameData {
    match d {
        QFrameData::Key(i) => QFrameData::Inline {
            x: QCoord::I16(keys[i as int].x),
            y: QCoord::I16(keys[i as int].y),
            z: QCoord::I16(keys[i as int].z),
        },
        QFrameData::Inline { x, y, z } => QFrameData::Inline {
            x: QCoord::I16(coord_value(x)),
            y: QCoord::I16(coord_value(y)),
            z: QCoord::I16(coord_value(z)),
        },
    }
}

/// A rotation frame with its key looked up and its coordinates widened to 16
/// bits, and its single-byte flags cleared.
pub open spec fn qframe_decompressed(f: QFrame, keys: Seq<Key>) -> QFrame {
    QFrame {
        time: f.time,
        flags: f.flags & !(SINGLE_BYTE_VALUE | SINGLE_BYTE_X | SINGLE_BYTE_Y | SINGLE_BYTE_Z),
        data: qdata_decompressed(f.data, keys),
    }
}

pub open spec fn tdata_decompressed(d: TFrameData, keys: Seq<Key>) -> TFrameData {
    match d {
        TFrameData::Key(i) => TFrameData::Inline {
            x: keys[i as int].x,
            y: keys[i as int].y,
            z: keys[i as int].z,
        },
        TFrameData::Inline { x, y, z } => TFrameData::Inline { x, y, z },
    }
}

/// A translation frame with its key looked up and its lookup flag cleared.
pub open spec fn tframe_decompressed(f: TFrame, keys: Seq<Key>) -> TFrame {
    TFrame { flags: f.flags & !USE_LOOKUP, time: f.time, data: tdata_decompressed(f.data, keys) }
}

/// A rotation frame in the boned form: a frame without a time of its own takes
/// it from the low bits of its flags.
pub open spec fn qframe_boned(f: QFrame, keys: Seq<Key>) -> BonedQFrame {
    let time = match f.time {
        Some(t) => t,
        None => f.flags & 0x03ff,
    };
    let w_negative = f.flags & W_SIGN_BIT != 0;
    match f.data {
        QFrameData::Key(i) => BonedQFrame {
            time,
            x: keys[i as int].x,
            y: keys[i as int].y,
            z: keys[i as int].z,
            w_negative,
        },
        QFrameData::Inline { x, y, z } => BonedQFrame {
            time,
            x: coord_value(x),
            y: coord_value(y),
            z: coord_value(z),
            w_negative,
        },
    }
}

/// A translation frame in the boned form: a frame without a time of its own
/// takes it from the low six bits of its flags.
pub open spec fn tframe_boned(f: TFrame, keys: Seq<Key>) -> BonedTFrame {
    let time = match f.time {
        Some(t) => t,
        None => (f.flags & 0x3f) as u16,
    };
    match f.data {
        TFrameData::Key(i) => BonedTFrame {
            time,
            x: keys[i as int].x,
            y: keys[i as int].y,
            z: keys[i as int].z,
        },
        TFrameData::Inline { x, y, z } => BonedTFrame { time, x, y, z },
    }
}

/// The rotation frame made from one in the boned form: no time of its own, the
/// time in the flags with the sign of w, and the coordinates inline.
pub open spec fn qframe_from_boned(b: BonedQFrame) -> QFrame {
    QFrame {
        time: None,
        flags: b.time | (if b.w_negative {
            W_SIGN_BIT
        } else {
            0u16
        }),
        data: QFrameData::Inline {
            x: QCoord::I16(b.x),
            y: QCoord::I16(b.y),
            z: QCoord::I16(b.z),
        },
    }
}

/// The translation frame made from one in the boned form: its own time, no
/// flags, and the coordinates inline.
pub open spec fn tframe_from_boned(b: BonedTFrame) -> TFrame {
    TFrame { flags: 0, time: Some(b.time), data: TFrameData::Inline { x: b.x, y: b.y, z: b.z } }
}

// ---------------------------------------------------------------------------
// Reading, writing and converting.

/// How the coordinates of a rotation frame are stored.
pub fn coord_kinds(flags: u16, hf: u32) -> (r: Option<(QCoordKind, QCoordKind, QCoordKind)>)
    ensures
        r == qkinds(flags, hf),
{
    if flags & SINGLE_BYTE_VALUE == 0 {
        if hf & ONLY_SINGLE_BYTE_QUATS == 0 {
            Some((QCoordKind::I16, QCoordKind::I16, QCoordKind::I16))
        } else {
            Some((QCoordKind::ShiftedI8, QCoordKind::ShiftedI8, QCoordKind::ShiftedI8))
        }
    } else if flags & (SINGLE_BYTE_X | SINGLE_BYTE_Y | SINGLE_BYTE_Z) == 0 {
        None
    } else if hf & ONLY_SINGLE_BYTE_QUATS != 0 {
        Some((QCoordKind::ShiftedI8, QCoordKind::ShiftedI8, QCoordKind::ShiftedI8))
    } else {
        let kx = if flags & SINGLE_BYTE_X != 0 {
            QCoordKind::I8
        } else {
            QCoordKind::I16
        };
        let ky = if flags & SINGLE_BYTE_Y != 0 {
            QCoordKind::I8
        } else {
            QCoordKind::I16
        };
        let kz = if flags & SINGLE_BYTE_Z != 0 {
            QCoordKind::I8
        } else {
            QCoordKind::I16
        };
        Some((kx, ky, kz))
    }
}

impl QCoord {
    pub fn read(reader: &mut ByteReader, kind: QCoordKind) -> (r: Result<QCoord, IoError>)
        ensures
            final(reader)@.bytes == old(reader)@.bytes,
            match qcoord_at(old(reader)@.bytes, old(reader)@.pos, kind) {
                Some((c, q)) => r == Ok::<QCoord, IoError>(c) && final(reader)@.pos == q,
                None => r == Err::<QCoord, IoError>(IoError::UnexpectedEof),
            },
    {
        match kind {
            QCoordKind::I8 => Ok(QCoord::U8(reader.read_u8()?)),
            QCoordKind::I16 => Ok(QCoord::I16(reader.read_i16()?)),
            QCoordKind::ShiftedI8 => Ok(QCoord::Shifted(reader.read_u8()?)),
        }
    }

    pub fn write(&self, writer: &mut ByteWriter)
        requires
            old(writer)@.pos + qcoord_bytes(*self).len() <= usize::MAX,
        ensures
            final(writer)@ == old(writer)@.emit(qcoord_bytes(*self)),
    {
        match self {
            QCoord::U8(v) => writer.write_u8(*v),
            QCoord::I16(v) => writer.write_i16(*v),
            QCoord::Shifted(v) => writer.write_u8(*v),
        }
    }

    /// The coordinate widened to a 16-bit value.
    pub fn decompress(&self) -> (r: QCoord)
        ensures
            r == QCoord::I16(coord_value(*self)),
    {
        QCoord::I16(self.value())
    }

    /// The signed value that the coordinate stands for.
    pub fn value(&self) -> (r: i16)
        ensures
            r == coord_value(*self),
    {
        match self {
            QCoord::U8(v) => *v as i16,
            QCoord::I16(v) => *v,
            QCoord::Shifted(v) => (*v as i32 * 256) as i16,
        }
    }
}

impl QFrameData {
    pub fn read(reader: &mut ByteReader, kinds: Option<(QCoordKind, QCoordKind, QCoordKind)>) -> (r:
        Result<QFrameData, IoError>)
        ensures
            final(reader)@.bytes == old(reader)@.bytes,
            match qdata_at(old(reader)@.bytes, old(reader)@.pos, kinds) {
                Some((d, q)) => r == Ok::<QFrameData, IoError>(d) && final(reader)@.pos == q,
                None => r == Err::<QFrameData, IoError>(IoError::UnexpectedEof),
            },
    {
        match kinds {
            None => Ok(QFrameData::Key(reader.read_u8()?)),
            Some((kx, ky, kz)) => {
                let x = QCoord::read(reader, kx)?;
                let y = QCoord::read(reader, ky)?;
                let z = QCoord::read(reader, kz)?;
                Ok(QFrameData::Inline { x, y, z })
            },
        }
    }

    pub fn write(&self, writer: &mut ByteWriter)
        requires
            old(writer)@.pos + qdata_bytes(*self).len() <= usize::MAX,
        ensures
            final(writer)@ == old(writer)@.emit(qdata_bytes(*self)),
    {
        let ghost st = writer@;
        proof {
            lemma_writer_pos(*writer);
        }
        match self {
            QFrameData::Key(i) => writer.write_u8(*i),
            QFrameData::Inline { x, y, z } => {
                proof {
                    lemma_qcoord_bytes_len(*x);
                    lemma_qcoord_bytes_len(*y);
                    lemma_qcoord_bytes_len(*z);
                }
                x.write(writer);
                y.write(writer);
                z.write(writer);
                proof {
                    lemma_emit_emit(st, qcoord_bytes(*x), qcoord_bytes(*y));
                    lemma_emit_emit(st, qcoord_bytes(*x) + qcoord_bytes(*y), qcoord_bytes(*z));
                }
            },
        }
    }

    pub fn decompress(&self, qkeys: &StdKey) -> (r: QFrameData)
        ensures
            r == qdata_decompressed(*self, qkeys@),
    {
        match self {
            QFrameData::Key(i) => {
                let key = qkeys.get(*i);
                QFrameData::Inline { x: QCoord::I16(key.x), y: QCoord::I16(key.y), z: QCoord::I16(key.z) }
            },
            QFrameData::Inline { x, y, z } => QFrameData::Inline {
                x: x.decompress(),
                y: y.decompress(),
                z: z.decompress(),
            },
        }
    }
}

impl QFrame {
    /// Reads a rotation frame: its time when the header asks for one, its
    /// flags, then its data, stored as the flags and the header say.
    pub fn read(reader: &mut ByteReader, hf: u32) -> (r: Result<QFrame, IoError>)
        ensures
            final(reader)@.bytes == old(reader)@.bytes,
            match qframe_at(old(reader)@.bytes, old(reader)@.pos, hf) {
                Some((f, q)) => r == Ok::<QFrame, IoError>(f) && final(reader)@.pos == q,
                None => r == Err::<QFrame, IoError>(IoError::UnexpectedEof),
            },
    {
        let time = if hf & LONG_FRAME_TIMES != 0 {
            Some(reader.read_u16()?)
        } else {
            None
        };
        let flags = reader.read_u16()?;
        let kinds = coord_kinds(flags, hf);
        let data = QFrameData::read(reader, kinds)?;
        Ok(QFrame { time, flags, data })
    }

    pub fn write(&self, writer: &mut ByteWriter)
        requires
            old(writer)@.pos + qframe_bytes(*self).len() <= usize::MAX,
        ensures
            final(writer)@ == old(writer)@.emit(qframe_bytes(*self)),
    {
        let ghost st = writer@;
        proof {
            lemma_writer_pos(*writer);
        }
        match self.time {
            Some(t) => writer.write_u16(t),
            None => {},
        }
        writer.write_u16(self.flags);
        self.data.write(writer);
        proof {
            let a = time_bytes(self.time);
            lemma_emit_emit(st, a, u16_bytes(self.flags));
            lemma_emit_emit(st, a + u16_bytes(self.flags), qdata_bytes(self.data));
        }
    }

    /// The frame with its key looked up in `qkeys`, its coordinates widened to
    /// 16 bits and its single-byte flags cleared.
    pub fn decompress(&self, qkeys: &StdKey) -> (r: QFrame)
        ensures
            r == qframe_decompressed(*self, qkeys@),
    {
        QFrame {
            time: self.time,
            flags: self.flags & !(SINGLE_BYTE_VALUE | SINGLE_BYTE_X | SINGLE_BYTE_Y | SINGLE_BYTE_Z),
            data: self.data.decompress(qkeys),
        }
    }

    /// The frame in the boned form.
    pub fn to_boned(&self, qkeys: &StdKey) -> (r: BonedQFrame)
        ensures
            r == qframe_boned(*self, qkeys@),
    {
        let time = match self.time {
            Some(t) => t,
            None => self.flags & 0x03ff,
        };
        let w_negative = self.flags & W_SIGN_BIT != 0;
        match self.data {
            QFrameData::Key(i) => {
                let key = qkeys.get(i);
                BonedQFrame { time, x: key.x, y: key.y, z: key.z, w_negative }
            },
            QFrameData::Inline { x, y, z } => BonedQFrame {
                time,
                x: x.value(),
                y: y.value(),
                z: z.value(),
                w_negative,
            },
        }
    }

    /// The frame made from one in the boned form.
    pub fn from_boned(b: &BonedQFrame) -> (r: QFrame)
        ensures
            r == qframe_from_boned(*b),
    {
        let sign = if b.w_negative {
            W_SIGN_BIT
        } else {
            0u16
        };
        QFrame {
            time: None,
            flags: b.time | sign,
            data: QFrameData::Inline { x: QCoord::I16(b.x), y: QCoord::I16(b.y), z: QCoord::I16(b.z) },
        }
    }
}

impl TFrameData {
    pub fn write(&self, writer: &mut ByteWriter)
        requires
            old(writer)@.pos + tdata_bytes(*self).len() <= usize::MAX,
        ensures
            final(writer)@ == old(writer)@.emit(tdata_bytes(*self)),
    {
        let ghost st = writer@;
        proof {
            lemma_writer_pos(*writer);
        }
        match self {
            TFrameData::Key(i) => writer.write_u8(*i),
            TFrameData::Inline { x, y, z } => {
                writer.write_i16(*x);
                writer.write_i16(*y);
                writer.write_i16(*z);
                proof {
                    lemma_emit_emit(st, i16_bytes(*x), i16_bytes(*y));
                    lemma_emit_emit(st, i16_bytes(*x) + i16_bytes(*y), i16_bytes(*z));
                }
            },
        }
    }

    pub fn decompress(&self, tkeys: &StdKey) -> (r: TFrameData)
        ensures
            r == tdata_decompressed(*self, tkeys@),
    {
        match self {
            TFrameData::Key(i) => {
                let key = tkeys.get(*i);
                TFrameData::Inline { x: key.x, y: key.y, z: key.z }
            },
            TFrameData::Inline { x, y, z } => TFrameData::Inline { x: *x, y: *y, z: *z },
        }
    }
}

impl TFrame {
    /// Reads a translation frame: its flags, its time unless the flags hold it,
    /// then a key index or three inline values, as the flags say.
    pub fn read(reader: &mut ByteReader) -> (r: Result<TFrame, IoError>)
        ensures
            final(reader)@.bytes == old(reader)@.bytes,
            match tframe_at(old(reader)@.bytes, old(reader)@.pos) {
                Some((f, q)) => r == Ok::<TFrame, IoError>(f) && final(reader)@.pos == q,
                None => r == Err::<TFrame, IoError>(IoError::UnexpectedEof),
            },
    {
        let flags = reader.read_u8()?;
        let time = if flags & FLAG_TIME != 0 {
            None
        } else {
            Some(reader.read_u16()?)
        };
        let data = if flags & USE_LOOKUP != 0 {
            TFrameData::Key(reader.read_u8()?)
        } else {
            let x = reader.read_i16()?;
            let y = reader.read_i16()?;
            let z = reader.read_i16()?;
            TFrameData::Inline { x, y, z }
        };
        Ok(TFrame { flags, time, data })
    }

    pub fn write(&self, writer: &mut ByteWriter)
        requires
            old(writer)@.pos + tframe_bytes(*self).len() <= usize::MAX,
        ensures
            final(writer)@ == old(writer)@.emit(tframe_bytes(*self)),
    {
        let ghost st = writer@;
        proof {
            lemma_writer_pos(*writer);
        }
        writer.write_u8(self.flags);
        match self.time {
            Some(t) => writer.write_u16(t),
            None => {},
        }
        self.data.write(writer);
        proof {
            let a = seq![self.flags];
            lemma_emit_emit(st, a, time_bytes(self.time));
            lemma_emit_emit(st, a + time_bytes(self.time), tdata_bytes(self.data));
        }
    }

    /// The frame with its key looked up in `tkeys` and its lookup flag cleared.
    pub fn decompress(&self, tkeys: &StdKey) -> (r: TFrame)
        ensures
            r == tframe_decompressed(*self, tkeys@),
    {
        TFrame { flags: self.flags & !USE_LOOKUP, time: self.time, data: self.data.decompress(tkeys) }
    }

    /// The frame in the boned form.
    pub fn to_boned(&self, tkeys: &StdKey) -> (r: BonedTFrame)
        ensures
            r == tframe_boned(*self, tkeys@),
    {
        let time = match self.time {
            Some(t) => t,
            None => (self.flags & 0x3f) as u16,
        };
        match self.data {
            TFrameData::Key(i) => {
                let key = tkeys.get(i);
                BonedTFrame { time, x: key.x, y: key.y, z: key.z }
            },
            TFrameData::Inline { x, y, z } => BonedTFrame { time, x, y, z },
        }
    }

    /// The frame made from one in the boned form.
    pub fn from_boned(b: &BonedTFrame) -> (r: TFrame)
        ensures
            r == tframe_from_boned(*b),
    {
        TFrame { flags: 0, time: Some(b.time), data: TFrameData::Inline { x: b.x, y: b.y, z: b.z } }
    }
}

// ---------------------------------------------------------------------------
// Lemmas.

pub proof fn lemma_qcoord_bytes_len(c: QCoord)
    ensures
        1 <= qcoord_bytes(c).len() <= 2,
{
}

pub proof fn lemma_qframe_bytes_len(f: QFrame)
    ensures
        3 <= qframe_bytes(f).len() <= 10,
{
    match f.data {
        QFrameData::Key(_) => {},
        QFrameData::Inline { x, y, z } => {
            lemma_qcoord_bytes_len(x);
            lemma_qcoord_bytes_len(y);
            lemma_qcoord_bytes_len(z);
        },
    }
}

pub proof fn lemma_tframe_bytes_len(f: TFrame)
    ensures
        2 <= tframe_bytes(f).len() <= 9,
{
}

proof fn lemma_qcoord_round_trip(c: QCoord, k: QCoordKind, front: Seq<u8>, rest: Seq<u8>)
    requires
        qcoord_fits(c, k),
    ensures
        qcoord_at(front + qcoord_bytes(c) + rest, front.len() as int, k) == Some(
            (c, (front.len() + qcoord_bytes(c).len()) as int),
        ),
{
    let s = front + qcoord_bytes(c) + rest;
    let f = front.len() as int;
    match c {
        QCoord::I16(v) => {
            lemma_u16_round_trip(crate::bytes::bits_of_i16(v), rest, front);
            lemma_i16_bits(v);
        },
        _ => {
            assert(s[f] == qcoord_bytes(c)[0]);
        },
    }
}

proof fn lemma_qcoord_bytes_of(s: Seq<u8>, p: int, k: QCoordKind)
    ensures
        qcoord_at(s, p, k) matches Some((c, q)) ==> qcoord_fits(c, k) && qcoord_bytes(c)
            == s.subrange(p, q) && q == p + qcoord_bytes(c).len(),
{
    if let Some((c, q)) = qcoord_at(s, p, k) {
        match k {
            QCoordKind::I16 => {
                lemma_bits_i16(u16_le(s, p));
                lemma_u16_bytes_of_le(s, p);
            },
            _ => {
                assert(qcoord_bytes(c) =~= s.subrange(p, q));
            },
        }
    }
}

/// Reading back the bytes of a rotation frame that fits the header flags gives
/// the frame.
pub proof fn lemma_qframe_round_trip(fr: QFrame, hf: u32, front: Seq<u8>, rest: Seq<u8>)
    requires
        qframe_fits(fr, hf),
    ensures
        qframe_at(front + qframe_bytes(fr) + rest, front.len() as int, hf) == Some(
            (fr, (front.len() + qframe_bytes(fr).len()) as int),
        ),
{
    let s = front + qframe_bytes(fr) + rest;
    let f = front.len() as int;
    let tb = time_bytes(fr.time);
    let fb = u16_bytes(fr.flags);
    let db = qdata_bytes(fr.data);
    let p1 = f + tb.len();
    let pre = front + tb + fb;
    assert(s =~= pre + db + rest);
    if let Some(t) = fr.time {
        assert(u16_le(s, f) == t) by {
            assert(s =~= front + tb + (fb + db + rest));
            lemma_u16_round_trip(t, fb + db + rest, front);
        }
    }
    assert(u16_le(s, p1) == fr.flags) by {
        assert(s =~= (front + tb) + fb + (db + rest));
        lemma_u16_round_trip(fr.flags, db + rest, front + tb);
    }
    assert(qdata_at(s, p1 + 2, qkinds(fr.flags, hf)) == Some((fr.data, s.len() - rest.len())))
        by {
        lemma_qdata_round_trip(fr.data, qkinds(fr.flags, hf), pre, rest);
    }
}

proof fn lemma_qdata_round_trip(
    d: QFrameData,
    kinds: Option<(QCoordKind, QCoordKind, QCoordKind)>,
    pre: Seq<u8>,
    rest: Seq<u8>,
)
    requires
        qdata_fits(d, kinds),
    ensures
        qdata_at(pre + qdata_bytes(d) + rest, pre.len() as int, kinds) == Some(
            (d, (pre.len() + qdata_bytes(d).len()) as int),
        ),
{
    let s = pre + qdata_bytes(d) + rest;
    match d {
        QFrameData::Key(i) => {
            assert(s[pre.len() as int] == i);
        },
        QFrameData::Inline { x, y, z } => {
            let (kx, ky, kz) = kinds->Some_0;
            let xb = qcoord_bytes(x);
            let yb = qcoord_bytes(y);
            let zb = qcoord_bytes(z);
            assert(s =~= pre + xb + (yb + zb + rest));
            lemma_qcoord_round_trip(x, kx, pre, yb + zb + rest);
            assert(s =~= (pre + xb) + yb + (zb + rest));
            lemma_qcoord_round_trip(y, ky, pre + xb, zb + rest);
            assert(s =~= (pre + xb + yb) + zb + rest);
            lemma_qcoord_round_trip(z, kz, pre + xb + yb, rest);
        },
    }
}

proof fn lemma_qdata_bytes_of(s: Seq<u8>, p: int, kinds: Option<(QCoordKind, QCoordKind, QCoordKind)>)
    ensures
        qdata_at(s, p, kinds) matches Some((d, q)) ==> qdata_fits(d, kinds) && qdata_bytes(d)
            == s.subrange(p, q) && q == p + qdata_bytes(d).len(),
{
    if let Some((d, q)) = qdata_at(s, p, kinds) {
        match kinds {
            None => {
                assert(qdata_bytes(d) =~= s.subrange(p, q));
            },
            Some((kx, ky, kz)) => {
                let (x, a) = qcoord_at(s, p, kx)->Some_0;
                let (y, b) = qcoord_at(s, a, ky)->Some_0;
                lemma_qcoord_bytes_of(s, p, kx);
                lemma_qcoord_bytes_of(s, a, ky);
                lemma_qcoord_bytes_of(s, b, kz);
                assert(qdata_bytes(d) =~= s.subrange(p, q));
            },
        }
    }
}

/// A rotation frame read from bytes fits the header flags, and writing it gives
/// back the bytes read.
pub proof fn lemma_qframe_bytes_of(s: Seq<u8>, p: int, hf: u32)
    ensures
        qframe_at(s, p, hf) matches Some((fr, q)) ==> qframe_fits(fr, hf) && qframe_bytes(fr)
            == s.subrange(p, q) && q == p + qframe_bytes(fr).len() && p >= 0 && q <= s.len(),
{
    if let Some((fr, q)) = qframe_at(s, p, hf) {
        let long = hf & LONG_FRAME_TIMES != 0;
        let p1 = if long {
            p + 2
        } else {
            p
        };
        if long {
            lemma_u16_bytes_of_le(s, p);
        }
        lemma_u16_bytes_of_le(s, p1);
        lemma_qdata_bytes_of(s, p1 + 2, qkinds(fr.flags, hf));
        assert(time_bytes(fr.time) =~= s.subrange(p, p1));
        assert(qframe_bytes(fr) =~= s.subrange(p, q));
    }
}

/// Reading back the bytes of a translation frame that fits its flags gives the
/// frame.
pub proof fn lemma_tframe_round_trip(fr: TFrame, front: Seq<u8>, rest: Seq<u8>)
    requires
        tframe_fits(fr),
    ensures
        tframe_at(front + tframe_bytes(fr) + rest, front.len() as int) == Some(
            (fr, (front.len() + tframe_bytes(fr).len()) as int),
        ),
{
    let s = front + tframe_bytes(fr) + rest;
    let f = front.len() as int;
    let tb = time_bytes(fr.time);
    let db = tdata_bytes(fr.data);
    let pre = front + seq![fr.flags] + tb;
    assert(s =~= pre + db + rest);
    assert(s[f] == fr.flags);
    if let Some(t) = fr.time {
        assert(u16_le(s, f + 1) == t) by {
            assert(s =~= (front + seq![fr.flags]) + tb + (db + rest));
            lemma_u16_round_trip(t, db + rest, front + seq![fr.flags]);
        }
    }
    match fr.data {
        TFrameData::Key(i) => {
            assert(s[pre.len() as int] == i);
        },
        TFrameData::Inline { x, y, z } => {
            let q = pre.len() as int;
            let xb = i16_bytes(x);
            let yb = i16_bytes(y);
            let zb = i16_bytes(z);
            assert(i16_le(s, q) == x) by {
                assert(s =~= pre + xb + (yb + zb + rest));
                lemma_u16_round_trip(crate::bytes::bits_of_i16(x), yb + zb + rest, pre);
                lemma_i16_bits(x);
            }
            assert(i16_le(s, q + 2) == y) by {
                assert(s =~= (pre + xb) + yb + (zb + rest));
                lemma_u16_round_trip(crate::bytes::bits_of_i16(y), zb + rest, pre + xb);
                lemma_i16_bits(y);
            }
            assert(i16_le(s, q + 4) == z) by {
                assert(s =~= (pre + xb + yb) + zb + rest);
                lemma_u16_round_trip(crate::bytes::bits_of_i16(z), rest, pre + xb + yb);
                lemma_i16_bits(z);
            }
        },
    }
}

/// A translation frame read from bytes fits its flags, takes at least two bytes,
/// and writing it gives back the bytes read.
pub proof fn lemma_tframe_bytes_of(s: Seq<u8>, p: int)
    ensures
        tframe_at(s, p) matches Some((fr, q)) ==> tframe_fits(fr) && tframe_bytes(fr)
            == s.subrange(p, q) && q == p + tframe_bytes(fr).len() && p >= 0 && q <= s.len(),
{
    if let Some((fr, q)) = tframe_at(s, p) {
        let short = fr.flags & FLAG_TIME != 0;
        let q1 = if short {
            p + 1
        } else {
            p + 3
        };
        if !short {
            lemma_u16_bytes_of_le(s, p + 1);
        }
        if fr.flags & USE_LOOKUP == 0 {
            lemma_bits_i16(u16_le(s, q1));
            lemma_u16_bytes_of_le(s, q1);
            lemma_bits_i16(u16_le(s, q1 + 2));
            lemma_u16_bytes_of_le(s, q1 + 2);
            lemma_bits_i16(u16_le(s, q1 + 4));
            lemma_u16_bytes_of_le(s, q1 + 4);
        }
        assert(tdata_bytes(fr.data) =~= s.subrange(q1, q));
        assert(tframe_bytes(fr) =~= s.subrange(p, q));
    }
}

} // verus!
