//! Little-endian byte encoding, and the byte reader and writer that every
//! file format of the library is parsed from and serialised into.
use byteorder::{ByteOrder, LittleEndian};
use vstd::prelude::*;
use vstd::slice::slice_subrange;

verus! {

/// The value of the two bytes of `s` at `p`, least significant first.
pub open spec fn u16_le(s: Seq<u8>, p: int) -> u16 {
    (s[p] as int + 256 * s[p + 1] as int) as u16
}

/// The value of the four bytes of `s` at `p`, least significant first.
pub open spec fn u32_le(s: Seq<u8>, p: int) -> u32 {
    (s[p] as int + 256 * s[p + 1] as int + 65536 * s[p + 2] as int + 16777216 * s[p + 3] as int) as u32
}

/// The two's complement reading of a 16-bit pattern.
pub open spec fn i16_of_bits(u: u16) -> i16 {
    if u >= 32768 { (u - 65536) as i16 } else { u as i16 }
}

/// The two's complement reading of a 32-bit pattern.
pub open spec fn i32_of_bits(u: u32) -> i32 {
    if u >= 0x8000_0000 { (u - 0x1_0000_0000) as i32 } else { u as i32 }
}

/// The 16-bit pattern of a signed value.
pub open spec fn bits_of_i16(v: i16) -> u16 {
    if v < 0 { (v + 65536) as u16 } else { v as u16 }
}

/// The 32-bit pattern of a signed value.
pub open spec fn bits_of_i32(v: i32) -> u32 {
    if v < 0 { (v + 0x1_0000_0000) as u32 } else { v as u32 }
}

pub open spec fn i16_le(s: Seq<u8>, p: int) -> i16 {
    i16_of_bits(u16_le(s, p))
}

pub open spec fn i32_le(s: Seq<u8>, p: int) -> i32 {
    i32_of_bits(u32_le(s, p))
}

/// The little-endian bytes of a 16-bit value.
pub open spec fn u16_bytes(v: u16) -> Seq<u8> {
    seq![(v % 256) as u8, (v / 256) as u8]
}

/// The little-endian bytes of a 32-bit value.
pub open spec fn u32_bytes(v: u32) -> Seq<u8> {
    seq![(v % 256) as u8, ((v / 256) % 256) as u8, ((v / 65536) % 256) as u8, (v / 16777216) as u8]
}

pub open spec fn i16_bytes(v: i16) -> Seq<u8> {
    u16_bytes(bits_of_i16(v))
}

pub open spec fn i32_bytes(v: i32) -> Seq<u8> {
    u32_bytes(bits_of_i32(v))
}

/// Decoding the encoding of a 16-bit value gives the value back.
pub proof fn lemma_u16_round_trip(v: u16, rest: Seq<u8>, front: Seq<u8>)
    ensures
        u16_le(front + u16_bytes(v) + rest, front.len() as int) == v,
{
    let s = front + u16_bytes(v) + rest;
    assert(s[front.len() as int] == (v % 256) as u8);
    assert(s[front.len() as int + 1] == (v / 256) as u8);
}

/// Decoding the encoding of a 32-bit value gives the value back.
pub proof fn lemma_u32_round_trip(v: u32, rest: Seq<u8>, front: Seq<u8>)
    ensures
        u32_le(front + u32_bytes(v) + rest, front.len() as int) == v,
{
    let s = front + u32_bytes(v) + rest;
    let f = front.len() as int;
    assert(s[f] == (v % 256) as u8);
    assert(s[f + 1] == ((v / 256) % 256) as u8);
    assert(s[f + 2] == ((v / 65536) % 256) as u8);
    assert(s[f + 3] == (v / 16777216) as u8);
}

/// Encoding the value read from two bytes gives those bytes back.
pub proof fn lemma_u16_bytes_of_le(s: Seq<u8>, p: int)
    requires
        0 <= p,
        p + 2 <= s.len(),
    ensures
        u16_bytes(u16_le(s, p)) == s.subrange(p, p + 2),
{
    assert(u16_bytes(u16_le(s, p)) =~= s.subrange(p, p + 2));
}

/// Encoding the value read from four bytes gives those bytes back.
pub proof fn lemma_u32_bytes_of_le(s: Seq<u8>, p: int)
    requires
        0 <= p,
        p + 4 <= s.len(),
    ensures
        u32_bytes(u32_le(s, p)) == s.subrange(p, p + 4),
{
    let v = u32_le(s, p) as int;
    let (a, b, c, d) = (s[p] as int, s[p + 1] as int, s[p + 2] as int, s[p + 3] as int);
    assert(v == a + 256 * b + 65536 * c + 16777216 * d);
    assert(v % 256 == a) by (nonlinear_arith)
        requires v == a + 256 * b + 65536 * c + 16777216 * d, 0 <= a < 256;
    assert(v / 256 == b + 256 * c + 65536 * d) by (nonlinear_arith)
        requires v == a + 256 * b + 65536 * c + 16777216 * d, 0 <= a < 256;
    assert((v / 256) % 256 == b) by (nonlinear_arith)
        requires v / 256 == b + 256 * c + 65536 * d, 0 <= b < 256;
    assert(v / 65536 == c + 256 * d) by (nonlinear_arith)
        requires v == a + 256 * b + 65536 * c + 16777216 * d, 0 <= a < 256, 0 <= b < 256;
    assert((v / 65536) % 256 == c) by (nonlinear_arith)
        requires v / 65536 == c + 256 * d, 0 <= c < 256;
    assert(v / 16777216 == d) by (nonlinear_arith)
        requires v == a + 256 * b + 65536 * c + 16777216 * d, 0 <= a < 256, 0 <= b < 256, 0 <= c < 256;
    assert(u32_bytes(u32_le(s, p)) =~= s.subrange(p, p + 4));
}

pub proof fn lemma_i16_bits(v: i16)
    ensures
        i16_of_bits(bits_of_i16(v)) == v,
{
}

pub proof fn lemma_i32_bits(v: i32)
    ensures
        i32_of_bits(bits_of_i32(v)) == v,
{
}

pub proof fn lemma_bits_i16(u: u16)
    ensures
        bits_of_i16(i16_of_bits(u)) == u,
{
}

pub proof fn lemma_bits_i32(u: u32)
    ensures
        bits_of_i32(i32_of_bits(u)) == u,
{
}

/// Calls byteorder's `LittleEndian::read_u16`, which reads the first two bytes
/// of the slice as a little-endian number.
#[verifier::external_body]
fn le_read_u16(buf: &[u8]) -> (r: u16)
    requires
        buf@.len() >= 2,
    ensures
        r == u16_le(buf@, 0),
{
    LittleEndian::read_u16(buf)
}

/// Calls byteorder's `LittleEndian::read_u32`, which reads the first four bytes
/// of the slice as a little-endian number.
#[verifier::external_body]
fn le_read_u32(buf: &[u8]) -> (r: u32)
    requires
        buf@.len() >= 4,
    ensures
        r == u32_le(buf@, 0),
{
    LittleEndian::read_u32(buf)
}

/// Calls byteorder's `LittleEndian::read_i16`, the 16-bit little-endian pattern of
/// the first two bytes read as two's complement.
#[verifier::external_body]
fn le_read_i16(buf: &[u8]) -> (r: i16)
    requires
        buf@.len() >= 2,
    ensures
        r == i16_le(buf@, 0),
{
    LittleEndian::read_i16(buf)
}

/// Calls byteorder's `LittleEndian::read_i32`, the 32-bit little-endian pattern of
/// the first four bytes read as two's complement.
#[verifier::external_body]
fn le_read_i32(buf: &[u8]) -> (r: i32)
    requires
        buf@.len() >= 4,
    ensures
        r == i32_le(buf@, 0),
{
    LittleEndian::read_i32(buf)
}

/// Calls byteorder's `LittleEndian::write_u16` on a two-byte buffer: its bytes
/// are the value, least significant first.
#[verifier::external_body]
fn le_write_u16(n: u16) -> (r: [u8; 2])
    ensures
        r@ == u16_bytes(n),
{
    let mut buf = [0u8; 2];
    LittleEndian::write_u16(&mut buf, n);
    buf
}

/// Calls byteorder's `LittleEndian::write_u32` on a four-byte buffer: its bytes
/// are the value, least significant first.
#[verifier::external_body]
fn le_write_u32(n: u32) -> (r: [u8; 4])
    ensures
        r@ == u32_bytes(n),
{
    let mut buf = [0u8; 4];
    LittleEndian::write_u32(&mut buf, n);
    buf
}

/// Calls byteorder's `LittleEndian::write_i16` on a two-byte buffer: its bytes
/// are the two's complement pattern, least significant first.
#[verifier::external_body]
fn le_write_i16(n: i16) -> (r: [u8; 2])
    ensures
        r@ == i16_bytes(n),
{
    let mut buf = [0u8; 2];
    LittleEndian::write_i16(&mut buf, n);
    buf
}

/// Calls byteorder's `LittleEndian::write_i32` on a four-byte buffer: its bytes
/// are the two's complement pattern, least significant first.
#[verifier::external_body]
fn le_write_i32(n: i32) -> (r: [u8; 4])
    ensures
        r@ == i32_bytes(n),
{
    let mut buf = [0u8; 4];
    LittleEndian::write_i32(&mut buf, n);
    buf
}

/// A failed read: the only way reading from bytes in memory fails is running
/// out of them.
#[derive(Debug, Clone, Copy, PartialEq, Eq, Structural)]
pub enum IoError {
    UnexpectedEof,
}

/// The abstract state of a reader: the bytes and the position of the next read.
pub struct ReadState {
    pub bytes: Seq<u8>,
    pub pos: int,
}

/// A seekable reader over bytes held in memory.
pub struct ByteReader {
    data: Vec<u8>,
    pos: usize,
}

impl View for ByteReader {
    type V = ReadState;

    closed spec fn view(&self) -> ReadState {
        ReadState { bytes: self.data@, pos: self.pos as int }
    }
}

/// The bytes left to read from `p`, as a measure.
pub open spec fn rem(s: Seq<u8>, p: int) -> nat {
    if 0 <= p <= s.len() {
        (s.len() - p) as nat
    } else {
        0
    }
}

/// A reader's position is never negative.
pub broadcast proof fn lemma_reader_pos(r: ByteReader)
    ensures
        #[trigger] r@.pos >= 0,
{
}

/// A writer's position is never negative.
pub broadcast proof fn lemma_writer_pos(w: ByteWriter)
    ensures
        #[trigger] w@.pos >= 0,
{
}

pub broadcast group group_positions {
    lemma_reader_pos,
    lemma_writer_pos,
}

/// Whether `n` bytes are there to read at `p` (reading nothing always succeeds).
pub open spec fn avail(s: Seq<u8>, p: int, n: int) -> bool {
    n == 0 || (0 <= p && p + n <= s.len())
}

impl ByteReader {
    pub fn new(data: Vec<u8>) -> (r: Self)
        ensures
            r@.bytes == data@,
            r@.pos == 0,
    {
        ByteReader { data, pos: 0 }
    }

    pub fn stream_position(&self) -> (p: usize)
        ensures
            p == self@.pos,
    {
        self.pos
    }

    pub fn seek(&mut self, pos: usize)
        ensures
            final(self)@.bytes == old(self)@.bytes,
            final(self)@.pos == pos,
    {
        self.pos = pos;
    }

    pub fn len(&self) -> (n: usize)
        ensures
            n == self@.bytes.len(),
    {
        self.data.len()
    }

    fn take(&mut self, n: usize) -> (r: Result<&[u8], IoError>)
        requires
            n > 0,
        ensures
            final(self)@.bytes == old(self)@.bytes,
            avail(old(self)@.bytes, old(self)@.pos, n as int) ==> r is Ok && final(self)@.pos
                == old(self)@.pos + n && r->Ok_0@ == old(self)@.bytes.subrange(
                old(self)@.pos,
                old(self)@.pos + n,
            ),
            !avail(old(self)@.bytes, old(self)@.pos, n as int) ==> r == Err::<&[u8], IoError>(
                IoError::UnexpectedEof,
            ) && final(self)@.pos == old(self)@.pos,
    {
        let len = self.data.len();
        if n <= len && self.pos <= len - n {
            let start = self.pos;
            self.pos = start + n;
            Ok(slice_subrange(self.data.as_slice(), start, start + n))
        } else {
            Err(IoError::UnexpectedEof)
        }
    }

    pub fn read_u8(&mut self) -> (r: Result<u8, IoError>)
        ensures
            final(self)@.bytes == old(self)@.bytes,
            avail(old(self)@.bytes, old(self)@.pos, 1) ==> r == Ok::<u8, IoError>(
                old(self)@.bytes[old(self)@.pos],
            ) && final(self)@.pos == old(self)@.pos + 1,
            !avail(old(self)@.bytes, old(self)@.pos, 1) ==> r == Err::<u8, IoError>(
                IoError::UnexpectedEof,
            ) && final(self)@.pos == old(self)@.pos,
    {
        let b = self.take(1)?;
        Ok(b[0])
    }

    pub fn read_u16(&mut self) -> (r: Result<u16, IoError>)
        ensures
            final(self)@.bytes == old(self)@.bytes,
            avail(old(self)@.bytes, old(self)@.pos, 2) ==> r == Ok::<u16, IoError>(
                u16_le(old(self)@.bytes, old(self)@.pos),
            ) && final(self)@.pos == old(self)@.pos + 2,
            !avail(old(self)@.bytes, old(self)@.pos, 2) ==> r == Err::<u16, IoError>(
                IoError::UnexpectedEof,
            ) && final(self)@.pos == old(self)@.pos,
    {
        let b = self.take(2)?;
        Ok(le_read_u16(b))
    }

    pub fn read_u32(&mut self) -> (r: Result<u32, IoError>)
        ensures
            final(self)@.bytes == old(self)@.bytes,
            avail(old(self)@.bytes, old(self)@.pos, 4) ==> r == Ok::<u32, IoError>(
                u32_le(old(self)@.bytes, old(self)@.pos),
            ) && final(self)@.pos == old(self)@.pos + 4,
            !avail(old(self)@.bytes, old(self)@.pos, 4) ==> r == Err::<u32, IoError>(
                IoError::UnexpectedEof,
            ) && final(self)@.pos == old(self)@.pos,
    {
        let b = self.take(4)?;
        Ok(le_read_u32(b))
    }

    pub fn read_i8(&mut self) -> (r: Result<i8, IoError>)
        ensures
            final(self)@.bytes == old(self)@.bytes,
            avail(old(self)@.bytes, old(self)@.pos, 1) ==> r == Ok::<i8, IoError>(
                i8_of_bits(old(self)@.bytes[old(self)@.pos]),
            ) && final(self)@.pos == old(self)@.pos + 1,
            !avail(old(self)@.bytes, old(self)@.pos, 1) ==> r == Err::<i8, IoError>(
                IoError::UnexpectedEof,
            ) && final(self)@.pos == old(self)@.pos,
    {
        let b = self.read_u8()?;
        Ok(i8_from_bits(b))
    }

    pub fn read_i16(&mut self) -> (r: Result<i16, IoError>)
        ensures
            final(self)@.bytes == old(self)@.bytes,
            avail(old(self)@.bytes, old(self)@.pos, 2) ==> r == Ok::<i16, IoError>(
                i16_le(old(self)@.bytes, old(self)@.pos),
            ) && final(self)@.pos == old(self)@.pos + 2,
            !avail(old(self)@.bytes, old(self)@.pos, 2) ==> r == Err::<i16, IoError>(
                IoError::UnexpectedEof,
            ) && final(self)@.pos == old(self)@.pos,
    {
        let b = self.take(2)?;
        Ok(le_read_i16(b))
    }

    pub fn read_i32(&mut self) -> (r: Result<i32, IoError>)
        ensures
            final(self)@.bytes == old(self)@.bytes,
            avail(old(self)@.bytes, old(self)@.pos, 4) ==> r == Ok::<i32, IoError>(
                i32_le(old(self)@.bytes, old(self)@.pos),
            ) && final(self)@.pos == old(self)@.pos + 4,
            !avail(old(self)@.bytes, old(self)@.pos, 4) ==> r == Err::<i32, IoError>(
                IoError::UnexpectedEof,
            ) && final(self)@.pos == old(self)@.pos,
    {
        let b = self.take(4)?;
        Ok(le_read_i32(b))
    }
}

/// The two's complement reading of an 8-bit pattern.
pub open spec fn i8_of_bits(u: u8) -> i8 {
    if u >= 128 { (u - 256) as i8 } else { u as i8 }
}

/// The 8-bit pattern of a signed value.
pub open spec fn bits_of_i8(v: i8) -> u8 {
    if v < 0 { (v + 256) as u8 } else { v as u8 }
}

pub fn i8_from_bits(u: u8) -> (r: i8)
    ensures
        r == i8_of_bits(u),
{
    if u >= 128 { (u as i16 - 256) as i8 } else { u as i8 }
}

pub fn i8_to_bits(v: i8) -> (r: u8)
    ensures
        r == bits_of_i8(v),
{
    if v < 0 { (v as i16 + 256) as u8 } else { v as u8 }
}

/// The abstract state of a writer: the bytes so far and the position of the next write.
pub struct WriteState {
    pub bytes: Seq<u8>,
    pub pos: int,
}

/// The bytes `d`, with zeros added up to `p` where `p` lies past their end.
pub open spec fn pad_to(d: Seq<u8>, p: int) -> Seq<u8> {
    if p <= d.len() {
        d
    } else {
        d + Seq::new((p - d.len()) as nat, |i: int| 0u8)
    }
}

/// The bytes `d` with `b` written over them from `p` on, extending them where `b`
/// runs past their end (and filling with zeros up to `p` where `p` lies past it).
pub open spec fn write_at(d: Seq<u8>, p: int, b: Seq<u8>) -> Seq<u8> {
    let e = pad_to(d, p);
    if b.len() == 0 {
        d
    } else {
        e.subrange(0, p) + b + if p + b.len() < e.len() {
            e.subrange(p + b.len(), e.len() as int)
        } else {
            Seq::<u8>::empty()
        }
    }
}

impl WriteState {
    /// The state after writing `b` at the current position.
    pub open spec fn emit(self, b: Seq<u8>) -> WriteState {
        WriteState { bytes: write_at(self.bytes, self.pos, b), pos: self.pos + b.len() }
    }
}

/// Writing `a` and then `b` is writing `a + b`.
pub proof fn lemma_emit_emit(st: WriteState, a: Seq<u8>, b: Seq<u8>)
    requires
        st.pos >= 0,
    ensures
        st.emit(a).emit(b) == st.emit(a + b),
{
    if a.len() == 0 {
        assert(a + b =~= b);
    } else if b.len() == 0 {
        assert(a + b =~= a);
    } else {
        assert(pad_to(st.emit(a).bytes, st.emit(a).pos) == st.emit(a).bytes);
        assert(st.emit(a).emit(b).bytes =~= st.emit(a + b).bytes);
    }
}

/// Writing `b` back over the first bytes of something written, `a`, when `b`
/// is as long as `a`, leaves what writing `b` in place of `a` would have left.
pub proof fn lemma_emit_overwrite(st: WriteState, a: Seq<u8>, b: Seq<u8>, r: Seq<u8>)
    requires
        st.pos >= 0,
        a.len() == b.len(),
    ensures
        (WriteState { bytes: st.emit(a + r).bytes, pos: st.pos }).emit(b) == (WriteState {
            bytes: st.emit(b + r).bytes,
            pos: st.pos + b.len(),
        }),
{
    let x = st.emit(a + r).bytes;
    if a.len() == 0 {
        assert(a + r =~= r);
        assert(b + r =~= r);
        assert(b =~= Seq::<u8>::empty());
    } else {
        assert(pad_to(x, st.pos) == x);
        assert(write_at(x, st.pos, b) =~= write_at(st.bytes, st.pos, b + r));
    }
}

/// Writing nothing changes nothing.
pub proof fn lemma_emit_empty(st: WriteState)
    ensures
        st.emit(Seq::<u8>::empty()) == st,
{
}

/// A seekable writer into bytes held in memory: writing overwrites what is at the
/// position and extends the bytes past their end.
pub struct ByteWriter {
    data: Vec<u8>,
    pos: usize,
}

impl View for ByteWriter {
    type V = WriteState;

    closed spec fn view(&self) -> WriteState {
        WriteState { bytes: self.data@, pos: self.pos as int }
    }
}

impl ByteWriter {
    pub fn new() -> (w: Self)
        ensures
            w@.bytes == Seq::<u8>::empty(),
            w@.pos == 0,
    {
        ByteWriter { data: Vec::new(), pos: 0 }
    }

    pub fn stream_position(&self) -> (p: usize)
        ensures
            p == self@.pos,
    {
        self.pos
    }

    pub fn len(&self) -> (n: usize)
        ensures
            n == self@.bytes.len(),
    {
        self.data.len()
    }

    /// Moves the position to `pos`.
    pub fn seek(&mut self, pos: usize)
        ensures
            final(self)@.bytes == old(self)@.bytes,
            final(self)@.pos == pos,
    {
        self.pos = pos;
    }

    pub fn into_bytes(self) -> (v: Vec<u8>)
        ensures
            v@ == self@.bytes,
    {
        self.data
    }

    pub fn bytes(&self) -> (v: &Vec<u8>)
        ensures
            v@ == self@.bytes,
    {
        &self.data
    }

    pub fn write_u8(&mut self, b: u8)
        requires
            old(self)@.pos < usize::MAX,
        ensures
            final(self)@ == old(self)@.emit(seq![b]),
    {
        let ghost old_st = self@;
        while self.data.len() < self.pos
            invariant
                self.pos == old_st.pos,
                old_st.bytes.len() <= self.data@.len() <= self.pos || self.data@.len() == old_st.bytes.len(),
                self.data@ == pad_to(old_st.bytes, self.data@.len() as int),
            decreases self.pos - self.data@.len(),
        {
            self.data.push(0);
            proof {
                assert(self.data@ =~= pad_to(old_st.bytes, self.data@.len() as int));
            }
        }
        proof {
            assert(self.data@ == pad_to(old_st.bytes, old_st.pos));
        }
        if self.pos < self.data.len() {
            self.data.set(self.pos, b);
        } else {
            self.data.push(b);
        }
        self.pos = self.pos + 1;
        proof {
            assert(self@.bytes =~= write_at(old_st.bytes, old_st.pos, seq![b]));
        }
    }

    /// Writes every byte of `bytes` in order.
    pub fn write_all(&mut self, bytes: &[u8])
        requires
            old(self)@.pos + bytes@.len() <= usize::MAX,
        ensures
            final(self)@ == old(self)@.emit(bytes@),
    {
        let ghost st0 = self@;
        proof {
            lemma_emit_empty(st0);
        }
        let mut i: usize = 0;
        while i < bytes.len()
            invariant
                0 <= i <= bytes@.len(),
                st0.pos >= 0,
                st0.pos + bytes@.len() <= usize::MAX,
                self@ == st0.emit(bytes@.subrange(0, i as int)),
            decreases bytes@.len() - i,
        {
            self.write_u8(bytes[i]);
            proof {
                lemma_emit_emit(st0, bytes@.subrange(0, i as int), seq![bytes@[i as int]]);
                assert(bytes@.subrange(0, i as int) + seq![bytes@[i as int]] =~= bytes@.subrange(
                    0,
                    i + 1,
                ));
            }
            i = i + 1;
        }
        proof {
            assert(bytes@.subrange(0, bytes@.len() as int) =~= bytes@);
        }
    }

    pub fn write_u16(&mut self, v: u16)
        requires
            old(self)@.pos + 2 <= usize::MAX,
        ensures
            final(self)@ == old(self)@.emit(u16_bytes(v)),
    {
        let b = le_write_u16(v);
        self.write_all(b.as_slice());
    }

    pub fn write_u32(&mut self, v: u32)
        requires
            old(self)@.pos + 4 <= usize::MAX,
        ensures
            final(self)@ == old(self)@.emit(u32_bytes(v)),
    {
        let b = le_write_u32(v);
        self.write_all(b.as_slice());
    }

    pub fn write_i8(&mut self, v: i8)
        requires
            old(self)@.pos + 1 <= usize::MAX,
        ensures
            final(self)@ == old(self)@.emit(seq![bits_of_i8(v)]),
    {
        self.write_u8(i8_to_bits(v));
    }

    pub fn write_i16(&mut self, v: i16)
        requires
            old(self)@.pos + 2 <= usize::MAX,
        ensures
            final(self)@ == old(self)@.emit(i16_bytes(v)),
    {
        let b = le_write_i16(v);
        self.write_all(b.as_slice());
    }

    pub fn write_i32(&mut self, v: i32)
        requires
            old(self)@.pos + 4 <= usize::MAX,
        ensures
            final(self)@ == old(self)@.emit(i32_bytes(v)),
    {
        let b = le_write_i32(v);
        self.write_all(b.as_slice());
    }
}

/// The bytes of a list of 32-bit values, one after the other.
pub open spec fn u32s_bytes(v: Seq<u32>) -> Seq<u8>
    decreases v.len(),
{
    if v.len() == 0 {
        Seq::empty()
    } else {
        u32s_bytes(v.drop_last()) + u32_bytes(v.last())
    }
}


/// The `n` 32-bit values stored one after the other in `s` from `p` on.
pub open spec fn u32s_at(s: Seq<u8>, p: int, n: nat) -> Seq<u32> {
    Seq::new(n, |i: int| u32_le(s, p + 4 * i))
}


pub proof fn lemma_u32s_bytes_len(v: Seq<u32>)
    ensures
        u32s_bytes(v).len() == 4 * v.len(),
    decreases v.len(),
{
    if v.len() > 0 {
        lemma_u32s_bytes_len(v.drop_last());
    }
}


pub proof fn lemma_u32s_round_trip(v: Seq<u32>, front: Seq<u8>, rest: Seq<u8>)
    ensures
        u32s_at(front + u32s_bytes(v) + rest, front.len() as int, v.len()) == v,
    decreases v.len(),
{
    let s = front + u32s_bytes(v) + rest;
    if v.len() > 0 {
        let init = v.drop_last();
        lemma_u32s_bytes_len(init);
        assert(s =~= front + u32s_bytes(init) + (u32_bytes(v.last()) + rest));
        lemma_u32s_round_trip(init, front, u32_bytes(v.last()) + rest);
        assert(s =~= (front + u32s_bytes(init)) + u32_bytes(v.last()) + rest);
        lemma_u32_round_trip(v.last(), rest, front + u32s_bytes(init));
        let f = front.len() as int;
        assert forall|i: int| 0 <= i < v.len() implies #[trigger] u32s_at(s, f, v.len())[i]
            == v[i] by {
            if i < init.len() {
                assert(u32s_at(s, f, init.len())[i] == init[i]);
            }
        }
    }
    assert(u32s_at(s, front.len() as int, v.len()) =~= v);
}


pub proof fn lemma_u32s_bytes_of_at(s: Seq<u8>, p: int, n: nat)
    requires
        0 <= p,
        p + 4 * n <= s.len(),
    ensures
        u32s_bytes(u32s_at(s, p, n)) == s.subrange(p, p + 4 * n),
    decreases n,
{
    if n > 0 {
        let m = (n - 1) as nat;
        lemma_u32s_bytes_of_at(s, p, m);
        assert(u32s_at(s, p, n).drop_last() =~= u32s_at(s, p, m));
        lemma_u32_bytes_of_le(s, p + 4 * m);
        assert(s.subrange(p, p + 4 * m) + s.subrange(p + 4 * m, p + 4 * n) =~= s.subrange(
            p,
            p + 4 * n,
        ));
    } else {
        assert(u32s_bytes(u32s_at(s, p, 0)) =~= s.subrange(p, p));
    }
}


impl ByteReader {
    /// Reads `count` 32-bit values.
    pub fn read_u32s(&mut self, count: u32) -> (r: Result<Vec<u32>, IoError>)
        ensures
            final(self)@.bytes == old(self)@.bytes,
            avail(old(self)@.bytes, old(self)@.pos, 4 * count) ==> r is Ok && r->Ok_0@ == u32s_at(
                old(self)@.bytes,
                old(self)@.pos,
                count as nat,
            ) && final(self)@.pos == old(self)@.pos + 4 * count,
            !avail(old(self)@.bytes, old(self)@.pos, 4 * count) ==> r == Err::<Vec<u32>, IoError>(
                IoError::UnexpectedEof,
            ),
    {
        let ghost s = self@.bytes;
        let ghost p = self@.pos;
        let mut out: Vec<u32> = Vec::new();
        let mut i: u32 = 0;
        while i < count
            invariant
                0 <= i <= count,
                s == old(self)@.bytes,
                p == old(self)@.pos,
                p >= 0,
                self@.bytes == s,
                self@.pos == p + 4 * i,
                i > 0 ==> avail(s, p, 4 * i),
                out@ == u32s_at(s, p, i as nat),
            decreases count - i,
        {
            let v = self.read_u32()?;
            out.push(v);
            i = i + 1;
            proof {
                assert(out@ =~= u32s_at(s, p, i as nat));
            }
        }
        Ok(out)
    }
}

impl ByteWriter {
    /// Writes the 32-bit values one after the other.
    pub fn write_u32s(&mut self, values: &Vec<u32>)
        requires
            old(self)@.pos + 4 * values@.len() <= usize::MAX,
        ensures
            final(self)@ == old(self)@.emit(u32s_bytes(values@)),
    {
        let ghost st = self@;
        proof {
            assert(values@.subrange(0, 0) =~= Seq::<u32>::empty());
            lemma_emit_empty(st);
        }
        let mut i: usize = 0;
        while i < values.len()
            invariant
                0 <= i <= values@.len(),
                st.pos >= 0,
                st.pos + 4 * values@.len() <= usize::MAX,
                self@ == st.emit(u32s_bytes(values@.subrange(0, i as int))),
                self@.pos == st.pos + 4 * i,
            decreases values@.len() - i,
        {
            self.write_u32(values[i]);
            proof {
                let pre = values@.subrange(0, i as int);
                let next = values@.subrange(0, i + 1);
                assert(next.drop_last() =~= pre);
                lemma_emit_emit(st, u32s_bytes(pre), u32_bytes(values@[i as int]));
                lemma_u32s_bytes_len(next);
            }
            i = i + 1;
        }
        proof {
            assert(values@.subrange(0, values@.len() as int) =~= values@);
        }
    }
}

/// The bytes of a list of 16-bit values, one after the other.
pub open spec fn u16s_bytes(v: Seq<u16>) -> Seq<u8>
    decreases v.len(),
{
    if v.len() == 0 {
        Seq::empty()
    } else {
        u16s_bytes(v.drop_last()) + u16_bytes(v.last())
    }
}


/// The `n` 16-bit values stored one after the other in `s` from `p` on.
pub open spec fn u16s_at(s: Seq<u8>, p: int, n: nat) -> Seq<u16> {
    Seq::new(n, |i: int| u16_le(s, p + 2 * i))
}


pub proof fn lemma_u16s_bytes_len(v: Seq<u16>)
    ensures
        u16s_bytes(v).len() == 2 * v.len(),
    decreases v.len(),
{
    if v.len() > 0 {
        lemma_u16s_bytes_len(v.drop_last());
    }
}


pub proof fn lemma_u16s_round_trip(v: Seq<u16>, front: Seq<u8>, rest: Seq<u8>)
    ensures
        u16s_at(front + u16s_bytes(v) + rest, front.len() as int, v.len()) == v,
    decreases v.len(),
{
    let s = front + u16s_bytes(v) + rest;
    if v.len() > 0 {
        let init = v.drop_last();
        lemma_u16s_bytes_len(init);
        assert(s =~= front + u16s_bytes(init) + (u16_bytes(v.last()) + rest));
        lemma_u16s_round_trip(init, front, u16_bytes(v.last()) + rest);
        assert(s =~= (front + u16s_bytes(init)) + u16_bytes(v.last()) + rest);
        lemma_u16_round_trip(v.last(), rest, front + u16s_bytes(init));
        let f = front.len() as int;
        assert forall|i: int| 0 <= i < v.len() implies #[trigger] u16s_at(s, f, v.len())[i]
            == v[i] by {
            if i < init.len() {
                assert(u16s_at(s, f, init.len())[i] == init[i]);
            }
        }
    }
    assert(u16s_at(s, front.len() as int, v.len()) =~= v);
}


pub proof fn lemma_u16s_bytes_of_at(s: Seq<u8>, p: int, n: nat)
    requires
        0 <= p,
        p + 2 * n <= s.len(),
    ensures
        u16s_bytes(u16s_at(s, p, n)) == s.subrange(p, p + 2 * n),
    decreases n,
{
    if n > 0 {
        let m = (n - 1) as nat;
        lemma_u16s_bytes_of_at(s, p, m);
        assert(u16s_at(s, p, n).drop_last() =~= u16s_at(s, p, m));
        lemma_u16_bytes_of_le(s, p + 2 * m);
        assert(s.subrange(p, p + 2 * m) + s.subrange(p + 2 * m, p + 2 * n) =~= s.subrange(
            p,
            p + 2 * n,
        ));
    } else {
        assert(u16s_bytes(u16s_at(s, p, 0)) =~= s.subrange(p, p));
    }
}


impl ByteReader {
    /// Reads `count` 16-bit values.
    pub fn read_u16s(&mut self, count: u32) -> (r: Result<Vec<u16>, IoError>)
        ensures
            final(self)@.bytes == old(self)@.bytes,
            avail(old(self)@.bytes, old(self)@.pos, 2 * count) ==> r is Ok && r->Ok_0@ == u16s_at(
                old(self)@.bytes,
                old(self)@.pos,
                count as nat,
            ) && final(self)@.pos == old(self)@.pos + 2 * count,
            !avail(old(self)@.bytes, old(self)@.pos, 2 * count) ==> r == Err::<Vec<u16>, IoError>(
                IoError::UnexpectedEof,
            ),
    {
        let ghost s = self@.bytes;
        let ghost p = self@.pos;
        let mut out: Vec<u16> = Vec::new();
        let mut i: u32 = 0;
        while i < count
            invariant
                0 <= i <= count,
                s == old(self)@.bytes,
                p == old(self)@.pos,
                p >= 0,
                self@.bytes == s,
                self@.pos == p + 2 * i,
                i > 0 ==> avail(s, p, 2 * i),
                out@ == u16s_at(s, p, i as nat),
            decreases count - i,
        {
            let v = self.read_u16()?;
            out.push(v);
            i = i + 1;
            proof {
                assert(out@ =~= u16s_at(s, p, i as nat));
            }
        }
        Ok(out)
    }
}

impl ByteWriter {
    /// Writes the 16-bit values one after the other.
    pub fn write_u16s(&mut self, values: &Vec<u16>)
        requires
            old(self)@.pos + 2 * values@.len() <= usize::MAX,
        ensures
            final(self)@ == old(self)@.emit(u16s_bytes(values@)),
    {
        let ghost st = self@;
        proof {
            assert(values@.subrange(0, 0) =~= Seq::<u16>::empty());
            lemma_emit_empty(st);
        }
        let mut i: usize = 0;
        while i < values.len()
            invariant
                0 <= i <= values@.len(),
                st.pos >= 0,
                st.pos + 2 * values@.len() <= usize::MAX,
                self@ == st.emit(u16s_bytes(values@.subrange(0, i as int))),
                self@.pos == st.pos + 2 * i,
            decreases values@.len() - i,
        {
            self.write_u16(values[i]);
            proof {
                let pre = values@.subrange(0, i as int);
                let next = values@.subrange(0, i + 1);
                assert(next.drop_last() =~= pre);
                lemma_emit_emit(st, u16s_bytes(pre), u16_bytes(values@[i as int]));
                lemma_u16s_bytes_len(next);
            }
            i = i + 1;
        }
        proof {
            assert(values@.subrange(0, values@.len() as int) =~= values@);
        }
    }
}

} // verus!
