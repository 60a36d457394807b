//! THUG2 animations: a header, one block of rotation frames and one block of
//! translation frames per bone.
use crate::anim::frames::{
    lemma_qframe_bytes_len, lemma_qframe_bytes_of, lemma_qframe_round_trip,
    lemma_tframe_bytes_len, lemma_tframe_bytes_of, lemma_tframe_round_trip, qframe_at,
    qframe_boned, qframe_bytes, qframe_decompressed, qframe_fits, qframe_from_boned, tframe_at,
    tframe_boned, tframe_bytes, tframe_decompressed, tframe_fits, tframe_from_boned, BonedQFrame,
    BonedTFrame, QFrame, TFrame,
};
use crate::bytes::{
    avail, group_positions, lemma_emit_emit, lemma_emit_empty, lemma_emit_overwrite, lemma_reader_pos,
    lemma_u16s_bytes_len, lemma_u16s_bytes_of_at, lemma_u16s_round_trip, lemma_u32s_bytes_len,
    lemma_u32s_bytes_of_at, lemma_u32s_round_trip, lemma_writer_pos, u16s_at, u16s_bytes,
    u32_le, u32s_at, u32s_bytes, ByteReader, ByteWriter, IoError, WriteState,
};
use crate::anim::boned;
use crate::anim::WriteContext;
use crate::game::Game;
use crate::stdkey::{Key, StdKey};
use vstd::prelude::*;

verus! {

broadcast use group_positions;

/// The version number that a THUG2 animation file starts with.
pub const HEADER_VERSION: u32 = 1;

/// Header flag: missing bones keep their position.
pub const KEEP_MISSING_BONE_POS: u32 = 0x2_0000;

/// Header flag: the standard key tables are used.
pub const USE_COMPRESS_TABLE: u32 = 0x80_0000;

/// Header flag: the root bone is rotated in advance.
pub const PRE_ROTATED_ROOT: u32 = 0x200_0000;

/// Header flag: frame times are compressed.
pub const COMPRESSED_TIME: u32 = 0x400_0000;

// ---------------------------------------------------------------------------
// The header.

pub struct HeaderV {
    pub version: u32,
    pub flags: u32,
    /// The bits of the duration, a 32-bit float.
    pub duration: u32,
    pub num_bones: u32,
    pub num_q_keys: u32,
    pub num_t_keys: u32,
    pub num_custom_anim_keys: u32,
    pub q_alloc_size: u32,
    pub t_alloc_size: u32,
    pub q_block_sizes: Seq<u16>,
    pub t_block_sizes: Seq<u16>,
}

/// The header of an animation: counts, sizes, and the size of each bone's
/// blocks.
#[derive(Debug)]
pub struct Header {
    pub version: u32,
    pub flags: u32,
    /// The bits of the duration, a 32-bit float.
    pub duration: u32,
    pub num_bones: u32,
    pub num_q_keys: u32,
    pub num_t_keys: u32,
    pub num_custom_anim_keys: u32,
    pub q_alloc_size: u32,
    pub t_alloc_size: u32,
    pub q_block_sizes: Vec<u16>,
    pub t_block_sizes: Vec<u16>,
}

impl View for Header {
    type V = HeaderV;

    open spec fn view(&self) -> HeaderV {
        HeaderV {
            version: self.version,
            flags: self.flags,
            duration: self.duration,
            num_bones: self.num_bones,
            num_q_keys: self.num_q_keys,
            num_t_keys: self.num_t_keys,
            num_custom_anim_keys: self.num_custom_anim_keys,
            q_alloc_size: self.q_alloc_size,
            t_alloc_size: self.t_alloc_size,
            q_block_sizes: self.q_block_sizes@,
            t_block_sizes: self.t_block_sizes@,
        }
    }
}

/// The nine 32-bit values at the start of a header, in order.
pub open spec fn header_words(h: HeaderV) -> Seq<u32> {
    seq![
        h.version,
        h.flags,
        h.duration,
        h.num_bones,
        h.num_q_keys,
        h.num_t_keys,
        h.num_custom_anim_keys,
        h.q_alloc_size,
        h.t_alloc_size,
    ]
}

/// The bytes of a header: its nine values, then the rotation block sizes, then
/// the translation block sizes.
#[verifier::opaque]
pub open spec fn header_bytes(h: HeaderV) -> Seq<u8> {
    u32s_bytes(header_words(h)) + u16s_bytes(h.q_block_sizes) + u16s_bytes(h.t_block_sizes)
}

/// What reading a header at `p` gives: nine values, then two lists of as many
/// block sizes as there are bones.
#[verifier::opaque]
pub open spec fn parse_header(s: Seq<u8>, p: int) -> Option<(HeaderV, int)> {
    if avail(s, p, 36) && avail(s, p + 36, 4 * u32s_at(s, p, 9)[3]) {
        let w = u32s_at(s, p, 9);
        let n = w[3] as nat;
        Some(
            (
                HeaderV {
                    version: w[0],
                    flags: w[1],
                    duration: w[2],
                    num_bones: w[3],
                    num_q_keys: w[4],
                    num_t_keys: w[5],
                    num_custom_anim_keys: w[6],
                    q_alloc_size: w[7],
                    t_alloc_size: w[8],
                    q_block_sizes: u16s_at(s, p + 36, n),
                    t_block_sizes: u16s_at(s, p + 36 + 2 * n, n),
                },
                p + 36 + 4 * n,
            ),
        )
    } else {
        None
    }
}

pub proof fn lemma_header_bytes_len(h: HeaderV)
    ensures
        header_bytes(h).len() == 36 + 2 * h.q_block_sizes.len() + 2 * h.t_block_sizes.len(),
{
    reveal(header_bytes);
    lemma_u32s_bytes_len(header_words(h));
    lemma_u16s_bytes_len(h.q_block_sizes);
    lemma_u16s_bytes_len(h.t_block_sizes);
}

/// A header starts with its version.
pub proof fn lemma_parse_header_version(s: Seq<u8>, p: int)
    ensures
        parse_header(s, p) matches Some((h, q)) ==> avail(s, p, 4) && h.version == u32_le(s, p),
{
    reveal(parse_header);
}

impl Header {
    pub fn read(reader: &mut ByteReader) -> (r: Result<Header, IoError>)
        ensures
            final(reader)@.bytes == old(reader)@.bytes,
            match parse_header(old(reader)@.bytes, old(reader)@.pos) {
                Some((h, q)) => r is Ok && r->Ok_0@ == h && final(reader)@.pos == q,
                None => r == Err::<Header, IoError>(IoError::UnexpectedEof),
            },
    {
        let ghost s = reader@.bytes;
        let ghost p = reader@.pos;
        proof {
            reveal(parse_header);
        }
        let w = reader.read_u32s(9)?;
        let num_bones = w[3];
        proof {
            assert(avail(s, p + 36, 2 * num_bones) && avail(s, p + 36 + 2 * num_bones, 2
                * num_bones) <==> avail(s, p + 36, 4 * num_bones));
        }
        let q_block_sizes = reader.read_u16s(num_bones)?;
        let t_block_sizes = reader.read_u16s(num_bones)?;
        Ok(
            Header {
                version: w[0],
                flags: w[1],
                duration: w[2],
                num_bones,
                num_q_keys: w[4],
                num_t_keys: w[5],
                num_custom_anim_keys: w[6],
                q_alloc_size: w[7],
                t_alloc_size: w[8],
                q_block_sizes,
                t_block_sizes,
            },
        )
    }

    pub fn write(&self, writer: &mut ByteWriter)
        requires
            old(writer)@.pos + header_bytes(self@).len() <= usize::MAX,
        ensures
            final(writer)@ == old(writer)@.emit(header_bytes(self@)),
    {
        let ghost st = writer@;
        proof {
            reveal(header_bytes);
            lemma_writer_pos(*writer);
            lemma_header_bytes_len(self@);
            lemma_u32s_bytes_len(header_words(self@));
            lemma_u16s_bytes_len(self@.q_block_sizes);
        }
        let mut w: Vec<u32> = Vec::new();
        w.push(self.version);
        w.push(self.flags);
        w.push(self.duration);
        w.push(self.num_bones);
        w.push(self.num_q_keys);
        w.push(self.num_t_keys);
        w.push(self.num_custom_anim_keys);
        w.push(self.q_alloc_size);
        w.push(self.t_alloc_size);
        proof {
            assert(w@ =~= header_words(self@));
        }
        writer.write_u32s(&w);
        writer.write_u16s(&self.q_block_sizes);
        writer.write_u16s(&self.t_block_sizes);
        proof {
            let a = u32s_bytes(header_words(self@));
            let b = u16s_bytes(self@.q_block_sizes);
            lemma_emit_emit(st, a, b);
            lemma_emit_emit(st, a + b, u16s_bytes(self@.t_block_sizes));
        }
    }

    /// A copy of the header.
    pub fn copy(&self) -> (r: Header)
        ensures
            r@ == self@,
    {
        Header {
            version: self.version,
            flags: self.flags,
            duration: self.duration,
            num_bones: self.num_bones,
            num_q_keys: self.num_q_keys,
            num_t_keys: self.num_t_keys,
            num_custom_anim_keys: self.num_custom_anim_keys,
            q_alloc_size: self.q_alloc_size,
            t_alloc_size: self.t_alloc_size,
            q_block_sizes: copy_u16s(&self.q_block_sizes),
            t_block_sizes: copy_u16s(&self.t_block_sizes),
        }
    }
}

fn copy_u16s(v: &Vec<u16>) -> (r: Vec<u16>)
    ensures
        r@ == v@,
{
    let mut out: Vec<u16> = Vec::new();
    let mut i: usize = 0;
    while i < v.len()
        invariant
            0 <= i <= v@.len(),
            out@ == v@.subrange(0, i as int),
        decreases v@.len() - i,
    {
        out.push(v[i]);
        i = i + 1;
        proof {
            assert(out@ =~= v@.subrange(0, i as int));
        }
    }
    proof {
        assert(out@ =~= v@);
    }
    out
}

/// Reading back the bytes of a header whose two size lists have one entry per
/// bone gives the header.
pub proof fn lemma_header_round_trip(h: HeaderV, front: Seq<u8>, rest: Seq<u8>)
    requires
        h.q_block_sizes.len() == h.num_bones,
        h.t_block_sizes.len() == h.num_bones,
    ensures
        parse_header(front + header_bytes(h) + rest, front.len() as int) == Some(
            (h, (front.len() + header_bytes(h).len()) as int),
        ),
{
    reveal(header_bytes);
    reveal(parse_header);
    let s = front + header_bytes(h) + rest;
    let f = front.len() as int;
    let wb = u32s_bytes(header_words(h));
    let qb = u16s_bytes(h.q_block_sizes);
    let tb = u16s_bytes(h.t_block_sizes);
    lemma_header_bytes_len(h);
    lemma_u32s_bytes_len(header_words(h));
    lemma_u16s_bytes_len(h.q_block_sizes);
    assert(u32s_at(s, f, 9) == header_words(h)) by {
        assert(s =~= front + wb + (qb + tb + rest));
        lemma_u32s_round_trip(header_words(h), front, qb + tb + rest);
    }
    assert(u16s_at(s, f + 36, h.num_bones as nat) == h.q_block_sizes) by {
        assert(s =~= (front + wb) + qb + (tb + rest));
        lemma_u16s_round_trip(h.q_block_sizes, front + wb, tb + rest);
    }
    assert(u16s_at(s, f + 36 + 2 * h.num_bones, h.num_bones as nat) == h.t_block_sizes) by {
        assert(s =~= (front + wb + qb) + tb + rest);
        lemma_u16s_round_trip(h.t_block_sizes, front + wb + qb, rest);
    }
    let w = u32s_at(s, f, 9);
    assert(w[3] == h.num_bones);
}

/// A header read from bytes has one block size per bone in each list, and its
/// bytes are the bytes read.
pub proof fn lemma_header_bytes_of(s: Seq<u8>, p: int)
    ensures
        parse_header(s, p) matches Some((h, q)) ==> h.q_block_sizes.len() == h.num_bones
            && h.t_block_sizes.len() == h.num_bones && header_bytes(h) == s.subrange(p, q) && q
            == p + header_bytes(h).len() && p >= 0 && q <= s.len(),
{
    reveal(header_bytes);
    reveal(parse_header);
    if let Some((h, q)) = parse_header(s, p) {
        let n = h.num_bones as nat;
        lemma_u32s_bytes_of_at(s, p, 9);
        lemma_u16s_bytes_of_at(s, p + 36, n);
        lemma_u16s_bytes_of_at(s, p + 36 + 2 * n, n);
        assert(header_words(h) =~= u32s_at(s, p, 9));
        lemma_header_bytes_len(h);
        assert(header_bytes(h) =~= s.subrange(p, q));
    }
}

// ---------------------------------------------------------------------------
// Rotation blocks.

/// How far `p` lies before `end`, as a measure.
pub open spec fn dist(p: int, end: int) -> nat {
    if p < end {
        (end - p) as nat
    } else {
        0
    }
}

/// The outcome of a read with `a` put in front of what it read.
pub open spec fn prepend<A>(a: Seq<A>, r: Option<(Seq<A>, int)>) -> Option<(Seq<A>, int)> {
    match r {
        Some((b, q)) => Some((a + b, q)),
        None => None,
    }
}

/// What reading rotation frames from `p` while the position is before `end`
/// gives (the last frame may run past `end`).
pub open spec fn parse_qframes(s: Seq<u8>, p: int, end: int, hf: u32) -> Option<(Seq<QFrame>, int)>
    decreases dist(p, end),
{
    if p >= end {
        Some((Seq::empty(), p))
    } else {
        match qframe_at(s, p, hf) {
            None => None,
            Some((f, q)) => if q <= p {
                None
            } else {
                prepend(seq![f], parse_qframes(s, q, end, hf))
            },
        }
    }
}

/// The bytes of a block of rotation frames: the frames one after the other.
pub open spec fn qblock_bytes(fs: Seq<QFrame>) -> Seq<u8>
    decreases fs.len(),
{
    if fs.len() == 0 {
        Seq::empty()
    } else {
        qframe_bytes(fs[0]) + qblock_bytes(fs.drop_first())
    }
}

/// Whether every frame of a block reads back as itself under header flags `hf`.
pub open spec fn qblock_fits(fs: Seq<QFrame>, hf: u32) -> bool {
    forall|i: int| 0 <= i < fs.len() ==> qframe_fits(#[trigger] fs[i], hf)
}

/// A block of rotation frames.
#[derive(Debug)]
pub struct QBlock {
    pub frames: Vec<QFrame>,
}

impl View for QBlock {
    type V = Seq<QFrame>;

    open spec fn view(&self) -> Seq<QFrame> {
        self.frames@
    }
}

pub proof fn lemma_qblock_bytes_concat(a: Seq<QFrame>, b: Seq<QFrame>)
    ensures
        qblock_bytes(a + b) == qblock_bytes(a) + qblock_bytes(b),
    decreases a.len(),
{
    if a.len() == 0 {
        assert(a + b =~= b);
        assert(qblock_bytes(a) + qblock_bytes(b) =~= qblock_bytes(b));
    } else {
        assert((a + b).drop_first() =~= a.drop_first() + b);
        lemma_qblock_bytes_concat(a.drop_first(), b);
        assert(qblock_bytes(a + b) =~= qblock_bytes(a) + qblock_bytes(b));
    }
}

/// A block of rotation frames takes at least three bytes per frame.
pub proof fn lemma_qblock_bytes_len(fs: Seq<QFrame>)
    ensures
        qblock_bytes(fs).len() >= 3 * fs.len(),
    decreases fs.len(),
{
    if fs.len() > 0 {
        lemma_qframe_bytes_len(fs[0]);
        lemma_qblock_bytes_len(fs.drop_first());
    }
}

/// Reading back the bytes of a block whose frames fit the header flags, up to
/// the end of the block, gives the frames.
pub proof fn lemma_qframes_round_trip(fs: Seq<QFrame>, hf: u32, front: Seq<u8>, rest: Seq<u8>)
    requires
        qblock_fits(fs, hf),
    ensures
        parse_qframes(
            front + qblock_bytes(fs) + rest,
            front.len() as int,
            (front.len() + qblock_bytes(fs).len()) as int,
            hf,
        ) == Some((fs, (front.len() + qblock_bytes(fs).len()) as int)),
    decreases fs.len(),
{
    let s = front + qblock_bytes(fs) + rest;
    let f = front.len() as int;
    let end = f + qblock_bytes(fs).len();
    if fs.len() > 0 {
        let fb = qframe_bytes(fs[0]);
        let tail = fs.drop_first();
        let tb = qblock_bytes(tail);
        assert(qframe_fits(fs[0], hf));
        lemma_qframe_bytes_len(fs[0]);
        assert(s =~= front + fb + (tb + rest));
        lemma_qframe_round_trip(fs[0], hf, front, tb + rest);
        assert(qblock_fits(tail, hf)) by {
            assert forall|i: int| 0 <= i < tail.len() implies qframe_fits(#[trigger] tail[i], hf) by {
                assert(tail[i] == fs[i + 1]);
            }
        }
        assert(s =~= (front + fb) + tb + rest);
        lemma_qframes_round_trip(tail, hf, front + fb, rest);
        assert(seq![fs[0]] + tail =~= fs);
    } else {
        assert(fs =~= Seq::<QFrame>::empty());
    }
}

/// Rotation frames read from bytes fit the header flags, and their bytes are the
/// bytes read.
pub proof fn lemma_qframes_bytes_of(s: Seq<u8>, p: int, end: int, hf: u32)
    ensures
        parse_qframes(s, p, end, hf) matches Some((fs, q)) ==> qblock_fits(fs, hf) && q == p
            + qblock_bytes(fs).len() && (p >= end ==> fs.len() == 0 && q == p) && (p < end ==> q
            >= end && 0 <= p && q <= s.len() && qblock_bytes(fs) == s.subrange(p, q)),
    decreases dist(p, end),
{
    if p < end {
        if let Some((fs, q)) = parse_qframes(s, p, end, hf) {
            let (f, q1) = qframe_at(s, p, hf)->Some_0;
            lemma_qframe_bytes_of(s, p, hf);
            lemma_qframes_bytes_of(s, q1, end, hf);
            let (rest, r) = parse_qframes(s, q1, end, hf)->Some_0;
            assert(fs == seq![f] + rest);
            assert(fs.drop_first() =~= rest);
            assert(fs[0] == f);
            assert forall|i: int| 0 <= i < fs.len() implies qframe_fits(#[trigger] fs[i], hf) by {
                if i > 0 {
                    assert(fs[i] == rest[i - 1]);
                }
            }
            if q1 >= end {
                assert(qblock_bytes(rest) =~= Seq::<u8>::empty());
                assert(qblock_bytes(fs) =~= s.subrange(p, q));
            } else {
                assert(qblock_bytes(fs) =~= s.subrange(p, q));
            }
        }
    }
}

impl QBlock {
    /// Reads rotation frames while the position lies before the end of the
    /// block.
    pub fn read(reader: &mut ByteReader, block_size: u16, hf: u32) -> (r: Result<QBlock, IoError>)
        ensures
            final(reader)@.bytes == old(reader)@.bytes,
            match parse_qframes(
                old(reader)@.bytes,
                old(reader)@.pos,
                old(reader)@.pos + block_size,
                hf,
            ) {
                Some((fs, q)) => r is Ok && r->Ok_0@ == fs && final(reader)@.pos == q,
                None => r == Err::<QBlock, IoError>(IoError::UnexpectedEof),
            },
    {
        let ghost s = reader@.bytes;
        let ghost p = reader@.pos;
        let start = reader.stream_position();
        let end: u128 = start as u128 + block_size as u128;
        let mut frames: Vec<QFrame> = Vec::new();
        while (reader.stream_position() as u128) < end
            invariant
                reader@.bytes == s,
                s == old(reader)@.bytes,
                p == old(reader)@.pos,
                end == p + block_size,
                parse_qframes(s, p, end as int, hf) == prepend(
                    frames@,
                    parse_qframes(s, reader@.pos, end as int, hf),
                ),
            decreases dist(reader@.pos, end as int),
        {
            let ghost pos = reader@.pos;
            let f = QFrame::read(reader, hf)?;
            proof {
                lemma_qframe_bytes_of(s, pos, hf);
                lemma_qframe_bytes_len(f);
                let x = parse_qframes(s, reader@.pos, end as int, hf);
                assert(parse_qframes(s, pos, end as int, hf) == prepend(seq![f], x));
                match x {
                    Some((b, q)) => {
                        assert(frames@ + (seq![f] + b) =~= frames@.push(f) + b);
                    },
                    None => {},
                }
            }
            frames.push(f);
        }
        proof {
            assert(frames@ + Seq::<QFrame>::empty() =~= frames@);
        }
        Ok(QBlock { frames })
    }

    pub fn write(&self, writer: &mut ByteWriter)
        requires
            old(writer)@.pos + qblock_bytes(self@).len() <= usize::MAX,
        ensures
            final(writer)@ == old(writer)@.emit(qblock_bytes(self@)),
    {
        let ghost st = writer@;
        proof {
            lemma_writer_pos(*writer);
            assert(self@.subrange(0, 0) =~= Seq::<QFrame>::empty());
            lemma_emit_empty(st);
        }
        let mut i: usize = 0;
        while i < self.frames.len()
            invariant
                0 <= i <= self@.len(),
                st.pos >= 0,
                st.pos + qblock_bytes(self@).len() <= usize::MAX,
                writer@ == st.emit(qblock_bytes(self@.subrange(0, i as int))),
                writer@.pos == st.pos + qblock_bytes(self@.subrange(0, i as int)).len(),
            decreases self@.len() - i,
        {
            let ghost pre = self@.subrange(0, i as int);
            let ghost next = self@.subrange(0, i + 1);
            proof {
                assert(next =~= pre + seq![self@[i as int]]);
                assert(self@ =~= next + self@.subrange(i + 1, self@.len() as int));
                lemma_qblock_bytes_concat(next, self@.subrange(i + 1, self@.len() as int));
                lemma_qblock_bytes_concat(pre, seq![self@[i as int]]);
                let one = seq![self@[i as int]];
                assert(one.drop_first() =~= Seq::<QFrame>::empty());
                assert(qblock_bytes(one.drop_first()) =~= Seq::<u8>::empty());
                assert(qblock_bytes(one) =~= qframe_bytes(self@[i as int]));
            }
            self.frames[i].write(writer);
            proof {
                lemma_emit_emit(st, qblock_bytes(pre), qframe_bytes(self@[i as int]));
            }
            i = i + 1;
        }
        proof {
            assert(self@.subrange(0, self@.len() as int) =~= self@);
        }
    }

    /// The block with every frame decompressed.
    pub fn decompress(&self, qkeys: &StdKey) -> (r: QBlock)
        ensures
            r@.len() == self@.len(),
            forall|i: int| 0 <= i < self@.len() ==> r@[i] == qframe_decompressed(
                #[trigger] self@[i],
                qkeys@,
            ),
    {
        let mut frames: Vec<QFrame> = Vec::new();
        let mut i: usize = 0;
        while i < self.frames.len()
            invariant
                0 <= i <= self@.len(),
                frames@.len() == i,
                forall|j: int| 0 <= j < i ==> frames@[j] == qframe_decompressed(
                    #[trigger] self@[j],
                    qkeys@,
                ),
            decreases self@.len() - i,
        {
            frames.push(self.frames[i].decompress(qkeys));
            i = i + 1;
        }
        QBlock { frames }
    }

    /// The frames in the boned form.
    pub fn to_boned(&self, qkeys: &StdKey) -> (r: Vec<BonedQFrame>)
        ensures
            r@.len() == self@.len(),
            forall|i: int| 0 <= i < self@.len() ==> r@[i] == qframe_boned(
                #[trigger] self@[i],
                qkeys@,
            ),
    {
        let mut out: Vec<BonedQFrame> = Vec::new();
        let mut i: usize = 0;
        while i < self.frames.len()
            invariant
                0 <= i <= self@.len(),
                out@.len() == i,
                forall|j: int| 0 <= j < i ==> out@[j] == qframe_boned(#[trigger] self@[j], qkeys@),
            decreases self@.len() - i,
        {
            out.push(self.frames[i].to_boned(qkeys));
            i = i + 1;
        }
        out
    }

    /// The block made from frames in the boned form.
    pub fn from_boned(frames: &Vec<BonedQFrame>) -> (r: QBlock)
        ensures
            r@.len() == frames@.len(),
            forall|i: int| 0 <= i < frames@.len() ==> r@[i] == qframe_from_boned(
                #[trigger] frames@[i],
            ),
    {
        let mut out: Vec<QFrame> = Vec::new();
        let mut i: usize = 0;
        while i < frames.len()
            invariant
                0 <= i <= frames@.len(),
                out@.len() == i,
                forall|j: int| 0 <= j < i ==> out@[j] == qframe_from_boned(#[trigger] frames@[j]),
            decreases frames@.len() - i,
        {
            out.push(QFrame::from_boned(&frames[i]));
            i = i + 1;
        }
        QBlock { frames: out }
    }
}

// ---------------------------------------------------------------------------
// Translation blocks.

/// What reading translation frames from `p` while the position is before `end`
/// gives (the last frame may run past `end`).
pub open spec fn parse_tframes(s: Seq<u8>, p: int, end: int) -> Option<(Seq<TFrame>, int)>
    decreases dist(p, end),
{
    if p >= end {
        Some((Seq::empty(), p))
    } else {
        match tframe_at(s, p) {
            None => None,
            Some((f, q)) => if q <= p {
                None
            } else {
                prepend(seq![f], parse_tframes(s, q, end))
            },
        }
    }
}

/// The bytes of a block of translation frames: the frames one after the other.
pub open spec fn tblock_bytes(fs: Seq<TFrame>) -> Seq<u8>
    decreases fs.len(),
{
    if fs.len() == 0 {
        Seq::empty()
    } else {
        tframe_bytes(fs[0]) + tblock_bytes(fs.drop_first())
    }
}

/// Whether every frame of a block reads back as itself.
pub open spec fn tblock_fits(fs: Seq<TFrame>) -> bool {
    forall|i: int| 0 <= i < fs.len() ==> tframe_fits(#[trigger] fs[i])
}

/// A block of translation frames.
#[derive(Debug)]
pub struct TBlock {
    pub frames: Vec<TFrame>,
}

impl View for TBlock {
    type V = Seq<TFrame>;

    open spec fn view(&self) -> Seq<TFrame> {
        self.frames@
    }
}

pub proof fn lemma_tblock_bytes_concat(a: Seq<TFrame>, b: Seq<TFrame>)
    ensures
        tblock_bytes(a + b) == tblock_bytes(a) + tblock_bytes(b),
    decreases a.len(),
{
    if a.len() == 0 {
        assert(a + b =~= b);
        assert(tblock_bytes(a) + tblock_bytes(b) =~= tblock_bytes(b));
    } else {
        assert((a + b).drop_first() =~= a.drop_first() + b);
        lemma_tblock_bytes_concat(a.drop_first(), b);
        assert(tblock_bytes(a + b) =~= tblock_bytes(a) + tblock_bytes(b));
    }
}

/// A block of translation frames takes at least two bytes per frame.
pub proof fn lemma_tblock_bytes_len(fs: Seq<TFrame>)
    ensures
        tblock_bytes(fs).len() >= 2 * fs.len(),
    decreases fs.len(),
{
    if fs.len() > 0 {
        lemma_tframe_bytes_len(fs[0]);
        lemma_tblock_bytes_len(fs.drop_first());
    }
}

/// Reading back the bytes of a block whose frames, up to
/// the end of the block, gives the frames.
pub proof fn lemma_tframes_round_trip(fs: Seq<TFrame>, front: Seq<u8>, rest: Seq<u8>)
    requires
        tblock_fits(fs),
    ensures
        parse_tframes(
            front + tblock_bytes(fs) + rest,
            front.len() as int,
            (front.len() + tblock_bytes(fs).len()) as int
        ) == Some((fs, (front.len() + tblock_bytes(fs).len()) as int)),
    decreases fs.len(),
{
    let s = front + tblock_bytes(fs) + rest;
    let f = front.len() as int;
    let end = f + tblock_bytes(fs).len();
    if fs.len() > 0 {
        let fb = tframe_bytes(fs[0]);
        let tail = fs.drop_first();
        let tb = tblock_bytes(tail);
        assert(tframe_fits(fs[0]));
        lemma_tframe_bytes_len(fs[0]);
        assert(s =~= front + fb + (tb + rest));
        lemma_tframe_round_trip(fs[0], front, tb + rest);
        assert(tblock_fits(tail)) by {
            assert forall|i: int| 0 <= i < tail.len() implies tframe_fits(#[trigger] tail[i]) by {
                assert(tail[i] == fs[i + 1]);
            }
        }
        assert(s =~= (front + fb) + tb + rest);
        lemma_tframes_round_trip(tail, front + fb, rest);
        assert(seq![fs[0]] + tail =~= fs);
    } else {
        assert(fs =~= Seq::<TFrame>::empty());
    }
}

/// Translation frames read from bytes, and their bytes are the
/// bytes read.
pub proof fn lemma_tframes_bytes_of(s: Seq<u8>, p: int, end: int)
    ensures
        parse_tframes(s, p, end) matches Some((fs, q)) ==> tblock_fits(fs) && q == p
            + tblock_bytes(fs).len() && (p >= end ==> fs.len() == 0 && q == p) && (p < end ==> q
            >= end && 0 <= p && q <= s.len() && tblock_bytes(fs) == s.subrange(p, q)),
    decreases dist(p, end),
{
    if p < end {
        if let Some((fs, q)) = parse_tframes(s, p, end) {
            let (f, q1) = tframe_at(s, p)->Some_0;
            lemma_tframe_bytes_of(s, p);
            lemma_tframes_bytes_of(s, q1, end);
            let (rest, r) = parse_tframes(s, q1, end)->Some_0;
            assert(fs == seq![f] + rest);
            assert(fs.drop_first() =~= rest);
            assert(fs[0] == f);
            assert forall|i: int| 0 <= i < fs.len() implies tframe_fits(#[trigger] fs[i]) by {
                if i > 0 {
                    assert(fs[i] == rest[i - 1]);
                }
            }
            if q1 >= end {
                assert(tblock_bytes(rest) =~= Seq::<u8>::empty());
                assert(tblock_bytes(fs) =~= s.subrange(p, q));
            } else {
                assert(tblock_bytes(fs) =~= s.subrange(p, q));
            }
        }
    }
}

impl TBlock {
    /// Reads translation frames while the position lies before the end of the
    /// block.
    pub fn read(reader: &mut ByteReader, block_size: u16) -> (r: Result<TBlock, IoError>)
        ensures
            final(reader)@.bytes == old(reader)@.bytes,
            match parse_tframes(
                old(reader)@.bytes,
                old(reader)@.pos,
                old(reader)@.pos + block_size
            ) {
                Some((fs, q)) => r is Ok && r->Ok_0@ == fs && final(reader)@.pos == q,
                None => r == Err::<TBlock, IoError>(IoError::UnexpectedEof),
            },
    {
        let ghost s = reader@.bytes;
        let ghost p = reader@.pos;
        let start = reader.stream_position();
        let end: u128 = start as u128 + block_size as u128;
        let mut frames: Vec<TFrame> = Vec::new();
        while (reader.stream_position() as u128) < end
            invariant
                reader@.bytes == s,
                s == old(reader)@.bytes,
                p == old(reader)@.pos,
                end == p + block_size,
                parse_tframes(s, p, end as int) == prepend(
                    frames@,
                    parse_tframes(s, reader@.pos, end as int),
                ),
            decreases dist(reader@.pos, end as int),
        {
            let ghost pos = reader@.pos;
            let f = TFrame::read(reader)?;
            proof {
                lemma_tframe_bytes_of(s, pos);
                lemma_tframe_bytes_len(f);
                let x = parse_tframes(s, reader@.pos, end as int);
                assert(parse_tframes(s, pos, end as int) == prepend(seq![f], x));
                match x {
                    Some((b, q)) => {
                        assert(frames@ + (seq![f] + b) =~= frames@.push(f) + b);
                    },
                    None => {},
                }
            }
            frames.push(f);
        }
        proof {
            assert(frames@ + Seq::<TFrame>::empty() =~= frames@);
        }
        Ok(TBlock { frames })
    }

    pub fn write(&self, writer: &mut ByteWriter)
        requires
            old(writer)@.pos + tblock_bytes(self@).len() <= usize::MAX,
        ensures
            final(writer)@ == old(writer)@.emit(tblock_bytes(self@)),
    {
        let ghost st = writer@;
        proof {
            lemma_writer_pos(*writer);
            assert(self@.subrange(0, 0) =~= Seq::<TFrame>::empty());
            lemma_emit_empty(st);
        }
        let mut i: usize = 0;
        while i < self.frames.len()
            invariant
                0 <= i <= self@.len(),
                st.pos >= 0,
                st.pos + tblock_bytes(self@).len() <= usize::MAX,
                writer@ == st.emit(tblock_bytes(self@.subrange(0, i as int))),
                writer@.pos == st.pos + tblock_bytes(self@.subrange(0, i as int)).len(),
            decreases self@.len() - i,
        {
            let ghost pre = self@.subrange(0, i as int);
            let ghost next = self@.subrange(0, i + 1);
            proof {
                assert(next =~= pre + seq![self@[i as int]]);
                assert(self@ =~= next + self@.subrange(i + 1, self@.len() as int));
                lemma_tblock_bytes_concat(next, self@.subrange(i + 1, self@.len() as int));
                lemma_tblock_bytes_concat(pre, seq![self@[i as int]]);
                let one = seq![self@[i as int]];
                assert(one.drop_first() =~= Seq::<TFrame>::empty());
                assert(tblock_bytes(one.drop_first()) =~= Seq::<u8>::empty());
                assert(tblock_bytes(one) =~= tframe_bytes(self@[i as int]));
            }
            self.frames[i].write(writer);
            proof {
                lemma_emit_emit(st, tblock_bytes(pre), tframe_bytes(self@[i as int]));
            }
            i = i + 1;
        }
        proof {
            assert(self@.subrange(0, self@.len() as int) =~= self@);
        }
    }

    /// The block with every frame decompressed.
    pub fn decompress(&self, tkeys: &StdKey) -> (r: TBlock)
        ensures
            r@.len() == self@.len(),
            forall|i: int| 0 <= i < self@.len() ==> r@[i] == tframe_decompressed(
                #[trigger] self@[i],
                tkeys@,
            ),
    {
        let mut frames: Vec<TFrame> = Vec::new();
        let mut i: usize = 0;
        while i < self.frames.len()
            invariant
                0 <= i <= self@.len(),
                frames@.len() == i,
                forall|j: int| 0 <= j < i ==> frames@[j] == tframe_decompressed(
                    #[trigger] self@[j],
                    tkeys@,
                ),
            decreases self@.len() - i,
        {
            frames.push(self.frames[i].decompress(tkeys));
            i = i + 1;
        }
        TBlock { frames }
    }

    /// The frames in the boned form.
    pub fn to_boned(&self, tkeys: &StdKey) -> (r: Vec<BonedTFrame>)
        ensures
            r@.len() == self@.len(),
            forall|i: int| 0 <= i < self@.len() ==> r@[i] == tframe_boned(
                #[trigger] self@[i],
                tkeys@,
            ),
    {
        let mut out: Vec<BonedTFrame> = Vec::new();
        let mut i: usize = 0;
        while i < self.frames.len()
            invariant
                0 <= i <= self@.len(),
                out@.len() == i,
                forall|j: int| 0 <= j < i ==> out@[j] == tframe_boned(#[trigger] self@[j], tkeys@),
            decreases self@.len() - i,
        {
            out.push(self.frames[i].to_boned(tkeys));
            i = i + 1;
        }
        out
    }

    /// The block made from frames in the boned form.
    pub fn from_boned(frames: &Vec<BonedTFrame>) -> (r: TBlock)
        ensures
            r@.len() == frames@.len(),
            forall|i: int| 0 <= i < frames@.len() ==> r@[i] == tframe_from_boned(
                #[trigger] frames@[i],
            ),
    {
        let mut out: Vec<TFrame> = Vec::new();
        let mut i: usize = 0;
        while i < frames.len()
            invariant
                0 <= i <= frames@.len(),
                out@.len() == i,
                forall|j: int| 0 <= j < i ==> out@[j] == tframe_from_boned(#[trigger] frames@[j]),
            decreases frames@.len() - i,
        {
            out.push(TFrame::from_boned(&frames[i]));
            i = i + 1;
        }
        TBlock { frames: out }
    }
}

// ---------------------------------------------------------------------------
// The blocks of all bones.

/// What reading one block of rotation frames per size gives, each block starting
/// where the one before it stopped.
pub open spec fn parse_qblocks(s: Seq<u8>, p: int, sizes: Seq<u16>, hf: u32) -> Option<
    (Seq<Seq<QFrame>>, int),
>
    decreases sizes.len(),
{
    if sizes.len() == 0 {
        Some((Seq::empty(), p))
    } else {
        match parse_qframes(s, p, p + sizes[0], hf) {
            None => None,
            Some((fs, q)) => prepend(seq![fs], parse_qblocks(s, q, sizes.drop_first(), hf)),
        }
    }
}

/// What reading one block of translation frames per size gives.
pub open spec fn parse_tblocks(s: Seq<u8>, p: int, sizes: Seq<u16>) -> Option<
    (Seq<Seq<TFrame>>, int),
>
    decreases sizes.len(),
{
    if sizes.len() == 0 {
        Some((Seq::empty(), p))
    } else {
        match parse_tframes(s, p, p + sizes[0]) {
            None => None,
            Some((fs, q)) => prepend(seq![fs], parse_tblocks(s, q, sizes.drop_first())),
        }
    }
}

pub open spec fn qblocks_bytes(bs: Seq<Seq<QFrame>>) -> Seq<u8>
    decreases bs.len(),
{
    if bs.len() == 0 {
        Seq::empty()
    } else {
        qblock_bytes(bs[0]) + qblocks_bytes(bs.drop_first())
    }
}

pub open spec fn tblocks_bytes(bs: Seq<Seq<TFrame>>) -> Seq<u8>
    decreases bs.len(),
{
    if bs.len() == 0 {
        Seq::empty()
    } else {
        tblock_bytes(bs[0]) + tblocks_bytes(bs.drop_first())
    }
}

/// The number of frames in all the blocks.
pub open spec fn qframes_total(bs: Seq<Seq<QFrame>>) -> nat
    decreases bs.len(),
{
    if bs.len() == 0 {
        0
    } else {
        bs[0].len() + qframes_total(bs.drop_first())
    }
}

pub open spec fn tframes_total(bs: Seq<Seq<TFrame>>) -> nat
    decreases bs.len(),
{
    if bs.len() == 0 {
        0
    } else {
        bs[0].len() + tframes_total(bs.drop_first())
    }
}

/// The size of each block as the header stores it, in 16 bits.
pub open spec fn qblock_sizes(bs: Seq<Seq<QFrame>>) -> Seq<u16> {
    Seq::new(bs.len(), |i: int| qblock_bytes(bs[i]).len() as u16)
}

pub open spec fn tblock_sizes(bs: Seq<Seq<TFrame>>) -> Seq<u16> {
    Seq::new(bs.len(), |i: int| tblock_bytes(bs[i]).len() as u16)
}

pub proof fn lemma_qblocks_concat(a: Seq<Seq<QFrame>>, b: Seq<Seq<QFrame>>)
    ensures
        qblocks_bytes(a + b) == qblocks_bytes(a) + qblocks_bytes(b),
        qframes_total(a + b) == qframes_total(a) + qframes_total(b),
    decreases a.len(),
{
    if a.len() == 0 {
        assert(a + b =~= b);
        assert(qblocks_bytes(a) + qblocks_bytes(b) =~= qblocks_bytes(b));
    } else {
        assert((a + b).drop_first() =~= a.drop_first() + b);
        lemma_qblocks_concat(a.drop_first(), b);
        assert(qblocks_bytes(a + b) =~= qblocks_bytes(a) + qblocks_bytes(b));
    }
}

pub proof fn lemma_tblocks_concat(a: Seq<Seq<TFrame>>, b: Seq<Seq<TFrame>>)
    ensures
        tblocks_bytes(a + b) == tblocks_bytes(a) + tblocks_bytes(b),
        tframes_total(a + b) == tframes_total(a) + tframes_total(b),
    decreases a.len(),
{
    if a.len() == 0 {
        assert(a + b =~= b);
        assert(tblocks_bytes(a) + tblocks_bytes(b) =~= tblocks_bytes(b));
    } else {
        assert((a + b).drop_first() =~= a.drop_first() + b);
        lemma_tblocks_concat(a.drop_first(), b);
        assert(tblocks_bytes(a + b) =~= tblocks_bytes(a) + tblocks_bytes(b));
    }
}

pub proof fn lemma_qblocks_one(b: Seq<QFrame>)
    ensures
        qblocks_bytes(seq![b]) == qblock_bytes(b),
        qframes_total(seq![b]) == b.len(),
{
    let one = seq![b];
    assert(one.drop_first() =~= Seq::<Seq<QFrame>>::empty());
    assert(qblocks_bytes(one.drop_first()) =~= Seq::<u8>::empty());
    assert(qframes_total(one.drop_first()) == 0);
    assert(qblocks_bytes(one) =~= qblock_bytes(b));
}

pub proof fn lemma_tblocks_one(b: Seq<TFrame>)
    ensures
        tblocks_bytes(seq![b]) == tblock_bytes(b),
        tframes_total(seq![b]) == b.len(),
{
    let one = seq![b];
    assert(one.drop_first() =~= Seq::<Seq<TFrame>>::empty());
    assert(tblocks_bytes(one.drop_first()) =~= Seq::<u8>::empty());
    assert(tframes_total(one.drop_first()) == 0);
    assert(tblocks_bytes(one) =~= tblock_bytes(b));
}

/// There are no more frames than bytes.
pub proof fn lemma_qframes_total_le(bs: Seq<Seq<QFrame>>)
    ensures
        qframes_total(bs) <= qblocks_bytes(bs).len(),
    decreases bs.len(),
{
    if bs.len() > 0 {
        lemma_qblock_bytes_len(bs[0]);
        lemma_qframes_total_le(bs.drop_first());
    }
}

pub proof fn lemma_tframes_total_le(bs: Seq<Seq<TFrame>>)
    ensures
        tframes_total(bs) <= tblocks_bytes(bs).len(),
    decreases bs.len(),
{
    if bs.len() > 0 {
        lemma_tblock_bytes_len(bs[0]);
        lemma_tframes_total_le(bs.drop_first());
    }
}

// ---------------------------------------------------------------------------
// The animation.

pub struct AnimationV {
    pub header: HeaderV,
    pub q_blocks: Seq<Seq<QFrame>>,
    pub t_blocks: Seq<Seq<TFrame>>,
}

/// A THUG2 animation: its header, and the rotation and translation blocks of
/// its bones.
#[derive(Debug)]
pub struct Animation {
    header: Header,
    q_blocks: Vec<QBlock>,
    t_blocks: Vec<TBlock>,
}

pub open spec fn qblocks_view(bs: Seq<QBlock>) -> Seq<Seq<QFrame>> {
    Seq::new(bs.len(), |i: int| bs[i]@)
}

pub open spec fn tblocks_view(bs: Seq<TBlock>) -> Seq<Seq<TFrame>> {
    Seq::new(bs.len(), |i: int| bs[i]@)
}

impl View for Animation {
    type V = AnimationV;

    closed spec fn view(&self) -> AnimationV {
        AnimationV {
            header: self.header@,
            q_blocks: qblocks_view(self.q_blocks@),
            t_blocks: tblocks_view(self.t_blocks@),
        }
    }
}

/// An animation whose header lists one block size per block, so that its header
/// keeps its length when it is written again with the sizes of its blocks.
pub open spec fn animation_wf(v: AnimationV) -> bool {
    &&& v.header.q_block_sizes.len() == v.q_blocks.len()
    &&& v.header.t_block_sizes.len() == v.t_blocks.len()
}

/// What reading an animation at `p` gives: the header, then the rotation blocks
/// of the sizes it lists, then the translation blocks.
pub open spec fn parse_animation(s: Seq<u8>, p: int) -> Option<(AnimationV, int)> {
    match parse_header(s, p) {
        None => None,
        Some((h, p1)) => match parse_qblocks(s, p1, h.q_block_sizes, h.flags) {
            None => None,
            Some((qb, p2)) => match parse_tblocks(s, p2, h.t_block_sizes) {
                None => None,
                Some((tb, p3)) => Some((AnimationV { header: h, q_blocks: qb, t_blocks: tb }, p3)),
            },
        },
    }
}

/// The header that writing an animation stores: the frame counts, block sizes
/// and allocation sizes of its blocks, and the rest of its own header.
pub open spec fn written_header(v: AnimationV) -> HeaderV {
    HeaderV {
        version: v.header.version,
        flags: v.header.flags,
        duration: v.header.duration,
        num_bones: v.header.num_bones,
        num_q_keys: qframes_total(v.q_blocks) as u32,
        num_t_keys: tframes_total(v.t_blocks) as u32,
        num_custom_anim_keys: v.header.num_custom_anim_keys,
        q_alloc_size: qblocks_bytes(v.q_blocks).len() as u32,
        t_alloc_size: tblocks_bytes(v.t_blocks).len() as u32,
        q_block_sizes: qblock_sizes(v.q_blocks),
        t_block_sizes: tblock_sizes(v.t_blocks),
    }
}

/// The animation as it reads back after being written: its header recomputed.
pub open spec fn rewritten(v: AnimationV) -> AnimationV {
    AnimationV { header: written_header(v), q_blocks: v.q_blocks, t_blocks: v.t_blocks }
}

/// The number of zero bytes that align a file ending at `end` to four bytes for
/// the game: THUG and THUG2 files are padded, THPS4 files are not.
pub open spec fn padding(end: int, game: Game) -> nat {
    match game {
        Game::THPS4 => 0,
        _ => if end % 4 == 0 {
            0
        } else {
            (4 - end % 4) as nat
        },
    }
}

pub open spec fn zeros(n: nat) -> Seq<u8> {
    Seq::new(n, |i: int| 0u8)
}

/// The bytes written for an animation at position `p`: the recomputed header,
/// the blocks, and the padding.
#[verifier::opaque]
pub open spec fn animation_bytes(v: AnimationV, game: Game, p: int) -> Seq<u8> {
    let blocks = qblocks_bytes(v.q_blocks) + tblocks_bytes(v.t_blocks);
    header_bytes(written_header(v)) + blocks + zeros(
        padding(p + header_bytes(v.header).len() + blocks.len(), game),
    )
}

impl Animation {
    #[verifier::type_invariant]
    closed spec fn inv(self) -> bool {
        animation_wf(self@)
    }

    /// Reads the header, then one rotation block per rotation block size and
    /// one translation block per translation block size.
    pub fn read(reader: &mut ByteReader) -> (r: Result<Animation, IoError>)
        ensures
            final(reader)@.bytes == old(reader)@.bytes,
            match parse_animation(old(reader)@.bytes, old(reader)@.pos) {
                Some((v, q)) => r is Ok && r->Ok_0@ == v && final(reader)@.pos == q,
                None => r == Err::<Animation, IoError>(IoError::UnexpectedEof),
            },
    {
        let ghost s = reader@.bytes;
        let ghost p0 = reader@.pos;
        let header = Header::read(reader)?;
        let hf = header.flags;
        let ghost p1 = reader@.pos;
        let ghost qs = header.q_block_sizes@;
        let ghost ts = header.t_block_sizes@;
        let mut q_blocks: Vec<QBlock> = Vec::new();
        let mut i: usize = 0;
        proof {
            assert(qs.subrange(0, qs.len() as int) =~= qs);
            assert(qblocks_view(q_blocks@) + Seq::<Seq<QFrame>>::empty() =~= qblocks_view(q_blocks@));
        }
        while i < header.q_block_sizes.len()
            invariant
                reader@.bytes == s,
                s == old(reader)@.bytes,
                p0 == old(reader)@.pos,
                parse_header(s, p0) == Some((header@, p1)),
                0 <= i <= qs.len(),
                qs == header.q_block_sizes@,
                hf == header.flags,
                q_blocks@.len() == i,
                parse_qblocks(s, p1, qs, hf) == prepend(
                    qblocks_view(q_blocks@),
                    parse_qblocks(s, reader@.pos, qs.subrange(i as int, qs.len() as int), hf),
                ),
            decreases qs.len() - i,
        {
            let ghost pos = reader@.pos;
            let ghost rest = qs.subrange(i as int, qs.len() as int);
            let block = QBlock::read(reader, header.q_block_sizes[i], hf)?;
            proof {
                assert(rest.drop_first() =~= qs.subrange(i + 1, qs.len() as int));
                let x = parse_qblocks(s, reader@.pos, rest.drop_first(), hf);
                let before = qblocks_view(q_blocks@);
                assert(qblocks_view(q_blocks@.push(block)) =~= before.push(block@));
                match x {
                    Some((b, q)) => {
                        assert(before + (seq![block@] + b) =~= before.push(block@) + b);
                    },
                    None => {},
                }
            }
            q_blocks.push(block);
            i = i + 1;
        }
        let ghost p2 = reader@.pos;
        let mut t_blocks: Vec<TBlock> = Vec::new();
        let mut j: usize = 0;
        proof {
            assert(qs.subrange(qs.len() as int, qs.len() as int) =~= Seq::<u16>::empty());
            assert(qblocks_view(q_blocks@) + Seq::<Seq<QFrame>>::empty() =~= qblocks_view(q_blocks@));
            assert(ts.subrange(0, ts.len() as int) =~= ts);
            assert(tblocks_view(t_blocks@) + Seq::<Seq<TFrame>>::empty() =~= tblocks_view(t_blocks@));
        }
        while j < header.t_block_sizes.len()
            invariant
                reader@.bytes == s,
                s == old(reader)@.bytes,
                p0 == old(reader)@.pos,
                parse_header(s, p0) == Some((header@, p1)),
                qs == header.q_block_sizes@,
                hf == header.flags,
                q_blocks@.len() == qs.len(),
                parse_qblocks(s, p1, qs, hf) == Some((qblocks_view(q_blocks@), p2)),
                0 <= j <= ts.len(),
                ts == header.t_block_sizes@,
                t_blocks@.len() == j,
                parse_tblocks(s, p2, ts) == prepend(
                    tblocks_view(t_blocks@),
                    parse_tblocks(s, reader@.pos, ts.subrange(j as int, ts.len() as int)),
                ),
            decreases ts.len() - j,
        {
            let ghost rest = ts.subrange(j as int, ts.len() as int);
            let block = TBlock::read(reader, header.t_block_sizes[j])?;
            proof {
                assert(rest.drop_first() =~= ts.subrange(j + 1, ts.len() as int));
                let x = parse_tblocks(s, reader@.pos, rest.drop_first());
                let before = tblocks_view(t_blocks@);
                assert(tblocks_view(t_blocks@.push(block)) =~= before.push(block@));
                match x {
                    Some((b, q)) => {
                        assert(before + (seq![block@] + b) =~= before.push(block@) + b);
                    },
                    None => {},
                }
            }
            t_blocks.push(block);
            j = j + 1;
        }
        proof {
            assert(ts.subrange(ts.len() as int, ts.len() as int) =~= Seq::<u16>::empty());
            assert(tblocks_view(t_blocks@) + Seq::<Seq<TFrame>>::empty() =~= tblocks_view(t_blocks@));
        }
        Ok(Animation { header, q_blocks, t_blocks })
    }
}

impl Animation {
    /// Writes the header, the blocks and, for THUG and THUG2, zeros up to a
    /// multiple of four bytes; then goes back and writes the header again with
    /// the frame counts and sizes of the blocks written, which leaves the
    /// position at the end of the header.
    pub fn write(&self, writer: &mut ByteWriter, ctx: &mut WriteContext)
        requires
            old(writer)@.pos + header_bytes(self@.header).len() + qblocks_bytes(
                self@.q_blocks,
            ).len() + tblocks_bytes(self@.t_blocks).len() + 3 <= usize::MAX,
        ensures
            *final(ctx) == *old(ctx),
            final(writer)@ == (WriteState {
                bytes: old(writer)@.emit(
                    animation_bytes(self@, old(ctx).game, old(writer)@.pos),
                ).bytes,
                pos: old(writer)@.pos + header_bytes(written_header(self@)).len(),
            }),
    {
        proof {
            use_type_invariant(self);
            lemma_writer_pos(*writer);
        }
        let ghost st = writer@;
        let ghost v = self@;
        let ghost hb = header_bytes(v.header);
        let ghost qa = v.q_blocks;
        let ghost ta = v.t_blocks;
        let ghost qall = qblocks_bytes(qa);
        let ghost tall = tblocks_bytes(ta);
        proof {
            lemma_header_bytes_len(v.header);
        }
        let header_position = writer.stream_position();
        self.header.write(writer);
        let mut num_q_frames: usize = 0;
        let q_blocks_start = writer.stream_position();
        let mut q_block_sizes: Vec<u16> = Vec::new();
        let mut i: usize = 0;
        proof {
            assert(qa.subrange(0, 0) =~= Seq::<Seq<QFrame>>::empty());
            assert(hb + qblocks_bytes(qa.subrange(0, 0)) =~= hb);
            assert(q_block_sizes@ =~= qblock_sizes(qa.subrange(0, 0)));
        }
        while i < self.q_blocks.len()
            invariant
                0 <= i <= qa.len(),
                qa == qblocks_view(self.q_blocks@),
                st.pos >= 0,
                st.pos + hb.len() + qall.len() + tall.len() + 3 <= usize::MAX,
                qall == qblocks_bytes(qa),
                writer@ == st.emit(hb + qblocks_bytes(qa.subrange(0, i as int))),
                q_blocks_start == st.pos + hb.len(),
                num_q_frames == qframes_total(qa.subrange(0, i as int)),
                q_block_sizes@ == qblock_sizes(qa.subrange(0, i as int)),
            decreases qa.len() - i,
        {
            let ghost pre = qa.subrange(0, i as int);
            let ghost b = qa[i as int];
            let ghost next = qa.subrange(0, i + 1);
            proof {
                assert(next =~= pre + seq![b]);
                assert(qa =~= next + qa.subrange(i + 1, qa.len() as int));
                lemma_qblocks_concat(next, qa.subrange(i + 1, qa.len() as int));
                lemma_qblocks_concat(pre, seq![b]);
                lemma_qblocks_one(b);
                lemma_qframes_total_le(next);
            }
            let block_start = writer.stream_position();
            self.q_blocks[i].write(writer);
            let block_end = writer.stream_position();
            proof {
                lemma_emit_emit(st, hb + qblocks_bytes(pre), qblock_bytes(b));
                assert(hb + qblocks_bytes(pre) + qblock_bytes(b) =~= hb + qblocks_bytes(next));
            }
            q_block_sizes.push((block_end - block_start) as u16);
            num_q_frames = num_q_frames + self.q_blocks[i].frames.len();
            i = i + 1;
            proof {
                assert(q_block_sizes@ =~= qblock_sizes(next));
            }
        }
        proof {
            assert(qa.subrange(0, qa.len() as int) =~= qa);
        }
        let q_blocks_end = writer.stream_position();
        let mut num_t_frames: usize = 0;
        let t_blocks_start = writer.stream_position();
        let mut t_block_sizes: Vec<u16> = Vec::new();
        let mut j: usize = 0;
        proof {
            assert(ta.subrange(0, 0) =~= Seq::<Seq<TFrame>>::empty());
            assert(hb + qall + tblocks_bytes(ta.subrange(0, 0)) =~= hb + qall);
            assert(t_block_sizes@ =~= tblock_sizes(ta.subrange(0, 0)));
        }
        while j < self.t_blocks.len()
            invariant
                0 <= j <= ta.len(),
                ta == tblocks_view(self.t_blocks@),
                st.pos >= 0,
                st.pos + hb.len() + qall.len() + tall.len() + 3 <= usize::MAX,
                tall == tblocks_bytes(ta),
                writer@ == st.emit(hb + qall + tblocks_bytes(ta.subrange(0, j as int))),
                t_blocks_start == st.pos + hb.len() + qall.len(),
                num_t_frames == tframes_total(ta.subrange(0, j as int)),
                t_block_sizes@ == tblock_sizes(ta.subrange(0, j as int)),
            decreases ta.len() - j,
        {
            let ghost pre = ta.subrange(0, j as int);
            let ghost b = ta[j as int];
            let ghost next = ta.subrange(0, j + 1);
            proof {
                assert(next =~= pre + seq![b]);
                assert(ta =~= next + ta.subrange(j + 1, ta.len() as int));
                lemma_tblocks_concat(next, ta.subrange(j + 1, ta.len() as int));
                lemma_tblocks_concat(pre, seq![b]);
                lemma_tblocks_one(b);
                lemma_tframes_total_le(next);
            }
            let block_start = writer.stream_position();
            self.t_blocks[j].write(writer);
            let block_end = writer.stream_position();
            proof {
                lemma_emit_emit(st, hb + qall + tblocks_bytes(pre), tblock_bytes(b));
                assert(hb + qall + tblocks_bytes(pre) + tblock_bytes(b) =~= hb + qall
                    + tblocks_bytes(next));
            }
            t_block_sizes.push((block_end - block_start) as u16);
            num_t_frames = num_t_frames + self.t_blocks[j].frames.len();
            j = j + 1;
            proof {
                assert(t_block_sizes@ =~= tblock_sizes(next));
            }
        }
        proof {
            assert(ta.subrange(0, ta.len() as int) =~= ta);
        }
        let t_blocks_end = writer.stream_position();
        let ghost body = hb + qall + tall;
        let ghost pad = padding(st.pos + body.len(), ctx.game);
        match ctx.game {
            Game::THUG | Game::THUG2 => {
                let num_bytes = writer.stream_position();
                let unaligned = num_bytes % 4;
                if unaligned > 0 {
                    let mut k: usize = unaligned;
                    proof {
                        assert(body + zeros(0) =~= body);
                    }
                    while k < 4
                        invariant
                            0 < unaligned <= k <= 4,
                            unaligned == (st.pos + body.len()) % 4,
                            st.pos >= 0,
                            st.pos + body.len() + 3 <= usize::MAX,
                            writer@ == st.emit(body + zeros((k - unaligned) as nat)),
                        decreases 4 - k,
                    {
                        let ghost z = zeros((k - unaligned) as nat);
                        writer.write_u8(0);
                        proof {
                            lemma_emit_emit(st, body + z, seq![0u8]);
                            assert(body + z + seq![0u8] =~= body + zeros((k + 1 - unaligned) as nat));
                        }
                        k = k + 1;
                    }
                } else {
                    proof {
                        assert(body + zeros(0) =~= body);
                    }
                }
            },
            Game::THPS4 => {
                proof {
                    assert(body + zeros(0) =~= body);
                }
            },
        }
        let header = Header {
            version: self.header.version,
            flags: self.header.flags,
            duration: self.header.duration,
            num_bones: self.header.num_bones,
            num_q_keys: num_q_frames as u32,
            num_t_keys: num_t_frames as u32,
            num_custom_anim_keys: self.header.num_custom_anim_keys,
            q_alloc_size: (q_blocks_end - q_blocks_start) as u32,
            t_alloc_size: (t_blocks_end - t_blocks_start) as u32,
            q_block_sizes,
            t_block_sizes,
        };
        proof {
            reveal(animation_bytes);
            assert(header@ == written_header(v));
            lemma_header_bytes_len(header@);
            assert(body + zeros(pad) =~= hb + (qall + tall + zeros(pad)));
            lemma_emit_overwrite(st, hb, header_bytes(header@), qall + tall + zeros(pad));
            assert(header_bytes(header@) + (qall + tall + zeros(pad)) =~= animation_bytes(
                v,
                ctx.game,
                st.pos,
            ));
        }
        writer.seek(header_position);
        header.write(writer);
    }
}

/// An animation with every frame decompressed; its header is kept as it is.
pub open spec fn animation_decompressed(v: AnimationV, qk: Seq<Key>, tk: Seq<Key>) -> AnimationV {
    AnimationV {
        header: v.header,
        q_blocks: Seq::new(
            v.q_blocks.len(),
            |i: int| Seq::new(v.q_blocks[i].len(), |j: int| qframe_decompressed(v.q_blocks[i][j], qk)),
        ),
        t_blocks: Seq::new(
            v.t_blocks.len(),
            |i: int| Seq::new(v.t_blocks[i].len(), |j: int| tframe_decompressed(v.t_blocks[i][j], tk)),
        ),
    }
}

/// An animation in the boned form: one bone per bone of the header, each with
/// the frames of its blocks, or none where the animation has no block for it.
pub open spec fn animation_boned(v: AnimationV, qk: Seq<Key>, tk: Seq<Key>) -> boned::AnimationV {
    boned::AnimationV {
        duration: v.header.duration,
        bones: Seq::new(
            v.header.num_bones as nat,
            |i: int|
                boned::AnimBoneV {
                    q_frames: if i < v.q_blocks.len() {
                        Seq::new(v.q_blocks[i].len(), |j: int| qframe_boned(v.q_blocks[i][j], qk))
                    } else {
                        Seq::empty()
                    },
                    t_frames: if i < v.t_blocks.len() {
                        Seq::new(v.t_blocks[i].len(), |j: int| tframe_boned(v.t_blocks[i][j], tk))
                    } else {
                        Seq::empty()
                    },
                },
        ),
    }
}

/// The flags of an animation made from the boned form.
pub open spec fn boned_flags() -> u32 {
    PRE_ROTATED_ROOT | COMPRESSED_TIME | USE_COMPRESS_TABLE | KEEP_MISSING_BONE_POS
}

/// The animation made from one in the boned form: a block of each kind per
/// bone, and a header whose counts and sizes are left to be computed when it is
/// written.
pub open spec fn animation_from_boned(b: boned::AnimationV) -> AnimationV {
    let n = b.bones.len();
    AnimationV {
        header: HeaderV {
            version: HEADER_VERSION,
            flags: boned_flags(),
            duration: b.duration,
            num_bones: n as u32,
            num_q_keys: 0,
            num_t_keys: 0,
            num_custom_anim_keys: 0,
            q_alloc_size: 0,
            t_alloc_size: 0,
            q_block_sizes: Seq::new(n, |i: int| 0u16),
            t_block_sizes: Seq::new(n, |i: int| 0u16),
        },
        q_blocks: Seq::new(
            n,
            |i: int|
                Seq::new(
                    b.bones[i].q_frames.len(),
                    |j: int| qframe_from_boned(b.bones[i].q_frames[j]),
                ),
        ),
        t_blocks: Seq::new(
            n,
            |i: int|
                Seq::new(
                    b.bones[i].t_frames.len(),
                    |j: int| tframe_from_boned(b.bones[i].t_frames[j]),
                ),
        ),
    }
}

fn zero_sizes(n: usize) -> (r: Vec<u16>)
    ensures
        r@ == Seq::new(n as nat, |i: int| 0u16),
{
    let mut v: Vec<u16> = Vec::new();
    let mut i: usize = 0;
    while i < n
        invariant
            0 <= i <= n,
            v@ == Seq::new(i as nat, |k: int| 0u16),
        decreases n - i,
    {
        v.push(0);
        i = i + 1;
        proof {
            assert(v@ =~= Seq::new(i as nat, |k: int| 0u16));
        }
    }
    v
}

impl Animation {
    /// The animation with every frame decompressed, its keys looked up in the
    /// standard key tables.
    pub fn decompress(&self, qkeys: &StdKey, tkeys: &StdKey) -> (r: Animation)
        ensures
            r@ == animation_decompressed(self@, qkeys@, tkeys@),
    {
        proof {
            use_type_invariant(self);
        }
        let ghost v = self@;
        let mut q_blocks: Vec<QBlock> = Vec::new();
        let mut i: usize = 0;
        while i < self.q_blocks.len()
            invariant
                0 <= i <= v.q_blocks.len(),
                v == self@,
                v.q_blocks == qblocks_view(self.q_blocks@),
                q_blocks@.len() == i,
                forall|k: int| 0 <= k < i ==> #[trigger] q_blocks@[k]@ == Seq::new(
                    v.q_blocks[k].len(),
                    |j: int| qframe_decompressed(v.q_blocks[k][j], qkeys@),
                ),
            decreases v.q_blocks.len() - i,
        {
            let b = self.q_blocks[i].decompress(qkeys);
            proof {
                assert(b@ =~= Seq::new(
                    v.q_blocks[i as int].len(),
                    |j: int| qframe_decompressed(v.q_blocks[i as int][j], qkeys@),
                ));
            }
            q_blocks.push(b);
            i = i + 1;
        }
        let mut t_blocks: Vec<TBlock> = Vec::new();
        let mut i: usize = 0;
        while i < self.t_blocks.len()
            invariant
                0 <= i <= v.t_blocks.len(),
                v == self@,
                v.t_blocks == tblocks_view(self.t_blocks@),
                t_blocks@.len() == i,
                forall|k: int| 0 <= k < i ==> #[trigger] t_blocks@[k]@ == Seq::new(
                    v.t_blocks[k].len(),
                    |j: int| tframe_decompressed(v.t_blocks[k][j], tkeys@),
                ),
            decreases v.t_blocks.len() - i,
        {
            let b = self.t_blocks[i].decompress(tkeys);
            proof {
                assert(b@ =~= Seq::new(
                    v.t_blocks[i as int].len(),
                    |j: int| tframe_decompressed(v.t_blocks[i as int][j], tkeys@),
                ));
            }
            t_blocks.push(b);
            i = i + 1;
        }
        let r = Animation { header: self.header.copy(), q_blocks, t_blocks };
        proof {
            assert(r@.q_blocks =~= animation_decompressed(v, qkeys@, tkeys@).q_blocks);
            assert(r@.t_blocks =~= animation_decompressed(v, qkeys@, tkeys@).t_blocks);
        }
        r
    }

    /// The animation in the boned form.
    pub fn to_boned(&self, qkeys: &StdKey, tkeys: &StdKey) -> (r: boned::Animation)
        ensures
            r@ == animation_boned(self@, qkeys@, tkeys@),
    {
        let ghost v = self@;
        let ghost want = animation_boned(v, qkeys@, tkeys@);
        let n = self.header.num_bones;
        let mut bones: Vec<boned::AnimBone> = Vec::new();
        let mut i: u32 = 0;
        while i < n
            invariant
                0 <= i <= n,
                n == v.header.num_bones,
                v == self@,
                v.q_blocks == qblocks_view(self.q_blocks@),
                v.t_blocks == tblocks_view(self.t_blocks@),
                want == animation_boned(v, qkeys@, tkeys@),
                bones@.len() == i,
                forall|k: int| 0 <= k < i ==> #[trigger] bones@[k]@ == want.bones[k],
            decreases n - i,
        {
            let idx = i as usize;
            let q_frames = if idx < self.q_blocks.len() {
                self.q_blocks[idx].to_boned(qkeys)
            } else {
                Vec::new()
            };
            let t_frames = if idx < self.t_blocks.len() {
                self.t_blocks[idx].to_boned(tkeys)
            } else {
                Vec::new()
            };
            let bone = boned::AnimBone { q_frames, t_frames };
            proof {
                assert(bone@.q_frames =~= want.bones[i as int].q_frames);
                assert(bone@.t_frames =~= want.bones[i as int].t_frames);
            }
            bones.push(bone);
            i = i + 1;
        }
        let r = boned::Animation { duration: self.header.duration, bones };
        proof {
            assert(r@.bones =~= want.bones);
        }
        r
    }

    /// The animation made from one in the boned form.
    pub fn from_boned(animation: &boned::Animation) -> (r: Animation)
        ensures
            r@ == animation_from_boned(animation@),
    {
        let ghost b = animation@;
        let ghost want = animation_from_boned(b);
        let n = animation.bones.len();
        let mut q_blocks: Vec<QBlock> = Vec::new();
        let mut t_blocks: Vec<TBlock> = Vec::new();
        let mut i: usize = 0;
        while i < n
            invariant
                0 <= i <= n,
                n == b.bones.len(),
                b == animation@,
                want == animation_from_boned(b),
                q_blocks@.len() == i,
                t_blocks@.len() == i,
                forall|k: int| 0 <= k < i ==> #[trigger] q_blocks@[k]@ == want.q_blocks[k],
                forall|k: int| 0 <= k < i ==> #[trigger] t_blocks@[k]@ == want.t_blocks[k],
            decreases n - i,
        {
            let qb = QBlock::from_boned(&animation.bones[i].q_frames);
            let tb = TBlock::from_boned(&animation.bones[i].t_frames);
            proof {
                assert(qb@ =~= want.q_blocks[i as int]);
                assert(tb@ =~= want.t_blocks[i as int]);
            }
            q_blocks.push(qb);
            t_blocks.push(tb);
            i = i + 1;
        }
        let header = Header {
            version: HEADER_VERSION,
            flags: PRE_ROTATED_ROOT | COMPRESSED_TIME | USE_COMPRESS_TABLE | KEEP_MISSING_BONE_POS,
            duration: animation.duration,
            num_bones: n as u32,
            num_q_keys: 0,
            num_t_keys: 0,
            num_custom_anim_keys: 0,
            q_alloc_size: 0,
            t_alloc_size: 0,
            q_block_sizes: zero_sizes(n),
            t_block_sizes: zero_sizes(n),
        };
        let r = Animation { header, q_blocks, t_blocks };
        proof {
            assert(r@.q_blocks =~= want.q_blocks);
            assert(r@.t_blocks =~= want.t_blocks);
            assert(r@.header == want.header);
        }
        r
    }
}

} // verus!
