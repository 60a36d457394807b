//! What holds of THUG2 animations across reading, writing, decompressing and
//! converting to and from the boned form.
use crate::anim::boned;
use crate::anim::frames::{
    qframe_boned, qframe_bytes, qframe_decompressed, qframe_fits, qframe_from_boned,
    tframe_boned, tframe_bytes, tframe_decompressed, tframe_fits, tframe_from_boned, QCoord,
    QFrame, QFrameData, TFrame, TFrameData, FLAG_TIME, SINGLE_BYTE_VALUE, SINGLE_BYTE_X,
    SINGLE_BYTE_Y, SINGLE_BYTE_Z, USE_LOOKUP, W_SIGN_BIT,
};
use crate::anim::thug2::{
    animation_boned, animation_bytes, animation_decompressed, animation_from_boned, animation_wf,
    header_bytes, lemma_header_bytes_len, lemma_header_bytes_of, lemma_header_round_trip,
    lemma_qframes_bytes_of, lemma_qframes_round_trip, lemma_tframes_bytes_of,
    lemma_tframes_round_trip, padding, parse_animation, parse_header, parse_qblocks,
    parse_qframes, parse_tblocks, parse_tframes, qblock_bytes, qblock_fits, qblock_sizes,
    qblocks_bytes, rewritten, tblock_bytes, tblock_fits, tblock_sizes, tblocks_bytes,
    written_header, zeros, AnimationV, boned_flags, lemma_parse_header_version, HEADER_VERSION,
};
use crate::game::Game;
use crate::stdkey::Key;
use vstd::prelude::*;

verus! {

// ---------------------------------------------------------------------------
// Writing and reading back.

/// Reading back the bytes of blocks that fit the header flags, with the sizes
/// that writing stores, gives the blocks.
pub proof fn lemma_qblocks_round_trip(
    bs: Seq<Seq<QFrame>>,
    hf: u32,
    front: Seq<u8>,
    rest: Seq<u8>,
)
    requires
        forall|i: int| 0 <= i < bs.len() ==> qblock_fits(#[trigger] bs[i], hf) && qblock_bytes(
            bs[i],
        ).len() < 0x10000,
    ensures
        parse_qblocks(
            front + qblocks_bytes(bs) + rest,
            front.len() as int,
            qblock_sizes(bs),
            hf,
        ) == Some((bs, (front.len() + qblocks_bytes(bs).len()) as int)),
    decreases bs.len(),
{
    let s = front + qblocks_bytes(bs) + rest;
    if bs.len() == 0 {
        assert(qblock_sizes(bs) =~= Seq::<u16>::empty());
        assert(bs =~= Seq::<Seq<QFrame>>::empty());
    } else {
        let b = bs[0];
        let tail = bs.drop_first();
        let bb = qblock_bytes(b);
        let tb = qblocks_bytes(tail);
        assert(qblock_fits(b, hf) && bb.len() < 0x10000);
        assert(qblock_sizes(bs)[0] == bb.len());
        assert(qblock_sizes(bs).drop_first() =~= qblock_sizes(tail));
        assert(s =~= front + bb + (tb + rest));
        lemma_qframes_round_trip(b, hf, front, tb + rest);
        assert forall|i: int| 0 <= i < tail.len() implies qblock_fits(#[trigger] tail[i], hf)
            && qblock_bytes(tail[i]).len() < 0x10000 by {
            assert(tail[i] == bs[i + 1]);
        }
        assert(s =~= (front + bb) + tb + rest);
        lemma_qblocks_round_trip(tail, hf, front + bb, rest);
        assert(seq![b] + tail =~= bs);
    }
}

pub proof fn lemma_tblocks_round_trip(bs: Seq<Seq<TFrame>>, front: Seq<u8>, rest: Seq<u8>)
    requires
        forall|i: int| 0 <= i < bs.len() ==> tblock_fits(#[trigger] bs[i]) && tblock_bytes(
            bs[i],
        ).len() < 0x10000,
    ensures
        parse_tblocks(front + tblocks_bytes(bs) + rest, front.len() as int, tblock_sizes(bs))
            == Some((bs, (front.len() + tblocks_bytes(bs).len()) as int)),
    decreases bs.len(),
{
    let s = front + tblocks_bytes(bs) + rest;
    if bs.len() == 0 {
        assert(tblock_sizes(bs) =~= Seq::<u16>::empty());
        assert(bs =~= Seq::<Seq<TFrame>>::empty());
    } else {
        let b = bs[0];
        let tail = bs.drop_first();
        let bb = tblock_bytes(b);
        let tb = tblocks_bytes(tail);
        assert(tblock_fits(b) && bb.len() < 0x10000);
        assert(tblock_sizes(bs)[0] == bb.len());
        assert(tblock_sizes(bs).drop_first() =~= tblock_sizes(tail));
        assert(s =~= front + bb + (tb + rest));
        lemma_tframes_round_trip(b, front, tb + rest);
        assert forall|i: int| 0 <= i < tail.len() implies tblock_fits(#[trigger] tail[i])
            && tblock_bytes(tail[i]).len() < 0x10000 by {
            assert(tail[i] == bs[i + 1]);
        }
        assert(s =~= (front + bb) + tb + rest);
        lemma_tblocks_round_trip(tail, front + bb, rest);
        assert(seq![b] + tail =~= bs);
    }
}

/// An animation that writing then reading gives back with its header
/// recomputed: one block of each kind per bone, each under 64 KiB, and every
/// frame stored as its flags and the header flags say.
pub open spec fn animation_writable(v: AnimationV) -> bool {
    &&& animation_wf(v)
    &&& v.q_blocks.len() == v.header.num_bones
    &&& v.t_blocks.len() == v.header.num_bones
    &&& forall|i: int|
        0 <= i < v.q_blocks.len() ==> qblock_fits(#[trigger] v.q_blocks[i], v.header.flags)
            && qblock_bytes(v.q_blocks[i]).len() < 0x10000
    &&& forall|i: int|
        0 <= i < v.t_blocks.len() ==> tblock_fits(#[trigger] v.t_blocks[i]) && tblock_bytes(
            v.t_blocks[i],
        ).len() < 0x10000
}

/// The bytes written for an animation: the recomputed header, the blocks, and
/// the padding after the end of the blocks.
pub proof fn lemma_animation_bytes_parts(v: AnimationV, game: Game, p: int)
    ensures
        animation_bytes(v, game, p) == header_bytes(written_header(v)) + qblocks_bytes(v.q_blocks)
            + tblocks_bytes(v.t_blocks) + zeros(
            padding(
                p + header_bytes(v.header).len() + qblocks_bytes(v.q_blocks).len() + tblocks_bytes(
                    v.t_blocks,
                ).len(),
                game,
            ),
        ),
{
    reveal(animation_bytes);
}

proof fn lemma_parse_header_part(front: Seq<u8>, hb: Seq<u8>, h: crate::anim::thug2::HeaderV, rest: Seq<u8>)
    requires
        hb == header_bytes(h),
        h.q_block_sizes.len() == h.num_bones,
        h.t_block_sizes.len() == h.num_bones,
    ensures
        parse_header(front + hb + rest, front.len() as int) == Some(
            (h, (front.len() + hb.len()) as int),
        ),
{
    lemma_header_round_trip(h, front, rest);
}

/// Reading a header and the blocks whose sizes it lists, followed by anything,
/// gives the header and the blocks.
proof fn lemma_parse_animation_parts(
    front: Seq<u8>,
    h: crate::anim::thug2::HeaderV,
    qbs: Seq<Seq<QFrame>>,
    tbs: Seq<Seq<TFrame>>,
    tail: Seq<u8>,
)
    requires
        h.q_block_sizes == qblock_sizes(qbs),
        h.t_block_sizes == tblock_sizes(tbs),
        qbs.len() == h.num_bones,
        tbs.len() == h.num_bones,
        forall|i: int| 0 <= i < qbs.len() ==> qblock_fits(#[trigger] qbs[i], h.flags)
            && qblock_bytes(qbs[i]).len() < 0x10000,
        forall|i: int| 0 <= i < tbs.len() ==> tblock_fits(#[trigger] tbs[i]) && tblock_bytes(
            tbs[i],
        ).len() < 0x10000,
    ensures
        parse_animation(
            front + header_bytes(h) + qblocks_bytes(qbs) + tblocks_bytes(tbs) + tail,
            front.len() as int,
        ) == Some(
            (
                AnimationV { header: h, q_blocks: qbs, t_blocks: tbs },
                (front.len() + header_bytes(h).len() + qblocks_bytes(qbs).len() + tblocks_bytes(
                    tbs,
                ).len()) as int,
            ),
        ),
{
    let f = front.len() as int;
    let hb = header_bytes(h);
    let qb = qblocks_bytes(qbs);
    let tb = tblocks_bytes(tbs);
    let s = front + hb + qb + tb + tail;
    let p1 = f + hb.len();
    let p2 = p1 + qb.len();
    let p3 = p2 + tb.len();
    assert(s =~= front + hb + (qb + tb + tail));
    lemma_parse_header_part(front, hb, h, qb + tb + tail);
    assert(s =~= (front + hb) + qb + (tb + tail));
    lemma_qblocks_round_trip(qbs, h.flags, front + hb, tb + tail);
    assert(s =~= (front + hb + qb) + tb + tail);
    lemma_tblocks_round_trip(tbs, front + hb + qb, tail);
    lemma_parse_animation_of(s, f, h, p1, qbs, p2, tbs, p3);
}

/// An animation is read when its header and then its blocks are.
proof fn lemma_parse_animation_of(
    s: Seq<u8>,
    p: int,
    h: crate::anim::thug2::HeaderV,
    p1: int,
    qbs: Seq<Seq<QFrame>>,
    p2: int,
    tbs: Seq<Seq<TFrame>>,
    p3: int,
)
    requires
        parse_header(s, p) == Some((h, p1)),
        parse_qblocks(s, p1, h.q_block_sizes, h.flags) == Some((qbs, p2)),
        parse_tblocks(s, p2, h.t_block_sizes) == Some((tbs, p3)),
    ensures
        parse_animation(s, p) == Some((AnimationV { header: h, q_blocks: qbs, t_blocks: tbs }, p3)),
{
}

/// Reading back the bytes written for an animation gives the animation with the
/// header that writing computed, and stops at the end of the blocks.
pub proof fn law_animation_write_read(v: AnimationV, game: Game, front: Seq<u8>, rest: Seq<u8>)
    requires
        animation_writable(v),
    ensures
        parse_animation(front + animation_bytes(v, game, front.len() as int) + rest, front.len() as int)
            == Some(
            (
                rewritten(v),
                (front.len() + header_bytes(written_header(v)).len() + qblocks_bytes(
                    v.q_blocks,
                ).len() + tblocks_bytes(v.t_blocks).len()) as int,
            ),
        ),
{
    let f = front.len() as int;
    let h = written_header(v);
    let z = zeros(
        padding(
            f + header_bytes(v.header).len() + qblocks_bytes(v.q_blocks).len() + tblocks_bytes(
                v.t_blocks,
            ).len(),
            game,
        ),
    );
    lemma_animation_bytes_parts(v, game, f);
    let hb = header_bytes(h);
    let qb = qblocks_bytes(v.q_blocks);
    let tb = tblocks_bytes(v.t_blocks);
    assert(front + animation_bytes(v, game, f) + rest =~= front + hb + qb + tb + (z + rest));
    lemma_parse_animation_parts(front, h, v.q_blocks, v.t_blocks, z + rest);
}

/// Blocks read from bytes fit the header flags, there is one per size, and
/// their bytes are the bytes read.
pub proof fn lemma_qblocks_bytes_of(s: Seq<u8>, p: int, sizes: Seq<u16>, hf: u32)
    requires
        0 <= p <= s.len(),
    ensures
        parse_qblocks(s, p, sizes, hf) matches Some((bs, q)) ==> bs.len() == sizes.len() && (
        forall|i: int| 0 <= i < bs.len() ==> qblock_fits(#[trigger] bs[i], hf)) && p <= q
            <= s.len() && qblocks_bytes(bs) == s.subrange(p, q),
    decreases sizes.len(),
{
    if let Some((bs, q)) = parse_qblocks(s, p, sizes, hf) {
        if sizes.len() == 0 {
            assert(qblocks_bytes(bs) =~= s.subrange(p, q));
        } else {
            let (fs, q1) = parse_qframes(s, p, p + sizes[0], hf)->Some_0;
            lemma_qframes_bytes_of(s, p, p + sizes[0], hf);
            if p >= p + sizes[0] {
                assert(qblock_bytes(fs) =~= s.subrange(p, q1));
            }
            lemma_qblocks_bytes_of(s, q1, sizes.drop_first(), hf);
            let (tail, r) = parse_qblocks(s, q1, sizes.drop_first(), hf)->Some_0;
            assert(bs == seq![fs] + tail);
            assert(bs.drop_first() =~= tail);
            assert(bs[0] == fs);
            assert forall|i: int| 0 <= i < bs.len() implies qblock_fits(#[trigger] bs[i], hf) by {
                if i > 0 {
                    assert(bs[i] == tail[i - 1]);
                }
            }
            assert(qblocks_bytes(bs) =~= s.subrange(p, q));
        }
    }
}

pub proof fn lemma_tblocks_bytes_of(s: Seq<u8>, p: int, sizes: Seq<u16>)
    requires
        0 <= p <= s.len(),
    ensures
        parse_tblocks(s, p, sizes) matches Some((bs, q)) ==> bs.len() == sizes.len() && (forall|
            i: int,
        | 0 <= i < bs.len() ==> tblock_fits(#[trigger] bs[i])) && p <= q <= s.len()
            && tblocks_bytes(bs) == s.subrange(p, q),
    decreases sizes.len(),
{
    if let Some((bs, q)) = parse_tblocks(s, p, sizes) {
        if sizes.len() == 0 {
            assert(tblocks_bytes(bs) =~= s.subrange(p, q));
        } else {
            let (fs, q1) = parse_tframes(s, p, p + sizes[0])->Some_0;
            lemma_tframes_bytes_of(s, p, p + sizes[0]);
            if p >= p + sizes[0] {
                assert(tblock_bytes(fs) =~= s.subrange(p, q1));
            }
            lemma_tblocks_bytes_of(s, q1, sizes.drop_first());
            let (tail, r) = parse_tblocks(s, q1, sizes.drop_first())->Some_0;
            assert(bs == seq![fs] + tail);
            assert(bs.drop_first() =~= tail);
            assert(bs[0] == fs);
            assert forall|i: int| 0 <= i < bs.len() implies tblock_fits(#[trigger] bs[i]) by {
                if i > 0 {
                    assert(bs[i] == tail[i - 1]);
                }
            }
            assert(tblocks_bytes(bs) =~= s.subrange(p, q));
        }
    }
}

/// An animation read from bytes has one block of each kind per bone, every
/// frame stored as its flags and the header flags say, and its header and blocks
/// are, byte for byte, what was read.
pub proof fn law_animation_read_write(s: Seq<u8>, p: int)
    ensures
        parse_animation(s, p) matches Some((v, q)) ==> {
            &&& animation_wf(v)
            &&& v.q_blocks.len() == v.header.num_bones
            &&& v.t_blocks.len() == v.header.num_bones
            &&& forall|i: int|
                0 <= i < v.q_blocks.len() ==> qblock_fits(#[trigger] v.q_blocks[i], v.header.flags)
            &&& forall|i: int| 0 <= i < v.t_blocks.len() ==> tblock_fits(#[trigger] v.t_blocks[i])
            &&& 0 <= p <= q <= s.len()
            &&& header_bytes(v.header) + qblocks_bytes(v.q_blocks) + tblocks_bytes(v.t_blocks)
                == s.subrange(p, q)
        },
{
    if let Some((v, q)) = parse_animation(s, p) {
        let (h, p1) = parse_header(s, p)->Some_0;
        lemma_header_bytes_of(s, p);
        let (qb, p2) = parse_qblocks(s, p1, h.q_block_sizes, h.flags)->Some_0;
        lemma_qblocks_bytes_of(s, p1, h.q_block_sizes, h.flags);
        lemma_tblocks_bytes_of(s, p2, h.t_block_sizes);
        assert(header_bytes(v.header) + qblocks_bytes(v.q_blocks) + tblocks_bytes(v.t_blocks)
            =~= s.subrange(p, q));
    }
}

/// An animation read from bytes whose header holds the counts and sizes of its
/// blocks is written back as the bytes read, then the padding.
pub proof fn law_animation_rewrite(s: Seq<u8>, p: int, game: Game)
    ensures
        parse_animation(s, p) matches Some((v, q)) ==> written_header(v) == v.header ==> animation_bytes(
            v,
            game,
            p,
        ) == s.subrange(p, q) + zeros(padding(q, game)),
{
    if let Some((v, q)) = parse_animation(s, p) {
        law_animation_read_write(s, p);
        if written_header(v) == v.header {
            lemma_animation_bytes_parts(v, game, p);
            let hb = header_bytes(v.header);
            let qb = qblocks_bytes(v.q_blocks);
            let tb = tblocks_bytes(v.t_blocks);
            assert(hb + qb + tb == s.subrange(p, q));
            assert(p + hb.len() + qb.len() + tb.len() == q);
        }
    }
}

// ---------------------------------------------------------------------------
// Decompression.

/// The single-byte flags of a rotation frame.
pub open spec fn single_byte_bits() -> u16 {
    SINGLE_BYTE_VALUE | SINGLE_BYTE_X | SINGLE_BYTE_Y | SINGLE_BYTE_Z
}

/// A rotation frame stored inline with 16-bit coordinates and no single-byte
/// flag.
pub open spec fn qframe_is_wide(f: QFrame) -> bool {
    &&& f.data matches QFrameData::Inline { x, y, z } && x is I16 && y is I16 && z is I16
    &&& f.flags & single_byte_bits() == 0
}

/// A translation frame stored inline, without its lookup flag.
pub open spec fn tframe_is_inline(f: TFrame) -> bool {
    &&& f.data is Inline
    &&& f.flags & USE_LOOKUP == 0
}

proof fn lemma_qframe_decompressed(f: QFrame, k: Seq<Key>)
    ensures
        qframe_decompressed(qframe_decompressed(f, k), k) == qframe_decompressed(f, k),
        qframe_is_wide(qframe_decompressed(f, k)),
{
    let m = f.flags;
    assert((m & !(SINGLE_BYTE_VALUE | SINGLE_BYTE_X | SINGLE_BYTE_Y | SINGLE_BYTE_Z)) & !(
    SINGLE_BYTE_VALUE | SINGLE_BYTE_X | SINGLE_BYTE_Y | SINGLE_BYTE_Z) == m & !(SINGLE_BYTE_VALUE
        | SINGLE_BYTE_X | SINGLE_BYTE_Y | SINGLE_BYTE_Z)) by (bit_vector);
    assert((m & !(SINGLE_BYTE_VALUE | SINGLE_BYTE_X | SINGLE_BYTE_Y | SINGLE_BYTE_Z)) & (
    SINGLE_BYTE_VALUE | SINGLE_BYTE_X | SINGLE_BYTE_Y | SINGLE_BYTE_Z) == 0) by (bit_vector);
}

proof fn lemma_tframe_decompressed(f: TFrame, k: Seq<Key>)
    ensures
        tframe_decompressed(tframe_decompressed(f, k), k) == tframe_decompressed(f, k),
        tframe_is_inline(tframe_decompressed(f, k)),
{
    let m = f.flags;
    assert((m & !USE_LOOKUP) & !USE_LOOKUP == m & !USE_LOOKUP) by (bit_vector);
    assert((m & !USE_LOOKUP) & USE_LOOKUP == 0) by (bit_vector);
}

/// Every frame of a decompressed animation is stored inline: rotation frames
/// with 16-bit coordinates and no single-byte flag, translation frames without
/// their lookup flag; and decompressing it again changes nothing.
pub proof fn law_decompress(v: AnimationV, qk: Seq<Key>, tk: Seq<Key>)
    ensures
        forall|i: int, j: int|
            0 <= i < v.q_blocks.len() && 0 <= j < v.q_blocks[i].len() ==> qframe_is_wide(
                #[trigger] animation_decompressed(v, qk, tk).q_blocks[i][j],
            ),
        forall|i: int, j: int|
            0 <= i < v.t_blocks.len() && 0 <= j < v.t_blocks[i].len() ==> tframe_is_inline(
                #[trigger] animation_decompressed(v, qk, tk).t_blocks[i][j],
            ),
        animation_decompressed(animation_decompressed(v, qk, tk), qk, tk) == animation_decompressed(
            v,
            qk,
            tk,
        ),
{
    let d = animation_decompressed(v, qk, tk);
    let dd = animation_decompressed(d, qk, tk);
    assert forall|i: int, j: int|
        0 <= i < v.q_blocks.len() && 0 <= j < v.q_blocks[i].len() implies qframe_is_wide(
        #[trigger] d.q_blocks[i][j],
    ) by {
        lemma_qframe_decompressed(v.q_blocks[i][j], qk);
    }
    assert forall|i: int, j: int|
        0 <= i < v.t_blocks.len() && 0 <= j < v.t_blocks[i].len() implies tframe_is_inline(
        #[trigger] d.t_blocks[i][j],
    ) by {
        lemma_tframe_decompressed(v.t_blocks[i][j], tk);
    }
    assert forall|i: int| 0 <= i < v.q_blocks.len() implies #[trigger] dd.q_blocks[i]
        == d.q_blocks[i] by {
        assert forall|j: int| 0 <= j < v.q_blocks[i].len() implies #[trigger] dd.q_blocks[i][j]
            == d.q_blocks[i][j] by {
            lemma_qframe_decompressed(v.q_blocks[i][j], qk);
        }
        assert(dd.q_blocks[i] =~= d.q_blocks[i]);
    }
    assert forall|i: int| 0 <= i < v.t_blocks.len() implies #[trigger] dd.t_blocks[i]
        == d.t_blocks[i] by {
        assert forall|j: int| 0 <= j < v.t_blocks[i].len() implies #[trigger] dd.t_blocks[i][j]
            == d.t_blocks[i][j] by {
            lemma_tframe_decompressed(v.t_blocks[i][j], tk);
        }
        assert(dd.t_blocks[i] =~= d.t_blocks[i]);
    }
    assert(dd.q_blocks =~= d.q_blocks);
    assert(dd.t_blocks =~= d.t_blocks);
}

// ---------------------------------------------------------------------------
// The boned form.

/// Every rotation frame of a boned animation has a time below 1024, the most
/// that the flags of a frame without a time of its own hold.
pub open spec fn boned_times_fit(b: boned::AnimationV) -> bool {
    forall|i: int, j: int|
        0 <= i < b.bones.len() && 0 <= j < b.bones[i].q_frames.len() ==> (
        #[trigger] b.bones[i].q_frames[j]).time < 0x400
}

proof fn lemma_qframe_boned_round_trip(b: crate::anim::frames::BonedQFrame, k: Seq<Key>)
    requires
        b.time < 0x400,
    ensures
        qframe_boned(qframe_from_boned(b), k) == b,
{
    let t = b.time;
    assert((t | W_SIGN_BIT) & 0x3ff == t && (t | W_SIGN_BIT) & W_SIGN_BIT != 0) by (bit_vector)
        requires
            t < 0x400,
    ;
    assert((t | 0u16) & 0x3ff == t && (t | 0u16) & W_SIGN_BIT == 0) by (bit_vector)
        requires
            t < 0x400,
    ;
}

/// Converting the boned form of an animation to a THUG2 animation and back
/// gives it back, when it has at most 2^32 - 1 bones and every rotation frame
/// has a time below 1024.
pub proof fn law_boned_round_trip(b: boned::AnimationV, qk: Seq<Key>, tk: Seq<Key>)
    requires
        b.bones.len() <= u32::MAX,
        boned_times_fit(b),
    ensures
        animation_boned(animation_from_boned(b), qk, tk) == b,
{
    let a = animation_from_boned(b);
    let r = animation_boned(a, qk, tk);
    assert forall|i: int| 0 <= i < b.bones.len() implies #[trigger] r.bones[i] == b.bones[i] by {
        assert forall|j: int| 0 <= j < b.bones[i].q_frames.len() implies #[trigger] r.bones[i].q_frames[j]
            == b.bones[i].q_frames[j] by {
            lemma_qframe_boned_round_trip(b.bones[i].q_frames[j], qk);
        }
        assert(r.bones[i].q_frames =~= b.bones[i].q_frames);
        assert(r.bones[i].t_frames =~= b.bones[i].t_frames);
    }
    assert(r.bones =~= b.bones);
}

proof fn lemma_from_boned_frames(b: boned::AnimationV)
    requires
        boned_times_fit(b),
    ensures
        forall|i: int|
            0 <= i < b.bones.len() ==> qblock_fits(
                #[trigger] animation_from_boned(b).q_blocks[i],
                boned_flags(),
            ) && qblock_bytes(animation_from_boned(b).q_blocks[i]).len() == 8 * b.bones[i].q_frames.len()
                && tblock_fits(animation_from_boned(b).t_blocks[i]) && tblock_bytes(
                animation_from_boned(b).t_blocks[i],
            ).len() == 9 * b.bones[i].t_frames.len(),
{
    let a = animation_from_boned(b);
    let hf = boned_flags();
    assert(hf & crate::anim::frames::LONG_FRAME_TIMES == 0 && hf
        & crate::anim::frames::ONLY_SINGLE_BYTE_QUATS == 0) by (bit_vector)
        requires
            hf == boned_flags(),
    ;
    assert forall|i: int| 0 <= i < b.bones.len() implies qblock_fits(#[trigger] a.q_blocks[i], hf)
        && qblock_bytes(a.q_blocks[i]).len() == 8 * b.bones[i].q_frames.len() && tblock_fits(
        a.t_blocks[i],
    ) && tblock_bytes(a.t_blocks[i]).len() == 9 * b.bones[i].t_frames.len() by {
        let qs = a.q_blocks[i];
        let ts = a.t_blocks[i];
        assert forall|j: int| 0 <= j < qs.len() implies qframe_fits(#[trigger] qs[j], hf)
            && qframe_bytes(qs[j]).len() == 8 by {
            let t = b.bones[i].q_frames[j].time;
            assert(t < 0x400);
            assert((t | W_SIGN_BIT) & SINGLE_BYTE_VALUE == 0 && (t | 0u16) & SINGLE_BYTE_VALUE
                == 0) by (bit_vector)
                requires
                    t < 0x400,
            ;
        }
        assert forall|j: int| 0 <= j < ts.len() implies tframe_fits(#[trigger] ts[j])
            && tframe_bytes(ts[j]).len() == 9 by {
            assert(0u8 & FLAG_TIME == 0 && 0u8 & USE_LOOKUP == 0) by (bit_vector);
        }
        lemma_qblock_bytes_eight(qs);
        lemma_tblock_bytes_nine(ts);
    }
}

proof fn lemma_qblock_bytes_eight(fs: Seq<QFrame>)
    requires
        forall|j: int| 0 <= j < fs.len() ==> qframe_bytes(#[trigger] fs[j]).len() == 8,
    ensures
        qblock_bytes(fs).len() == 8 * fs.len(),
    decreases fs.len(),
{
    if fs.len() > 0 {
        assert(qframe_bytes(fs[0]).len() == 8);
        assert forall|j: int| 0 <= j < fs.drop_first().len() implies qframe_bytes(
            #[trigger] fs.drop_first()[j],
        ).len() == 8 by {
            assert(fs.drop_first()[j] == fs[j + 1]);
        }
        lemma_qblock_bytes_eight(fs.drop_first());
    }
}

proof fn lemma_tblock_bytes_nine(fs: Seq<TFrame>)
    requires
        forall|j: int| 0 <= j < fs.len() ==> tframe_bytes(#[trigger] fs[j]).len() == 9,
    ensures
        tblock_bytes(fs).len() == 9 * fs.len(),
    decreases fs.len(),
{
    if fs.len() > 0 {
        assert(tframe_bytes(fs[0]).len() == 9);
        assert forall|j: int| 0 <= j < fs.drop_first().len() implies tframe_bytes(
            #[trigger] fs.drop_first()[j],
        ).len() == 9 by {
            assert(fs.drop_first()[j] == fs[j + 1]);
        }
        lemma_tblock_bytes_nine(fs.drop_first());
    }
}

/// An animation in the boned form, made into a THUG2 animation, written, read
/// back and converted to the boned form again, is given back, when it has at
/// most 2^32 - 1 bones, every rotation frame has a time below 1024, and each
/// bone has fewer than 8192 rotation frames and 7282 translation frames (so
/// that each block stays under 64 KiB).
pub proof fn law_boned_write_read(
    b: boned::AnimationV,
    game: Game,
    qk: Seq<Key>,
    tk: Seq<Key>,
    rest: Seq<u8>,
)
    requires
        b.bones.len() <= u32::MAX,
        boned_times_fit(b),
        forall|i: int|
            0 <= i < b.bones.len() ==> (#[trigger] b.bones[i]).q_frames.len() < 8192
                && b.bones[i].t_frames.len() < 7282,
    ensures
        parse_animation(animation_bytes(animation_from_boned(b), game, 0) + rest, 0) matches Some(
            (v, _),
        ) && animation_boned(v, qk, tk) == b,
{
    let a = animation_from_boned(b);
    lemma_from_boned_frames(b);
    assert forall|i: int| 0 <= i < a.q_blocks.len() implies qblock_fits(
        #[trigger] a.q_blocks[i],
        a.header.flags,
    ) && qblock_bytes(a.q_blocks[i]).len() < 0x10000 by {
        assert(b.bones[i].q_frames.len() < 8192);
    }
    assert forall|i: int| 0 <= i < a.t_blocks.len() implies tblock_fits(#[trigger] a.t_blocks[i])
        && tblock_bytes(a.t_blocks[i]).len() < 0x10000 by {
        assert(qblock_fits(a.q_blocks[i], boned_flags()));
        assert(b.bones[i].t_frames.len() < 7282);
    }
    assert(animation_writable(a));
    let e = Seq::<u8>::empty();
    law_animation_write_read(a, game, e, rest);
    assert(e + animation_bytes(a, game, 0) + rest =~= animation_bytes(a, game, 0) + rest);
    let r = rewritten(a);
    assert(animation_boned(r, qk, tk).bones =~= animation_boned(a, qk, tk).bones);
    law_boned_round_trip(b, qk, tk);
}

// ---------------------------------------------------------------------------
// Whole files.

/// Reading back a file written for a THUG2 animation of the THUG2 version gives
/// the animation with the header that writing computed.
pub proof fn law_file_write_read(v: AnimationV, game: Game, rest: Seq<u8>)
    requires
        animation_writable(v),
        v.header.version == HEADER_VERSION,
    ensures
        crate::anim::parse_animation(animation_bytes(v, game, 0) + rest, 0) == Ok::<
            (crate::anim::AnimationV, int),
            crate::anim::Error,
        >(
            (
                crate::anim::AnimationV::Thug2(rewritten(v)),
                (header_bytes(written_header(v)).len() + qblocks_bytes(v.q_blocks).len()
                    + tblocks_bytes(v.t_blocks).len()) as int,
            ),
        ),
{
    let e = Seq::<u8>::empty();
    let s = animation_bytes(v, game, 0) + rest;
    law_animation_write_read(v, game, e, rest);
    assert(e + animation_bytes(v, game, 0) + rest =~= s);
    lemma_parse_header_version(s, 0);
}

/// A file read from its start as an animation holds an animation of the THUG2
/// version.
pub proof fn law_file_read(s: Seq<u8>)
    ensures
        crate::anim::parse_animation(s, 0) matches Ok((crate::anim::AnimationV::Thug2(v), q))
            ==> v.header.version == HEADER_VERSION,
{
    lemma_parse_header_version(s, 0);
}

} // verus!
