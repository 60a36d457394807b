//! THUG2 skeletons: a header, the name, parent and flip checksums of each bone
//! as three lists, then the rotation and translation of each bone.
use crate::bytes::{
    avail, group_positions, lemma_emit_emit, lemma_emit_empty, lemma_reader_pos,
    lemma_u16_bytes_of_le, lemma_u16_round_trip, lemma_u32_bytes_of_le, lemma_u32_round_trip,
    lemma_u32s_bytes_len, lemma_u32s_bytes_of_at, lemma_u32s_round_trip, lemma_writer_pos,
    u16_bytes, u16_le, u32_bytes, u32_le, u32s_at, u32s_bytes, ByteReader, ByteWriter, IoError,
    WriteState,
};
use crate::skel::thps4::{nonzero, nonzero_bits, nz, nz_bits, nz_ok};
use crate::vec4::{lemma_vec4_bytes_len, lemma_vec4_bytes_of_at, lemma_vec4_round_trip, vec4_at, vec4_bytes, Vec4};
use vstd::prelude::*;

verus! {

broadcast use group_positions;

/// The version number that a THUG2 skeleton file starts with.
pub const HEADER_VERSION: u16 = 2;

/// A bone: its name, the checksums of its parent and of its mirror bone, and its
/// rest rotation and translation.
#[derive(Debug, Clone, Copy)]
pub struct Bone {
    pub name: u32,
    pub parent: Option<u32>,
    pub flip: Option<u32>,
    pub quaternion: Vec4,
    pub translation: Vec4,
}

pub struct SkeletonV {
    pub version: u16,
    pub unk1: u16,
    pub unk2: u32,
    pub num_bones: u32,
    pub bones: Seq<Bone>,
}

/// A THUG2 skeleton.
#[derive(Debug)]
pub struct Skeleton {
    version: u16,
    unk1: u16,
    unk2: u32,
    num_bones: u32,
    bones: Vec<Bone>,
}

impl View for Skeleton {
    type V = SkeletonV;

    closed spec fn view(&self) -> SkeletonV {
        SkeletonV {
            version: self.version,
            unk1: self.unk1,
            unk2: self.unk2,
            num_bones: self.num_bones,
            bones: self.bones@,
        }
    }
}

/// A skeleton that can be written and read back: its bone count is its number of
/// bones, and no parent or flip is stored as `Some(0)`.
pub open spec fn skeleton_wf(v: SkeletonV) -> bool {
    &&& v.num_bones == v.bones.len()
    &&& forall|i: int| 0 <= i < v.bones.len() ==> nz_ok(#[trigger] v.bones[i].parent) && nz_ok(
        v.bones[i].flip,
    )
}

pub open spec fn names(bones: Seq<Bone>) -> Seq<u32> {
    Seq::new(bones.len(), |i: int| bones[i].name)
}

pub open spec fn parents(bones: Seq<Bone>) -> Seq<u32> {
    Seq::new(bones.len(), |i: int| nz_bits(bones[i].parent))
}

pub open spec fn flips(bones: Seq<Bone>) -> Seq<u32> {
    Seq::new(bones.len(), |i: int| nz_bits(bones[i].flip))
}

pub open spec fn poses(bones: Seq<Bone>) -> Seq<(Vec4, Vec4)> {
    Seq::new(bones.len(), |i: int| (bones[i].quaternion, bones[i].translation))
}

/// The bytes of a list of rotations and translations, each rotation followed by
/// its translation.
pub open spec fn poses_bytes(v: Seq<(Vec4, Vec4)>) -> Seq<u8>
    decreases v.len(),
{
    if v.len() == 0 {
        Seq::empty()
    } else {
        poses_bytes(v.drop_last()) + vec4_bytes(v.last().0) + vec4_bytes(v.last().1)
    }
}

/// The `n` rotations and translations stored in `s` from `p` on.
pub open spec fn poses_at(s: Seq<u8>, p: int, n: nat) -> Seq<(Vec4, Vec4)> {
    Seq::new(n, |i: int| (vec4_at(s, p + 32 * i), vec4_at(s, p + 32 * i + 16)))
}

/// The bones whose parts are the `i`-th of the four lists.
pub open spec fn zip_bones(n: Seq<u32>, pa: Seq<u32>, fl: Seq<u32>, po: Seq<(Vec4, Vec4)>) -> Seq<
    Bone,
> {
    Seq::new(
        n.len(),
        |i: int|
            Bone {
                name: n[i],
                parent: nz(pa[i]),
                flip: nz(fl[i]),
                quaternion: po[i].0,
                translation: po[i].1,
            },
    )
}

/// The bytes of a skeleton: version, two unknown values, the bone count, the
/// names, parents and flips of the bones, then the rotation and translation of
/// each bone.
pub open spec fn skeleton_bytes(v: SkeletonV) -> Seq<u8> {
    u16_bytes(v.version) + u16_bytes(v.unk1) + u32_bytes(v.unk2) + u32_bytes(v.num_bones)
        + u32s_bytes(names(v.bones)) + u32s_bytes(parents(v.bones)) + u32s_bytes(flips(v.bones))
        + poses_bytes(poses(v.bones))
}

/// What reading a skeleton at `p` gives.
pub open spec fn parse_skeleton(s: Seq<u8>, p: int) -> Option<(SkeletonV, int)> {
    if avail(s, p, 12) && avail(s, p + 12, 44 * u32_le(s, p + 8)) {
        let n = u32_le(s, p + 8) as nat;
        Some(
            (
                SkeletonV {
                    version: u16_le(s, p),
                    unk1: u16_le(s, p + 2),
                    unk2: u32_le(s, p + 4),
                    num_bones: u32_le(s, p + 8),
                    bones: zip_bones(
                        u32s_at(s, p + 12, n),
                        u32s_at(s, p + 12 + 4 * n, n),
                        u32s_at(s, p + 12 + 8 * n, n),
                        poses_at(s, p + 12 + 12 * n, n),
                    ),
                },
                p + 12 + 44 * n,
            ),
        )
    } else {
        None
    }
}

pub proof fn lemma_poses_bytes_len(v: Seq<(Vec4, Vec4)>)
    ensures
        poses_bytes(v).len() == 32 * v.len(),
    decreases v.len(),
{
    if v.len() > 0 {
        lemma_vec4_bytes_len(v.last().0);
        lemma_vec4_bytes_len(v.last().1);
        lemma_poses_bytes_len(v.drop_last());
    }
}

/// Reading back the bytes of a list of rotations and translations gives the list.
pub proof fn lemma_poses_round_trip(v: Seq<(Vec4, Vec4)>, front: Seq<u8>, rest: Seq<u8>)
    ensures
        poses_at(front + poses_bytes(v) + rest, front.len() as int, v.len()) == v,
    decreases v.len(),
{
    let s = front + poses_bytes(v) + rest;
    let f = front.len() as int;
    if v.len() > 0 {
        let init = v.drop_last();
        let (q, t) = v.last();
        let m = init.len();
        let qb = vec4_bytes(q);
        let tb = vec4_bytes(t);
        let mid = front + poses_bytes(init);
        lemma_vec4_bytes_len(q);
        lemma_vec4_bytes_len(t);
        lemma_poses_bytes_len(init);
        assert(poses_bytes(v) == poses_bytes(init) + qb + tb);
        assert(forall|i: int| 0 <= i < m ==> #[trigger] poses_at(s, f, v.len())[i] == init[i])
            by {
            assert(s =~= front + poses_bytes(init) + (qb + tb + rest));
            lemma_poses_round_trip(init, front, qb + tb + rest);
            assert forall|i: int| 0 <= i < m implies #[trigger] poses_at(s, f, v.len())[i]
                == init[i] by {
                assert(poses_at(s, f, m)[i] == init[i]);
            }
        }
        assert(mid.len() == f + 32 * m);
        assert(vec4_at(s, f + 32 * m) == q) by {
            assert(s =~= mid + qb + (tb + rest));
            lemma_vec4_round_trip(q, mid, tb + rest);
        }
        assert(vec4_at(s, f + 32 * m + 16) == t) by {
            assert(s =~= (mid + qb) + tb + rest);
            lemma_vec4_round_trip(t, mid + qb, rest);
        }
        assert(poses_at(s, f, v.len())[m as int] == v[m as int]);
    }
    assert(poses_at(s, f, v.len()) =~= v);
}

/// Writing the rotations and translations read from bytes gives those bytes.
pub proof fn lemma_poses_bytes_of_at(s: Seq<u8>, p: int, n: nat)
    requires
        0 <= p,
        p + 32 * n <= s.len(),
    ensures
        poses_bytes(poses_at(s, p, n)) == s.subrange(p, p + 32 * n),
    decreases n,
{
    if n > 0 {
        let m = (n - 1) as nat;
        let a = p + 32 * m;
        assert(a + 32 == p + 32 * n);
        lemma_poses_bytes_of_at(s, p, m);
        let v = poses_at(s, p, n);
        assert(v.drop_last() =~= poses_at(s, p, m));
        assert(v.last() == (vec4_at(s, a), vec4_at(s, a + 16)));
        lemma_vec4_bytes_of_at(s, a);
        lemma_vec4_bytes_of_at(s, a + 16);
        assert(poses_bytes(v) == s.subrange(p, a) + s.subrange(a, a + 16) + s.subrange(
            a + 16,
            a + 32,
        ));
        assert(s.subrange(p, a) + s.subrange(a, a + 16) + s.subrange(a + 16, a + 32)
            =~= s.subrange(p, a + 32));
    } else {
        assert(poses_bytes(poses_at(s, p, 0)) =~= s.subrange(p, p));
    }
}

/// Reads `count` rotations and translations.
fn read_poses(reader: &mut ByteReader, count: u32) -> (r: Result<Vec<(Vec4, Vec4)>, IoError>)
    ensures
        final(reader)@.bytes == old(reader)@.bytes,
        avail(old(reader)@.bytes, old(reader)@.pos, 32 * count) ==> r is Ok && r->Ok_0@
            == poses_at(old(reader)@.bytes, old(reader)@.pos, count as nat) && final(reader)@.pos
            == old(reader)@.pos + 32 * count,
        !avail(old(reader)@.bytes, old(reader)@.pos, 32 * count) ==> r == Err::<
            Vec<(Vec4, Vec4)>,
            IoError,
        >(IoError::UnexpectedEof),
{
    let ghost s = reader@.bytes;
    let ghost p = reader@.pos;
    proof {
        lemma_reader_pos(*reader);
    }
    let mut out: Vec<(Vec4, Vec4)> = Vec::new();
    let mut i: u32 = 0;
    while i < count
        invariant
            0 <= i <= count,
            s == old(reader)@.bytes,
            p == old(reader)@.pos,
            p >= 0,
            reader@.bytes == s,
            reader@.pos == p + 32 * i,
            i > 0 ==> avail(s, p, 32 * i),
            out@ == poses_at(s, p, i as nat),
        decreases count - i,
    {
        let q = Vec4::read(reader)?;
        let t = Vec4::read(reader)?;
        out.push((q, t));
        i = i + 1;
        proof {
            assert(out@ =~= poses_at(s, p, i as nat));
        }
    }
    Ok(out)
}

/// Writes each rotation followed by its translation.
fn write_poses(writer: &mut ByteWriter, values: &Vec<(Vec4, Vec4)>)
    requires
        old(writer)@.pos + 32 * values@.len() <= usize::MAX,
    ensures
        final(writer)@ == old(writer)@.emit(poses_bytes(values@)),
{
    let ghost st = writer@;
    proof {
        lemma_writer_pos(*writer);
        assert(values@.subrange(0, 0) =~= Seq::<(Vec4, Vec4)>::empty());
        lemma_emit_empty(st);
    }
    let mut i: usize = 0;
    while i < values.len()
        invariant
            0 <= i <= values@.len(),
            st.pos >= 0,
            st.pos + 32 * values@.len() <= usize::MAX,
            writer@ == st.emit(poses_bytes(values@.subrange(0, i as int))),
            writer@.pos == st.pos + 32 * i,
        decreases values@.len() - i,
    {
        let (q, t) = values[i];
        proof {
            lemma_vec4_bytes_len(q);
            lemma_vec4_bytes_len(t);
        }
        q.write(writer);
        t.write(writer);
        proof {
            let pre = values@.subrange(0, i as int);
            let next = values@.subrange(0, i + 1);
            assert(next.drop_last() =~= pre);
            lemma_vec4_bytes_len(q);
            lemma_vec4_bytes_len(t);
            lemma_emit_emit(st, poses_bytes(pre), vec4_bytes(q));
            lemma_emit_emit(st, poses_bytes(pre) + vec4_bytes(q), vec4_bytes(t));
            lemma_poses_bytes_len(next);
        }
        i = i + 1;
    }
    proof {
        assert(values@.subrange(0, values@.len() as int) =~= values@);
    }
}

/// Puts the four lists together into bones.
fn zip_bones_exec(n: &Vec<u32>, pa: &Vec<u32>, fl: &Vec<u32>, po: &Vec<(Vec4, Vec4)>) -> (r: Vec<
    Bone,
>)
    requires
        n@.len() == pa@.len() == fl@.len() == po@.len(),
    ensures
        r@ == zip_bones(n@, pa@, fl@, po@),
{
    let mut bones: Vec<Bone> = Vec::new();
    let mut i: usize = 0;
    while i < n.len()
        invariant
            0 <= i <= n@.len(),
            n@.len() == pa@.len() == fl@.len() == po@.len(),
            bones@ == zip_bones(n@, pa@, fl@, po@).subrange(0, i as int),
        decreases n@.len() - i,
    {
        let (q, t) = po[i];
        bones.push(
            Bone {
                name: n[i],
                parent: nonzero(pa[i]),
                flip: nonzero(fl[i]),
                quaternion: q,
                translation: t,
            },
        );
        i = i + 1;
        proof {
            assert(bones@ =~= zip_bones(n@, pa@, fl@, po@).subrange(0, i as int));
        }
    }
    proof {
        assert(bones@ =~= zip_bones(n@, pa@, fl@, po@));
    }
    bones
}

/// The four lists of a list of bones.
fn unzip_bones(bones: &Vec<Bone>) -> (r: (Vec<u32>, Vec<u32>, Vec<u32>, Vec<(Vec4, Vec4)>))
    ensures
        r.0@ == names(bones@),
        r.1@ == parents(bones@),
        r.2@ == flips(bones@),
        r.3@ == poses(bones@),
{
    let mut n: Vec<u32> = Vec::new();
    let mut pa: Vec<u32> = Vec::new();
    let mut fl: Vec<u32> = Vec::new();
    let mut po: Vec<(Vec4, Vec4)> = Vec::new();
    let mut i: usize = 0;
    while i < bones.len()
        invariant
            0 <= i <= bones@.len(),
            n@ == names(bones@).subrange(0, i as int),
            pa@ == parents(bones@).subrange(0, i as int),
            fl@ == flips(bones@).subrange(0, i as int),
            po@ == poses(bones@).subrange(0, i as int),
        decreases bones@.len() - i,
    {
        let b = bones[i];
        n.push(b.name);
        pa.push(nonzero_bits(b.parent));
        fl.push(nonzero_bits(b.flip));
        po.push((b.quaternion, b.translation));
        i = i + 1;
        proof {
            assert(n@ =~= names(bones@).subrange(0, i as int));
            assert(pa@ =~= parents(bones@).subrange(0, i as int));
            assert(fl@ =~= flips(bones@).subrange(0, i as int));
            assert(po@ =~= poses(bones@).subrange(0, i as int));
        }
    }
    proof {
        assert(n@ =~= names(bones@));
        assert(pa@ =~= parents(bones@));
        assert(fl@ =~= flips(bones@));
        assert(po@ =~= poses(bones@));
    }
    (n, pa, fl, po)
}

/// The four lists of `n` bones are there exactly when `44 n` bytes are.
proof fn lemma_avail_lists(s: Seq<u8>, p: int, n: nat)
    requires
        p >= 0,
    ensures
        (avail(s, p, (4 * n) as int) && avail(s, p + 4 * n, (4 * n) as int) && avail(
            s,
            p + 8 * n,
            (4 * n) as int,
        ) && avail(s, p + 12 * n, (32 * n) as int)) <==> avail(s, p, (44 * n) as int),
{
}

impl Skeleton {
    #[verifier::type_invariant]
    closed spec fn inv(self) -> bool {
        skeleton_wf(self@)
    }

    /// Reads the header, the names, parents and flips of the bones, then the
    /// rotation and translation of each bone.
    pub fn read(reader: &mut ByteReader) -> (r: Result<Skeleton, IoError>)
        ensures
            final(reader)@.bytes == old(reader)@.bytes,
            match parse_skeleton(old(reader)@.bytes, old(reader)@.pos) {
                Some((v, q)) => r is Ok && r->Ok_0@ == v && final(reader)@.pos == q,
                None => r == Err::<Skeleton, IoError>(IoError::UnexpectedEof),
            },
    {
        let ghost s = reader@.bytes;
        let ghost p = reader@.pos;
        proof {
            lemma_reader_pos(*reader);
        }
        let version = reader.read_u16()?;
        let unk1 = reader.read_u16()?;
        let unk2 = reader.read_u32()?;
        let num_bones = reader.read_u32()?;
        proof {
            lemma_avail_lists(s, p + 12, num_bones as nat);
        }
        let name_list = reader.read_u32s(num_bones)?;
        let parent_list = reader.read_u32s(num_bones)?;
        let flip_list = reader.read_u32s(num_bones)?;
        let pose_list = read_poses(reader, num_bones)?;
        let bones = zip_bones_exec(&name_list, &parent_list, &flip_list, &pose_list);
        Ok(Skeleton { version, unk1, unk2, num_bones, bones })
    }

    /// Writes the header, the names, parents and flips of the bones, then the
    /// rotation and translation of each bone.
    pub fn write(&self, writer: &mut ByteWriter)
        requires
            old(writer)@.pos + skeleton_bytes(self@).len() <= usize::MAX,
        ensures
            final(writer)@ == old(writer)@.emit(skeleton_bytes(self@)),
    {
        let ghost st = writer@;
        proof {
            lemma_writer_pos(*writer);
            let b = self@.bones;
            lemma_u32s_bytes_len(names(b));
            lemma_u32s_bytes_len(parents(b));
            lemma_u32s_bytes_len(flips(b));
            lemma_poses_bytes_len(poses(b));
        }
        let (n, pa, fl, po) = unzip_bones(&self.bones);
        writer.write_u16(self.version);
        writer.write_u16(self.unk1);
        writer.write_u32(self.unk2);
        writer.write_u32(self.num_bones);
        writer.write_u32s(&n);
        writer.write_u32s(&pa);
        writer.write_u32s(&fl);
        write_poses(writer, &po);
        proof {
            let a = u16_bytes(self.version);
            let b = u16_bytes(self.unk1);
            let c = u32_bytes(self.unk2);
            let d = u32_bytes(self.num_bones);
            let e = u32s_bytes(n@);
            let f = u32s_bytes(pa@);
            let g = u32s_bytes(fl@);
            lemma_emit_emit(st, a, b);
            lemma_emit_emit(st, a + b, c);
            lemma_emit_emit(st, a + b + c, d);
            lemma_emit_emit(st, a + b + c + d, e);
            lemma_emit_emit(st, a + b + c + d + e, f);
            lemma_emit_emit(st, a + b + c + d + e + f, g);
            lemma_emit_emit(st, a + b + c + d + e + f + g, poses_bytes(po@));
        }
    }

    /// The number of bones.
    pub fn len(&self) -> (n: usize)
        ensures
            n == self@.bones.len(),
    {
        self.bones.len()
    }

    /// The version number, the two unknown header fields and the bone count, as
    /// the header holds them.
    pub fn header(&self) -> (r: (u16, u16, u32, u32))
        ensures
            r == (self@.version, self@.unk1, self@.unk2, self@.num_bones),
    {
        (self.version, self.unk1, self.unk2, self.num_bones)
    }

    /// The bones, each with its rest rotation and translation.
    pub fn to_boned(&self) -> (r: Vec<Bone>)
        ensures
            r@ == self@.bones,
    {
        let mut out: Vec<Bone> = Vec::new();
        let mut i: usize = 0;
        while i < self.bones.len()
            invariant
                0 <= i <= self@.bones.len(),
                out@ == self@.bones.subrange(0, i as int),
            decreases self@.bones.len() - i,
        {
            out.push(self.bones[i]);
            i = i + 1;
            proof {
                assert(out@ =~= self@.bones.subrange(0, i as int));
            }
        }
        proof {
            assert(out@ =~= self@.bones);
        }
        out
    }

    /// The bone at `index`, if there is one.
    pub fn bone(&self, index: usize) -> (r: Option<Bone>)
        ensures
            r == (if index < self@.bones.len() {
                Some(self@.bones[index as int])
            } else {
                None
            }),
    {
        if index < self.bones.len() {
            Some(self.bones[index])
        } else {
            None
        }
    }
}

/// Reading a skeleton back from the bytes written for it gives the skeleton.
#[verifier::rlimit(40)]
pub proof fn law_thug2_write_read(v: SkeletonV, front: Seq<u8>, rest: Seq<u8>)
    requires
        skeleton_wf(v),
    ensures
        parse_skeleton(front + skeleton_bytes(v) + rest, front.len() as int) == Some(
            (v, (front.len() + skeleton_bytes(v).len()) as int),
        ),
{
    let s = front + skeleton_bytes(v) + rest;
    let f = front.len() as int;
    let n = v.bones.len();
    let nb = u32s_bytes(names(v.bones));
    let pb = u32s_bytes(parents(v.bones));
    let fb = u32s_bytes(flips(v.bones));
    let ob = poses_bytes(poses(v.bones));
    lemma_u32s_bytes_len(names(v.bones));
    lemma_u32s_bytes_len(parents(v.bones));
    lemma_u32s_bytes_len(flips(v.bones));
    lemma_poses_bytes_len(poses(v.bones));
    let h1 = u16_bytes(v.version);
    let h2 = u16_bytes(v.unk1);
    let h3 = u32_bytes(v.unk2);
    let h4 = u32_bytes(v.num_bones);
    let p1 = front + h1;
    let p2 = p1 + h2;
    let p3 = p2 + h3;
    let p4 = p3 + h4;
    let p5 = p4 + nb;
    let p6 = p5 + pb;
    let p7 = p6 + fb;
    assert(s =~= p7 + ob + rest);
    assert(u16_le(s, f) == v.version) by {
        assert(s =~= front + h1 + (h2 + h3 + h4 + nb + pb + fb + ob + rest));
        lemma_u16_round_trip(v.version, h2 + h3 + h4 + nb + pb + fb + ob + rest, front);
    }
    assert(u16_le(s, f + 2) == v.unk1) by {
        assert(s =~= p1 + h2 + (h3 + h4 + nb + pb + fb + ob + rest));
        lemma_u16_round_trip(v.unk1, h3 + h4 + nb + pb + fb + ob + rest, p1);
    }
    assert(u32_le(s, f + 4) == v.unk2) by {
        assert(s =~= p2 + h3 + (h4 + nb + pb + fb + ob + rest));
        lemma_u32_round_trip(v.unk2, h4 + nb + pb + fb + ob + rest, p2);
    }
    assert(u32_le(s, f + 8) == v.num_bones) by {
        assert(s =~= p3 + h4 + (nb + pb + fb + ob + rest));
        lemma_u32_round_trip(v.num_bones, nb + pb + fb + ob + rest, p3);
    }
    assert(u32s_at(s, f + 12, n) == names(v.bones)) by {
        assert(s =~= p4 + nb + (pb + fb + ob + rest));
        lemma_u32s_round_trip(names(v.bones), p4, pb + fb + ob + rest);
    }
    assert(u32s_at(s, f + 12 + 4 * n, n) == parents(v.bones)) by {
        assert(s =~= p5 + pb + (fb + ob + rest));
        lemma_u32s_round_trip(parents(v.bones), p5, fb + ob + rest);
    }
    assert(u32s_at(s, f + 12 + 8 * n, n) == flips(v.bones)) by {
        assert(s =~= p6 + fb + (ob + rest));
        lemma_u32s_round_trip(flips(v.bones), p6, ob + rest);
    }
    assert(poses_at(s, f + 12 + 12 * n, n) == poses(v.bones)) by {
        lemma_poses_round_trip(poses(v.bones), p7, rest);
    }
    lemma_zip_unzip(v.bones);
}

/// Putting together the four lists of a list of bones, none with a parent or
/// flip of `Some(0)`, gives the bones back.
pub proof fn lemma_zip_unzip(bones: Seq<Bone>)
    requires
        forall|i: int| 0 <= i < bones.len() ==> nz_ok(#[trigger] bones[i].parent) && nz_ok(
            bones[i].flip,
        ),
    ensures
        zip_bones(names(bones), parents(bones), flips(bones), poses(bones)) == bones,
{
    let got = zip_bones(names(bones), parents(bones), flips(bones), poses(bones));
    assert forall|i: int| 0 <= i < bones.len() implies #[trigger] got[i] == bones[i] by {
        assert(nz_ok(bones[i].parent) && nz_ok(bones[i].flip));
    }
    assert(got =~= bones);
}

/// Writing a skeleton read from bytes gives those bytes back.
#[verifier::rlimit(40)]
pub proof fn law_thug2_read_write(s: Seq<u8>, p: int)
    ensures
        parse_skeleton(s, p) matches Some((v, q)) ==> skeleton_bytes(v) == s.subrange(p, q)
            && skeleton_wf(v),
{
    if let Some((v, q)) = parse_skeleton(s, p) {
        let n = u32_le(s, p + 8) as nat;
        lemma_u16_bytes_of_le(s, p);
        lemma_u16_bytes_of_le(s, p + 2);
        lemma_u32_bytes_of_le(s, p + 4);
        lemma_u32_bytes_of_le(s, p + 8);
        lemma_u32s_bytes_of_at(s, p + 12, n);
        lemma_u32s_bytes_of_at(s, p + 12 + 4 * n, n);
        lemma_u32s_bytes_of_at(s, p + 12 + 8 * n, n);
        lemma_poses_bytes_of_at(s, p + 12 + 12 * n, n);
        assert(names(v.bones) =~= u32s_at(s, p + 12, n));
        assert(parents(v.bones) =~= u32s_at(s, p + 12 + 4 * n, n));
        assert(flips(v.bones) =~= u32s_at(s, p + 12 + 8 * n, n));
        assert(poses(v.bones) =~= poses_at(s, p + 12 + 12 * n, n));
        assert(skeleton_bytes(v) =~= s.subrange(p, q));
    }
}

} // verus!
