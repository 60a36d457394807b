//! THPS4 skeletons: a header, then the name, parent and flip checksums of each
//! bone, as three lists.
use crate::bytes::{
    avail, group_positions, lemma_emit_emit, lemma_reader_pos, lemma_u16_bytes_of_le,
    lemma_u16_round_trip, lemma_u32_bytes_of_le, lemma_u32_round_trip, lemma_u32s_bytes_len,
    lemma_u32s_bytes_of_at, lemma_u32s_round_trip, lemma_writer_pos, u16_bytes, u16_le, u32_bytes,
    u32_le, u32s_at, u32s_bytes, ByteReader, ByteWriter, IoError,
};
use vstd::prelude::*;

verus! {

broadcast use group_positions;

/// A checksum that may be absent, stored as 0 when it is.
pub open spec fn nz(v: u32) -> Option<u32> {
    if v == 0 {
        None
    } else {
        Some(v)
    }
}

/// The stored value of a checksum that may be absent: 0 when it is.
pub open spec fn nz_bits(o: Option<u32>) -> u32 {
    match o {
        Some(v) => v,
        None => 0,
    }
}

/// Whether an optional checksum is one that can be stored: not `Some(0)`.
pub open spec fn nz_ok(o: Option<u32>) -> bool {
    o != Some(0u32)
}

pub fn nonzero(v: u32) -> (r: Option<u32>)
    ensures
        r == nz(v),
{
    if v == 0 {
        None
    } else {
        Some(v)
    }
}

pub fn nonzero_bits(o: Option<u32>) -> (r: u32)
    ensures
        r == nz_bits(o),
{
    match o {
        Some(v) => v,
        None => 0,
    }
}

/// A bone: its name, and the checksums of its parent and of its mirror bone.
#[derive(Debug, Clone, Copy)]
pub struct Bone {
    pub name: u32,
    pub parent: Option<u32>,
    pub flip: Option<u32>,
}

pub struct SkeletonV {
    pub version: u16,
    pub unk: u16,
    pub num_bones: u32,
    pub bones: Seq<Bone>,
}

/// A THPS4 skeleton.
#[derive(Debug)]
pub struct Skeleton {
    version: u16,
    unk: u16,
    num_bones: u32,
    bones: Vec<Bone>,
}

impl View for Skeleton {
    type V = SkeletonV;

    closed spec fn view(&self) -> SkeletonV {
        SkeletonV {
            version: self.version,
            unk: self.unk,
            num_bones: self.num_bones,
            bones: self.bones@,
        }
    }
}

/// A skeleton that can be written and read back: its bone count is its number of
/// bones, and no parent or flip is stored as `Some(0)`.
pub open spec fn skeleton_wf(v: SkeletonV) -> bool {
    &&& v.num_bones == v.bones.len()
    &&& forall|i: int| 0 <= i < v.bones.len() ==> nz_ok(#[trigger] v.bones[i].parent) && nz_ok(
        v.bones[i].flip,
    )
}

pub open spec fn names(bones: Seq<Bone>) -> Seq<u32> {
    Seq::new(bones.len(), |i: int| bones[i].name)
}

pub open spec fn parents(bones: Seq<Bone>) -> Seq<u32> {
    Seq::new(bones.len(), |i: int| nz_bits(bones[i].parent))
}

pub open spec fn flips(bones: Seq<Bone>) -> Seq<u32> {
    Seq::new(bones.len(), |i: int| nz_bits(bones[i].flip))
}

/// The bones whose names, parents and flips are the `i`-th of the three lists.
pub open spec fn zip_bones(n: Seq<u32>, pa: Seq<u32>, fl: Seq<u32>) -> Seq<Bone> {
    Seq::new(n.len(), |i: int| Bone { name: n[i], parent: nz(pa[i]), flip: nz(fl[i]) })
}

/// The bytes of a skeleton: version, an unknown value, the bone count, then the
/// names, the parents and the flips of the bones.
pub open spec fn skeleton_bytes(v: SkeletonV) -> Seq<u8> {
    u16_bytes(v.version) + u16_bytes(v.unk) + u32_bytes(v.num_bones) + u32s_bytes(names(v.bones))
        + u32s_bytes(parents(v.bones)) + u32s_bytes(flips(v.bones))
}

/// What reading a skeleton at `p` gives.
pub open spec fn parse_skeleton(s: Seq<u8>, p: int) -> Option<(SkeletonV, int)> {
    if avail(s, p, 8) && avail(s, p + 8, 12 * u32_le(s, p + 4)) {
        let n = u32_le(s, p + 4) as nat;
        Some(
            (
                SkeletonV {
                    version: u16_le(s, p),
                    unk: u16_le(s, p + 2),
                    num_bones: u32_le(s, p + 4),
                    bones: zip_bones(
                        u32s_at(s, p + 8, n),
                        u32s_at(s, p + 8 + 4 * n, n),
                        u32s_at(s, p + 8 + 8 * n, n),
                    ),
                },
                p + 8 + 12 * n,
            ),
        )
    } else {
        None
    }
}

/// Pairs the three lists into bones.
pub fn zip_bones_exec(n: &Vec<u32>, pa: &Vec<u32>, fl: &Vec<u32>) -> (r: Vec<Bone>)
    requires
        n@.len() == pa@.len() == fl@.len(),
    ensures
        r@ == zip_bones(n@, pa@, fl@),
{
    let mut bones: Vec<Bone> = Vec::new();
    let mut i: usize = 0;
    while i < n.len()
        invariant
            0 <= i <= n@.len(),
            n@.len() == pa@.len() == fl@.len(),
            bones@ == zip_bones(n@, pa@, fl@).subrange(0, i as int),
        decreases n@.len() - i,
    {
        bones.push(Bone { name: n[i], parent: nonzero(pa[i]), flip: nonzero(fl[i]) });
        i = i + 1;
        proof {
            assert(bones@ =~= zip_bones(n@, pa@, fl@).subrange(0, i as int));
        }
    }
    proof {
        assert(bones@ =~= zip_bones(n@, pa@, fl@));
    }
    bones
}

/// The three lists of a list of bones.
pub fn unzip_bones(bones: &Vec<Bone>) -> (r: (Vec<u32>, Vec<u32>, Vec<u32>))
    ensures
        r.0@ == names(bones@),
        r.1@ == parents(bones@),
        r.2@ == flips(bones@),
{
    let mut n: Vec<u32> = Vec::new();
    let mut pa: Vec<u32> = Vec::new();
    let mut fl: Vec<u32> = Vec::new();
    let mut i: usize = 0;
    while i < bones.len()
        invariant
            0 <= i <= bones@.len(),
            n@ == names(bones@).subrange(0, i as int),
            pa@ == parents(bones@).subrange(0, i as int),
            fl@ == flips(bones@).subrange(0, i as int),
        decreases bones@.len() - i,
    {
        n.push(bones[i].name);
        pa.push(nonzero_bits(bones[i].parent));
        fl.push(nonzero_bits(bones[i].flip));
        i = i + 1;
        proof {
            assert(n@ =~= names(bones@).subrange(0, i as int));
            assert(pa@ =~= parents(bones@).subrange(0, i as int));
            assert(fl@ =~= flips(bones@).subrange(0, i as int));
        }
    }
    proof {
        assert(n@ =~= names(bones@));
        assert(pa@ =~= parents(bones@));
        assert(fl@ =~= flips(bones@));
    }
    (n, pa, fl)
}

/// Three lists of `n` values in a row are there exactly when `12 n` bytes are.
pub proof fn lemma_avail_three(s: Seq<u8>, p: int, n: nat)
    requires
        p >= 0,
    ensures
        (avail(s, p, (4 * n) as int) && avail(s, p + 4 * n, (4 * n) as int) && avail(s, p + 8 * n, (4 * n) as int)) <==> avail(
            s,
            p,
            (12 * n) as int,
        ),
{
}

impl Skeleton {
    #[verifier::type_invariant]
    closed spec fn inv(self) -> bool {
        skeleton_wf(self@)
    }

    /// Reads the header, then the names, parents and flips of the bones.
    pub fn read(reader: &mut ByteReader) -> (r: Result<Skeleton, IoError>)
        ensures
            final(reader)@.bytes == old(reader)@.bytes,
            match parse_skeleton(old(reader)@.bytes, old(reader)@.pos) {
                Some((v, q)) => r is Ok && r->Ok_0@ == v && final(reader)@.pos == q,
                None => r == Err::<Skeleton, IoError>(IoError::UnexpectedEof),
            },
    {
        let ghost s = reader@.bytes;
        let ghost p = reader@.pos;
        proof {
            lemma_reader_pos(*reader);
        }
        let version = reader.read_u16()?;
        let unk = reader.read_u16()?;
        let num_bones = reader.read_u32()?;
        proof {
            lemma_avail_three(s, p + 8, num_bones as nat);
        }
        let name_list = reader.read_u32s(num_bones)?;
        let parent_list = reader.read_u32s(num_bones)?;
        let flip_list = reader.read_u32s(num_bones)?;
        let bones = zip_bones_exec(&name_list, &parent_list, &flip_list);
        Ok(Skeleton { version, unk, num_bones, bones })
    }

    /// Writes the header, then the names, parents and flips of the bones.
    pub fn write(&self, writer: &mut ByteWriter)
        requires
            old(writer)@.pos + skeleton_bytes(self@).len() <= usize::MAX,
        ensures
            final(writer)@ == old(writer)@.emit(skeleton_bytes(self@)),
    {
        let ghost st = writer@;
        proof {
            lemma_writer_pos(*writer);
            let b = self@.bones;
            lemma_u32s_bytes_len(names(b));
            lemma_u32s_bytes_len(parents(b));
            lemma_u32s_bytes_len(flips(b));
        }
        let (n, pa, fl) = unzip_bones(&self.bones);
        writer.write_u16(self.version);
        writer.write_u16(self.unk);
        writer.write_u32(self.num_bones);
        writer.write_u32s(&n);
        writer.write_u32s(&pa);
        writer.write_u32s(&fl);
        proof {
            let a = u16_bytes(self.version);
            let b = u16_bytes(self.unk);
            let c = u32_bytes(self.num_bones);
            lemma_emit_emit(st, a, b);
            lemma_emit_emit(st, a + b, c);
            lemma_emit_emit(st, a + b + c, u32s_bytes(n@));
            lemma_emit_emit(st, a + b + c + u32s_bytes(n@), u32s_bytes(pa@));
            lemma_emit_emit(st, a + b + c + u32s_bytes(n@) + u32s_bytes(pa@), u32s_bytes(fl@));
        }
    }

    /// The number of bones.
    pub fn len(&self) -> (n: usize)
        ensures
            n == self@.bones.len(),
    {
        self.bones.len()
    }

    /// The version number, the unknown header field and the bone count, as the
    /// header holds them.
    pub fn header(&self) -> (r: (u16, u16, u32))
        ensures
            r == (self@.version, self@.unk, self@.num_bones),
    {
        (self.version, self.unk, self.num_bones)
    }

    /// The bones: their names and the checksums of their parents and mirrors.
    pub fn bones(&self) -> (r: &Vec<Bone>)
        ensures
            r@ == self@.bones,
    {
        &self.bones
    }
}

/// Reading a skeleton back from the bytes written for it gives the skeleton.
#[verifier::rlimit(40)]
pub proof fn law_thps4_write_read(v: SkeletonV, front: Seq<u8>, rest: Seq<u8>)
    requires
        skeleton_wf(v),
    ensures
        parse_skeleton(front + skeleton_bytes(v) + rest, front.len() as int) == Some(
            (v, (front.len() + skeleton_bytes(v).len()) as int),
        ),
{
    let s = front + skeleton_bytes(v) + rest;
    let f = front.len() as int;
    let n = v.bones.len();
    let nb = u32s_bytes(names(v.bones));
    let pb = u32s_bytes(parents(v.bones));
    let fb = u32s_bytes(flips(v.bones));
    lemma_u32s_bytes_len(names(v.bones));
    lemma_u32s_bytes_len(parents(v.bones));
    lemma_u32s_bytes_len(flips(v.bones));
    let h1 = u16_bytes(v.version);
    let h2 = u16_bytes(v.unk);
    let h3 = u32_bytes(v.num_bones);
    let p1 = front + h1;
    let p2 = p1 + h2;
    let p3 = p2 + h3;
    let p4 = p3 + nb;
    let p5 = p4 + pb;
    assert(s =~= p5 + fb + rest);
    assert(u16_le(s, f) == v.version) by {
        assert(s =~= front + h1 + (h2 + h3 + nb + pb + fb + rest));
        lemma_u16_round_trip(v.version, h2 + h3 + nb + pb + fb + rest, front);
    }
    assert(u16_le(s, f + 2) == v.unk) by {
        assert(s =~= p1 + h2 + (h3 + nb + pb + fb + rest));
        lemma_u16_round_trip(v.unk, h3 + nb + pb + fb + rest, p1);
    }
    assert(u32_le(s, f + 4) == v.num_bones) by {
        assert(s =~= p2 + h3 + (nb + pb + fb + rest));
        lemma_u32_round_trip(v.num_bones, nb + pb + fb + rest, p2);
    }
    assert(u32s_at(s, f + 8, n) == names(v.bones)) by {
        assert(s =~= p3 + nb + (pb + fb + rest));
        lemma_u32s_round_trip(names(v.bones), p3, pb + fb + rest);
    }
    assert(u32s_at(s, f + 8 + 4 * n, n) == parents(v.bones)) by {
        assert(s =~= p4 + pb + (fb + rest));
        lemma_u32s_round_trip(parents(v.bones), p4, fb + rest);
    }
    assert(u32s_at(s, f + 8 + 8 * n, n) == flips(v.bones)) by {
        lemma_u32s_round_trip(flips(v.bones), p5, rest);
    }
    lemma_zip_unzip(v.bones);
}

/// Pairing the three lists of a list of bones, none with a parent or flip of
/// `Some(0)`, gives the bones back.
pub proof fn lemma_zip_unzip(bones: Seq<Bone>)
    requires
        forall|i: int| 0 <= i < bones.len() ==> nz_ok(#[trigger] bones[i].parent) && nz_ok(
            bones[i].flip,
        ),
    ensures
        zip_bones(names(bones), parents(bones), flips(bones)) == bones,
{
    let got = zip_bones(names(bones), parents(bones), flips(bones));
    assert forall|i: int| 0 <= i < bones.len() implies #[trigger] got[i] == bones[i] by {
        assert(nz_ok(bones[i].parent) && nz_ok(bones[i].flip));
    }
    assert(got =~= bones);
}

/// Writing a skeleton read from bytes gives those bytes back.
pub proof fn law_thps4_read_write(s: Seq<u8>, p: int)
    ensures
        parse_skeleton(s, p) matches Some((v, q)) ==> skeleton_bytes(v) == s.subrange(p, q)
            && skeleton_wf(v),
{
    if let Some((v, q)) = parse_skeleton(s, p) {
        let n = u32_le(s, p + 4) as nat;
        lemma_u16_bytes_of_le(s, p);
        lemma_u16_bytes_of_le(s, p + 2);
        lemma_u32_bytes_of_le(s, p + 4);
        lemma_u32s_bytes_of_at(s, p + 8, n);
        lemma_u32s_bytes_of_at(s, p + 8 + 4 * n, n);
        lemma_u32s_bytes_of_at(s, p + 8 + 8 * n, n);
        assert(names(v.bones) =~= u32s_at(s, p + 8, n));
        assert(parents(v.bones) =~= u32s_at(s, p + 8 + 4 * n, n));
        assert(flips(v.bones) =~= u32s_at(s, p + 8 + 8 * n, n));
        assert(skeleton_bytes(v) =~= s.subrange(p, q));
    }
}

} // verus!
