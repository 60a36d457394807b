//! THUG2 `.ske` skeletons: a header, the name, parent and flip checksums of each
//! bone as three lists, then one vector per bone; only the header is kept.
use crate::bytes::{
    avail, group_positions, lemma_reader_pos, u16_le, u32_le, ByteReader, IoError,
};
use crate::vec4::Vec4;
use vstd::prelude::*;

verus! {

broadcast use group_positions;

pub struct SkeletonV {
    pub version: u16,
    pub unk: u32,
    pub num_bones: u32,
}

/// The header of a THUG2 `.ske` skeleton.
#[derive(Debug)]
pub struct Skeleton {
    version: u16,
    unk: u32,
    num_bones: u32,
}

impl View for Skeleton {
    type V = SkeletonV;

    closed spec fn view(&self) -> SkeletonV {
        SkeletonV { version: self.version, unk: self.unk, num_bones: self.num_bones }
    }
}

/// What reading a skeleton at `p` gives: the version, a skipped 16-bit value,
/// an unknown value and the bone count, then three lists of as many checksums
/// and as many vectors of 16 bytes, which are read and not kept.
pub open spec fn parse_skeleton(s: Seq<u8>, p: int) -> Option<(SkeletonV, int)> {
    if avail(s, p, 12) && avail(s, p + 12, 28 * u32_le(s, p + 8)) {
        let n = u32_le(s, p + 8);
        Some(
            (
                SkeletonV { version: u16_le(s, p), unk: u32_le(s, p + 4), num_bones: n },
                p + 12 + 28 * n,
            ),
        )
    } else {
        None
    }
}

impl Skeleton {
    pub fn read(reader: &mut ByteReader) -> (r: Result<Skeleton, IoError>)
        ensures
            final(reader)@.bytes == old(reader)@.bytes,
            match parse_skeleton(old(reader)@.bytes, old(reader)@.pos) {
                Some((v, q)) => r is Ok && r->Ok_0@ == v && final(reader)@.pos == q,
                None => r == Err::<Skeleton, IoError>(IoError::UnexpectedEof),
            },
    {
        let ghost s = reader@.bytes;
        let ghost p = reader@.pos;
        proof {
            lemma_reader_pos(*reader);
        }
        let version = reader.read_u16()?;
        let _ = reader.read_u16()?;
        let unk = reader.read_u32()?;
        let num_bones = reader.read_u32()?;
        proof {
            assert(avail(s, p + 12, 4 * num_bones) && avail(s, p + 12 + 4 * num_bones, 4
                * num_bones) && avail(s, p + 12 + 8 * num_bones, 4 * num_bones) && avail(
                s,
                p + 12 + 12 * num_bones,
                16 * num_bones,
            ) <==> avail(s, p + 12, 28 * num_bones));
        }
        let _name_list = reader.read_u32s(num_bones)?;
        let _parent_list = reader.read_u32s(num_bones)?;
        let _flip_list = reader.read_u32s(num_bones)?;
        let mut i: u32 = 0;
        let ghost q = reader@.pos;
        while i < num_bones
            invariant
                0 <= i <= num_bones,
                s == old(reader)@.bytes,
                p == old(reader)@.pos,
                avail(s, p, 12),
                version == u16_le(s, p),
                unk == u32_le(s, p + 4),
                num_bones == u32_le(s, p + 8),
                q == p + 12 + 12 * num_bones,
                reader@.bytes == s,
                q >= 0,
                reader@.pos == q + 16 * i,
                i > 0 ==> avail(s, q, 16 * i),
            decreases num_bones - i,
        {
            let _vector = Vec4::read(reader)?;
            i = i + 1;
        }
        Ok(Skeleton { version, unk, num_bones })
    }
}

} // verus!
