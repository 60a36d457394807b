//! Four 32-bit floating-point values, held as their bit patterns.
use crate::bytes::{
    avail, lemma_emit_emit, lemma_u32_bytes_of_le, lemma_u32_round_trip, u32_bytes, u32_le,
    ByteReader, ByteWriter, IoError,
};
use vstd::prelude::*;

verus! {

/// Four floating-point values, each held as its 32-bit pattern.
#[derive(Debug, Clone, Copy, PartialEq, Eq, Structural)]
pub struct Vec4 {
    pub x: u32,
    pub y: u32,
    pub z: u32,
    pub w: u32,
}

/// The sixteen bytes of the four values, little-endian.
#[verifier::opaque]
pub open spec fn vec4_bytes(v: Vec4) -> Seq<u8> {
    u32_bytes(v.x) + u32_bytes(v.y) + u32_bytes(v.z) + u32_bytes(v.w)
}

/// The four values stored in the sixteen bytes of `s` at `p`.
#[verifier::opaque]
pub open spec fn vec4_at(s: Seq<u8>, p: int) -> Vec4 {
    Vec4 { x: u32_le(s, p), y: u32_le(s, p + 4), z: u32_le(s, p + 8), w: u32_le(s, p + 12) }
}

impl Vec4 {
    pub fn read(reader: &mut ByteReader) -> (r: Result<Vec4, IoError>)
        ensures
            final(reader)@.bytes == old(reader)@.bytes,
            avail(old(reader)@.bytes, old(reader)@.pos, 16) ==> r == Ok::<Vec4, IoError>(
                vec4_at(old(reader)@.bytes, old(reader)@.pos),
            ) && final(reader)@.pos == old(reader)@.pos + 16,
            !avail(old(reader)@.bytes, old(reader)@.pos, 16) ==> r == Err::<Vec4, IoError>(
                IoError::UnexpectedEof,
            ),
    {
        proof {
            reveal(vec4_at);
        }
        let x = reader.read_u32()?;
        let y = reader.read_u32()?;
        let z = reader.read_u32()?;
        let w = reader.read_u32()?;
        Ok(Vec4 { x, y, z, w })
    }

    pub fn write(&self, writer: &mut ByteWriter)
        requires
            old(writer)@.pos + 16 <= usize::MAX,
        ensures
            final(writer)@ == old(writer)@.emit(vec4_bytes(*self)),
    {
        let ghost st = writer@;
        proof {
            reveal(vec4_bytes);
            crate::bytes::lemma_writer_pos(*writer);
        }
        writer.write_u32(self.x);
        writer.write_u32(self.y);
        writer.write_u32(self.z);
        writer.write_u32(self.w);
        proof {
            lemma_emit_emit(st, u32_bytes(self.x), u32_bytes(self.y));
            lemma_emit_emit(st, u32_bytes(self.x) + u32_bytes(self.y), u32_bytes(self.z));
            lemma_emit_emit(
                st,
                u32_bytes(self.x) + u32_bytes(self.y) + u32_bytes(self.z),
                u32_bytes(self.w),
            );
        }
    }
}

/// Reading the bytes written for four values gives them back.
pub proof fn lemma_vec4_round_trip(v: Vec4, front: Seq<u8>, rest: Seq<u8>)
    ensures
        vec4_at(front + vec4_bytes(v) + rest, front.len() as int) == v,
{
    reveal(vec4_bytes);
    reveal(vec4_at);
    let s = front + vec4_bytes(v) + rest;
    let b = vec4_bytes(v);
    assert(s =~= front + u32_bytes(v.x) + (b.subrange(4, 16) + rest));
    lemma_u32_round_trip(v.x, b.subrange(4, 16) + rest, front);
    assert(s =~= (front + b.subrange(0, 4)) + u32_bytes(v.y) + (b.subrange(8, 16) + rest));
    lemma_u32_round_trip(v.y, b.subrange(8, 16) + rest, front + b.subrange(0, 4));
    assert(s =~= (front + b.subrange(0, 8)) + u32_bytes(v.z) + (b.subrange(12, 16) + rest));
    lemma_u32_round_trip(v.z, b.subrange(12, 16) + rest, front + b.subrange(0, 8));
    assert(s =~= (front + b.subrange(0, 12)) + u32_bytes(v.w) + rest);
    lemma_u32_round_trip(v.w, rest, front + b.subrange(0, 12));
}

/// Four values take sixteen bytes.
pub proof fn lemma_vec4_bytes_len(v: Vec4)
    ensures
        vec4_bytes(v).len() == 16,
{
    reveal(vec4_bytes);
}

/// Writing four values read from bytes gives those bytes back.
pub proof fn lemma_vec4_bytes_of_at(s: Seq<u8>, p: int)
    requires
        0 <= p,
        p + 16 <= s.len(),
    ensures
        vec4_bytes(vec4_at(s, p)) == s.subrange(p, p + 16),
{
    reveal(vec4_bytes);
    reveal(vec4_at);
    lemma_u32_bytes_of_le(s, p);
    lemma_u32_bytes_of_le(s, p + 4);
    lemma_u32_bytes_of_le(s, p + 8);
    lemma_u32_bytes_of_le(s, p + 12);
    assert(vec4_bytes(vec4_at(s, p)) =~= s.subrange(p, p + 16));
}

} // verus!
