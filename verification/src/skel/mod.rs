//! Skeletons: the bones that animations move, in the THPS4 and THUG2 layouts.
pub mod thps4;
pub mod thug2;

use crate::bytes::{avail, group_positions, u16_le, ByteReader, ByteWriter, IoError};
use vstd::prelude::*;

verus! {

broadcast use group_positions;

/// The version number of THAW skeleton files, whose layout is not read.
pub const THAW_HEADER_VERSION: u16 = 1;

/// Why reading or converting a skeleton failed.
#[derive(Debug)]
pub enum Error {
    /// The bytes ran out.
    Io(IoError),
    /// The file is of a version whose layout is not known.
    UnknownVersion(u16),
    /// A THPS4 skeleton holds no rotations or translations.
    Thps4NoQT,
}

/// A skeleton of either layout.
#[derive(Debug)]
pub enum Skeleton {
    Thps4(thps4::Skeleton),
    Thug2(thug2::Skeleton),
}

pub enum SkeletonV {
    Thps4(thps4::SkeletonV),
    Thug2(thug2::SkeletonV),
}

impl View for Skeleton {
    type V = SkeletonV;

    open spec fn view(&self) -> SkeletonV {
        match self {
            Skeleton::Thps4(k) => SkeletonV::Thps4(k@),
            Skeleton::Thug2(k) => SkeletonV::Thug2(k@),
        }
    }
}

/// The bytes of a skeleton.
pub open spec fn skeleton_bytes(v: SkeletonV) -> Seq<u8> {
    match v {
        SkeletonV::Thps4(k) => thps4::skeleton_bytes(k),
        SkeletonV::Thug2(k) => thug2::skeleton_bytes(k),
    }
}

/// What reading a skeleton file gives: its first two bytes give the version, and
/// the whole file is then read in the layout that the version names.
pub open spec fn parse_skeleton(s: Seq<u8>, p: int) -> Result<(SkeletonV, int), Error> {
    if !avail(s, p, 2) {
        Err(Error::Io(IoError::UnexpectedEof))
    } else {
        let version = u16_le(s, p);
        if version == thug2::HEADER_VERSION {
            match thug2::parse_skeleton(s, 0) {
                Some((k, q)) => Ok((SkeletonV::Thug2(k), q)),
                None => Err(Error::Io(IoError::UnexpectedEof)),
            }
        } else if version == THAW_HEADER_VERSION {
            Err(Error::UnknownVersion(version))
        } else {
            match thps4::parse_skeleton(s, 0) {
                Some((k, q)) => Ok((SkeletonV::Thps4(k), q)),
                None => Err(Error::Io(IoError::UnexpectedEof)),
            }
        }
    }
}

/// A skeleton that reading its bytes gives back: its own layout is sound, and its
/// version number selects its layout.
pub open spec fn skeleton_wf(v: SkeletonV) -> bool {
    match v {
        SkeletonV::Thps4(k) => thps4::skeleton_wf(k) && k.version != thug2::HEADER_VERSION
            && k.version != THAW_HEADER_VERSION,
        SkeletonV::Thug2(k) => thug2::skeleton_wf(k) && k.version == thug2::HEADER_VERSION,
    }
}

impl Skeleton {
    /// Reads the version at the reader's position, goes back to the start, and
    /// reads the skeleton in the layout of that version.
    pub fn read(reader: &mut ByteReader) -> (r: Result<Skeleton, Error>)
        ensures
            final(reader)@.bytes == old(reader)@.bytes,
            match parse_skeleton(old(reader)@.bytes, old(reader)@.pos) {
                Ok((v, q)) => r is Ok && r->Ok_0@ == v && final(reader)@.pos == q,
                Err(e) => r == Err::<Skeleton, Error>(e) && (e is UnknownVersion ==> final(reader)@.pos
                    == 0),
            },
    {
        let version = match reader.read_u16() {
            Ok(v) => v,
            Err(e) => return Err(Error::Io(e)),
        };
        reader.seek(0);
        if version == thug2::HEADER_VERSION {
            match thug2::Skeleton::read(reader) {
                Ok(k) => Ok(Skeleton::Thug2(k)),
                Err(e) => Err(Error::Io(e)),
            }
        } else if version == THAW_HEADER_VERSION {
            Err(Error::UnknownVersion(version))
        } else {
            match thps4::Skeleton::read(reader) {
                Ok(k) => Ok(Skeleton::Thps4(k)),
                Err(e) => Err(Error::Io(e)),
            }
        }
    }

    /// The bones with their rest rotations and translations; a THPS4 skeleton
    /// holds none.
    pub fn to_boned(&self) -> (r: Result<Vec<thug2::Bone>, Error>)
        ensures
            match self@ {
                SkeletonV::Thug2(k) => r is Ok && r->Ok_0@
                    == k.bones,
                SkeletonV::Thps4(_) => r == Err::<Vec<thug2::Bone>, Error>(Error::Thps4NoQT),
            },
    {
        match self {
            Skeleton::Thug2(k) => Ok(k.to_boned()),
            Skeleton::Thps4(_) => Err(Error::Thps4NoQT),
        }
    }

    /// Writes the skeleton in its own layout.
    pub fn write(&self, writer: &mut ByteWriter)
        requires
            old(writer)@.pos + skeleton_bytes(self@).len() <= usize::MAX,
        ensures
            final(writer)@ == old(writer)@.emit(skeleton_bytes(self@)),
    {
        match self {
            Skeleton::Thps4(k) => k.write(writer),
            Skeleton::Thug2(k) => k.write(writer),
        }
    }
}

/// A skeleton file read from the start holds a skeleton whose version selects its
/// layout, and writing it gives back the bytes read.
pub proof fn law_skeleton_read_write(s: Seq<u8>)
    ensures
        parse_skeleton(s, 0) matches Ok((v, q)) ==> skeleton_wf(v) && skeleton_bytes(v)
            == s.subrange(0, q),
{
    thps4::law_thps4_read_write(s, 0);
    thug2::law_thug2_read_write(s, 0);
    if let Ok((v, q)) = parse_skeleton(s, 0) {
        match v {
            SkeletonV::Thps4(k) => {
                assert(k.version == u16_le(s, 0));
            },
            SkeletonV::Thug2(k) => {
                assert(k.version == u16_le(s, 0));
            },
        }
    }
}

/// Reading back the file written for a skeleton gives the skeleton, and stops at
/// the end of what was written.
pub proof fn law_skeleton_write_read(v: SkeletonV, rest: Seq<u8>)
    requires
        skeleton_wf(v),
    ensures
        parse_skeleton(skeleton_bytes(v) + rest, 0) == Ok::<(SkeletonV, int), Error>(
            (v, skeleton_bytes(v).len() as int),
        ),
{
    let e = Seq::<u8>::empty();
    match v {
        SkeletonV::Thps4(k) => {
            thps4::law_thps4_write_read(k, e, rest);
            assert(e + thps4::skeleton_bytes(k) + rest =~= thps4::skeleton_bytes(k) + rest);
        },
        SkeletonV::Thug2(k) => {
            thug2::law_thug2_write_read(k, e, rest);
            assert(e + thug2::skeleton_bytes(k) + rest =~= thug2::skeleton_bytes(k) + rest);
        },
    }
}

} // verus!
