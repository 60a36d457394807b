//! `.ske` skeleton files: their version, and the THUG2 layout.
pub mod thug2;

use crate::bytes::{avail, u16_le, ByteReader, IoError};
use vstd::prelude::*;

verus! {

/// Why reading a `.ske` file failed.
#[derive(Debug)]
pub enum Error {
    /// The bytes ran out.
    Io(IoError),
    /// The file is of a version whose layout is not read.
    UnsupportedVersion(Version),
    /// The file is of no known version.
    UnknownVersion(u16),
}

/// The version of a `.ske` file.
#[derive(Debug, Clone, Copy, PartialEq, Eq, Structural)]
pub enum Version {
    THPS4,
    THUG2,
    THAW,
}

/// The version that a version number stands for: 2 for THUG2, 1 for THAW, any
/// other for THPS4.
pub open spec fn version_of(v: u16) -> Version {
    if v == 2 {
        Version::THUG2
    } else if v == 1 {
        Version::THAW
    } else {
        Version::THPS4
    }
}

/// The name of a version, as it is written.
pub open spec fn version_name(v: Version) -> Seq<char> {
    match v {
        Version::THPS4 => "thps4"@,
        Version::THUG2 => "thug2"@,
        Version::THAW => "thaw"@,
    }
}

impl Version {
    /// The version that a version number stands for; every number stands for
    /// one.
    pub fn try_from(value: u16) -> (r: Result<Version, Error>)
        ensures
            r matches Ok(v) && v == version_of(value),
    {
        match value {
            2 => Ok(Version::THUG2),
            1 => Ok(Version::THAW),
            _ => Ok(Version::THPS4),
        }
    }

    /// The name of the version.
    pub fn to_string(&self) -> (r: String)
        ensures
            r@ == version_name(*self),
    {
        match self {
            Version::THPS4 => "thps4".to_owned(),
            Version::THUG2 => "thug2".to_owned(),
            Version::THAW => "thaw".to_owned(),
        }
    }
}

/// A `.ske` skeleton of a layout that is read.
#[derive(Debug)]
pub enum Skeleton {
    Thug2(thug2::Skeleton),
}

pub enum SkeletonV {
    Thug2(thug2::SkeletonV),
}

impl View for Skeleton {
    type V = SkeletonV;

    open spec fn view(&self) -> SkeletonV {
        match self {
            Skeleton::Thug2(k) => SkeletonV::Thug2(k@),
        }
    }
}

/// What reading a `.ske` file gives: the version at the position, then, for
/// THUG2, the skeleton read from the start of the file.
pub open spec fn parse_skeleton(s: Seq<u8>, p: int) -> Result<(SkeletonV, int), Error> {
    if !avail(s, p, 2) {
        Err(Error::Io(IoError::UnexpectedEof))
    } else {
        match version_of(u16_le(s, p)) {
            Version::THUG2 => match thug2::parse_skeleton(s, 0) {
                Some((k, q)) => Ok((SkeletonV::Thug2(k), q)),
                None => Err(Error::Io(IoError::UnexpectedEof)),
            },
            v => Err(Error::UnsupportedVersion(v)),
        }
    }
}

impl Skeleton {
    /// Reads the version at the reader's position, goes back to the start, and
    /// reads a THUG2 skeleton; other versions are not read.
    pub fn read(reader: &mut ByteReader) -> (r: Result<Skeleton, Error>)
        ensures
            final(reader)@.bytes == old(reader)@.bytes,
            match parse_skeleton(old(reader)@.bytes, old(reader)@.pos) {
                Ok((v, q)) => r is Ok && r->Ok_0@ == v && final(reader)@.pos == q,
                Err(e) => r == Err::<Skeleton, Error>(e) && (e is UnsupportedVersion ==> final(reader)@.pos
                    == 0),
            },
    {
        let number = match reader.read_u16() {
            Ok(v) => v,
            Err(e) => return Err(Error::Io(e)),
        };
        let version = Version::try_from(number)?;
        reader.seek(0);
        match version {
            Version::THPS4 => Err(Error::UnsupportedVersion(version)),
            Version::THUG2 => match thug2::Skeleton::read(reader) {
                Ok(k) => Ok(Skeleton::Thug2(k)),
                Err(e) => Err(Error::Io(e)),
            },
            Version::THAW => Err(Error::UnsupportedVersion(version)),
        }
    }
}

} // verus!
