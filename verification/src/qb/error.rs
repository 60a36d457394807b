//! The errors of reading and interpreting QB data.
use crate::bytes::IoError;
use crate::qb::component::{Kind, Value, ValueV};
use crate::text::push_str;
use vstd::prelude::*;

verus! {

/// Why reading QB data failed.
#[derive(Debug)]
pub enum Error {
    /// The bytes ran out.
    Io(IoError),
    /// A component's type byte names no known kind.
    InvalidComponentType(u8),
    /// Values of a kind that is not read; the message names the kind.
    NotImplemented(String),
    /// A value was not of the expected type.
    ExpectedValueType(String, Value),
    /// A component's type byte sets both checksum-lookup bits.
    BothChecksumBits(u8),
    /// A token's type byte names no known token.
    InvalidTokenType(u8),
}

/// The mathematical value of an error: its texts as sequences.
pub enum ErrorV {
    Io(IoError),
    InvalidComponentType(u8),
    NotImplemented(Seq<char>),
    ExpectedValueType(Seq<char>, ValueV),
    BothChecksumBits(u8),
    InvalidTokenType(u8),
}

impl View for Error {
    type V = ErrorV;

    open spec fn view(&self) -> ErrorV {
        match self {
            Error::Io(e) => ErrorV::Io(*e),
            Error::InvalidComponentType(b) => ErrorV::InvalidComponentType(*b),
            Error::NotImplemented(m) => ErrorV::NotImplemented(m@),
            Error::ExpectedValueType(s, v) => ErrorV::ExpectedValueType(s@, v@),
            Error::BothChecksumBits(b) => ErrorV::BothChecksumBits(*b),
            Error::InvalidTokenType(b) => ErrorV::InvalidTokenType(*b),
        }
    }
}

/// A failed read: the error, and the position reached when it was raised. The
/// position is meant only for errors other than running out of bytes, after
/// which where a reader stands is left open.
pub struct Failure {
    pub error: ErrorV,
    pub pos: int,
}

/// Reading failed with `error` at `pos`.
pub open spec fn fail<T>(error: ErrorV, pos: int) -> Result<T, Failure> {
    Err(Failure { error, pos })
}

/// Reading ran out of bytes.
pub open spec fn eof<T>() -> Result<T, Failure> {
    Err(Failure { error: ErrorV::Io(IoError::UnexpectedEof), pos: 0 })
}

/// A read that failed with `e`, leaving the reader at `pos`, failed as `f`
/// says: the same error and, unless the bytes ran out, the same position.
pub open spec fn failed_as(e: Error, pos: int, f: Failure) -> bool {
    &&& e@ == f.error
    &&& !(f.error is Io) ==> pos == f.pos
}

/// The name of a kind, as its debug form writes it.
pub open spec fn kind_name(k: Kind) -> Seq<char> {
    match k {
        Kind::Nil => "None"@,
        Kind::Integer => "Integer"@,
        Kind::Float => "Float"@,
        Kind::String => "String"@,
        Kind::LocalString => "LocalString"@,
        Kind::Pair => "Pair"@,
        Kind::Vector => "Vector"@,
        Kind::QScript => "QScript"@,
        Kind::CFunction => "CFunction"@,
        Kind::MemberFunction => "MemberFunction"@,
        Kind::Structure => "Structure"@,
        Kind::StructurePointer => "StructurePointer"@,
        Kind::Array => "Array"@,
        Kind::Name => "Name"@,
        Kind::I8 => "I8"@,
        Kind::I16 => "I16"@,
        Kind::U8 => "U8"@,
        Kind::U16 => "U16"@,
        Kind::ZeroInt => "ZeroInt"@,
        Kind::ZeroFloat => "ZeroFloat"@,
    }
}

/// The message of the error for values of kind `k`, which are not read.
pub open spec fn not_implemented_text(k: Kind) -> Seq<char> {
    "deserializing symbol type "@ + kind_name(k)
}

fn kind_name_str(k: Kind) -> (r: &'static str)
    ensures
        r@ == kind_name(k),
{
    match k {
        Kind::Nil => "None",
        Kind::Integer => "Integer",
        Kind::Float => "Float",
        Kind::String => "String",
        Kind::LocalString => "LocalString",
        Kind::Pair => "Pair",
        Kind::Vector => "Vector",
        Kind::QScript => "QScript",
        Kind::CFunction => "CFunction",
        Kind::MemberFunction => "MemberFunction",
        Kind::Structure => "Structure",
        Kind::StructurePointer => "StructurePointer",
        Kind::Array => "Array",
        Kind::Name => "Name",
        Kind::I8 => "I8",
        Kind::I16 => "I16",
        Kind::U8 => "U8",
        Kind::U16 => "U16",
        Kind::ZeroInt => "ZeroInt",
        Kind::ZeroFloat => "ZeroFloat",
    }
}

/// The message of the error for values of kind `k`, which are not read.
pub fn not_implemented_message(k: Kind) -> (r: String)
    ensures
        r@ == not_implemented_text(k),
{
    let mut m = "deserializing symbol type ".to_owned();
    push_str(&mut m, kind_name_str(k));
    m
}

/// The result of a read, with a failed read turned into this module's error.
pub fn io<T>(r: Result<T, IoError>) -> (out: Result<T, Error>)
    ensures
        match r {
            Ok(v) => out == Ok::<T, Error>(v),
            Err(e) => out == Err::<T, Error>(Error::Io(e)),
        },
{
    match r {
        Ok(v) => Ok(v),
        Err(e) => Err(Error::Io(e)),
    }
}

} // verus!
