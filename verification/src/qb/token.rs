//! The tokens that compiled QB scripts are made of, and their byte encoding:
//! a one-byte type followed by the token's payload, if it has one.
use crate::bytes::{
    avail, group_positions, i16_bytes, i16_le, i32_bytes, i32_le, lemma_emit_emit,
    lemma_reader_pos, lemma_writer_pos, u32_bytes, u32_le, u32s_at, u32s_bytes, ByteReader,
    ByteWriter,
};
use crate::qb::error::{eof, fail, failed_as, io, Error, ErrorV, Failure};
use vstd::prelude::*;
use vstd::slice::slice_to_vec;

verus! {

broadcast use group_positions;

/// A QB token. Floating-point payloads are held as their 32-bit patterns.
#[derive(Debug)]
pub enum Token {
    Terminator,
    Newline,
    NewlineDebug(i32),
    LeftBrace,
    RightBrace,
    LeftBracket,
    RightBracket,
    Equals,
    Property,
    Comma,
    Subtract,
    Add,
    Divide,
    Multiply,
    LeftParen,
    RightParen,
    Unk0x10,
    Unk0x11,
    LessThan,
    LessThanEq,
    GreaterThan,
    GreaterThanEq,
    Symbol(u32),
    Integer(i32),
    Unk0x18,
    Unk0x19,
    Float(u32),
    String(Vec<u8>),
    Param(Vec<u8>),
    Unk0x1d,
    Vec3(u32, u32, u32),
    Vec2(u32, u32),
    Begin,
    Repeat,
    Break,
    Script,
    EndScript,
    If,
    Else,
    ElseIf,
    EndIf,
    Return,
    Unk0x2a,
    SymbolDef(u32, Vec<u8>),
    GlobalAll,
    Global,
    Jump(i32),
    Random(u32, Vec<u32>),
    RandomRange,
    Unk0x31,
    Or,
    And,
    Xor,
    ShiftLeft,
    ShiftRight,
    Random2(u32, Vec<u32>),
    RandomRange2,
    Not,
    Unk0x3a,
    Unk0x3b,
    Switch,
    EndSwitch,
    Case,
    Default,
    RandomNoRepeat(u32, Vec<u32>),
    RandomPermute(i32, Vec<i32>),
    Member,
    CFunc,
    MemberFunc,
    Unk0x45,
    Unk0x46,
    If2(i16),
    Else2(i16),
    EndSwitch2(i16),
    Unk0x4a,
    Unk0x4b,
    Unk0x4c,
    Unk0x4d,
    Unk0x4e,
    Unk0x4f,
    Reserved,
}

/// The mathematical value of a token: its payloads as sequences.
pub enum TokenV {
    Terminator,
    Newline,
    NewlineDebug(i32),
    LeftBrace,
    RightBrace,
    LeftBracket,
    RightBracket,
    Equals,
    Property,
    Comma,
    Subtract,
    Add,
    Divide,
    Multiply,
    LeftParen,
    RightParen,
    Unk0x10,
    Unk0x11,
    LessThan,
    LessThanEq,
    GreaterThan,
    GreaterThanEq,
    Symbol(u32),
    Integer(i32),
    Unk0x18,
    Unk0x19,
    Float(u32),
    String(Seq<u8>),
    Param(Seq<u8>),
    Unk0x1d,
    Vec3(u32, u32, u32),
    Vec2(u32, u32),
    Begin,
    Repeat,
    Break,
    Script,
    EndScript,
    If,
    Else,
    ElseIf,
    EndIf,
    Return,
    Unk0x2a,
    SymbolDef(u32, Seq<u8>),
    GlobalAll,
    Global,
    Jump(i32),
    Random(u32, Seq<u32>),
    RandomRange,
    Unk0x31,
    Or,
    And,
    Xor,
    ShiftLeft,
    ShiftRight,
    Random2(u32, Seq<u32>),
    RandomRange2,
    Not,
    Unk0x3a,
    Unk0x3b,
    Switch,
    EndSwitch,
    Case,
    Default,
    RandomNoRepeat(u32, Seq<u32>),
    RandomPermute(i32, Seq<i32>),
    Member,
    CFunc,
    MemberFunc,
    Unk0x45,
    Unk0x46,
    If2(i16),
    Else2(i16),
    EndSwitch2(i16),
    Unk0x4a,
    Unk0x4b,
    Unk0x4c,
    Unk0x4d,
    Unk0x4e,
    Unk0x4f,
    Reserved,
}

impl View for Token {
    type V = TokenV;

    open spec fn view(&self) -> TokenV {
        match *self {
            Token::Terminator => TokenV::Terminator,
            Token::Newline => TokenV::Newline,
            Token::NewlineDebug(v) => TokenV::NewlineDebug(v),
            Token::LeftBrace => TokenV::LeftBrace,
            Token::RightBrace => TokenV::RightBrace,
            Token::LeftBracket => TokenV::LeftBracket,
            Token::RightBracket => TokenV::RightBracket,
            Token::Equals => TokenV::Equals,
            Token::Property => TokenV::Property,
            Token::Comma => TokenV::Comma,
            Token::Subtract => TokenV::Subtract,
            Token::Add => TokenV::Add,
            Token::Divide => TokenV::Divide,
            Token::Multiply => TokenV::Multiply,
            Token::LeftParen => TokenV::LeftParen,
            Token::RightParen => TokenV::RightParen,
            Token::Unk0x10 => TokenV::Unk0x10,
            Token::Unk0x11 => TokenV::Unk0x11,
            Token::LessThan => TokenV::LessThan,
            Token::LessThanEq => TokenV::LessThanEq,
            Token::GreaterThan => TokenV::GreaterThan,
            Token::GreaterThanEq => TokenV::GreaterThanEq,
            Token::Symbol(v) => TokenV::Symbol(v),
            Token::Integer(v) => TokenV::Integer(v),
            Token::Unk0x18 => TokenV::Unk0x18,
            Token::Unk0x19 => TokenV::Unk0x19,
            Token::Float(v) => TokenV::Float(v),
            Token::String(b) => TokenV::String(b@),
            Token::Param(b) => TokenV::Param(b@),
            Token::Unk0x1d => TokenV::Unk0x1d,
            Token::Vec3(x, y, z) => TokenV::Vec3(x, y, z),
            Token::Vec2(x, y) => TokenV::Vec2(x, y),
            Token::Begin => TokenV::Begin,
            Token::Repeat => TokenV::Repeat,
            Token::Break => TokenV::Break,
            Token::Script => TokenV::Script,
            Token::EndScript => TokenV::EndScript,
            Token::If => TokenV::If,
            Token::Else => TokenV::Else,
            Token::ElseIf => TokenV::ElseIf,
            Token::EndIf => TokenV::EndIf,
            Token::Return => TokenV::Return,
            Token::Unk0x2a => TokenV::Unk0x2a,
            Token::SymbolDef(c, b) => TokenV::SymbolDef(c, b@),
            Token::GlobalAll => TokenV::GlobalAll,
            Token::Global => TokenV::Global,
            Token::Jump(v) => TokenV::Jump(v),
            Token::Random(c, v) => TokenV::Random(c, v@),
            Token::RandomRange => TokenV::RandomRange,
            Token::Unk0x31 => TokenV::Unk0x31,
            Token::Or => TokenV::Or,
            Token::And => TokenV::And,
            Token::Xor => TokenV::Xor,
            Token::ShiftLeft => TokenV::ShiftLeft,
            Token::ShiftRight => TokenV::ShiftRight,
            Token::Random2(c, v) => TokenV::Random2(c, v@),
            Token::RandomRange2 => TokenV::RandomRange2,
            Token::Not => TokenV::Not,
            Token::Unk0x3a => TokenV::Unk0x3a,
            Token::Unk0x3b => TokenV::Unk0x3b,
            Token::Switch => TokenV::Switch,
            Token::EndSwitch => TokenV::EndSwitch,
            Token::Case => TokenV::Case,
            Token::Default => TokenV::Default,
            Token::RandomNoRepeat(c, v) => TokenV::RandomNoRepeat(c, v@),
            Token::RandomPermute(c, v) => TokenV::RandomPermute(c, v@),
            Token::Member => TokenV::Member,
            Token::CFunc => TokenV::CFunc,
            Token::MemberFunc => TokenV::MemberFunc,
            Token::Unk0x45 => TokenV::Unk0x45,
            Token::Unk0x46 => TokenV::Unk0x46,
            Token::If2(v) => TokenV::If2(v),
            Token::Else2(v) => TokenV::Else2(v),
            Token::EndSwitch2(v) => TokenV::EndSwitch2(v),
            Token::Unk0x4a => TokenV::Unk0x4a,
            Token::Unk0x4b => TokenV::Unk0x4b,
            Token::Unk0x4c => TokenV::Unk0x4c,
            Token::Unk0x4d => TokenV::Unk0x4d,
            Token::Unk0x4e => TokenV::Unk0x4e,
            Token::Unk0x4f => TokenV::Unk0x4f,
            Token::Reserved => TokenV::Reserved,
        }
    }
}

/// The type byte of a token.
pub open spec fn token_tag(t: TokenV) -> u8 {
    match t {
        TokenV::Terminator => 0x00,
        TokenV::Newline => 0x01,
        TokenV::NewlineDebug(..) => 0x02,
        TokenV::LeftBrace => 0x03,
        TokenV::RightBrace => 0x04,
        TokenV::LeftBracket => 0x05,
        TokenV::RightBracket => 0x06,
        TokenV::Equals => 0x07,
        TokenV::Property => 0x08,
        TokenV::Comma => 0x09,
        TokenV::Subtract => 0x0a,
        TokenV::Add => 0x0b,
        TokenV::Divide => 0x0c,
        TokenV::Multiply => 0x0d,
        TokenV::LeftParen => 0x0e,
        TokenV::RightParen => 0x0f,
        TokenV::Unk0x10 => 0x10,
        TokenV::Unk0x11 => 0x11,
        TokenV::LessThan => 0x12,
        TokenV::LessThanEq => 0x13,
        TokenV::GreaterThan => 0x14,
        TokenV::GreaterThanEq => 0x15,
        TokenV::Symbol(..) => 0x16,
        TokenV::Integer(..) => 0x17,
        TokenV::Unk0x18 => 0x18,
        TokenV::Unk0x19 => 0x19,
        TokenV::Float(..) => 0x1a,
        TokenV::String(..) => 0x1b,
        TokenV::Param(..) => 0x1c,
        TokenV::Unk0x1d => 0x1d,
        TokenV::Vec3(..) => 0x1e,
        TokenV::Vec2(..) => 0x1f,
        TokenV::Begin => 0x20,
        TokenV::Repeat => 0x21,
        TokenV::Break => 0x22,
        TokenV::Script => 0x23,
        TokenV::EndScript => 0x24,
        TokenV::If => 0x25,
        TokenV::Else => 0x26,
        TokenV::ElseIf => 0x27,
        TokenV::EndIf => 0x28,
        TokenV::Return => 0x29,
        TokenV::Unk0x2a => 0x2a,
        TokenV::SymbolDef(..) => 0x2b,
        TokenV::GlobalAll => 0x2c,
        TokenV::Global => 0x2d,
        TokenV::Jump(..) => 0x2e,
        TokenV::Random(..) => 0x2f,
        TokenV::RandomRange => 0x30,
        TokenV::Unk0x31 => 0x31,
        TokenV::Or => 0x32,
        TokenV::And => 0x33,
        TokenV::Xor => 0x34,
        TokenV::ShiftLeft => 0x35,
        TokenV::ShiftRight => 0x36,
        TokenV::Random2(..) => 0x37,
        TokenV::RandomRange2 => 0x38,
        TokenV::Not => 0x39,
        TokenV::Unk0x3a => 0x3a,
        TokenV::Unk0x3b => 0x3b,
        TokenV::Switch => 0x3c,
        TokenV::EndSwitch => 0x3d,
        TokenV::Case => 0x3e,
        TokenV::Default => 0x3f,
        TokenV::RandomNoRepeat(..) => 0x40,
        TokenV::RandomPermute(..) => 0x41,
        TokenV::Member => 0x42,
        TokenV::CFunc => 0x43,
        TokenV::MemberFunc => 0x44,
        TokenV::Unk0x45 => 0x45,
        TokenV::Unk0x46 => 0x46,
        TokenV::If2(..) => 0x47,
        TokenV::Else2(..) => 0x48,
        TokenV::EndSwitch2(..) => 0x49,
        TokenV::Unk0x4a => 0x4a,
        TokenV::Unk0x4b => 0x4b,
        TokenV::Unk0x4c => 0x4c,
        TokenV::Unk0x4d => 0x4d,
        TokenV::Unk0x4e => 0x4e,
        TokenV::Unk0x4f => 0x4f,
        TokenV::Reserved => 0xff,
    }
}

/// The token that a type byte stands for on its own, for the types that carry
/// no payload.
pub open spec fn simple_token(tag: u8) -> Option<TokenV> {
    if tag == 0x00 {
        Some(TokenV::Terminator)
    }
    else if tag == 0x01 {
        Some(TokenV::Newline)
    }
    else if tag == 0x03 {
        Some(TokenV::LeftBrace)
    }
    else if tag == 0x04 {
        Some(TokenV::RightBrace)
    }
    else if tag == 0x05 {
        Some(TokenV::LeftBracket)
    }
    else if tag == 0x06 {
        Some(TokenV::RightBracket)
    }
    else if tag == 0x07 {
        Some(TokenV::Equals)
    }
    else if tag == 0x08 {
        Some(TokenV::Property)
    }
    else if tag == 0x09 {
        Some(TokenV::Comma)
    }
    else if tag == 0x0a {
        Some(TokenV::Subtract)
    }
    else if tag == 0x0b {
        Some(TokenV::Add)
    }
    else if tag == 0x0c {
        Some(TokenV::Divide)
    }
    else if tag == 0x0d {
        Some(TokenV::Multiply)
    }
    else if tag == 0x0e {
        Some(TokenV::LeftParen)
    }
    else if tag == 0x0f {
        Some(TokenV::RightParen)
    }
    else if tag == 0x10 {
        Some(TokenV::Unk0x10)
    }
    else if tag == 0x11 {
        Some(TokenV::Unk0x11)
    }
    else if tag == 0x12 {
        Some(TokenV::LessThan)
    }
    else if tag == 0x13 {
        Some(TokenV::LessThanEq)
    }
    else if tag == 0x14 {
        Some(TokenV::GreaterThan)
    }
    else if tag == 0x15 {
        Some(TokenV::GreaterThanEq)
    }
    else if tag == 0x18 {
        Some(TokenV::Unk0x18)
    }
    else if tag == 0x19 {
        Some(TokenV::Unk0x19)
    }
    else if tag == 0x1d {
        Some(TokenV::Unk0x1d)
    }
    else if tag == 0x20 {
        Some(TokenV::Begin)
    }
    else if tag == 0x21 {
        Some(TokenV::Repeat)
    }
    else if tag == 0x22 {
        Some(TokenV::Break)
    }
    else if tag == 0x23 {
        Some(TokenV::Script)
    }
    else if tag == 0x24 {
        Some(TokenV::EndScript)
    }
    else if tag == 0x25 {
        Some(TokenV::If)
    }
    else if tag == 0x26 {
        Some(TokenV::Else)
    }
    else if tag == 0x27 {
        Some(TokenV::ElseIf)
    }
    else if tag == 0x28 {
        Some(TokenV::EndIf)
    }
    else if tag == 0x29 {
        Some(TokenV::Return)
    }
    else if tag == 0x2a {
        Some(TokenV::Unk0x2a)
    }
    else if tag == 0x2c {
        Some(TokenV::GlobalAll)
    }
    else if tag == 0x2d {
        Some(TokenV::Global)
    }
    else if tag == 0x30 {
        Some(TokenV::RandomRange)
    }
    else if tag == 0x31 {
        Some(TokenV::Unk0x31)
    }
    else if tag == 0x32 {
        Some(TokenV::Or)
    }
    else if tag == 0x33 {
        Some(TokenV::And)
    }
    else if tag == 0x34 {
        Some(TokenV::Xor)
    }
    else if tag == 0x35 {
        Some(TokenV::ShiftLeft)
    }
    else if tag == 0x36 {
        Some(TokenV::ShiftRight)
    }
    else if tag == 0x38 {
        Some(TokenV::RandomRange2)
    }
    else if tag == 0x39 {
        Some(TokenV::Not)
    }
    else if tag == 0x3a {
        Some(TokenV::Unk0x3a)
    }
    else if tag == 0x3b {
        Some(TokenV::Unk0x3b)
    }
    else if tag == 0x3c {
        Some(TokenV::Switch)
    }
    else if tag == 0x3d {
        Some(TokenV::EndSwitch)
    }
    else if tag == 0x3e {
        Some(TokenV::Case)
    }
    else if tag == 0x3f {
        Some(TokenV::Default)
    }
    else if tag == 0x42 {
        Some(TokenV::Member)
    }
    else if tag == 0x43 {
        Some(TokenV::CFunc)
    }
    else if tag == 0x44 {
        Some(TokenV::MemberFunc)
    }
    else if tag == 0x45 {
        Some(TokenV::Unk0x45)
    }
    else if tag == 0x46 {
        Some(TokenV::Unk0x46)
    }
    else if tag == 0x4a {
        Some(TokenV::Unk0x4a)
    }
    else if tag == 0x4b {
        Some(TokenV::Unk0x4b)
    }
    else if tag == 0x4c {
        Some(TokenV::Unk0x4c)
    }
    else if tag == 0x4d {
        Some(TokenV::Unk0x4d)
    }
    else if tag == 0x4e {
        Some(TokenV::Unk0x4e)
    }
    else if tag == 0x4f {
        Some(TokenV::Unk0x4f)
    }
    else if tag == 0xff {
        Some(TokenV::Reserved)
    }
    else {
        None
    }
}

fn simple_token_exec(tag: u8) -> (r: Option<Token>)
    ensures
        r is Some <==> simple_token(tag) is Some,
        r matches Some(t) ==> simple_token(tag) == Some(t@),
{
    match tag {
        0x00 => Some(Token::Terminator),
        0x01 => Some(Token::Newline),
        0x03 => Some(Token::LeftBrace),
        0x04 => Some(Token::RightBrace),
        0x05 => Some(Token::LeftBracket),
        0x06 => Some(Token::RightBracket),
        0x07 => Some(Token::Equals),
        0x08 => Some(Token::Property),
        0x09 => Some(Token::Comma),
        0x0a => Some(Token::Subtract),
        0x0b => Some(Token::Add),
        0x0c => Some(Token::Divide),
        0x0d => Some(Token::Multiply),
        0x0e => Some(Token::LeftParen),
        0x0f => Some(Token::RightParen),
        0x10 => Some(Token::Unk0x10),
        0x11 => Some(Token::Unk0x11),
        0x12 => Some(Token::LessThan),
        0x13 => Some(Token::LessThanEq),
        0x14 => Some(Token::GreaterThan),
        0x15 => Some(Token::GreaterThanEq),
        0x18 => Some(Token::Unk0x18),
        0x19 => Some(Token::Unk0x19),
        0x1d => Some(Token::Unk0x1d),
        0x20 => Some(Token::Begin),
        0x21 => Some(Token::Repeat),
        0x22 => Some(Token::Break),
        0x23 => Some(Token::Script),
        0x24 => Some(Token::EndScript),
        0x25 => Some(Token::If),
        0x26 => Some(Token::Else),
        0x27 => Some(Token::ElseIf),
        0x28 => Some(Token::EndIf),
        0x29 => Some(Token::Return),
        0x2a => Some(Token::Unk0x2a),
        0x2c => Some(Token::GlobalAll),
        0x2d => Some(Token::Global),
        0x30 => Some(Token::RandomRange),
        0x31 => Some(Token::Unk0x31),
        0x32 => Some(Token::Or),
        0x33 => Some(Token::And),
        0x34 => Some(Token::Xor),
        0x35 => Some(Token::ShiftLeft),
        0x36 => Some(Token::ShiftRight),
        0x38 => Some(Token::RandomRange2),
        0x39 => Some(Token::Not),
        0x3a => Some(Token::Unk0x3a),
        0x3b => Some(Token::Unk0x3b),
        0x3c => Some(Token::Switch),
        0x3d => Some(Token::EndSwitch),
        0x3e => Some(Token::Case),
        0x3f => Some(Token::Default),
        0x42 => Some(Token::Member),
        0x43 => Some(Token::CFunc),
        0x44 => Some(Token::MemberFunc),
        0x45 => Some(Token::Unk0x45),
        0x46 => Some(Token::Unk0x46),
        0x4a => Some(Token::Unk0x4a),
        0x4b => Some(Token::Unk0x4b),
        0x4c => Some(Token::Unk0x4c),
        0x4d => Some(Token::Unk0x4d),
        0x4e => Some(Token::Unk0x4e),
        0x4f => Some(Token::Unk0x4f),
        0xff => Some(Token::Reserved),
        _ => None,
    }
}

impl Token {
    /// The type byte of the token.
    pub fn tag(&self) -> (r: u8)
        ensures
            r == token_tag(self@),
    {
        match self {
            Token::Terminator => 0x00,
            Token::Newline => 0x01,
            Token::NewlineDebug(..) => 0x02,
            Token::LeftBrace => 0x03,
            Token::RightBrace => 0x04,
            Token::LeftBracket => 0x05,
            Token::RightBracket => 0x06,
            Token::Equals => 0x07,
            Token::Property => 0x08,
            Token::Comma => 0x09,
            Token::Subtract => 0x0a,
            Token::Add => 0x0b,
            Token::Divide => 0x0c,
            Token::Multiply => 0x0d,
            Token::LeftParen => 0x0e,
            Token::RightParen => 0x0f,
            Token::Unk0x10 => 0x10,
            Token::Unk0x11 => 0x11,
            Token::LessThan => 0x12,
            Token::LessThanEq => 0x13,
            Token::GreaterThan => 0x14,
            Token::GreaterThanEq => 0x15,
            Token::Symbol(..) => 0x16,
            Token::Integer(..) => 0x17,
            Token::Unk0x18 => 0x18,
            Token::Unk0x19 => 0x19,
            Token::Float(..) => 0x1a,
            Token::String(..) => 0x1b,
            Token::Param(..) => 0x1c,
            Token::Unk0x1d => 0x1d,
            Token::Vec3(..) => 0x1e,
            Token::Vec2(..) => 0x1f,
            Token::Begin => 0x20,
            Token::Repeat => 0x21,
            Token::Break => 0x22,
            Token::Script => 0x23,
            Token::EndScript => 0x24,
            Token::If => 0x25,
            Token::Else => 0x26,
            Token::ElseIf => 0x27,
            Token::EndIf => 0x28,
            Token::Return => 0x29,
            Token::Unk0x2a => 0x2a,
            Token::SymbolDef(..) => 0x2b,
            Token::GlobalAll => 0x2c,
            Token::Global => 0x2d,
            Token::Jump(..) => 0x2e,
            Token::Random(..) => 0x2f,
            Token::RandomRange => 0x30,
            Token::Unk0x31 => 0x31,
            Token::Or => 0x32,
            Token::And => 0x33,
            Token::Xor => 0x34,
            Token::ShiftLeft => 0x35,
            Token::ShiftRight => 0x36,
            Token::Random2(..) => 0x37,
            Token::RandomRange2 => 0x38,
            Token::Not => 0x39,
            Token::Unk0x3a => 0x3a,
            Token::Unk0x3b => 0x3b,
            Token::Switch => 0x3c,
            Token::EndSwitch => 0x3d,
            Token::Case => 0x3e,
            Token::Default => 0x3f,
            Token::RandomNoRepeat(..) => 0x40,
            Token::RandomPermute(..) => 0x41,
            Token::Member => 0x42,
            Token::CFunc => 0x43,
            Token::MemberFunc => 0x44,
            Token::Unk0x45 => 0x45,
            Token::Unk0x46 => 0x46,
            Token::If2(..) => 0x47,
            Token::Else2(..) => 0x48,
            Token::EndSwitch2(..) => 0x49,
            Token::Unk0x4a => 0x4a,
            Token::Unk0x4b => 0x4b,
            Token::Unk0x4c => 0x4c,
            Token::Unk0x4d => 0x4d,
            Token::Unk0x4e => 0x4e,
            Token::Unk0x4f => 0x4f,
            Token::Reserved => 0xff,
        }
    }
}

/// A string with a length prefix: the length counting a terminating zero, as a
/// 32-bit value, then the bytes, then the zero.
pub open spec fn fixed_string_bytes(b: Seq<u8>) -> Seq<u8> {
    i32_bytes((b.len() + 1) as i32) + b + seq![0u8]
}

/// A string ended by a zero byte.
pub open spec fn cstring_bytes(b: Seq<u8>) -> Seq<u8> {
    b + seq![0u8]
}

/// The bytes of a list of signed 32-bit values, one after the other.
pub open spec fn i32s_bytes(v: Seq<i32>) -> Seq<u8>
    decreases v.len(),
{
    if v.len() == 0 {
        Seq::empty()
    } else {
        i32s_bytes(v.drop_last()) + i32_bytes(v.last())
    }
}

/// The `n` signed 32-bit values stored one after the other in `s` from `p` on.
pub open spec fn i32s_at(s: Seq<u8>, p: int, n: nat) -> Seq<i32> {
    Seq::new(n, |i: int| i32_le(s, p + 4 * i))
}

/// The number of bytes before the first zero at or after `p`, if there is a zero.
pub open spec fn cstr_len(s: Seq<u8>, p: int) -> Option<nat>
    decreases s.len() - p,
{
    if p < 0 || p >= s.len() {
        None
    } else if s[p] == 0 {
        Some(0)
    } else {
        match cstr_len(s, p + 1) {
            Some(n) => Some(n + 1),
            None => None,
        }
    }
}

/// The payload of a token: what follows its type byte.
pub open spec fn token_payload(t: TokenV) -> Seq<u8> {
    match t {
        TokenV::NewlineDebug(v) => i32_bytes(v),
        TokenV::Integer(v) => i32_bytes(v),
        TokenV::Jump(v) => i32_bytes(v),
        TokenV::Symbol(v) => u32_bytes(v),
        TokenV::Float(v) => u32_bytes(v),
        TokenV::String(b) => fixed_string_bytes(b),
        TokenV::Param(b) => fixed_string_bytes(b),
        TokenV::Vec3(x, y, z) => u32_bytes(x) + u32_bytes(y) + u32_bytes(z),
        TokenV::Vec2(x, y) => u32_bytes(x) + u32_bytes(y),
        TokenV::SymbolDef(c, b) => u32_bytes(c) + cstring_bytes(b),
        TokenV::Random(c, v) => u32_bytes(c) + u32s_bytes(v),
        TokenV::Random2(c, v) => u32_bytes(c) + u32s_bytes(v),
        TokenV::RandomNoRepeat(c, v) => u32_bytes(c) + u32s_bytes(v),
        TokenV::RandomPermute(c, v) => i32_bytes(c) + i32s_bytes(v),
        TokenV::If2(v) => i16_bytes(v),
        TokenV::Else2(v) => i16_bytes(v),
        TokenV::EndSwitch2(v) => i16_bytes(v),
        _ => Seq::empty(),
    }
}

/// The bytes of a token: its type byte, then its payload.
pub open spec fn token_bytes(t: TokenV) -> Seq<u8> {
    seq![token_tag(t)] + token_payload(t)
}

/// The tokens that can be written and read back as they are: a length-prefixed
/// string fits its 32-bit length, a zero-ended string holds no zero, and a list
/// holds as many values as its count says.
pub open spec fn token_wf(t: TokenV) -> bool {
    match t {
        TokenV::String(b) => b.len() + 1 <= i32::MAX,
        TokenV::Param(b) => b.len() + 1 <= i32::MAX,
        TokenV::SymbolDef(_, b) => forall|i: int| 0 <= i < b.len() ==> b[i] != 0,
        TokenV::Random(c, v) => v.len() == c,
        TokenV::Random2(c, v) => v.len() == c,
        TokenV::RandomNoRepeat(c, v) => v.len() == c,
        TokenV::RandomPermute(c, v) => c >= 0 && v.len() == c,
        _ => true,
    }
}

/// What reading a token from `s` at `p` gives: the token and the position after it,
/// or the error.
pub open spec fn parse_token(s: Seq<u8>, p: int) -> Result<(TokenV, int), Failure> {
    if !avail(s, p, 1) {
        eof()
    } else {
        let tag = s[p];
        let q = p + 1;
        if simple_token(tag) is Some {
            Ok((simple_token(tag)->Some_0, q))
        } else if tag == 0x02 || tag == 0x17 || tag == 0x2e {
            if avail(s, q, 4) {
                let v = i32_le(s, q);
                Ok(
                    (
                        if tag == 0x02 {
                            TokenV::NewlineDebug(v)
                        } else if tag == 0x17 {
                            TokenV::Integer(v)
                        } else {
                            TokenV::Jump(v)
                        },
                        q + 4,
                    ),
                )
            } else {
                eof()
            }
        } else if tag == 0x16 || tag == 0x1a {
            if avail(s, q, 4) {
                let v = u32_le(s, q);
                Ok((if tag == 0x16 { TokenV::Symbol(v) } else { TokenV::Float(v) }, q + 4))
            } else {
                eof()
            }
        } else if tag == 0x1b || tag == 0x1c {
            if avail(s, q, 4) && avail(s, q + 4, i32_le(s, q) as int) {
                let f = i32_le(s, q) as int;
                let b = s.subrange(q + 4, q + 4 + f - 1);
                Ok((if tag == 0x1b { TokenV::String(b) } else { TokenV::Param(b) }, q + 4 + f))
            } else {
                eof()
            }
        } else if tag == 0x1e {
            if avail(s, q, 12) {
                Ok((TokenV::Vec3(u32_le(s, q), u32_le(s, q + 4), u32_le(s, q + 8)), q + 12))
            } else {
                eof()
            }
        } else if tag == 0x1f {
            if avail(s, q, 8) {
                Ok((TokenV::Vec2(u32_le(s, q), u32_le(s, q + 4)), q + 8))
            } else {
                eof()
            }
        } else if tag == 0x2b {
            if avail(s, q, 4) && cstr_len(s, q + 4) is Some {
                let n = cstr_len(s, q + 4)->Some_0 as int;
                Ok((TokenV::SymbolDef(u32_le(s, q), s.subrange(q + 4, q + 4 + n)), q + 4 + n + 1))
            } else {
                eof()
            }
        } else if tag == 0x2f || tag == 0x37 || tag == 0x40 {
            if avail(s, q, 4) && avail(s, q + 4, 4 * u32_le(s, q)) {
                let c = u32_le(s, q);
                let v = u32s_at(s, q + 4, c as nat);
                Ok(
                    (
                        if tag == 0x2f {
                            TokenV::Random(c, v)
                        } else if tag == 0x37 {
                            TokenV::Random2(c, v)
                        } else {
                            TokenV::RandomNoRepeat(c, v)
                        },
                        q + 4 + 4 * c,
                    ),
                )
            } else {
                eof()
            }
        } else if tag == 0x41 {
            if avail(s, q, 4) && avail(s, q + 4, 4 * i32_le(s, q)) {
                let c = i32_le(s, q);
                Ok((TokenV::RandomPermute(c, i32s_at(s, q + 4, c as nat)), q + 4 + 4 * c))
            } else {
                eof()
            }
        } else if tag == 0x47 || tag == 0x48 || tag == 0x49 {
            if avail(s, q, 2) {
                let v = i16_le(s, q);
                Ok(
                    (
                        if tag == 0x47 {
                            TokenV::If2(v)
                        } else if tag == 0x48 {
                            TokenV::Else2(v)
                        } else {
                            TokenV::EndSwitch2(v)
                        },
                        q + 2,
                    ),
                )
            } else {
                eof()
            }
        } else {
            fail(ErrorV::InvalidTokenType(tag), q)
        }
    }
}

/// Reading a token at `p` panics: a length-prefixed string whose length field is
/// not positive, or a permutation whose count is negative, makes the capacity
/// reserved for it overflow.
pub open spec fn token_read_panics(s: Seq<u8>, p: int) -> bool {
    &&& avail(s, p, 5)
    &&& {
        ||| (s[p] == 0x1b || s[p] == 0x1c) && i32_le(s, p + 1) <= 0
        ||| s[p] == 0x41 && i32_le(s, p + 1) < 0
    }
}

/// Whether reading a token at the reader's position would panic; the reader is
/// left where it was.
pub fn token_read_would_panic(reader: &mut ByteReader) -> (b: bool)
    ensures
        final(reader)@ == old(reader)@,
        b == token_read_panics(old(reader)@.bytes, old(reader)@.pos),
{
    let start = reader.stream_position();
    let tag = reader.read_u8();
    let len = reader.read_i32();
    reader.seek(start);
    match (tag, len) {
        (Ok(t), Ok(v)) => ((t == 0x1b || t == 0x1c) && v <= 0) || (t == 0x41 && v < 0),
        _ => false,
    }
}

impl ByteReader {
    /// Reads the next `n` bytes.
    pub fn read_bytes(&mut self, n: usize) -> (r: Result<Vec<u8>, crate::bytes::IoError>)
        ensures
            final(self)@.bytes == old(self)@.bytes,
            avail(old(self)@.bytes, old(self)@.pos, n as int) ==> r is Ok && r->Ok_0@.len() == n
                && (forall|i: int| 0 <= i < n ==> r->Ok_0@[i] == old(self)@.bytes[old(self)@.pos + i])
                && final(self)@.pos == old(self)@.pos + n,
            !avail(old(self)@.bytes, old(self)@.pos, n as int) ==> r
                == Err::<Vec<u8>, crate::bytes::IoError>(crate::bytes::IoError::UnexpectedEof),
    {
        let ghost s = self@.bytes;
        let ghost p = self@.pos;
        proof {
            lemma_reader_pos(*self);
        }
        let mut out: Vec<u8> = Vec::new();
        let mut i: usize = 0;
        while i < n
            invariant
                0 <= i <= n,
                s == old(self)@.bytes,
                p == old(self)@.pos,
                p >= 0,
                self@.bytes == s,
                self@.pos == p + i,
                avail(s, p, i as int),
                out@.len() == i,
                forall|j: int| 0 <= j < i ==> out@[j] == s[p + j],
            decreases n - i,
        {
            let b = self.read_u8()?;
            out.push(b);
            i = i + 1;
        }
        Ok(out)
    }
}

fn read_i32s(reader: &mut ByteReader, count: i32) -> (r: Result<Vec<i32>, Error>)
    requires
        count >= 0,
    ensures
        final(reader)@.bytes == old(reader)@.bytes,
        avail(old(reader)@.bytes, old(reader)@.pos, 4 * count) ==> r is Ok && r->Ok_0@ == i32s_at(
            old(reader)@.bytes,
            old(reader)@.pos,
            count as nat,
        ) && final(reader)@.pos == old(reader)@.pos + 4 * count,
        !avail(old(reader)@.bytes, old(reader)@.pos, 4 * count) ==> r == Err::<Vec<i32>, Error>(Error::Io(crate::bytes::IoError::UnexpectedEof)),
{
    let ghost s = reader@.bytes;
    let ghost p = reader@.pos;
    proof {
        lemma_reader_pos(*reader);
    }
    let mut out: Vec<i32> = Vec::new();
    let mut i: i32 = 0;
    while i < count
        invariant
            0 <= i <= count,
            s == old(reader)@.bytes,
            p == old(reader)@.pos,
            p >= 0,
            reader@.bytes == s,
            reader@.pos == p + 4 * i,
            i > 0 ==> avail(s, p, 4 * i),
            out@ == i32s_at(s, p, i as nat),
        decreases count - i,
    {
        let v = io(reader.read_i32())?;
        out.push(v);
        i = i + 1;
        proof {
            assert(out@ =~= i32s_at(s, p, i as nat));
        }
    }
    Ok(out)
}

/// Reads the bytes before the next zero, and the zero.
pub fn read_cstring(reader: &mut ByteReader) -> (r: Result<Vec<u8>, Error>)
    ensures
        final(reader)@.bytes == old(reader)@.bytes,
        match cstr_len(old(reader)@.bytes, old(reader)@.pos) {
            Some(n) => r is Ok && r->Ok_0@ == old(reader)@.bytes.subrange(
                old(reader)@.pos,
                old(reader)@.pos + n,
            ) && final(reader)@.pos == old(reader)@.pos + n + 1,
            None => r == Err::<Vec<u8>, Error>(Error::Io(crate::bytes::IoError::UnexpectedEof)),
        },
{
    let ghost s = reader@.bytes;
    let ghost p = reader@.pos;
    proof {
        lemma_reader_pos(*reader);
    }
    let mut bytes: Vec<u8> = Vec::new();
    loop
        invariant
            s == old(reader)@.bytes,
            p == old(reader)@.pos,
            p >= 0,
            reader@.bytes == s,
            p <= reader@.pos,
            reader@.pos == p || reader@.pos <= s.len(),
            bytes@.len() == reader@.pos - p,
            forall|i: int| 0 <= i < bytes@.len() ==> bytes@[i] == s[p + i],
            forall|i: int| p <= i < reader@.pos ==> s[i] != 0,
            cstr_len(s, p) == match cstr_len(s, reader@.pos as int) {
                Some(n) => Some((n + (reader@.pos - p)) as nat),
                None => None::<nat>,
            },
        decreases s.len() - reader@.pos,
    {
        let ghost q = reader@.pos;
        let byte = io(reader.read_u8())?;
        if byte != 0 {
            bytes.push(byte);
        } else {
            proof {
                assert(bytes@ =~= s.subrange(p, p + bytes@.len()));
            }
            return Ok(bytes);
        }
    }
}

impl Token {
    /// Reads one token: its type byte, then the payload that the type calls for.
    pub fn read(reader: &mut ByteReader) -> (r: Result<Token, Error>)
        requires
            !token_read_panics(old(reader)@.bytes, old(reader)@.pos),
        ensures
            final(reader)@.bytes == old(reader)@.bytes,
            match parse_token(old(reader)@.bytes, old(reader)@.pos) {
                Ok((t, q)) => r is Ok && r->Ok_0@ == t && final(reader)@.pos == q,
                Err(f) => r is Err && failed_as(r->Err_0, final(reader)@.pos, f),
            },
    {
        let ghost s = reader@.bytes;
        let ghost p = reader@.pos;
        proof {
            lemma_reader_pos(*reader);
        }
        let tag = io(reader.read_u8())?;
        if let Some(t) = simple_token_exec(tag) {
            return Ok(t);
        }
        if tag == 0x02 || tag == 0x17 || tag == 0x2e {
            let v = io(reader.read_i32())?;
            Ok(
                if tag == 0x02 {
                    Token::NewlineDebug(v)
                } else if tag == 0x17 {
                    Token::Integer(v)
                } else {
                    Token::Jump(v)
                },
            )
        } else if tag == 0x16 || tag == 0x1a {
            let v = io(reader.read_u32())?;
            Ok(if tag == 0x16 { Token::Symbol(v) } else { Token::Float(v) })
        } else if tag == 0x1b || tag == 0x1c {
            // The length counts the terminating zero.
            let f = io(reader.read_i32())?;
            let len = f - 1;
            let bytes = io(reader.read_bytes(len as usize))?;
            // Consume the terminator.
            io(reader.read_u8())?;
            proof {
                assert(bytes@ =~= s.subrange(p + 5, p + 5 + len));
            }
            Ok(if tag == 0x1b { Token::String(bytes) } else { Token::Param(bytes) })
        } else if tag == 0x1e {
            let x = io(reader.read_u32())?;
            let y = io(reader.read_u32())?;
            let z = io(reader.read_u32())?;
            Ok(Token::Vec3(x, y, z))
        } else if tag == 0x1f {
            let x = io(reader.read_u32())?;
            let y = io(reader.read_u32())?;
            Ok(Token::Vec2(x, y))
        } else if tag == 0x2b {
            let checksum = io(reader.read_u32())?;
            let bytes = read_cstring(reader)?;
            Ok(Token::SymbolDef(checksum, bytes))
        } else if tag == 0x2f || tag == 0x37 || tag == 0x40 {
            let count = io(reader.read_u32())?;
            let offsets = io(reader.read_u32s(count))?;
            Ok(
                if tag == 0x2f {
                    Token::Random(count, offsets)
                } else if tag == 0x37 {
                    Token::Random2(count, offsets)
                } else {
                    Token::RandomNoRepeat(count, offsets)
                },
            )
        } else if tag == 0x41 {
            let count = io(reader.read_i32())?;
            let values = read_i32s(reader, count)?;
            Ok(Token::RandomPermute(count, values))
        } else if tag == 0x47 || tag == 0x48 || tag == 0x49 {
            let v = io(reader.read_i16())?;
            Ok(
                if tag == 0x47 {
                    Token::If2(v)
                } else if tag == 0x48 {
                    Token::Else2(v)
                } else {
                    Token::EndSwitch2(v)
                },
            )
        } else {
            Err(Error::InvalidTokenType(tag))
        }
    }
}

fn write_i32s(writer: &mut ByteWriter, values: &Vec<i32>)
    requires
        old(writer)@.pos + 4 * values@.len() <= usize::MAX,
    ensures
        final(writer)@ == old(writer)@.emit(i32s_bytes(values@)),
{
    let ghost st = writer@;
    proof {
        lemma_writer_pos(*writer);
        assert(values@.subrange(0, 0) =~= Seq::<i32>::empty());
        crate::bytes::lemma_emit_empty(st);
    }
    let mut i: usize = 0;
    while i < values.len()
        invariant
            0 <= i <= values@.len(),
            st.pos >= 0,
            st.pos + 4 * values@.len() <= usize::MAX,
            writer@ == st.emit(i32s_bytes(values@.subrange(0, i as int))),
            writer@.pos == st.pos + 4 * i,
        decreases values@.len() - i,
    {
        writer.write_i32(values[i]);
        proof {
            let pre = values@.subrange(0, i as int);
            let next = values@.subrange(0, i + 1);
            assert(next.drop_last() =~= pre);
            lemma_emit_emit(st, i32s_bytes(pre), i32_bytes(values@[i as int]));
            lemma_i32s_bytes_len(next);
        }
        i = i + 1;
    }
    proof {
        assert(values@.subrange(0, values@.len() as int) =~= values@);
    }
}

pub proof fn lemma_i32s_bytes_len(v: Seq<i32>)
    ensures
        i32s_bytes(v).len() == 4 * v.len(),
    decreases v.len(),
{
    if v.len() > 0 {
        lemma_i32s_bytes_len(v.drop_last());
    }
}

/// Writes a string with its length prefix and terminating zero.
fn write_fixed_string(writer: &mut ByteWriter, bytes: &Vec<u8>)
    requires
        old(writer)@.pos + bytes@.len() + 5 <= usize::MAX,
    ensures
        final(writer)@ == old(writer)@.emit(fixed_string_bytes(bytes@)),
{
    let ghost st = writer@;
    proof {
        lemma_writer_pos(*writer);
    }
    let len = (bytes.len() + 1) as i32;
    writer.write_i32(len);
    writer.write_all(bytes.as_slice());
    writer.write_u8(0);
    proof {
        lemma_emit_emit(st, i32_bytes(len), bytes@);
        lemma_emit_emit(st, i32_bytes(len) + bytes@, seq![0u8]);
    }
}

/// Writes a string and its terminating zero.
fn write_varlen_string(writer: &mut ByteWriter, bytes: &Vec<u8>)
    requires
        old(writer)@.pos + bytes@.len() + 1 <= usize::MAX,
    ensures
        final(writer)@ == old(writer)@.emit(cstring_bytes(bytes@)),
{
    let ghost st = writer@;
    proof {
        lemma_writer_pos(*writer);
    }
    writer.write_all(bytes.as_slice());
    writer.write_u8(0);
    proof {
        lemma_emit_emit(st, bytes@, seq![0u8]);
    }
}

pub proof fn lemma_token_bytes_len(t: TokenV)
    ensures
        token_bytes(t).len() == 1 + token_payload(t).len(),
        token_bytes(t).len() >= 1,
        token_bytes(t)[0] == token_tag(t),
        t matches TokenV::Random(c, v) ==> token_payload(t).len() == 4 + 4 * v.len(),
        t matches TokenV::Random2(c, v) ==> token_payload(t).len() == 4 + 4 * v.len(),
        t matches TokenV::RandomNoRepeat(c, v) ==> token_payload(t).len() == 4 + 4 * v.len(),
        t matches TokenV::RandomPermute(c, v) ==> token_payload(t).len() == 4 + 4 * v.len(),
{
    match t {
        TokenV::Random(c, v) => crate::bytes::lemma_u32s_bytes_len(v),
        TokenV::Random2(c, v) => crate::bytes::lemma_u32s_bytes_len(v),
        TokenV::RandomNoRepeat(c, v) => crate::bytes::lemma_u32s_bytes_len(v),
        TokenV::RandomPermute(c, v) => lemma_i32s_bytes_len(v),
        _ => {},
    }
}

impl Token {
    /// Writes the token: its type byte, then its payload.
    pub fn write(&self, writer: &mut ByteWriter)
        requires
            old(writer)@.pos + token_bytes(self@).len() <= usize::MAX,
        ensures
            final(writer)@ == old(writer)@.emit(token_bytes(self@)),
    {
        let ghost st = writer@;
        proof {
            lemma_writer_pos(*writer);
            lemma_token_bytes_len(self@);
        }
        writer.write_u8(self.tag());
        match self {
            Token::NewlineDebug(v) | Token::Integer(v) | Token::Jump(v) => writer.write_i32(*v),
            Token::Symbol(v) | Token::Float(v) => writer.write_u32(*v),
            Token::String(bytes) | Token::Param(bytes) => write_fixed_string(writer, bytes),
            Token::Vec3(x, y, z) => {
                let ghost st1 = writer@;
                writer.write_u32(*x);
                writer.write_u32(*y);
                writer.write_u32(*z);
                proof {
                    lemma_emit_emit(st1, u32_bytes(*x), u32_bytes(*y));
                    lemma_emit_emit(st1, u32_bytes(*x) + u32_bytes(*y), u32_bytes(*z));
                }
            },
            Token::Vec2(x, y) => {
                let ghost st1 = writer@;
                writer.write_u32(*x);
                writer.write_u32(*y);
                proof {
                    lemma_emit_emit(st1, u32_bytes(*x), u32_bytes(*y));
                }
            },
            Token::SymbolDef(checksum, bytes) => {
                let ghost st1 = writer@;
                writer.write_u32(*checksum);
                write_varlen_string(writer, bytes);
                proof {
                    lemma_emit_emit(st1, u32_bytes(*checksum), cstring_bytes(bytes@));
                }
            },
            Token::Random(count, offsets) | Token::Random2(count, offsets) | Token::RandomNoRepeat(
                count,
                offsets,
            ) => {
                let ghost st1 = writer@;
                writer.write_u32(*count);
                writer.write_u32s(offsets);
                proof {
                    lemma_emit_emit(st1, u32_bytes(*count), u32s_bytes(offsets@));
                }
            },
            Token::RandomPermute(count, items) => {
                let ghost st1 = writer@;
                writer.write_i32(*count);
                write_i32s(writer, items);
                proof {
                    lemma_emit_emit(st1, i32_bytes(*count), i32s_bytes(items@));
                }
            },
            Token::If2(v) | Token::Else2(v) | Token::EndSwitch2(v) => writer.write_i16(*v),
            _ => {},
        }
        proof {
            lemma_emit_emit(st, seq![token_tag(self@)], token_payload(self@));
            assert(seq![token_tag(self@)] + token_payload(self@) == token_bytes(self@));
        }
    }
}

/// Whether the token has no payload: its type byte alone is the token.
pub open spec fn is_simple(t: TokenV) -> bool {
    token_payload(t) == Seq::<u8>::empty() && !(t is String) && !(t is Param) && !(t is SymbolDef)
        && !(t is Random) && !(t is Random2) && !(t is RandomNoRepeat) && !(t is RandomPermute)
}

pub proof fn lemma_simple_token(t: TokenV)
    ensures
        simple_token(token_tag(t)) is Some <==> is_simple(t),
        is_simple(t) ==> simple_token(token_tag(t)) == Some(t),
{
    lemma_token_bytes_len(t);
    match t {
        TokenV::String(b) => {
            assert(token_payload(t).len() >= 5);
        },
        TokenV::Param(b) => {
            assert(token_payload(t).len() >= 5);
        },
        TokenV::SymbolDef(c, b) => {
            assert(token_payload(t).len() >= 5);
        },
        _ => {},
    }
}

pub proof fn lemma_i32_round_trip(v: i32, front: Seq<u8>, rest: Seq<u8>)
    ensures
        i32_le(front + i32_bytes(v) + rest, front.len() as int) == v,
{
    crate::bytes::lemma_u32_round_trip(crate::bytes::bits_of_i32(v), rest, front);
    crate::bytes::lemma_i32_bits(v);
}

pub proof fn lemma_i16_round_trip(v: i16, front: Seq<u8>, rest: Seq<u8>)
    ensures
        i16_le(front + i16_bytes(v) + rest, front.len() as int) == v,
{
    crate::bytes::lemma_u16_round_trip(crate::bytes::bits_of_i16(v), rest, front);
    crate::bytes::lemma_i16_bits(v);
}

pub proof fn lemma_i32s_round_trip(v: Seq<i32>, front: Seq<u8>, rest: Seq<u8>)
    ensures
        i32s_at(front + i32s_bytes(v) + rest, front.len() as int, v.len()) == v,
    decreases v.len(),
{
    let s = front + i32s_bytes(v) + rest;
    if v.len() > 0 {
        let init = v.drop_last();
        lemma_i32s_bytes_len(init);
        assert(s =~= front + i32s_bytes(init) + (i32_bytes(v.last()) + rest));
        lemma_i32s_round_trip(init, front, i32_bytes(v.last()) + rest);
        assert(s =~= (front + i32s_bytes(init)) + i32_bytes(v.last()) + rest);
        lemma_i32_round_trip(v.last(), front + i32s_bytes(init), rest);
        let f = front.len() as int;
        assert forall|i: int| 0 <= i < v.len() implies #[trigger] i32s_at(s, f, v.len())[i]
            == v[i] by {
            if i < init.len() {
                assert(i32s_at(s, f, init.len())[i] == init[i]);
            }
        }
    }
    assert(i32s_at(s, front.len() as int, v.len()) =~= v);
}

/// The zero that ends a string holding no zero is found right after it.
pub proof fn lemma_cstr_len_of(s: Seq<u8>, p: int, n: nat, i: nat)
    requires
        0 <= p,
        p + n < s.len(),
        s[p + n] == 0,
        forall|j: int| 0 <= j < n ==> #[trigger] s[p + j] != 0,
        i <= n,
    ensures
        cstr_len(s, p + i) == Some((n - i) as nat),
    decreases n - i,
{
    if i < n {
        lemma_cstr_len_of(s, p, n, i + 1);
    }
}

/// What `cstr_len` finds: `n` bytes that are not zero, then a zero.
pub proof fn lemma_cstr_len_means(s: Seq<u8>, p: int)
    ensures
        cstr_len(s, p) matches Some(n) ==> 0 <= p && p + n < s.len() && s[p + n] == 0 && (forall|
            j: int,
        | 0 <= j < n ==> #[trigger] s[p + j] != 0),
    decreases s.len() - p,
{
    if 0 <= p < s.len() && s[p] != 0 {
        lemma_cstr_len_means(s, p + 1);
        if let Some(n) = cstr_len(s, p + 1) {
            assert forall|j: int| 0 <= j < n + 1 implies #[trigger] s[p + j] != 0 by {
                if j > 0 {
                    assert(s[(p + 1) + (j - 1)] != 0);
                }
            }
        }
    }
}

/// Reading `t` from the bytes written for it, between any bytes before and after,
/// gives `t` and the position right after it, without panicking.
pub open spec fn token_written_reads_back(t: TokenV, front: Seq<u8>, rest: Seq<u8>) -> bool {
    &&& parse_token(front + token_bytes(t) + rest, front.len() as int) == Ok::<(TokenV, int), Failure>(
        (t, (front.len() + token_bytes(t).len()) as int),
    )
    &&& !token_read_panics(front + token_bytes(t) + rest, front.len() as int)
}

proof fn lemma_wr_setup(t: TokenV, front: Seq<u8>, rest: Seq<u8>)
    ensures
        front + token_bytes(t) + rest =~= (front + seq![token_tag(t)]) + token_payload(t) + rest,
        (front + token_bytes(t) + rest)[front.len() as int] == token_tag(t),
{
    lemma_token_bytes_len(t);
    assert(front + token_bytes(t) + rest =~= (front + seq![token_tag(t)]) + token_payload(t) + rest);
}

proof fn lemma_wr_simple(t: TokenV, front: Seq<u8>, rest: Seq<u8>)
    requires
        is_simple(t),
    ensures
        token_written_reads_back(t, front, rest),
{
    lemma_wr_setup(t, front, rest);
    lemma_simple_token(t);
    lemma_token_bytes_len(t);
}

#[verifier::spinoff_prover]
#[verifier::rlimit(40)]
proof fn lemma_wr_word(t: TokenV, front: Seq<u8>, rest: Seq<u8>)
    requires
        t is NewlineDebug || t is Integer || t is Jump || t is Symbol || t is Float || t is If2
            || t is Else2 || t is EndSwitch2,
    ensures
        token_written_reads_back(t, front, rest),
{
    lemma_wr_setup(t, front, rest);
    lemma_simple_token(t);
    lemma_token_bytes_len(t);
    let hd = front + seq![token_tag(t)];
    match t {
        TokenV::NewlineDebug(v) => lemma_i32_round_trip(v, hd, rest),
        TokenV::Integer(v) => lemma_i32_round_trip(v, hd, rest),
        TokenV::Jump(v) => lemma_i32_round_trip(v, hd, rest),
        TokenV::Symbol(v) => crate::bytes::lemma_u32_round_trip(v, rest, hd),
        TokenV::Float(v) => crate::bytes::lemma_u32_round_trip(v, rest, hd),
        TokenV::If2(v) => lemma_i16_round_trip(v, hd, rest),
        TokenV::Else2(v) => lemma_i16_round_trip(v, hd, rest),
        TokenV::EndSwitch2(v) => lemma_i16_round_trip(v, hd, rest),
        _ => {},
    }
}

#[verifier::spinoff_prover]
#[verifier::rlimit(40)]
proof fn lemma_wr_vec(t: TokenV, front: Seq<u8>, rest: Seq<u8>)
    requires
        t is Vec3 || t is Vec2,
    ensures
        token_written_reads_back(t, front, rest),
{
    lemma_wr_setup(t, front, rest);
    lemma_simple_token(t);
    lemma_token_bytes_len(t);
    let s = front + token_bytes(t) + rest;
    let hd = front + seq![token_tag(t)];
    match t {
        TokenV::Vec3(x, y, z) => {
            crate::bytes::lemma_u32_round_trip(x, u32_bytes(y) + u32_bytes(z) + rest, hd);
            assert(s =~= hd + u32_bytes(x) + (u32_bytes(y) + u32_bytes(z) + rest));
            crate::bytes::lemma_u32_round_trip(y, u32_bytes(z) + rest, hd + u32_bytes(x));
            assert(s =~= (hd + u32_bytes(x)) + u32_bytes(y) + (u32_bytes(z) + rest));
            crate::bytes::lemma_u32_round_trip(z, rest, hd + u32_bytes(x) + u32_bytes(y));
            assert(s =~= (hd + u32_bytes(x) + u32_bytes(y)) + u32_bytes(z) + rest);
        },
        TokenV::Vec2(x, y) => {
            crate::bytes::lemma_u32_round_trip(x, u32_bytes(y) + rest, hd);
            assert(s =~= hd + u32_bytes(x) + (u32_bytes(y) + rest));
            crate::bytes::lemma_u32_round_trip(y, rest, hd + u32_bytes(x));
            assert(s =~= (hd + u32_bytes(x)) + u32_bytes(y) + rest);
        },
        _ => {},
    }
}

#[verifier::spinoff_prover]
#[verifier::rlimit(40)]
proof fn lemma_wr_fixed(t: TokenV, front: Seq<u8>, rest: Seq<u8>)
    requires
        t is String || t is Param,
        token_wf(t),
    ensures
        token_written_reads_back(t, front, rest),
{
    lemma_wr_setup(t, front, rest);
    lemma_simple_token(t);
    lemma_token_bytes_len(t);
    let s = front + token_bytes(t) + rest;
    let f = front.len() as int;
    let hd = front + seq![token_tag(t)];
    let b = match t {
        TokenV::String(b) => b,
        TokenV::Param(b) => b,
        _ => Seq::empty(),
    };
    let len = (b.len() + 1) as i32;
    assert(token_payload(t) == i32_bytes(len) + b + seq![0u8]);
    assert(s =~= hd + i32_bytes(len) + (b + seq![0u8] + rest));
    lemma_i32_round_trip(len, hd, b + seq![0u8] + rest);
    assert(s.subrange(f + 5, f + 5 + b.len()) =~= b);
}

#[verifier::spinoff_prover]
#[verifier::rlimit(40)]
proof fn lemma_wr_symdef(t: TokenV, front: Seq<u8>, rest: Seq<u8>)
    requires
        t is SymbolDef,
        token_wf(t),
    ensures
        token_written_reads_back(t, front, rest),
{
    lemma_wr_setup(t, front, rest);
    lemma_simple_token(t);
    lemma_token_bytes_len(t);
    let s = front + token_bytes(t) + rest;
    let f = front.len() as int;
    let hd = front + seq![token_tag(t)];
    if let TokenV::SymbolDef(c, b) = t {
        assert(s =~= hd + u32_bytes(c) + (b + seq![0u8] + rest));
        crate::bytes::lemma_u32_round_trip(c, b + seq![0u8] + rest, hd);
        assert forall|j: int| 0 <= j < b.len() implies #[trigger] s[f + 5 + j] != 0 by {
            assert(s[f + 5 + j] == b[j]);
        }
        lemma_cstr_len_of(s, f + 5, b.len(), 0);
        assert(s.subrange(f + 5, f + 5 + b.len()) =~= b);
    }
}

#[verifier::spinoff_prover]
#[verifier::rlimit(40)]
proof fn lemma_wr_random(t: TokenV, front: Seq<u8>, rest: Seq<u8>)
    requires
        t is Random || t is Random2 || t is RandomNoRepeat,
        token_wf(t),
    ensures
        token_written_reads_back(t, front, rest),
{
    lemma_wr_setup(t, front, rest);
    lemma_simple_token(t);
    lemma_token_bytes_len(t);
    let s = front + token_bytes(t) + rest;
    let hd = front + seq![token_tag(t)];
    let (c, v) = match t {
        TokenV::Random(c, v) => (c, v),
        TokenV::Random2(c, v) => (c, v),
        TokenV::RandomNoRepeat(c, v) => (c, v),
        _ => (0u32, Seq::empty()),
    };
    assert(token_payload(t) == u32_bytes(c) + u32s_bytes(v));
    assert(s =~= hd + u32_bytes(c) + (u32s_bytes(v) + rest));
    crate::bytes::lemma_u32_round_trip(c, u32s_bytes(v) + rest, hd);
    assert(s =~= (hd + u32_bytes(c)) + u32s_bytes(v) + rest);
    crate::bytes::lemma_u32s_round_trip(v, hd + u32_bytes(c), rest);
}

#[verifier::spinoff_prover]
#[verifier::rlimit(40)]
proof fn lemma_wr_permute(t: TokenV, front: Seq<u8>, rest: Seq<u8>)
    requires
        t is RandomPermute,
        token_wf(t),
    ensures
        token_written_reads_back(t, front, rest),
{
    lemma_wr_setup(t, front, rest);
    lemma_simple_token(t);
    lemma_token_bytes_len(t);
    let s = front + token_bytes(t) + rest;
    let hd = front + seq![token_tag(t)];
    if let TokenV::RandomPermute(c, v) = t {
        assert(s =~= hd + i32_bytes(c) + (i32s_bytes(v) + rest));
        lemma_i32_round_trip(c, hd, i32s_bytes(v) + rest);
        assert(s =~= (hd + i32_bytes(c)) + i32s_bytes(v) + rest);
        lemma_i32s_round_trip(v, hd + i32_bytes(c), rest);
    }
}

/// Reading a token back from the bytes written for it gives the token, and the
/// position right after those bytes.
pub proof fn law_token_write_read(t: TokenV, front: Seq<u8>, rest: Seq<u8>)
    requires
        token_wf(t),
    ensures
        token_written_reads_back(t, front, rest),
{
    if t is NewlineDebug || t is Integer || t is Jump || t is Symbol || t is Float || t is If2
        || t is Else2 || t is EndSwitch2 {
        lemma_wr_word(t, front, rest);
    } else if t is Vec3 || t is Vec2 {
        lemma_wr_vec(t, front, rest);
    } else if t is String || t is Param {
        lemma_wr_fixed(t, front, rest);
    } else if t is SymbolDef {
        lemma_wr_symdef(t, front, rest);
    } else if t is Random || t is Random2 || t is RandomNoRepeat {
        lemma_wr_random(t, front, rest);
    } else if t is RandomPermute {
        lemma_wr_permute(t, front, rest);
    } else {
        lemma_wr_simple(t, front, rest);
    }
}

pub proof fn lemma_i32_bytes_of_le(s: Seq<u8>, p: int)
    requires
        0 <= p,
        p + 4 <= s.len(),
    ensures
        i32_bytes(i32_le(s, p)) == s.subrange(p, p + 4),
{
    crate::bytes::lemma_u32_bytes_of_le(s, p);
    crate::bytes::lemma_bits_i32(u32_le(s, p));
}

pub proof fn lemma_i16_bytes_of_le(s: Seq<u8>, p: int)
    requires
        0 <= p,
        p + 2 <= s.len(),
    ensures
        i16_bytes(i16_le(s, p)) == s.subrange(p, p + 2),
{
    crate::bytes::lemma_u16_bytes_of_le(s, p);
    crate::bytes::lemma_bits_i16(crate::bytes::u16_le(s, p));
}

pub proof fn lemma_i32s_bytes_of_at(s: Seq<u8>, p: int, n: nat)
    requires
        0 <= p,
        p + 4 * n <= s.len(),
    ensures
        i32s_bytes(i32s_at(s, p, n)) == s.subrange(p, p + 4 * n),
    decreases n,
{
    if n > 0 {
        let m = (n - 1) as nat;
        lemma_i32s_bytes_of_at(s, p, m);
        assert(i32s_at(s, p, n).drop_last() =~= i32s_at(s, p, m));
        lemma_i32_bytes_of_le(s, p + 4 * m);
        assert(s.subrange(p, p + 4 * m) + s.subrange(p + 4 * m, p + 4 * n) =~= s.subrange(
            p,
            p + 4 * n,
        ));
    } else {
        assert(i32s_bytes(i32s_at(s, p, 0)) =~= s.subrange(p, p));
    }
}

/// A token read from bytes is canonical when a length-prefixed string in it
/// ends with a zero byte, as the writer would end it.
pub open spec fn token_read_canonical(s: Seq<u8>, p: int) -> bool {
    parse_token(s, p) matches Ok((t, q)) ==> ((t is String || t is Param) ==> s[q - 1] == 0)
}

/// Writing `t` gives back the bytes of `s` from `p` to `q` it was read from, and
/// `t` is one that can be written and read back.
pub open spec fn token_read_writes_back(s: Seq<u8>, p: int) -> bool {
    parse_token(s, p) matches Ok((t, q)) ==> token_bytes(t) == s.subrange(p, q) && token_wf(t)
}

#[verifier::spinoff_prover]
#[verifier::rlimit(40)]
proof fn lemma_rw_word(s: Seq<u8>, p: int)
    requires
        avail(s, p, 1),
        !(simple_token(s[p]) is Some),
        !(s[p] == 0x1b || s[p] == 0x1c || s[p] == 0x2b || s[p] == 0x2f || s[p] == 0x37 || s[p]
            == 0x40 || s[p] == 0x41),
    ensures
        token_read_writes_back(s, p),
{
    if let Ok((t, q)) = parse_token(s, p) {
        let tag = s[p];
        if tag == 0x02 || tag == 0x17 || tag == 0x2e {
            lemma_i32_bytes_of_le(s, p + 1);
        } else if tag == 0x16 || tag == 0x1a {
            crate::bytes::lemma_u32_bytes_of_le(s, p + 1);
        } else if tag == 0x1e {
            crate::bytes::lemma_u32_bytes_of_le(s, p + 1);
            crate::bytes::lemma_u32_bytes_of_le(s, p + 5);
            crate::bytes::lemma_u32_bytes_of_le(s, p + 9);
        } else if tag == 0x1f {
            crate::bytes::lemma_u32_bytes_of_le(s, p + 1);
            crate::bytes::lemma_u32_bytes_of_le(s, p + 5);
        } else {
            lemma_i16_bytes_of_le(s, p + 1);
        }
        assert(token_bytes(t) =~= s.subrange(p, q));
    }
}

#[verifier::spinoff_prover]
#[verifier::rlimit(40)]
proof fn lemma_rw_lists(s: Seq<u8>, p: int)
    requires
        avail(s, p, 1),
        s[p] == 0x2b || s[p] == 0x2f || s[p] == 0x37 || s[p] == 0x40 || s[p] == 0x41,
        !token_read_panics(s, p),
    ensures
        token_read_writes_back(s, p),
{
    if let Ok((t, q)) = parse_token(s, p) {
        let tag = s[p];
        if tag == 0x2b {
            crate::bytes::lemma_u32_bytes_of_le(s, p + 1);
            lemma_cstr_len_means(s, p + 5);
            let n = cstr_len(s, p + 5)->Some_0 as int;
            assert(token_bytes(t) =~= s.subrange(p, q));
            assert forall|i: int| 0 <= i < n implies #[trigger] s.subrange(p + 5, p + 5 + n)[i] != 0 by {
                assert(s[p + 5 + i] != 0);
            }
        } else if tag == 0x41 {
            lemma_i32_bytes_of_le(s, p + 1);
            let c = i32_le(s, p + 1);
            lemma_i32s_bytes_of_at(s, p + 5, c as nat);
            assert(token_bytes(t) =~= s.subrange(p, q));
        } else {
            crate::bytes::lemma_u32_bytes_of_le(s, p + 1);
            let c = u32_le(s, p + 1);
            crate::bytes::lemma_u32s_bytes_of_at(s, p + 5, c as nat);
            assert(token_bytes(t) =~= s.subrange(p, q));
        }
    }
}

#[verifier::spinoff_prover]
#[verifier::rlimit(40)]
proof fn lemma_rw_fixed(s: Seq<u8>, p: int)
    requires
        avail(s, p, 1),
        s[p] == 0x1b || s[p] == 0x1c,
        !token_read_panics(s, p),
        token_read_canonical(s, p),
    ensures
        token_read_writes_back(s, p),
{
    if let Ok((t, q)) = parse_token(s, p) {
        lemma_i32_bytes_of_le(s, p + 1);
        let f = i32_le(s, p + 1) as int;
        let b = s.subrange(p + 5, p + 5 + f - 1);
        assert(((b.len() + 1) as i32) == i32_le(s, p + 1));
        assert(token_bytes(t) =~= s.subrange(p, q));
    }
}

/// Writing a token read from bytes gives back the bytes it was read from, where
/// the read did not panic and a length-prefixed string ended with a zero byte.
pub proof fn law_token_read_write(s: Seq<u8>, p: int)
    requires
        !token_read_panics(s, p),
        token_read_canonical(s, p),
    ensures
        token_read_writes_back(s, p),
{
    if avail(s, p, 1) {
        let tag = s[p];
        if simple_token(tag) is Some {
            let t = simple_token(tag)->Some_0;
            lemma_simple_token(t);
            assert(token_bytes(t) =~= s.subrange(p, p + 1));
        } else if tag == 0x1b || tag == 0x1c {
            lemma_rw_fixed(s, p);
        } else if tag == 0x2b || tag == 0x2f || tag == 0x37 || tag == 0x40 || tag == 0x41 {
            lemma_rw_lists(s, p);
        } else {
            lemma_rw_word(s, p);
        }
    }
}

/// A token read without panicking moves forward and stays within the bytes.
pub proof fn lemma_parse_token_advances(s: Seq<u8>, p: int)
    requires
        !token_read_panics(s, p),
    ensures
        parse_token(s, p) matches Ok((t, q)) ==> 0 <= p < q <= s.len(),
{
    if let Ok((t, q)) = parse_token(s, p) {
        if s[p] == 0x2b {
            crate::qb::token::lemma_cstr_len_means(s, p + 5);
        }
    }
}

impl Token {
    /// A copy of the token.
    pub fn copy(&self) -> (r: Token)
        ensures
            r@ == self@,
    {
        match self {
            Token::Terminator => Token::Terminator,
            Token::Newline => Token::Newline,
            Token::NewlineDebug(v) => Token::NewlineDebug(*v),
            Token::LeftBrace => Token::LeftBrace,
            Token::RightBrace => Token::RightBrace,
            Token::LeftBracket => Token::LeftBracket,
            Token::RightBracket => Token::RightBracket,
            Token::Equals => Token::Equals,
            Token::Property => Token::Property,
            Token::Comma => Token::Comma,
            Token::Subtract => Token::Subtract,
            Token::Add => Token::Add,
            Token::Divide => Token::Divide,
            Token::Multiply => Token::Multiply,
            Token::LeftParen => Token::LeftParen,
            Token::RightParen => Token::RightParen,
            Token::Unk0x10 => Token::Unk0x10,
            Token::Unk0x11 => Token::Unk0x11,
            Token::LessThan => Token::LessThan,
            Token::LessThanEq => Token::LessThanEq,
            Token::GreaterThan => Token::GreaterThan,
            Token::GreaterThanEq => Token::GreaterThanEq,
            Token::Symbol(v) => Token::Symbol(*v),
            Token::Integer(v) => Token::Integer(*v),
            Token::Unk0x18 => Token::Unk0x18,
            Token::Unk0x19 => Token::Unk0x19,
            Token::Float(v) => Token::Float(*v),
            Token::String(b) => Token::String(slice_to_vec(b.as_slice())),
            Token::Param(b) => Token::Param(slice_to_vec(b.as_slice())),
            Token::Unk0x1d => Token::Unk0x1d,
            Token::Vec3(x, y, z) => Token::Vec3(*x, *y, *z),
            Token::Vec2(x, y) => Token::Vec2(*x, *y),
            Token::Begin => Token::Begin,
            Token::Repeat => Token::Repeat,
            Token::Break => Token::Break,
            Token::Script => Token::Script,
            Token::EndScript => Token::EndScript,
            Token::If => Token::If,
            Token::Else => Token::Else,
            Token::ElseIf => Token::ElseIf,
            Token::EndIf => Token::EndIf,
            Token::Return => Token::Return,
            Token::Unk0x2a => Token::Unk0x2a,
            Token::SymbolDef(c, v) => Token::SymbolDef(*c, slice_to_vec(v.as_slice())),
            Token::GlobalAll => Token::GlobalAll,
            Token::Global => Token::Global,
            Token::Jump(v) => Token::Jump(*v),
            Token::Random(c, v) => Token::Random(*c, slice_to_vec(v.as_slice())),
            Token::RandomRange => Token::RandomRange,
            Token::Unk0x31 => Token::Unk0x31,
            Token::Or => Token::Or,
            Token::And => Token::And,
            Token::Xor => Token::Xor,
            Token::ShiftLeft => Token::ShiftLeft,
            Token::ShiftRight => Token::ShiftRight,
            Token::Random2(c, v) => Token::Random2(*c, slice_to_vec(v.as_slice())),
            Token::RandomRange2 => Token::RandomRange2,
            Token::Not => Token::Not,
            Token::Unk0x3a => Token::Unk0x3a,
            Token::Unk0x3b => Token::Unk0x3b,
            Token::Switch => Token::Switch,
            Token::EndSwitch => Token::EndSwitch,
            Token::Case => Token::Case,
            Token::Default => Token::Default,
            Token::RandomNoRepeat(c, v) => Token::RandomNoRepeat(*c, slice_to_vec(v.as_slice())),
            Token::RandomPermute(c, v) => Token::RandomPermute(*c, slice_to_vec(v.as_slice())),
            Token::Member => Token::Member,
            Token::CFunc => Token::CFunc,
            Token::MemberFunc => Token::MemberFunc,
            Token::Unk0x45 => Token::Unk0x45,
            Token::Unk0x46 => Token::Unk0x46,
            Token::If2(v) => Token::If2(*v),
            Token::Else2(v) => Token::Else2(*v),
            Token::EndSwitch2(v) => Token::EndSwitch2(*v),
            Token::Unk0x4a => Token::Unk0x4a,
            Token::Unk0x4b => Token::Unk0x4b,
            Token::Unk0x4c => Token::Unk0x4c,
            Token::Unk0x4d => Token::Unk0x4d,
            Token::Unk0x4e => Token::Unk0x4e,
            Token::Unk0x4f => Token::Unk0x4f,
            Token::Reserved => Token::Reserved,
        }
    }
}

} // verus!
