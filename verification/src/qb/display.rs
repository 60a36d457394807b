//! The text of QB tokens and scripts.
use crate::qb::encoding::{decode_windows_1252, windows_1252_decode};
use crate::qb::script::{tokens_view, Qb};
use crate::qb::symbols::{name_or_hex, SymbolTable};
use crate::qb::token::{token_tag, Token, TokenV};
use crate::text::{decimal_text, hex_string, push_char, push_decimal, push_str};
use vstd::prelude::*;

verus! {

/// Whether a token has a text: not those that hold floating-point values, and
/// not the second form of random choices, whose text is not defined.
pub open spec fn token_has_text(t: TokenV) -> bool {
    !(t is Float || t is Vec3 || t is Vec2 || t is Random2 || t is RandomRange2)
}

/// Whether a space follows the text of a token.
pub open spec fn token_spaced(t: TokenV) -> bool {
    match t {
        TokenV::Newline
        | TokenV::NewlineDebug(..)
        | TokenV::Property
        | TokenV::Terminator
        | TokenV::Global
        | TokenV::SymbolDef(..)
        | TokenV::CFunc
        | TokenV::MemberFunc
        | TokenV::Unk0x10
        | TokenV::Unk0x11
        | TokenV::Unk0x18
        | TokenV::Unk0x19
        | TokenV::Unk0x1d
        | TokenV::Unk0x2a
        | TokenV::Unk0x31
        | TokenV::Unk0x3a
        | TokenV::Unk0x3b
        | TokenV::Unk0x45
        | TokenV::Unk0x46
        | TokenV::Unk0x4a
        | TokenV::Unk0x4b
        | TokenV::Unk0x4c
        | TokenV::Unk0x4d
        | TokenV::Unk0x4e
        | TokenV::Unk0x4f
        | TokenV::Reserved => false,
        _ => true,
    }
}

/// The text of a token: its symbol or keyword, a checksum's name (or the
/// checksum in hexadecimal), an integer in decimal, a string decoded and quoted;
/// nothing for the tokens that have no text of their own.
pub open spec fn token_text(t: TokenV, syms: Map<u32, Seq<char>>) -> Seq<char> {
    match t {
        TokenV::Newline => seq!['\n'],
        TokenV::NewlineDebug(..) => seq!['\n'],
        TokenV::LeftBrace => seq!['{'],
        TokenV::RightBrace => seq!['}'],
        TokenV::LeftBracket => seq!['['],
        TokenV::RightBracket => seq![']'],
        TokenV::Equals => seq!['='],
        TokenV::Property => seq!['.'],
        TokenV::Comma => seq![','],
        TokenV::Subtract => seq!['-'],
        TokenV::Add => seq!['+'],
        TokenV::Divide => seq!['/'],
        TokenV::Multiply => seq!['*'],
        TokenV::LeftParen => seq!['('],
        TokenV::RightParen => seq![')'],
        TokenV::LessThan => seq!['<'],
        TokenV::LessThanEq => "<="@,
        TokenV::GreaterThan => seq!['>'],
        TokenV::GreaterThanEq => ">="@,
        TokenV::Begin => "begin"@,
        TokenV::Repeat => "repeat"@,
        TokenV::Break => "break"@,
        TokenV::Script => "script"@,
        TokenV::EndScript => "endscript"@,
        TokenV::If => "if"@,
        TokenV::Else => "else"@,
        TokenV::ElseIf => "elseif"@,
        TokenV::EndIf => "endif"@,
        TokenV::Return => "return"@,
        TokenV::GlobalAll => "<...>"@,
        TokenV::Jump(..) => seq!['@'],
        TokenV::Random(..) => "SEOMTHIGN RANDOM IDK"@,
        TokenV::RandomRange => "SEOMTHIGN RANDOM IDK"@,
        TokenV::Or => "or"@,
        TokenV::And => "and"@,
        TokenV::Xor => "xor"@,
        TokenV::ShiftLeft => "shl"@,
        TokenV::ShiftRight => "shr"@,
        TokenV::Not => "not"@,
        TokenV::Switch => "switch"@,
        TokenV::EndSwitch => "endswitch"@,
        TokenV::Case => "case"@,
        TokenV::Default => "default"@,
        TokenV::RandomNoRepeat(..) => "SEOMTHIGN RANDOM IDK"@,
        TokenV::RandomPermute(..) => "SEOMTHIGN RANDOM IDK"@,
        TokenV::Member => seq![':'],
        TokenV::If2(..) => "if2"@,
        TokenV::Else2(..) => "else2"@,
        TokenV::EndSwitch2(..) => "endswitch2"@,
        TokenV::Symbol(c) => name_or_hex(syms, c),
        TokenV::Integer(v) => decimal_text(v as int),
        TokenV::String(b) => seq!['"'] + windows_1252_decode(b) + seq!['"'],
        TokenV::Param(b) => seq!['"'] + windows_1252_decode(b) + seq!['"'],
        _ => Seq::empty(),
    }
}

/// The text of a token followed by its space, if it has one.
pub open spec fn token_text_spaced(t: TokenV, syms: Map<u32, Seq<char>>) -> Seq<char> {
    token_text(t, syms) + if token_spaced(t) {
        seq![' ']
    } else {
        Seq::empty()
    }
}

/// The text of a list of tokens: the text of each one after the other.
pub open spec fn tokens_text(ts: Seq<TokenV>, syms: Map<u32, Seq<char>>) -> Seq<char>
    decreases ts.len(),
{
    if ts.len() == 0 {
        Seq::empty()
    } else {
        tokens_text(ts.drop_last(), syms) + token_text_spaced(ts.last(), syms)
    }
}

/// Whether a token is one of the punctuation tokens, whose text is a single
/// character.
pub open spec fn is_punctuation(t: TokenV) -> bool {
    ||| t is LeftBrace
    ||| t is RightBrace
    ||| t is LeftBracket
    ||| t is RightBracket
    ||| t is Equals
    ||| t is Property
    ||| t is Comma
    ||| t is Subtract
    ||| t is Add
    ||| t is Divide
    ||| t is Multiply
    ||| t is LeftParen
    ||| t is RightParen
    ||| t is LessThan
    ||| t is GreaterThan
    ||| t is Member
    ||| t is Jump
}

/// Each punctuation token is written as one character of its own: two
/// punctuation tokens of different types never share their text.
pub proof fn law_punctuation_text(t: TokenV, u: TokenV, syms: Map<u32, Seq<char>>)
    requires
        is_punctuation(t),
        is_punctuation(u),
    ensures
        token_text(t, syms).len() == 1,
        token_tag(t) != token_tag(u) ==> token_text(t, syms) != token_text(u, syms),
{
    if token_tag(t) != token_tag(u) {
        assert(token_text(t, syms)[0] != token_text(u, syms)[0]);
    }
}

/// The compound tokens are written as their parts: `>=` as `>` then `=`,
/// `<=` as `<` then `=`, `elseif` as `else` then `if`, the closing keywords as
/// `end` then the keyword they close, and the second forms of `if`, `else` and
/// `endswitch` as the first form then `2`.
pub proof fn law_compound_text(syms: Map<u32, Seq<char>>, x: i16)
    ensures
        token_text(TokenV::GreaterThanEq, syms) == token_text(TokenV::GreaterThan, syms)
            + token_text(TokenV::Equals, syms),
        token_text(TokenV::LessThanEq, syms) == token_text(TokenV::LessThan, syms) + token_text(
            TokenV::Equals,
            syms,
        ),
        token_text(TokenV::ElseIf, syms) == token_text(TokenV::Else, syms) + token_text(
            TokenV::If,
            syms,
        ),
        token_text(TokenV::EndIf, syms) == "end"@ + token_text(TokenV::If, syms),
        token_text(TokenV::EndScript, syms) == "end"@ + token_text(TokenV::Script, syms),
        token_text(TokenV::EndSwitch, syms) == "end"@ + token_text(TokenV::Switch, syms),
        token_text(TokenV::If2(x), syms) == token_text(TokenV::If, syms) + seq!['2'],
        token_text(TokenV::Else2(x), syms) == token_text(TokenV::Else, syms) + seq!['2'],
        token_text(TokenV::EndSwitch2(x), syms) == token_text(TokenV::EndSwitch, syms) + seq![
            '2',
        ],
{
    reveal_strlit(">=");
    reveal_strlit("<=");
    reveal_strlit("elseif");
    reveal_strlit("else");
    reveal_strlit("if");
    reveal_strlit("end");
    reveal_strlit("endif");
    reveal_strlit("script");
    reveal_strlit("endscript");
    reveal_strlit("switch");
    reveal_strlit("endswitch");
    reveal_strlit("if2");
    reveal_strlit("else2");
    reveal_strlit("endswitch2");
    assert(token_text(TokenV::GreaterThanEq, syms) =~= token_text(TokenV::GreaterThan, syms)
        + token_text(TokenV::Equals, syms));
    assert(token_text(TokenV::LessThanEq, syms) =~= token_text(TokenV::LessThan, syms)
        + token_text(TokenV::Equals, syms));
    assert(token_text(TokenV::ElseIf, syms) =~= token_text(TokenV::Else, syms) + token_text(
        TokenV::If,
        syms,
    ));
    assert(token_text(TokenV::EndIf, syms) =~= "end"@ + token_text(TokenV::If, syms));
    assert(token_text(TokenV::EndScript, syms) =~= "end"@ + token_text(TokenV::Script, syms));
    assert(token_text(TokenV::EndSwitch, syms) =~= "end"@ + token_text(TokenV::Switch, syms));
    assert(token_text(TokenV::If2(x), syms) =~= token_text(TokenV::If, syms) + seq!['2']);
    assert(token_text(TokenV::Else2(x), syms) =~= token_text(TokenV::Else, syms) + seq!['2']);
    assert(token_text(TokenV::EndSwitch2(x), syms) =~= token_text(TokenV::EndSwitch, syms)
        + seq!['2']);
}

/// The text of a script is the text of its first tokens followed by the text of
/// the rest: each token is written on its own, whatever stands around it.
pub proof fn law_tokens_text_append(a: Seq<TokenV>, b: Seq<TokenV>, syms: Map<u32, Seq<char>>)
    ensures
        tokens_text(a + b, syms) == tokens_text(a, syms) + tokens_text(b, syms),
    decreases b.len(),
{
    if b.len() == 0 {
        assert(a + b =~= a);
        assert(tokens_text(a, syms) + tokens_text(b, syms) =~= tokens_text(a, syms));
    } else {
        law_tokens_text_append(a, b.drop_last(), syms);
        assert((a + b).drop_last() =~= a + b.drop_last());
        assert((a + b).last() == b.last());
    }
}

fn push_quoted(buffer: &mut String, bytes: &Vec<u8>)
    ensures
        final(buffer)@ == old(buffer)@ + seq!['"'] + windows_1252_decode(bytes@) + seq!['"'],
{
    let s = decode_windows_1252(bytes.as_slice());
    push_char(buffer, '"');
    push_str(buffer, s.as_str());
    push_char(buffer, '"');
}

fn push_name(buffer: &mut String, symbol_table: &SymbolTable, checksum: u32)
    ensures
        final(buffer)@ == old(buffer)@ + name_or_hex(symbol_table@, checksum),
{
    match symbol_table.get(checksum) {
        Some(name) => push_str(buffer, name.as_str()),
        None => {
            let h = hex_string(checksum);
            push_str(buffer, h.as_str());
        },
    }
}

impl Token {
    /// Appends the text of the token to `buffer`, then a space unless the token
    /// is one that takes none.
    pub fn to_string(&self, buffer: &mut String, symbol_table: &SymbolTable)
        requires
            token_has_text(self@),
        ensures
            final(buffer)@ == old(buffer)@ + token_text_spaced(self@, symbol_table@),
    {
        let ghost before = buffer@;
        match self {
            Token::Newline => push_char(buffer, '\n'),
            Token::NewlineDebug(..) => push_char(buffer, '\n'),
            Token::LeftBrace => push_char(buffer, '{'),
            Token::RightBrace => push_char(buffer, '}'),
            Token::LeftBracket => push_char(buffer, '['),
            Token::RightBracket => push_char(buffer, ']'),
            Token::Equals => push_char(buffer, '='),
            Token::Property => push_char(buffer, '.'),
            Token::Comma => push_char(buffer, ','),
            Token::Subtract => push_char(buffer, '-'),
            Token::Add => push_char(buffer, '+'),
            Token::Divide => push_char(buffer, '/'),
            Token::Multiply => push_char(buffer, '*'),
            Token::LeftParen => push_char(buffer, '('),
            Token::RightParen => push_char(buffer, ')'),
            Token::LessThan => push_char(buffer, '<'),
            Token::LessThanEq => push_str(buffer, "<="),
            Token::GreaterThan => push_char(buffer, '>'),
            Token::GreaterThanEq => push_str(buffer, ">="),
            Token::Begin => push_str(buffer, "begin"),
            Token::Repeat => push_str(buffer, "repeat"),
            Token::Break => push_str(buffer, "break"),
            Token::Script => push_str(buffer, "script"),
            Token::EndScript => push_str(buffer, "endscript"),
            Token::If => push_str(buffer, "if"),
            Token::Else => push_str(buffer, "else"),
            Token::ElseIf => push_str(buffer, "elseif"),
            Token::EndIf => push_str(buffer, "endif"),
            Token::Return => push_str(buffer, "return"),
            Token::GlobalAll => push_str(buffer, "<...>"),
            Token::Jump(..) => push_char(buffer, '@'),
            Token::Random(..) => push_str(buffer, "SEOMTHIGN RANDOM IDK"),
            Token::RandomRange => push_str(buffer, "SEOMTHIGN RANDOM IDK"),
            Token::Or => push_str(buffer, "or"),
            Token::And => push_str(buffer, "and"),
            Token::Xor => push_str(buffer, "xor"),
            Token::ShiftLeft => push_str(buffer, "shl"),
            Token::ShiftRight => push_str(buffer, "shr"),
            Token::Not => push_str(buffer, "not"),
            Token::Switch => push_str(buffer, "switch"),
            Token::EndSwitch => push_str(buffer, "endswitch"),
            Token::Case => push_str(buffer, "case"),
            Token::Default => push_str(buffer, "default"),
            Token::RandomNoRepeat(..) => push_str(buffer, "SEOMTHIGN RANDOM IDK"),
            Token::RandomPermute(..) => push_str(buffer, "SEOMTHIGN RANDOM IDK"),
            Token::Member => push_char(buffer, ':'),
            Token::If2(..) => push_str(buffer, "if2"),
            Token::Else2(..) => push_str(buffer, "else2"),
            Token::EndSwitch2(..) => push_str(buffer, "endswitch2"),
            Token::Symbol(c) => push_name(buffer, symbol_table, *c),
            Token::Integer(v) => push_decimal(buffer, *v),
            Token::String(b) => push_quoted(buffer, b),
            Token::Param(b) => push_quoted(buffer, b),
            _ => {},
        }
        proof {
            assert(buffer@ =~= before + token_text(self@, symbol_table@));
        }
        let ghost mid = buffer@;
        match self {
            Token::Newline
            | Token::NewlineDebug(..)
            | Token::Property
            | Token::Terminator
            | Token::Global
            | Token::SymbolDef(..)
            | Token::CFunc
            | Token::MemberFunc
            | Token::Unk0x10
            | Token::Unk0x11
            | Token::Unk0x18
            | Token::Unk0x19
            | Token::Unk0x1d
            | Token::Unk0x2a
            | Token::Unk0x31
            | Token::Unk0x3a
            | Token::Unk0x3b
            | Token::Unk0x45
            | Token::Unk0x46
            | Token::Unk0x4a
            | Token::Unk0x4b
            | Token::Unk0x4c
            | Token::Unk0x4d
            | Token::Unk0x4e
            | Token::Unk0x4f
            | Token::Reserved => {},
            _ => push_char(buffer, ' '),
        }
        proof {
            assert(buffer@ =~= before + token_text_spaced(self@, symbol_table@));
        }
    }
}

impl Qb {
    /// The text of the script: the text of each token, one after the other.
    pub fn to_string(&self) -> (r: String)
        requires
            forall|i: int| 0 <= i < self.tokens@.len() ==> token_has_text(#[trigger] self.tokens@[i]@),
        ensures
            r@ == tokens_text(tokens_view(self.tokens@), self.symbol_table@),
    {
        let ghost ts = tokens_view(self.tokens@);
        let mut buffer = String::new();
        let mut i: usize = 0;
        proof {
            assert(ts.subrange(0, 0) =~= Seq::<TokenV>::empty());
        }
        while i < self.tokens.len()
            invariant
                0 <= i <= self.tokens@.len(),
                ts == tokens_view(self.tokens@),
                forall|k: int| 0 <= k < self.tokens@.len() ==> token_has_text(#[trigger] self.tokens@[k]@),
                buffer@ == tokens_text(ts.subrange(0, i as int), self.symbol_table@),
            decreases self.tokens@.len() - i,
        {
            self.tokens[i].to_string(&mut buffer, &self.symbol_table);
            proof {
                assert(ts.subrange(0, i + 1).drop_last() =~= ts.subrange(0, i as int));
            }
            i = i + 1;
        }
        proof {
            assert(ts.subrange(0, ts.len() as int) =~= ts);
        }
        buffer
    }
}

} // verus!
