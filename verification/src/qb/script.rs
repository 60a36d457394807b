//! A compiled QB script: its tokens, up to the terminating token, and the names
//! that its symbol definitions give to checksums.
use crate::bytes::{avail, group_positions, lemma_emit_emit, lemma_reader_pos, lemma_writer_pos, rem, ByteReader, ByteWriter};
use crate::qb::encoding::{decode_windows_1252, windows_1252_decode};
use crate::qb::error::{eof, failed_as, Error, Failure};
use crate::qb::symbols::SymbolTable;
use crate::qb::token::{
    law_token_read_write, token_payload, lemma_parse_token_advances, law_token_write_read, lemma_token_bytes_len, parse_token,
    token_bytes, token_read_canonical, token_read_panics, token_read_would_panic, token_wf, Token,
    TokenV,
};
use vstd::prelude::*;

verus! {

broadcast use group_positions;

/// A compiled script.
#[derive(Debug)]
pub struct Qb {
    pub tokens: Vec<Token>,
    pub symbol_table: SymbolTable,
}

/// The values of a list of tokens.
pub open spec fn tokens_view(tokens: Seq<Token>) -> Seq<TokenV> {
    tokens.map_values(|t: Token| t@)
}

/// The bytes of a list of tokens, one after the other.
pub open spec fn tokens_bytes(ts: Seq<TokenV>) -> Seq<u8>
    decreases ts.len(),
{
    if ts.len() == 0 {
        Seq::empty()
    } else {
        tokens_bytes(ts.drop_last()) + token_bytes(ts.last())
    }
}

/// The bytes of a script: its tokens, then the terminating token (the byte 0).
pub open spec fn script_bytes(ts: Seq<TokenV>) -> Seq<u8> {
    tokens_bytes(ts) + seq![0u8]
}

/// The names that the symbol definitions among `ts` give, a later definition of
/// a checksum replacing an earlier one.
pub open spec fn symbols_of(ts: Seq<TokenV>) -> Map<u32, Seq<char>>
    decreases ts.len(),
{
    if ts.len() == 0 {
        Map::empty()
    } else {
        match ts.last() {
            TokenV::SymbolDef(c, name) => symbols_of(ts.drop_last()).insert(
                c,
                windows_1252_decode(name),
            ),
            _ => symbols_of(ts.drop_last()),
        }
    }
}

/// What reading tokens from `p` up to the terminating token gives: the tokens
/// before it, and the position after it.
pub open spec fn parse_tokens(s: Seq<u8>, p: int) -> Result<(Seq<TokenV>, int), Failure>
    decreases rem(s, p),
{
    match parse_token(s, p) {
        Err(e) => Err(e),
        Ok((t, q)) => if t is Terminator {
            Ok((Seq::empty(), q))
        } else if !(0 <= p < q <= s.len()) {
            // never taken: a token takes at least its type byte
            eof()
        } else {
            match parse_tokens(s, q) {
                Err(e) => Err(e),
                Ok((ts, r)) => Ok((seq![t] + ts, r)),
            }
        },
    }
}

/// Reading tokens from `p` panics on one of them.
pub open spec fn tokens_read_panics(s: Seq<u8>, p: int) -> bool
    decreases rem(s, p),
{
    ||| token_read_panics(s, p)
    ||| match parse_token(s, p) {
        Ok((t, q)) => !(t is Terminator) && 0 <= p < q <= s.len() && tokens_read_panics(s, q),
        Err(_) => false,
    }
}

/// Every token read from `p` on is canonical (see `token_read_canonical`).
pub open spec fn tokens_read_canonical(s: Seq<u8>, p: int) -> bool
    decreases rem(s, p),
{
    &&& token_read_canonical(s, p)
    &&& match parse_token(s, p) {
        Ok((t, q)) => (!(t is Terminator) && 0 <= p < q <= s.len()) ==> tokens_read_canonical(
            s,
            q,
        ),
        Err(_) => true,
    }
}

impl Qb {
    /// The values of the script's tokens.
    pub open spec fn tokens_v(&self) -> Seq<TokenV> {
        tokens_view(self.tokens@)
    }

    /// Reads tokens up to the terminating token, and names each checksum that a
    /// symbol definition among them defines, its name decoded as Windows-1252.
    pub fn read(reader: &mut ByteReader) -> (r: Result<Qb, Error>)
        requires
            !tokens_read_panics(old(reader)@.bytes, old(reader)@.pos),
        ensures
            final(reader)@.bytes == old(reader)@.bytes,
            match parse_tokens(old(reader)@.bytes, old(reader)@.pos) {
                Ok((ts, q)) => r is Ok && r->Ok_0.tokens_v() == ts && r->Ok_0.symbol_table@
                    == symbols_of(ts) && final(reader)@.pos == q,
                Err(f) => r is Err && failed_as(r->Err_0, final(reader)@.pos, f),
            },
    {
        let ghost s = reader@.bytes;
        let ghost p = reader@.pos;
        proof {
            lemma_reader_pos(*reader);
        }
        let mut tokens: Vec<Token> = Vec::new();
        let mut symbol_table = SymbolTable::new();
        loop
            invariant
                s == old(reader)@.bytes,
                p == old(reader)@.pos,
                reader@.bytes == s,
                !tokens_read_panics(s, reader@.pos as int),
                symbol_table@ == symbols_of(tokens_view(tokens@)),
                match parse_tokens(s, reader@.pos as int) {
                    Ok((rest, r)) => parse_tokens(s, p) == Ok::<(Seq<TokenV>, int), Failure>(
                        (tokens_view(tokens@) + rest, r),
                    ),
                    Err(e) => parse_tokens(s, p) == Err::<(Seq<TokenV>, int), Failure>(e),
                },
            decreases rem(s, reader@.pos as int),
        {
            let ghost q = reader@.pos as int;
            proof {
                lemma_parse_token_advances(s, q);
            }
            let token = Token::read(reader)?;
            if let Token::Terminator = token {
                proof {
                    assert(tokens_view(tokens@) + Seq::<TokenV>::empty() =~= tokens_view(tokens@));
                }
                return Ok(Qb { tokens, symbol_table });
            }
            if let Token::SymbolDef(checksum, name) = &token {
                let decoded = decode_windows_1252(name.as_slice());
                symbol_table.add(*checksum, decoded);
            }
            let ghost tv = token@;
            proof {
                assert(tokens_view(tokens@.push(token)) =~= tokens_view(tokens@).push(tv));
                assert(tokens_view(tokens@.push(token)).drop_last() =~= tokens_view(tokens@));
                match parse_tokens(s, reader@.pos as int) {
                    Ok((rest, r)) => {
                        assert(tokens_view(tokens@) + (seq![tv] + rest) =~= tokens_view(tokens@).push(
                            tv,
                        ) + rest);
                    },
                    Err(e) => {},
                }
            }
            tokens.push(token);
        }
    }

    /// Whether reading a script from the reader's position would panic at one of
    /// its tokens (`read` asks that it would not); the reader is left where it
    /// was.
    pub fn read_panics(reader: &mut ByteReader) -> (b: bool)
        ensures
            final(reader)@ == old(reader)@,
            b == tokens_read_panics(old(reader)@.bytes, old(reader)@.pos),
    {
        let ghost s = reader@.bytes;
        let ghost p = reader@.pos;
        let start = reader.stream_position();
        let mut result = false;
        loop
            invariant_except_break
                reader@.bytes == s,
                tokens_read_panics(s, p) == tokens_read_panics(s, reader@.pos),
                !result,
            invariant
                s == old(reader)@.bytes,
                p == old(reader)@.pos,
                start == p,
            ensures
                reader@.bytes == s,
                result == tokens_read_panics(s, p),
            decreases rem(s, reader@.pos),
        {
            let ghost q = reader@.pos;
            if token_read_would_panic(reader) {
                result = true;
                break;
            }
            proof {
                lemma_parse_token_advances(s, q);
            }
            match Token::read(reader) {
                Ok(Token::Terminator) => {
                    proof {
                        assert(!tokens_read_panics(s, q));
                    }
                    break;
                },
                Ok(_) => {},
                Err(_) => {
                    proof {
                        assert(parse_token(s, q) is Err);
                        assert(!tokens_read_panics(s, q));
                    }
                    break;
                },
            }
        }
        reader.seek(start);
        result
    }

    /// Writes the tokens, then the terminating token.
    pub fn write(&self, writer: &mut ByteWriter)
        requires
            old(writer)@.pos + script_bytes(self.tokens_v()).len() <= usize::MAX,
        ensures
            final(writer)@ == old(writer)@.emit(script_bytes(self.tokens_v())),
    {
        let ghost st = writer@;
        let ghost tv = self.tokens_v();
        proof {
            lemma_writer_pos(*writer);
            assert(tokens_view(self.tokens@.subrange(0, 0)) =~= Seq::<TokenV>::empty());
            crate::bytes::lemma_emit_empty(st);
        }
        let mut i: usize = 0;
        while i < self.tokens.len()
            invariant
                0 <= i <= self.tokens@.len(),
                tv == tokens_view(self.tokens@),
                st.pos >= 0,
                st.pos + script_bytes(tv).len() <= usize::MAX,
                writer@ == st.emit(tokens_bytes(tv.subrange(0, i as int))),
                writer@.pos == st.pos + tokens_bytes(tv.subrange(0, i as int)).len(),
            decreases self.tokens@.len() - i,
        {
            proof {
                lemma_tokens_bytes_prefix(tv, (i + 1) as nat);
                assert(tv.subrange(0, i + 1).drop_last() =~= tv.subrange(0, i as int));
            }
            self.tokens[i].write(writer);
            proof {
                lemma_emit_emit(st, tokens_bytes(tv.subrange(0, i as int)), token_bytes(tv[i as int]));
            }
            i = i + 1;
        }
        proof {
            assert(tv.subrange(0, tv.len() as int) =~= tv);
        }
        Token::Terminator.write(writer);
        proof {
            lemma_emit_emit(st, tokens_bytes(tv), seq![0u8]);
            assert(token_bytes(TokenV::Terminator) =~= seq![0u8]);
        }
    }
}

/// The bytes of a prefix of the tokens are no more than those of all of them.
pub proof fn lemma_tokens_bytes_prefix(ts: Seq<TokenV>, n: nat)
    requires
        n <= ts.len(),
    ensures
        tokens_bytes(ts.subrange(0, n as int)).len() <= tokens_bytes(ts).len(),
    decreases ts.len() - n,
{
    if n < ts.len() {
        lemma_tokens_bytes_prefix(ts, n + 1);
        assert(ts.subrange(0, n as int + 1).drop_last() =~= ts.subrange(0, n as int));
    } else {
        assert(ts.subrange(0, n as int) =~= ts);
    }
}

/// The bytes of a list of tokens are those of its first token, then those of the
/// rest.
pub proof fn lemma_tokens_bytes_cons(ts: Seq<TokenV>)
    requires
        ts.len() > 0,
    ensures
        tokens_bytes(ts) == token_bytes(ts[0]) + tokens_bytes(ts.skip(1)),
    decreases ts.len(),
{
    if ts.len() == 1 {
        assert(ts.drop_last() =~= Seq::<TokenV>::empty());
        assert(ts.skip(1) =~= Seq::<TokenV>::empty());
        assert(tokens_bytes(ts) =~= token_bytes(ts[0]) + tokens_bytes(ts.skip(1)));
    } else {
        lemma_tokens_bytes_cons(ts.drop_last());
        assert(ts.drop_last().skip(1) =~= ts.skip(1).drop_last());
        assert(ts.skip(1).last() == ts.last());
        assert(tokens_bytes(ts) =~= token_bytes(ts[0]) + tokens_bytes(ts.skip(1)));
    }
}

/// Reading tokens from `p` ends after `p`, within the bytes.
pub proof fn lemma_parse_tokens_bounds(s: Seq<u8>, p: int)
    requires
        !tokens_read_panics(s, p),
    ensures
        parse_tokens(s, p) matches Ok((ts, q)) ==> 0 <= p < q <= s.len(),
    decreases rem(s, p),
{
    lemma_parse_token_advances(s, p);
    if let Ok((t, q1)) = parse_token(s, p) {
        if !(t is Terminator) && 0 <= p < q1 <= s.len() {
            lemma_parse_tokens_bounds(s, q1);
        }
    }
}

/// Reading the tokens of a script back from the bytes written for it gives the
/// same tokens, and the position right after the terminating token.
#[verifier::spinoff_prover]
#[verifier::rlimit(60)]
pub proof fn law_qb_write_read(ts: Seq<TokenV>, front: Seq<u8>, rest: Seq<u8>)
    requires
        forall|i: int| 0 <= i < ts.len() ==> token_wf(#[trigger] ts[i]) && !(ts[i] is Terminator),
    ensures
        parse_tokens(front + script_bytes(ts) + rest, front.len() as int) == Ok::<
            (Seq<TokenV>, int),
            Failure,
        >((ts, (front.len() + script_bytes(ts).len()) as int)),
        !tokens_read_panics(front + script_bytes(ts) + rest, front.len() as int),
    decreases ts.len(),
{
    let s = front + script_bytes(ts) + rest;
    let f = front.len() as int;
    if ts.len() == 0 {
        assert(tokens_bytes(ts) =~= Seq::<u8>::empty());
        assert(token_payload(TokenV::Terminator) =~= Seq::<u8>::empty());
        assert(script_bytes(ts) =~= token_bytes(TokenV::Terminator));
        assert(s =~= front + token_bytes(TokenV::Terminator) + rest);
        law_token_write_read(TokenV::Terminator, front, rest);
        assert(parse_token(s, f) == Ok::<(TokenV, int), Failure>((TokenV::Terminator, f + 1)));
        assert(ts =~= Seq::<TokenV>::empty());
    } else {
        let t = ts[0];
        let tail = ts.skip(1);
        lemma_tokens_bytes_cons(ts);
        assert(s =~= front + token_bytes(t) + (script_bytes(tail) + rest));
        law_token_write_read(t, front, script_bytes(tail) + rest);
        lemma_token_bytes_len(t);
        let front2 = front + token_bytes(t);
        assert(s =~= front2 + script_bytes(tail) + rest);
        assert forall|i: int| 0 <= i < tail.len() implies token_wf(#[trigger] tail[i]) && !(
        tail[i] is Terminator) by {
            assert(tail[i] == ts[i + 1]);
        }
        law_qb_write_read(tail, front2, rest);
        assert(seq![t] + tail =~= ts);
        let q = f + token_bytes(t).len();
        assert(script_bytes(ts) =~= token_bytes(t) + script_bytes(tail));
        assert(0 <= f < q <= s.len());
        assert(parse_token(s, f) == Ok::<(TokenV, int), Failure>((t, q)));
        assert(front2.len() == q);
        assert(parse_tokens(s, q) == Ok::<(Seq<TokenV>, int), Failure>(
            (tail, (front2.len() + script_bytes(tail).len()) as int),
        ));
    }
}

/// Writing the tokens read from bytes gives back those bytes, where no read
/// panicked and every token read is canonical; the tokens read are ones that
/// can be written and read back, and none is the terminating token.
pub proof fn law_qb_read_write(s: Seq<u8>, p: int)
    requires
        !tokens_read_panics(s, p),
        tokens_read_canonical(s, p),
    ensures
        parse_tokens(s, p) matches Ok((ts, q)) ==> {
            &&& script_bytes(ts) == s.subrange(p, q)
            &&& forall|i: int| 0 <= i < ts.len() ==> token_wf(#[trigger] ts[i]) && !(ts[i] is Terminator)
        },
    decreases rem(s, p),
{
    if let Ok((ts, q)) = parse_tokens(s, p) {
        lemma_parse_token_advances(s, p);
        law_token_read_write(s, p);
        if let Ok((t, q1)) = parse_token(s, p) {
            assert(token_bytes(t) == s.subrange(p, q1));
            if t is Terminator {
                assert(ts =~= Seq::<TokenV>::empty());
                assert(q == q1);
                assert(tokens_bytes(ts) =~= Seq::<u8>::empty());
                assert(token_payload(t) =~= Seq::<u8>::empty());
                assert(script_bytes(ts) =~= token_bytes(t));
            } else {
                assert(tokens_read_canonical(s, q1));
                assert(!tokens_read_panics(s, q1));
                law_qb_read_write(s, q1);
                lemma_parse_tokens_bounds(s, q1);
                let tail = ts.skip(1);
                if let Ok((tail2, r)) = parse_tokens(s, q1) {
                    assert(ts == seq![t] + tail2);
                    assert(tail =~= tail2);
                    assert(r == q);
                }
                assert(ts[0] == t);
                lemma_tokens_bytes_cons(ts);
                assert(s.subrange(p, q1) + s.subrange(q1, q) =~= s.subrange(p, q));
                assert(script_bytes(ts) =~= token_bytes(t) + script_bytes(tail));
                assert forall|i: int| 0 <= i < ts.len() implies token_wf(#[trigger] ts[i]) && !(
                ts[i] is Terminator) by {
                    if i > 0 {
                        assert(ts[i] == tail[i - 1]);
                    }
                }
            }
        }
    }
}

} // verus!
