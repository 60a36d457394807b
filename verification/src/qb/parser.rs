//! The syntax tree of a QB script: its tokens grouped into scripts, blocks,
//! structures, arrays, parenthesised expressions and assignments.
use crate::qb::script::{tokens_view, Qb};
use crate::qb::symbols::name_or_hex;
use crate::qb::token::{token_tag, Token, TokenV};
use vstd::prelude::*;

verus! {

/// Why parsing failed.
#[derive(Debug)]
pub enum Error {
    /// A token that cannot stand where it stands.
    UnexpectedToken(Token),
    /// The first token was expected and the second one came.
    ExpectedButReceived(Token, Token),
    /// The tokens ran out.
    UnexpectedEof,
}

pub enum ErrorV {
    UnexpectedToken(TokenV),
    ExpectedButReceived(TokenV, TokenV),
    UnexpectedEof,
}

impl View for Error {
    type V = ErrorV;

    open spec fn view(&self) -> ErrorV {
        match self {
            Error::UnexpectedToken(t) => ErrorV::UnexpectedToken(t@),
            Error::ExpectedButReceived(a, b) => ErrorV::ExpectedButReceived(a@, b@),
            Error::UnexpectedEof => ErrorV::UnexpectedEof,
        }
    }
}

/// A node of the syntax tree.
#[derive(Debug)]
pub enum Node {
    /// The whole script.
    File(Vec<Node>),
    Script { name: String, nodes: Vec<Node> },
    If(Vec<Node>),
    Structure(Vec<Node>),
    Array(Vec<Node>),
    Parenthesized(Vec<Node>),
    Global(String),
    Symbol(String),
    Assignment(Box<Node>, Box<Node>),
    /// A token that opens no block.
    Token(Token),
}

pub enum NodeV {
    File(Seq<NodeV>),
    Script { name: Seq<char>, nodes: Seq<NodeV> },
    If(Seq<NodeV>),
    Structure(Seq<NodeV>),
    Array(Seq<NodeV>),
    Parenthesized(Seq<NodeV>),
    Global(Seq<char>),
    Symbol(Seq<char>),
    Assignment(Box<NodeV>, Box<NodeV>),
    Token(TokenV),
}

pub open spec fn node_view(n: Node) -> NodeV
    decreases n, 0nat,
{
    match n {
        Node::File(ns) => NodeV::File(nodes_view(ns@, ns@.len())),
        Node::Script { name, nodes } => NodeV::Script {
            name: name@,
            nodes: nodes_view(nodes@, nodes@.len()),
        },
        Node::If(ns) => NodeV::If(nodes_view(ns@, ns@.len())),
        Node::Structure(ns) => NodeV::Structure(nodes_view(ns@, ns@.len())),
        Node::Array(ns) => NodeV::Array(nodes_view(ns@, ns@.len())),
        Node::Parenthesized(ns) => NodeV::Parenthesized(nodes_view(ns@, ns@.len())),
        Node::Global(s) => NodeV::Global(s@),
        Node::Symbol(s) => NodeV::Symbol(s@),
        Node::Assignment(l, r) => NodeV::Assignment(Box::new(node_view(*l)), Box::new(node_view(*r))),
        Node::Token(t) => NodeV::Token(t@),
    }
}

/// The views of the first `k` nodes.
pub open spec fn nodes_view(ns: Seq<Node>, k: nat) -> Seq<NodeV>
    decreases ns, k,
{
    if k == 0 || k > ns.len() {
        Seq::empty()
    } else {
        nodes_view(ns, (k - 1) as nat).push(node_view(ns[k - 1]))
    }
}

impl View for Node {
    type V = NodeV;

    open spec fn view(&self) -> NodeV {
        node_view(*self)
    }
}

/// The views of a list of nodes.
pub open spec fn nodes_v(ns: Seq<Node>) -> Seq<NodeV> {
    nodes_view(ns, ns.len())
}

pub proof fn lemma_nodes_view(ns: Seq<Node>, k: nat)
    requires
        k <= ns.len(),
    ensures
        nodes_view(ns, k).len() == k,
        forall|i: int| 0 <= i < k ==> #[trigger] nodes_view(ns, k)[i] == node_view(ns[i]),
    decreases k,
{
    if k > 0 {
        lemma_nodes_view(ns, (k - 1) as nat);
    }
}

/// The views of nodes are the views of each node.
pub proof fn lemma_nodes_v(ns: Seq<Node>)
    ensures
        nodes_v(ns).len() == ns.len(),
        forall|i: int| 0 <= i < ns.len() ==> #[trigger] nodes_v(ns)[i] == ns[i]@,
{
    lemma_nodes_view(ns, ns.len());
}

// ---------------------------------------------------------------------------
// What parsing gives.

/// How many tokens are left from `pos` on, as a measure.
pub open spec fn left(ts: Seq<TokenV>, pos: int) -> nat {
    if pos < ts.len() {
        (ts.len() - pos) as nat
    } else {
        0
    }
}

pub open spec fn tok_at(ts: Seq<TokenV>, pos: int) -> Option<TokenV> {
    if 0 <= pos < ts.len() {
        Some(ts[pos])
    } else {
        None
    }
}

/// Whether a node is a line break, which blocks leave out.
pub open spec fn is_newline(n: NodeV) -> bool {
    n matches NodeV::Token(t) && (t is Newline || t is NewlineDebug)
}

/// `n` put in front of `ns`, unless it is a line break.
pub open spec fn keep(n: NodeV, ns: Seq<NodeV>) -> Seq<NodeV> {
    if is_newline(n) {
        ns
    } else {
        seq![n] + ns
    }
}

/// The closing tokens that cannot begin a node.
pub open spec fn is_closer(t: TokenV) -> bool {
    t is EndScript || t is EndIf || t is RightBrace || t is RightBracket || t is RightParen
}

/// What parsing one node at `pos` gives: the node and the position after it.
pub open spec fn parse_any(ts: Seq<TokenV>, syms: Map<u32, Seq<char>>, pos: int) -> Result<
    (NodeV, int),
    ErrorV,
>
    decreases left(ts, pos), 0nat,
{
    match tok_at(ts, pos) {
        None => Err(ErrorV::UnexpectedEof),
        Some(t) => {
            let p = pos + 1;
            match t {
                TokenV::Script => parse_script(ts, syms, p),
                TokenV::If => match consume_until(ts, syms, p, 0x28) {
                    Ok((ns, q)) => Ok((NodeV::If(ns), q)),
                    Err(e) => Err(e),
                },
                TokenV::LeftBrace => match consume_until(ts, syms, p, 0x04) {
                    Ok((ns, q)) => Ok((NodeV::Structure(ns), q)),
                    Err(e) => Err(e),
                },
                TokenV::LeftBracket => match consume_until(ts, syms, p, 0x06) {
                    Ok((ns, q)) => Ok((NodeV::Array(ns), q)),
                    Err(e) => Err(e),
                },
                TokenV::LeftParen => match consume_until(ts, syms, p, 0x0f) {
                    Ok((ns, q)) => Ok((NodeV::Parenthesized(ns), q)),
                    Err(e) => Err(e),
                },
                TokenV::Global => match tok_at(ts, p) {
                    Some(TokenV::Symbol(c)) => Ok((NodeV::Global(name_or_hex(syms, c)), p + 1)),
                    Some(u) => Err(ErrorV::UnexpectedToken(u)),
                    None => Err(ErrorV::UnexpectedEof),
                },
                TokenV::Symbol(c) => {
                    let lhs = NodeV::Symbol(name_or_hex(syms, c));
                    match parse_assignment(ts, syms, p, lhs) {
                        Err(e) => Err(e),
                        Ok(Some(r)) => Ok(r),
                        Ok(None) => Ok((lhs, p)),
                    }
                },
                _ => if is_closer(t) {
                    Err(ErrorV::UnexpectedToken(t))
                } else {
                    Ok((NodeV::Token(t), p))
                },
            }
        },
    }
}

/// What parsing a script's name and body from `pos` gives.
pub open spec fn parse_script(ts: Seq<TokenV>, syms: Map<u32, Seq<char>>, pos: int) -> Result<
    (NodeV, int),
    ErrorV,
>
    decreases left(ts, pos), 2nat,
{
    match tok_at(ts, pos) {
        Some(TokenV::Symbol(c)) => match consume_until(ts, syms, pos + 1, 0x24) {
            Ok((ns, q)) => Ok((NodeV::Script { name: name_or_hex(syms, c), nodes: ns }, q)),
            Err(e) => Err(e),
        },
        Some(u) => Err(ErrorV::UnexpectedToken(u)),
        None => Err(ErrorV::UnexpectedEof),
    }
}

/// What parsing an assignment's right-hand side gives, when the token at `pos`
/// is `=` (a line break after it is skipped); `None` when it is not.
pub open spec fn parse_assignment(
    ts: Seq<TokenV>,
    syms: Map<u32, Seq<char>>,
    pos: int,
    lhs: NodeV,
) -> Result<Option<(NodeV, int)>, ErrorV>
    decreases left(ts, pos), 2nat,
{
    match tok_at(ts, pos) {
        Some(TokenV::Equals) => {
            let p = if tok_at(ts, pos + 1) matches Some(t) && (t is Newline || t is NewlineDebug) {
                pos + 2
            } else {
                pos + 1
            };
            match parse_any(ts, syms, p) {
                Ok((rhs, q)) => Ok(Some((NodeV::Assignment(Box::new(lhs), Box::new(rhs)), q))),
                Err(e) => Err(e),
            }
        },
        _ => Ok(None),
    }
}

/// What parsing nodes from `pos` up to and including the closing token with
/// type byte `close` gives: the nodes, line breaks left out.
pub open spec fn consume_until(ts: Seq<TokenV>, syms: Map<u32, Seq<char>>, pos: int, close: u8) -> Result<
    (Seq<NodeV>, int),
    ErrorV,
>
    decreases left(ts, pos), 1nat,
{
    if tok_at(ts, pos) matches Some(t) && token_tag(t) == close {
        Ok((Seq::empty(), pos + 1))
    } else {
        match parse_any(ts, syms, pos) {
            Err(e) => Err(e),
            Ok((n, q)) => if q <= pos || pos >= ts.len() {
                // never taken: a node takes at least one token
                Err(ErrorV::UnexpectedEof)
            } else {
                match consume_until(ts, syms, q, close) {
                    Err(e) => Err(e),
                    Ok((ns, r)) => Ok((keep(n, ns), r)),
                }
            },
        }
    }
}

/// What parsing the nodes from `pos` to the end gives, line breaks left out.
pub open spec fn parse_nodes(ts: Seq<TokenV>, syms: Map<u32, Seq<char>>, pos: int) -> Result<
    Seq<NodeV>,
    ErrorV,
>
    decreases left(ts, pos),
{
    if pos >= ts.len() {
        Ok(Seq::empty())
    } else {
        match parse_any(ts, syms, pos) {
            Err(e) => Err(e),
            Ok((n, q)) => if q <= pos {
                // never taken: a node takes at least one token
                Err(ErrorV::UnexpectedEof)
            } else {
                match parse_nodes(ts, syms, q) {
                    Err(e) => Err(e),
                    Ok(ns) => Ok(keep(n, ns)),
                }
            },
        }
    }
}

/// What parsing a whole script gives.
pub open spec fn parse_file(ts: Seq<TokenV>, syms: Map<u32, Seq<char>>) -> Result<NodeV, ErrorV> {
    match parse_nodes(ts, syms, 0) {
        Ok(ns) => Ok(NodeV::File(ns)),
        Err(e) => Err(e),
    }
}

/// Parsing a node takes at least one token, and a block at least its closing
/// token.
pub proof fn lemma_parse_advances(ts: Seq<TokenV>, syms: Map<u32, Seq<char>>, pos: int)
    ensures
        parse_any(ts, syms, pos) matches Ok((n, q)) ==> pos < q && 0 <= pos < ts.len(),
    decreases left(ts, pos),
{
    if let Ok((n, q)) = parse_any(ts, syms, pos) {
        let p = pos + 1;
        match ts[pos] {
            TokenV::Script => {
                lemma_until_advances(ts, syms, p + 1, 0x24);
            },
            TokenV::If => {
                lemma_until_advances(ts, syms, p, 0x28);
            },
            TokenV::LeftBrace => {
                lemma_until_advances(ts, syms, p, 0x04);
            },
            TokenV::LeftBracket => {
                lemma_until_advances(ts, syms, p, 0x06);
            },
            TokenV::LeftParen => {
                lemma_until_advances(ts, syms, p, 0x0f);
            },
            TokenV::Symbol(c) => {
                if tok_at(ts, p) matches Some(TokenV::Equals) {
                    lemma_parse_advances(ts, syms, p + 1);
                    lemma_parse_advances(ts, syms, p + 2);
                }
            },
            _ => {},
        }
    }
}

pub proof fn lemma_until_advances(ts: Seq<TokenV>, syms: Map<u32, Seq<char>>, pos: int, close: u8)
    ensures
        consume_until(ts, syms, pos, close) matches Ok((ns, q)) ==> pos < q,
    decreases left(ts, pos),
{
    if let Ok((ns, q)) = consume_until(ts, syms, pos, close) {
        if !(tok_at(ts, pos) matches Some(t) && token_tag(t) == close) {
            let (n, q1) = parse_any(ts, syms, pos)->Ok_0;
            lemma_until_advances(ts, syms, q1, close);
        }
    }
}

/// Parsing a block stops right after its closing token: the token with the
/// type byte `close`.
pub proof fn lemma_until_closes(ts: Seq<TokenV>, syms: Map<u32, Seq<char>>, pos: int, close: u8)
    ensures
        consume_until(ts, syms, pos, close) matches Ok((ns, q)) ==> 1 <= q <= ts.len()
            && token_tag(ts[q - 1]) == close,
    decreases left(ts, pos),
{
    if let Ok((ns, q)) = consume_until(ts, syms, pos, close) {
        if !(tok_at(ts, pos) matches Some(t) && token_tag(t) == close) {
            let (n, q1) = parse_any(ts, syms, pos)->Ok_0;
            lemma_until_closes(ts, syms, q1, close);
        }
    }
}

/// A node parsed at `pos` is of the kind that its first token opens, and a
/// block ends with its own closing token: `(` opens a parenthesized expression
/// that `)` closes, `[` an array that `]` closes, `{` a structure that `}`
/// closes, `if` a condition that `endif` closes, and `script` a script that
/// `endscript` closes. `global` gives a global name, a checksum a symbol or an
/// assignment to it, and any other token stands for itself.
pub proof fn law_node_kind(ts: Seq<TokenV>, syms: Map<u32, Seq<char>>, pos: int)
    ensures
        parse_any(ts, syms, pos) matches Ok((n, q)) ==> {
            &&& 0 <= pos < q <= ts.len()
            &&& (n is Parenthesized <==> ts[pos] is LeftParen)
            &&& (n is Array <==> ts[pos] is LeftBracket)
            &&& (n is Structure <==> ts[pos] is LeftBrace)
            &&& (n is If <==> ts[pos] is If)
            &&& (n is Script <==> ts[pos] is Script)
            &&& (n is Global <==> ts[pos] is Global)
            &&& (n is Symbol || n is Assignment <==> ts[pos] is Symbol)
            &&& !(n is File)
            &&& (n matches NodeV::Token(t) ==> t == ts[pos])
            &&& (n is Parenthesized ==> ts[q - 1] is RightParen)
            &&& (n is Array ==> ts[q - 1] is RightBracket)
            &&& (n is Structure ==> ts[q - 1] is RightBrace)
            &&& (n is If ==> ts[q - 1] is EndIf)
            &&& (n is Script ==> ts[q - 1] is EndScript)
        },
    decreases left(ts, pos),
{
    if let Ok((n, q)) = parse_any(ts, syms, pos) {
        lemma_parse_advances(ts, syms, pos);
        let p = pos + 1;
        match ts[pos] {
            TokenV::Script => {
                lemma_until_closes(ts, syms, p + 1, 0x24);
            },
            TokenV::If => {
                lemma_until_closes(ts, syms, p, 0x28);
            },
            TokenV::LeftBrace => {
                lemma_until_closes(ts, syms, p, 0x04);
            },
            TokenV::LeftBracket => {
                lemma_until_closes(ts, syms, p, 0x06);
            },
            TokenV::LeftParen => {
                lemma_until_closes(ts, syms, p, 0x0f);
            },
            TokenV::Symbol(c) => {
                if tok_at(ts, p) matches Some(TokenV::Equals) {
                    law_node_kind(ts, syms, p + 1);
                    law_node_kind(ts, syms, p + 2);
                }
            },
            _ => {},
        }
    }
}

// ---------------------------------------------------------------------------
// Parsing.

/// `a` put in front of the nodes of `r`, if it holds nodes.
pub open spec fn prepend_nodes(a: Seq<NodeV>, r: Result<(Seq<NodeV>, int), ErrorV>) -> Result<
    (Seq<NodeV>, int),
    ErrorV,
> {
    match r {
        Ok((b, q)) => Ok((a + b, q)),
        Err(e) => Err(e),
    }
}

pub open spec fn prepend_file(a: Seq<NodeV>, r: Result<Seq<NodeV>, ErrorV>) -> Result<
    Seq<NodeV>,
    ErrorV,
> {
    match r {
        Ok(b) => Ok(a + b),
        Err(e) => Err(e),
    }
}

proof fn lemma_nodes_v_push(ns: Seq<Node>, n: Node)
    ensures
        nodes_v(ns.push(n)) == nodes_v(ns).push(n@),
{
    lemma_nodes_v(ns);
    lemma_nodes_v(ns.push(n));
    assert(nodes_v(ns.push(n)) =~= nodes_v(ns).push(n@));
}

proof fn lemma_nodes_v_empty()
    ensures
        nodes_v(Seq::<Node>::empty()) == Seq::<NodeV>::empty(),
{
    lemma_nodes_v(Seq::<Node>::empty());
    assert(nodes_v(Seq::<Node>::empty()) =~= Seq::<NodeV>::empty());
}

impl Node {
    /// A copy of the node.
    pub fn copy(&self) -> (r: Node)
        ensures
            r@ == self@,
        decreases self, 0nat,
    {
        match self {
            Node::File(ns) => Node::File(Node::copy_nodes(ns)),
            Node::Script { name, nodes } => Node::Script {
                name: name.clone(),
                nodes: Node::copy_nodes(nodes),
            },
            Node::If(ns) => Node::If(Node::copy_nodes(ns)),
            Node::Structure(ns) => Node::Structure(Node::copy_nodes(ns)),
            Node::Array(ns) => Node::Array(Node::copy_nodes(ns)),
            Node::Parenthesized(ns) => Node::Parenthesized(Node::copy_nodes(ns)),
            Node::Global(s) => Node::Global(s.clone()),
            Node::Symbol(s) => Node::Symbol(s.clone()),
            Node::Assignment(l, r) => Node::Assignment(Box::new(l.copy()), Box::new(r.copy())),
            Node::Token(t) => Node::Token(t.copy()),
        }
    }

    /// A copy of a list of nodes.
    pub fn copy_nodes(ns: &Vec<Node>) -> (r: Vec<Node>)
        ensures
            nodes_v(r@) == nodes_v(ns@),
        decreases ns, 1nat,
    {
        let mut out: Vec<Node> = Vec::new();
        let mut i: usize = 0;
        proof {
            lemma_nodes_v(ns@);
        }
        while i < ns.len()
            invariant
                0 <= i <= ns@.len(),
                out@.len() == i,
                forall|k: int| 0 <= k < i ==> #[trigger] out@[k]@ == ns@[k]@,
            decreases ns@.len() - i,
        {
            proof {
                assert(decreases_to!(ns => ns@[i as int]));
            }
            out.push(ns[i].copy());
            i = i + 1;
        }
        proof {
            lemma_nodes_v(out@);
            lemma_nodes_v(ns@);
            assert(nodes_v(out@) =~= nodes_v(ns@));
        }
        out
    }

    /// Parses the whole script, line breaks left out.
    pub fn parse_file(qb: &Qb) -> (r: Result<Node, Error>)
        ensures
            match parse_file(tokens_view(qb.tokens@), qb.symbol_table@) {
                Ok(n) => r is Ok && r->Ok_0@ == n,
                Err(e) => r is Err && r->Err_0@ == e,
            },
    {
        let ghost ts = tokens_view(qb.tokens@);
        let ghost syms = qb.symbol_table@;
        let mut nodes: Vec<Node> = Vec::new();
        let mut pos: usize = 0;
        proof {
            lemma_nodes_v_empty();
        }
        while pos < qb.tokens.len()
            invariant
                ts == tokens_view(qb.tokens@),
                syms == qb.symbol_table@,
                parse_nodes(ts, syms, 0) == prepend_file(nodes_v(nodes@), parse_nodes(ts, syms, pos as int)),
            decreases left(ts, pos as int),
        {
            let (node, new_pos) = Node::parse_any(qb, pos)?;
            proof {
                lemma_parse_advances(ts, syms, pos as int);
                let rest = parse_nodes(ts, syms, new_pos as int);
                let before = nodes_v(nodes@);
                lemma_nodes_v_push(nodes@, node);
                match rest {
                    Ok(b) => {
                        assert(before + (seq![node@] + b) =~= before.push(node@) + b);
                    },
                    Err(_) => {},
                }
            }
            pos = new_pos;
            match node {
                Node::Token(Token::Newline) | Node::Token(Token::NewlineDebug(_)) => {},
                _ => nodes.push(node),
            }
        }
        proof {
            assert(nodes_v(nodes@) + Seq::<NodeV>::empty() =~= nodes_v(nodes@));
        }
        Ok(Node::File(nodes))
    }

    /// Parses the script, as `parse_file` does.
    pub fn try_from(qb: &Qb) -> (r: Result<Node, Error>)
        ensures
            match parse_file(tokens_view(qb.tokens@), qb.symbol_table@) {
                Ok(n) => r is Ok && r->Ok_0@ == n,
                Err(e) => r is Err && r->Err_0@ == e,
            },
    {
        Node::parse_file(qb)
    }

    /// Parses nodes up to and including the closing token with type byte
    /// `close`, line breaks left out.
    fn consume_until(qb: &Qb, pos: &mut usize, close: u8) -> (r: Result<Vec<Node>, Error>)
        ensures
            match consume_until(tokens_view(qb.tokens@), qb.symbol_table@, *old(pos) as int, close) {
                Ok((ns, q)) => r is Ok && nodes_v(r->Ok_0@) == ns && *final(pos) == q,
                Err(e) => r is Err && r->Err_0@ == e,
            },
        decreases left(tokens_view(qb.tokens@), *old(pos) as int), 1nat,
    {
        let ghost ts = tokens_view(qb.tokens@);
        let ghost syms = qb.symbol_table@;
        let ghost p0 = *pos as int;
        let mut nodes: Vec<Node> = Vec::new();
        proof {
            lemma_nodes_v_empty();
        }
        loop
            invariant
                ts == tokens_view(qb.tokens@),
                syms == qb.symbol_table@,
                p0 == *old(pos),
                p0 <= *pos,
                consume_until(ts, syms, p0, close) == prepend_nodes(
                    nodes_v(nodes@),
                    consume_until(ts, syms, *pos as int, close),
                ),
            decreases left(ts, *pos as int),
        {
            if *pos < qb.tokens.len() && qb.tokens[*pos].tag() == close {
                *pos = *pos + 1;
                proof {
                    assert(nodes_v(nodes@) + Seq::<NodeV>::empty() =~= nodes_v(nodes@));
                }
                return Ok(nodes);
            }
            let (node, new_pos) = Node::parse_any(qb, *pos)?;
            proof {
                lemma_parse_advances(ts, syms, *pos as int);
                let rest = consume_until(ts, syms, new_pos as int, close);
                let before = nodes_v(nodes@);
                lemma_nodes_v_push(nodes@, node);
                match rest {
                    Ok((b, q)) => {
                        assert(before + (seq![node@] + b) =~= before.push(node@) + b);
                    },
                    Err(_) => {},
                }
            }
            *pos = new_pos;
            match node {
                Node::Token(Token::Newline) | Node::Token(Token::NewlineDebug(_)) => {},
                _ => nodes.push(node),
            }
        }
    }

    /// The checksum of the symbol at `pos`, moving past it.
    fn expect_symbol(qb: &Qb, pos: &mut usize) -> (r: Result<u32, Error>)
        ensures
            match tok_at(tokens_view(qb.tokens@), *old(pos) as int) {
                Some(TokenV::Symbol(c)) => r == Ok::<u32, Error>(c) && *final(pos) == *old(pos) + 1,
                Some(u) => r is Err && r->Err_0@ == ErrorV::UnexpectedToken(u),
                None => r is Err && r->Err_0@ == ErrorV::UnexpectedEof,
            },
    {
        if *pos < qb.tokens.len() {
            match &qb.tokens[*pos] {
                Token::Symbol(c) => {
                    *pos = *pos + 1;
                    Ok(*c)
                },
                other => Err(Error::UnexpectedToken(other.copy())),
            }
        } else {
            Err(Error::UnexpectedEof)
        }
    }

    /// Parses one node at `pos`.
    fn parse_any(qb: &Qb, pos: usize) -> (r: Result<(Node, usize), Error>)
        ensures
            match parse_any(tokens_view(qb.tokens@), qb.symbol_table@, pos as int) {
                Ok((n, q)) => r is Ok && r->Ok_0.0@ == n && r->Ok_0.1 == q,
                Err(e) => r is Err && r->Err_0@ == e,
            },
        decreases left(tokens_view(qb.tokens@), pos as int), 0nat,
    {
        if pos >= qb.tokens.len() {
            return Err(Error::UnexpectedEof);
        }
        let token = &qb.tokens[pos];
        let p = pos + 1;
        match token {
            Token::Script => Node::parse_script(qb, p),
            Token::If => Node::parse_if(qb, p),
            Token::LeftBrace => Node::parse_structure(qb, p),
            Token::LeftBracket => Node::parse_array(qb, p),
            Token::LeftParen => Node::parse_parens(qb, p),
            Token::Global => Node::parse_global(qb, p),
            Token::Symbol(checksum) => {
                let slf = Node::Symbol(qb.symbol_table.get_or_hex(*checksum));
                match Node::maybe_parse_assignment(qb, p, &slf)? {
                    Some(n) => Ok(n),
                    None => Ok((slf, p)),
                }
            },
            Token::EndScript | Token::EndIf | Token::RightBrace | Token::RightBracket
            | Token::RightParen => Err(Error::UnexpectedToken(token.copy())),
            _ => Ok((Node::Token(token.copy()), p)),
        }
    }

    fn parse_script(qb: &Qb, pos: usize) -> (r: Result<(Node, usize), Error>)
        ensures
            match parse_script(tokens_view(qb.tokens@), qb.symbol_table@, pos as int) {
                Ok((n, q)) => r is Ok && r->Ok_0.0@ == n && r->Ok_0.1 == q,
                Err(e) => r is Err && r->Err_0@ == e,
            },
        decreases left(tokens_view(qb.tokens@), pos as int), 2nat,
    {
        let mut pos = pos;
        let checksum = Node::expect_symbol(qb, &mut pos)?;
        let name = qb.symbol_table.get_or_hex(checksum);
        let nodes = Node::consume_until(qb, &mut pos, 0x24)?;
        Ok((Node::Script { name, nodes }, pos))
    }

    fn parse_if(qb: &Qb, pos: usize) -> (r: Result<(Node, usize), Error>)
        ensures
            match consume_until(tokens_view(qb.tokens@), qb.symbol_table@, pos as int, 0x28) {
                Ok((ns, q)) => r is Ok && r->Ok_0.0@ == NodeV::If(ns) && r->Ok_0.1 == q,
                Err(e) => r is Err && r->Err_0@ == e,
            },
        decreases left(tokens_view(qb.tokens@), pos as int), 2nat,
    {
        let mut pos = pos;
        let nodes = Node::consume_until(qb, &mut pos, 0x28)?;
        Ok((Node::If(nodes), pos))
    }

    fn parse_structure(qb: &Qb, pos: usize) -> (r: Result<(Node, usize), Error>)
        ensures
            match consume_until(tokens_view(qb.tokens@), qb.symbol_table@, pos as int, 0x04) {
                Ok((ns, q)) => r is Ok && r->Ok_0.0@ == NodeV::Structure(ns) && r->Ok_0.1 == q,
                Err(e) => r is Err && r->Err_0@ == e,
            },
        decreases left(tokens_view(qb.tokens@), pos as int), 2nat,
    {
        let mut pos = pos;
        let nodes = Node::consume_until(qb, &mut pos, 0x04)?;
        Ok((Node::Structure(nodes), pos))
    }

    fn parse_array(qb: &Qb, pos: usize) -> (r: Result<(Node, usize), Error>)
        ensures
            match consume_until(tokens_view(qb.tokens@), qb.symbol_table@, pos as int, 0x06) {
                Ok((ns, q)) => r is Ok && r->Ok_0.0@ == NodeV::Array(ns) && r->Ok_0.1 == q,
                Err(e) => r is Err && r->Err_0@ == e,
            },
        decreases left(tokens_view(qb.tokens@), pos as int), 2nat,
    {
        let mut pos = pos;
        let nodes = Node::consume_until(qb, &mut pos, 0x06)?;
        Ok((Node::Array(nodes), pos))
    }

    fn parse_parens(qb: &Qb, pos: usize) -> (r: Result<(Node, usize), Error>)
        ensures
            match consume_until(tokens_view(qb.tokens@), qb.symbol_table@, pos as int, 0x0f) {
                Ok((ns, q)) => r is Ok && r->Ok_0.0@ == NodeV::Parenthesized(ns) && r->Ok_0.1 == q,
                Err(e) => r is Err && r->Err_0@ == e,
            },
        decreases left(tokens_view(qb.tokens@), pos as int), 2nat,
    {
        let mut pos = pos;
        let nodes = Node::consume_until(qb, &mut pos, 0x0f)?;
        Ok((Node::Parenthesized(nodes), pos))
    }

    fn parse_global(qb: &Qb, pos: usize) -> (r: Result<(Node, usize), Error>)
        ensures
            match tok_at(tokens_view(qb.tokens@), pos as int) {
                Some(TokenV::Symbol(c)) => r is Ok && r->Ok_0.0@ == NodeV::Global(
                    name_or_hex(qb.symbol_table@, c),
                ) && r->Ok_0.1 == pos + 1,
                Some(u) => r is Err && r->Err_0@ == ErrorV::UnexpectedToken(u),
                None => r is Err && r->Err_0@ == ErrorV::UnexpectedEof,
            },
    {
        let mut pos = pos;
        let name = Node::expect_symbol(qb, &mut pos)?;
        Ok((Node::Global(qb.symbol_table.get_or_hex(name)), pos))
    }

    /// When the token at `pos` is `=`, parses the right-hand side of an
    /// assignment to `lhs` (skipping a line break after the `=`).
    fn maybe_parse_assignment(qb: &Qb, pos: usize, lhs: &Node) -> (r: Result<
        Option<(Node, usize)>,
        Error,
    >)
        ensures
            match parse_assignment(tokens_view(qb.tokens@), qb.symbol_table@, pos as int, lhs@) {
                Ok(Some((n, q))) => r is Ok && r->Ok_0 is Some && r->Ok_0->Some_0.0@ == n
                    && r->Ok_0->Some_0.1 == q,
                Ok(None) => r is Ok && r->Ok_0 is None,
                Err(e) => r is Err && r->Err_0@ == e,
            },
        decreases left(tokens_view(qb.tokens@), pos as int), 2nat,
    {
        if pos < qb.tokens.len() {
            match &qb.tokens[pos] {
                Token::Equals => {
                    let mut p = pos + 1;
                    if p < qb.tokens.len() {
                        match &qb.tokens[p] {
                            Token::Newline | Token::NewlineDebug(_) => {
                                p = p + 1;
                            },
                            _ => {},
                        }
                    }
                    let (rhs, new_pos) = Node::parse_any(qb, p)?;
                    Ok(Some((Node::Assignment(Box::new(lhs.copy()), Box::new(rhs)), new_pos)))
                },
                _ => Ok(None),
            }
        } else {
            Ok(None)
        }
    }
}

} // verus!
