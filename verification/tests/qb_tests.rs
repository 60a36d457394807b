use nx::bytes::{ByteReader, ByteWriter};
use nx::qb::component::{Component, Id, Kind, Structure, Value};
use nx::qb::error::Error;
use nx::qb::nodearray::{self, get_node_name, read_nodearray};
use nx::qb::parser::{self, Node};
use nx::qb::symbols::SymbolTable;
use nx::qb::token::Token;
use nx::qb::Qb;

fn push_u32(b: &mut Vec<u8>, v: u32) {
    b.extend_from_slice(&v.to_le_bytes());
}

/// `a = 1`, a newline, then `script b 2 endscript`, with `a` named by a symbol
/// definition and a string.
fn script_bytes() -> Vec<u8> {
    let mut b = Vec::new();
    b.push(0x2b);
    push_u32(&mut b, 0xaa);
    b.extend_from_slice(b"speed\0");
    b.push(0x16);
    push_u32(&mut b, 0xaa);
    b.push(0x07);
    b.push(0x17);
    b.extend_from_slice(&1i32.to_le_bytes());
    b.push(0x01);
    b.push(0x23);
    b.push(0x16);
    push_u32(&mut b, 0xbb);
    b.push(0x17);
    b.extend_from_slice(&(-2i32).to_le_bytes());
    b.push(0x1b);
    b.extend_from_slice(&4i32.to_le_bytes());
    b.extend_from_slice(b"abc\0");
    b.push(0x24);
    b.push(0x00);
    b
}

#[test]
fn qb_reads_tokens_and_symbols() {
    let qb = Qb::read(&mut ByteReader::new(script_bytes())).unwrap();
    assert_eq!(qb.tokens.len(), 10);
    assert!(matches!(qb.tokens[1], Token::Symbol(0xaa)));
    assert!(matches!(qb.tokens[4], Token::Newline));
    assert_eq!(qb.symbol_table.get(0xaa).unwrap(), "speed");
    assert!(qb.symbol_table.get(0xbb).is_none());
}

#[test]
fn qb_writes_back_what_it_read() {
    let bytes = script_bytes();
    let qb = Qb::read(&mut ByteReader::new(bytes.clone())).unwrap();
    let mut w = ByteWriter::new();
    qb.write(&mut w);
    assert_eq!(w.into_bytes(), bytes);
}

#[test]
fn qb_text() {
    let qb = Qb::read(&mut ByteReader::new(script_bytes())).unwrap();
    assert_eq!(qb.to_string(), "speed = 1 \nscript 0x0000bb -2 \"abc\" endscript ");
}

#[test]
fn qb_unknown_token_type() {
    let e = Qb::read(&mut ByteReader::new(vec![0x01, 0x50])).unwrap_err();
    assert!(matches!(e, Error::InvalidTokenType(0x50)));
}

#[test]
fn qb_runs_out_of_bytes() {
    let e = Qb::read(&mut ByteReader::new(vec![0x16, 1, 2])).unwrap_err();
    assert!(matches!(e, Error::Io(_)));
}

#[test]
fn token_write_read() {
    let t = Token::RandomNoRepeat(2, vec![7, 9]);
    let mut w = ByteWriter::new();
    t.write(&mut w);
    let bytes = w.into_bytes();
    assert_eq!(bytes, vec![0x40, 2, 0, 0, 0, 7, 0, 0, 0, 9, 0, 0, 0]);
    let back = Token::read(&mut ByteReader::new(bytes)).unwrap();
    assert!(matches!(back, Token::RandomNoRepeat(2, ref v) if v == &vec![7, 9]));
}

#[test]
fn symbol_definition_is_decoded_as_windows_1252() {
    let mut b = vec![0x2b];
    push_u32(&mut b, 5);
    b.extend_from_slice(&[b'c', 0xe9, 0x80, 0]);
    b.push(0);
    let qb = Qb::read(&mut ByteReader::new(b)).unwrap();
    assert_eq!(qb.symbol_table.get(5).unwrap(), "c\u{e9}\u{20ac}");
}

#[test]
fn symbol_table_names_or_hex() {
    let mut t = SymbolTable::new();
    t.add(1, "one".to_string());
    t.add(1, "uno".to_string());
    assert_eq!(t.get_or_hex(1), "uno");
    assert_eq!(t.get_or_hex(0x1234567), "0x1234567");
    assert_eq!(t.get_or_hex(2), "0x000002");
}

#[test]
fn parses_assignment_and_script() {
    let qb = Qb::read(&mut ByteReader::new(script_bytes())).unwrap();
    let node = Node::try_from(&qb).unwrap();
    let Node::File(nodes) = node else { panic!("not a file") };
    assert_eq!(nodes.len(), 3);
    assert!(matches!(nodes[0], Node::Token(Token::SymbolDef(0xaa, _))));
    match &nodes[1] {
        Node::Assignment(l, r) => {
            assert!(matches!(&**l, Node::Symbol(n) if n == "speed"));
            assert!(matches!(&**r, Node::Token(Token::Integer(1))));
        }
        other => panic!("{:?}", other),
    }
    match &nodes[2] {
        Node::Script { name, nodes } => {
            assert_eq!(name, "0x0000bb");
            assert_eq!(nodes.len(), 2);
        }
        other => panic!("{:?}", other),
    }
}

#[test]
fn parser_rejects_stray_closer() {
    let qb = Qb { tokens: vec![Token::RightBrace], symbol_table: SymbolTable::new() };
    let e = Node::parse_file(&qb).unwrap_err();
    assert!(matches!(e, parser::Error::UnexpectedToken(Token::RightBrace)));
}

#[test]
fn parser_needs_the_closer() {
    let qb = Qb { tokens: vec![Token::LeftBrace, Token::Integer(1)], symbol_table: SymbolTable::new() };
    let e = Node::parse_file(&qb).unwrap_err();
    assert!(matches!(e, parser::Error::UnexpectedEof));
}

#[test]
fn parser_script_needs_a_name() {
    let qb = Qb { tokens: vec![Token::Script, Token::Integer(1)], symbol_table: SymbolTable::new() };
    let e = Node::parse_file(&qb).unwrap_err();
    assert!(matches!(e, parser::Error::UnexpectedToken(Token::Integer(1))));
}

#[test]
fn parser_blocks_and_line_break_after_equals() {
    let qb = Qb {
        tokens: vec![
            Token::Global,
            Token::Symbol(3),
            Token::Symbol(4),
            Token::Equals,
            Token::Newline,
            Token::LeftBracket,
            Token::Integer(1),
            Token::Newline,
            Token::RightBracket,
        ],
        symbol_table: SymbolTable::new(),
    };
    let Node::File(nodes) = Node::parse_file(&qb).unwrap() else { panic!() };
    assert_eq!(nodes.len(), 2);
    assert!(matches!(&nodes[0], Node::Global(n) if n == "0x000003"));
    match &nodes[1] {
        Node::Assignment(_, r) => match &**r {
            Node::Array(items) => assert_eq!(items.len(), 1),
            other => panic!("{:?}", other),
        },
        other => panic!("{:?}", other),
    }
}

#[test]
fn node_names() {
    assert_eq!(get_node_name(&Node::Global("g".to_string())).unwrap(), "g");
    assert_eq!(get_node_name(&Node::Symbol("s".to_string())).unwrap(), "s");
    assert!(matches!(
        get_node_name(&Node::Token(Token::Add)),
        Err(nodearray::Error::UnexpectedNode(Node::Token(Token::Add)))
    ));
}

#[test]
fn nodearray_stops_at_first_bad_assignment() {
    let file = Node::File(vec![
        Node::Assignment(Box::new(Node::Symbol("a".to_string())), Box::new(Node::Global("b".to_string()))),
        Node::Assignment(Box::new(Node::Symbol("c".to_string())), Box::new(Node::If(vec![]))),
    ]);
    let e = read_nodearray(&file).unwrap_err();
    assert!(matches!(e, nodearray::Error::HasNoValue(Node::If(ref v)) if v.is_empty()));
    let file = Node::File(vec![Node::Assignment(
        Box::new(Node::Token(Token::Integer(3))),
        Box::new(Node::Global("b".to_string())),
    )]);
    let e = read_nodearray(&file).unwrap_err();
    assert!(matches!(e, nodearray::Error::UnexpectedNode(Node::Token(Token::Integer(3)))));
}

#[test]
fn kinds_by_number() {
    assert_eq!(Kind::try_from(0xa).unwrap(), Kind::Structure);
    assert_eq!(Kind::Structure.to_u8(), 0xa);
    assert!(matches!(Kind::try_from(0x14), Err(Error::InvalidComponentType(0x14))));
}

fn integer(id: u32, v: i32) -> Component {
    Component { kind: Kind::Integer, id: Id::Checksum(id), value: Value::I32(v) }
}

#[test]
fn structure_insert_get_remove() {
    let mut s = Structure::new(vec![integer(1, 10), integer(2, 20), integer(1, 11)]);
    assert_eq!(s.len(), 3);
    assert!(matches!(s.get(Id::Checksum(1)).unwrap().value, Value::I32(10)));
    let old = s.insert(integer(1, 12)).unwrap();
    assert!(matches!(old.value, Value::I32(10)));
    assert!(matches!(s.get(Id::Checksum(1)).unwrap().value, Value::I32(12)));
    assert!(s.insert(integer(3, 30)).is_none());
    assert_eq!(s.len(), 4);
    assert!(matches!(s.get(Id::Checksum(3)).unwrap().value, Value::I32(30)));
    s.remove(Id::Checksum(1));
    assert_eq!(s.len(), 2);
    assert!(s.get(Id::Checksum(1)).is_none());
    let ids: Vec<Id> = s.iter().map(|c| c.id).collect();
    assert_eq!(ids, vec![Id::Checksum(2), Id::Checksum(3)]);
    if let Some(c) = s.get_mut(Id::Checksum(2)) {
        c.value = Value::I32(21);
    }
    assert!(matches!(s.get(Id::Checksum(2)).unwrap().value, Value::I32(21)));
    s.remove(Id::Checksum(2));
    s.remove(Id::Checksum(3));
    assert!(s.is_empty());
}

#[test]
fn structure_bytes_round_trip() {
    let inner = Structure::new(vec![integer(7, -1)]);
    let s = Structure::new(vec![
        integer(1, 5),
        Component { kind: Kind::String, id: Id::Compress8(3), value: Value::String(b"hi".to_vec()) },
        Component::structure(Id::Compress16(0x102), Box::new(inner)),
    ]);
    let bytes = s.raw_bytes().unwrap();
    assert_eq!(
        bytes,
        vec![
            1, 1, 0, 0, 0, 5, 0, 0, 0, 0x83, 3, b'h', b'i', 0, 0x4a, 2, 1, 1, 7, 0, 0, 0, 0xff, 0xff,
            0xff, 0xff, 0, 0
        ]
    );
    let back = Structure::read(&mut ByteReader::new(bytes.clone())).unwrap();
    assert_eq!(back.raw_bytes().unwrap(), bytes);
    assert_eq!(back.len(), 3);
}

#[test]
fn value_as_structure() {
    let mut v = Value::Structure(Box::new(Structure::new(vec![integer(1, 1)])));
    assert_eq!(v.try_as_structure().unwrap().len(), 1);
    v.try_as_structure_mut().unwrap().insert(integer(2, 2));
    assert_eq!(v.try_as_structure().unwrap().len(), 2);
    let e = Value::I32(4).try_as_structure().unwrap_err();
    assert!(matches!(e, Error::ExpectedValueType(ref s, Value::I32(4)) if s == "Structure"));
}

#[test]
fn component_read_checksum_bits() {
    let e = Component::read(&mut ByteReader::new(vec![0xc1, 0, 0, 0, 0])).unwrap_err();
    assert!(matches!(e, Error::BothChecksumBits(0xc1)));
    let c = Component::read(&mut ByteReader::new(vec![0x81, 9, 4, 0, 0, 0])).unwrap();
    assert_eq!(c.id, Id::Compress8(9));
    assert!(matches!(c.value, Value::I32(4)));
}

#[test]
fn qb_read_panics_only_on_bad_lengths() {
    let mut r = ByteReader::new(script_bytes());
    assert!(!Qb::read_panics(&mut r));
    assert_eq!(r.stream_position(), 0);
    // A newline, then a string whose length field is zero.
    let mut bad = vec![0x01, 0x1b];
    bad.extend_from_slice(&0i32.to_le_bytes());
    let mut r = ByteReader::new(bad);
    assert!(Qb::read_panics(&mut r));
    assert_eq!(r.stream_position(), 0);
    // A permutation with a negative count after the terminating token is never read.
    let mut after_end = vec![0x00, 0x41];
    after_end.extend_from_slice(&(-1i32).to_le_bytes());
    assert!(!Qb::read_panics(&mut ByteReader::new(after_end)));
    // A permutation with a negative count.
    let mut perm = vec![0x41];
    perm.extend_from_slice(&(-1i32).to_le_bytes());
    assert!(Qb::read_panics(&mut ByteReader::new(perm)));
    // Bytes that run out are an error, not a panic.
    assert!(!Qb::read_panics(&mut ByteReader::new(vec![0x1b, 0, 0])));
}

#[test]
fn invalid_token_type_consumes_its_byte() {
    let mut r = ByteReader::new(vec![0x50, 0x01]);
    let e = Token::read(&mut r).unwrap_err();
    assert!(matches!(e, Error::InvalidTokenType(0x50)));
    assert_eq!(r.stream_position(), 1);
}

#[test]
fn kinds_not_read_consume_nothing() {
    let mut r = ByteReader::new(vec![1, 2, 3, 4]);
    match Value::read(&mut r, Kind::QScript).unwrap_err() {
        Error::NotImplemented(m) => assert_eq!(m, "deserializing symbol type QScript"),
        other => panic!("{:?}", other),
    }
    assert_eq!(r.stream_position(), 0);
    match Value::read(&mut r, Kind::StructurePointer).unwrap_err() {
        Error::NotImplemented(m) => assert_eq!(m, "deserializing symbol type StructurePointer"),
        other => panic!("{:?}", other),
    }
}

#[test]
fn both_checksum_bits_consume_the_type_byte() {
    let mut r = ByteReader::new(vec![0xC1, 0, 0, 0, 0]);
    let e = Component::read(&mut r).unwrap_err();
    assert!(matches!(e, Error::BothChecksumBits(0xC1)));
    assert_eq!(r.stream_position(), 1);
    // An unknown kind in the low six bits also stops after the type byte.
    let mut r = ByteReader::new(vec![0x3F, 0, 0, 0, 0]);
    let e = Component::read(&mut r).unwrap_err();
    assert!(matches!(e, Error::InvalidComponentType(0x3F)));
    assert_eq!(r.stream_position(), 1);
}

#[test]
fn qb_read_stops_after_an_invalid_token_type() {
    let mut r = ByteReader::new(vec![0x01, 0x01, 0x60, 0x00]);
    let e = Qb::read(&mut r).unwrap_err();
    assert!(matches!(e, Error::InvalidTokenType(0x60)));
    assert_eq!(r.stream_position(), 3);
}
