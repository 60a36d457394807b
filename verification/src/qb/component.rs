//! Components: the typed, identified values that QB structures are made of, and
//! their byte encoding.
use crate::bytes::{
    avail, bits_of_i8, rem, group_positions, i16_bytes, i16_le, i32_bytes, i32_le, i8_of_bits,
    lemma_emit_emit, lemma_reader_pos, lemma_writer_pos, u16_bytes, u16_le, u32_bytes, u32_le,
    ByteReader, ByteWriter,
};
use crate::qb::error::{
    eof, fail, failed_as, io, not_implemented_message, not_implemented_text, Error, ErrorV, Failure,
};
use crate::qb::token::cstr_len;
use vstd::prelude::*;
use vstd::slice::slice_to_vec;
use vstd::std_specs::iter::IteratorSpec;

verus! {

broadcast use group_positions;

pub const CHECKSUM_LOOKUP_MASK_8: u8 = 0x80;

pub const CHECKSUM_LOOKUP_MASK_16: u8 = 0x40;


/// The kind of a component or of the elements of an array.
#[derive(Debug, Clone, Copy, PartialEq, Eq, Structural)]
pub enum Kind {
    Nil,
    Integer,
    Float,
    String,
    LocalString,
    Pair,
    Vector,
    QScript,
    CFunction,
    MemberFunction,
    Structure,
    StructurePointer,
    Array,
    Name,
    I8,
    I16,
    U8,
    U16,
    ZeroInt,
    ZeroFloat,
}

/// The number that stands for a kind in the bytes.
pub open spec fn kind_byte(k: Kind) -> u8 {
    match k {
        Kind::Nil => 0,
        Kind::Integer => 1,
        Kind::Float => 2,
        Kind::String => 3,
        Kind::LocalString => 4,
        Kind::Pair => 5,
        Kind::Vector => 6,
        Kind::QScript => 7,
        Kind::CFunction => 8,
        Kind::MemberFunction => 9,
        Kind::Structure => 10,
        Kind::StructurePointer => 11,
        Kind::Array => 12,
        Kind::Name => 13,
        Kind::I8 => 14,
        Kind::I16 => 15,
        Kind::U8 => 16,
        Kind::U16 => 17,
        Kind::ZeroInt => 18,
        Kind::ZeroFloat => 19,
    }
}

/// The kind that a number stands for, if any.
pub open spec fn kind_of_byte(v: u8) -> Option<Kind> {
    if v == 0 {
        Some(Kind::Nil)
    }
    else if v == 1 {
        Some(Kind::Integer)
    }
    else if v == 2 {
        Some(Kind::Float)
    }
    else if v == 3 {
        Some(Kind::String)
    }
    else if v == 4 {
        Some(Kind::LocalString)
    }
    else if v == 5 {
        Some(Kind::Pair)
    }
    else if v == 6 {
        Some(Kind::Vector)
    }
    else if v == 7 {
        Some(Kind::QScript)
    }
    else if v == 8 {
        Some(Kind::CFunction)
    }
    else if v == 9 {
        Some(Kind::MemberFunction)
    }
    else if v == 10 {
        Some(Kind::Structure)
    }
    else if v == 11 {
        Some(Kind::StructurePointer)
    }
    else if v == 12 {
        Some(Kind::Array)
    }
    else if v == 13 {
        Some(Kind::Name)
    }
    else if v == 14 {
        Some(Kind::I8)
    }
    else if v == 15 {
        Some(Kind::I16)
    }
    else if v == 16 {
        Some(Kind::U8)
    }
    else if v == 17 {
        Some(Kind::U16)
    }
    else if v == 18 {
        Some(Kind::ZeroInt)
    }
    else if v == 19 {
        Some(Kind::ZeroFloat)
    }
    else {
        None
    }
}

impl Kind {
    /// The kind that a number stands for; any other number is an invalid
    /// component type.
    pub fn try_from(v: u8) -> (r: Result<Kind, Error>)
        ensures
            match kind_of_byte(v) {
                Some(k) => r == Ok::<Kind, Error>(k),
                None => r == Err::<Kind, Error>(Error::InvalidComponentType(v)),
            },
    {
        match v {
            0 => Ok(Kind::Nil),
            1 => Ok(Kind::Integer),
            2 => Ok(Kind::Float),
            3 => Ok(Kind::String),
            4 => Ok(Kind::LocalString),
            5 => Ok(Kind::Pair),
            6 => Ok(Kind::Vector),
            7 => Ok(Kind::QScript),
            8 => Ok(Kind::CFunction),
            9 => Ok(Kind::MemberFunction),
            10 => Ok(Kind::Structure),
            11 => Ok(Kind::StructurePointer),
            12 => Ok(Kind::Array),
            13 => Ok(Kind::Name),
            14 => Ok(Kind::I8),
            15 => Ok(Kind::I16),
            16 => Ok(Kind::U8),
            17 => Ok(Kind::U16),
            18 => Ok(Kind::ZeroInt),
            19 => Ok(Kind::ZeroFloat),
            _ => Err(Error::InvalidComponentType(v)),
        }
    }

    /// The number that stands for the kind.
    pub fn to_u8(&self) -> (r: u8)
        ensures
            r == kind_byte(*self),
    {
        match self {
            Kind::Nil => 0,
            Kind::Integer => 1,
            Kind::Float => 2,
            Kind::String => 3,
            Kind::LocalString => 4,
            Kind::Pair => 5,
            Kind::Vector => 6,
            Kind::QScript => 7,
            Kind::CFunction => 8,
            Kind::MemberFunction => 9,
            Kind::Structure => 10,
            Kind::StructurePointer => 11,
            Kind::Array => 12,
            Kind::Name => 13,
            Kind::I8 => 14,
            Kind::I16 => 15,
            Kind::U8 => 16,
            Kind::U16 => 17,
            Kind::ZeroInt => 18,
            Kind::ZeroFloat => 19,
        }
    }
}

/// How a component is identified: not at all, by a checksum, or by a compressed
/// checksum of one or two bytes.
#[derive(Debug, Clone, Copy, PartialEq, Eq, Structural)]
pub enum Id {
    Nil,
    Checksum(u32),
    Compress8(u8),
    Compress16(u16),
}

/// The value of a component. Floating-point values are held as their 32-bit
/// patterns.
#[derive(Debug)]
pub enum Value {
    Nil,
    U8(u8),
    U16(u16),
    I8(i8),
    I16(i16),
    I32(i32),
    F32(u32),
    ZeroInt,
    ZeroFloat,
    String(Vec<u8>),
    Pair(u32, u32),
    Vector(u32, u32, u32),
    Structure(Box<Structure>),
    Array(Kind, Vec<Value>),
    Name(u32),
}

/// A kind, an identifier and a value.
#[derive(Debug)]
pub struct Component {
    pub kind: Kind,
    pub id: Id,
    pub value: Value,
}

/// A list of components.
#[derive(Debug)]
pub struct Structure(Vec<Component>);

/// The mathematical value of a component's value.
pub enum ValueV {
    Nil,
    U8(u8),
    U16(u16),
    I8(i8),
    I16(i16),
    I32(i32),
    F32(u32),
    ZeroInt,
    ZeroFloat,
    String(Seq<u8>),
    Pair(u32, u32),
    Vector(u32, u32, u32),
    Structure(Seq<ComponentV>),
    Array(Kind, Seq<ValueV>),
    Name(u32),
}

/// The mathematical value of a component.
pub struct ComponentV {
    pub kind: Kind,
    pub id: Id,
    pub value: ValueV,
}

pub open spec fn value_view(v: Value) -> ValueV
    decreases v, 0nat,
{
    match v {
        Value::Nil => ValueV::Nil,
        Value::U8(x) => ValueV::U8(x),
        Value::U16(x) => ValueV::U16(x),
        Value::I8(x) => ValueV::I8(x),
        Value::I16(x) => ValueV::I16(x),
        Value::I32(x) => ValueV::I32(x),
        Value::F32(x) => ValueV::F32(x),
        Value::ZeroInt => ValueV::ZeroInt,
        Value::ZeroFloat => ValueV::ZeroFloat,
        Value::String(b) => ValueV::String(b@),
        Value::Pair(a, b) => ValueV::Pair(a, b),
        Value::Vector(a, b, c) => ValueV::Vector(a, b, c),
        Value::Structure(st) => ValueV::Structure(structure_view(*st)),
        Value::Array(k, vs) => ValueV::Array(k, values_view(vs@, vs@.len())),
        Value::Name(x) => ValueV::Name(x),
    }
}

/// The views of the components of a structure.
pub closed spec fn structure_view(st: Structure) -> Seq<ComponentV>
    decreases st, 0nat,
{
    components_view(st.0@, st.0@.len())
}

/// The views of the first `n` values.
pub open spec fn values_view(vs: Seq<Value>, n: nat) -> Seq<ValueV>
    decreases vs, n,
{
    if n == 0 || n > vs.len() {
        Seq::empty()
    } else {
        values_view(vs, (n - 1) as nat).push(value_view(vs[n - 1]))
    }
}

pub open spec fn component_view(c: Component) -> ComponentV
    decreases c, 0nat,
{
    ComponentV { kind: c.kind, id: c.id, value: value_view(c.value) }
}

/// The views of the first `n` components.
pub open spec fn components_view(cs: Seq<Component>, n: nat) -> Seq<ComponentV>
    decreases cs, n,
{
    if n == 0 || n > cs.len() {
        Seq::empty()
    } else {
        components_view(cs, (n - 1) as nat).push(component_view(cs[n - 1]))
    }
}

impl View for Value {
    type V = ValueV;

    open spec fn view(&self) -> ValueV {
        value_view(*self)
    }
}

impl View for Component {
    type V = ComponentV;

    open spec fn view(&self) -> ComponentV {
        component_view(*self)
    }
}

impl View for Structure {
    type V = Seq<ComponentV>;

    open spec fn view(&self) -> Seq<ComponentV> {
        structure_view(*self)
    }
}

/// The bytes of an identifier: none, a checksum, or a compressed checksum.
pub open spec fn id_bytes(id: Id) -> Seq<u8> {
    match id {
        Id::Nil => Seq::empty(),
        Id::Checksum(v) => u32_bytes(v),
        Id::Compress8(v) => seq![v],
        Id::Compress16(v) => u16_bytes(v),
    }
}

/// The type byte of a component: its kind, with the bit that marks a compressed
/// identifier of one byte (0x80) or of two bytes (0x40).
pub open spec fn type_byte(k: Kind, id: Id) -> u8 {
    match id {
        Id::Compress16(_) => (kind_byte(k) + 64) as u8,
        Id::Compress8(_) => (kind_byte(k) + 128) as u8,
        _ => kind_byte(k),
    }
}

/// The bytes of a value, which its kind (known from the context) does not repeat.
pub open spec fn value_bytes(v: ValueV) -> Seq<u8>
    decreases v, 0nat,
{
    match v {
        ValueV::Nil => Seq::empty(),
        ValueV::U8(x) => seq![x],
        ValueV::U16(x) => u16_bytes(x),
        ValueV::I8(x) => seq![bits_of_i8(x)],
        ValueV::I16(x) => i16_bytes(x),
        ValueV::I32(x) => i32_bytes(x),
        ValueV::F32(x) => u32_bytes(x),
        ValueV::ZeroInt => Seq::empty(),
        ValueV::ZeroFloat => Seq::empty(),
        ValueV::String(b) => b + seq![0u8],
        ValueV::Pair(a, b) => u32_bytes(a) + u32_bytes(b),
        ValueV::Vector(a, b, c) => u32_bytes(a) + u32_bytes(b) + u32_bytes(c),
        ValueV::Structure(cs) => components_bytes(cs, cs.len()) + seq![0u8],
        ValueV::Array(k, vs) => seq![kind_byte(k)] + u16_bytes(vs.len() as u16) + values_bytes(
            vs,
            vs.len(),
        ),
        ValueV::Name(x) => u32_bytes(x),
    }
}

/// The bytes of the first `n` values, one after the other.
pub open spec fn values_bytes(vs: Seq<ValueV>, n: nat) -> Seq<u8>
    decreases vs, n,
{
    if n == 0 || n > vs.len() {
        Seq::empty()
    } else {
        values_bytes(vs, (n - 1) as nat) + value_bytes(vs[n - 1])
    }
}

/// The bytes of a component: its type byte, its identifier, its value.
pub open spec fn component_bytes(c: ComponentV) -> Seq<u8>
    decreases c, 0nat,
{
    seq![type_byte(c.kind, c.id)] + id_bytes(c.id) + value_bytes(c.value)
}

/// The bytes of the first `n` components, one after the other.
pub open spec fn components_bytes(cs: Seq<ComponentV>, n: nat) -> Seq<u8>
    decreases cs, n,
{
    if n == 0 || n > cs.len() {
        Seq::empty()
    } else {
        components_bytes(cs, (n - 1) as nat) + component_bytes(cs[n - 1])
    }
}

/// The bytes of a structure: its components, then a component of kind `Nil`,
/// which is the single byte 0.
pub open spec fn structure_bytes(cs: Seq<ComponentV>) -> Seq<u8> {
    components_bytes(cs, cs.len()) + seq![0u8]
}

/// What reading an identifier of a component of kind `k` gives: none for kind
/// `Nil`, else a compressed checksum of one or two bytes as the type byte says,
/// else a checksum.
pub open spec fn parse_id(s: Seq<u8>, p: int, k: Kind, c8: bool, c16: bool) -> Result<
    (Id, int),
    Failure,
> {
    if k == Kind::Nil {
        Ok((Id::Nil, p))
    } else if c8 {
        if avail(s, p, 1) {
            Ok((Id::Compress8(s[p]), p + 1))
        } else {
            eof()
        }
    } else if c16 {
        if avail(s, p, 2) {
            Ok((Id::Compress16(u16_le(s, p)), p + 2))
        } else {
            eof()
        }
    } else if avail(s, p, 4) {
        Ok((Id::Checksum(u32_le(s, p)), p + 4))
    } else {
        eof()
    }
}

/// What reading a value of kind `k` at `p` gives: the value and the position
/// after it, or the error.
pub open spec fn parse_value(s: Seq<u8>, p: int, k: Kind) -> Result<(ValueV, int), Failure>
    decreases rem(s, p), 2nat, 0nat,
{
    match k {
        Kind::Nil => Ok((ValueV::Nil, p)),
        Kind::Integer => if avail(s, p, 4) {
            Ok((ValueV::I32(i32_le(s, p)), p + 4))
        } else {
            eof()
        },
        Kind::Float => if avail(s, p, 4) {
            Ok((ValueV::F32(u32_le(s, p)), p + 4))
        } else {
            eof()
        },
        Kind::String | Kind::LocalString => match cstr_len(s, p) {
            Some(n) => Ok((ValueV::String(s.subrange(p, p + n)), p + n + 1)),
            None => eof(),
        },
        Kind::Pair => if avail(s, p, 8) {
            Ok((ValueV::Pair(u32_le(s, p), u32_le(s, p + 4)), p + 8))
        } else {
            eof()
        },
        Kind::Vector => if avail(s, p, 12) {
            Ok((ValueV::Vector(u32_le(s, p), u32_le(s, p + 4), u32_le(s, p + 8)), p + 12))
        } else {
            eof()
        },
        Kind::Structure => match parse_components(s, p) {
            Ok((cs, q)) => Ok((ValueV::Structure(cs), q)),
            Err(e) => Err(e),
        },
        Kind::Array => if !avail(s, p, 1) {
            eof()
        } else {
            match kind_of_byte(s[p]) {
                None => fail(ErrorV::InvalidComponentType(s[p]), p + 1),
                Some(ek) => if !avail(s, p + 1, 2) {
                    eof()
                } else {
                    match parse_values(s, p + 3, ek, u16_le(s, p + 1) as nat) {
                        Ok((vs, q)) => Ok((ValueV::Array(ek, vs), q)),
                        Err(e) => Err(e),
                    }
                },
            }
        },
        Kind::Name => if avail(s, p, 4) {
            Ok((ValueV::Name(u32_le(s, p)), p + 4))
        } else {
            eof()
        },
        Kind::I8 => if avail(s, p, 1) {
            Ok((ValueV::I8(i8_of_bits(s[p])), p + 1))
        } else {
            eof()
        },
        Kind::I16 => if avail(s, p, 2) {
            Ok((ValueV::I16(i16_le(s, p)), p + 2))
        } else {
            eof()
        },
        Kind::U8 => if avail(s, p, 1) {
            Ok((ValueV::U8(s[p]), p + 1))
        } else {
            eof()
        },
        Kind::U16 => if avail(s, p, 2) {
            Ok((ValueV::U16(u16_le(s, p)), p + 2))
        } else {
            eof()
        },
        Kind::ZeroInt => Ok((ValueV::ZeroInt, p)),
        Kind::ZeroFloat => Ok((ValueV::ZeroFloat, p)),
        _ => fail(ErrorV::NotImplemented(not_implemented_text(k)), p),
    }
}

/// What reading `n` values of kind `k` one after the other gives.
pub open spec fn parse_values(s: Seq<u8>, p: int, k: Kind, n: nat) -> Result<
    (Seq<ValueV>, int),
    Failure,
>
    decreases rem(s, p), 3nat, n,
{
    if n == 0 {
        Ok((Seq::empty(), p))
    } else {
        match parse_value(s, p, k) {
            Err(e) => Err(e),
            Ok((v, q)) => if !(0 <= p <= q <= s.len()) {
                // never taken: reading a value moves forward within the bytes
                eof()
            } else {
                match parse_values(s, q, k, (n - 1) as nat) {
                    Err(e) => Err(e),
                    Ok((vs, r)) => Ok((seq![v] + vs, r)),
                }
            },
        }
    }
}

/// What reading a component at `p` gives: its type byte (which must not set both
/// checksum bits, and must name a kind), its identifier and its value.
pub open spec fn parse_component(s: Seq<u8>, p: int) -> Result<(ComponentV, int), Failure>
    decreases rem(s, p), 0nat, 0nat,
{
    if !avail(s, p, 1) {
        eof()
    } else {
        let t = s[p];
        let c8 = t >= 128;
        let c16 = t % 128 >= 64;
        if c8 && c16 {
            fail(ErrorV::BothChecksumBits(t), p + 1)
        } else {
            match kind_of_byte((t % 64) as u8) {
                None => fail(ErrorV::InvalidComponentType((t % 64) as u8), p + 1),
                Some(k) => match parse_id(s, p + 1, k, c8, c16) {
                    Err(e) => Err(e),
                    Ok((id, q)) => if !(p < q <= s.len()) {
                        // never taken: the type byte was read
                        eof()
                    } else {
                        match parse_value(s, q, k) {
                            Err(e) => Err(e),
                            Ok((v, r)) => Ok((ComponentV { kind: k, id, value: v }, r)),
                        }
                    },
                },
            }
        }
    }
}

/// What reading a structure at `p` gives: the components up to the first of kind
/// `Nil`, which ends the structure and is not part of it.
pub open spec fn parse_components(s: Seq<u8>, p: int) -> Result<(Seq<ComponentV>, int), Failure>
    decreases rem(s, p), 1nat, 0nat,
{
    match parse_component(s, p) {
        Err(e) => Err(e),
        Ok((c, q)) => if c.kind == Kind::Nil {
            Ok((Seq::empty(), q))
        } else if !(0 <= p < q <= s.len()) {
            // never taken: a component takes at least its type byte
            eof()
        } else {
            match parse_components(s, q) {
                Err(e) => Err(e),
                Ok((cs, r)) => Ok((seq![c] + cs, r)),
            }
        },
    }
}

pub proof fn lemma_values_view_prefix(vs: Seq<Value>, ws: Seq<Value>, n: nat)
    requires
        n <= vs.len(),
        n <= ws.len(),
        forall|i: int| 0 <= i < n ==> vs[i] == ws[i],
    ensures
        values_view(vs, n) == values_view(ws, n),
        values_view(vs, n).len() == n,
    decreases n,
{
    if n > 0 {
        lemma_values_view_prefix(vs, ws, (n - 1) as nat);
    }
}

pub proof fn lemma_values_view_push(vs: Seq<Value>, v: Value)
    ensures
        values_view(vs.push(v), vs.len() + 1) == values_view(vs, vs.len()).push(value_view(v)),
{
    lemma_values_view_prefix(vs.push(v), vs, vs.len());
}

pub proof fn lemma_components_view_prefix(cs: Seq<Component>, ds: Seq<Component>, n: nat)
    requires
        n <= cs.len(),
        n <= ds.len(),
        forall|i: int| 0 <= i < n ==> cs[i] == ds[i],
    ensures
        components_view(cs, n) == components_view(ds, n),
        components_view(cs, n).len() == n,
    decreases n,
{
    if n > 0 {
        lemma_components_view_prefix(cs, ds, (n - 1) as nat);
    }
}

pub proof fn lemma_components_view_push(cs: Seq<Component>, c: Component)
    ensures
        components_view(cs.push(c), cs.len() + 1) == components_view(cs, cs.len()).push(
            component_view(c),
        ),
{
    lemma_components_view_prefix(cs.push(c), cs, cs.len());
}

/// Whether reading from `p` to `q` moved forward and stayed within the bytes,
/// or read nothing at all.
pub open spec fn advances(s: Seq<u8>, p: int, q: int) -> bool {
    p <= q && (q <= s.len() || q == p)
}

impl Id {
    /// Reads the identifier of a component of kind `kind`, whose type byte set the
    /// bits `compressed_8` and `compressed_16`.
    pub fn read(reader: &mut ByteReader, kind: Kind, compressed_8: bool, compressed_16: bool) -> (r:
        Result<Id, Error>)
        ensures
            final(reader)@.bytes == old(reader)@.bytes,
            match parse_id(old(reader)@.bytes, old(reader)@.pos, kind, compressed_8, compressed_16) {
                Ok((id, q)) => r == Ok::<Id, Error>(id) && final(reader)@.pos == q,
                Err(f) => r is Err && failed_as(r->Err_0, final(reader)@.pos, f),
            },
    {
        if kind == Kind::Nil {
            Ok(Id::Nil)
        } else if compressed_8 {
            Ok(Id::Compress8(io(reader.read_u8())?))
        } else if compressed_16 {
            Ok(Id::Compress16(io(reader.read_u16())?))
        } else {
            Ok(Id::Checksum(io(reader.read_u32())?))
        }
    }

    /// Writes the identifier: nothing for `Nil`, else its one, two or four bytes.
    pub fn write(&self, writer: &mut ByteWriter)
        requires
            old(writer)@.pos + id_bytes(*self).len() <= usize::MAX,
        ensures
            final(writer)@ == old(writer)@.emit(id_bytes(*self)),
    {
        match self {
            Id::Checksum(val) => writer.write_u32(*val),
            Id::Compress8(val) => writer.write_u8(*val),
            Id::Compress16(val) => writer.write_u16(*val),
            Id::Nil => {
                proof {
                    crate::bytes::lemma_emit_empty(writer@);
                }
            },
        }
    }
}

impl Value {
    /// Reads a value of kind `kind`.
    pub fn read(reader: &mut ByteReader, kind: Kind) -> (r: Result<Value, Error>)
        ensures
            final(reader)@.bytes == old(reader)@.bytes,
            match parse_value(old(reader)@.bytes, old(reader)@.pos, kind) {
                Ok((v, q)) => r is Ok && r->Ok_0@ == v && final(reader)@.pos == q,
                Err(f) => r is Err && failed_as(r->Err_0, final(reader)@.pos, f),
            },
            r is Ok ==> advances(old(reader)@.bytes, old(reader)@.pos, final(reader)@.pos),
        decreases rem(old(reader)@.bytes, old(reader)@.pos), 2nat, 0nat,
    {
        let ghost s = reader@.bytes;
        let ghost p = reader@.pos;
        proof {
            lemma_reader_pos(*reader);
        }
        match kind {
            Kind::Nil => Ok(Value::Nil),
            Kind::Integer => Ok(Value::I32(io(reader.read_i32())?)),
            Kind::Float => Ok(Value::F32(io(reader.read_u32())?)),
            Kind::String | Kind::LocalString => {
                proof {
                    crate::qb::token::lemma_cstr_len_means(s, p);
                }
                let bytes = crate::qb::token::read_cstring(reader)?;
                Ok(Value::String(bytes))
            },
            Kind::Pair => {
                let a = io(reader.read_u32())?;
                let b = io(reader.read_u32())?;
                Ok(Value::Pair(a, b))
            },
            Kind::Vector => {
                let a = io(reader.read_u32())?;
                let b = io(reader.read_u32())?;
                let c = io(reader.read_u32())?;
                Ok(Value::Vector(a, b, c))
            },
            Kind::Structure => Ok(Value::Structure(Box::new(Structure::read(reader)?))),
            Kind::Array => {
                let type_byte = io(reader.read_u8())?;
                let ek = Kind::try_from(type_byte)?;
                let len = io(reader.read_u16())?;
                let ghost p3 = reader@.pos;
                let mut elements: Vec<Value> = Vec::new();
                let mut i: u16 = 0;
                proof {
                    lemma_values_view_prefix(elements@, elements@, 0);
                    assert(Seq::<ValueV>::empty() + Seq::<ValueV>::empty() =~= Seq::<ValueV>::empty());
                }
                while i < len
                    invariant
                        s == old(reader)@.bytes,
                        p == old(reader)@.pos,
                        reader@.bytes == s,
                        0 <= p,
                        p3 == p + 3,
                        p3 <= s.len(),
                        p3 <= reader@.pos <= s.len(),
                        0 <= i <= len,
                        kind == Kind::Array,
                        kind_of_byte(type_byte) == Some(ek),
                        type_byte == s[p],
                        len == u16_le(s, p + 1),
                        elements@.len() == i,
                        match parse_values(s, reader@.pos as int, ek, (len - i) as nat) {
                            Ok((rest, r)) => parse_values(s, p3, ek, len as nat) == Ok::<
                                (Seq<ValueV>, int),
                                Failure,
                            >((values_view(elements@, elements@.len()) + rest, r)),
                            Err(e) => parse_values(s, p3, ek, len as nat) == Err::<
                                (Seq<ValueV>, int),
                                Failure,
                            >(e),
                        },
                    decreases len - i,
                {
                    let ghost q = reader@.pos;
                    let v = match Value::read(reader, ek) {
                        Ok(v) => v,
                        Err(e) => {
                            proof {
                                assert(parse_values(s, q as int, ek, (len - i) as nat) is Err);
                                assert(parse_values(s, p3, ek, len as nat) == parse_values(
                                    s,
                                    q as int,
                                    ek,
                                    (len - i) as nat,
                                ));
                                assert(avail(s, p + 1, 2));
                                assert(parse_value(s, p, kind)->Err_0 == parse_values(s, p3, ek, len as nat)->Err_0);
                                assert(parse_value(s, p, kind) is Err);
                            }
                            return Err(e);
                        },
                    };
                    proof {
                        lemma_values_view_push(elements@, v);
                        let vv = v@;
                        let rest_after = parse_values(s, reader@.pos as int, ek, (len - i - 1) as nat);
                        match rest_after {
                            Ok((rest, r)) => {
                                assert(values_view(elements@, elements@.len()) + (seq![vv] + rest)
                                    =~= values_view(elements@, elements@.len()).push(vv) + rest);
                            },
                            Err(e) => {},
                        }
                    }
                    elements.push(v);
                    i = i + 1;
                }
                proof {
                    assert(values_view(elements@, elements@.len()) + Seq::<ValueV>::empty()
                        =~= values_view(elements@, elements@.len()));
                }
                Ok(Value::Array(ek, elements))
            },
            Kind::Name => Ok(Value::Name(io(reader.read_u32())?)),
            Kind::I8 => Ok(Value::I8(io(reader.read_i8())?)),
            Kind::I16 => Ok(Value::I16(io(reader.read_i16())?)),
            Kind::U8 => Ok(Value::U8(io(reader.read_u8())?)),
            Kind::U16 => Ok(Value::U16(io(reader.read_u16())?)),
            Kind::ZeroInt => Ok(Value::ZeroInt),
            Kind::ZeroFloat => Ok(Value::ZeroFloat),
            _ => Err(Error::NotImplemented(not_implemented_message(kind))),
        }
    }
}

impl Component {
    /// Reads a component: its type byte, its identifier, its value.
    pub fn read(reader: &mut ByteReader) -> (r: Result<Component, Error>)
        ensures
            final(reader)@.bytes == old(reader)@.bytes,
            match parse_component(old(reader)@.bytes, old(reader)@.pos) {
                Ok((c, q)) => r is Ok && r->Ok_0@ == c && final(reader)@.pos == q,
                Err(f) => r is Err && failed_as(r->Err_0, final(reader)@.pos, f),
            },
            r is Ok ==> old(reader)@.pos < final(reader)@.pos <= old(reader)@.bytes.len(),
        decreases rem(old(reader)@.bytes, old(reader)@.pos), 0nat, 0nat,
    {
        let ghost s = reader@.bytes;
        let ghost p = reader@.pos;
        proof {
            lemma_reader_pos(*reader);
        }
        let type_byte = io(reader.read_u8())?;
        let use_lookup_8 = (type_byte & CHECKSUM_LOOKUP_MASK_8) != 0;
        let use_lookup_16 = (type_byte & CHECKSUM_LOOKUP_MASK_16) != 0;
        proof {
            assert(((type_byte & 0x80u8) != 0) == (type_byte >= 128)) by (bit_vector);
            assert(((type_byte & 0x40u8) != 0) == (type_byte % 128 >= 64)) by (bit_vector);
            assert(type_byte & !(0x80u8 | 0x40u8) == type_byte % 64) by (bit_vector);
        }
        // Both checksum bits may not be set.
        if use_lookup_8 && use_lookup_16 {
            return Err(Error::BothChecksumBits(type_byte));
        }
        let type_byte_masked = type_byte & !(CHECKSUM_LOOKUP_MASK_8 | CHECKSUM_LOOKUP_MASK_16);
        let kind = Kind::try_from(type_byte_masked)?;
        let id = Id::read(reader, kind, use_lookup_8, use_lookup_16)?;
        let value = Value::read(reader, kind)?;
        Ok(Component { kind, id, value })
    }
}

impl Structure {
    /// Reads components up to the first of kind `Nil`, which ends the structure.
    pub fn read(reader: &mut ByteReader) -> (r: Result<Structure, Error>)
        ensures
            final(reader)@.bytes == old(reader)@.bytes,
            match parse_components(old(reader)@.bytes, old(reader)@.pos) {
                Ok((cs, q)) => r is Ok && r->Ok_0@ == cs && final(reader)@.pos == q,
                Err(f) => r is Err && failed_as(r->Err_0, final(reader)@.pos, f),
            },
            r is Ok ==> old(reader)@.pos < final(reader)@.pos <= old(reader)@.bytes.len(),
        decreases rem(old(reader)@.bytes, old(reader)@.pos), 1nat, 0nat,
    {
        let ghost s = reader@.bytes;
        let ghost p = reader@.pos;
        proof {
            lemma_reader_pos(*reader);
            lemma_components_view_prefix(Seq::<Component>::empty(), Seq::<Component>::empty(), 0);
        }
        let mut symbols: Vec<Component> = Vec::new();
        loop
            invariant
                s == old(reader)@.bytes,
                p == old(reader)@.pos,
                reader@.bytes == s,
                0 <= p,
                p <= reader@.pos,
                reader@.pos == p || reader@.pos <= s.len(),
                symbols@.len() > 0 ==> p < reader@.pos,
                match parse_components(s, reader@.pos as int) {
                    Ok((rest, r)) => parse_components(s, p) == Ok::<(Seq<ComponentV>, int), Failure>(
                        (components_view(symbols@, symbols@.len()) + rest, r),
                    ),
                    Err(e) => parse_components(s, p) == Err::<(Seq<ComponentV>, int), Failure>(e),
                },
            decreases rem(s, reader@.pos as int),
        {
            let ghost q = reader@.pos;
            let symbol = Component::read(reader)?;
            if symbol.kind == Kind::Nil {
                proof {
                    assert(components_view(symbols@, symbols@.len()) + Seq::<ComponentV>::empty()
                        =~= components_view(symbols@, symbols@.len()));
                }
                return Ok(Structure(symbols));
            }
            proof {
                lemma_components_view_push(symbols@, symbol);
                let cv = symbol@;
                match parse_components(s, reader@.pos as int) {
                    Ok((rest, r)) => {
                        assert(components_view(symbols@, symbols@.len()) + (seq![cv] + rest)
                            =~= components_view(symbols@, symbols@.len()).push(cv) + rest);
                    },
                    Err(e) => {},
                }
            }
            symbols.push(symbol);
        }
    }
}

pub proof fn lemma_values_view_index(vs: Seq<Value>, n: nat, i: int)
    requires
        n <= vs.len(),
        0 <= i < n,
    ensures
        values_view(vs, n)[i] == value_view(vs[i]),
        values_view(vs, n).len() == n,
    decreases n,
{
    lemma_values_view_prefix(vs, vs, n);
    if i < n - 1 {
        lemma_values_view_index(vs, (n - 1) as nat, i);
    }
}

pub proof fn lemma_components_view_index(cs: Seq<Component>, n: nat, i: int)
    requires
        n <= cs.len(),
        0 <= i < n,
    ensures
        components_view(cs, n)[i] == component_view(cs[i]),
        components_view(cs, n).len() == n,
    decreases n,
{
    lemma_components_view_prefix(cs, cs, n);
    if i < n - 1 {
        lemma_components_view_index(cs, (n - 1) as nat, i);
    }
}

/// The bytes of more values are at least as many.
pub proof fn lemma_values_bytes_grow(vs: Seq<ValueV>, i: nat, n: nat)
    requires
        i <= n <= vs.len(),
    ensures
        values_bytes(vs, i).len() <= values_bytes(vs, n).len(),
    decreases n - i,
{
    if i < n {
        lemma_values_bytes_grow(vs, i, (n - 1) as nat);
    }
}

/// The bytes of more components are at least as many.
pub proof fn lemma_components_bytes_grow(cs: Seq<ComponentV>, i: nat, n: nat)
    requires
        i <= n <= cs.len(),
    ensures
        components_bytes(cs, i).len() <= components_bytes(cs, n).len(),
    decreases n - i,
{
    if i < n {
        lemma_components_bytes_grow(cs, i, (n - 1) as nat);
    }
}

impl Value {
    /// Writes the value's bytes; its kind is written by its component, or, for the
    /// elements of an array, once by the array.
    pub fn write(&self, writer: &mut ByteWriter)
        requires
            old(writer)@.pos + value_bytes(self@).len() <= usize::MAX,
        ensures
            final(writer)@ == old(writer)@.emit(value_bytes(self@)),
        decreases self,
    {
        let ghost st = writer@;
        proof {
            lemma_writer_pos(*writer);
        }
        match self {
            Value::U8(val) => writer.write_u8(*val),
            Value::U16(val) => writer.write_u16(*val),
            Value::I8(val) => writer.write_i8(*val),
            Value::I16(val) => writer.write_i16(*val),
            Value::I32(val) => writer.write_i32(*val),
            Value::F32(val) => writer.write_u32(*val),
            Value::String(val) => {
                writer.write_all(val.as_slice());
                // null terminator
                writer.write_u8(0);
                proof {
                    lemma_emit_emit(st, val@, seq![0u8]);
                }
            },
            Value::Pair(a, b) => {
                writer.write_u32(*a);
                writer.write_u32(*b);
                proof {
                    lemma_emit_emit(st, u32_bytes(*a), u32_bytes(*b));
                }
            },
            Value::Vector(a, b, c) => {
                writer.write_u32(*a);
                writer.write_u32(*b);
                writer.write_u32(*c);
                proof {
                    lemma_emit_emit(st, u32_bytes(*a), u32_bytes(*b));
                    lemma_emit_emit(st, u32_bytes(*a) + u32_bytes(*b), u32_bytes(*c));
                }
            },
            Value::Structure(structure) => structure.write(writer),
            Value::Array(kind, values) => {
                let ghost head = seq![kind_byte(*kind)] + u16_bytes(values.len() as u16);
                writer.write_u8(kind.to_u8());
                writer.write_u16(values.len() as u16);
                proof {
                    lemma_emit_emit(st, seq![kind_byte(*kind)], u16_bytes(values.len() as u16));
                    lemma_values_view_prefix(values@, values@, values@.len());
                    assert(self@ == ValueV::Array(*kind, values_view(values@, values@.len())));
                    assert(value_bytes(self@) == head + values_bytes(
                        values_view(values@, values@.len()),
                        values@.len(),
                    ));
                }
                write_values(values, writer);
                proof {
                    lemma_emit_emit(st, head, values_bytes(values_view(values@, values@.len()), values@.len()));
                }
            },
            Value::Name(val) => writer.write_u32(*val),
            // no value is written for these types
            Value::Nil | Value::ZeroFloat | Value::ZeroInt => {
                proof {
                    crate::bytes::lemma_emit_empty(st);
                }
            },
        }
    }
}

/// Writes the values one after the other.
fn write_values(values: &Vec<Value>, writer: &mut ByteWriter)
    requires
        old(writer)@.pos + values_bytes(values_view(values@, values@.len()), values@.len()).len()
            <= usize::MAX,
    ensures
        final(writer)@ == old(writer)@.emit(
            values_bytes(values_view(values@, values@.len()), values@.len()),
        ),
    decreases values,
{
    let ghost st = writer@;
    let ghost vv = values_view(values@, values@.len());
    let ghost n = values@.len();
    proof {
        lemma_writer_pos(*writer);
        lemma_values_view_prefix(values@, values@, n);
        crate::bytes::lemma_emit_empty(st);
    }
    let mut i: usize = 0;
    while i < values.len()
        invariant
            0 <= i <= n,
            n == values@.len(),
            vv == values_view(values@, n),
            vv.len() == n,
            st.pos >= 0,
            st.pos + values_bytes(vv, n).len() <= usize::MAX,
            writer@ == st.emit(values_bytes(vv, i as nat)),
            writer@.pos == st.pos + values_bytes(vv, i as nat).len(),
        decreases n - i,
    {
        proof {
            lemma_values_view_index(values@, n, i as int);
            lemma_values_bytes_grow(vv, (i + 1) as nat, n);
        }
        values[i].write(writer);
        proof {
            lemma_emit_emit(st, values_bytes(vv, i as nat), value_bytes(vv[i as int]));
        }
        i = i + 1;
    }
}

impl Component {
    /// The component of kind `Nil` that ends a structure.
    pub fn none() -> (c: Component)
        ensures
            c@ == (ComponentV { kind: Kind::Nil, id: Id::Nil, value: ValueV::Nil }),
    {
        Component { kind: Kind::Nil, id: Id::Nil, value: Value::Nil }
    }

    /// A component of kind `Structure` holding `structure`.
    pub fn structure(id: Id, structure: Box<Structure>) -> (c: Component)
        ensures
            c@ == (ComponentV { kind: Kind::Structure, id, value: ValueV::Structure(structure@) }),
    {
        let c = Component { kind: Kind::Structure, id, value: Value::Structure(structure) };
        proof {
            assert(c.value@ == ValueV::Structure(structure@));
        }
        c
    }

    /// Writes the component: its type byte, which marks a compressed identifier,
    /// then its identifier, then its value.
    pub fn write(&self, writer: &mut ByteWriter)
        requires
            old(writer)@.pos + component_bytes(self@).len() <= usize::MAX,
        ensures
            final(writer)@ == old(writer)@.emit(component_bytes(self@)),
        decreases self,
    {
        let ghost st = writer@;
        proof {
            lemma_writer_pos(*writer);
        }
        let type_byte = self.kind.to_u8();
        proof {
            assert(type_byte <= 19);
            assert(type_byte <= 19 ==> (type_byte | 0x40u8) == type_byte + 64) by (bit_vector);
            assert(type_byte <= 19 ==> (type_byte | 0x80u8) == type_byte + 128) by (bit_vector);
        }
        let type_byte_with_checksum_bits = match self.id {
            Id::Compress16(_) => type_byte | CHECKSUM_LOOKUP_MASK_16,
            Id::Compress8(_) => type_byte | CHECKSUM_LOOKUP_MASK_8,
            _ => type_byte,
        };
        writer.write_u8(type_byte_with_checksum_bits);
        self.id.write(writer);
        self.value.write(writer);
        proof {
            lemma_emit_emit(st, seq![type_byte_with_checksum_bits], id_bytes(self.id));
            lemma_emit_emit(
                st,
                seq![type_byte_with_checksum_bits] + id_bytes(self.id),
                value_bytes(self.value@),
            );
        }
    }
}

impl Structure {
    pub fn new(symbols: Vec<Component>) -> (s: Structure)
        ensures
            s@ == components_view(symbols@, symbols@.len()),
    {
        Structure(symbols)
    }

    /// Writes the components, then the component of kind `Nil` that ends them.
    pub fn write(&self, writer: &mut ByteWriter)
        requires
            old(writer)@.pos + structure_bytes(self@).len() <= usize::MAX,
        ensures
            final(writer)@ == old(writer)@.emit(structure_bytes(self@)),
        decreases self,
    {
        let ghost st = writer@;
        let ghost cv = self@;
        let ghost n = self.0@.len();
        proof {
            lemma_writer_pos(*writer);
            lemma_components_view_prefix(self.0@, self.0@, n);
            crate::bytes::lemma_emit_empty(st);
        }
        let mut i: usize = 0;
        while i < self.0.len()
            invariant
                0 <= i <= n,
                n == self.0@.len(),
                cv == components_view(self.0@, n),
                cv.len() == n,
                st.pos >= 0,
                st.pos + components_bytes(cv, n).len() + 1 <= usize::MAX,
                writer@ == st.emit(components_bytes(cv, i as nat)),
                writer@.pos == st.pos + components_bytes(cv, i as nat).len(),
            decreases n - i,
        {
            proof {
                lemma_components_view_index(self.0@, n, i as int);
                lemma_components_bytes_grow(cv, (i + 1) as nat, n);
            }
            self.0[i].write(writer);
            proof {
                lemma_emit_emit(st, components_bytes(cv, i as nat), component_bytes(cv[i as int]));
            }
            i = i + 1;
        }
        // Each structure is terminated with a none symbol: the single type byte of
        // kind `Nil`, with no identifier and no value.
        writer.write_u8(0);
        proof {
            lemma_emit_emit(st, components_bytes(cv, n), seq![0u8]);
        }
    }

    /// The bytes of the structure.
    pub fn raw_bytes(&self) -> (r: Result<Vec<u8>, Error>)
        requires
            structure_bytes(self@).len() <= usize::MAX,
        ensures
            r is Ok && r->Ok_0@ == structure_bytes(self@),
    {
        let mut writer = ByteWriter::new();
        self.write(&mut writer);
        proof {
            assert(writer@.bytes =~= structure_bytes(self@));
        }
        Ok(writer.into_bytes())
    }
}

// ---------------------------------------------------------------------------
// Copies, and finding, replacing and removing components by identifier.

/// The index of the first component from `i` on with identifier `id`.
pub open spec fn find_id(cs: Seq<ComponentV>, id: Id, i: int) -> Option<int>
    decreases cs.len() - i,
{
    if i < 0 || i >= cs.len() {
        None
    } else if cs[i].id == id {
        Some(i)
    } else {
        find_id(cs, id, i + 1)
    }
}

/// The components without those whose identifier is `id`, in order.
pub open spec fn without_id(cs: Seq<ComponentV>, id: Id) -> Seq<ComponentV>
    decreases cs.len(),
{
    if cs.len() == 0 {
        cs
    } else if cs.last().id == id {
        without_id(cs.drop_last(), id)
    } else {
        without_id(cs.drop_last(), id).push(cs.last())
    }
}

/// The views of components, one by one.
pub proof fn lemma_components_v(cs: Seq<Component>)
    ensures
        components_view(cs, cs.len()) == Seq::new(cs.len(), |k: int| component_view(cs[k])),
{
    let n = cs.len();
    assert forall|k: int| 0 <= k < n implies #[trigger] components_view(cs, n)[k]
        == component_view(cs[k]) by {
        lemma_components_view_index(cs, n, k);
    }
    if n > 0 {
        lemma_components_view_index(cs, n, 0);
    } else {
        assert(components_view(cs, 0) =~= Seq::<ComponentV>::empty());
    }
    assert(components_view(cs, n) =~= Seq::new(n, |k: int| component_view(cs[k])));
}

/// The views of components with one of them replaced.
proof fn lemma_components_view_update(cs: Seq<Component>, i: int)
    requires
        0 <= i < cs.len(),
    ensures
        forall|c: Component|
            #[trigger] components_view(cs.update(i, c), cs.len()) == components_view(
                cs,
                cs.len(),
            ).update(i, component_view(c)),
{
    assert forall|c: Component|
        #[trigger] components_view(cs.update(i, c), cs.len()) == components_view(
            cs,
            cs.len(),
        ).update(i, component_view(c)) by {
        lemma_components_v(cs);
        lemma_components_v(cs.update(i, c));
        assert(components_view(cs.update(i, c), cs.len()) =~= components_view(cs, cs.len()).update(
            i,
            component_view(c),
        ));
    }
}

/// Skipping the components before the first one with identifier `id` finds it.
proof fn lemma_find_id_from(cs: Seq<ComponentV>, id: Id, i: int)
    requires
        0 <= i <= cs.len(),
        forall|k: int| 0 <= k < i ==> (#[trigger] cs[k]).id != id,
    ensures
        find_id(cs, id, 0) == find_id(cs, id, i),
    decreases i,
{
    if i > 0 {
        lemma_find_id_from(cs, id, i - 1);
    }
}

/// `find_id` finds a component with the identifier, and none before it.
proof fn lemma_find_id(cs: Seq<ComponentV>, id: Id, i: int)
    requires
        0 <= i,
    ensures
        find_id(cs, id, i) matches Some(k) ==> i <= k < cs.len() && cs[k].id == id && forall|
            m: int,
        | i <= m < k ==> (#[trigger] cs[m]).id != id,
        find_id(cs, id, i) is None ==> forall|m: int| i <= m < cs.len() ==> (#[trigger] cs[m]).id
            != id,
    decreases cs.len() - i,
{
    if i < cs.len() && cs[i].id != id {
        lemma_find_id(cs, id, i + 1);
    }
}

/// The components after `c` is inserted: it replaces the first component with
/// its identifier, or else comes last.
pub open spec fn inserted(cs: Seq<ComponentV>, c: ComponentV) -> Seq<ComponentV> {
    match find_id(cs, c.id, 0) {
        Some(i) => cs.update(i, c),
        None => cs.push(c),
    }
}

/// Looking up the identifier of a component just inserted finds that component,
/// where it replaced the first one with its identifier, or at the end.
pub proof fn law_structure_insert_get(cs: Seq<ComponentV>, c: ComponentV)
    ensures
        find_id(inserted(cs, c), c.id, 0) == Some(
            match find_id(cs, c.id, 0) {
                Some(i) => i,
                None => cs.len() as int,
            },
        ),
        inserted(cs, c)[find_id(inserted(cs, c), c.id, 0)->Some_0] == c,
{
    lemma_find_id(cs, c.id, 0);
    let t = inserted(cs, c);
    match find_id(cs, c.id, 0) {
        Some(i) => {
            assert forall|k: int| 0 <= k < i implies (#[trigger] t[k]).id != c.id by {
                assert(t[k] == cs[k]);
            }
            lemma_find_id_from(t, c.id, i);
        },
        None => {
            assert forall|k: int| 0 <= k < cs.len() implies (#[trigger] t[k]).id != c.id by {
                assert(t[k] == cs[k]);
            }
            lemma_find_id_from(t, c.id, cs.len() as int);
        },
    }
}

impl Value {
    /// A copy of the value.
    pub fn copy(&self) -> (r: Value)
        ensures
            r@ == self@,
        decreases self, 0nat,
    {
        match self {
            Value::Nil => Value::Nil,
            Value::U8(x) => Value::U8(*x),
            Value::U16(x) => Value::U16(*x),
            Value::I8(x) => Value::I8(*x),
            Value::I16(x) => Value::I16(*x),
            Value::I32(x) => Value::I32(*x),
            Value::F32(x) => Value::F32(*x),
            Value::ZeroInt => Value::ZeroInt,
            Value::ZeroFloat => Value::ZeroFloat,
            Value::String(b) => Value::String(slice_to_vec(b.as_slice())),
            Value::Pair(a, b) => Value::Pair(*a, *b),
            Value::Vector(a, b, c) => Value::Vector(*a, *b, *c),
            Value::Structure(st) => {
                let c = Structure(Value::copy_components(&st.0));
                Value::Structure(Box::new(c))
            },
            Value::Array(k, vs) => Value::Array(*k, Value::copy_values(vs)),
            Value::Name(x) => Value::Name(*x),
        }
    }

    fn copy_values(vs: &Vec<Value>) -> (r: Vec<Value>)
        ensures
            values_view(r@, r@.len()) == values_view(vs@, vs@.len()),
        decreases vs, 1nat,
    {
        let mut out: Vec<Value> = Vec::new();
        let mut i: usize = 0;
        while i < vs.len()
            invariant
                0 <= i <= vs@.len(),
                values_view(out@, out@.len()) == values_view(vs@, i as nat),
                out@.len() == i,
            decreases vs@.len() - i,
        {
            proof {
                assert(decreases_to!(vs => vs@[i as int]));
            }
            let v = vs[i].copy();
            proof {
                lemma_values_view_push(out@, v);
                lemma_values_view_index(vs@, (i + 1) as nat, i as int);
                lemma_values_view_prefix(vs@, vs@, (i + 1) as nat);
                assert(values_view(vs@, (i + 1) as nat) == values_view(vs@, i as nat).push(
                    value_view(vs@[i as int]),
                ));
            }
            out.push(v);
            i = i + 1;
        }
        out
    }

    fn copy_components(cs: &Vec<Component>) -> (r: Vec<Component>)
        ensures
            components_view(r@, r@.len()) == components_view(cs@, cs@.len()),
        decreases cs, 1nat,
    {
        let mut out: Vec<Component> = Vec::new();
        let mut i: usize = 0;
        while i < cs.len()
            invariant
                0 <= i <= cs@.len(),
                components_view(out@, out@.len()) == components_view(cs@, i as nat),
                out@.len() == i,
            decreases cs@.len() - i,
        {
            proof {
                assert(decreases_to!(cs => cs@[i as int]));
                assert(decreases_to!(cs@[i as int] => cs@[i as int].value));
            }
            let c = Component { kind: cs[i].kind, id: cs[i].id, value: cs[i].value.copy() };
            proof {
                lemma_components_view_push(out@, c);
                assert(components_view(cs@, (i + 1) as nat) == components_view(cs@, i as nat).push(
                    component_view(cs@[i as int]),
                ));
            }
            out.push(c);
            i = i + 1;
        }
        out
    }

    /// The structure that the value holds.
    pub fn try_as_structure(&self) -> (r: Result<&Structure, Error>)
        ensures
            match self@ {
                ValueV::Structure(cs) => r is Ok && r->Ok_0@ == cs,
                _ => r matches Err(Error::ExpectedValueType(s, v)) && s@ == "Structure"@ && v@
                    == self@,
            },
    {
        match self {
            Value::Structure(value) => Ok(value),
            value => Err(Error::ExpectedValueType("Structure".to_owned(), value.copy())),
        }
    }
}

impl Value {
    /// The structure that the value holds, to be changed in place.
    pub fn try_as_structure_mut(&mut self) -> (r: Result<&mut Structure, Error>)
        ensures
            match old(self)@ {
                ValueV::Structure(cs) => r is Ok && (*r->Ok_0)@ == cs && final(self)@
                    == ValueV::Structure((*final(r->Ok_0))@),
                _ => r matches Err(Error::ExpectedValueType(s, v)) && s@ == "Structure"@ && v@
                    == old(self)@ && final(self)@ == old(self)@,
            },
    {
        match self {
            Value::Structure(value) => Ok(&mut **value),
            value => Err(Error::ExpectedValueType("Structure".to_owned(), value.copy())),
        }
    }
}

impl Component {
    /// A copy of the component.
    pub fn copy(&self) -> (r: Component)
        ensures
            r@ == self@,
    {
        Component { kind: self.kind, id: self.id, value: self.value.copy() }
    }
}

impl Structure {
    /// The first component with identifier `id`.
    pub fn get(&self, id: Id) -> (r: Option<&Component>)
        ensures
            match find_id(self@, id, 0) {
                Some(i) => r is Some && r->Some_0@ == self@[i],
                None => r is None,
            },
    {
        let ghost cv = self@;
        proof {
            lemma_components_v(self.0@);
        }
        let mut i: usize = 0;
        while i < self.0.len()
            invariant
                0 <= i <= self.0@.len(),
                cv == self@,
                cv == Seq::new(self.0@.len(), |k: int| component_view(self.0@[k])),
                forall|k: int| 0 <= k < i ==> (#[trigger] cv[k]).id != id,
            decreases self.0@.len() - i,
        {
            if self.0[i].id == id {
                proof {
                    lemma_find_id_from(cv, id, i as int);
                }
                return Some(&self.0[i]);
            }
            i = i + 1;
        }
        proof {
            lemma_find_id_from(cv, id, i as int);
        }
        None
    }

    /// The first component with identifier `id`, to be changed in place.
    pub fn get_mut(&mut self, id: Id) -> (r: Option<&mut Component>)
        ensures
            match find_id(old(self)@, id, 0) {
                Some(i) => r is Some && (*r->Some_0)@ == old(self)@[i] && final(self)@ == old(
                    self,
                )@.update(i, (*final(r->Some_0))@),
                None => r is None && final(self)@ == old(self)@,
            },
    {
        let ghost cv = self@;
        proof {
            lemma_components_v(self.0@);
        }
        let mut i: usize = 0;
        while i < self.0.len()
            invariant
                0 <= i <= self.0@.len(),
                cv == old(self)@,
                self.0@ == old(self).0@,
                cv == Seq::new(self.0@.len(), |k: int| component_view(self.0@[k])),
                forall|k: int| 0 <= k < i ==> (#[trigger] cv[k]).id != id,
            decreases self.0@.len() - i,
        {
            if self.0[i].id == id {
                proof {
                    lemma_find_id_from(cv, id, i as int);
                    lemma_components_view_update(self.0@, i as int);
                    assert(forall|t: Structure| #[trigger] structure_view(t) == components_view(
                        t.0@,
                        t.0@.len(),
                    ));
                }
                let c = &mut self.0[i];
                return Some(c);
            }
            i = i + 1;
        }
        proof {
            lemma_find_id_from(cv, id, i as int);
        }
        None
    }

    /// The components in order.
    pub fn iter(&self) -> (r: std::slice::Iter<'_, Component>)
        ensures
            r.remaining().len() == self@.len(),
            forall|i: int| 0 <= i < self@.len() ==> (#[trigger] r.remaining()[i])@ == self@[i],
    {
        proof {
            lemma_components_v(self.0@);
        }
        self.0.as_slice().iter()
    }

    /// The number of components.
    pub fn len(&self) -> (n: usize)
        ensures
            n == self@.len(),
    {
        proof {
            lemma_components_v(self.0@);
        }
        self.0.len()
    }

    /// Whether there are no components.
    pub fn is_empty(&self) -> (b: bool)
        ensures
            b == (self@.len() == 0),
    {
        proof {
            lemma_components_v(self.0@);
        }
        self.0.len() == 0
    }

    /// Puts `symbol` in place of the first component with its identifier and
    /// gives back the component it replaced; where there is none, appends it.
    pub fn insert(&mut self, symbol: Component) -> (r: Option<Component>)
        ensures
            final(self)@ == inserted(old(self)@, symbol@),
            match find_id(old(self)@, symbol.id, 0) {
                Some(i) => r is Some && r->Some_0@ == old(self)@[i] && final(self)@ == old(
                    self,
                )@.update(i, symbol@),
                None => r is None && final(self)@ == old(self)@.push(symbol@),
            },
    {
        let ghost cv = self@;
        proof {
            lemma_components_v(self.0@);
        }
        let mut i: usize = 0;
        while i < self.0.len()
            invariant
                0 <= i <= self.0@.len(),
                cv == old(self)@,
                self.0@ == old(self).0@,
                cv == Seq::new(self.0@.len(), |k: int| component_view(self.0@[k])),
                forall|k: int| 0 <= k < i ==> (#[trigger] cv[k]).id != symbol.id,
            decreases self.0@.len() - i,
        {
            if self.0[i].id == symbol.id {
                proof {
                    lemma_find_id_from(cv, symbol.id, i as int);
                }
                let ghost sv = symbol@;
                let mut s = symbol;
                self.0.set_and_swap(i, &mut s);
                proof {
                    lemma_components_v(self.0@);
                    assert(self@ =~= cv.update(i as int, sv));
                }
                return Some(s);
            }
            i = i + 1;
        }
        proof {
            lemma_find_id_from(cv, symbol.id, i as int);
        }
        self.0.push(symbol);
        proof {
            lemma_components_v(self.0@);
            assert(self@ =~= cv.push(symbol@));
        }
        None
    }

    /// Removes every component with identifier `id`.
    pub fn remove(&mut self, id: Id)
        ensures
            final(self)@ == without_id(old(self)@, id),
    {
        let ghost cv = self@;
        let ghost orig = self.0@;
        proof {
            lemma_components_v(self.0@);
        }
        let mut i: usize = 0;
        let ghost mut j: int = 0;
        proof {
            assert(orig.subrange(0, 0) =~= Seq::<Component>::empty());
            assert(without_id(cv.subrange(0, 0), id) =~= Seq::<ComponentV>::empty());
            assert(self.0@.subrange(0, 0) =~= Seq::<Component>::empty());
            assert(self.0@.subrange(0, self.0@.len() as int) =~= orig.subrange(0, orig.len() as int));
        }
        while i < self.0.len()
            invariant
                cv == old(self)@,
                orig == old(self).0@,
                cv == Seq::new(orig.len(), |k: int| component_view(orig[k])),
                0 <= i <= j <= orig.len(),
                i <= self.0@.len(),
                self.0@.len() - i == orig.len() - j,
                Seq::new(i as nat, |k: int| component_view(self.0@[k])) == without_id(
                    cv.subrange(0, j),
                    id,
                ),
                self.0@.subrange(i as int, self.0@.len() as int) == orig.subrange(j, orig.len() as int),
            decreases self.0@.len() - i,
        {
            let ghost before = self.0@;
            proof {
                assert(before.subrange(i as int, before.len() as int)[0] == before[i as int]);
                assert(orig.subrange(j, orig.len() as int)[0] == orig[j]);
                assert(before[i as int] == orig[j]);
                assert(cv.subrange(0, j + 1).drop_last() =~= cv.subrange(0, j));
                assert(cv.subrange(0, j + 1).last() == component_view(orig[j]));
            }
            if self.0[i].id == id {
                self.0.remove(i);
                proof {
                    assert forall|k: int| 0 <= k < self.0@.len() - i implies self.0@.subrange(
                        i as int,
                        self.0@.len() as int,
                    )[k] == orig.subrange(j + 1, orig.len() as int)[k] by {
                        assert(self.0@[i + k] == before[i + k + 1]);
                        assert(before.subrange(i as int, before.len() as int)[k + 1] == orig.subrange(
                            j,
                            orig.len() as int,
                        )[k + 1]);
                    }
                    assert(Seq::new(i as nat, |k: int| component_view(self.0@[k])) =~= Seq::new(
                        i as nat,
                        |k: int| component_view(before[k]),
                    ));
                    assert(self.0@.subrange(i as int, self.0@.len() as int) =~= orig.subrange(
                        j + 1,
                        orig.len() as int,
                    ));
                    j = j + 1;
                }
            } else {
                i = i + 1;
                proof {
                    assert forall|k: int| 0 <= k < self.0@.len() - i implies self.0@.subrange(
                        i as int,
                        self.0@.len() as int,
                    )[k] == orig.subrange(j + 1, orig.len() as int)[k] by {
                        assert(before.subrange(i - 1, before.len() as int)[k + 1] == orig.subrange(
                            j,
                            orig.len() as int,
                        )[k + 1]);
                    }
                    assert(Seq::new(i as nat, |k: int| component_view(self.0@[k])) =~= Seq::new(
                        (i - 1) as nat,
                        |k: int| component_view(before[k]),
                    ).push(component_view(orig[j])));
                    assert(self.0@.subrange(i as int, self.0@.len() as int) =~= orig.subrange(
                        j + 1,
                        orig.len() as int,
                    ));
                    j = j + 1;
                }
            }
        }
        proof {
            assert(cv.subrange(0, orig.len() as int) =~= cv);
            lemma_components_v(self.0@);
            assert(self@ =~= Seq::new(i as nat, |k: int| component_view(self.0@[k])));
        }
    }
}

} // verus!
