//! What holds of QB structures across writing and reading.
use crate::bytes::{
    bits_of_i8, i16_bytes, i32_bytes, i8_of_bits, lemma_bits_i16, lemma_i16_bits, lemma_i32_bits,
    lemma_u16_round_trip, lemma_u32_round_trip, u16_bytes, u32_bytes,
};
use crate::qb::component::{
    component_bytes, components_bytes, id_bytes, kind_byte, kind_of_byte, parse_component,
    parse_components, parse_id, parse_value, parse_values, structure_bytes, type_byte,
    value_bytes, values_bytes, ComponentV, Id, Kind, ValueV,
};
use crate::qb::token::{cstr_len, lemma_cstr_len_of};
use vstd::prelude::*;

verus! {

/// A value that reads back as itself as a value of kind `k`: it is of that
/// kind, its strings hold no zero byte, its structures are well formed, and its
/// arrays hold fewer than 65536 values of their kind. Values of the kinds that
/// are not read are not well formed.
pub open spec fn value_wf(v: ValueV, k: Kind) -> bool
    decreases v, 1nat,
{
    match k {
        Kind::Nil => v is Nil,
        Kind::Integer => v is I32,
        Kind::Float => v is F32,
        Kind::String | Kind::LocalString => match v {
            ValueV::String(b) => forall|i: int| 0 <= i < b.len() ==> b[i] != 0,
            _ => false,
        },
        Kind::Pair => v is Pair,
        Kind::Vector => v is Vector,
        Kind::Structure => match v {
            ValueV::Structure(cs) => components_wf(cs, cs.len()),
            _ => false,
        },
        Kind::Array => match v {
            ValueV::Array(ek, vs) => vs.len() < 0x10000 && values_wf(vs, ek, vs.len()),
            _ => false,
        },
        Kind::Name => v is Name,
        Kind::I8 => v is I8,
        Kind::I16 => v is I16,
        Kind::U8 => v is U8,
        Kind::U16 => v is U16,
        Kind::ZeroInt => v is ZeroInt,
        Kind::ZeroFloat => v is ZeroFloat,
        _ => false,
    }
}

/// Whether the first `n` values are well formed as values of kind `k`.
pub open spec fn values_wf(vs: Seq<ValueV>, k: Kind, n: nat) -> bool
    decreases vs, n,
{
    if n == 0 || n > vs.len() {
        true
    } else {
        values_wf(vs, k, (n - 1) as nat) && value_wf(vs[n - 1], k)
    }
}

/// A component that reads back as itself: not of kind `Nil` (which ends a
/// structure), with an identifier, and a well-formed value of its kind.
pub open spec fn component_wf(c: ComponentV) -> bool
    decreases c, 1nat,
{
    c.kind != Kind::Nil && c.id != Id::Nil && value_wf(c.value, c.kind)
}

/// Whether the first `n` components are well formed.
pub open spec fn components_wf(cs: Seq<ComponentV>, n: nat) -> bool
    decreases cs, n,
{
    if n == 0 || n > cs.len() {
        true
    } else {
        components_wf(cs, (n - 1) as nat) && component_wf(cs[n - 1])
    }
}

proof fn lemma_values_wf(vs: Seq<ValueV>, k: Kind, n: nat, i: int)
    requires
        values_wf(vs, k, n),
        n <= vs.len(),
        0 <= i < n,
    ensures
        value_wf(vs[i], k),
    decreases n,
{
    if i < n - 1 {
        lemma_values_wf(vs, k, (n - 1) as nat, i);
    }
}

proof fn lemma_components_wf(cs: Seq<ComponentV>, n: nat, i: int)
    requires
        components_wf(cs, n),
        n <= cs.len(),
        0 <= i < n,
    ensures
        component_wf(cs[i]),
    decreases n,
{
    if i < n - 1 {
        lemma_components_wf(cs, (n - 1) as nat, i);
    }
}

/// The bytes of the first `n` values begin the bytes of the first `m`.
proof fn lemma_values_bytes_prefix(vs: Seq<ValueV>, n: nat, m: nat)
    requires
        n <= m <= vs.len(),
    ensures
        values_bytes(vs, n).len() <= values_bytes(vs, m).len(),
        values_bytes(vs, m) == values_bytes(vs, n) + values_bytes(vs, m).subrange(
            values_bytes(vs, n).len() as int,
            values_bytes(vs, m).len() as int,
        ),
    decreases m,
{
    if n < m {
        lemma_values_bytes_prefix(vs, n, (m - 1) as nat);
    }
    assert(values_bytes(vs, m) =~= values_bytes(vs, n) + values_bytes(vs, m).subrange(
        values_bytes(vs, n).len() as int,
        values_bytes(vs, m).len() as int,
    ));
}

proof fn lemma_components_bytes_prefix(cs: Seq<ComponentV>, n: nat, m: nat)
    requires
        n <= m <= cs.len(),
    ensures
        components_bytes(cs, n).len() <= components_bytes(cs, m).len(),
        components_bytes(cs, m) == components_bytes(cs, n) + components_bytes(cs, m).subrange(
            components_bytes(cs, n).len() as int,
            components_bytes(cs, m).len() as int,
        ),
    decreases m,
{
    if n < m {
        lemma_components_bytes_prefix(cs, n, (m - 1) as nat);
    }
    assert(components_bytes(cs, m) =~= components_bytes(cs, n) + components_bytes(cs, m).subrange(
        components_bytes(cs, n).len() as int,
        components_bytes(cs, m).len() as int,
    ));
}

proof fn lemma_kind_byte(k: Kind)
    ensures
        kind_byte(k) < 64,
        kind_of_byte(kind_byte(k)) == Some(k),
{
}

/// Reading back the bytes of a well-formed value that holds no other values
/// gives the value.
proof fn lemma_plain_value_round_trip(v: ValueV, k: Kind, front: Seq<u8>, rest: Seq<u8>)
    requires
        value_wf(v, k),
        !(v is Structure || v is Array || v is String),
    ensures
        parse_value(front + value_bytes(v) + rest, front.len() as int, k) == Ok::<
            (ValueV, int),
            crate::qb::error::Failure,
        >((v, (front.len() + value_bytes(v).len()) as int)),
{
    let s = front + value_bytes(v) + rest;
    let f = front.len() as int;
    match v {
        ValueV::U8(x) => {
            assert(k == Kind::U8);
            assert(s[f] == x);
        },
        ValueV::I8(x) => {
            assert(k == Kind::I8);
            assert(s[f] == bits_of_i8(x));
        },
        ValueV::U16(x) => {
            assert(k == Kind::U16);
            lemma_u16_round_trip(x, rest, front);
        },
        ValueV::I16(x) => {
            assert(k == Kind::I16);
            lemma_u16_round_trip(crate::bytes::bits_of_i16(x), rest, front);
            lemma_i16_bits(x);
        },
        ValueV::I32(x) => {
            assert(k == Kind::Integer);
            lemma_u32_round_trip(crate::bytes::bits_of_i32(x), rest, front);
            lemma_i32_bits(x);
        },
        ValueV::F32(x) => {
            assert(k == Kind::Float);
            lemma_u32_round_trip(x, rest, front);
        },
        ValueV::Name(x) => {
            assert(k == Kind::Name);
            lemma_u32_round_trip(x, rest, front);
        },
        ValueV::Pair(a, b) => {
            assert(k == Kind::Pair);
            lemma_words_round_trip(a, b, front, rest);
        },
        ValueV::Vector(a, b, c) => {
            assert(k == Kind::Vector);
            lemma_words_round_trip(a, b, front, u32_bytes(c) + rest);
            assert(s =~= (front + u32_bytes(a) + u32_bytes(b)) + u32_bytes(c) + rest);
            lemma_u32_round_trip(c, rest, front + u32_bytes(a) + u32_bytes(b));
        },
        _ => {},
    }
}

proof fn lemma_words_round_trip(a: u32, b: u32, front: Seq<u8>, rest: Seq<u8>)
    ensures
        ({
            let s = front + (u32_bytes(a) + u32_bytes(b)) + rest;
            crate::bytes::u32_le(s, front.len() as int) == a && crate::bytes::u32_le(
                s,
                front.len() + 4int,
            ) == b
        }),
{
    let s = front + (u32_bytes(a) + u32_bytes(b)) + rest;
    assert(s =~= front + u32_bytes(a) + (u32_bytes(b) + rest));
    lemma_u32_round_trip(a, u32_bytes(b) + rest, front);
    assert(s =~= (front + u32_bytes(a)) + u32_bytes(b) + rest);
    lemma_u32_round_trip(b, rest, front + u32_bytes(a));
}

proof fn lemma_string_round_trip(b: Seq<u8>, k: Kind, front: Seq<u8>, rest: Seq<u8>)
    requires
        value_wf(ValueV::String(b), k),
    ensures
        parse_value(front + value_bytes(ValueV::String(b)) + rest, front.len() as int, k) == Ok::<
            (ValueV, int),
            crate::qb::error::Failure,
        >((ValueV::String(b), (front.len() + b.len() + 1) as int)),
{
    let s = front + (b + seq![0u8]) + rest;
    let f = front.len() as int;
    assert forall|j: int| 0 <= j < b.len() implies #[trigger] s[f + j] != 0 by {
        assert(s[f + j] == b[j]);
    }
    assert(s[f + b.len()] == 0);
    lemma_cstr_len_of(s, f, b.len(), 0);
    assert(s.subrange(f, f + b.len()) =~= b);
}

/// Reading back the bytes of a well-formed value gives the value.
pub proof fn lemma_value_round_trip(v: ValueV, k: Kind, front: Seq<u8>, rest: Seq<u8>)
    requires
        value_wf(v, k),
    ensures
        parse_value(front + value_bytes(v) + rest, front.len() as int, k) == Ok::<
            (ValueV, int),
            crate::qb::error::Failure,
        >((v, (front.len() + value_bytes(v).len()) as int)),
    decreases v, 1nat,
{
    match v {
        ValueV::String(b) => {
            lemma_string_round_trip(b, k, front, rest);
        },
        ValueV::Structure(cs) => {
            lemma_components_round_trip(cs, front, rest, 0);
            assert(cs.subrange(0, cs.len() as int) =~= cs);
        },
        ValueV::Array(ek, vs) => {
            lemma_array_round_trip(ek, vs, k, front, rest);
        },
        _ => {
            lemma_plain_value_round_trip(v, k, front, rest);
        },
    }
}

proof fn lemma_array_round_trip(ek: Kind, vs: Seq<ValueV>, k: Kind, front: Seq<u8>, rest: Seq<u8>)
    requires
        value_wf(ValueV::Array(ek, vs), k),
    ensures
        parse_value(front + value_bytes(ValueV::Array(ek, vs)) + rest, front.len() as int, k)
            == Ok::<(ValueV, int), crate::qb::error::Failure>(
            (
                ValueV::Array(ek, vs),
                (front.len() + value_bytes(ValueV::Array(ek, vs)).len()) as int,
            ),
        ),
    decreases vs, vs.len() + 1,
{
    let n = vs.len();
    let vb = values_bytes(vs, n);
    let head = seq![kind_byte(ek)] + u16_bytes(n as u16);
    let s = front + (head + vb) + rest;
    let f = front.len() as int;
    assert(value_bytes(ValueV::Array(ek, vs)) == head + vb);
    assert(s[f] == kind_byte(ek));
    lemma_kind_byte(ek);
    assert(s =~= (front + seq![kind_byte(ek)]) + u16_bytes(n as u16) + (vb + rest));
    lemma_u16_round_trip(n as u16, vb + rest, front + seq![kind_byte(ek)]);
    assert(s =~= (front + head) + vb + rest);
    lemma_values_round_trip(vs, ek, front + head, rest, 0);
    assert(vs.subrange(0, n as int) =~= vs);
}

/// Reading back, from the `i`-th on, the bytes of well-formed values gives the
/// values from the `i`-th on.
proof fn lemma_values_round_trip(vs: Seq<ValueV>, k: Kind, front: Seq<u8>, rest: Seq<u8>, i: nat)
    requires
        values_wf(vs, k, vs.len()),
        i <= vs.len(),
    ensures
        parse_values(
            front + values_bytes(vs, vs.len()) + rest,
            (front.len() + values_bytes(vs, i).len()) as int,
            k,
            (vs.len() - i) as nat,
        ) == Ok::<(Seq<ValueV>, int), crate::qb::error::Failure>(
            (vs.subrange(i as int, vs.len() as int), (front.len() + values_bytes(vs, vs.len()).len()) as int),
        ),
    decreases vs, vs.len() - i,
{
    let n = vs.len();
    let all = values_bytes(vs, n);
    let s = front + all + rest;
    if i < n {
        let pre = values_bytes(vs, i);
        let vb = value_bytes(vs[i as int]);
        let p = front.len() + pre.len();
        lemma_values_bytes_prefix(vs, (i + 1) as nat, n);
        assert(values_bytes(vs, (i + 1) as nat) == pre + vb);
        let x = all.subrange((pre + vb).len() as int, all.len() as int);
        let tail = x + rest;
        assert(s =~= (front + pre) + vb + tail);
        lemma_values_wf(vs, k, n, i as int);
        lemma_value_round_trip(vs[i as int], k, front + pre, tail);
        lemma_values_round_trip(vs, k, front, rest, (i + 1) as nat);
        assert(seq![vs[i as int]] + vs.subrange((i + 1) as int, n as int) =~= vs.subrange(i as int, n as int));
    } else {
        assert(vs.subrange(i as int, n as int) =~= Seq::<ValueV>::empty());
    }
}

proof fn lemma_type_byte(k: Kind, id: Id)
    ensures
        (type_byte(k, id) >= 128) == (id is Compress8),
        (type_byte(k, id) % 128 >= 64) == (id is Compress16),
        kind_of_byte((type_byte(k, id) % 64) as u8) == Some(k),
{
    lemma_kind_byte(k);
}

/// Reading back the bytes of a well-formed component gives the component.
pub proof fn lemma_component_round_trip(c: ComponentV, front: Seq<u8>, rest: Seq<u8>)
    requires
        component_wf(c),
    ensures
        parse_component(front + component_bytes(c) + rest, front.len() as int) == Ok::<
            (ComponentV, int),
            crate::qb::error::Failure,
        >((c, (front.len() + component_bytes(c).len()) as int)),
    decreases c, 1nat,
{
    let s = front + component_bytes(c) + rest;
    let f = front.len() as int;
    let t = type_byte(c.kind, c.id);
    let ib = id_bytes(c.id);
    let vb = value_bytes(c.value);
    lemma_type_byte(c.kind, c.id);
    assert(s[f] == t);
    assert(s =~= (front + seq![t]) + ib + (vb + rest));
    match c.id {
        Id::Checksum(x) => {
            lemma_u32_round_trip(x, vb + rest, front + seq![t]);
        },
        Id::Compress16(x) => {
            lemma_u16_round_trip(x, vb + rest, front + seq![t]);
        },
        Id::Compress8(x) => {
            assert(s[f + 1] == x);
        },
        Id::Nil => {},
    }
    assert(s =~= (front + seq![t] + ib) + vb + rest);
    lemma_value_round_trip(c.value, c.kind, front + seq![t] + ib, rest);
}

/// In the bytes of a structure, the `i`-th component reads back as itself.
proof fn lemma_component_at(cs: Seq<ComponentV>, front: Seq<u8>, rest: Seq<u8>, i: nat)
    requires
        components_wf(cs, cs.len()),
        i < cs.len(),
    ensures
        parse_component(
            front + structure_bytes(cs) + rest,
            (front.len() + components_bytes(cs, i).len()) as int,
        ) == Ok::<(ComponentV, int), crate::qb::error::Failure>(
            (cs[i as int], (front.len() + components_bytes(cs, (i + 1) as nat).len()) as int),
        ),
    decreases cs, cs.len() - i, 0nat,
{
    let n = cs.len();
    let all = components_bytes(cs, n);
    let s = front + structure_bytes(cs) + rest;
    let pre = components_bytes(cs, i);
    let cb = component_bytes(cs[i as int]);
    lemma_components_bytes_prefix(cs, (i + 1) as nat, n);
    assert(components_bytes(cs, (i + 1) as nat) == pre + cb);
    let x = all.subrange((pre + cb).len() as int, all.len() as int);
    let tail = x + seq![0u8] + rest;
    assert(s =~= (front + pre) + cb + tail);
    lemma_components_wf(cs, n, i as int);
    lemma_component_round_trip(cs[i as int], front + pre, tail);
}

/// The byte that ends a structure reads as a component of kind `Nil`.
proof fn lemma_structure_end(cs: Seq<ComponentV>, front: Seq<u8>, rest: Seq<u8>)
    ensures
        parse_component(
            front + structure_bytes(cs) + rest,
            (front.len() + components_bytes(cs, cs.len()).len()) as int,
        ) == Ok::<(ComponentV, int), crate::qb::error::Failure>(
            (
                ComponentV { kind: Kind::Nil, id: Id::Nil, value: ValueV::Nil },
                (front.len() + structure_bytes(cs).len()) as int,
            ),
        ),
{
    let all = components_bytes(cs, cs.len());
    let s = front + structure_bytes(cs) + rest;
    let p = (front.len() + all.len()) as int;
    assert(s =~= front + all + (seq![0u8] + rest));
    assert(s[p] == 0);
    assert(parse_id(s, p + 1, Kind::Nil, false, false) == Ok::<(Id, int), crate::qb::error::Failure>(
        (Id::Nil, p + 1),
    ));
}

/// Reading back, from the `i`-th on, the bytes of a structure of well-formed
/// components gives the components from the `i`-th on, and stops after the
/// byte that ends the structure.
proof fn lemma_components_round_trip(cs: Seq<ComponentV>, front: Seq<u8>, rest: Seq<u8>, i: nat)
    requires
        components_wf(cs, cs.len()),
        i <= cs.len(),
    ensures
        parse_components(
            front + structure_bytes(cs) + rest,
            (front.len() + components_bytes(cs, i).len()) as int,
        ) == Ok::<(Seq<ComponentV>, int), crate::qb::error::Failure>(
            (cs.subrange(i as int, cs.len() as int), (front.len() + structure_bytes(cs).len()) as int),
        ),
    decreases cs, cs.len() - i, 1nat,
{
    let n = cs.len();
    lemma_components_bytes_prefix(cs, i, n);
    if i < n {
        lemma_component_at(cs, front, rest, i);
        lemma_components_wf(cs, n, i as int);
        lemma_components_bytes_prefix(cs, i, (i + 1) as nat);
        lemma_components_bytes_prefix(cs, (i + 1) as nat, n);
        lemma_components_round_trip(cs, front, rest, (i + 1) as nat);
        assert(seq![cs[i as int]] + cs.subrange((i + 1) as int, n as int) =~= cs.subrange(
            i as int,
            n as int,
        ));
    } else {
        lemma_structure_end(cs, front, rest);
        assert(cs.subrange(i as int, n as int) =~= Seq::<ComponentV>::empty());
    }
}

/// Reading back the bytes of a structure of well-formed components gives the
/// structure, and stops after the byte that ends it.
pub proof fn law_structure_write_read(cs: Seq<ComponentV>, front: Seq<u8>, rest: Seq<u8>)
    requires
        components_wf(cs, cs.len()),
    ensures
        parse_components(front + structure_bytes(cs) + rest, front.len() as int) == Ok::<
            (Seq<ComponentV>, int),
            crate::qb::error::Failure,
        >((cs, (front.len() + structure_bytes(cs).len()) as int)),
{
    lemma_components_round_trip(cs, front, rest, 0);
    assert(cs.subrange(0, cs.len() as int) =~= cs);
}

proof fn lemma_values_wf_all(vs: Seq<ValueV>, k: Kind, n: nat)
    requires
        n <= vs.len(),
    ensures
        values_wf(vs, k, n) <==> forall|i: int| 0 <= i < n ==> value_wf(#[trigger] vs[i], k),
    decreases n,
{
    if n > 0 {
        lemma_values_wf_all(vs, k, (n - 1) as nat);
    }
}

proof fn lemma_components_wf_all(cs: Seq<ComponentV>, n: nat)
    requires
        n <= cs.len(),
    ensures
        components_wf(cs, n) <==> forall|i: int| 0 <= i < n ==> component_wf(#[trigger] cs[i]),
    decreases n,
{
    if n > 0 {
        lemma_components_wf_all(cs, (n - 1) as nat);
    }
}

/// A value read from bytes is well formed.
proof fn lemma_value_read_wf(s: Seq<u8>, p: int, k: Kind)
    ensures
        parse_value(s, p, k) matches Ok((v, q)) ==> value_wf(v, k),
    decreases crate::bytes::rem(s, p), 2nat, 0nat,
{
    if let Ok((v, q)) = parse_value(s, p, k) {
        match k {
            Kind::String | Kind::LocalString => {
                crate::qb::token::lemma_cstr_len_means(s, p);
                let n = cstr_len(s, p)->Some_0;
                let b = s.subrange(p, p + n);
                assert forall|i: int| 0 <= i < b.len() implies b[i] != 0 by {
                    assert(b[i] == s[p + i]);
                }
            },
            Kind::Structure => {
                lemma_components_read_wf(s, p);
            },
            Kind::Array => {
                let ek = kind_of_byte(s[p])->Some_0;
                let n = crate::bytes::u16_le(s, p + 1) as nat;
                lemma_values_read_wf(s, p + 3, ek, n);
            },
            _ => {},
        }
    }
}

/// Values read from bytes are well formed, and there are as many as were asked
/// for.
proof fn lemma_values_read_wf(s: Seq<u8>, p: int, k: Kind, n: nat)
    ensures
        parse_values(s, p, k, n) matches Ok((vs, q)) ==> vs.len() == n && values_wf(
            vs,
            k,
            vs.len(),
        ),
    decreases crate::bytes::rem(s, p), 3nat, n,
{
    if let Ok((vs, q)) = parse_values(s, p, k, n) {
        if n == 0 {
            lemma_values_wf_all(vs, k, 0);
        } else {
            let (v, q1) = parse_value(s, p, k)->Ok_0;
            lemma_value_read_wf(s, p, k);
            lemma_values_read_wf(s, q1, k, (n - 1) as nat);
            let (rest, r) = parse_values(s, q1, k, (n - 1) as nat)->Ok_0;
            assert(vs == seq![v] + rest);
            lemma_values_wf_all(rest, k, rest.len());
            assert forall|i: int| 0 <= i < vs.len() implies value_wf(#[trigger] vs[i], k) by {
                if i > 0 {
                    assert(vs[i] == rest[i - 1]);
                }
            }
            lemma_values_wf_all(vs, k, vs.len());
        }
    }
}

/// A component read from bytes, other than the one that ends a structure, is
/// well formed.
proof fn lemma_component_read_wf(s: Seq<u8>, p: int)
    ensures
        parse_component(s, p) matches Ok((c, q)) ==> c.kind == Kind::Nil || component_wf(c),
    decreases crate::bytes::rem(s, p), 0nat, 0nat,
{
    if let Ok((c, q)) = parse_component(s, p) {
        let t = s[p];
        let k = kind_of_byte((t % 64) as u8)->Some_0;
        let (id, q1) = parse_id(s, p + 1, k, t >= 128, t % 128 >= 64)->Ok_0;
        lemma_value_read_wf(s, q1, k);
    }
}

/// The components of a structure read from bytes are well formed.
proof fn lemma_components_read_wf(s: Seq<u8>, p: int)
    ensures
        parse_components(s, p) matches Ok((cs, q)) ==> components_wf(cs, cs.len()),
    decreases crate::bytes::rem(s, p), 1nat, 0nat,
{
    if let Ok((cs, q)) = parse_components(s, p) {
        let (c, q1) = parse_component(s, p)->Ok_0;
        lemma_component_read_wf(s, p);
        if c.kind == Kind::Nil {
            lemma_components_wf_all(cs, 0);
        } else {
            lemma_components_read_wf(s, q1);
            let (rest, r) = parse_components(s, q1)->Ok_0;
            assert(cs == seq![c] + rest);
            lemma_components_wf_all(rest, rest.len());
            assert forall|i: int| 0 <= i < cs.len() implies component_wf(#[trigger] cs[i]) by {
                if i > 0 {
                    assert(cs[i] == rest[i - 1]);
                }
            }
            lemma_components_wf_all(cs, cs.len());
        }
    }
}

/// A structure read from bytes is well formed, so that reading back the bytes
/// written for it gives it back.
pub proof fn law_structure_read_write(s: Seq<u8>, p: int)
    ensures
        parse_components(s, p) matches Ok((cs, q)) ==> components_wf(cs, cs.len())
            && parse_components(structure_bytes(cs), 0) == Ok::<
            (Seq<ComponentV>, int),
            crate::qb::error::Failure,
        >((cs, structure_bytes(cs).len() as int)),
{
    lemma_components_read_wf(s, p);
    if let Ok((cs, q)) = parse_components(s, p) {
        let e = Seq::<u8>::empty();
        law_structure_write_read(cs, e, e);
        assert(e + structure_bytes(cs) + e =~= structure_bytes(cs));
    }
}

} // verus!
