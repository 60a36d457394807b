//! Building text: characters appended to strings, and numbers written out in
//! decimal and in hexadecimal.
use vstd::prelude::*;

verus! {

/// Calls std's `String::push`, which appends one character.
#[verifier::external_body]
pub(crate) fn push_char(s: &mut String, c: char)
    ensures
        final(s)@ == old(s)@.push(c),
{
    s.push(c);
}

/// Appends every character of `t` to `s`.
pub fn push_str(s: &mut String, t: &str)
    ensures
        final(s)@ == old(s)@ + t@,
{
    s.append(t);
}

/// The character of a digit below 16: `0`-`9`, then `a`-`f`.
pub open spec fn digit_char(d: nat) -> char {
    if d < 10 {
        ((d + 48) as u8) as char
    } else {
        ((d - 10 + 97) as u8) as char
    }
}

/// The decimal digits of `v`, most significant first.
pub open spec fn dec_digits(v: nat) -> Seq<char>
    decreases v,
{
    if v < 10 {
        seq![digit_char(v)]
    } else {
        dec_digits(v / 10) + seq![digit_char(v % 10)]
    }
}

/// The hexadecimal digits of `v`, most significant first, at least `width` of
/// them (padded with zeros in front).
pub open spec fn hex_digits(v: nat, width: nat) -> Seq<char>
    decreases v, width,
{
    if v < 16 && width <= 1 {
        seq![digit_char(v)]
    } else {
        hex_digits(v / 16, if width > 0 { (width - 1) as nat } else { 0 }) + seq![
            digit_char(v % 16),
        ]
    }
}

/// A number in decimal, with a minus sign in front when it is negative.
pub open spec fn decimal_text(v: int) -> Seq<char> {
    if v < 0 {
        seq!['-'] + dec_digits((-v) as nat)
    } else {
        dec_digits(v as nat)
    }
}

/// A 32-bit number in lower-case hexadecimal, after `0x`, with at least six digits
/// (eight characters in all).
pub open spec fn hex_text(v: u32) -> Seq<char> {
    seq!['0', 'x'] + hex_digits(v as nat, 6)
}

fn digit_to_char(d: u32) -> (c: char)
    requires
        d < 16,
    ensures
        c == digit_char(d as nat),
{
    if d < 10 {
        ((d + 48) as u8) as char
    } else {
        ((d - 10 + 97) as u8) as char
    }
}

/// Appends the decimal digits of `v`.
/// Appends the decimal digits of `v`.
pub fn push_dec_digits(s: &mut String, v: u64)
    ensures
        final(s)@ == old(s)@ + dec_digits(v as nat),
    decreases v,
{
    if v < 10 {
        push_char(s, digit_to_char(v as u32));
    } else {
        push_dec_digits(s, v / 10);
        push_char(s, digit_to_char((v % 10) as u32));
        proof {
            assert(old(s)@ + dec_digits((v / 10) as nat) + seq![digit_char((v % 10) as nat)]
                =~= old(s)@ + dec_digits(v as nat));
        }
    }
}

/// Appends the hexadecimal digits of `v`, at least `width` of them.
fn push_hex_digits(s: &mut String, v: u64, width: u64)
    ensures
        final(s)@ == old(s)@ + hex_digits(v as nat, width as nat),
    decreases v, width,
{
    if v < 16 && width <= 1 {
        push_char(s, digit_to_char(v as u32));
    } else {
        let w = if width > 0 { width - 1 } else { 0 };
        push_hex_digits(s, v / 16, w);
        push_char(s, digit_to_char((v % 16) as u32));
        proof {
            assert(old(s)@ + hex_digits((v / 16) as nat, w as nat) + seq![digit_char((v % 16) as nat)]
                =~= old(s)@ + hex_digits(v as nat, width as nat));
        }
    }
}

/// Appends `v` in decimal.
pub fn push_decimal(s: &mut String, v: i32)
    ensures
        final(s)@ == old(s)@ + decimal_text(v as int),
{
    if v < 0 {
        push_char(s, '-');
        let m: u64 = (-(v as i64)) as u64;
        push_dec_digits(s, m);
        proof {
            assert(old(s)@.push('-') + dec_digits(m as nat) =~= old(s)@ + decimal_text(v as int));
        }
    } else {
        push_dec_digits(s, v as u64);
    }
}

/// `v` in lower-case hexadecimal, after `0x`, with at least six digits.
pub fn hex_string(v: u32) -> (r: String)
    ensures
        r@ == hex_text(v),
{
    let mut s = String::new();
    push_char(&mut s, '0');
    push_char(&mut s, 'x');
    push_hex_digits(&mut s, v as u64, 6);
    proof {
        assert(s@ =~= hex_text(v));
    }
    s
}

} // verus!
