//! Comparing the bytes read with the bytes written back.
use crate::text::{dec_digits, push_dec_digits, push_str};
use vstd::prelude::*;

verus! {

/// How two byte strings differ.
#[derive(Debug, Clone, Copy, PartialEq, Eq, Structural)]
pub enum DiffError {
    /// They are as long as each other, and this many bytes differ.
    BytesDifferent(usize),
    /// Their lengths, which differ.
    SizeMismatch(usize, usize),
}

/// The number of positions below `n` where `a` and `b` differ.
pub open spec fn diff_count(a: Seq<u8>, b: Seq<u8>, n: nat) -> nat
    decreases n,
{
    if n == 0 {
        0
    } else {
        diff_count(a, b, (n - 1) as nat) + if a[n - 1] != b[n - 1] {
            1nat
        } else {
            0nat
        }
    }
}

/// The message of a difference.
pub open spec fn diff_text(e: DiffError) -> Seq<char> {
    match e {
        DiffError::BytesDifferent(n) => dec_digits(n as nat) + " bytes different"@,
        DiffError::SizeMismatch(a, b) => "input size ("@ + dec_digits(a as nat)
            + ") does not match output size ("@ + dec_digits(b as nat) + ")"@,
    }
}

impl DiffError {
    /// The message of the difference.
    pub fn to_string(&self) -> (r: String)
        ensures
            r@ == diff_text(*self),
    {
        let mut s = String::new();
        match self {
            DiffError::BytesDifferent(n) => {
                push_dec_digits(&mut s, *n as u64);
                push_str(&mut s, " bytes different");
            },
            DiffError::SizeMismatch(a, b) => {
                push_str(&mut s, "input size (");
                push_dec_digits(&mut s, *a as u64);
                push_str(&mut s, ") does not match output size (");
                push_dec_digits(&mut s, *b as u64);
                push_str(&mut s, ")");
            },
        }
        proof {
            assert(s@ =~= diff_text(*self));
        }
        s
    }
}

pub proof fn lemma_diff_count_le(a: Seq<u8>, b: Seq<u8>, n: nat)
    ensures
        diff_count(a, b, n) <= n,
    decreases n,
{
    if n > 0 {
        lemma_diff_count_le(a, b, (n - 1) as nat);
    }
}

/// Compares the bytes read with the bytes written: they match when they are as
/// long as each other and no byte differs.
pub fn diff_bytes(input_bytes: &[u8], output_bytes: &[u8]) -> (r: Result<(), DiffError>)
    ensures
        input_bytes@.len() != output_bytes@.len() ==> r == Err::<(), DiffError>(
            DiffError::SizeMismatch(input_bytes@.len() as usize, output_bytes@.len() as usize),
        ),
        input_bytes@.len() == output_bytes@.len() ==> {
            let n = diff_count(input_bytes@, output_bytes@, input_bytes@.len());
            if n == 0 {
                r == Ok::<(), DiffError>(())
            } else {
                r == Err::<(), DiffError>(DiffError::BytesDifferent(n as usize))
            }
        },
        r is Ok <==> input_bytes@ == output_bytes@,
{
    if input_bytes.len() == output_bytes.len() {
        let mut num_diff_bytes: usize = 0;
        let mut i: usize = 0;
        while i < input_bytes.len()
            invariant
                0 <= i <= input_bytes@.len(),
                input_bytes@.len() == output_bytes@.len(),
                num_diff_bytes == diff_count(input_bytes@, output_bytes@, i as nat),
            decreases input_bytes@.len() - i,
        {
            proof {
                lemma_diff_count_le(input_bytes@, output_bytes@, i as nat);
            }
            if input_bytes[i] != output_bytes[i] {
                num_diff_bytes = num_diff_bytes + 1;
            }
            i = i + 1;
        }
        proof {
            law_diff_none_iff_equal(input_bytes@, output_bytes@);
        }
        if num_diff_bytes == 0 {
            Ok(())
        } else {
            Err(DiffError::BytesDifferent(num_diff_bytes))
        }
    } else {
        Err(DiffError::SizeMismatch(input_bytes.len(), output_bytes.len()))
    }
}

/// Two byte strings of one length differ at no position exactly when they are
/// equal: every position where their bytes differ is counted.
pub proof fn law_diff_none_iff_equal(a: Seq<u8>, b: Seq<u8>)
    requires
        a.len() == b.len(),
    ensures
        diff_count(a, b, a.len()) == 0 <==> a == b,
{
    lemma_diff_count_zero(a, b, a.len());
    if diff_count(a, b, a.len()) == 0 {
        assert(a =~= b);
    } else if a == b {
        law_diff_same(a, a.len());
    }
}

proof fn lemma_diff_count_zero(a: Seq<u8>, b: Seq<u8>, n: nat)
    ensures
        diff_count(a, b, n) == 0 <==> forall|i: int| 0 <= i < n ==> a[i] == b[i],
    decreases n,
{
    if n > 0 {
        lemma_diff_count_zero(a, b, (n - 1) as nat);
    }
}

/// Which of the two byte strings comes first does not change how many of their
/// bytes differ.
pub proof fn law_diff_symmetric(a: Seq<u8>, b: Seq<u8>, n: nat)
    ensures
        diff_count(a, b, n) == diff_count(b, a, n),
    decreases n,
{
    if n > 0 {
        law_diff_symmetric(a, b, (n - 1) as nat);
    }
}

/// Making one position where the two byte strings agree differ, whichever byte
/// becomes the larger, adds exactly one to how many bytes differ.
pub proof fn law_diff_one_position(a: Seq<u8>, b: Seq<u8>, i: int, x: u8)
    requires
        a.len() == b.len(),
        0 <= i < a.len(),
        a[i] == b[i],
        x != b[i],
    ensures
        diff_count(a.update(i, x), b, a.len()) == diff_count(a, b, a.len()) + 1,
{
    lemma_diff_update(a, b, i, x, a.len());
}

proof fn lemma_diff_update(a: Seq<u8>, b: Seq<u8>, i: int, x: u8, n: nat)
    requires
        0 <= i < a.len(),
        n <= a.len(),
        n <= b.len(),
        a[i] == b[i],
        x != b[i],
    ensures
        diff_count(a.update(i, x), b, n) == diff_count(a, b, n) + if i < n {
            1nat
        } else {
            0nat
        },
    decreases n,
{
    if n > 0 {
        lemma_diff_update(a, b, i, x, (n - 1) as nat);
    }
}

/// Bytes compared with themselves do not differ.
pub proof fn law_diff_same(a: Seq<u8>, n: nat)
    ensures
        diff_count(a, a, n) == 0,
    decreases n,
{
    if n > 0 {
        law_diff_same(a, (n - 1) as nat);
    }
}

} // verus!
