//! Byte-string helpers shared by the naming passes.
//!
//! Display names are byte strings (Lua strings are bytes, and every name the
//! library mints is ASCII). This module defines what a well-formed identifier
//! is, and converts integers to their decimal digits.

use vstd::prelude::*;

verus! {

/// A decimal digit, `'0'` to `'9'`.
pub open spec fn is_digit_byte(b: u8) -> bool {
    48 <= b && b <= 57
}

/// A byte allowed anywhere in an identifier: `[A-Za-z0-9_]`.
pub open spec fn is_ident_byte(b: u8) -> bool {
    (65 <= b && b <= 90) || (97 <= b && b <= 122) || is_digit_byte(b) || b == 95
}

/// A byte allowed to start an identifier: `[A-Za-z_]`.
pub open spec fn is_ident_start_byte(b: u8) -> bool {
    is_ident_byte(b) && !is_digit_byte(b)
}

/// A display name the naming pass may set: either the single underscore, or
/// a name matching `[A-Za-z_][A-Za-z0-9_]*`.
pub open spec fn valid_name(s: Seq<u8>) -> bool {
    s.len() > 0 && is_ident_start_byte(s[0]) && forall|i: int| 0 <= i < s.len() ==> is_ident_byte(#[trigger] s[i])
}

/// The decimal digits of `n`, most significant first.
pub open spec fn dec_digits(n: nat) -> Seq<u8>
    decreases n,
{
    if n < 10 {
        seq![(48 + n) as u8]
    } else {
        dec_digits(n / 10) + seq![(48 + n % 10) as u8]
    }
}

pub proof fn lemma_dec_digits_are_digits(n: nat)
    ensures
        dec_digits(n).len() > 0,
        forall|i: int| 0 <= i < dec_digits(n).len() ==> is_digit_byte(#[trigger] dec_digits(n)[i]),
    decreases n,
{
    if n >= 10 {
        lemma_dec_digits_are_digits(n / 10);
    }
}

/// The decimal representation of `n`, as ASCII bytes.
pub fn u64_to_dec(n: u64) -> (r: Vec<u8>)
    ensures
        r@ == dec_digits(n as nat),
    decreases n,
{
    if n < 10 {
        let mut v: Vec<u8> = Vec::new();
        v.push(48 + (n as u8));
        v
    } else {
        assert(n / 10 < n) by (nonlinear_arith)
            requires n >= 10,
        ;
        let mut v = u64_to_dec(n / 10);
        v.push(48 + ((n % 10) as u8));
        v
    }
}

/// The decimal representation of an integer: a minus sign for a negative
/// value, then its digits.
pub open spec fn int_dec(n: int) -> Seq<u8> {
    if n < 0 {
        seq![45u8] + dec_digits((-n) as nat)
    } else {
        dec_digits(n as nat)
    }
}

/// The decimal representation of `n`, as ASCII bytes.
pub fn i64_to_dec(n: i64) -> (r: Vec<u8>)
    ensures
        r@ == int_dec(n as int),
{
    if n >= 0 {
        u64_to_dec(n as u64)
    } else {
        let magnitude: u64 = if n == i64::MIN {
            9223372036854775808u64
        } else {
            (-n) as u64
        };
        let digits = u64_to_dec(magnitude);
        let mut r: Vec<u8> = Vec::new();
        r.push(45);
        let mut i: usize = 0;
        while i < digits.len()
            invariant
                i <= digits@.len(),
                r@.len() == i + 1,
                r@[0] == 45u8,
                forall|j: int| 0 <= j < i ==> r@[j + 1] == digits@[j],
            decreases digits@.len() - i,
        {
            r.push(digits[i]);
            i += 1;
        }
        assert(r@ =~= seq![45u8] + digits@);
        r
    }
}

/// A byte string built from a literal array.
pub fn arr_to_vec(a: &[u8]) -> (r: Vec<u8>)
    ensures
        r@ == a@,
{
    let mut r: Vec<u8> = Vec::new();
    let mut i: usize = 0;
    while i < a.len()
        invariant
            i <= a@.len(),
            r@.len() == i,
            forall|j: int| 0 <= j < i ==> r@[j] == a@[j],
        decreases a@.len() - i,
    {
        r.push(a[i]);
        i += 1;
    }
    assert(r@ =~= a@);
    r
}

/// A copy of a byte string.
pub fn clone_bytes(v: &Vec<u8>) -> (r: Vec<u8>)
    ensures
        r@ == v@,
{
    let r = v.clone();
    assert(r@ =~= v@);
    r
}

/// Whether two byte strings hold the same bytes.
pub fn bytes_eq(a: &Vec<u8>, b: &Vec<u8>) -> (r: bool)
    ensures
        r == (a@ == b@),
{
    if a.len() != b.len() {
        assert(a@ != b@) by {
            assert(a@.len() != b@.len());
        }
        return false;
    }
    let mut i: usize = 0;
    while i < a.len()
        invariant
            i <= a.len(),
            a@.len() == b@.len(),
            forall|j: int| 0 <= j < i ==> a@[j] == b@[j],
        decreases a.len() - i,
    {
        if a[i] != b[i] {
            return false;
        }
        i += 1;
    }
    assert(a@ =~= b@);
    true
}

} // verus!
