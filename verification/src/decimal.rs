//! Decimal numerals.
//!
//! The wire protocol and the user-visible messages both print unsigned
//! numbers in ordinary base-10 notation.  `spec_decimal` is the mathematical
//! definition of that numeral; the executable functions produce it and read
//! it back, and the lemmas give the facts the protocol parser needs: a
//! numeral is nonempty, consists of digits, has no leading zero, and is in
//! bijection with its value.

use vstd::prelude::*;

verus! {

/// The digit character for a value below ten.
pub open spec fn spec_digit(d: nat) -> char
    recommends
        d < 10,
{
    if d == 0 {
        '0'
    } else if d == 1 {
        '1'
    } else if d == 2 {
        '2'
    } else if d == 3 {
        '3'
    } else if d == 4 {
        '4'
    } else if d == 5 {
        '5'
    } else if d == 6 {
        '6'
    } else if d == 7 {
        '7'
    } else if d == 8 {
        '8'
    } else {
        '9'
    }
}

/// `c` is a decimal digit character.
pub open spec fn spec_is_digit(c: char) -> bool {
    c == '0' || c == '1' || c == '2' || c == '3' || c == '4' || c == '5' || c == '6' || c == '7'
        || c == '8' || c == '9'
}

/// The numeric value of a digit character.
pub open spec fn spec_digit_val(c: char) -> nat
    recommends
        spec_is_digit(c),
{
    if c == '0' {
        0
    } else if c == '1' {
        1
    } else if c == '2' {
        2
    } else if c == '3' {
        3
    } else if c == '4' {
        4
    } else if c == '5' {
        5
    } else if c == '6' {
        6
    } else if c == '7' {
        7
    } else if c == '8' {
        8
    } else {
        9
    }
}

/// The base-10 numeral of `n`, most significant digit first.
pub open spec fn spec_decimal(n: nat) -> Seq<char>
    decreases n,
{
    if n < 10 {
        seq![spec_digit(n)]
    } else {
        spec_decimal(n / 10).push(spec_digit(n % 10))
    }
}

/// The value of a digit string, by Horner's rule.
pub open spec fn spec_decimal_val(s: Seq<char>) -> nat
    decreases s.len(),
{
    if s.len() == 0 {
        0
    } else {
        spec_decimal_val(s.drop_last()) * 10 + spec_digit_val(s.last())
    }
}

/// Every character of a numeral is a digit, the numeral is nonempty, and it
/// starts with '0' only for the value zero.
pub proof fn lemma_decimal_shape(n: nat)
    ensures
        spec_decimal(n).len() >= 1,
        forall|i: int| 0 <= i < spec_decimal(n).len() ==> spec_is_digit(#[trigger] spec_decimal(n)[i]),
        spec_decimal(n)[0] == '0' ==> n == 0,
        n == 0 ==> spec_decimal(n) =~= seq!['0'],
    decreases n,
{
    if n < 10 {
        assert(spec_decimal(n) =~= seq![spec_digit(n)]);
    } else {
        lemma_decimal_shape(n / 10);
        assert(spec_decimal(n) =~= spec_decimal(n / 10).push(spec_digit(n % 10)));
        assert(n / 10 >= 1);
    }
}

/// Reading back the numeral of `n` yields `n`.
pub proof fn lemma_decimal_val(n: nat)
    ensures
        spec_decimal_val(spec_decimal(n)) == n,
    decreases n,
{
    if n < 10 {
        let s = spec_decimal(n);
        assert(s =~= seq![spec_digit(n)]);
        assert(s.drop_last() =~= Seq::<char>::empty());
        assert(spec_decimal_val(Seq::<char>::empty()) == 0);
        assert(s.last() == spec_digit(n));
        assert(spec_digit_val(spec_digit(n)) == n);
        assert(spec_decimal_val(s) == spec_decimal_val(s.drop_last()) * 10 + spec_digit_val(
            s.last(),
        ));
    } else {
        lemma_decimal_val(n / 10);
        let s = spec_decimal(n);
        assert(s.drop_last() =~= spec_decimal(n / 10));
        assert(s.last() == spec_digit(n % 10));
        assert(spec_digit_val(spec_digit(n % 10)) == n % 10);
        assert(spec_decimal_val(s) == spec_decimal_val(s.drop_last()) * 10 + spec_digit_val(
            s.last(),
        ));
        assert((n / 10) * 10 + n % 10 == n);
    }
}

/// A nonempty digit string without a leading zero is the numeral of its own
/// value: numerals and values are in bijection.
pub proof fn lemma_decimal_canon(s: Seq<char>)
    requires
        s.len() >= 1,
        forall|i: int| 0 <= i < s.len() ==> spec_is_digit(#[trigger] s[i]),
        s[0] == '0' ==> s.len() == 1,
    ensures
        spec_decimal(spec_decimal_val(s)) =~= s,
    decreases s.len(),
{
    if s.len() == 1 {
        assert(spec_decimal_val(s) == spec_digit_val(s[0])) by {
            assert(s.drop_last() =~= Seq::<char>::empty());
            assert(spec_decimal_val(Seq::<char>::empty()) == 0);
            assert(s.last() == s[0]);
            assert(spec_decimal_val(s) == spec_decimal_val(s.drop_last()) * 10 + spec_digit_val(
                s.last(),
            ));
        }
        assert(spec_digit(spec_digit_val(s[0])) == s[0]);
    } else {
        let hd = s.drop_last();
        assert(hd[0] == s[0]);
        lemma_decimal_canon(hd);
        let v = spec_decimal_val(s);
        assert(v == spec_decimal_val(hd) * 10 + spec_digit_val(s.last()));
        assert(spec_decimal_val(hd) >= 1) by {
            if spec_decimal_val(hd) == 0 {
                lemma_decimal_val_zero(hd);
            }
        }
        assert(v / 10 == spec_decimal_val(hd) && v % 10 == spec_digit_val(s.last())) by (nonlinear_arith)
            requires
                v == spec_decimal_val(hd) * 10 + spec_digit_val(s.last()),
                spec_digit_val(s.last()) < 10,
        ;
        assert(v >= 10);
        assert(spec_digit(spec_digit_val(s.last())) == s.last());
        assert(spec_decimal(v) =~= spec_decimal(spec_decimal_val(hd)).push(s.last()));
        assert(spec_decimal(v) =~= hd.push(s.last()));
        assert(hd.push(s.last()) =~= s);
    }
}

/// A digit string whose value is zero is all zeros; without a leading-zero
/// allowance it can only be "0" itself, so here: its first digit is '0'.
proof fn lemma_decimal_val_zero(s: Seq<char>)
    requires
        s.len() >= 1,
        forall|i: int| 0 <= i < s.len() ==> spec_is_digit(#[trigger] s[i]),
        spec_decimal_val(s) == 0,
    ensures
        s[0] == '0',
    decreases s.len(),
{
    assert(spec_decimal_val(s.drop_last()) * 10 + spec_digit_val(s.last()) == 0);
    if s.len() == 1 {
        assert(spec_digit_val(s[0]) == 0);
        assert(s[0] == '0');
    } else {
        lemma_decimal_val_zero(s.drop_last());
        assert(s.drop_last()[0] == s[0]);
    }
}

/// The digit character for a value below ten.
pub fn digit_char(d: u64) -> (c: char)
    requires
        d < 10,
    ensures
        c == spec_digit(d as nat),
{
    if d == 0 {
        '0'
    } else if d == 1 {
        '1'
    } else if d == 2 {
        '2'
    } else if d == 3 {
        '3'
    } else if d == 4 {
        '4'
    } else if d == 5 {
        '5'
    } else if d == 6 {
        '6'
    } else if d == 7 {
        '7'
    } else if d == 8 {
        '8'
    } else {
        '9'
    }
}

/// Is `c` a decimal digit character?
pub fn is_digit(c: char) -> (r: bool)
    ensures
        r == spec_is_digit(c),
{
    c == '0' || c == '1' || c == '2' || c == '3' || c == '4' || c == '5' || c == '6' || c == '7'
        || c == '8' || c == '9'
}

/// A prefix of a digit string is worth no more than the whole.
pub proof fn lemma_decimal_val_take_le(s: Seq<char>, k: int)
    requires
        0 <= k <= s.len(),
        forall|i: int| 0 <= i < s.len() ==> spec_is_digit(#[trigger] s[i]),
    ensures
        spec_decimal_val(s.take(k)) <= spec_decimal_val(s),
    decreases s.len() - k,
{
    if k == s.len() {
        assert(s.take(k) =~= s);
    } else {
        lemma_decimal_val_take_le(s, k + 1);
        let t = s.take(k + 1);
        assert(t.drop_last() =~= s.take(k));
        assert(spec_decimal_val(t) == spec_decimal_val(s.take(k)) * 10 + spec_digit_val(t.last()));
        assert(spec_decimal_val(s.take(k)) * 10 >= spec_decimal_val(s.take(k))) by (nonlinear_arith);
    }
}

/// The numeric value of a digit character.
pub fn digit_val(c: char) -> (d: u64)
    requires
        spec_is_digit(c),
    ensures
        d == spec_digit_val(c),
        d < 10,
{
    if c == '0' {
        0
    } else if c == '1' {
        1
    } else if c == '2' {
        2
    } else if c == '3' {
        3
    } else if c == '4' {
        4
    } else if c == '5' {
        5
    } else if c == '6' {
        6
    } else if c == '7' {
        7
    } else if c == '8' {
        8
    } else {
        9
    }
}

/// The base-10 numeral of `n` as characters.
pub fn u64_to_chars(n: u64) -> (v: Vec<char>)
    ensures
        v@ == spec_decimal(n as nat),
    decreases n,
{
    if n < 10 {
        let mut v: Vec<char> = Vec::new();
        v.push(digit_char(n));
        proof {
            assert(v@ =~= spec_decimal(n as nat));
        }
        v
    } else {
        let mut v = u64_to_chars(n / 10);
        v.push(digit_char(n % 10));
        v
    }
}

/// The base-10 numeral of `n` as a string.
pub fn u64_to_string(n: u64) -> (s: String)
    ensures
        s@ == spec_decimal(n as nat),
{
    let v = u64_to_chars(n);
    crate::strutil::chars_to_string(&v)
}

} // verus!
