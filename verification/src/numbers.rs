//! Decimal numerals: reading an `i128` the way `str::parse` does, and writing
//! integers in decimal.

use vstd::prelude::*;
use crate::chars::spec_ascii_digit;
use crate::text::str_to_chars;

verus! {

/// The value of an ASCII decimal digit.
pub open spec fn digit_val(c: char) -> nat {
    ((c as u32) - ('0' as u32)) as nat
}

/// The value of a run of decimal digits, most significant first.
pub open spec fn digits_value(s: Seq<char>) -> nat
    decreases s.len(),
{
    if s.len() == 0 {
        0
    } else {
        digits_value(s.drop_last()) * 10 + digit_val(s.last())
    }
}

pub open spec fn all_digits(s: Seq<char>) -> bool {
    forall|i: int| 0 <= i < s.len() ==> spec_ascii_digit(#[trigger] s[i])
}

/// What `"..".parse::<i128>()` gives: an optional `+` or `-`, then one or more ASCII
/// digits, whose value must fit in an `i128`.
pub open spec fn spec_parse_i128(s: Seq<char>) -> Option<i128> {
    let neg = s.len() > 0 && s[0] == '-';
    let body = if s.len() > 0 && (s[0] == '-' || s[0] == '+') { s.drop_first() } else { s };
    let v: int = if neg { -(digits_value(body) as int) } else { digits_value(body) as int };
    if body.len() == 0 || !all_digits(body) || v < i128::MIN || v > i128::MAX {
        None
    } else {
        Some(v as i128)
    }
}

proof fn lemma_digits_value_step(s: Seq<char>, i: int)
    requires
        0 <= i < s.len(),
    ensures
        digits_value(s.subrange(0, i + 1)) == digits_value(s.subrange(0, i)) * 10 + digit_val(s[i]),
{
    assert(s.subrange(0, i + 1).drop_last() == s.subrange(0, i));
}

proof fn lemma_digits_value_mono(s: Seq<char>, i: int, j: int)
    requires
        0 <= i <= j <= s.len(),
    ensures
        digits_value(s.subrange(0, i)) <= digits_value(s.subrange(0, j)),
    decreases j - i,
{
    if i < j {
        lemma_digits_value_mono(s, i, j - 1);
        lemma_digits_value_step(s, j - 1);
    }
}

/// Reads a decimal `i128` as `str::parse` does; `None` where it reports an error.
pub fn parse_i128(s: &str) -> (r: Option<i128>)
    ensures
        r == spec_parse_i128(s@),
{
    let cs = str_to_chars(s);
    let n = cs.len();
    let ghost t = s@;
    let neg = n > 0 && cs[0] == '-';
    let start: usize = if n > 0 && (cs[0] == '-' || cs[0] == '+') { 1 } else { 0 };
    let ghost body = if t.len() > 0 && (t[0] == '-' || t[0] == '+') { t.drop_first() } else { t };
    assert(body == t.subrange(start as int, n as int));
    if start == n {
        return None;
    }
    let limit: u128 = 0x8000_0000_0000_0000_0000_0000_0000_0000;
    let mut acc: u128 = 0;
    let mut i = start;
    while i < n
        invariant
            start <= i <= n,
            n == t.len(),
            t == s@,
            cs@ == t,
            body == t.subrange(start as int, n as int),
            body == (if t.len() > 0 && (t[0] == '-' || t[0] == '+') { t.drop_first() } else { t }),
            neg == (t.len() > 0 && t[0] == '-'),
            acc == digits_value(body.subrange(0, i - start)),
            acc <= limit,
            limit == 0x8000_0000_0000_0000_0000_0000_0000_0000u128,
            forall|k: int| 0 <= k < i - start ==> spec_ascii_digit(#[trigger] body[k]),
        decreases n - i,
    {
        let c = cs[i];
        proof {
            lemma_digits_value_step(body, i - start);
        }
        if !('0' <= c && c <= '9') {
            assert(!spec_ascii_digit(body[i - start]));
            assert(!all_digits(body));
            assert(spec_parse_i128(t) is None);
            return None;
        }
        let d = (c as u32 - 48) as u128;
        if acc > 17014118346046923173168730371588410572u128 {
            proof {
                lemma_digits_value_mono(body, i - start + 1, body.len() as int);
                assert(body.subrange(0, body.len() as int) == body);
                assert(digits_value(body) > limit);
                assert(spec_parse_i128(t) is None);
            }
            return None;
        }
        let next = acc * 10 + d;
        if next > limit {
            proof {
                lemma_digits_value_mono(body, i - start + 1, body.len() as int);
                assert(body.subrange(0, body.len() as int) == body);
            }
            return None;
        }
        acc = next;
        i += 1;
    }
    assert(body.subrange(0, n - start) == body);
    if neg {
        if acc == limit {
            Some(-170141183460469231731687303715884105727i128 - 1)
        } else {
            Some(-(acc as i128))
        }
    } else {
        if acc == limit {
            None
        } else {
            Some(acc as i128)
        }
    }
}


/// What `"..".parse::<i64>()` gives: the same numerals as for `i128`, in range.
pub open spec fn spec_parse_i64(s: Seq<char>) -> Option<i64> {
    match spec_parse_i128(s) {
        Some(v) => if i64::MIN <= v <= i64::MAX { Some(v as i64) } else { None },
        None => None,
    }
}

/// What `"..".parse::<usize>()` gives: an optional `+`, then one or more ASCII digits,
/// whose value must fit.
pub open spec fn spec_parse_usize(s: Seq<char>) -> Option<usize> {
    if s.len() > 0 && s[0] == '-' {
        None
    } else {
        match spec_parse_i128(s) {
            Some(v) => if 0 <= v <= usize::MAX { Some(v as usize) } else { None },
            None => None,
        }
    }
}

/// Reads a decimal `i64` as `str::parse` does.
pub fn parse_i64(s: &str) -> (r: Option<i64>)
    ensures
        r == spec_parse_i64(s@),
{
    match parse_i128(s) {
        Some(v) => if -9223372036854775808i128 <= v && v <= 9223372036854775807i128 { Some(v as i64) } else { None },
        None => None,
    }
}

/// Reads a decimal `usize` as `str::parse` does.
pub fn parse_usize(s: &str) -> (r: Option<usize>)
    ensures
        r == spec_parse_usize(s@),
{
    let cs = str_to_chars(s);
    if cs.len() > 0 && cs[0] == '-' {
        return None;
    }
    match parse_i128(s) {
        Some(v) => if 0 <= v && v <= usize::MAX as i128 { Some(v as usize) } else { None },
        None => None,
    }
}

} // verus!

verus! {

/// The digit for `d`, below ten.
pub open spec fn digit_char(d: nat) -> char {
    if d == 0 { '0' }
    else if d == 1 { '1' }
    else if d == 2 { '2' }
    else if d == 3 { '3' }
    else if d == 4 { '4' }
    else if d == 5 { '5' }
    else if d == 6 { '6' }
    else if d == 7 { '7' }
    else if d == 8 { '8' }
    else { '9' }
}

/// `n` written in decimal, without leading zeros.
pub open spec fn spec_dec(n: nat) -> Seq<char>
    decreases n,
{
    if n < 10 {
        seq![digit_char(n)]
    } else {
        spec_dec(n / 10).push(digit_char(n % 10))
    }
}

/// `v` written in decimal, with a `-` before a negative number.
pub open spec fn spec_idec(v: int) -> Seq<char> {
    if v < 0 {
        seq!['-'] + spec_dec((-v) as nat)
    } else {
        spec_dec(v as nat)
    }
}

fn digit_of(d: u64) -> (c: char)
    requires
        d < 10,
    ensures
        c == digit_char(d as nat),
{
    if d == 0 { '0' }
    else if d == 1 { '1' }
    else if d == 2 { '2' }
    else if d == 3 { '3' }
    else if d == 4 { '4' }
    else if d == 5 { '5' }
    else if d == 6 { '6' }
    else if d == 7 { '7' }
    else if d == 8 { '8' }
    else { '9' }
}

/// `n` in decimal, as `{}` formats it.
pub fn u64_to_dec(n: u64) -> (r: String)
    ensures
        r@ == spec_dec(n as nat),
    decreases n,
{
    if n < 10 {
        let mut s = String::new();
        crate::text::push_char(&mut s, digit_of(n));
        assert(s@ == seq![digit_char(n as nat)]);
        s
    } else {
        let mut s = u64_to_dec(n / 10);
        crate::text::push_char(&mut s, digit_of(n % 10));
        s
    }
}

/// `v` in decimal, as `{}` formats it.
pub fn i64_to_dec(v: i64) -> (r: String)
    ensures
        r@ == spec_idec(v as int),
{
    if v < 0 {
        let m: u64 = (0i128 - v as i128) as u64;
        let mut s = String::new();
        crate::text::push_char(&mut s, '-');
        let d = u64_to_dec(m);
        crate::text::push_str(&mut s, d.as_str());
        assert(s@ == seq!['-'] + spec_dec((-v) as nat));
        s
    } else {
        u64_to_dec(v as u64)
    }
}

} // verus!
