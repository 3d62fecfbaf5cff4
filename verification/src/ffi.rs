//! The functions a Jolang program can call outside itself, and the builtin ones.

use vstd::prelude::*;
use rand::Rng;
use crate::ir::{Signature, strings_view};
use vstd::arithmetic::power::pow as spec_pow;

verus! {

/// A function callable from Jolang code: what it takes and returns.
pub trait JolangExtern {
    fn signature(&self) -> Signature;
}

/// The builtin functions, each with its signature: `print` takes an `i64`, `input`
/// returns one, `pow` and `randint` take two and return one.
pub open spec fn spec_std_externs() -> Seq<(Seq<char>, (Seq<char>, Seq<Seq<char>>))> {
    seq![
        ("print"@, ("void"@, seq!["i64"@])),
        ("input"@, ("i64"@, Seq::<Seq<char>>::empty())),
        ("pow"@, ("i64"@, seq!["i64"@, "i64"@])),
        ("randint"@, ("i64"@, seq!["i64"@, "i64"@])),
    ]
}

/// The builtin functions and their signatures, in order.
pub fn std_externs() -> (r: Vec<(String, Signature)>)
    ensures
        r@.map_values(|e: (String, Signature)| (e.0@, e.1@)) == spec_std_externs(),
{
    let print = ("print".to_owned(), Signature::new("void".to_owned(), vec!["i64".to_owned()]));
    let input = ("input".to_owned(), Signature::new("i64".to_owned(), Vec::new()));
    let pow = ("pow".to_owned(), Signature::new("i64".to_owned(), vec!["i64".to_owned(), "i64".to_owned()]));
    let randint = ("randint".to_owned(), Signature::new("i64".to_owned(), vec!["i64".to_owned(), "i64".to_owned()]));
    proof {
        assert(strings_view(print.1.args@) =~= seq!["i64"@]);
        assert(strings_view(input.1.args@) =~= Seq::<Seq<char>>::empty());
        assert(strings_view(pow.1.args@) =~= seq!["i64"@, "i64"@]);
        assert(strings_view(randint.1.args@) =~= seq!["i64"@, "i64"@]);
    }
    let r = vec![print, input, pow, randint];
    assert(r@.map_values(|e: (String, Signature)| (e.0@, e.1@)) =~= spec_std_externs());
    r
}

proof fn lemma_pow_step(v: int, k: nat)
    ensures
        spec_pow(v, k + 1) == v * spec_pow(v, k),
{
    reveal(spec_pow);
    assert(spec_pow(v, k + 1) == v * spec_pow(v, ((k + 1) - 1) as nat));
}

proof fn lemma_pow_zero(v: int)
    ensures
        spec_pow(v, 0) == 1,
{
    reveal(spec_pow);
}

/// The powers of 0, 1 and -1 stay between -1 and 1.
proof fn lemma_pow_small(v: int, k: nat)
    requires
        -1 <= v <= 1,
    ensures
        -1 <= spec_pow(v, k) <= 1,
    decreases k,
{
    if k == 0 {
        lemma_pow_zero(v);
    } else {
        lemma_pow_step(v, (k - 1) as nat);
        lemma_pow_small(v, (k - 1) as nat);
        let p = spec_pow(v, (k - 1) as nat);
        assert(-1 <= v * p <= 1) by (nonlinear_arith)
            requires
                -1 <= v <= 1,
                -1 <= p <= 1,
        ;
    }
}

/// For a base other than 0, 1 and -1, the powers grow strictly in size.
proof fn lemma_pow_abs_grows(v: int, k: nat, e: nat)
    requires
        v < -1 || v > 1,
        k < e,
    ensures
        abs(spec_pow(v, k)) < abs(spec_pow(v, e)),
    decreases e - k,
{
    lemma_pow_step(v, (e - 1) as nat);
    let p = spec_pow(v, (e - 1) as nat);
    assert(abs(v * p) == abs(v) * abs(p)) by (nonlinear_arith);
    assert(abs(p) < abs(v) * abs(p) || p == 0) by (nonlinear_arith)
        requires
            abs(v) >= 2,
    ;
    if p == 0 {
        lemma_pow_nonzero(v, (e - 1) as nat);
    }
    if k < e - 1 {
        lemma_pow_abs_grows(v, k, (e - 1) as nat);
    }
}

proof fn lemma_pow_nonzero(v: int, k: nat)
    requires
        v != 0,
    ensures
        spec_pow(v, k) != 0,
    decreases k,
{
    if k == 0 {
        lemma_pow_zero(v);
    } else {
        lemma_pow_step(v, (k - 1) as nat);
        lemma_pow_nonzero(v, (k - 1) as nat);
        let p = spec_pow(v, (k - 1) as nat);
        assert(v * p != 0) by (nonlinear_arith)
            requires
                v != 0,
                p != 0,
        ;
    }
}

pub open spec fn abs(x: int) -> int {
    if x < 0 { -x } else { x }
}

/// `value` to the power of `exponent` (the exponent taken as a `u32`, as the builtin
/// converts it), where the result fits an `i64`.
pub fn pow(value: i64, exponent: i64) -> (r: i64)
    requires
        i64::MIN <= spec_pow(value as int, (exponent as u32) as nat) <= i64::MAX,
    ensures
        r == spec_pow(value as int, (exponent as u32) as nat),
{
    let e = exponent as u32;
    let mut acc: i64 = 1;
    let mut k: u32 = 0;
    proof {
        lemma_pow_zero(value as int);
    }
    while k < e
        invariant
            0 <= k <= e,
            e == exponent as u32,
            acc == spec_pow(value as int, k as nat),
            i64::MIN <= spec_pow(value as int, e as nat) <= i64::MAX,
        decreases e - k,
    {
        proof {
            lemma_pow_step(value as int, k as nat);
            if value < -1 || value > 1 {
                if k + 1 < e {
                    lemma_pow_abs_grows(value as int, (k + 1) as nat, e as nat);
                }
            } else {
                lemma_pow_small(value as int, (k + 1) as nat);
            }
        }
        acc = acc * value;
        k += 1;
    }
    acc
}

/// Calls `rand::thread_rng().gen_range(min..max)`, documented to give a number of the
/// range `min..max`, and to panic when the range is empty. Which number comes out is
/// left to chance.
#[verifier::external_body]
fn gen_range(min: i64, max: i64) -> (r: i64)
    requires
        min < max,
    ensures
        min <= r < max,
{
    rand::thread_rng().gen_range(min..max)
}

/// A random number between `min` and `max`: at least `min` and below `max`, or `min`
/// itself where the two are equal.
pub fn randint(min: i64, max: i64) -> (r: i64)
    requires
        min <= max,
    ensures
        min <= r <= max,
        min < max ==> r < max,
        min == max ==> r == min,
{
    if min == max {
        min
    } else {
        gen_range(min, max)
    }
}

} // verus!
