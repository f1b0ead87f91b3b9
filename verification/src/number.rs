//! Numbers of the calculator: unsigned 32-bit values with wraparound.

use vstd::arithmetic::div_mod::{lemma_mul_mod_noop_general, lemma_small_mod};
use vstd::arithmetic::power::{lemma_pow_mod_noop, lemma_pow_multiplies, pow};
use vstd::prelude::*;

verus! {

/// A calculator value. All arithmetic on it is reduced modulo 2^32.
#[derive(Clone, Copy, PartialEq, Eq, Debug, Structural)]
pub struct CalcNumber(pub u32);

/// The number that an integer stands for after reduction modulo 2^32.
pub open spec fn wrap(x: int) -> CalcNumber {
    CalcNumber((x % 0x1_0000_0000) as u32)
}

/// The product `1 * 2 * ... * n`.
pub open spec fn factorial_of(n: nat) -> nat
    decreases n,
{
    if n == 0 {
        1
    } else {
        n * factorial_of((n - 1) as nat)
    }
}

/// Whether `r` is the floor of the real square root of `n`.
pub open spec fn is_floor_sqrt(n: nat, r: nat) -> bool {
    r * r <= n < (r + 1) * (r + 1)
}

/// The largest natural number whose square does not exceed `n`.
pub open spec fn floor_sqrt(n: nat) -> nat {
    choose|r: nat| is_floor_sqrt(n, r)
}

/// There is exactly one `r` with `r * r <= n < (r + 1) * (r + 1)`, and
/// `floor_sqrt(n)` is that number.
pub proof fn lemma_floor_sqrt_unique(n: nat, r: nat)
    requires
        is_floor_sqrt(n, r),
    ensures
        floor_sqrt(n) == r,
{
    let s = floor_sqrt(n);
    assert(is_floor_sqrt(n, s));
    if s < r {
        assert((s + 1) * (s + 1) <= r * r) by (nonlinear_arith)
            requires
                s + 1 <= r,
        ;
    }
    if r < s {
        assert((r + 1) * (r + 1) <= s * s) by (nonlinear_arith)
            requires
                r + 1 <= s,
        ;
    }
}

/// A number read as a truth value: zero is false, everything else is true.
pub open spec fn truth(n: CalcNumber) -> bool {
    n.0 != 0
}

/// A truth value written as a number: 1 for true, 0 for false.
pub open spec fn number_of(b: bool) -> CalcNumber {
    if b {
        CalcNumber(1)
    } else {
        CalcNumber(0)
    }
}

pub fn to_bool(n: CalcNumber) -> (b: bool)
    ensures
        b == truth(n),
{
    n.0 > 0
}

pub fn to_calc_num(b: bool) -> (n: CalcNumber)
    ensures
        n == number_of(b),
{
    if b {
        CalcNumber(1)
    } else {
        CalcNumber(0)
    }
}

/// Once a factorial is a multiple of 2^32, so is every later one.
proof fn lemma_factorial_stays_zero(k: nat, n: nat)
    requires
        k <= n,
        factorial_of(k) % 0x1_0000_0000 == 0,
    ensures
        factorial_of(n) % 0x1_0000_0000 == 0,
    decreases n - k,
{
    if k < n {
        lemma_factorial_stays_zero(k, (n - 1) as nat);
        lemma_mul_mod_noop_general(n as int, factorial_of((n - 1) as nat) as int, 0x1_0000_0000);
        assert(n * factorial_of((n - 1) as nat) == factorial_of(n));
        assert(((n % 0x1_0000_0000) * 0) == 0);
    }
}

/// The factorial of `n`, reduced modulo 2^32.
pub fn factorial(n: CalcNumber) -> (r: CalcNumber)
    ensures
        r == wrap(factorial_of(n.0 as nat) as int),
{
    let mut res: u32 = 1;
    let mut i: u32 = 0;
    proof {
        lemma_small_mod(1, 0x1_0000_0000);
    }
    while i < n.0 && res != 0
        invariant
            i <= n.0,
            res as int == factorial_of(i as nat) as int % 0x1_0000_0000,
        decreases n.0 - i,
    {
        i = i + 1;
        proof {
            let prev = factorial_of((i - 1) as nat) as int;
            lemma_mul_mod_noop_general(i as int, prev, 0x1_0000_0000);
            lemma_small_mod(i as nat, 0x1_0000_0000);
            assert(i as int * prev == factorial_of(i as nat) as int);
            assert(res as nat * i as nat == i as int * res as int) by (nonlinear_arith);
        }
        res = res.wrapping_mul(i);
    }
    proof {
        if i < n.0 {
            lemma_factorial_stays_zero(i as nat, n.0 as nat);
        }
    }
    CalcNumber(res)
}

/// The integer square root: the floor of the real square root of `n`.
pub fn sqrt(n: CalcNumber) -> (r: CalcNumber)
    ensures
        r.0 as nat == floor_sqrt(n.0 as nat),
{
    let target: u64 = n.0 as u64;
    let mut lo: u64 = 0;
    let mut hi: u64 = 65536;
    while hi - lo > 1
        invariant
            lo < hi <= 65536,
            target == n.0,
            lo * lo <= target < hi * hi,
        decreases hi - lo,
    {
        let mid: u64 = lo + (hi - lo) / 2;
        assert(mid * mid <= 65536 * 65536) by (nonlinear_arith)
            requires
                mid <= 65536,
        ;
        if mid * mid <= target {
            lo = mid;
        } else {
            hi = mid;
        }
    }
    proof {
        lemma_floor_sqrt_unique(n.0 as nat, lo as nat);
    }
    CalcNumber(lo as u32)
}

/// Squaring the base halves the exponent; an odd exponent leaves one factor over.
proof fn lemma_pow_halve(b: int, e: nat)
    ensures
        e % 2 == 0 ==> pow(b, e) == pow(b * b, e / 2),
        e % 2 == 1 ==> pow(b, e) == b * pow(b * b, e / 2),
{
    let h = e / 2;
    assert(pow(b, 2) == b * b) by {
        reveal_with_fuel(pow, 3);
        assert(b * (b * 1) == b * b) by (nonlinear_arith);
    }
    lemma_pow_multiplies(b, 2, h);
    assert(2 * h == h * 2);
    if e % 2 == 1 {
        assert(e == 2 * h + 1);
        reveal_with_fuel(pow, 1);
        assert(pow(b, e) == b * pow(b, (e - 1) as nat));
    } else {
        assert(e == 2 * h);
    }
}

/// `base` to the power `exp`, reduced modulo 2^32.
pub fn wrapping_pow(base: CalcNumber, exp: CalcNumber) -> (r: CalcNumber)
    ensures
        r == wrap(pow(base.0 as int, exp.0 as nat)),
{
    let mut acc: u32 = 1;
    let mut b: u32 = base.0;
    let mut e: u32 = exp.0;
    proof {
        assert(1 * pow(base.0 as int, exp.0 as nat) == pow(base.0 as int, exp.0 as nat));
    }
    while e > 0
        invariant
            (acc as int * pow(b as int, e as nat)) % 0x1_0000_0000 == pow(
                base.0 as int,
                exp.0 as nat,
            ) % 0x1_0000_0000,
        decreases e,
    {
        let ghost acc0 = acc as int;
        let ghost b0 = b as int;
        let ghost e0 = e as nat;
        if e % 2 == 1 {
            acc = acc.wrapping_mul(b);
        }
        b = b.wrapping_mul(b);
        e = e / 2;
        proof {
            let m: int = 0x1_0000_0000;
            let rest = pow(b0 * b0, e as nat);
            lemma_pow_halve(b0, e0);
            lemma_pow_mod_noop(b0 * b0, e as nat, m);
            assert(b as int == (b0 * b0) % m) by (nonlinear_arith)
                requires
                    b as int == ((b0 as nat) * (b0 as nat)) % (m as nat),
                    b0 >= 0,
                    m > 0,
            ;
            // pow(b, e) % m == rest % m
            lemma_mul_mod_noop_general(acc as int, pow(b as int, e as nat), m);
            lemma_mul_mod_noop_general(acc as int, rest, m);
            if e0 % 2 == 1 {
                assert(acc as int == (acc0 * b0) % m) by (nonlinear_arith)
                    requires
                        acc as int == ((acc0 as nat) * (b0 as nat)) % (m as nat),
                        acc0 >= 0,
                        b0 >= 0,
                        m > 0,
                ;
                lemma_mul_mod_noop_general(acc0 * b0, rest, m);
                assert(acc0 * (b0 * rest) == (acc0 * b0) * rest) by (nonlinear_arith);
            }
        }
    }
    proof {
        reveal_with_fuel(pow, 1);
        lemma_small_mod(acc as nat, 0x1_0000_0000);
        assert(acc as int * 1 == acc as int);
    }
    CalcNumber(acc)
}

} // verus!
