//! Verified modular arithmetic: multiplication and exponentiation modulo a
//! nonzero modulus, stated against `vstd::arithmetic::power::pow`.

use vstd::prelude::*;
use vstd::arithmetic::power::{pow, lemma_pow_adds, lemma_pow_multiplies, lemma_pow_mod_noop, lemma_pow1};
use vstd::arithmetic::div_mod::{
    lemma_mod_multiples_vanish, lemma_mod_twice, lemma_mul_mod_noop_general,
    lemma_mul_mod_noop_left, lemma_small_mod,
};
use vstd::calc;

verus! {

/// `pow(b, e) % m`, the canonical residue of `b^e`.
pub open spec fn pow_mod(b: int, e: nat, m: int) -> int {
    pow(b, e) % m
}

/// Product modulo `m`, computed without overflow through 128-bit arithmetic.
pub fn mul_mod(a: u64, b: u64, m: u64) -> (r: u64)
    requires
        m >= 1,
    ensures
        r == (a as int * b as int) % (m as int),
        r < m,
{
    let aw: u128 = a as u128;
    let bw: u128 = b as u128;
    proof {
        assert(aw as int * bw as int <= u128::MAX) by (nonlinear_arith)
            requires aw <= u64::MAX, bw <= u64::MAX;
    }
    let wide: u128 = (aw * bw) % (m as u128);
    proof {
        assert(0 <= (a as int) * (b as int) % (m as int) < m as int) by (nonlinear_arith)
            requires m >= 1, (a as int) * (b as int) >= 0;
    }
    wide as u64
}

/// Square-and-multiply modular exponentiation: `b^e mod m`.
pub fn mod_exp(b: u64, e: u64, m: u64) -> (r: u64)
    requires
        m >= 1,
    ensures
        r == pow_mod(b as int, e as nat, m as int),
        r < m,
{
    let mut base: u64 = b % m;
    let mut exp: u64 = e;
    let mut acc: u64 = 1 % m;
    proof {
        lemma_pow_mod_noop(b as int, e as nat, m as int);
        lemma_mul_mod_noop_left(1, pow(base as int, exp as nat), m as int);
    }
    while exp > 0
        invariant
            m >= 1,
            base < m,
            acc < m,
            (acc * pow(base as int, exp as nat)) % (m as int) == pow(b as int, e as nat) % (m as int),
        decreases exp,
    {
        proof {
            lemma_exp_step(acc as int, base as int, exp as nat, m as int);
        }
        if exp % 2 == 1 {
            acc = mul_mod(acc, base, m);
        }
        base = mul_mod(base, base, m);
        exp = exp / 2;
    }
    proof {
        assert(pow(base as int, 0) == 1) by {
            vstd::arithmetic::power::lemma_pow0(base as int);
        }
        assert((acc as int * 1) % (m as int) == acc as int % (m as int));
        lemma_small_mod(acc as nat, m as nat);
    }
    acc
}

/// One step of square-and-multiply: splitting the exponent into its low bit
/// and its halved remainder preserves the running product modulo `m`.
proof fn lemma_exp_step(acc: int, base: int, exp: nat, m: int)
    requires
        m >= 1,
        exp > 0,
        acc >= 0,
        base >= 0,
    ensures
        exp % 2 == 1 ==> (((acc * base) % m) * pow((base * base) % m, (exp / 2) as nat)) % m
            == (acc * pow(base, exp)) % m,
        exp % 2 == 0 ==> (acc * pow((base * base) % m, (exp / 2) as nat)) % m
            == (acc * pow(base, exp)) % m,
{
    let half = (exp / 2) as nat;
    lemma_pow_multiplies(base, 2, half);
    assert(pow(base, 2) == base * base) by {
        lemma_pow1(base);
        lemma_pow_adds(base, 1, 1);
    }
    lemma_pow_mod_noop(base * base, half, m);
    assert(pow((base * base) % m, half) % m == pow(base * base, half) % m);
    assert(pow(base * base, half) == pow(base, 2 * half));
    if exp % 2 == 1 {
        assert(exp == 2 * half + 1);
        assert(pow(base, exp) == base * pow(base, 2 * half)) by {
            lemma_pow_adds(base, 1, 2 * half);
            lemma_pow1(base);
        }
        calc! {
            (==)
            (((acc * base) % m) * pow((base * base) % m, half)) % m; {
                lemma_mul_mod_noop_general(acc * base, pow((base * base) % m, half), m);
            }
            ((acc * base) * (pow((base * base) % m, half) % m)) % m; {}
            ((acc * base) * (pow(base, 2 * half) % m)) % m; {
                lemma_mul_mod_noop_general(acc * base, pow(base, 2 * half), m);
            }
            ((acc * base) * pow(base, 2 * half)) % m; {
                assert((acc * base) * pow(base, 2 * half) == acc * (base * pow(base, 2 * half)))
                    by (nonlinear_arith);
            }
            (acc * pow(base, exp)) % m;
        }
    } else {
        assert(exp == 2 * half);
        calc! {
            (==)
            (acc * pow((base * base) % m, half)) % m; {
                lemma_mul_mod_noop_general(acc, pow((base * base) % m, half), m);
            }
            (acc * (pow(base * base, half) % m)) % m; {}
            (acc * (pow(base, 2 * half) % m)) % m; {
                lemma_mul_mod_noop_general(acc, pow(base, 2 * half), m);
            }
            (acc * pow(base, exp)) % m;
        }
    }
}

/// A witness whose `q`-th power is 1 modulo `p` has 1 as every multiple
/// of `q` in the exponent: `g^(m*q) = 1 (mod p)`.
pub proof fn lemma_pow_multiple_cycle(g: int, q: nat, p: int, m: nat)
    requires
        g >= 0,
        p > 1,
        pow(g, q) % p == 1,
    ensures
        pow(g, m * q) % p == 1,
    decreases m,
{
    if m == 0 {
        vstd::arithmetic::power::lemma_pow0(g);
        lemma_small_mod(1, p as nat);
    } else {
        let prev = ((m - 1) as nat) * q;
        lemma_pow_multiple_cycle(g, q, p, (m - 1) as nat);
        assert(m * q == prev + q) by (nonlinear_arith)
            requires m >= 1, prev == ((m - 1) as nat) * q;
        lemma_pow_adds(g, prev, q);
        lemma_mul_mod_noop_general(pow(g, prev), pow(g, q), p);
        assert((1 as int * 1 as int) % p == 1) by {
            lemma_small_mod(1, p as nat);
        }
    }
}

/// Exponents may be reduced modulo `q`: `g^a = g^(a % q) (mod p)` whenever
/// `g^q = 1 (mod p)`.
pub proof fn lemma_pow_mod_exponent(g: int, a: nat, q: nat, p: int)
    requires
        g >= 0,
        q >= 1,
        p > 1,
        pow(g, q) % p == 1,
    ensures
        pow(g, a) % p == pow(g, ((a as int) % (q as int)) as nat) % p,
{
    let d = a / q;
    let r = a % q;
    vstd::arithmetic::div_mod::lemma_fundamental_div_mod(a as int, q as int);
    assert(a == d * q + r);
    lemma_pow_adds(g, d * q, r);
    lemma_pow_multiple_cycle(g, q, p, d);
    lemma_mul_mod_noop_general(pow(g, d * q), pow(g, r), p);
    assert((1 * (pow(g, r) % p)) % p == pow(g, r) % p) by {
        lemma_mod_twice(pow(g, r), p);
    }
    assert((a as int) % (q as int) == r as int);
}

/// A witness of exact order `q` separates exponents below `q`: equal powers
/// force equal exponents. From `g^a = g^b (mod p)` with `a > b`, multiplying
/// both sides by `g^((q-1)b)` gives `g^(a-b) = g^(qb) = 1 (mod p)` with
/// `0 < a - b < q`, against the minimality of the order.
pub proof fn lemma_pow_injective_below_order(g: int, p: int, q: nat, a: nat, b: nat)
    requires
        g >= 0,
        p > 1,
        q >= 1,
        pow(g, q) % p == 1,
        forall|e: nat| 0 < e < q ==> pow(g, e) % p != 1,
        a < q,
        b < q,
        pow(g, a) % p == pow(g, b) % p,
    ensures
        a == b,
{
    if a != b {
        let hi: nat = if a > b { a } else { b };
        let lo: nat = if a > b { b } else { a };
        let m: nat = ((q - 1) as nat) * lo;
        lemma_mul_mod_noop_left(pow(g, hi), pow(g, m), p);
        lemma_mul_mod_noop_left(pow(g, lo), pow(g, m), p);
        assert((pow(g, hi) * pow(g, m)) % p == (pow(g, lo) * pow(g, m)) % p);
        lemma_pow_adds(g, hi, m);
        lemma_pow_adds(g, lo, m);
        assert(lo + m == lo * q) by (nonlinear_arith)
            requires q >= 1, m == ((q - 1) as nat) * lo;
        lemma_pow_multiple_cycle(g, q, p, lo);
        assert(pow(g, (hi + m) as nat) % p == 1);
        lemma_pow_mod_exponent(g, (hi + m) as nat, q, p);
        assert((hi + m) as int == q * lo + (hi - lo)) by (nonlinear_arith)
            requires q >= 1, m == ((q - 1) as nat) * lo;
        lemma_mod_multiples_vanish(lo as int, hi - lo, q as int);
        lemma_small_mod((hi - lo) as nat, q);
        assert(pow(g, (hi - lo) as nat) % p == 1);
        assert(0 < hi - lo < q);
        assert(false);
    }
}

/// Congruent exponents give congruent powers: if `a = b (mod q)` and
/// `g^q = 1 (mod p)` then `g^a = g^b (mod p)`.
pub proof fn lemma_pow_congruent_exponents(g: int, a: nat, b: nat, q: nat, p: int)
    requires
        g >= 0,
        q >= 1,
        p > 1,
        pow(g, q) % p == 1,
        (a as int) % (q as int) == (b as int) % (q as int),
    ensures
        pow(g, a) % p == pow(g, b) % p,
{
    lemma_pow_mod_exponent(g, a, q, p);
    lemma_pow_mod_exponent(g, b, q, p);
}

} // verus!
