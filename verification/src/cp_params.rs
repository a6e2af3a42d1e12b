//! Chaum-Pedersen group parameters `(p, q, g, h)` and the prover/verifier
//! arithmetic over them: commitments `g^e mod p`, the response
//! `s = (k - c * x) mod q`, the acceptance test, the subgroup-order test,
//! and the offline parameter generator. Scalars are arbitrary-precision.

use vstd::prelude::*;
use vstd::arithmetic::power::{
    pow, lemma_pow1, lemma_pow_adds, lemma_pow_increases, lemma_pow_mod_noop, lemma_pow_multiplies,
};
use vstd::arithmetic::div_mod::{
    lemma_add_mod_noop, lemma_fundamental_div_mod, lemma_fundamental_div_mod_converse_mod,
    lemma_mod_bound, lemma_mod_equivalence, lemma_mod_twice, lemma_mul_mod_noop_general,
    lemma_small_mod,
};
use vstd::calc;
use vstd::string::StringExecFns;
use crypto_bigint::Encoding;
use crate::arith::{
    lemma_pow_congruent_exponents, lemma_pow_injective_below_order, lemma_pow_mod_exponent,
};
use crate::codec::{be_bytes_value, dec_string_of, dec_value, is_dec_string};
use crate::scalar::Scalar;

verus! {

/// The `KEY=value` rendering of parameters for the environment file, one
/// line per scalar, each terminated by a newline.
pub open spec fn env_file_spec(params: ChaumPedersenParams) -> Seq<char> {
    "CP_P="@ + dec_string_of(params.p@) + "\n"@ + "CP_Q="@ + dec_string_of(params.q@) + "\n"@
        + "CP_G="@ + dec_string_of(params.g@) + "\n"@ + "CP_H="@ + dec_string_of(params.h@) + "\n"@
}

/// Bound on retries of the random prime search before the generator gives up.
pub const MAX_GENERATION_ATTEMPTS: u64 = 50;

/// The bit length of the primes the offline generator draws.
pub const GENERATED_PRIME_BITS: u32 = 1024;

/// The error of the offline parameter generator: no candidate prime with the
/// subgroup property was found within `MAX_GENERATION_ATTEMPTS` draws.
#[derive(Clone, Copy, PartialEq, Eq, Structural, Debug)]
pub enum ParamGenError {
    GenerationExhausted,
}

/// Immutable group parameters. `p` is the modulus, `q = (p - 1) / 2` the
/// order of the subgroup, and `g`, `h` the two generators.
#[derive(Debug)]
pub struct ChaumPedersenParams {
    pub p: Scalar,
    pub q: Scalar,
    pub g: Scalar,
    pub h: Scalar,
}

impl ChaumPedersenParams {
    /// The minimum the arithmetic itself needs: a modulus above 1 and a
    /// nonzero subgroup order.
    pub open spec fn wf_spec(self) -> bool {
        self.p@ > 1 && self.q@ >= 1
    }

    /// The group property the protocol's guarantees rest on: both generators
    /// lie in the subgroup of order `q`, and neither is trivial.
    pub open spec fn valid_group_spec(self) -> bool {
        &&& self.wf_spec()
        &&& pow(self.g@ as int, self.q@) % (self.p@ as int) == 1
        &&& pow(self.h@ as int, self.q@) % (self.p@ as int) == 1
        &&& self.g@ > 1
        &&& self.h@ > 1
    }

    /// `b^e mod p`.
    pub open spec fn commitment_spec(self, b: nat, e: nat) -> int {
        pow(b as int, e) % (self.p@ as int)
    }

    /// The canonical residue `(k - c * x) mod q`, in `[0, q)`.
    pub open spec fn response_spec(self, k: nat, c: nat, x: nat) -> int {
        (k - c * x) % (self.q@ as int)
    }

    /// The verifier's acceptance test: both commitments are reproduced by
    /// `g^s * y1^c` and `h^s * y2^c` modulo `p`.
    pub open spec fn accepts_spec(self, y1: int, y2: int, r1: int, r2: int, c: nat, s: nat) -> bool {
        &&& r1 == (pow(self.g@ as int, s) * pow(y1, c)) % (self.p@ as int)
        &&& r2 == (pow(self.h@ as int, s) * pow(y2, c)) % (self.p@ as int)
    }

    /// Construct parameters from the four scalars.
    pub fn new(p: Scalar, q: Scalar, g: Scalar, h: Scalar) -> (r: Self)
        ensures
            r.p == p,
            r.q == q,
            r.g == g,
            r.h == h,
    {
        ChaumPedersenParams { p, q, g, h }
    }

    /// A copy with the same values.
    pub fn dup(&self) -> (r: Self)
        ensures
            r.p@ == self.p@,
            r.q@ == self.q@,
            r.g@ == self.g@,
            r.h@ == self.h@,
    {
        ChaumPedersenParams {
            p: self.p.dup(),
            q: self.q.dup(),
            g: self.g.dup(),
            h: self.h.dup(),
        }
    }

    /// Construct parameters from four base-10 strings of any length, as
    /// read from the `CP_P`, `CP_Q`, `CP_G` and `CP_H` configuration
    /// variables. `None` exactly when one of them is not a digit string.
    pub fn new_from_strings(p: &str, q: &str, g: &str, h: &str) -> (r: Option<ChaumPedersenParams>)
        ensures
            match r {
                Some(params) => {
                    &&& is_dec_string(p@) && params.p@ == dec_value(p@)
                    &&& is_dec_string(q@) && params.q@ == dec_value(q@)
                    &&& is_dec_string(g@) && params.g@ == dec_value(g@)
                    &&& is_dec_string(h@) && params.h@ == dec_value(h@)
                },
                None => {
                    ||| !is_dec_string(p@)
                    ||| !is_dec_string(q@)
                    ||| !is_dec_string(g@)
                    ||| !is_dec_string(h@)
                },
            },
    {
        let pv = match Scalar::from_dec_str(p) {
            Some(v) => v,
            None => {
                return None;
            },
        };
        let qv = match Scalar::from_dec_str(q) {
            Some(v) => v,
            None => {
                return None;
            },
        };
        let gv = match Scalar::from_dec_str(g) {
            Some(v) => v,
            None => {
                return None;
            },
        };
        let hv = match Scalar::from_dec_str(h) {
            Some(v) => v,
            None => {
                return None;
            },
        };
        Some(ChaumPedersenParams::new(pv, qv, gv, hv))
    }

    /// Render the parameters as the `KEY=value` environment-file text.
    pub fn to_env_string(&self) -> (r: String)
        ensures
            r@ =~= env_file_spec(*self),
    {
        let mut out = String::new();
        out.append("CP_P=");
        let p_str = self.p.to_dec_string();
        out.append(p_str.as_str());
        out.append("\n");
        out.append("CP_Q=");
        let q_str = self.q.to_dec_string();
        out.append(q_str.as_str());
        out.append("\n");
        out.append("CP_G=");
        let g_str = self.g.to_dec_string();
        out.append(g_str.as_str());
        out.append("\n");
        out.append("CP_H=");
        let h_str = self.h.to_dec_string();
        out.append(h_str.as_str());
        out.append("\n");
        out
    }

    /// The prover's public pair `(y1, y2) = (g^x mod p, h^x mod p)`.
    pub fn y1_y2(&self, x: &Scalar) -> (r: (Scalar, Scalar))
        requires
            self.wf_spec(),
        ensures
            r.0@ as int == self.commitment_spec(self.g@, x@),
            r.1@ as int == self.commitment_spec(self.h@, x@),
            r.0@ < self.p@,
            r.1@ < self.p@,
    {
        let y1 = self.g.modpow(x, &self.p);
        let y2 = self.h.modpow(x, &self.p);
        (y1, y2)
    }

    /// The prover's commitment pair `(r1, r2) = (g^k mod p, h^k mod p)`.
    pub fn r1_r2(&self, k: &Scalar) -> (r: (Scalar, Scalar))
        requires
            self.wf_spec(),
        ensures
            r.0@ as int == self.commitment_spec(self.g@, k@),
            r.1@ as int == self.commitment_spec(self.h@, k@),
            r.0@ < self.p@,
            r.1@ < self.p@,
    {
        let r1 = self.g.modpow(k, &self.p);
        let r2 = self.h.modpow(k, &self.p);
        (r1, r2)
    }

    /// The prover's response `s = (k - c * x) mod q`, always the canonical
    /// nonnegative residue.
    pub fn s(&self, k: &Scalar, c: &Scalar, x: &Scalar) -> (r: Scalar)
        requires
            self.q@ >= 1,
        ensures
            r@ as int == self.response_spec(k@, c@, x@),
            r@ < self.q@,
    {
        let cx = c.mul(x);
        if cx.lt(k) {
            k.sub(&cx).rem(&self.q)
        } else {
            let d = cx.sub(k).rem(&self.q);
            proof {
                lemma_negative_mod(cx@ as int - k@ as int, self.q@ as int);
            }
            if d.is_zero() {
                Scalar::from_u64(0)
            } else {
                self.q.sub(&d)
            }
        }
    }

    /// The verifier's decision. Both commitment pairs are recomputed and
    /// compared before the result is formed, so the comparison does not
    /// short-circuit on the first mismatch.
    pub fn verify_commitments(
        &self,
        y1: &Scalar,
        y2: &Scalar,
        r1: &Scalar,
        r2: &Scalar,
        c: &Scalar,
        s: &Scalar,
    ) -> (b: bool)
        requires
            self.wf_spec(),
        ensures
            b == self.accepts_spec(y1@ as int, y2@ as int, r1@ as int, r2@ as int, c@, s@),
    {
        let gs = self.g.modpow(s, &self.p);
        let y1c = y1.modpow(c, &self.p);
        let r1_prime = gs.mul(&y1c).rem(&self.p);
        let hs = self.h.modpow(s, &self.p);
        let y2c = y2.modpow(c, &self.p);
        let r2_prime = hs.mul(&y2c).rem(&self.p);
        proof {
            lemma_mul_mod_noop_general(pow(self.g@ as int, s@), pow(y1@ as int, c@), self.p@ as int);
            lemma_mul_mod_noop_general(pow(self.h@ as int, s@), pow(y2@ as int, c@), self.p@ as int);
        }
        let ok1 = r1.eq(&r1_prime);
        let ok2 = r2.eq(&r2_prime);
        ok1 && ok2
    }
}

/// The canonical residue of a nonpositive dividend `-d` is `0` when `q`
/// divides `d`, and `q - d % q` otherwise.
proof fn lemma_negative_mod(d: int, q: int)
    requires
        d >= 0,
        q >= 1,
    ensures
        d % q == 0 ==> (-d) % q == 0,
        d % q != 0 ==> (-d) % q == q - d % q,
{
    let t = d / q;
    let r = d % q;
    lemma_fundamental_div_mod(d, q);
    lemma_mod_bound(d, q);
    if r == 0 {
        assert(-d == (-t) * q + 0) by (nonlinear_arith)
            requires d == q * t + 0;
        lemma_fundamental_div_mod_converse_mod(-d, q, -t, 0);
    } else {
        assert(-d == (-t - 1) * q + (q - r)) by (nonlinear_arith)
            requires d == q * t + r;
        lemma_fundamental_div_mod_converse_mod(-d, q, -t - 1, q - r);
    }
}

/// The subgroup-order test on `p` with the two fixed witnesses 2 and 3:
/// both must have order dividing `q = (p - 1) / 2` modulo `p`.
pub open spec fn subgroup_test_spec(p: nat) -> bool {
    &&& p >= 1
    &&& pow(2, (((p - 1) as int) / 2) as nat) % (p as int) == 1
    &&& pow(3, (((p - 1) as int) / 2) as nat) % (p as int) == 1
}

/// Decides whether the group modulo `p` passes the subgroup-order test:
/// `2^q = 1 (mod p)` and `3^q = 1 (mod p)` for `q = (p - 1) / 2`.
pub fn is_cyclic_group_of_prime_order(p: &Scalar) -> (r: bool)
    ensures
        r == subgroup_test_spec(p@),
{
    if p.is_zero() {
        return false;
    }
    let one = Scalar::from_u64(1);
    let q = p.sub(&one).half();
    let two = Scalar::from_u64(2).modpow(&q, p);
    let three = Scalar::from_u64(3).modpow(&q, p);
    let ok_two = two.eq(&one);
    let ok_three = three.eq(&one);
    ok_two && ok_three
}

/// Relies on crypto_primes::generate_prime (with crypto_bigint::U1024): a
/// random probable prime of the given bit length with its top bit set,
/// returned as big-endian bytes.
#[verifier::external_body]
pub(crate) fn generate_prime_be(bits: u32) -> (r: Vec<u8>)
    requires
        2 <= bits <= 1024,
    ensures
        pow(2, (bits - 1) as nat) <= be_bytes_value(r@) as int,
        (be_bytes_value(r@) as int) < pow(2, bits as nat),
{
    let p: crypto_bigint::U1024 = crypto_primes::generate_prime(bits);
    p.to_be_bytes().to_vec()
}

/// A prime of at least 3 bits is at least 4.
pub(crate) proof fn lemma_generated_prime_large(bits: u32, v: nat)
    requires
        3 <= bits <= 1024,
        pow(2, (bits - 1) as nat) <= v as int,
    ensures
        v >= 4,
{
    lemma_pow1(2);
    lemma_pow_adds(2, 1, 1);
    assert(pow(2, 2) == 4);
    lemma_pow_increases(2, 2, (bits - 1) as nat);
}

/// Draws random 1024-bit probable primes until one passes the
/// subgroup-order test, then fixes the generators `g = 5`, `h = 7`. Gives
/// up with `GenerationExhausted` after `MAX_GENERATION_ATTEMPTS` draws.
///
/// The fixed small generators are a deliberate simplification kept from the
/// protocol's reference setup; they are not checked to lie in the subgroup.
pub fn generate_params() -> (r: Result<ChaumPedersenParams, ParamGenError>)
    ensures
        match r {
            Ok(params) => {
                &&& params.wf_spec()
                &&& subgroup_test_spec(params.p@)
                &&& params.q@ == (params.p@ - 1) / 2
                &&& params.g@ == 5
                &&& params.h@ == 7
            },
            Err(e) => e == ParamGenError::GenerationExhausted,
        },
{
    let mut i: u64 = 0;
    while i < MAX_GENERATION_ATTEMPTS
        invariant
            i <= MAX_GENERATION_ATTEMPTS,
        decreases MAX_GENERATION_ATTEMPTS - i,
    {
        let p = Scalar::from_bytes_be(generate_prime_be(GENERATED_PRIME_BITS));
        proof {
            lemma_generated_prime_large(GENERATED_PRIME_BITS, p@);
        }
        if is_cyclic_group_of_prime_order(&p) {
            let one = Scalar::from_u64(1);
            let q = p.sub(&one).half();
            return Ok(ChaumPedersenParams::new(p, q, Scalar::from_u64(5), Scalar::from_u64(7)));
        }
        i = i + 1;
    }
    Err(ParamGenError::GenerationExhausted)
}

/// Response canonicalization: the response is always the canonical
/// nonnegative residue, `0 <= s(k, c, x) < q`.
pub proof fn lemma_response_canonical(params: ChaumPedersenParams, k: nat, c: nat, x: nat)
    requires
        params.q@ >= 1,
    ensures
        0 <= params.response_spec(k, c, x) < params.q@,
{
    lemma_mod_bound(k - c * x, params.q@ as int);
}

/// The subgroup test characterized: for `p >= 1` it holds exactly when both
/// witnesses 2 and 3 satisfy `w^q = 1 (mod p)` with `q = (p - 1) / 2`.
pub proof fn lemma_subgroup_test_characterization(p: nat, q: nat)
    requires
        p >= 1,
        q == (p - 1) / 2,
    ensures
        subgroup_test_spec(p) <==> (pow(2, q) % (p as int) == 1 && pow(3, q) % (p as int) == 1),
{
}

/// Soundness round-trip: an honest prover is always accepted. For a valid
/// group and any secret `x`, nonce `k` and challenge `c` in `[0, q)`, the
/// response `s = (k - c * x) mod q` reproduces both commitments:
/// `g^s * y1^c = r1 (mod p)` and `h^s * y2^c = r2 (mod p)`.
pub proof fn lemma_soundness_round_trip(params: ChaumPedersenParams, x: nat, k: nat, c: nat)
    requires
        params.valid_group_spec(),
        x < params.q@,
        k < params.q@,
        c < params.q@,
    ensures
        params.accepts_spec(
            params.commitment_spec(params.g@, x),
            params.commitment_spec(params.h@, x),
            params.commitment_spec(params.g@, k),
            params.commitment_spec(params.h@, k),
            c,
            params.response_spec(k, c, x) as nat,
        ),
{
    let q = params.q@ as int;
    let s_int = params.response_spec(k, c, x);
    lemma_mod_bound(k - c * x, q);
    let s = s_int as nat;
    lemma_response_congruence(k, c, x, params.q@);
    lemma_one_side_round_trip(params.g@, params.p@, params.q@, x, k, c, s);
    lemma_one_side_round_trip(params.h@, params.p@, params.q@, x, k, c, s);
}

/// Wrong-secret rejection, the deterministic core: when the generator `h`
/// has exact order `q` and the challenge separates the two secrets
/// (`c * x` and `c * x'` differ modulo `q`), the response computed from the
/// wrong secret `x'` is rejected. In a prime-order subgroup with `h` a
/// generator, the challenges that fail to separate distinct secrets are
/// exactly the multiples of `q`, so a uniformly drawn `c < q` rejects in
/// all cases but `c = 0`.
pub proof fn lemma_wrong_secret_rejected(params: ChaumPedersenParams, x: nat, xp: nat, k: nat, c: nat)
    requires
        params.valid_group_spec(),
        forall|e: nat| 0 < e < params.q@ ==> pow(params.h@ as int, e) % (params.p@ as int) != 1,
        x < params.q@,
        xp < params.q@,
        k < params.q@,
        c < params.q@,
        (c * x) as int % (params.q@ as int) != (c * xp) as int % (params.q@ as int),
    ensures
        !params.accepts_spec(
            params.commitment_spec(params.g@, x),
            params.commitment_spec(params.h@, x),
            params.commitment_spec(params.g@, k),
            params.commitment_spec(params.h@, k),
            c,
            params.response_spec(k, c, xp) as nat,
        ),
{
    let p = params.p@;
    let q = params.q@;
    let h = params.h@;
    let hi = params.h@ as int;
    let qi = q as int;
    let s_int = params.response_spec(k, c, xp);
    lemma_mod_bound(k - c * xp, qi);
    let s = s_int as nat;
    if params.accepts_spec(
        params.commitment_spec(params.g@, x),
        params.commitment_spec(h, x),
        params.commitment_spec(params.g@, k),
        params.commitment_spec(h, k),
        c,
        s,
    ) {
        // The accepted second clause, rewritten as a single power of h.
        lemma_commitment_product(h, p, x, c, s);
        assert(pow(hi, (s + x * c) as nat) % (p as int) == pow(hi, k) % (p as int));
        // Reduce both exponents modulo q and cancel by injectivity.
        lemma_pow_mod_exponent(hi, (s + x * c) as nat, q, p as int);
        lemma_pow_mod_exponent(hi, k, q, p as int);
        lemma_mod_bound((s + x * c) as int, qi);
        lemma_small_mod(k, q);
        lemma_pow_injective_below_order(
            hi,
            p as int,
            q,
            ((s + x * c) as int % qi) as nat,
            k,
        );
        assert((s + x * c) as int % qi == k as int % qi);
        // The response's own congruence: s + c * x' = k (mod q).
        lemma_response_congruence(k, c, xp, q);
        assert((s + c * xp) as int % qi == k as int % qi);
        // So s + c*x and s + c*x' agree modulo q; cancel s.
        assert(x * c == c * x) by (nonlinear_arith);
        lemma_mod_equivalence((s + c * x) as int, (s + c * xp) as int, qi);
        assert(((s + c * x) - (s + c * xp)) % qi == 0);
        assert((c * x) as int - (c * xp) as int == ((s + c * x) - (s + c * xp))) by (nonlinear_arith);
        lemma_mod_equivalence((c * x) as int, (c * xp) as int, qi);
        assert(false);
    }
}

/// The verifier's recomputed commitment as a single power: for any `s`,
/// `g^s * (g^x mod p)^c = g^(s + x*c) (mod p)`.
proof fn lemma_commitment_product(g: nat, p: nat, x: nat, c: nat, s: nat)
    requires
        p > 1,
    ensures
        (pow(g as int, s) * pow(pow(g as int, x) % (p as int), c)) % (p as int)
            == pow(g as int, (s + x * c) as nat) % (p as int),
{
    let gi = g as int;
    let pi = p as int;
    calc! {
        (==)
        (pow(gi, s) * pow(pow(gi, x) % pi, c)) % pi; {
            lemma_pow_mod_noop(pow(gi, x), c, pi);
            lemma_mul_mod_noop_general(pow(gi, s), pow(pow(gi, x) % pi, c), pi);
            lemma_mul_mod_noop_general(pow(gi, s), pow(pow(gi, x), c), pi);
            assert((pow(gi, s) * (pow(pow(gi, x) % pi, c) % pi)) % pi
                == (pow(gi, s) * (pow(pow(gi, x), c) % pi)) % pi);
        }
        (pow(gi, s) * pow(pow(gi, x), c)) % pi; {
            lemma_pow_multiplies(gi, x, c);
        }
        (pow(gi, s) * pow(gi, x * c)) % pi; {
            lemma_pow_adds(gi, s, x * c);
        }
        pow(gi, (s + x * c) as nat) % pi;
    }
}

/// One generator's half of the round-trip: if `g^q = 1 (mod p)` and
/// `s + c * x = k (mod q)`, then `g^s * (g^x mod p)^c = g^k (mod p)`.
proof fn lemma_one_side_round_trip(g: nat, p: nat, q: nat, x: nat, k: nat, c: nat, s: nat)
    requires
        p > 1,
        q >= 1,
        pow(g as int, q) % (p as int) == 1,
        ((s + c * x) as int % (q as int)) == (k as int) % (q as int),
    ensures
        (pow(g as int, s) * pow(pow(g as int, x) % (p as int), c)) % (p as int)
            == pow(g as int, k) % (p as int),
{
    let gi = g as int;
    lemma_commitment_product(g, p, x, c, s);
    assert(x * c == c * x) by (nonlinear_arith);
    lemma_pow_congruent_exponents(gi, (s + x * c) as nat, k, q, p as int);
}

/// The response's defining congruence: `s + c * x = k (mod q)`.
proof fn lemma_response_congruence(k: nat, c: nat, x: nat, q: nat)
    requires
        q >= 1,
        k < q,
    ensures
        0 <= (k - c * x) % (q as int) < q,
        ((((k - c * x) % (q as int)) + c * x) % (q as int)) == (k as int) % (q as int),
        (k as int) % (q as int) == k,
{
    let qi = q as int;
    let ki = k as int;
    let cx = (c * x) as int;
    lemma_mod_bound(ki - cx, qi);
    lemma_small_mod(k, q);
    let s = (ki - cx) % qi;
    calc! {
        (==)
        (s + cx) % qi; {
            lemma_add_mod_noop(s, cx, qi);
            lemma_mod_twice(ki - cx, qi);
            lemma_add_mod_noop(ki - cx, cx, qi);
        }
        ((ki - cx) + cx) % qi; {}
        ki % qi;
    }
}

} // verus!
