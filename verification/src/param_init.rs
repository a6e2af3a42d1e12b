//! Standalone parameter bootstrap: a fixed small test group, a bounded
//! random search for a group that passes the subgroup-order test (with an
//! extra base-10 primality check on each candidate), and the test itself.

use vstd::prelude::*;
use crate::codec::{dec_string_of, is_dec_string, lemma_dec_round_trip};
use crate::cp_params::{
    generate_prime_be, is_cyclic_group_of_prime_order, lemma_generated_prime_large,
    subgroup_test_spec, ParamGenError, MAX_GENERATION_ATTEMPTS,
};
use crate::scalar::Scalar;

verus! {

/// The bit length of the primes this bootstrap draws.
pub const BOOTSTRAP_PRIME_BITS: u32 = 128;

/// Group parameters as the bootstrap utility hands them out.
#[derive(Debug)]
pub struct ChaumPedersenParams {
    pub p: Scalar,
    pub q: Scalar,
    pub g: Scalar,
    pub h: Scalar,
}

/// The fixed small test group: `p = 23`, `q = 11`, generators 4 and 9.
pub fn generate_test_params() -> (r: ChaumPedersenParams)
    ensures
        r.p@ == 23,
        r.q@ == 11,
        r.g@ == 4,
        r.h@ == 9,
{
    ChaumPedersenParams {
        p: Scalar::from_u64(23),
        q: Scalar::from_u64(11),
        g: Scalar::from_u64(4),
        h: Scalar::from_u64(9),
    }
}

/// What is_prime::is_prime returns on a base-10 string; the result is a
/// function of the string alone.
pub uninterp spec fn probable_prime_dec(s: Seq<char>) -> bool;

/// Relies on is_prime::is_prime: a Miller-Rabin primality check on a base-10
/// string, deterministic in the string. The crate panics on input that does
/// not parse as a nonnegative integer, so a digit string is required.
#[verifier::external_body]
fn decimal_is_prime(s: &str) -> (r: bool)
    requires
        is_dec_string(s@),
    ensures
        r == probable_prime_dec(s@),
{
    is_prime::is_prime(s)
}

/// Draws random 128-bit probable primes, re-checks each in base-10 form,
/// and keeps the first whose group passes the subgroup-order test; the
/// generators are fixed to the two test witnesses 2 and 3. Gives up with
/// `GenerationExhausted` after `MAX_GENERATION_ATTEMPTS` draws.
pub fn generate_params() -> (r: Result<ChaumPedersenParams, ParamGenError>)
    ensures
        match r {
            Ok(params) => {
                &&& params.p@ > 1 && params.q@ >= 1
                &&& subgroup_test_spec(params.p@)
                &&& probable_prime_dec(dec_string_of(params.p@))
                &&& params.q@ == (params.p@ - 1) / 2
                &&& params.g@ == 2
                &&& params.h@ == 3
            },
            Err(e) => e == ParamGenError::GenerationExhausted,
        },
{
    let mut i: u64 = 0;
    while i < MAX_GENERATION_ATTEMPTS
        invariant
            i <= MAX_GENERATION_ATTEMPTS,
        decreases MAX_GENERATION_ATTEMPTS - i,
    {
        let p = Scalar::from_bytes_be(generate_prime_be(BOOTSTRAP_PRIME_BITS));
        proof {
            lemma_generated_prime_large(BOOTSTRAP_PRIME_BITS, p@);
            lemma_dec_round_trip(p@);
        }
        let p_str = p.to_dec_string();
        if decimal_is_prime(p_str.as_str()) && is_cyclic_group_of_prime_order(&p) {
            let one = Scalar::from_u64(1);
            let q = p.sub(&one).half();
            return Ok(ChaumPedersenParams { p, q, g: Scalar::from_u64(2), h: Scalar::from_u64(3) });
        }
        i = i + 1;
    }
    Err(ParamGenError::GenerationExhausted)
}

/// Decides whether the group modulo `p` passes the subgroup-order test:
/// `2^q = 1 (mod p)` and `3^q = 1 (mod p)` for `q = (p - 1) / 2`.
pub fn check_if_group_prime_order(p: &Scalar) -> (r: bool)
    ensures
        r == subgroup_test_spec(p@),
{
    is_cyclic_group_of_prime_order(p)
}

} // verus!
