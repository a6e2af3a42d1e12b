//! Arbitrary-precision nonnegative scalars, held as big-endian bytes and
//! valued by `codec::be_bytes_value`. The arithmetic the protocol needs
//! (modular exponentiation, products, differences, residues, comparison)
//! is delegated to num_bigint behind exact plain-value contracts; all
//! composition above it is verified.

use vstd::prelude::*;
use vstd::string::StrSliceExecFns;
use num_bigint::BigUint;
use std::str::FromStr;
use crate::codec::{
    be_bytes_value, dec_string_of, dec_value, is_dec_string, lemma_be_bytes_round_trip,
    scalar_to_bytes_be,
};

verus! {

/// A nonnegative integer of any size. The view is its value; the held byte
/// string may carry leading zeros, which do not affect the value.
#[derive(Debug)]
pub struct Scalar {
    bytes: Vec<u8>,
}

impl View for Scalar {
    type V = nat;

    closed spec fn view(&self) -> nat {
        be_bytes_value(self.bytes@)
    }
}

impl PartialEq for Scalar {
    /// Value equality, decided by two order comparisons.
    fn eq(&self, other: &Scalar) -> (r: bool) {
        let below = lt_be(&self.bytes, &other.bytes);
        let above = lt_be(&other.bytes, &self.bytes);
        !below && !above
    }
}

impl vstd::std_specs::cmp::PartialEqSpecImpl for Scalar {
    open spec fn obeys_eq_spec() -> bool {
        true
    }

    open spec fn eq_spec(&self, other: &Scalar) -> bool {
        self@ == other@
    }
}

/// Relies on num_bigint::BigUint: comparison of big-endian byte strings by
/// their value.
#[verifier::external_body]
fn lt_be(a: &Vec<u8>, b: &Vec<u8>) -> (r: bool)
    ensures
        r == (be_bytes_value(a@) < be_bytes_value(b@)),
{
    BigUint::from_bytes_be(a) < BigUint::from_bytes_be(b)
}

impl Scalar {
    /// The scalar a big-endian byte string denotes; any length is accepted,
    /// the empty string denotes 0, and leading zeros are immaterial.
    pub fn from_bytes_be(bytes: Vec<u8>) -> (r: Scalar)
        ensures
            r@ == be_bytes_value(bytes@),
    {
        Scalar { bytes }
    }

    /// The scalar's big-endian byte string.
    pub fn to_bytes_be(&self) -> (r: Vec<u8>)
        ensures
            be_bytes_value(r@) == self@,
    {
        let r = self.bytes.clone();
        proof {
            assert forall|i: int| 0 <= i < self.bytes@.len() implies r@[i] == self.bytes@[i] by {}
            assert(r@ =~= self.bytes@);
        }
        r
    }

    /// The scalar of a machine word.
    pub fn from_u64(v: u64) -> (r: Scalar)
        ensures
            r@ == v,
    {
        proof {
            lemma_be_bytes_round_trip(v as nat);
        }
        Scalar::from_bytes_be(scalar_to_bytes_be(v))
    }

    /// A copy with the same value.
    pub fn dup(&self) -> (r: Scalar)
        ensures
            r@ == self@,
    {
        Scalar { bytes: self.to_bytes_be() }
    }

    /// Whether the value is zero.
    pub fn is_zero(&self) -> (r: bool)
        ensures
            r == (self@ == 0),
    {
        let z = Scalar::from_u64(0);
        let below = lt_be(&z.bytes, &self.bytes);
        proof {
            assert(z@ == 0);
        }
        !below
    }

    /// Whether this value is below the other.
    pub fn lt(&self, other: &Scalar) -> (r: bool)
        ensures
            r == (self@ < other@),
    {
        lt_be(&self.bytes, &other.bytes)
    }

    /// Relies on num_bigint::BigUint::modpow: `self^e mod m`, which panics
    /// only on a zero modulus and returns the canonical residue.
    #[verifier::external_body]
    pub fn modpow(&self, e: &Scalar, m: &Scalar) -> (r: Scalar)
        requires
            m@ >= 1,
        ensures
            r@ as int == vstd::arithmetic::power::pow(self@ as int, e@) % (m@ as int),
            r@ < m@,
    {
        let base = BigUint::from_bytes_be(&self.bytes);
        let exp = BigUint::from_bytes_be(&e.bytes);
        let modulus = BigUint::from_bytes_be(&m.bytes);
        Scalar { bytes: base.modpow(&exp, &modulus).to_bytes_be() }
    }

    /// Relies on num_bigint::BigUint multiplication.
    #[verifier::external_body]
    pub fn mul(&self, other: &Scalar) -> (r: Scalar)
        ensures
            r@ == self@ * other@,
    {
        let a = BigUint::from_bytes_be(&self.bytes);
        let b = BigUint::from_bytes_be(&other.bytes);
        Scalar { bytes: (a * b).to_bytes_be() }
    }

    /// Relies on num_bigint::BigUint subtraction, which panics on underflow;
    /// the precondition rules that out.
    #[verifier::external_body]
    pub fn sub(&self, other: &Scalar) -> (r: Scalar)
        requires
            other@ <= self@,
        ensures
            r@ == self@ - other@,
    {
        let a = BigUint::from_bytes_be(&self.bytes);
        let b = BigUint::from_bytes_be(&other.bytes);
        Scalar { bytes: (a - b).to_bytes_be() }
    }

    /// Relies on num_bigint::BigUint remainder, which panics on a zero
    /// divisor; the precondition rules that out.
    #[verifier::external_body]
    pub fn rem(&self, m: &Scalar) -> (r: Scalar)
        requires
            m@ >= 1,
        ensures
            r@ as int == self@ as int % (m@ as int),
            r@ < m@,
    {
        let a = BigUint::from_bytes_be(&self.bytes);
        let modulus = BigUint::from_bytes_be(&m.bytes);
        Scalar { bytes: (a % modulus).to_bytes_be() }
    }

    /// Relies on num_bigint::BigUint division by a machine word: the value
    /// halved, rounding down.
    #[verifier::external_body]
    pub fn half(&self) -> (r: Scalar)
        ensures
            r@ == self@ / 2,
    {
        let a = BigUint::from_bytes_be(&self.bytes);
        Scalar { bytes: (a / 2u32).to_bytes_be() }
    }

    /// Relies on num_bigint::BigUint::to_str_radix: the minimal base-10
    /// form, "0" for zero.
    #[verifier::external_body]
    pub fn to_dec_string(&self) -> (r: String)
        ensures
            r@ == dec_string_of(self@),
    {
        BigUint::from_bytes_be(&self.bytes).to_str_radix(10)
    }

    /// Parse a base-10 string of any length; `None` exactly when the string
    /// is empty or holds a non-digit.
    pub fn from_dec_str(s: &str) -> (r: Option<Scalar>)
        ensures
            match r {
                Some(v) => is_dec_string(s@) && v@ == dec_value(s@),
                None => !is_dec_string(s@),
            },
    {
        if check_dec_string(s) {
            Some(parse_dec_trusted(s))
        } else {
            None
        }
    }
}

/// Whether the string is a nonempty run of base-10 digits.
fn check_dec_string(s: &str) -> (r: bool)
    ensures
        r == is_dec_string(s@),
{
    let n = s.unicode_len();
    if n == 0 {
        return false;
    }
    let mut i: usize = 0;
    while i < n
        invariant
            n == s@.len(),
            0 < n,
            i <= n,
            forall|j: int| 0 <= j < i ==> crate::codec::is_dec_digit(s@[j]),
        decreases n - i,
    {
        let code = s.get_char(i) as u32;
        if code < 48 || code > 57 {
            return false;
        }
        i = i + 1;
    }
    true
}

/// Relies on num_bigint::BigUint::from_str: base-10 parsing, which accepts
/// every nonempty digit string; the precondition supplies one.
#[verifier::external_body]
fn parse_dec_trusted(s: &str) -> (r: Scalar)
    requires
        is_dec_string(s@),
    ensures
        r@ == dec_value(s@),
{
    let n = BigUint::from_str(s).expect("a digit string parses");
    Scalar { bytes: n.to_bytes_be() }
}

} // verus!
