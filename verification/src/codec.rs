//! Codecs for scalars: unpadded big-endian byte strings (the wire form)
//! and base-10 strings (the configuration form). Decoders accept any
//! length, including empty input, which denotes zero.

use vstd::prelude::*;
use vstd::string::{StrSliceExecFns, StringExecFns};
use vstd::arithmetic::div_mod::lemma_fundamental_div_mod;

verus! {

/// The scalar a big-endian byte string denotes; the empty string denotes 0.
pub open spec fn be_bytes_value(s: Seq<u8>) -> nat
    decreases s.len(),
{
    if s.len() == 0 {
        0
    } else {
        (be_bytes_value(s.drop_last()) * 256 + s.last()) as nat
    }
}

/// The unpadded big-endian form of a scalar; 0 has the empty form.
pub open spec fn be_bytes_of(v: nat) -> Seq<u8>
    decreases v,
{
    if v == 0 {
        Seq::empty()
    } else {
        be_bytes_of(v / 256).push((v % 256) as u8)
    }
}

/// A longer prefix never denotes a smaller scalar.
proof fn lemma_be_value_take_le(s: Seq<u8>, j: int)
    requires
        0 <= j <= s.len(),
    ensures
        be_bytes_value(s.take(j)) <= be_bytes_value(s),
    decreases s.len() - j,
{
    if j == s.len() {
        assert(s.take(j) =~= s);
    } else {
        assert(s.take(j + 1).drop_last() =~= s.take(j));
        assert(s.take(j + 1).last() == s[j]);
        assert(be_bytes_value(s.take(j + 1)) == be_bytes_value(s.take(j)) * 256 + s[j]);
        lemma_be_value_take_le(s, j + 1);
    }
}

/// Decode an unpadded big-endian byte string; `None` exactly when the
/// denoted scalar does not fit in 64 bits.
pub fn scalar_from_bytes_be(b: &Vec<u8>) -> (r: Option<u64>)
    ensures
        match r {
            Some(v) => v == be_bytes_value(b@),
            None => be_bytes_value(b@) > u64::MAX,
        },
{
    let n = b.len();
    let mut acc: u64 = 0;
    let mut i: usize = 0;
    while i < n
        invariant
            n == b@.len(),
            i <= n,
            acc == be_bytes_value(b@.take(i as int)),
        decreases n - i,
    {
        proof {
            assert(b@.take(i as int + 1).drop_last() =~= b@.take(i as int));
            assert(b@.take(i as int + 1).last() == b@[i as int]);
        }
        let byte = b[i];
        acc = match acc.checked_mul(256) {
            Some(t) => match t.checked_add(byte as u64) {
                Some(t2) => t2,
                None => {
                    proof {
                        lemma_be_value_take_le(b@, i as int + 1);
                    }
                    return None;
                },
            },
            None => {
                proof {
                    assert(be_bytes_value(b@.take(i as int + 1)) >= acc * 256);
                    lemma_be_value_take_le(b@, i as int + 1);
                }
                return None;
            },
        };
        i = i + 1;
    }
    proof {
        assert(b@.take(n as int) =~= b@);
    }
    Some(acc)
}

/// Encode a scalar in unpadded big-endian form.
pub fn scalar_to_bytes_be(v: u64) -> (r: Vec<u8>)
    ensures
        r@ =~= be_bytes_of(v as nat),
    decreases v,
{
    if v == 0 {
        Vec::new()
    } else {
        let mut r = scalar_to_bytes_be(v / 256);
        r.push((v % 256) as u8);
        r
    }
}

/// Round trip: decoding the unpadded big-endian form gives the scalar back.
pub proof fn lemma_be_bytes_round_trip(v: nat)
    ensures
        be_bytes_value(be_bytes_of(v)) == v,
    decreases v,
{
    if v > 0 {
        lemma_be_bytes_round_trip(v / 256);
        assert(be_bytes_of(v).drop_last() =~= be_bytes_of(v / 256));
        lemma_fundamental_div_mod(v as int, 256);
    }
}

/// A leading zero byte does not change the denoted scalar: decoders need
/// no leading-zero canonicalization.
pub proof fn lemma_be_bytes_leading_zero(s: Seq<u8>)
    ensures
        be_bytes_value(seq![0u8] + s) == be_bytes_value(s),
    decreases s.len(),
{
    if s.len() == 0 {
        assert((seq![0u8] + s) =~= seq![0u8]);
        assert(seq![0u8].drop_last() =~= Seq::<u8>::empty());
        assert(seq![0u8].last() == 0u8);
        assert(be_bytes_value(Seq::<u8>::empty()) == 0);
        assert(be_bytes_value(seq![0u8]) == (be_bytes_value(seq![0u8].drop_last()) * 256
            + seq![0u8].last()) as nat);
    } else {
        lemma_be_bytes_leading_zero(s.drop_last());
        assert((seq![0u8] + s).drop_last() =~= seq![0u8] + s.drop_last());
        assert((seq![0u8] + s).last() == s.last());
        assert(be_bytes_value(seq![0u8] + s) == (be_bytes_value((seq![0u8] + s).drop_last()) * 256
            + (seq![0u8] + s).last()) as nat);
        assert(be_bytes_value(s) == (be_bytes_value(s.drop_last()) * 256 + s.last()) as nat);
    }
}

/// A base-10 digit.
pub open spec fn is_dec_digit(c: char) -> bool {
    48 <= c as int <= 57
}

/// The value of a digit; non-digits count as 0.
pub open spec fn dec_digit_val(c: char) -> nat {
    if is_dec_digit(c) {
        (c as int - 48) as nat
    } else {
        0
    }
}

/// A nonempty string of base-10 digits.
pub open spec fn is_dec_string(s: Seq<char>) -> bool {
    s.len() > 0 && (forall|i: int| 0 <= i < s.len() ==> is_dec_digit(s[i]))
}

/// The scalar a base-10 string denotes.
pub open spec fn dec_value(s: Seq<char>) -> nat
    decreases s.len(),
{
    if s.len() == 0 {
        0
    } else {
        (dec_value(s.drop_last()) * 10 + dec_digit_val(s.last())) as nat
    }
}

/// A longer prefix never denotes a smaller scalar.
proof fn lemma_dec_value_take_le(s: Seq<char>, j: int)
    requires
        0 <= j <= s.len(),
    ensures
        dec_value(s.take(j)) <= dec_value(s),
    decreases s.len() - j,
{
    if j == s.len() {
        assert(s.take(j) =~= s);
    } else {
        assert(s.take(j + 1).drop_last() =~= s.take(j));
        assert(s.take(j + 1).last() == s[j]);
        assert(dec_value(s.take(j + 1)) == dec_value(s.take(j)) * 10 + dec_digit_val(s[j]));
        lemma_dec_value_take_le(s, j + 1);
    }
}

/// Parse a base-10 string; `None` exactly when the string is empty, holds a
/// non-digit, or denotes a scalar that does not fit in 64 bits.
pub fn parse_u64_dec(s: &str) -> (r: Option<u64>)
    ensures
        match r {
            Some(v) => is_dec_string(s@) && v == dec_value(s@),
            None => !is_dec_string(s@) || dec_value(s@) > u64::MAX,
        },
{
    let n = s.unicode_len();
    if n == 0 {
        return None;
    }
    let mut acc: u64 = 0;
    let mut i: usize = 0;
    while i < n
        invariant
            n == s@.len(),
            0 < n,
            i <= n,
            forall|j: int| 0 <= j < i ==> is_dec_digit(s@[j]),
            acc == dec_value(s@.take(i as int)),
        decreases n - i,
    {
        proof {
            assert(s@.take(i as int + 1).drop_last() =~= s@.take(i as int));
            assert(s@.take(i as int + 1).last() == s@[i as int]);
        }
        let ch = s.get_char(i);
        let code = ch as u32;
        if code < 48 || code > 57 {
            return None;
        }
        let d = (code - 48) as u64;
        acc = match acc.checked_mul(10) {
            Some(t) => match t.checked_add(d) {
                Some(t2) => t2,
                None => {
                    proof {
                        lemma_dec_value_take_le(s@, i as int + 1);
                    }
                    return None;
                },
            },
            None => {
                proof {
                    assert(dec_value(s@.take(i as int + 1)) >= acc * 10);
                    lemma_dec_value_take_le(s@, i as int + 1);
                }
                return None;
            },
        };
        i = i + 1;
    }
    proof {
        assert(s@.take(n as int) =~= s@);
    }
    Some(acc)
}

/// The digit character of a value below 10.
pub open spec fn dec_char_of(d: nat) -> char {
    if d == 0 {
        '0'
    } else if d == 1 {
        '1'
    } else if d == 2 {
        '2'
    } else if d == 3 {
        '3'
    } else if d == 4 {
        '4'
    } else if d == 5 {
        '5'
    } else if d == 6 {
        '6'
    } else if d == 7 {
        '7'
    } else if d == 8 {
        '8'
    } else {
        '9'
    }
}

/// The base-10 digits of a scalar, empty for 0.
pub open spec fn dec_chars_rec(v: nat) -> Seq<char>
    decreases v,
{
    if v == 0 {
        Seq::empty()
    } else {
        dec_chars_rec(v / 10).push(dec_char_of(v % 10))
    }
}

/// The base-10 form of a scalar; 0 is written "0".
pub open spec fn dec_string_of(v: nat) -> Seq<char> {
    if v == 0 {
        seq!['0']
    } else {
        dec_chars_rec(v)
    }
}

/// The one-character string of a digit.
fn dec_digit_str(d: u64) -> (r: &'static str)
    requires
        d < 10,
    ensures
        r@ =~= seq![dec_char_of(d as nat)],
{
    proof {
        reveal_strlit("0");
        reveal_strlit("1");
        reveal_strlit("2");
        reveal_strlit("3");
        reveal_strlit("4");
        reveal_strlit("5");
        reveal_strlit("6");
        reveal_strlit("7");
        reveal_strlit("8");
        reveal_strlit("9");
    }
    if d == 0 {
        "0"
    } else if d == 1 {
        "1"
    } else if d == 2 {
        "2"
    } else if d == 3 {
        "3"
    } else if d == 4 {
        "4"
    } else if d == 5 {
        "5"
    } else if d == 6 {
        "6"
    } else if d == 7 {
        "7"
    } else if d == 8 {
        "8"
    } else {
        "9"
    }
}

/// The digits of a positive scalar, empty for 0.
fn u64_to_dec_rec(v: u64) -> (r: String)
    ensures
        r@ =~= dec_chars_rec(v as nat),
    decreases v,
{
    if v == 0 {
        String::new()
    } else {
        let mut r = u64_to_dec_rec(v / 10);
        r.append(dec_digit_str(v % 10));
        r
    }
}

/// Format a scalar in base 10.
pub fn u64_to_dec(v: u64) -> (r: String)
    ensures
        r@ =~= dec_string_of(v as nat),
        is_dec_string(r@),
        dec_value(r@) == v,
{
    proof {
        lemma_dec_round_trip(v as nat);
    }
    if v == 0 {
        proof {
            reveal_strlit("0");
        }
        let r: String = String::from_str("0");
        r
    } else {
        u64_to_dec_rec(v)
    }
}

/// A digit character parses back to its value.
proof fn lemma_dec_digit_char_val(d: nat)
    requires
        d < 10,
    ensures
        is_dec_digit(dec_char_of(d)),
        dec_digit_val(dec_char_of(d)) == d,
{
}

/// Round trip: parsing the base-10 form gives the scalar back, and the form
/// is a digit string.
pub proof fn lemma_dec_round_trip(v: nat)
    ensures
        is_dec_string(dec_string_of(v)),
        dec_value(dec_string_of(v)) == v,
{
    if v == 0 {
        lemma_dec_digit_char_val(0);
        assert(('0' as int) == 48);
        assert(dec_digit_val('0') == 0);
        assert(seq!['0'].drop_last() =~= Seq::<char>::empty());
        assert(seq!['0'].last() == '0');
        assert(seq!['0'][0] == '0');
        assert(dec_value(seq!['0']) == (dec_value(Seq::<char>::empty()) * 10 + dec_digit_val('0')) as nat);
        assert(dec_value(Seq::<char>::empty()) == 0);
    } else {
        lemma_dec_rec_round_trip(v);
    }
}

/// The digits of a positive scalar parse back to it.
proof fn lemma_dec_rec_round_trip(v: nat)
    requires
        v > 0,
    ensures
        dec_chars_rec(v).len() > 0,
        forall|i: int| 0 <= i < dec_chars_rec(v).len() ==> is_dec_digit(dec_chars_rec(v)[i]),
        dec_value(dec_chars_rec(v)) == v,
    decreases v,
{
    let tail = dec_chars_rec(v / 10);
    let c = dec_char_of(v % 10);
    lemma_dec_digit_char_val(v % 10);
    assert(dec_chars_rec(v) == tail.push(c));
    assert(dec_chars_rec(v).drop_last() =~= tail);
    assert(dec_chars_rec(v).last() == c);
    if v / 10 == 0 {
        assert(tail =~= Seq::<char>::empty());
        assert(dec_value(Seq::<char>::empty()) == 0);
    } else {
        lemma_dec_rec_round_trip(v / 10);
    }
    lemma_fundamental_div_mod(v as int, 10);
    assert(dec_value(dec_chars_rec(v)) == (dec_value(dec_chars_rec(v).drop_last()) * 10
        + dec_digit_val(dec_chars_rec(v).last())) as nat);
    assert forall|i: int| 0 <= i < dec_chars_rec(v).len() implies is_dec_digit(
        dec_chars_rec(v)[i],
    ) by {
        if i < tail.len() {
            assert(dec_chars_rec(v)[i] == tail[i]);
        } else {
            assert(dec_chars_rec(v)[i] == c);
        }
    }
}

} // verus!
