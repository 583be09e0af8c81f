//! Samples and their arithmetic.
//!
//! A sample is carried as the 64-bit pattern of an IEEE 754 binary64 value,
//! called its *code*. Ordering and equality of samples are defined on codes:
//! `code_le` orders codes exactly as IEEE 754 orders the finite values they
//! encode (it is a total order on all codes). The four arithmetic operations
//! on samples are reached through a soft-float library and are named, not
//! stated, since their rounding behaviour takes pages to write down.

use rustc_apfloat::Float;
use rustc_apfloat::ieee::Double;
use vstd::prelude::*;

verus! {

/// Code of the greatest finite sample; the starting accumulator of a
/// minimum scan, so that the first sample scanned always replaces it.
pub const HIGH_SENTINEL: u64 = 0x7FEF_FFFF_FFFF_FFFF;

/// Code of the least finite sample; the starting accumulator of a
/// maximum scan.
pub const LOW_SENTINEL: u64 = 0xFFEF_FFFF_FFFF_FFFF;

/// Order key of a code: negative patterns (sign bit set) are reflected
/// downwards, positive ones are shifted above them, so that comparing keys
/// orders codes as IEEE 754 orders the encoded values.
pub open spec fn spec_key(a: u64) -> u64 {
    if a >= 0x8000_0000_0000_0000 {
        (0xFFFF_FFFF_FFFF_FFFF - a) as u64
    } else {
        (a + 0x8000_0000_0000_0000) as u64
    }
}

/// The sample order: `a` encodes a value no greater than the one `b` encodes.
pub open spec fn code_le(a: u64, b: u64) -> bool {
    spec_key(a) <= spec_key(b)
}

/// The smaller of two codes under the sample order, preferring `a` on ties.
pub open spec fn spec_code_min(a: u64, b: u64) -> u64 {
    if code_le(a, b) {
        a
    } else {
        b
    }
}

/// The larger of two codes under the sample order, preferring `b` on ties.
pub open spec fn spec_code_max(a: u64, b: u64) -> u64 {
    if code_le(a, b) {
        b
    } else {
        a
    }
}

/// A code that encodes a finite value: it lies between the two sentinels,
/// which excludes the infinities and every NaN pattern.
pub open spec fn finite_code(a: u64) -> bool {
    code_le(LOW_SENTINEL, a) && code_le(a, HIGH_SENTINEL)
}

/// Every element of `s` is a finite code.
pub open spec fn all_finite(s: Seq<u64>) -> bool {
    forall|i: int| 0 <= i < s.len() ==> finite_code(#[trigger] s[i])
}

/// Minimum of a scan over `s`, started at the high sentinel.
pub open spec fn fold_min(s: Seq<u64>) -> u64
    decreases s.len(),
{
    if s.len() == 0 {
        HIGH_SENTINEL
    } else {
        spec_code_min(fold_min(s.drop_last()), s.last())
    }
}

/// Maximum of a scan over `s`, started at the low sentinel.
pub open spec fn fold_max(s: Seq<u64>) -> u64
    decreases s.len(),
{
    if s.len() == 0 {
        LOW_SENTINEL
    } else {
        spec_code_max(fold_max(s.drop_last()), s.last())
    }
}

/// Order key of a code, computable.
pub fn key(a: u64) -> (r: u64)
    ensures
        r == spec_key(a),
{
    if a >= 0x8000_0000_0000_0000 {
        0xFFFF_FFFF_FFFF_FFFF - a
    } else {
        a + 0x8000_0000_0000_0000
    }
}

/// Decides the sample order on two codes.
pub fn le(a: u64, b: u64) -> (r: bool)
    ensures
        r == code_le(a, b),
{
    key(a) <= key(b)
}

/// The smaller of two codes under the sample order.
pub fn code_min(a: u64, b: u64) -> (r: u64)
    ensures
        r == spec_code_min(a, b),
{
    if le(a, b) {
        a
    } else {
        b
    }
}

/// The larger of two codes under the sample order.
pub fn code_max(a: u64, b: u64) -> (r: u64)
    ensures
        r == spec_code_max(a, b),
{
    if le(a, b) {
        b
    } else {
        a
    }
}

/// Distinct codes have distinct order keys, so a tie under `code_le` in
/// both directions means the codes themselves are equal.
pub proof fn lemma_key_injective(a: u64, b: u64)
    requires
        spec_key(a) == spec_key(b),
    ensures
        a == b,
{
}

/// The scan minimum is a lower bound of every element scanned, whatever
/// the codes are: the sample order is total on all codes.
pub proof fn lemma_fold_min_lower(s: Seq<u64>)
    ensures
        forall|i: int| 0 <= i < s.len() ==> code_le(fold_min(s), #[trigger] s[i]),
    decreases s.len(),
{
    if s.len() > 0 {
        lemma_fold_min_lower(s.drop_last());
        assert(forall|i: int|
            0 <= i < s.len() - 1 ==> #[trigger] s[i] == s.drop_last()[i]);
    }
}

/// The scan maximum is an upper bound of every element scanned.
pub proof fn lemma_fold_max_upper(s: Seq<u64>)
    ensures
        forall|i: int| 0 <= i < s.len() ==> code_le(#[trigger] s[i], fold_max(s)),
    decreases s.len(),
{
    if s.len() > 0 {
        lemma_fold_max_upper(s.drop_last());
        assert(forall|i: int|
            0 <= i < s.len() - 1 ==> #[trigger] s[i] == s.drop_last()[i]);
    }
}

/// On a non-empty sequence of finite codes, the scan minimum is one of the
/// elements (the high sentinel it started from is displaced), and finite.
pub proof fn lemma_fold_min_contains(s: Seq<u64>)
    requires
        s.len() > 0,
        all_finite(s),
    ensures
        s.contains(fold_min(s)),
        finite_code(fold_min(s)),
    decreases s.len(),
{
    if s.len() == 1 {
        if code_le(HIGH_SENTINEL, s[0]) {
            lemma_key_injective(HIGH_SENTINEL, s[0]);
        }
        assert(s.contains(s[0]));
    } else {
        lemma_fold_min_contains(s.drop_last());
        assert(all_finite(s.drop_last())) by {
            assert(forall|i: int|
                0 <= i < s.len() - 1 ==> #[trigger] s.drop_last()[i] == s[i]);
        }
        let prior = fold_min(s.drop_last());
        if code_le(prior, s.last()) {
            let j = choose|j: int| 0 <= j < s.drop_last().len() && s.drop_last()[j] == prior;
            assert(s[j] == prior);
            assert(s.contains(prior));
        } else {
            assert(s.contains(s.last()));
        }
    }
}

/// On a non-empty sequence of finite codes, the scan maximum is one of the
/// elements, and finite.
pub proof fn lemma_fold_max_contains(s: Seq<u64>)
    requires
        s.len() > 0,
        all_finite(s),
    ensures
        s.contains(fold_max(s)),
        finite_code(fold_max(s)),
    decreases s.len(),
{
    if s.len() == 1 {
        if code_le(s[0], LOW_SENTINEL) {
            lemma_key_injective(LOW_SENTINEL, s[0]);
        }
        assert(s.contains(s[0]));
    } else {
        lemma_fold_max_contains(s.drop_last());
        assert(all_finite(s.drop_last())) by {
            assert(forall|i: int|
                0 <= i < s.len() - 1 ==> #[trigger] s.drop_last()[i] == s[i]);
        }
        let prior = fold_max(s.drop_last());
        if code_le(prior, s.last()) {
            assert(s.contains(s.last()));
        } else {
            let j = choose|j: int| 0 <= j < s.drop_last().len() && s.drop_last()[j] == prior;
            assert(s[j] == prior);
            assert(s.contains(prior));
        }
    }
}

/// Code of the IEEE 754 binary64 sum of the samples coded by `a` and `b`.
pub uninterp spec fn add_code(a: u64, b: u64) -> u64;

/// Code of the IEEE 754 binary64 difference of the samples coded by `a`
/// and `b`.
pub uninterp spec fn sub_code(a: u64, b: u64) -> u64;

/// Code of the IEEE 754 binary64 product of the samples coded by `a`
/// and `b`.
pub uninterp spec fn mul_code(a: u64, b: u64) -> u64;

/// Code of the IEEE 754 binary64 quotient of the samples coded by `a`
/// and `b`.
pub uninterp spec fn div_code(a: u64, b: u64) -> u64;

/// Code of the IEEE 754 binary64 value nearest to the count `n`.
pub uninterp spec fn count_code(n: nat) -> u64;

/// Relies on addition of rustc_apfloat::ieee::Double (IEEE 754 binary64,
/// round to nearest even): the sum's code depends on the operands' codes
/// alone. `from_bits` and `to_bits` convert between code and soft float.
#[verifier::external_body]
pub(crate) fn code_add(a: u64, b: u64) -> (r: u64)
    ensures
        r == add_code(a, b),
{
    (Double::from_bits(a as u128) + Double::from_bits(b as u128)).value.to_bits() as u64
}

/// Relies on subtraction of rustc_apfloat::ieee::Double (IEEE 754 binary64,
/// round to nearest even): the difference's code depends on the operands'
/// codes alone.
#[verifier::external_body]
pub(crate) fn code_sub(a: u64, b: u64) -> (r: u64)
    ensures
        r == sub_code(a, b),
{
    (Double::from_bits(a as u128) - Double::from_bits(b as u128)).value.to_bits() as u64
}

/// Relies on multiplication of rustc_apfloat::ieee::Double (IEEE 754
/// binary64, round to nearest even): the product's code depends on the
/// operands' codes alone.
#[verifier::external_body]
pub(crate) fn code_mul(a: u64, b: u64) -> (r: u64)
    ensures
        r == mul_code(a, b),
{
    (Double::from_bits(a as u128) * Double::from_bits(b as u128)).value.to_bits() as u64
}

/// Relies on division of rustc_apfloat::ieee::Double (IEEE 754 binary64,
/// round to nearest even): the quotient's code depends on the operands'
/// codes alone.
#[verifier::external_body]
pub(crate) fn code_div(a: u64, b: u64) -> (r: u64)
    ensures
        r == div_code(a, b),
{
    (Double::from_bits(a as u128) / Double::from_bits(b as u128)).value.to_bits() as u64
}

/// Relies on rustc_apfloat::ieee::Double::from_u128 (round to nearest
/// even): the code of the converted count depends on the count alone.
#[verifier::external_body]
pub(crate) fn code_of_count(n: usize) -> (r: u64)
    ensures
        r == count_code(n as nat),
{
    Double::from_u128(n as u128).value.to_bits() as u64
}

} // verus!
