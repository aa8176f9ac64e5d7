//! Arbitrary-precision unsigned integers: `num_bigint::BigUint`, with the
//! contracts that this library relies on. Nothing in this file is proved of
//! `num_bigint`; each contract says what the named operation is taken to do.

use num_bigint::BigUint;
use vstd::arithmetic::power2::pow2;
use vstd::prelude::*;

verus! {

/// `num_bigint::BigUint`, an unsigned integer of any size.
#[verifier::external_type_specification]
#[verifier::external_body]
pub struct ExBigUint(num_bigint::BigUint);

/// The bytes of `n` as `BigUint::to_bytes_be` gives them: its digits in
/// base 256, the most significant first.
pub uninterp spec fn magnitude(n: &BigUint) -> Seq<u8>;

/// The number that bytes spell in base 256, the most significant first.
pub open spec fn be_value(bytes: Seq<u8>) -> nat
    decreases bytes.len(),
{
    if bytes.len() == 0 {
        0
    } else {
        be_value(bytes.drop_last()) * 256 + bytes.last() as nat
    }
}

/// The number that `n` holds.
pub open spec fn value_of(n: &BigUint) -> nat {
    be_value(magnitude(n))
}

/// The bitwise AND of two natural numbers.
pub open spec fn bit_and(a: nat, b: nat) -> nat
    decreases a,
{
    if a == 0 || b == 0 {
        0
    } else {
        let low: nat = if a % 2 == 1 && b % 2 == 1 {
            1
        } else {
            0
        };
        low + 2 * bit_and(a / 2, b / 2)
    }
}

/// The character of the decimal digit `d`, for `d < 10`.
pub open spec fn digit_char(d: nat) -> char {
    ((0x30 + d) as u8) as char
}

/// `n` in decimal, without leading zeros; zero is `"0"`.
pub open spec fn decimal(n: nat) -> Seq<char>
    decreases n,
{
    if n < 10 {
        seq![digit_char(n)]
    } else {
        decimal(n / 10).push(digit_char(n % 10))
    }
}

/// `BigUint::from(u32)`: the big integer equal to `v`.
#[verifier::external_body]
pub(crate) fn from_u32(v: u32) -> (n: BigUint)
    ensures
        value_of(&n) == v,
{
    BigUint::from(v)
}

/// `BigUint::from_bytes_be`: the number that `bytes` spell in base 256, the
/// most significant byte first; zero for no bytes.
#[verifier::external_body]
pub(crate) fn from_bytes_be(bytes: &[u8]) -> (n: BigUint)
    ensures
        be_value(magnitude(&n)) == be_value(bytes@),
{
    BigUint::from_bytes_be(bytes)
}

/// `BigUint::clone`: a copy that holds the same number.
#[verifier::external_body]
pub(crate) fn duplicate(a: &BigUint) -> (n: BigUint)
    ensures
        value_of(&n) == value_of(a),
{
    a.clone()
}

/// `&BigUint << usize`: `a` times two to the power `bits`.
#[verifier::external_body]
pub(crate) fn shift_left(a: &BigUint, bits: usize) -> (n: BigUint)
    ensures
        value_of(&n) == value_of(a) * pow2(bits as nat),
{
    a << bits
}

/// `BigUint >>= usize`: `a` divided by two to the power `bits`, rounded down.
#[verifier::external_body]
pub(crate) fn shift_right_assign(a: &mut BigUint, bits: usize)
    ensures
        value_of(final(a)) == value_of(old(a)) / pow2(bits as nat),
{
    *a >>= bits;
}

/// `BigUint - u32`, which panics where the result would be negative.
#[verifier::external_body]
pub(crate) fn minus_u32(a: BigUint, b: u32) -> (n: BigUint)
    requires
        value_of(&a) >= b,
    ensures
        value_of(&n) == value_of(&a) - b,
{
    a - b
}

/// `&BigUint & &BigUint`: the bitwise AND.
#[verifier::external_body]
pub(crate) fn bitwise_and(a: &BigUint, b: &BigUint) -> (n: BigUint)
    ensures
        value_of(&n) == bit_and(value_of(a), value_of(b)),
{
    a & b
}

/// `&BigUint + &BigUint`: the sum.
#[verifier::external_body]
pub(crate) fn plus(a: &BigUint, b: &BigUint) -> (n: BigUint)
    ensures
        value_of(&n) == value_of(a) + value_of(b),
{
    a + b
}

/// `BigUint::bit`: whether bit number `index` of `a` is set, counted from
/// the least significant bit.
#[verifier::external_body]
pub(crate) fn bit_is_set(a: &BigUint, index: u64) -> (set: bool)
    ensures
        set == ((value_of(a) / pow2(index as nat)) % 2 == 1),
{
    a.bit(index)
}

/// `BigUint::to_string`: the number in decimal.
#[verifier::external_body]
pub(crate) fn to_decimal(a: &BigUint) -> (text: String)
    ensures
        text@ == decimal(value_of(a)),
{
    a.to_string()
}

} // verus!
