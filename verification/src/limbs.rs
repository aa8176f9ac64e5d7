//! Big integers as little-endian limbs of a fixed width, each written in
//! decimal, and the Montgomery reduction constant of a modulus.

use crate::bignum::{
    bit_and, bit_is_set, bitwise_and, decimal, duplicate, from_u32, minus_u32, plus,
    shift_left, shift_right_assign, to_decimal, value_of,
};
use num_bigint::BigUint;
use vstd::arithmetic::div_mod::{lemma_div_denominator, lemma_mod_breakdown};
use vstd::arithmetic::power2::{lemma_pow2_adds, lemma_pow2_pos, lemma_pow2_unfold, pow2};
use vstd::prelude::*;

verus! {

/// Limb number `i` of `v`, for limbs of `bits` bits: bits `bits * i` up to
/// `bits * (i + 1)` of `v`.
pub open spec fn limb(v: nat, bits: nat, i: nat) -> nat {
    (v / pow2(bits * i)) % pow2(bits)
}

/// The first `count` limbs of `v`, least significant first, each in decimal.
pub open spec fn limbs_of(v: nat, count: nat, bits: nat) -> Seq<Seq<char>> {
    Seq::new(count, |i: int| decimal(limb(v, bits, i as nat)))
}

/// The texts that `limbs` hold.
pub open spec fn texts(limbs: Seq<String>) -> Seq<Seq<char>> {
    Seq::new(limbs.len(), |i: int| limbs[i]@)
}

/// Splits `value` into `num_limbs` limbs of `limb_bits` bits, least
/// significant first, each written in decimal. What `value` holds at or
/// above bit `num_limbs * limb_bits` is left out.
pub fn bigint_to_limbs(value: &BigUint, num_limbs: usize, limb_bits: usize) -> (limbs: Vec<String>)
    ensures
        texts(limbs@) == limbs_of(value_of(value), num_limbs as nat, limb_bits as nat),
{
    let ghost v = value_of(value);
    let ghost bits = limb_bits as nat;
    let mut limbs: Vec<String> = Vec::new();
    let one = from_u32(1);
    let power = shift_left(&one, limb_bits);
    proof {
        lemma_pow2_pos(bits);
    }
    let limb_mask = minus_u32(power, 1);
    let mut temp = duplicate(value);
    proof {
        vstd::arithmetic::power2::lemma2_to64();
        assert(bits * 0 == 0);
    }
    let mut i: usize = 0;
    while i < num_limbs
        invariant
            i <= num_limbs,
            bits == limb_bits as nat,
            v == value_of(value),
            value_of(&limb_mask) == pow2(bits) - 1,
            value_of(&temp) == v / pow2(bits * i as nat),
            limbs@.len() == i,
            forall|j: int| 0 <= j < i ==> (#[trigger] limbs@[j])@ == decimal(limb(v, bits, j as nat)),
        decreases num_limbs - i,
    {
        let limb = bitwise_and(&temp, &limb_mask);
        proof {
            lemma_mask_takes_low_bits(value_of(&temp), bits);
        }
        limbs.push(to_decimal(&limb));
        shift_right_assign(&mut temp, limb_bits);
        proof {
            lemma_pow2_pos(bits);
            lemma_pow2_pos(bits * i as nat);
            lemma_div_denominator(v as int, pow2(bits * i as nat) as int, pow2(bits) as int);
            lemma_pow2_adds(bits * i as nat, bits);
            assert(bits * i as nat + bits == bits * (i + 1) as nat) by (nonlinear_arith);
        }
        i += 1;
    }
    assert(texts(limbs@) =~= limbs_of(v, num_limbs as nat, bits));
    limbs
}

/// Every limb is below two to the power of its width.
pub proof fn lemma_limb_is_below_width(v: nat, bits: nat, i: nat)
    ensures
        limb(v, bits, i) < pow2(bits),
{
    lemma_pow2_pos(bits);
    vstd::arithmetic::div_mod::lemma_mod_bound(
        (v / pow2(bits * i)) as int,
        pow2(bits) as int,
    );
}

/// The bitwise AND with `2^k - 1` keeps the low `k` bits: the remainder
/// modulo `2^k`.
pub proof fn lemma_mask_takes_low_bits(a: nat, k: nat)
    ensures
        pow2(k) >= 1,
        bit_and(a, (pow2(k) - 1) as nat) == a % pow2(k),
    decreases k,
{
    lemma_pow2_pos(k);
    if k == 0 {
        vstd::arithmetic::power2::lemma2_to64();
    } else {
        let half = pow2((k - 1) as nat);
        lemma_pow2_unfold(k);
        lemma_pow2_pos((k - 1) as nat);
        let mask = (pow2(k) - 1) as nat;
        assert(mask == 2 * (half - 1) + 1);
        assert(mask % 2 == 1 && mask / 2 == half - 1);
        if a != 0 {
            lemma_mask_takes_low_bits(a / 2, (k - 1) as nat);
            lemma_mod_breakdown(a as int, 2, half as int);
            assert(2 * half == pow2(k));
        }
    }
}

/// The digit that the character `c` stands for, for `'0'` to `'9'`.
pub open spec fn digit_value(c: char) -> nat {
    (c as u32 - 0x30) as nat
}

/// The number that `text` spells in decimal.
pub open spec fn decimal_value(text: Seq<char>) -> nat
    decreases text.len(),
{
    if text.len() == 0 {
        0
    } else {
        decimal_value(text.drop_last()) * 10 + digit_value(text.last())
    }
}

/// The number that `limbs` stand for: limb `i`, read as decimal, weighs
/// two to the power `bits * i`.
pub open spec fn limbs_value(limbs: Seq<Seq<char>>, bits: nat) -> nat
    decreases limbs.len(),
{
    if limbs.len() == 0 {
        0
    } else {
        limbs_value(limbs.drop_last(), bits) + decimal_value(limbs.last()) * pow2(
            bits * (limbs.len() - 1) as nat,
        )
    }
}

/// Reading the decimal text of a number gives the number back.
pub proof fn lemma_decimal_round_trip(n: nat)
    ensures
        decimal_value(decimal(n)) == n,
    decreases n,
{
    if n < 10 {
        assert(decimal(n).drop_last() =~= Seq::<char>::empty());
        assert(decimal_value(Seq::<char>::empty()) == 0);
    } else {
        lemma_decimal_round_trip(n / 10);
        assert(decimal(n).drop_last() =~= decimal(n / 10));
    }
}

/// The limbs of `v` stand for `v` without what it holds at or above bit
/// `bits * count`.
pub proof fn lemma_limbs_value(v: nat, count: nat, bits: nat)
    ensures
        pow2(bits * count) > 0,
        limbs_value(limbs_of(v, count, bits), bits) == v % pow2(bits * count),
    decreases count,
{
    lemma_pow2_pos(bits * count);
    if count == 0 {
        vstd::arithmetic::power2::lemma2_to64();
        assert(bits * 0 == 0);
    } else {
        let rest = (count - 1) as nat;
        let all = limbs_of(v, count, bits);
        assert(all.drop_last() =~= limbs_of(v, rest, bits));
        lemma_limbs_value(v, rest, bits);
        lemma_decimal_round_trip(limb(v, bits, rest));
        lemma_pow2_pos(bits);
        lemma_pow2_pos(bits * rest);
        lemma_mod_breakdown(v as int, pow2(bits * rest) as int, pow2(bits) as int);
        lemma_pow2_adds(bits * rest, bits);
        assert(bits * rest + bits == bits * count) by (nonlinear_arith)
            requires
                rest + 1 == count,
        ;
        assert(decimal_value(all.last()) * pow2(bits * rest) == pow2(bits * rest) * limb(
            v,
            bits,
            rest,
        )) by (nonlinear_arith)
            requires
                decimal_value(all.last()) == limb(v, bits, rest),
        ;
    }
}

/// A number below two to the power `bits * count` is the sum of its `count`
/// limbs, each weighed by its place: the limbs lose nothing.
pub proof fn lemma_limbs_round_trip(v: nat, count: nat, bits: nat)
    requires
        v < pow2(bits * count),
    ensures
        limbs_value(limbs_of(v, count, bits), bits) == v,
{
    lemma_limbs_value(v, count, bits);
    vstd::arithmetic::div_mod::lemma_small_mod(v, pow2(bits * count));
}

/// Whether `y` is the Montgomery reduction constant of `m` for `R = 2^k`:
/// the number below `R` with `m * y` congruent to `-1` modulo `R`.
pub open spec fn is_redc(m: nat, y: nat, k: nat) -> bool {
    y < pow2(k) && (m * y + 1) % pow2(k) == 0
}

/// The Montgomery reduction constant of an odd `m` for `R = 2^k`:
/// `-m^-1 mod R`.
pub open spec fn redc_param(m: nat, k: nat) -> nat {
    choose|y: nat| is_redc(m, y, k)
}

/// The Montgomery reduction constant of `modulus`, for
/// `R = 2^(num_limbs * limb_bits)`, as limbs; `None` where `modulus` is even
/// and so has no inverse modulo a power of two.
pub fn calculate_redc_param(modulus: &BigUint, num_limbs: usize, limb_bits: usize) -> (limbs:
    Option<Vec<String>>)
    ensures
        limbs.is_some() <==> value_of(modulus) % 2 == 1,
        limbs matches Some(l) ==> {
            let m = value_of(modulus);
            let k = num_limbs as nat * limb_bits as nat;
            &&& is_redc(m, redc_param(m, k), k)
            &&& texts(l@) == limbs_of(redc_param(m, k), num_limbs as nat, limb_bits as nat)
        },
{
    let ghost m = value_of(modulus);
    proof {
        vstd::arithmetic::power2::lemma2_to64();
    }
    if !bit_is_set(modulus, 0) {
        return None;
    }
    let mut y = from_u32(0);
    let mut t = from_u32(1);
    let mut power = from_u32(1);
    let mut limb: usize = 0;
    while limb < num_limbs
        invariant
            limb <= num_limbs,
            m == value_of(modulus),
            m % 2 == 1,
            value_of(&power) == pow2(limb as nat * limb_bits as nat),
            value_of(&y) < value_of(&power),
            m * value_of(&y) + 1 == value_of(&t) * value_of(&power),
        decreases num_limbs - limb,
    {
        let mut b: usize = 0;
        while b < limb_bits
            invariant
                b <= limb_bits,
                limb < num_limbs,
                m == value_of(modulus),
                m % 2 == 1,
                value_of(&power) == pow2(limb as nat * limb_bits as nat + b as nat),
                value_of(&y) < value_of(&power),
                m * value_of(&y) + 1 == value_of(&t) * value_of(&power),
            decreases limb_bits - b,
        {
            let ghost y0 = value_of(&y);
            let ghost t0 = value_of(&t);
            let ghost held = value_of(&power);
            proof {
                vstd::arithmetic::power2::lemma2_to64();
            }
            if bit_is_set(&t, 0) {
                y = plus(&y, &power);
                t = plus(&t, modulus);
            }
            let ghost t1 = value_of(&t);
            shift_right_assign(&mut t, 1);
            power = shift_left(&power, 1);
            proof {
                lemma_pow2_unfold((limb as nat * limb_bits as nat + b as nat + 1) as nat);
                assert(t1 % 2 == 0);
                assert(m * value_of(&y) + 1 == t1 * held) by (nonlinear_arith)
                    requires
                        m * y0 + 1 == t0 * held,
                        (value_of(&y) == y0 && t1 == t0) || (value_of(&y) == y0 + held && t1 == t0
                            + m),
                ;
                assert(t1 * held == (t1 / 2) * (held * 2)) by (nonlinear_arith)
                    requires
                        t1 % 2 == 0,
                ;
            }
            b += 1;
        }
        proof {
            assert(limb as nat * limb_bits as nat + limb_bits as nat == (limb + 1) as nat
                * limb_bits as nat) by (nonlinear_arith);
        }
        limb += 1;
    }
    proof {
        let k = num_limbs as nat * limb_bits as nat;
        let found = value_of(&y);
        vstd::arithmetic::div_mod::lemma_mod_multiples_basic(
            value_of(&t) as int,
            pow2(k) as int,
        );
        assert(is_redc(m, found, k));
        lemma_redc_unique(m, found, redc_param(m, k), k);
    }
    Some(bigint_to_limbs(&y, num_limbs, limb_bits))
}

/// An odd factor does not help a product to be a multiple of a power of
/// two: where `m` is odd and `2^k` divides `m * d`, it divides `d`.
pub proof fn lemma_odd_factor(m: nat, d: nat, k: nat)
    requires
        m % 2 == 1,
        (m * d) % pow2(k) == 0,
    ensures
        d % pow2(k) == 0,
    decreases k,
{
    lemma_pow2_pos(k);
    if k == 0 {
        vstd::arithmetic::power2::lemma2_to64();
    } else {
        let half = pow2((k - 1) as nat);
        lemma_pow2_unfold(k);
        lemma_pow2_pos((k - 1) as nat);
        lemma_mod_breakdown((m * d) as int, 2, half as int);
        assert((m * d) % 2 == 0 && ((m * d) / 2) % half == 0);
        assert(m * d == 2 * ((m / 2) * d) + d) by (nonlinear_arith)
            requires
                m % 2 == 1,
        ;
        assert(d % 2 == 0);
        assert((m * d) / 2 == m * (d / 2)) by (nonlinear_arith)
            requires
                d % 2 == 0,
        ;
        lemma_odd_factor(m, d / 2, (k - 1) as nat);
        lemma_mod_breakdown(d as int, 2, half as int);
    }
}

/// An odd modulus has at most one Montgomery reduction constant.
pub proof fn lemma_redc_unique(m: nat, y1: nat, y2: nat, k: nat)
    requires
        m % 2 == 1,
        is_redc(m, y1, k),
    ensures
        is_redc(m, y2, k) ==> y1 == y2,
        is_redc(m, redc_param(m, k), k),
{
    if is_redc(m, y2, k) {
        if y1 >= y2 {
            lemma_redc_difference(m, y1, y2, k);
        } else {
            lemma_redc_difference(m, y2, y1, k);
        }
    }
}

proof fn lemma_redc_difference(m: nat, y1: nat, y2: nat, k: nat)
    requires
        m % 2 == 1,
        is_redc(m, y1, k),
        is_redc(m, y2, k),
        y1 >= y2,
    ensures
        y1 == y2,
{
    let p = pow2(k);
    lemma_pow2_pos(k);
    let d = (y1 - y2) as nat;
    let a = (m * y1 + 1) as int;
    let b = (m * y2 + 1) as int;
    vstd::arithmetic::div_mod::lemma_fundamental_div_mod(a, p as int);
    vstd::arithmetic::div_mod::lemma_fundamental_div_mod(b, p as int);
    assert(m * d == (a / (p as int) - b / (p as int)) * p) by (nonlinear_arith)
        requires
            a == m * y1 + 1,
            b == m * y2 + 1,
            d == y1 - y2,
            a == p * (a / (p as int)),
            b == p * (b / (p as int)),
    ;
    vstd::arithmetic::div_mod::lemma_mod_multiples_basic(
        a / (p as int) - b / (p as int),
        p as int,
    );
    lemma_odd_factor(m, d, k);
    vstd::arithmetic::div_mod::lemma_small_mod(d, p);
}

} // verus!
