//! The lossy mantissa/exponent codec for amounts: a value is kept as
//! `mantissa * base^exponent`, with the smallest exponent under which the
//! truncated mantissa fits its bit width.

use vstd::prelude::*;
use vstd::arithmetic::power::*;
use vstd::arithmetic::power2::*;
use vstd::arithmetic::div_mod::*;
use vstd::arithmetic::mul::*;
use vstd::slice::slice_subrange;
use crate::error::TxError;
use crate::bits::{below_pow2, bits_value, decode_fixed, le_bits, lemma_le_bits_value, low_bits};

verus! {

/// `base` to the power `e`.
pub open spec fn scale(base: nat, e: nat) -> nat {
    pow(base as int, e) as nat
}

/// Whether `v`, divided by `base^e` and truncated, fits `mant_w` bits.
pub open spec fn fits(v: nat, e: nat, mant_w: nat, base: nat) -> bool {
    v / scale(base, e) < pow2(mant_w)
}

/// Whether `e` is the smallest exponent under which `v` fits.
pub open spec fn is_float_exponent(v: nat, e: nat, mant_w: nat, base: nat) -> bool {
    &&& fits(v, e, mant_w, base)
    &&& forall|k: nat| k < e ==> !#[trigger] fits(v, k, mant_w, base)
}

/// The exponent that the codec chooses for `v`.
pub open spec fn float_exponent(v: nat, mant_w: nat, base: nat) -> nat {
    choose|e: nat| is_float_exponent(v, e, mant_w, base)
}

/// The mantissa that the codec chooses for `v`: `v` divided by
/// `base^exponent`, the remainder dropped.
pub open spec fn float_mantissa(v: nat, mant_w: nat, base: nat) -> nat {
    v / scale(base, float_exponent(v, mant_w, base))
}

/// The value that a pair of exponent and mantissa stands for.
pub open spec fn float_value(exponent: nat, mantissa: nat, base: nat) -> nat {
    mantissa * scale(base, exponent)
}

/// What encoding gives: the exponent's bits followed by the mantissa's, or
/// `AmountTooLarge` where the exponent does not fit `exp_w` bits.
pub open spec fn encode_float_spec(v: nat, exp_w: nat, mant_w: nat, base: nat) -> Result<
    Seq<bool>,
    TxError,
> {
    let e = float_exponent(v, mant_w, base);
    if e < pow2(exp_w) {
        Ok(le_bits(e, exp_w) + le_bits(float_mantissa(v, mant_w, base), mant_w))
    } else {
        Err(TxError::AmountTooLarge)
    }
}

/// The value that an encoded sequence stands for: its first `exp_w` bits are
/// the exponent, the rest the mantissa.
pub open spec fn decode_float_spec(bits: Seq<bool>, exp_w: nat, base: nat) -> nat {
    float_value(bits_value(bits.take(exp_w as int)), bits_value(bits.skip(exp_w as int)), base)
}

/// The value that `v` is rounded down to by encoding and decoding.
pub open spec fn packable_floor(v: nat, mant_w: nat, base: nat) -> nat {
    float_value(float_exponent(v, mant_w, base), float_mantissa(v, mant_w, base), base)
}

/// The first powers of a base, and that none of them is zero.
pub proof fn lemma_scale(base: nat, e: nat)
    requires
        base >= 1,
    ensures
        scale(base, 0) == 1,
        scale(base, e) >= 1,
        scale(base, e) == pow(base as int, e),
        scale(base, e + 1) == base * scale(base, e),
{
    reveal(pow);
    lemma_pow_positive(base as int, e);
    lemma_pow_positive(base as int, e + 1);
}

/// Dividing by `base` first and by `base^k` then is dividing by `base^(k+1)`.
pub proof fn lemma_scale_div(v: nat, k: nat, base: nat)
    requires
        base >= 1,
    ensures
        (v / base) / scale(base, k) == v / scale(base, k + 1),
        (v / scale(base, k)) / base == v / scale(base, k + 1),
{
    lemma_scale(base, k);
    lemma_div_denominator(v as int, base as int, scale(base, k) as int);
    lemma_div_denominator(v as int, scale(base, k) as int, base as int);
    lemma_mul_is_commutative(base as int, scale(base, k) as int);
}

/// The exponent is unique: whatever is a smallest fitting exponent is the
/// one that the codec chooses.
pub proof fn lemma_exponent_unique(v: nat, e: nat, mant_w: nat, base: nat)
    requires
        is_float_exponent(v, e, mant_w, base),
    ensures
        float_exponent(v, mant_w, base) == e,
{
    let c = float_exponent(v, mant_w, base);
    assert(is_float_exponent(v, c, mant_w, base));
    if c < e {
        assert(!fits(v, c, mant_w, base));
    }
    if e < c {
        assert(!fits(v, e, mant_w, base));
    }
}

/// With a base of two or more every value has a smallest fitting exponent.
pub proof fn lemma_exponent_exists(v: nat, mant_w: nat, base: nat)
    requires
        base >= 2,
    ensures
        is_float_exponent(v, float_exponent(v, mant_w, base), mant_w, base),
    decreases v,
{
    lemma_scale(base, 0);
    if v < pow2(mant_w) {
        assert(is_float_exponent(v, 0, mant_w, base));
    } else {
        lemma_pow2_pos(mant_w);
        lemma_div_decreases(v as int, base as int);
        lemma_div_pos_is_pos(v as int, base as int);
        let w = v / base;
        lemma_exponent_exists(w, mant_w, base);
        let e = float_exponent(w, mant_w, base);
        lemma_scale_div(v, e, base);
        assert(fits(v, e + 1, mant_w, base));
        assert forall|k: nat| k < e + 1 implies !#[trigger] fits(v, k, mant_w, base) by {
            if k > 0 {
                let j = (k - 1) as nat;
                lemma_scale_div(v, j, base);
                assert(!fits(w, j, mant_w, base));
            }
        }
        assert(is_float_exponent(v, e + 1, mant_w, base));
    }
}

/// The exponent and the mantissa that the codec chooses for `value`.
pub fn float_parts(value: u128, mant_w: usize, base: u32) -> (parts: (u128, u128))
    requires
        base >= 2,
    ensures
        parts.0 == float_exponent(value as nat, mant_w as nat, base as nat),
        parts.1 == float_mantissa(value as nat, mant_w as nat, base as nat),
{
    let mut e: u128 = 0;
    let mut q: u128 = value;
    proof {
        lemma_scale(base as nat, 0);
    }
    while !below_pow2(q, mant_w)
        invariant
            base >= 2,
            q as nat == (value as nat) / scale(base as nat, e as nat),
            forall|k: nat| k < e ==> !#[trigger] fits(value as nat, k, mant_w as nat, base as nat),
            e + q <= value,
        decreases q,
    {
        proof {
            lemma_pow2_pos(mant_w as nat);
            lemma_div_decreases(q as int, base as int);
            lemma_scale_div(value as nat, e as nat, base as nat);
            assert(!fits(value as nat, e as nat, mant_w as nat, base as nat));
        }
        q = q / (base as u128);
        e = e + 1;
    }
    proof {
        assert(is_float_exponent(value as nat, e as nat, mant_w as nat, base as nat));
        lemma_exponent_unique(value as nat, e as nat, mant_w as nat, base as nat);
    }
    (e, q)
}

/// Encodes `value` as exponent bits followed by mantissa bits, each least
/// significant first. The exponent is the smallest under which the mantissa
/// fits; what the division leaves over is dropped. A value whose exponent
/// does not fit `exp_w` bits is refused with `AmountTooLarge`.
pub fn encode_float(value: u128, exp_w: usize, mant_w: usize, base: u32) -> (r: Result<
    Vec<bool>,
    TxError,
>)
    requires
        base >= 2,
    ensures
        match r {
            Ok(bits) => encode_float_spec(value as nat, exp_w as nat, mant_w as nat, base as nat)
                == Ok::<Seq<bool>, TxError>(bits@),
            Err(e) => encode_float_spec(value as nat, exp_w as nat, mant_w as nat, base as nat)
                == Err::<Seq<bool>, TxError>(e),
        },
{
    let (e, m) = float_parts(value, mant_w, base);
    if !below_pow2(e, exp_w) {
        return Err(TxError::AmountTooLarge);
    }
    let mut bits: Vec<bool> = low_bits(e, exp_w);
    let mut mantissa_bits: Vec<bool> = low_bits(m, mant_w);
    bits.append(&mut mantissa_bits);
    Ok(bits)
}

/// `mantissa * base^exponent`, or `None` where that is more than a `u128`
/// holds.
pub fn float_to_integer(exponent: u128, mantissa: u128, base: u32) -> (r: Option<u128>)
    requires
        base >= 2,
    ensures
        r == if float_value(exponent as nat, mantissa as nat, base as nat) <= u128::MAX {
            Some(float_value(exponent as nat, mantissa as nat, base as nat) as u128)
        } else {
            None
        },
{
    if mantissa == 0 {
        assert(float_value(exponent as nat, 0, base as nat) == 0) by {
            lemma_mul_basics(scale(base as nat, exponent as nat) as int);
        }
        return Some(0);
    }
    let mut acc: u128 = mantissa;
    let mut k: u128 = 0;
    proof {
        lemma_scale(base as nat, 0);
    }
    while k < exponent
        invariant
            base >= 2,
            mantissa >= 1,
            k <= exponent,
            acc as nat == float_value(k as nat, mantissa as nat, base as nat),
        decreases exponent - k,
    {
        proof {
            lemma_scale(base as nat, k as nat);
            lemma_mul_is_associative(
                mantissa as int,
                scale(base as nat, k as nat) as int,
                base as int,
            );
            lemma_mul_is_commutative(base as int, scale(base as nat, k as nat) as int);
        }
        match acc.checked_mul(base as u128) {
            Some(next) => {
                acc = next;
            },
            None => {
                proof {
                    lemma_pow_increases(base as nat, (k + 1) as nat, exponent as nat);
                    lemma_scale(base as nat, exponent as nat);
                    lemma_scale(base as nat, (k + 1) as nat);
                    lemma_mul_inequality(
                        scale(base as nat, (k + 1) as nat) as int,
                        scale(base as nat, exponent as nat) as int,
                        mantissa as int,
                    );
                    lemma_mul_is_commutative(
                        mantissa as int,
                        scale(base as nat, exponent as nat) as int,
                    );
                    lemma_mul_is_commutative(
                        mantissa as int,
                        scale(base as nat, (k + 1) as nat) as int,
                    );
                }
                return None;
            },
        }
        k = k + 1;
    }
    Some(acc)
}

/// Decodes a sequence of `exp_w` exponent bits followed by `mant_w` mantissa
/// bits into `mantissa * base^exponent`; `None` where that is more than a
/// `u128` holds.
pub fn decode_float(bits: &Vec<bool>, exp_w: usize, mant_w: usize, base: u32) -> (r: Option<u128>)
    requires
        base >= 2,
        exp_w <= 128,
        mant_w <= 128,
        bits@.len() == exp_w + mant_w,
    ensures
        r == if decode_float_spec(bits@, exp_w as nat, base as nat) <= u128::MAX {
            Some(decode_float_spec(bits@, exp_w as nat, base as nat) as u128)
        } else {
            None
        },
{
    let all: &[bool] = bits.as_slice();
    let exponent: u128 = decode_fixed(slice_subrange(all, 0, exp_w));
    let mantissa: u128 = decode_fixed(slice_subrange(all, exp_w, exp_w + mant_w));
    proof {
        assert(bits@.subrange(0, exp_w as int) =~= bits@.take(exp_w as int));
        assert(bits@.subrange(exp_w as int, exp_w + mant_w) =~= bits@.skip(exp_w as int));
    }
    float_to_integer(exponent, mantissa, base)
}

/// Rounds `value` down to what survives encoding and decoding: the value
/// that its exponent and mantissa stand for. Refused like the encoding where
/// the exponent does not fit `exp_w` bits.
pub fn closest_packable(value: u128, exp_w: usize, mant_w: usize, base: u32) -> (r: Result<
    u128,
    TxError,
>)
    requires
        base >= 2,
    ensures
        r is Ok <==> encode_float_spec(value as nat, exp_w as nat, mant_w as nat, base as nat)
            is Ok,
        r is Ok ==> r->Ok_0 == packable_floor(value as nat, mant_w as nat, base as nat),
        r is Err ==> r->Err_0 == TxError::AmountTooLarge,
{
    let (e, m) = float_parts(value, mant_w, base);
    if !below_pow2(e, exp_w) {
        return Err(TxError::AmountTooLarge);
    }
    proof {
        law_floor_not_above(value as nat, mant_w as nat, base as nat);
    }
    match float_to_integer(e, m, base) {
        Some(p) => Ok(p),
        None => Err(TxError::AmountTooLarge),
    }
}

/// Decoding an encoded value never gives more than the value.
pub proof fn law_floor_not_above(v: nat, mant_w: nat, base: nat)
    requires
        base >= 2,
    ensures
        packable_floor(v, mant_w, base) <= v,
{
    let e = float_exponent(v, mant_w, base);
    lemma_scale(base, e);
    lemma_remainder_lower(v as int, scale(base, e) as int);
}

/// Encoding and then decoding gives the rounded-down value: the bits that
/// encoding produces stand for `packable_floor`.
pub proof fn law_float_round_trip(v: nat, exp_w: nat, mant_w: nat, base: nat)
    requires
        base >= 2,
        encode_float_spec(v, exp_w, mant_w, base) is Ok,
    ensures
        decode_float_spec(encode_float_spec(v, exp_w, mant_w, base)->Ok_0, exp_w, base)
            == packable_floor(v, mant_w, base),
{
    let e = float_exponent(v, mant_w, base);
    let m = float_mantissa(v, mant_w, base);
    let bits = le_bits(e, exp_w) + le_bits(m, mant_w);
    lemma_exponent_exists(v, mant_w, base);
    assert(bits.take(exp_w as int) =~= le_bits(e, exp_w));
    assert(bits.skip(exp_w as int) =~= le_bits(m, mant_w));
    lemma_le_bits_value(e, exp_w);
    lemma_le_bits_value(m, mant_w);
    lemma_small_mod(e, pow2(exp_w));
    lemma_small_mod(m, pow2(mant_w));
}

/// Encoding is refused exactly where no exponent of `exp_w` bits lets the
/// mantissa fit, and the refusal is `AmountTooLarge`.
pub proof fn law_too_large(v: nat, exp_w: nat, mant_w: nat, base: nat)
    requires
        base >= 2,
    ensures
        encode_float_spec(v, exp_w, mant_w, base) is Err <==> (forall|e: nat|
            e < pow2(exp_w) ==> !#[trigger] fits(v, e, mant_w, base)),
        encode_float_spec(v, exp_w, mant_w, base) is Err ==> encode_float_spec(
            v,
            exp_w,
            mant_w,
            base,
        ) == Err::<Seq<bool>, TxError>(TxError::AmountTooLarge),
{
    lemma_exponent_exists(v, mant_w, base);
    let c = float_exponent(v, mant_w, base);
    if c < pow2(exp_w) {
        assert(fits(v, c, mant_w, base));
    } else {
        assert forall|e: nat| e < pow2(exp_w) implies !#[trigger] fits(v, e, mant_w, base) by {
            assert(e < c);
        }
    }
}

/// Rounding is stable: a rounded-down value rounds down to itself, and its
/// exponent is no larger than that of the value it came from, so that it can
/// be encoded wherever that value can.
pub proof fn law_floor_idempotent(v: nat, mant_w: nat, base: nat)
    requires
        base >= 2,
    ensures
        packable_floor(packable_floor(v, mant_w, base), mant_w, base) == packable_floor(
            v,
            mant_w,
            base,
        ),
        float_exponent(packable_floor(v, mant_w, base), mant_w, base) <= float_exponent(
            v,
            mant_w,
            base,
        ),
{
    let e = float_exponent(v, mant_w, base);
    let m = float_mantissa(v, mant_w, base);
    let p = packable_floor(v, mant_w, base);
    lemma_exponent_exists(v, mant_w, base);
    lemma_scale(base, e);
    lemma_div_multiples_vanish(m as int, scale(base, e) as int);
    lemma_mul_is_commutative(m as int, scale(base, e) as int);
    assert(fits(p, e, mant_w, base));
    lemma_exponent_exists(p, mant_w, base);
    let f = float_exponent(p, mant_w, base);
    if e < f {
        assert(!fits(p, e, mant_w, base));
    }
    let d = (e - f) as nat;
    lemma_scale(base, f);
    lemma_scale(base, d);
    lemma_pow_adds(base as int, d, f);
    lemma_mul_is_associative(m as int, scale(base, d) as int, scale(base, f) as int);
    lemma_div_multiples_vanish((m * scale(base, d)) as int, scale(base, f) as int);
    lemma_mul_is_commutative((m * scale(base, d)) as int, scale(base, f) as int);
}

/// Encoding, decoding, encoding and decoding again gives what the first
/// round gave: the decoded value can be encoded wherever the value itself
/// can, and its bits stand for it exactly.
pub proof fn law_rounding_stable(v: nat, exp_w: nat, mant_w: nat, base: nat)
    requires
        base >= 2,
        encode_float_spec(v, exp_w, mant_w, base) is Ok,
    ensures
        encode_float_spec(packable_floor(v, mant_w, base), exp_w, mant_w, base) is Ok,
        decode_float_spec(
            encode_float_spec(packable_floor(v, mant_w, base), exp_w, mant_w, base)->Ok_0,
            exp_w,
            base,
        ) == decode_float_spec(encode_float_spec(v, exp_w, mant_w, base)->Ok_0, exp_w, base),
{
    law_floor_idempotent(v, mant_w, base);
    law_float_round_trip(v, exp_w, mant_w, base);
    law_float_round_trip(packable_floor(v, mant_w, base), exp_w, mant_w, base);
}

/// Among the values that a mantissa of `mant_w` bits and any exponent stand
/// for, none lies above the rounded-down value and at or below `v`. This
/// holds where the chosen exponent is zero, or where the largest mantissa
/// under the next smaller exponent does not come out above the rounded-down
/// value; elsewhere that pair is a counterexample.
pub proof fn law_floor_is_closest(v: nat, mant_w: nat, base: nat, e: nat, m: nat)
    requires
        base >= 2,
        m < pow2(mant_w),
        float_value(e, m, base) <= v,
        float_exponent(v, mant_w, base) == 0 || float_value(
            (float_exponent(v, mant_w, base) - 1) as nat,
            (pow2(mant_w) - 1) as nat,
            base,
        ) <= packable_floor(v, mant_w, base),
    ensures
        float_value(e, m, base) <= packable_floor(v, mant_w, base),
{
    let c = float_exponent(v, mant_w, base);
    let cm = float_mantissa(v, mant_w, base);
    lemma_exponent_exists(v, mant_w, base);
    lemma_scale(base, c);
    lemma_scale(base, e);
    if e >= c {
        let d = (e - c) as nat;
        lemma_scale(base, d);
        lemma_pow_adds(base as int, d, c);
        lemma_mul_is_associative(m as int, scale(base, d) as int, scale(base, c) as int);
        let a = m * scale(base, d);
        lemma_div_is_ordered((a * scale(base, c)) as int, v as int, scale(base, c) as int);
        lemma_div_multiples_vanish(a as int, scale(base, c) as int);
        lemma_mul_is_commutative(a as int, scale(base, c) as int);
        lemma_mul_inequality(a as int, cm as int, scale(base, c) as int);
    } else {
        let j = (c - 1) as nat;
        lemma_scale(base, j);
        lemma_pow_increases(base, e, j);
        let top = (pow2(mant_w) - 1) as nat;
        assert(m * scale(base, e) <= top * scale(base, j)) by (nonlinear_arith)
            requires
                m <= top,
                scale(base, e) <= scale(base, j),
        ;
    }
}

/// Where the condition of `law_floor_is_closest` fails, the largest mantissa
/// under the next smaller exponent stands for a value that is at most `v`
/// and above the rounded-down value.
pub proof fn law_floor_not_closest(v: nat, mant_w: nat, base: nat)
    requires
        base >= 2,
        float_exponent(v, mant_w, base) > 0,
        float_value(
            (float_exponent(v, mant_w, base) - 1) as nat,
            (pow2(mant_w) - 1) as nat,
            base,
        ) > packable_floor(v, mant_w, base),
    ensures
        float_value(
            (float_exponent(v, mant_w, base) - 1) as nat,
            (pow2(mant_w) - 1) as nat,
            base,
        ) <= v,
{
    let c = float_exponent(v, mant_w, base);
    let j = (c - 1) as nat;
    lemma_exponent_exists(v, mant_w, base);
    lemma_scale(base, j);
    lemma_pow2_pos(mant_w);
    assert(!fits(v, j, mant_w, base));
    let q = v / scale(base, j);
    lemma_remainder_lower(v as int, scale(base, j) as int);
    lemma_mul_inequality((pow2(mant_w) - 1) as int, q as int, scale(base, j) as int);
}

} // verus!
