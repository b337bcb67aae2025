//! Fixed-width little-endian bit encoding of unsigned integers, and the
//! packing of a bit sequence into bytes.

use vstd::prelude::*;
use vstd::arithmetic::power2::*;
use vstd::arithmetic::div_mod::*;
use vstd::arithmetic::mul::*;
use crate::error::TxError;

verus! {

/// Bit `i` of `v`, counted from the least significant one.
pub open spec fn bit_at(v: nat, i: nat) -> bool {
    (v / pow2(i)) % 2 == 1
}

/// The `width` low bits of `v`, least significant first.
pub open spec fn le_bits(v: nat, width: nat) -> Seq<bool> {
    Seq::new(width, |i: int| bit_at(v, i as nat))
}

/// The number that a little-endian bit sequence stands for.
pub open spec fn bits_value(bits: Seq<bool>) -> nat
    decreases bits.len(),
{
    if bits.len() == 0 {
        0
    } else {
        bits_value(bits.drop_last()) + if bits.last() {
            pow2((bits.len() - 1) as nat)
        } else {
            0
        }
    }
}

/// What fixed-width encoding gives: the bits, or an overflow.
pub open spec fn encode_fixed_spec(v: nat, width: nat) -> Result<Seq<bool>, TxError> {
    if v < pow2(width) {
        Ok(le_bits(v, width))
    } else {
        Err(TxError::EncodingOverflow)
    }
}

/// 2^128 is one more than the largest `u128`.
pub proof fn lemma_pow2_128()
    ensures
        pow2(128) == 0x1_0000_0000_0000_0000_0000_0000_0000_0000,
        pow2(64) == 0x1_0000_0000_0000_0000,
{
    lemma2_to64();
    lemma_pow2_adds(64, 64);
    assert(0x1_0000_0000_0000_0000int * 0x1_0000_0000_0000_0000int
        == 0x1_0000_0000_0000_0000_0000_0000_0000_0000int) by (nonlinear_arith);
}

/// A sequence of `n` bits stands for a number below 2^n.
pub proof fn lemma_bits_value_bound(bits: Seq<bool>)
    ensures
        bits_value(bits) < pow2(bits.len()),
    decreases bits.len(),
{
    if bits.len() == 0 {
        lemma2_to64();
    } else {
        lemma_bits_value_bound(bits.drop_last());
        lemma_pow2_unfold(bits.len());
    }
}

/// The `width` low bits of `v` stand for `v` modulo 2^width.
pub proof fn lemma_le_bits_value(v: nat, width: nat)
    ensures
        bits_value(le_bits(v, width)) == v % pow2(width),
    decreases width,
{
    if width == 0 {
        lemma2_to64();
    } else {
        let w = (width - 1) as nat;
        lemma_le_bits_value(v, w);
        assert(le_bits(v, width).drop_last() =~= le_bits(v, w));
        lemma_pow2_unfold(width);
        lemma_pow2_pos(w);
        lemma_mod_breakdown(v as int, pow2(w) as int, 2);
        let d = (v / pow2(w)) % 2;
        assert(d == 0 || d == 1);
        assert(pow2(w) * d == if d == 1 { pow2(w) } else { 0 }) by (nonlinear_arith)
            requires d == 0 || d == 1;
    }
}

/// Decoding undoes encoding: for every `v` below 2^width, the encoded bits
/// stand for `v` again.
pub proof fn law_fixed_round_trip(v: nat, width: nat)
    requires
        v < pow2(width),
    ensures
        encode_fixed_spec(v, width) is Ok,
        bits_value(encode_fixed_spec(v, width)->Ok_0) == v,
{
    lemma_le_bits_value(v, width);
    lemma_small_mod(v, pow2(width));
}

/// Encoding undoes decoding: the bits of the number that a sequence stands
/// for, taken in the sequence's length, are the sequence.
pub proof fn law_fixed_inverse(bits: Seq<bool>)
    ensures
        bits_value(bits) < pow2(bits.len()),
        encode_fixed_spec(bits_value(bits), bits.len()) == Ok::<Seq<bool>, TxError>(bits),
    decreases bits.len(),
{
    lemma_bits_value_bound(bits);
    if bits.len() > 0 {
        let n = (bits.len() - 1) as nat;
        let rest = bits.drop_last();
        let low = bits_value(rest);
        let v = bits_value(bits);
        let top: nat = if bits.last() { 1 } else { 0 };
        law_fixed_inverse(rest);
        lemma_pow2_pos(n);
        assert(v == low + top * pow2(n)) by (nonlinear_arith)
            requires
                v == low + if top == 1 { pow2(n) } else { 0 },
                top == 0 || top == 1,
        ;
        assert forall|i: int| 0 <= i < bits.len() implies bit_at(v, i as nat) == bits[i] by {
            let k = pow2((n - i) as nat);
            lemma_pow2_pos(i as nat);
            lemma_pow2_adds(i as nat, (n - i) as nat);
            lemma_mul_is_associative(top as int, k as int, pow2(i as nat) as int);
            lemma_mul_is_commutative(k as int, pow2(i as nat) as int);
            lemma_hoist_over_denominator(low as int, (top * k) as int, pow2(i as nat));
            assert(v / pow2(i as nat) == low / pow2(i as nat) + top * k);
            if i < n {
                lemma_pow2_unfold((n - i) as nat);
                let h = pow2((n - i - 1) as nat);
                assert(top * k == 2 * (top * h)) by (nonlinear_arith)
                    requires
                        k == 2 * h,
                ;
                assert(le_bits(low, n)[i] == rest[i]);
            } else {
                lemma2_to64();
                lemma_basic_div(low as int, pow2(n) as int);
                assert(top * k == top) by (nonlinear_arith)
                    requires
                        k == 1,
                ;
            }
        }
        assert(le_bits(v, bits.len()) =~= bits);
    } else {
        assert(le_bits(0, 0) =~= bits);
    }
}

/// Whether `value` is below 2^width.
pub fn below_pow2(value: u128, width: usize) -> (b: bool)
    ensures
        b == ((value as nat) < pow2(width as nat)),
{
    if width < 128 {
        let top: u128 = value >> (width as u32);
        proof {
            lemma_pow2_128();
            lemma_pow2_strictly_increases(width as nat, 128);
            lemma_pow2_pos(width as nat);
            vstd::bits::lemma_u128_shr_is_div(value, width as u128);
            if (value as nat) < pow2(width as nat) {
                lemma_basic_div(value as int, pow2(width as nat) as int);
            } else {
                lemma_div_non_zero(value as int, pow2(width as nat) as int);
            }
        }
        top == 0
    } else {
        proof {
            lemma_pow2_128();
            if width > 128 {
                lemma_pow2_strictly_increases(128, width as nat);
            }
        }
        true
    }
}

/// The `width` low bits of `value`, least significant first; higher bits of
/// `value` are left out.
pub fn low_bits(value: u128, width: usize) -> (bits: Vec<bool>)
    ensures
        bits@ == le_bits(value as nat, width as nat),
{
    let mut bits: Vec<bool> = Vec::new();
    let mut rest: u128 = value;
    let mut i: usize = 0;
    proof {
        lemma2_to64();
        assert(bits@ =~= le_bits(value as nat, 0));
    }
    while i < width
        invariant
            i <= width,
            bits@ == le_bits(value as nat, i as nat),
            rest as nat == (value as nat) / pow2(i as nat),
        decreases width - i,
    {
        proof {
            lemma_pow2_unfold((i + 1) as nat);
            lemma_pow2_pos(i as nat);
            lemma_div_denominator(value as int, pow2(i as nat) as int, 2);
            assert(pow2(i as nat) * 2 == 2 * pow2(i as nat));
        }
        bits.push(rest % 2 == 1);
        rest = rest / 2;
        i += 1;
        assert(bits@ =~= le_bits(value as nat, i as nat));
    }
    bits
}

/// Encodes `value` in exactly `width` bits, least significant first.
/// A value of 2^width or more is refused.
pub fn encode_fixed(value: u128, width: usize) -> (r: Result<Vec<bool>, TxError>)
    ensures
        match r {
            Ok(bits) => encode_fixed_spec(value as nat, width as nat) == Ok::<Seq<bool>, TxError>(
                bits@,
            ),
            Err(e) => encode_fixed_spec(value as nat, width as nat) == Err::<Seq<bool>, TxError>(e),
        },
        r is Ok ==> bits_value(r->Ok_0@) == value && r->Ok_0@.len() == width,
{
    if !below_pow2(value, width) {
        return Err(TxError::EncodingOverflow);
    }
    proof {
        law_fixed_round_trip(value as nat, width as nat);
    }
    Ok(low_bits(value, width))
}

/// Reads a little-endian bit sequence of at most 128 bits back into the
/// number it stands for.
pub fn decode_fixed(bits: &[bool]) -> (value: u128)
    requires
        bits@.len() <= 128,
    ensures
        value == bits_value(bits@),
{
    let n: usize = bits.len();
    let mut acc: u128 = 0;
    let mut weight: u128 = 1;
    let mut i: usize = 0;
    proof {
        lemma2_to64();
        assert(bits@.take(0) =~= Seq::<bool>::empty());
    }
    while i < n
        invariant
            n == bits@.len(),
            n <= 128,
            i <= n,
            acc == bits_value(bits@.take(i as int)),
            i < n ==> weight == pow2(i as nat),
        decreases n - i,
    {
        proof {
            lemma_pow2_128();
            lemma_bits_value_bound(bits@.take(i as int));
            lemma_pow2_unfold((i + 1) as nat);
            if i + 1 < 128 {
                lemma_pow2_strictly_increases((i + 1) as nat, 128);
            }
            assert(bits@.take(i + 1).drop_last() =~= bits@.take(i as int));
            assert(bits@.take(i + 1).last() == bits@[i as int]);
        }
        if bits[i] {
            acc = acc + weight;
        }
        if i + 1 < n {
            weight = weight * 2;
        }
        i += 1;
    }
    assert(bits@.take(n as int) =~= bits@);
    acc
}

/// What the bit at `index` adds to its byte: `weight` where the bit is set,
/// nothing where it is clear or lies past the end of the sequence.
pub open spec fn bit_weight(bits: Seq<bool>, index: int, weight: nat) -> nat {
    if 0 <= index < bits.len() && bits[index] {
        weight
    } else {
        0
    }
}

/// Byte `k` of the packed form: bits `8k .. 8k+7`, the first of them in the
/// most significant place, and zeros past the end of the sequence.
pub open spec fn packed_byte(bits: Seq<bool>, k: int) -> nat {
    bit_weight(bits, 8 * k, 128) + bit_weight(bits, 8 * k + 1, 64) + bit_weight(
        bits,
        8 * k + 2,
        32,
    ) + bit_weight(bits, 8 * k + 3, 16) + bit_weight(bits, 8 * k + 4, 8) + bit_weight(
        bits,
        8 * k + 5,
        4,
    ) + bit_weight(bits, 8 * k + 6, 2) + bit_weight(bits, 8 * k + 7, 1)
}

/// The packed form of a bit sequence: one byte for every eight bits begun.
pub open spec fn packed_bytes(bits: Seq<bool>) -> Seq<u8> {
    Seq::new(((bits.len() + 7) / 8) as nat, |k: int| packed_byte(bits, k) as u8)
}

fn weigh_bit(bits: &Vec<bool>, index: usize, weight: u8) -> (w: u8)
    ensures
        w == bit_weight(bits@, index as int, weight as nat),
{
    if index < bits.len() && bits[index] {
        weight
    } else {
        0
    }
}

/// Packs bits into bytes, most significant bit first within each byte. A
/// last byte that is not full has zeros in its low places.
pub fn pack_bits_into_bytes(bits: &Vec<bool>) -> (bytes: Vec<u8>)
    ensures
        bytes@ == packed_bytes(bits@),
{
    let n: usize = bits.len();
    let count: usize = n / 8 + if n % 8 == 0 { 0 } else { 1 };
    let mut bytes: Vec<u8> = Vec::new();
    let mut k: usize = 0;
    while k < count
        invariant
            n == bits@.len(),
            count == (n + 7) / 8,
            k <= count,
            bytes@.len() == k,
            forall|j: int| 0 <= j < k ==> bytes@[j] == packed_byte(bits@, j) as u8,
        decreases count - k,
    {
        let base: usize = 8 * k;
        let mut byte: u8 = weigh_bit(bits, base, 128);
        byte = byte + weigh_bit(bits, base + 1, 64);
        byte = byte + weigh_bit(bits, base + 2, 32);
        byte = byte + weigh_bit(bits, base + 3, 16);
        byte = byte + weigh_bit(bits, base + 4, 8);
        byte = byte + weigh_bit(bits, base + 5, 4);
        byte = byte + weigh_bit(bits, base + 6, 2);
        byte = byte + weigh_bit(bits, base + 7, 1);
        bytes.push(byte);
        k += 1;
    }
    assert(bytes@ =~= packed_bytes(bits@));
    bytes
}

} // verus!
