use rollup_codec::bits::{decode_fixed, encode_fixed, low_bits, pack_bits_into_bytes, below_pow2};
use rollup_codec::error::TxError;
use rollup_codec::fee::{batch_fee, sum_fees};
use rollup_codec::float::{closest_packable, decode_float, encode_float, float_parts, float_to_integer};

fn bits_of(text: &str) -> Vec<bool> {
    text.chars().map(|c| c == '1').collect()
}

#[test]
fn fixed_bits_are_least_significant_first() {
    assert_eq!(encode_fixed(5, 4), Ok(bits_of("1010")));
    assert_eq!(encode_fixed(1, 3), Ok(bits_of("100")));
    assert_eq!(encode_fixed(0, 0), Ok(vec![]));
    assert_eq!(low_bits(0b1101, 2), bits_of("10"));
}

#[test]
fn fixed_overflow_is_refused() {
    assert_eq!(encode_fixed(16, 4), Err(TxError::EncodingOverflow));
    assert_eq!(encode_fixed(1, 0), Err(TxError::EncodingOverflow));
    assert_eq!(encode_fixed(15, 4), Ok(bits_of("1111")));
    assert!(encode_fixed(u128::MAX, 128).is_ok());
    assert_eq!(encode_fixed(u128::MAX, 127), Err(TxError::EncodingOverflow));
}

#[test]
fn fixed_round_trip_on_values() {
    for width in 0..10usize {
        for v in 0..(1u128 << width) {
            let bits = encode_fixed(v, width).unwrap();
            assert_eq!(bits.len(), width);
            assert_eq!(decode_fixed(&bits), v);
        }
    }
    let bits = encode_fixed(u128::MAX - 7, 128).unwrap();
    assert_eq!(decode_fixed(&bits), u128::MAX - 7);
}

#[test]
fn decode_fixed_reads_any_bits() {
    assert_eq!(decode_fixed(&bits_of("")), 0);
    assert_eq!(decode_fixed(&bits_of("0001")), 8);
    assert_eq!(decode_fixed(&bits_of("1110")), 7);
    assert_eq!(decode_fixed(&vec![true; 128]), u128::MAX);
}

#[test]
fn below_pow2_at_the_edges() {
    assert!(below_pow2(15, 4));
    assert!(!below_pow2(16, 4));
    assert!(below_pow2(0, 0));
    assert!(!below_pow2(1, 0));
    assert!(below_pow2(u128::MAX, 128));
    assert!(below_pow2(u128::MAX, 500));
    assert!(!below_pow2(u128::MAX, 127));
}

#[test]
fn packing_is_most_significant_bit_first() {
    assert_eq!(pack_bits_into_bytes(&bits_of("10000000")), vec![0x80]);
    assert_eq!(pack_bits_into_bytes(&bits_of("00000001")), vec![0x01]);
    assert_eq!(pack_bits_into_bytes(&bits_of("1010010111")), vec![0xa5, 0xc0]);
    assert_eq!(pack_bits_into_bytes(&bits_of("")), Vec::<u8>::new());
    assert_eq!(pack_bits_into_bytes(&bits_of("1")), vec![0x80]);
    assert_eq!(pack_bits_into_bytes(&vec![true; 16]), vec![0xff, 0xff]);
}

#[test]
fn float_example_with_five_mantissa_bits() {
    // 230 = 23 * 10^1; the exponent's three bits come first.
    assert_eq!(float_parts(230, 5, 10), (1, 23));
    assert_eq!(encode_fixed(23, 5), Ok(bits_of("11101")));
    assert_eq!(encode_float(230, 3, 5, 10), Ok(bits_of("10011101")));
    // 239 loses its last digit.
    assert_eq!(float_parts(239, 5, 10), (1, 23));
    assert_eq!(encode_float(239, 3, 5, 10), Ok(bits_of("10011101")));
    let bits = encode_float(239, 3, 5, 10).unwrap();
    assert_eq!(decode_float(&bits, 3, 5, 10), Some(230));
    assert_eq!(closest_packable(239, 3, 5, 10), Ok(230));
}

#[test]
fn float_with_four_mantissa_bits_takes_the_next_exponent() {
    // 23 does not fit four bits, so 230 keeps one digit only.
    assert_eq!(float_parts(230, 4, 10), (2, 2));
    assert_eq!(encode_float(230, 3, 4, 10), Ok(bits_of("0100100")));
    assert_eq!(closest_packable(230, 3, 4, 10), Ok(200));
    assert_eq!(closest_packable(239, 3, 4, 10), Ok(200));
    assert_eq!(float_parts(15, 4, 10), (0, 15));
    assert_eq!(float_parts(16, 4, 10), (1, 1));
    assert_eq!(float_parts(0, 4, 10), (0, 0));
}

#[test]
fn float_exponent_is_the_smallest_that_fits() {
    for v in 0..5000u128 {
        let (e, m) = float_parts(v, 4, 10);
        let scale = 10u128.pow(e as u32);
        assert_eq!(m, v / scale);
        assert!(m < 16);
        if e > 0 {
            assert!(v / (scale / 10) >= 16);
        }
    }
}

#[test]
fn amount_too_large_is_refused() {
    // 1600 needs the exponent 3, which one bit cannot hold.
    assert_eq!(float_parts(1600, 4, 10), (3, 1));
    assert_eq!(encode_float(1600, 1, 4, 10), Err(TxError::AmountTooLarge));
    assert_eq!(closest_packable(1600, 1, 4, 10), Err(TxError::AmountTooLarge));
    assert!(encode_float(1600, 2, 4, 10).is_ok());
    assert_eq!(encode_float(159, 1, 4, 10), Ok(bits_of("11111")));
    assert_eq!(encode_float(160, 1, 4, 10), Err(TxError::AmountTooLarge));
    assert_eq!(encode_float(1, 0, 0, 10), Err(TxError::AmountTooLarge));
    assert_eq!(encode_float(0, 0, 0, 10), Ok(vec![]));
}

#[test]
fn decode_never_gives_more_than_the_value() {
    for v in 0..3000u128 {
        let bits = encode_float(v, 3, 4, 10).unwrap();
        let back = decode_float(&bits, 3, 4, 10).unwrap();
        assert!(back <= v);
        assert_eq!(closest_packable(v, 3, 4, 10), Ok(back));
    }
}

#[test]
fn rounding_is_stable() {
    for v in 0..3000u128 {
        let once = closest_packable(v, 3, 4, 10).unwrap();
        assert_eq!(closest_packable(once, 3, 4, 10), Ok(once));
    }
    let big = closest_packable(u128::MAX, 6, 11, 10).unwrap();
    assert_eq!(big, 340 * 10u128.pow(36));
    assert_eq!(closest_packable(big, 6, 11, 10), Ok(big));
    assert_eq!(closest_packable(u128::MAX, 5, 11, 10), Err(TxError::AmountTooLarge));
}

#[test]
fn a_smaller_exponent_can_come_closer() {
    // 160 is kept as 1 * 10^2, though 15 * 10^1 lies between.
    assert_eq!(closest_packable(160, 3, 4, 10), Ok(100));
    assert_eq!(float_to_integer(1, 15, 10), Some(150));
}

#[test]
fn float_to_integer_reports_overflow() {
    assert_eq!(float_to_integer(0, 7, 10), Some(7));
    assert_eq!(float_to_integer(3, 7, 10), Some(7000));
    assert_eq!(float_to_integer(200, 0, 10), Some(0));
    assert_eq!(float_to_integer(38, 3, 10), Some(300000000000000000000000000000000000000));
    assert_eq!(float_to_integer(38, 4, 10), None);
    assert_eq!(float_to_integer(127, 1, 2), Some(1u128 << 127));
    assert_eq!(float_to_integer(128, 1, 2), None);
}

#[test]
fn decode_float_splits_exponent_and_mantissa() {
    assert_eq!(decode_float(&bits_of("0101100"), 3, 4, 10), Some(300));
    assert_eq!(decode_float(&bits_of("0000000"), 3, 4, 10), Some(0));
    assert_eq!(decode_float(&bits_of("1111111"), 3, 4, 10), Some(150000000));
    assert_eq!(decode_float(&bits_of("1111"), 0, 4, 10), Some(15));
    assert_eq!(decode_float(&vec![true; 20], 10, 10, 10), None);
}

#[test]
fn batch_fee_total_is_packable() {
    // 150 and 9 are both kept exactly; their sum is not.
    assert_eq!(closest_packable(150, 3, 4, 10), Ok(150));
    assert_eq!(closest_packable(9, 3, 4, 10), Ok(9));
    assert_eq!(closest_packable(159, 3, 4, 10), Ok(150));
    let total = batch_fee(&vec![150, 9], 3, 4, 10).unwrap();
    assert_eq!(total, 150);
    assert_eq!(closest_packable(total, 3, 4, 10), Ok(total));
    assert_eq!(batch_fee(&vec![], 3, 4, 10), Ok(0));
}

#[test]
fn batch_fee_errors() {
    assert_eq!(sum_fees(&vec![1, 2, 3]), Some(6));
    assert_eq!(sum_fees(&vec![u128::MAX, 1]), None);
    assert_eq!(batch_fee(&vec![u128::MAX, 1], 5, 11, 10), Err(TxError::EncodingOverflow));
    assert_eq!(batch_fee(&vec![100, 60], 1, 4, 10), Err(TxError::AmountTooLarge));
}

#[test]
fn error_messages_differ() {
    let all = [
        TxError::EncodingOverflow,
        TxError::AmountTooLarge,
        TxError::InvalidSignaturePoint,
        TxError::InvalidScalar,
    ];
    for (i, a) in all.iter().enumerate() {
        assert!(!a.message().is_empty());
        for b in all.iter().skip(i + 1) {
            assert_ne!(a.message(), b.message());
        }
    }
    assert_eq!(TxError::EncodingOverflow.message(), "integer exceeds its fixed-width field");
}
