use rand::{SeedableRng, XorShiftRng};
use rollup_codec::error::TxError;
use rollup_codec::field::U256;
use rollup_codec::signature::{
    verify, CurvePoint, EddsaSignature, PublicKey, TransactionSignature, TxSignature,
};
use rollup_codec::tx::{Params, TransferTx, Tx};
use sapling_crypto_ce::alt_babyjubjub::fs::Fs;
use sapling_crypto_ce::alt_babyjubjub::AltJubjubBn256;
use sapling_crypto_ce::bellman::pairing::bn256::Bn256;
use sapling_crypto_ce::bellman::pairing::ff::PrimeField;
use sapling_crypto_ce::eddsa::PrivateKey;
use sapling_crypto_ce::jubjub::FixedGenerators;

const FIELD_MODULUS: [u64; 4] =
    [0x43e1f593f0000001, 0x2833e84879b97091, 0xb85045b68181585d, 0x30644e72e131a029];
const SUBGROUP_ORDER: [u64; 4] =
    [0x677297dc392126f1, 0xab3eedb83920ee0a, 0x370a08b6d0302b0b, 0x060c89ce5c263405];

fn small(v: u64) -> U256 {
    U256 { limbs: [v, 0, 0, 0] }
}

fn params() -> Params {
    Params::new(24, 5, 11, 5, 3, 16, 32).unwrap()
}

fn unsigned_transfer() -> TransferTx {
    TransferTx {
        from: 3,
        to: 7,
        amount: 239,
        fee: 5,
        nonce: 11,
        good_until_block: 100,
        signature: TxSignature { r_x: small(0), r_y: small(1), s: small(0) },
    }
}

/// Signs the transfer's message with a fixed key and gives the signed
/// transfer and the key.
fn signed_transfer() -> (TransferTx, PublicKey) {
    let curve = AltJubjubBn256::new();
    let generator = FixedGenerators::SpendingKeyGenerator;
    let mut rng = XorShiftRng::from_seed([0x5dbe6259, 0x8d313d76, 0x3237db17, 0xe5bc0654]);
    let secret = PrivateKey::<Bn256>(Fs::from_str("271828182845904523536").unwrap());
    let public = sapling_crypto_ce::eddsa::PublicKey::from_private(&secret, generator, &curve);
    let mut tx = unsigned_transfer();
    let message = tx.message_bytes(&params()).unwrap();
    let signature = secret.sign_raw_message(&message, &mut rng, generator, &curve, 16);
    let (r_x, r_y) = signature.r.into_xy();
    tx.signature = TxSignature {
        r_x: U256 { limbs: r_x.into_repr().0 },
        r_y: U256 { limbs: r_y.into_repr().0 },
        s: U256 { limbs: signature.s.into_repr().0 },
    };
    let (key_x, key_y) = public.0.into_xy();
    let key = PublicKey {
        point: CurvePoint {
            x: U256 { limbs: key_x.into_repr().0 },
            y: U256 { limbs: key_y.into_repr().0 },
        },
    };
    (tx, key)
}

#[test]
fn u256_comparison_and_ranges() {
    assert!(small(1).less_than(&small(2)));
    assert!(!small(2).less_than(&small(2)));
    assert!(U256 { limbs: [9, 0, 0, 1] }.less_than(&U256 { limbs: [0, 1, 0, 1] }));
    assert!(!U256 { limbs: [0, 0, 1, 0] }.less_than(&U256 { limbs: [u64::MAX, u64::MAX, 0, 0] }));
    assert!(!U256 { limbs: FIELD_MODULUS }.check_field_element());
    let mut below = FIELD_MODULUS;
    below[0] -= 1;
    assert!(U256 { limbs: below }.check_field_element());
    assert!(!U256 { limbs: SUBGROUP_ORDER }.check_scalar());
    let mut below = SUBGROUP_ORDER;
    below[0] -= 1;
    assert!(U256 { limbs: below }.check_scalar());
    assert!(U256 { limbs: SUBGROUP_ORDER }.check_field_element());
}

#[test]
fn u256_from_integers() {
    assert_eq!(U256::from_u128(5).limbs, [5, 0, 0, 0]);
    assert_eq!(U256::from_u128(u128::MAX).limbs, [u64::MAX, u64::MAX, 0, 0]);
    assert_eq!(U256::from_u128(1u128 << 64).limbs, [0, 1, 0, 0]);
    assert_eq!(U256::zero().limbs, [0, 0, 0, 0]);
    assert_eq!(U256::from_limbs([1, 2, 3, 4]).limbs, [1, 2, 3, 4]);
}

#[test]
fn point_off_the_curve_is_refused() {
    let flat = TxSignature { r_x: small(1), r_y: small(1), s: small(5) };
    assert_eq!(TransactionSignature::try_from(flat), Err(TxError::InvalidSignaturePoint));
    assert_eq!(flat.to_jubjub_eddsa(), Err(TxError::InvalidSignaturePoint));
}

#[test]
fn key_off_the_curve_is_not_made() {
    assert_eq!(CurvePoint::from_xy(small(1), small(1)), None);
    assert_eq!(PublicKey::from_xy(small(2), small(3)), None);
}

#[test]
fn coordinate_outside_the_field_is_refused() {
    let flat = TxSignature { r_x: small(0), r_y: U256 { limbs: FIELD_MODULUS }, s: small(5) };
    assert_eq!(TransactionSignature::try_from(flat), Err(TxError::InvalidSignaturePoint));
    let mut shifted = FIELD_MODULUS;
    shifted[0] += 1;
    // One more than the modulus stands for the same residue as 1, and is
    // still no field element.
    assert_eq!(CurvePoint::from_xy(small(0), U256 { limbs: shifted }), None);
}

#[test]
fn neutral_point_is_on_the_curve() {
    let point = CurvePoint::from_xy(small(0), small(1)).unwrap();
    assert_eq!(point.into_xy(), (small(0), small(1)));
    let mut minus_one = FIELD_MODULUS;
    minus_one[0] -= 1;
    assert!(CurvePoint::from_xy(small(0), U256 { limbs: minus_one }).is_some());
    assert!(CurvePoint::from_xy(small(0), small(0)).is_none());
}

#[test]
fn flat_round_trip() {
    let flat = TxSignature { r_x: small(0), r_y: small(1), s: small(12345) };
    let curve = TransactionSignature::try_from(flat).unwrap();
    assert_eq!(curve.r, CurvePoint { x: small(0), y: small(1) });
    assert_eq!(TxSignature::try_from(curve), Ok(flat));
    let eddsa = flat.to_jubjub_eddsa().unwrap();
    assert_eq!(eddsa, EddsaSignature { r: CurvePoint { x: small(0), y: small(1) }, s: small(12345) });
    assert_eq!(TxSignature::from_eddsa(&eddsa), flat);
}

#[test]
fn flat_round_trip_of_a_real_signature() {
    let (tx, _) = signed_transfer();
    let curve = TransactionSignature::try_from(tx.signature).unwrap();
    assert_eq!(TxSignature::try_from(curve), Ok(tx.signature));
    let eddsa = tx.signature.to_jubjub_eddsa().unwrap();
    assert_eq!(TxSignature::from_eddsa(&eddsa), tx.signature);
}

#[test]
fn scalar_outside_the_subgroup_is_refused() {
    let flat = TxSignature { r_x: small(0), r_y: small(1), s: U256 { limbs: SUBGROUP_ORDER } };
    assert_eq!(flat.to_jubjub_eddsa(), Err(TxError::InvalidScalar));
    // The witness form keeps the scalar as a field element.
    assert!(TransactionSignature::try_from(flat).is_ok());
}

#[test]
fn scalar_outside_the_field_is_refused() {
    let flat = TxSignature { r_x: small(0), r_y: small(1), s: U256 { limbs: FIELD_MODULUS } };
    assert_eq!(TransactionSignature::try_from(flat), Err(TxError::InvalidScalar));
    assert_eq!(flat.to_jubjub_eddsa(), Err(TxError::InvalidScalar));
}

#[test]
fn message_layout() {
    let widths = Params::new(3, 2, 3, 1, 2, 2, 3).unwrap();
    let tx = TransferTx {
        from: 1,
        to: 6,
        amount: 70,
        fee: 2,
        nonce: 3,
        good_until_block: 4,
        signature: TxSignature { r_x: small(0), r_y: small(1), s: small(0) },
    };
    let text = "100".to_string() + "011" + "10" + "111" + "0" + "01" + "11" + "001";
    let expected: Vec<bool> = text.chars().map(|c| c == '1').collect();
    assert_eq!(tx.message_bits(&widths), Ok(expected));
    assert_eq!(tx.message_bytes(&widths), Ok(vec![0b10001110, 0b11100111, 0b00100000]));
}

#[test]
fn message_errors_name_the_first_field_that_fails() {
    let widths = Params::new(3, 1, 3, 1, 2, 2, 3).unwrap();
    let mut tx = unsigned_transfer();
    tx.from = 8;
    tx.amount = 1 << 100;
    assert_eq!(tx.message_bits(&widths), Err(TxError::EncodingOverflow));
    tx.from = 7;
    assert_eq!(tx.message_bits(&widths), Err(TxError::AmountTooLarge));
    tx.amount = 1;
    tx.fee = 1;
    tx.nonce = 4;
    assert_eq!(tx.message_bits(&widths), Err(TxError::EncodingOverflow));
    assert_eq!(tx.verify_sig(&PublicKey { point: CurvePoint { x: small(0), y: small(1) } }, &widths),
        Err(TxError::EncodingOverflow));
}

#[test]
fn params_longer_than_a_message_are_refused() {
    assert!(Params::new(24, 5, 11, 5, 3, 32, 32).is_none());
    assert!(Params::new(24, 5, 11, 5, 3, 24, 32).is_some());
    assert!(Params::new(usize::MAX, 0, 0, 0, 0, 0, 0).is_none());
    assert_eq!(params().account_width, 24);
}

#[test]
fn signed_transfer_verifies() {
    let (tx, key) = signed_transfer();
    assert_eq!(tx.verify_sig(&key, &params()), Ok(true));
}

#[test]
fn signed_message_verifies() {
    let (tx, key) = signed_transfer();
    let message = tx.message_bytes(&params()).unwrap();
    assert_eq!(message.len(), 15);
    assert_eq!(verify(&message, &tx.signature, &key), Ok(true));
}

#[test]
fn key_of_the_signer_is_on_the_curve() {
    let (_, key) = signed_transfer();
    assert_eq!(PublicKey::from_xy(key.point.x, key.point.y), Some(key));
}

#[test]
fn flipped_first_message_bit_fails() {
    let (tx, key) = signed_transfer();
    let mut message = tx.message_bytes(&params()).unwrap();
    message[0] ^= 0x80;
    assert_eq!(verify(&message, &tx.signature, &key), Ok(false));
}

#[test]
fn flipped_last_message_bit_fails() {
    let (tx, key) = signed_transfer();
    let mut message = tx.message_bytes(&params()).unwrap();
    message[14] ^= 0x01;
    assert_eq!(verify(&message, &tx.signature, &key), Ok(false));
}

#[test]
fn changed_field_fails() {
    let (tx, key) = signed_transfer();
    let mut other = tx;
    other.nonce += 1;
    assert_eq!(other.verify_sig(&key, &params()), Ok(false));
}

#[test]
fn flipped_low_scalar_bit_fails() {
    let (tx, key) = signed_transfer();
    let mut changed = tx;
    changed.signature.s.limbs[0] ^= 1;
    assert_eq!(changed.verify_sig(&key, &params()), Ok(false));
}

#[test]
fn flipped_middle_scalar_bit_fails() {
    let (tx, key) = signed_transfer();
    let mut changed = tx;
    changed.signature.s.limbs[1] ^= 1 << 17;
    assert_eq!(changed.verify_sig(&key, &params()), Ok(false));
}

#[test]
fn scalar_with_the_top_bit_set_is_an_error() {
    let (tx, key) = signed_transfer();
    let mut changed = tx;
    changed.signature.s.limbs[3] |= 1 << 63;
    assert_eq!(changed.verify_sig(&key, &params()), Err(TxError::InvalidScalar));
}

#[test]
fn wrong_key_fails() {
    let (tx, _) = signed_transfer();
    let neutral = PublicKey { point: CurvePoint { x: small(0), y: small(1) } };
    assert_eq!(tx.verify_sig(&neutral, &params()), Ok(false));
}

#[test]
fn key_off_the_curve_is_an_error() {
    let (tx, _) = signed_transfer();
    let bad = PublicKey { point: CurvePoint { x: small(1), y: small(1) } };
    assert_eq!(tx.verify_sig(&bad, &params()), Err(TxError::InvalidSignaturePoint));
}

#[test]
fn witness_of_a_transfer() {
    let (tx, _) = signed_transfer();
    let witness = Tx::try_from(&tx, &params()).unwrap();
    assert_eq!(witness.from, small(3));
    assert_eq!(witness.to, small(7));
    // 239 is kept whole by eleven mantissa bits: exponent 0, mantissa 239,
    // the mantissa above the five exponent bits.
    assert_eq!(witness.amount, small(239 << 5));
    assert_eq!(witness.fee, small(0));
    assert_eq!(witness.nonce, small(11));
    assert_eq!(witness.good_until_block, small(100));
    assert_eq!(TxSignature::try_from(witness.signature), Ok(tx.signature));
}

#[test]
fn witness_errors() {
    let widths = Params::new(3, 1, 3, 1, 2, 2, 3).unwrap();
    let mut tx = unsigned_transfer();
    tx.amount = 1 << 100;
    tx.signature.r_x = small(1);
    assert_eq!(Tx::try_from(&tx, &widths), Err(TxError::AmountTooLarge));
    tx.amount = 70;
    assert_eq!(Tx::try_from(&tx, &widths), Err(TxError::InvalidSignaturePoint));
    tx.signature.r_x = small(0);
    // 70 = 7 * 10^1: exponent bit 1, then the mantissa 7.
    assert_eq!(Tx::try_from(&tx, &widths).unwrap().amount, small(0b1111));
}
