//! Transactions, the bit sequence that a transfer is signed over, and the
//! field elements that the proving circuit takes as a transfer's witness.

use vstd::prelude::*;
use crate::bits::{bits_value, decode_fixed, encode_fixed, encode_fixed_spec, pack_bits_into_bytes, packed_bytes};
use crate::error::TxError;
use crate::field::U256;
use crate::float::{encode_float, encode_float_spec};
use crate::signature::{curve_form, verify, verify_spec, PublicKey, TransactionSignature, TxSignature};

verus! {

/// The base of the exponent in encoded amounts and fees.
pub const AMOUNT_BASE: u32 = 10;

/// The bit widths of a transfer's fields.
#[derive(Clone, Copy, Debug, PartialEq, Eq)]
pub struct Params {
    pub account_width: usize,
    pub amount_exponent_width: usize,
    pub amount_mantissa_width: usize,
    pub fee_exponent_width: usize,
    pub fee_mantissa_width: usize,
    pub nonce_width: usize,
    pub block_number_width: usize,
}

/// A transfer between two accounts, with its signature in flat form.
#[derive(Clone, Copy, Debug, PartialEq, Eq)]
pub struct TransferTx {
    pub from: u32,
    pub to: u32,
    pub amount: u128,
    pub fee: u128,
    pub nonce: u32,
    pub good_until_block: u32,
    pub signature: TxSignature,
}

/// A deposit observed on the underlying chain, with the depositor's key.
#[derive(Clone, Copy, Debug, PartialEq, Eq)]
pub struct DepositTx {
    pub account: u32,
    pub amount: u128,
    pub pub_x: U256,
    pub pub_y: U256,
}

/// An exit of an account's funds.
#[derive(Clone, Copy, Debug, PartialEq, Eq)]
pub struct ExitTx {
    pub account: u32,
    pub amount: u128,
}

/// A transfer as the proving circuit takes it: every field an element of the
/// circuit's field.
#[derive(Clone, Copy, Debug, PartialEq, Eq)]
pub struct Tx {
    pub from: U256,
    pub to: U256,
    pub amount: U256,
    pub fee: U256,
    pub nonce: U256,
    pub good_until_block: U256,
    pub signature: TransactionSignature,
}

impl Params {
    /// The number of bits of a transfer's signed message.
    pub open spec fn message_width(&self) -> nat {
        (2 * self.account_width + self.amount_exponent_width + self.amount_mantissa_width
            + self.fee_exponent_width + self.fee_mantissa_width + self.nonce_width
            + self.block_number_width) as nat
    }

    /// Whether a message of these widths is short enough to be signed: at
    /// most 128 bits.
    pub open spec fn wf(&self) -> bool {
        self.message_width() <= 128
    }

    /// The widths as given, where the message they make has at most 128
    /// bits.
    pub fn new(
        account_width: usize,
        amount_exponent_width: usize,
        amount_mantissa_width: usize,
        fee_exponent_width: usize,
        fee_mantissa_width: usize,
        nonce_width: usize,
        block_number_width: usize,
    ) -> (r: Option<Params>)
        ensures
            r == (if 2 * account_width + amount_exponent_width + amount_mantissa_width
                + fee_exponent_width + fee_mantissa_width + nonce_width + block_number_width
                <= 128 {
                Some(
                    Params {
                        account_width,
                        amount_exponent_width,
                        amount_mantissa_width,
                        fee_exponent_width,
                        fee_mantissa_width,
                        nonce_width,
                        block_number_width,
                    },
                )
            } else {
                None
            }),
            r is Some ==> r->Some_0.wf(),
    {
        if account_width > 128 || amount_exponent_width > 128 || amount_mantissa_width > 128
            || fee_exponent_width > 128 || fee_mantissa_width > 128 || nonce_width > 128
            || block_number_width > 128 {
            return None;
        }
        let total: usize = 2 * account_width + amount_exponent_width + amount_mantissa_width
            + fee_exponent_width + fee_mantissa_width + nonce_width + block_number_width;
        if total > 128 {
            return None;
        }
        Some(
            Params {
                account_width,
                amount_exponent_width,
                amount_mantissa_width,
                fee_exponent_width,
                fee_mantissa_width,
                nonce_width,
                block_number_width,
            },
        )
    }
}

/// The outcome of an encoding with the bits as a sequence.
pub open spec fn bits_view(r: Result<Vec<bool>, TxError>) -> Result<Seq<bool>, TxError> {
    match r {
        Ok(bits) => Ok(bits@),
        Err(e) => Err(e),
    }
}

/// Two encoded fields one after the other; the first error where one of
/// them was refused.
pub open spec fn joined(first: Result<Seq<bool>, TxError>, second: Result<Seq<bool>, TxError>) -> Result<
    Seq<bool>,
    TxError,
> {
    match first {
        Err(e) => Err(e),
        Ok(a) => match second {
            Err(e) => Err(e),
            Ok(b) => Ok(a + b),
        },
    }
}

/// The bits that a transfer is signed over: sender, receiver, amount, fee,
/// nonce and expiry block, each in its width, in this order. The error is
/// that of the first field that cannot be encoded.
pub open spec fn message_bits_spec(tx: TransferTx, params: Params) -> Result<Seq<bool>, TxError> {
    let from = encode_fixed_spec(tx.from as nat, params.account_width as nat);
    let to = encode_fixed_spec(tx.to as nat, params.account_width as nat);
    let amount = encode_float_spec(
        tx.amount as nat,
        params.amount_exponent_width as nat,
        params.amount_mantissa_width as nat,
        AMOUNT_BASE as nat,
    );
    let fee = encode_float_spec(
        tx.fee as nat,
        params.fee_exponent_width as nat,
        params.fee_mantissa_width as nat,
        AMOUNT_BASE as nat,
    );
    let nonce = encode_fixed_spec(tx.nonce as nat, params.nonce_width as nat);
    let block = encode_fixed_spec(tx.good_until_block as nat, params.block_number_width as nat);
    joined(joined(joined(joined(joined(from, to), amount), fee), nonce), block)
}

/// The bytes that a transfer is signed over: its message bits, packed.
pub open spec fn message_bytes_spec(tx: TransferTx, params: Params) -> Result<Seq<u8>, TxError> {
    match message_bits_spec(tx, params) {
        Ok(bits) => Ok(packed_bytes(bits)),
        Err(e) => Err(e),
    }
}

/// What the check of a transfer's signature gives: the error of the
/// message's encoding, or else what verification of the flat signature over
/// the message's bytes gives.
pub open spec fn verify_sig_spec(tx: TransferTx, key: PublicKey, params: Params) -> Result<
    bool,
    TxError,
> {
    match message_bytes_spec(tx, params) {
        Ok(bytes) => verify_spec(bytes, tx.signature, key),
        Err(e) => Err(e),
    }
}

/// The amount of a transfer as the circuit takes it: the bits of its
/// encoding read as one number.
pub open spec fn witness_amount(tx: TransferTx, params: Params) -> Result<nat, TxError> {
    match encode_float_spec(
        tx.amount as nat,
        params.amount_exponent_width as nat,
        params.amount_mantissa_width as nat,
        AMOUNT_BASE as nat,
    ) {
        Ok(bits) => Ok(bits_value(bits)),
        Err(e) => Err(e),
    }
}

/// Whether `w` is the witness of `tx`: the integer fields as they are, the
/// amount as its encoded bits, the fee as zero, the signature in witness
/// form.
pub open spec fn is_witness_of(w: Tx, tx: TransferTx, params: Params) -> bool {
    &&& w.from.value() == tx.from
    &&& w.to.value() == tx.to
    &&& witness_amount(tx, params) == Ok::<nat, TxError>(w.amount.value())
    &&& w.fee.value() == 0
    &&& w.nonce.value() == tx.nonce
    &&& w.good_until_block.value() == tx.good_until_block
    &&& curve_form(tx.signature) == Ok::<TransactionSignature, TxError>(w.signature)
}

/// Why a transfer has no witness, if it has none: its amount cannot be
/// encoded, or else its signature has no witness form.
pub open spec fn witness_error(tx: TransferTx, params: Params) -> Option<TxError> {
    match witness_amount(tx, params) {
        Err(e) => Some(e),
        Ok(_) => match curve_form(tx.signature) {
            Err(e) => Some(e),
            Ok(_) => None,
        },
    }
}

fn join(first: Result<Vec<bool>, TxError>, second: Result<Vec<bool>, TxError>) -> (r: Result<
    Vec<bool>,
    TxError,
>)
    ensures
        bits_view(r) == joined(bits_view(first), bits_view(second)),
{
    match first {
        Err(e) => Err(e),
        Ok(a) => match second {
            Err(e) => Err(e),
            Ok(b) => {
                let mut bits: Vec<bool> = a;
                let mut rest: Vec<bool> = b;
                bits.append(&mut rest);
                Ok(bits)
            },
        },
    }
}

impl TransferTx {
    /// The bits that the transfer is signed over, or the error of the first
    /// field that does not fit its width.
    pub fn message_bits(&self, params: &Params) -> (r: Result<Vec<bool>, TxError>)
        ensures
            bits_view(r) == message_bits_spec(*self, *params),
            r is Ok ==> r->Ok_0@.len() == params.message_width(),
    {
        let from = encode_fixed(self.from as u128, params.account_width);
        let to = encode_fixed(self.to as u128, params.account_width);
        let amount = encode_float(
            self.amount,
            params.amount_exponent_width,
            params.amount_mantissa_width,
            AMOUNT_BASE,
        );
        let fee = encode_float(
            self.fee,
            params.fee_exponent_width,
            params.fee_mantissa_width,
            AMOUNT_BASE,
        );
        let nonce = encode_fixed(self.nonce as u128, params.nonce_width);
        let block = encode_fixed(self.good_until_block as u128, params.block_number_width);
        join(join(join(join(join(from, to), amount), fee), nonce), block)
    }

    /// The bytes that the transfer is signed over: the message bits packed,
    /// the first bit in the most significant place of the first byte.
    pub fn message_bytes(&self, params: &Params) -> (r: Result<Vec<u8>, TxError>)
        ensures
            match r {
                Ok(bytes) => message_bytes_spec(*self, *params) == Ok::<Seq<u8>, TxError>(bytes@),
                Err(e) => message_bytes_spec(*self, *params) == Err::<Seq<u8>, TxError>(e),
            },
            r is Ok ==> r->Ok_0@.len() == (params.message_width() + 7) / 8,
    {
        match self.message_bits(params) {
            Ok(bits) => Ok(pack_bits_into_bytes(&bits)),
            Err(e) => Err(e),
        }
    }

    /// Checks the transfer's signature over its message under `public_key`.
    /// A field that does not fit, a signature that cannot be rebuilt and a
    /// key that is no point of the curve are errors; a signature that does
    /// not hold gives `Ok(false)`.
    pub fn verify_sig(&self, public_key: &PublicKey, params: &Params) -> (r: Result<bool, TxError>)
        requires
            params.wf(),
        ensures
            r == verify_sig_spec(*self, *public_key, *params),
    {
        match self.message_bytes(params) {
            Ok(bytes) => verify(&bytes, &self.signature, public_key),
            Err(e) => Err(e),
        }
    }
}

impl Tx {
    /// Whether every field is an element of the circuit's field and the
    /// signature's point is on the curve.
    pub open spec fn wf(&self) -> bool {
        &&& self.from.is_field_element()
        &&& self.to.is_field_element()
        &&& self.amount.is_field_element()
        &&& self.fee.is_field_element()
        &&& self.nonce.is_field_element()
        &&& self.good_until_block.is_field_element()
        &&& self.signature.wf()
    }

    /// The witness of a transfer. It is refused with `AmountTooLarge` where
    /// the amount cannot be encoded, or else with the error of the
    /// signature's witness form: `InvalidSignaturePoint` for coordinates
    /// that are no point of the curve, `InvalidScalar` for a scalar that is
    /// no field element.
    pub fn try_from(transaction: &TransferTx, params: &Params) -> (r: Result<Tx, TxError>)
        requires
            params.wf(),
        ensures
            match r {
                Ok(w) => is_witness_of(w, *transaction, *params) && w.wf(),
                Err(e) => witness_error(*transaction, *params) == Some(e),
            },
    {
        let amount_bits = match encode_float(
            transaction.amount,
            params.amount_exponent_width,
            params.amount_mantissa_width,
            AMOUNT_BASE,
        ) {
            Ok(bits) => bits,
            Err(e) => {
                return Err(e);
            },
        };
        let amount: u128 = decode_fixed(amount_bits.as_slice());
        let signature = match TransactionSignature::try_from(transaction.signature) {
            Ok(signature) => signature,
            Err(e) => {
                return Err(e);
            },
        };
        Ok(
            Tx {
                from: U256::from_u128(transaction.from as u128),
                to: U256::from_u128(transaction.to as u128),
                amount: U256::from_u128(amount),
                fee: U256::zero(),
                nonce: U256::from_u128(transaction.nonce as u128),
                good_until_block: U256::from_u128(transaction.good_until_block as u128),
                signature,
            },
        )
    }
}

} // verus!
