use vstd::prelude::*;

verus! {

/// Why an encoding or a signature reconstruction was rejected.
#[derive(Clone, Copy, Debug, PartialEq, Eq, Structural)]
pub enum TxError {
    /// An integer does not fit the bit width of its field.
    EncodingOverflow,
    /// An amount needs an exponent beyond what the exponent width can hold.
    AmountTooLarge,
    /// The coordinates of a signature's point are not a point of the curve.
    InvalidSignaturePoint,
    /// A scalar is not below the order of the curve's prime subgroup.
    InvalidScalar,
}

impl TxError {
    /// A short description of the error for messages and logs.
    pub fn message(&self) -> (text: &'static str)
        ensures
            text@ == error_text(*self),
    {
        match self {
            TxError::EncodingOverflow => "integer exceeds its fixed-width field",
            TxError::AmountTooLarge => "amount is too large for the exponent width",
            TxError::InvalidSignaturePoint => "signature point is not on the curve",
            TxError::InvalidScalar => "scalar is outside the subgroup order",
        }
    }
}

/// The text that [`TxError::message`] gives for each error.
pub open spec fn error_text(e: TxError) -> Seq<char> {
    match e {
        TxError::EncodingOverflow => "integer exceeds its fixed-width field"@,
        TxError::AmountTooLarge => "amount is too large for the exponent width"@,
        TxError::InvalidSignaturePoint => "signature point is not on the curve"@,
        TxError::InvalidScalar => "scalar is outside the subgroup order"@,
    }
}

} // verus!
