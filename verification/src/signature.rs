//! The flat and the curve form of a transaction signature, the conversions
//! between them, and the verification of a signature over a message.

use vstd::prelude::*;
use sapling_crypto_ce::alt_babyjubjub::fs::{Fs, FsRepr};
use sapling_crypto_ce::alt_babyjubjub::AltJubjubBn256;
use sapling_crypto_ce::bellman::pairing::bn256::{Bn256, Fr, FrRepr};
use sapling_crypto_ce::bellman::pairing::ff::PrimeField;
use sapling_crypto_ce::eddsa::Signature;
use sapling_crypto_ce::jubjub::edwards::Point;
use sapling_crypto_ce::jubjub::{FixedGenerators, Unknown};
use crate::error::TxError;
use crate::field::{field_modulus, limbs_value, U256};

verus! {

/// The longest message, in bytes, that a signature can be verified over.
pub const MAX_MESSAGE_BYTES: usize = 16;

/// The coefficient `d` of the embedded curve, -(168696/168700) in the field.
pub open spec fn edwards_d() -> nat {
    limbs_value(0xd075ca8cf4d7eb8e, 0x039b2959ebb7c867, 0x3df072d799fd11fc, 0x1aee90f15f218969)
}

/// The equation of the embedded twisted Edwards curve over the circuit's
/// field: `y^2 - x^2 = 1 + d * x^2 * y^2`.
pub open spec fn on_curve(x: nat, y: nat) -> bool {
    let p = field_modulus() as int;
    let d = edwards_d() as int;
    let xx = (x * x) as int;
    let yy = (y * y) as int;
    (yy - xx) % p == (1 + d * xx * yy) % p
}

/// Whether two numbers are the affine coordinates of a point of the curve:
/// both are field elements and they satisfy the curve's equation.
pub open spec fn point_valid(x: U256, y: U256) -> bool {
    x.is_field_element() && y.is_field_element() && on_curve(x.value(), y.value())
}

/// Whether the signature check accepts the scalar `s` and the point
/// `(r_x, r_y)` as a signature over `msg` under the key `(key_x, key_y)`,
/// with the spending-key base point of the curve.
pub uninterp spec fn eddsa_accepts(
    msg: Seq<u8>,
    r_x: nat,
    r_y: nat,
    s: nat,
    key_x: nat,
    key_y: nat,
) -> bool;

/// A point of the embedded curve by its affine coordinates.
#[derive(Clone, Copy, Debug, PartialEq, Eq)]
pub struct CurvePoint {
    pub x: U256,
    pub y: U256,
}

/// A verification key: a point of the embedded curve.
#[derive(Clone, Copy, Debug, PartialEq, Eq)]
pub struct PublicKey {
    pub point: CurvePoint,
}

/// The flat form of a signature, as it is stored and sent: the coordinates
/// of the point and the scalar, all three as elements of the circuit's field.
#[derive(Clone, Copy, Debug, PartialEq, Eq)]
pub struct TxSignature {
    pub r_x: U256,
    pub r_y: U256,
    pub s: U256,
}

/// The form of a signature that the circuit's witness holds: the point, and
/// the scalar as an element of the circuit's field.
#[derive(Clone, Copy, Debug, PartialEq, Eq)]
pub struct TransactionSignature {
    pub r: CurvePoint,
    pub s: U256,
}

/// The form of a signature that is verified: the point, and the scalar as a
/// scalar of the curve's subgroup.
#[derive(Clone, Copy, Debug, PartialEq, Eq)]
pub struct EddsaSignature {
    pub r: CurvePoint,
    pub s: U256,
}

/// The flat form of a witness signature: the point's coordinates and the
/// scalar as they are.
pub open spec fn flat_form(signature: TransactionSignature) -> TxSignature {
    TxSignature { r_x: signature.r.x, r_y: signature.r.y, s: signature.s }
}

/// The witness form of a flat signature: refused where the coordinates are
/// not a point of the curve, and then where the scalar is no element of the
/// circuit's field.
pub open spec fn curve_form(sig: TxSignature) -> Result<TransactionSignature, TxError> {
    if !point_valid(sig.r_x, sig.r_y) {
        Err(TxError::InvalidSignaturePoint)
    } else if !sig.s.is_field_element() {
        Err(TxError::InvalidScalar)
    } else {
        Ok(TransactionSignature { r: CurvePoint { x: sig.r_x, y: sig.r_y }, s: sig.s })
    }
}

/// The verified form of a flat signature: refused where the coordinates are
/// not a point of the curve, and then where the scalar is not below the
/// subgroup's order.
pub open spec fn eddsa_form(sig: TxSignature) -> Result<EddsaSignature, TxError> {
    if !point_valid(sig.r_x, sig.r_y) {
        Err(TxError::InvalidSignaturePoint)
    } else if !sig.s.is_scalar() {
        Err(TxError::InvalidScalar)
    } else {
        Ok(EddsaSignature { r: CurvePoint { x: sig.r_x, y: sig.r_y }, s: sig.s })
    }
}

/// The flat form of a verified signature.
pub open spec fn eddsa_flat_form(signature: EddsaSignature) -> TxSignature {
    TxSignature { r_x: signature.r.x, r_y: signature.r.y, s: signature.s }
}

/// What verification gives for a message, a flat signature and a key: the
/// error of the signature's reconstruction, an error for a key that is not a
/// point of the curve, or else the verdict of the signature check.
pub open spec fn verify_spec(msg: Seq<u8>, sig: TxSignature, key: PublicKey) -> Result<
    bool,
    TxError,
> {
    match eddsa_form(sig) {
        Err(e) => Err(e),
        Ok(signature) => if !key.wf() {
            Err(TxError::InvalidSignaturePoint)
        } else {
            Ok(
                eddsa_accepts(
                    msg,
                    signature.r.x.value(),
                    signature.r.y.value(),
                    signature.s.value(),
                    key.point.x.value(),
                    key.point.y.value(),
                ),
            )
        },
    }
}

/// `edwards::Point::from_xy` of the curve library, on field elements made by
/// `Fr::from_repr` from canonical limbs, under the parameters of
/// `AltJubjubBn256::new`. It finds a point exactly where the two elements
/// satisfy the curve's equation `y^2 - x^2 = 1 + d * x^2 * y^2`.
#[verifier::external_body]
fn point_exists(x: &U256, y: &U256) -> (found: bool)
    requires
        x.is_field_element(),
        y.is_field_element(),
    ensures
        found == on_curve(x.value(), y.value()),
{
    let fx = Fr::from_repr(FrRepr(x.limbs)).unwrap();
    let fy = Fr::from_repr(FrRepr(y.limbs)).unwrap();
    Point::<Bn256, Unknown>::from_xy(fx, fy, &AltJubjubBn256::new()).is_some()
}

/// `eddsa::PublicKey::verify_for_raw_message` of the curve library, with the
/// spending-key generator, the parameters of `AltJubjubBn256::new` and a
/// message limit of 16 bytes. The point of the signature and the key are
/// rebuilt by `edwards::Point::from_xy`, the scalar by `Fs::from_repr`. The
/// verdict depends on the arguments alone; nothing more is claimed of it.
#[verifier::external_body]
fn eddsa_check(msg: &Vec<u8>, r_x: &U256, r_y: &U256, s: &U256, key_x: &U256, key_y: &U256) -> (valid:
    bool)
    requires
        msg@.len() <= MAX_MESSAGE_BYTES,
        point_valid(*r_x, *r_y),
        point_valid(*key_x, *key_y),
        s.is_scalar(),
    ensures
        valid == eddsa_accepts(
            msg@,
            r_x.value(),
            r_y.value(),
            s.value(),
            key_x.value(),
            key_y.value(),
        ),
{
    let p = AltJubjubBn256::new();
    let rx = Fr::from_repr(FrRepr(r_x.limbs)).unwrap();
    let ry = Fr::from_repr(FrRepr(r_y.limbs)).unwrap();
    let kx = Fr::from_repr(FrRepr(key_x.limbs)).unwrap();
    let ky = Fr::from_repr(FrRepr(key_y.limbs)).unwrap();
    let r = Point::<Bn256, Unknown>::from_xy(rx, ry, &p).unwrap();
    let k = Point::<Bn256, Unknown>::from_xy(kx, ky, &p).unwrap();
    let s = Fs::from_repr(FsRepr(s.limbs)).unwrap();
    let g = FixedGenerators::SpendingKeyGenerator;
    sapling_crypto_ce::eddsa::PublicKey::<Bn256>(k).verify_for_raw_message(msg, &Signature { r, s }, g, &p, 16)
}

impl CurvePoint {
    /// Whether the coordinates are a point of the curve.
    pub open spec fn wf(&self) -> bool {
        point_valid(self.x, self.y)
    }

    /// The point with the given coordinates, where they are field elements
    /// that satisfy the curve's equation.
    pub fn from_xy(x: U256, y: U256) -> (r: Option<CurvePoint>)
        ensures
            r == if point_valid(x, y) {
                Some(CurvePoint { x, y })
            } else {
                None
            },
    {
        if !x.check_field_element() || !y.check_field_element() {
            return None;
        }
        if point_exists(&x, &y) {
            Some(CurvePoint { x, y })
        } else {
            None
        }
    }

    /// The affine coordinates of the point.
    pub fn into_xy(&self) -> (xy: (U256, U256))
        ensures
            xy == (self.x, self.y),
    {
        (self.x, self.y)
    }
}

impl PublicKey {
    /// Whether the key is a point of the curve.
    pub open spec fn wf(&self) -> bool {
        self.point.wf()
    }

    /// The key with the given coordinates, where they are a point of the
    /// curve.
    pub fn from_xy(x: U256, y: U256) -> (r: Option<PublicKey>)
        ensures
            r == if point_valid(x, y) {
                Some(PublicKey { point: CurvePoint { x, y } })
            } else {
                None
            },
    {
        match CurvePoint::from_xy(x, y) {
            Some(point) => Some(PublicKey { point }),
            None => None,
        }
    }
}

impl EddsaSignature {
    /// Whether the point is on the curve and the scalar below the
    /// subgroup's order.
    pub open spec fn wf(&self) -> bool {
        self.r.wf() && self.s.is_scalar()
    }
}

impl TxSignature {
    /// The flat form of a witness signature. It always succeeds.
    pub fn try_from(signature: TransactionSignature) -> (r: Result<TxSignature, TxError>)
        ensures
            r == Ok::<TxSignature, TxError>(flat_form(signature)),
    {
        let (x, y) = signature.r.into_xy();
        Ok(TxSignature { r_x: x, r_y: y, s: signature.s })
    }

    /// The flat form of a verified signature.
    pub fn from_eddsa(signature: &EddsaSignature) -> (r: TxSignature)
        ensures
            r == eddsa_flat_form(*signature),
    {
        let (x, y) = signature.r.into_xy();
        TxSignature { r_x: x, r_y: y, s: signature.s }
    }

    /// Rebuilds the point and the scalar of the signature for verification.
    /// Coordinates that are no point of the curve give
    /// `InvalidSignaturePoint`; a scalar that is not below the subgroup's
    /// order gives `InvalidScalar`.
    pub fn to_jubjub_eddsa(&self) -> (r: Result<EddsaSignature, TxError>)
        ensures
            r == eddsa_form(*self),
            r is Ok ==> r->Ok_0.wf(),
    {
        match CurvePoint::from_xy(self.r_x, self.r_y) {
            None => Err(TxError::InvalidSignaturePoint),
            Some(point) => {
                if self.s.check_scalar() {
                    Ok(EddsaSignature { r: point, s: self.s })
                } else {
                    Err(TxError::InvalidScalar)
                }
            },
        }
    }
}

impl TransactionSignature {
    /// Whether the point is on the curve and the scalar a field element.
    pub open spec fn wf(&self) -> bool {
        self.r.wf() && self.s.is_field_element()
    }

    /// The witness form of a flat signature. Coordinates that are no point
    /// of the curve give `InvalidSignaturePoint`; a scalar that is no
    /// element of the circuit's field gives `InvalidScalar`.
    pub fn try_from(sig: TxSignature) -> (r: Result<TransactionSignature, TxError>)
        ensures
            r == curve_form(sig),
            r is Ok ==> r->Ok_0.wf(),
    {
        match CurvePoint::from_xy(sig.r_x, sig.r_y) {
            None => Err(TxError::InvalidSignaturePoint),
            Some(point) => {
                if sig.s.check_field_element() {
                    Ok(TransactionSignature { r: point, s: sig.s })
                } else {
                    Err(TxError::InvalidScalar)
                }
            },
        }
    }
}

/// Verifies a flat signature over a message of at most 16 bytes under a key.
/// A signature or a key that cannot be rebuilt is an error; a signature that
/// is rebuilt and does not hold gives `Ok(false)`.
pub fn verify(msg: &Vec<u8>, sig: &TxSignature, key: &PublicKey) -> (r: Result<bool, TxError>)
    requires
        msg@.len() <= MAX_MESSAGE_BYTES,
    ensures
        r == verify_spec(msg@, *sig, *key),
{
    let signature = match sig.to_jubjub_eddsa() {
        Ok(signature) => signature,
        Err(e) => {
            return Err(e);
        },
    };
    if CurvePoint::from_xy(key.point.x, key.point.y).is_none() {
        return Err(TxError::InvalidSignaturePoint);
    }
    Ok(
        eddsa_check(
            msg,
            &signature.r.x,
            &signature.r.y,
            &signature.s,
            &key.point.x,
            &key.point.y,
        ),
    )
}

/// A flat signature whose coordinates are a point of the curve, and whose
/// scalar is a field element, comes back unchanged from its witness form.
pub proof fn law_flat_round_trip(sig: TxSignature)
    requires
        point_valid(sig.r_x, sig.r_y),
        sig.s.is_field_element(),
    ensures
        curve_form(sig) is Ok,
        flat_form(curve_form(sig)->Ok_0) == sig,
{
}

/// A flat signature that can be rebuilt for verification comes back
/// unchanged from its verified form.
pub proof fn law_eddsa_round_trip(sig: TxSignature)
    requires
        eddsa_form(sig) is Ok,
    ensures
        eddsa_flat_form(eddsa_form(sig)->Ok_0) == sig,
{
}

/// Coordinates that are no point of the curve are refused with
/// `InvalidSignaturePoint`, by both reconstructions.
pub proof fn law_off_curve_refused(sig: TxSignature)
    requires
        !point_valid(sig.r_x, sig.r_y),
    ensures
        curve_form(sig) == Err::<TransactionSignature, TxError>(TxError::InvalidSignaturePoint),
        eddsa_form(sig) == Err::<EddsaSignature, TxError>(TxError::InvalidSignaturePoint),
{
}

} // verus!
