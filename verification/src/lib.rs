//! Transaction encoding and signature handling for a rollup settlement node:
//! fixed-width bit encoding, the lossy mantissa/exponent amount codec, the
//! signed-message layout, and the flat and curve forms of a signature.

pub mod error;
pub mod bits;
pub mod float;
pub mod field;
pub mod signature;
pub mod tx;
pub mod fee;
