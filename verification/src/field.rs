//! Numbers of up to 256 bits as four 64-bit limbs, the form in which field
//! elements and scalars cross the library's boundary.

use vstd::prelude::*;

verus! {

/// The number that four limbs stand for, least significant limb first.
pub open spec fn limbs_value(w0: u64, w1: u64, w2: u64, w3: u64) -> nat {
    (w0 as nat + 0x1_0000_0000_0000_0000 * (w1 as nat + 0x1_0000_0000_0000_0000 * (w2 as nat
        + 0x1_0000_0000_0000_0000 * (w3 as nat)))) as nat
}

/// The modulus of the proving circuit's field.
pub open spec fn field_modulus() -> nat {
    limbs_value(0x43e1f593f0000001, 0x2833e84879b97091, 0xb85045b68181585d, 0x30644e72e131a029)
}

/// The order of the embedded curve's prime subgroup: the modulus of its
/// scalars.
pub open spec fn subgroup_order() -> nat {
    limbs_value(0x677297dc392126f1, 0xab3eedb83920ee0a, 0x370a08b6d0302b0b, 0x060c89ce5c263405)
}

/// An unsigned number of 256 bits, least significant limb first.
#[derive(Clone, Copy, Debug, PartialEq, Eq)]
pub struct U256 {
    pub limbs: [u64; 4],
}

impl U256 {
    /// The number that the limbs stand for.
    pub open spec fn value(&self) -> nat {
        limbs_value(self.limbs[0], self.limbs[1], self.limbs[2], self.limbs[3])
    }

    /// Whether the number is an element of the circuit's field in its
    /// canonical form: below the field's modulus.
    pub open spec fn is_field_element(&self) -> bool {
        self.value() < field_modulus()
    }

    /// Whether the number is a scalar of the curve's subgroup: below its
    /// order.
    pub open spec fn is_scalar(&self) -> bool {
        self.value() < subgroup_order()
    }

    /// The number with the given limbs.
    pub fn from_limbs(limbs: [u64; 4]) -> (n: U256)
        ensures
            n.limbs == limbs,
            n.value() == limbs_value(limbs[0], limbs[1], limbs[2], limbs[3]),
    {
        U256 { limbs }
    }

    /// The number `v`, which is always a field element and a scalar.
    pub fn from_u128(v: u128) -> (n: U256)
        ensures
            n.value() == v,
            n.is_field_element(),
            n.is_scalar(),
    {
        let low: u64 = (v % 0x1_0000_0000_0000_0000) as u64;
        let high: u64 = (v / 0x1_0000_0000_0000_0000) as u64;
        U256 { limbs: [low, high, 0, 0] }
    }

    /// Zero, the additive identity of the field.
    pub fn zero() -> (n: U256)
        ensures
            n.value() == 0,
            n.is_field_element(),
    {
        U256 { limbs: [0, 0, 0, 0] }
    }

    /// Whether this number is smaller than `other`.
    pub fn less_than(&self, other: &U256) -> (b: bool)
        ensures
            b == (self.value() < other.value()),
    {
        if self.limbs[3] != other.limbs[3] {
            self.limbs[3] < other.limbs[3]
        } else if self.limbs[2] != other.limbs[2] {
            self.limbs[2] < other.limbs[2]
        } else if self.limbs[1] != other.limbs[1] {
            self.limbs[1] < other.limbs[1]
        } else {
            self.limbs[0] < other.limbs[0]
        }
    }

    /// Tests whether the number is below the field's modulus.
    pub fn check_field_element(&self) -> (b: bool)
        ensures
            b == self.is_field_element(),
    {
        let modulus = U256 {
            limbs: [0x43e1f593f0000001, 0x2833e84879b97091, 0xb85045b68181585d, 0x30644e72e131a029],
        };
        self.less_than(&modulus)
    }

    /// Tests whether the number is below the subgroup's order.
    pub fn check_scalar(&self) -> (b: bool)
        ensures
            b == self.is_scalar(),
    {
        let order = U256 {
            limbs: [0x677297dc392126f1, 0xab3eedb83920ee0a, 0x370a08b6d0302b0b, 0x060c89ce5c263405],
        };
        self.less_than(&order)
    }
}

} // verus!
