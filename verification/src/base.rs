//! Elements of the BN254 base field: the coordinates of the curve points
//! that a succinct proof and a verifying key are made of.
//!
//! The library does no arithmetic on them. It decodes them, tells zero
//! from non-zero, and lays them out in bytes.

use crate::field::limbs_value;
use vstd::prelude::*;

verus! {

/// The order of the BN254 base field.
pub open spec fn base_modulus() -> nat {
    21888242871839275222246405745257275088696311157297823662689037894645226208583nat
}

/// Half of the order of the base field, rounded down: the largest value
/// that is not above its own negative.
pub open spec fn base_half() -> nat {
    10944121435919637611123202872628637544348155578648911831344518947322613104291nat
}

/// A base-field element. Every value of this type is canonical: its
/// integer value, given by the view, is below [`base_modulus`].
#[derive(Clone, Copy, Debug, PartialEq, Eq, Structural)]
pub struct BaseElement {
    l0: u64,
    l1: u64,
    l2: u64,
    l3: u64,
}

impl View for BaseElement {
    type V = nat;

    closed spec fn view(&self) -> nat {
        limbs_value(self.l0, self.l1, self.l2, self.l3)
    }
}

impl BaseElement {
    /// The invariant of the type: the limbs encode a value below the modulus.
    #[verifier::type_invariant]
    pub open spec fn canonical(self) -> bool {
        self@ < base_modulus()
    }

    /// The limbs of the element, least significant first.
    pub closed spec fn spec_limbs(self) -> (u64, u64, u64, u64) {
        (self.l0, self.l1, self.l2, self.l3)
    }

    /// The additive identity.
    pub fn zero() -> (r: Self)
        ensures
            r@ == 0,
    {
        BaseElement { l0: 0, l1: 0, l2: 0, l3: 0 }
    }

    /// The element whose integer value is `v`.
    pub fn from_u64(v: u64) -> (r: Self)
        ensures
            r@ == v as nat,
    {
        BaseElement { l0: v, l1: 0, l2: 0, l3: 0 }
    }

    /// The element with the given little-endian limbs, if they encode a
    /// value below the modulus.
    pub fn from_limbs(l0: u64, l1: u64, l2: u64, l3: u64) -> (r: Option<Self>)
        ensures
            r.is_some() <==> limbs_value(l0, l1, l2, l3) < base_modulus(),
            r.is_some() ==> r.unwrap()@ == limbs_value(l0, l1, l2, l3) && r.unwrap().spec_limbs()
                == (l0, l1, l2, l3),
    {
        let below = if l3 != 0x30644e72e131a029 {
            l3 < 0x30644e72e131a029
        } else if l2 != 0xb85045b68181585d {
            l2 < 0xb85045b68181585d
        } else if l1 != 0x97816a916871ca8d {
            l1 < 0x97816a916871ca8d
        } else {
            l0 < 0x3c208c16d87cfd47
        };
        if below {
            Some(BaseElement { l0, l1, l2, l3 })
        } else {
            None
        }
    }

    /// The little-endian limbs of the element.
    pub fn to_limbs(&self) -> (r: (u64, u64, u64, u64))
        ensures
            r == self.spec_limbs(),
            limbs_value(r.0, r.1, r.2, r.3) == self@,
            limbs_value(r.0, r.1, r.2, r.3) < base_modulus(),
    {
        proof {
            use_type_invariant(self);
        }
        (self.l0, self.l1, self.l2, self.l3)
    }

    /// Whether the element is above its own negative, as integers: whether
    /// it is above half of the modulus.
    pub fn exceeds_half(&self) -> (r: bool)
        ensures
            r == (self@ > base_half()),
    {
        if self.l3 != 0x183227397098d014 {
            self.l3 > 0x183227397098d014
        } else if self.l2 != 0xdc2822db40c0ac2e {
            self.l2 > 0xdc2822db40c0ac2e
        } else if self.l1 != 0xcbc0b548b438e546 {
            self.l1 > 0xcbc0b548b438e546
        } else {
            self.l0 > 0x9e10460b6c3e7ea3
        }
    }

    /// Whether the element is zero.
    pub fn is_zero(&self) -> (r: bool)
        ensures
            r == (self@ == 0),
    {
        self.l0 == 0 && self.l1 == 0 && self.l2 == 0 && self.l3 == 0
    }
}

} // verus!
