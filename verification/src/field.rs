//! Elements of the BN254 scalar field, held as four 64-bit limbs in
//! canonical (fully reduced, little-endian) form.
//!
//! Identifiers, coordinates and hash outputs all live in this one value
//! domain. The arithmetic itself is done by `ark_ff`; this module states
//! what it computes.

use ark_bn254::Fr;
use ark_ff::{BigInt, PrimeField};
use vstd::prelude::*;

verus! {

/// The order of the BN254 scalar field.
pub open spec fn modulus() -> nat {
    21888242871839275222246405745257275088548364400416034343698204186575808495617nat
}

/// The value of four little-endian 64-bit limbs.
pub open spec fn limbs_value(l0: u64, l1: u64, l2: u64, l3: u64) -> nat {
    (l0 as nat) + (l1 as nat) * 0x1_0000_0000_0000_0000nat + (l2 as nat)
        * 0x1_0000_0000_0000_0000_0000_0000_0000_0000nat + (l3 as nat)
        * 0x1_0000_0000_0000_0000_0000_0000_0000_0000_0000_0000_0000_0000nat
}

/// Sum of two residues.
pub open spec fn add_mod(a: nat, b: nat) -> nat {
    (a + b) % modulus()
}

/// Difference of two residues.
pub open spec fn sub_mod(a: nat, b: nat) -> nat {
    ((a + modulus() - b) % (modulus() as int)) as nat
}

/// Product of two residues.
pub open spec fn mul_mod(a: nat, b: nat) -> nat {
    (a * b) % modulus()
}

/// A field element. Every value of this type is canonical: its integer
/// value, given by the view, is below [`modulus`].
#[derive(Clone, Copy, Debug, PartialEq, Eq, Structural)]
pub struct FieldElement {
    l0: u64,
    l1: u64,
    l2: u64,
    l3: u64,
}

impl View for FieldElement {
    type V = nat;

    closed spec fn view(&self) -> nat {
        limbs_value(self.l0, self.l1, self.l2, self.l3)
    }
}

impl FieldElement {
    /// The invariant of the type: the limbs encode a value below the modulus.
    #[verifier::type_invariant]
    pub open spec fn canonical(self) -> bool {
        self@ < modulus()
    }

    /// The limbs of the element, least significant first.
    pub closed spec fn spec_limbs(self) -> (u64, u64, u64, u64) {
        (self.l0, self.l1, self.l2, self.l3)
    }

    /// The element whose integer value is `n`, for `n` below the modulus.
    pub closed spec fn of_nat(n: nat) -> Self {
        let q1 = n / 0x1_0000_0000_0000_0000nat;
        let q2 = q1 / 0x1_0000_0000_0000_0000nat;
        let q3 = q2 / 0x1_0000_0000_0000_0000nat;
        FieldElement {
            l0: (n % 0x1_0000_0000_0000_0000nat) as u64,
            l1: (q1 % 0x1_0000_0000_0000_0000nat) as u64,
            l2: (q2 % 0x1_0000_0000_0000_0000nat) as u64,
            l3: (q3 % 0x1_0000_0000_0000_0000nat) as u64,
        }
    }

    /// `of_nat` inverts the view on residues.
    pub proof fn lemma_of_nat(n: nat)
        requires
            n < modulus(),
        ensures
            Self::of_nat(n)@ == n,
            Self::of_nat(n).canonical(),
    {
        let b = 0x1_0000_0000_0000_0000int;
        let q1 = n as int / b;
        let q2 = q1 / b;
        let q3 = q2 / b;
        vstd::arithmetic::div_mod::lemma_fundamental_div_mod(n as int, b);
        vstd::arithmetic::div_mod::lemma_fundamental_div_mod(q1, b);
        vstd::arithmetic::div_mod::lemma_fundamental_div_mod(q2, b);
        assert(0 <= q3 < b);
        vstd::arithmetic::div_mod::lemma_small_mod(q3 as nat, b as nat);
    }

    /// The view inverts `of_nat`.
    pub proof fn lemma_of_view(self)
        ensures
            Self::of_nat(self@) == self,
    {
        let b = 0x1_0000_0000_0000_0000int;
        let n = self@ as int;
        let q1 = self.l1 + self.l2 * b + self.l3 * 0x1_0000_0000_0000_0000_0000_0000_0000_0000int;
        let q2 = self.l2 + self.l3 * b;
        let q3 = self.l3 as int;
        vstd::arithmetic::div_mod::lemma_fundamental_div_mod_converse(n, b, q1, self.l0 as int);
        vstd::arithmetic::div_mod::lemma_fundamental_div_mod_converse(q1, b, q2, self.l1 as int);
        vstd::arithmetic::div_mod::lemma_fundamental_div_mod_converse(q2, b, q3, self.l2 as int);
        vstd::arithmetic::div_mod::lemma_small_mod(q3 as nat, b as nat);
    }

    /// Two elements with the same integer value are the same element.
    pub proof fn lemma_view_injective(a: Self, b: Self)
        requires
            a@ == b@,
        ensures
            a == b,
    {
    }

    /// The view is the value of the limbs.
    pub proof fn lemma_view_of_limbs(self)
        ensures
            self@ == limbs_value(
                self.spec_limbs().0,
                self.spec_limbs().1,
                self.spec_limbs().2,
                self.spec_limbs().3,
            ),
    {
    }

    /// The additive identity.
    pub fn zero() -> (r: Self)
        ensures
            r@ == 0,
            r.canonical(),
    {
        FieldElement { l0: 0, l1: 0, l2: 0, l3: 0 }
    }

    /// The element whose integer value is `v`.
    pub fn from_u64(v: u64) -> (r: Self)
        ensures
            r@ == v as nat,
            r.canonical(),
    {
        FieldElement { l0: v, l1: 0, l2: 0, l3: 0 }
    }

    /// The element with the given little-endian limbs, if they encode a
    /// value below the modulus.
    pub fn from_limbs(l0: u64, l1: u64, l2: u64, l3: u64) -> (r: Option<Self>)
        ensures
            r.is_some() <==> limbs_value(l0, l1, l2, l3) < modulus(),
            r.is_some() ==> r.unwrap()@ == limbs_value(l0, l1, l2, l3) && r.unwrap().canonical()
                && r.unwrap().spec_limbs() == (l0, l1, l2, l3),
    {
        let below = if l3 != 0x30644e72e131a029 {
            l3 < 0x30644e72e131a029
        } else if l2 != 0xb85045b68181585d {
            l2 < 0xb85045b68181585d
        } else if l1 != 0x2833e84879b97091 {
            l1 < 0x2833e84879b97091
        } else {
            l0 < 0x43e1f593f0000001
        };
        if below {
            Some(FieldElement { l0, l1, l2, l3 })
        } else {
            None
        }
    }

    /// The little-endian limbs of the element.
    pub fn to_limbs(&self) -> (r: (u64, u64, u64, u64))
        ensures
            r == self.spec_limbs(),
            limbs_value(r.0, r.1, r.2, r.3) == self@,
    {
        (self.l0, self.l1, self.l2, self.l3)
    }

    /// The integer value, if it fits in 64 bits.
    pub fn to_u64(&self) -> (r: Option<u64>)
        ensures
            r.is_some() <==> self@ <= u64::MAX,
            r.is_some() ==> r.unwrap() as nat == self@,
    {
        if self.l1 == 0 && self.l2 == 0 && self.l3 == 0 {
            Some(self.l0)
        } else {
            None
        }
    }

    /// The integer value, if it fits in a machine word.
    pub fn to_usize(&self) -> (r: Option<usize>)
        ensures
            r.is_some() <==> self@ <= usize::MAX,
            r.is_some() ==> r.unwrap() as nat == self@,
    {
        if self.l1 == 0 && self.l2 == 0 && self.l3 == 0 && self.l0 <= usize::MAX as u64 {
            Some(self.l0 as usize)
        } else {
            None
        }
    }

    /// Whether `self` is below `other` as an integer.
    pub fn lt(&self, other: &Self) -> (r: bool)
        ensures
            r == (self@ < other@),
    {
        if self.l3 != other.l3 {
            self.l3 < other.l3
        } else if self.l2 != other.l2 {
            self.l2 < other.l2
        } else if self.l1 != other.l1 {
            self.l1 < other.l1
        } else {
            self.l0 < other.l0
        }
    }

    /// Whether the integer value is odd.
    pub fn is_odd(&self) -> (r: bool)
        ensures
            r == (self@ % 2 == 1),
    {
        let a0: u64 = self.l0;
        let low: u64 = a0 & 1;
        assert(low == a0 % 2) by (bit_vector)
            requires
                low == a0 & 1,
        ;
        low == 1
    }

    /// The integer value divided by two, rounding down.
    pub fn half(&self) -> (r: Self)
        ensures
            r@ == self@ / 2,
            r.canonical(),
    {
        let (a0, a1, a2, a3) = (self.l0, self.l1, self.l2, self.l3);
        let h0: u64 = (a0 >> 1) | ((a1 & 1) << 63);
        let h1: u64 = (a1 >> 1) | ((a2 & 1) << 63);
        let h2: u64 = (a2 >> 1) | ((a3 & 1) << 63);
        let h3: u64 = a3 >> 1;
        proof {
            use_type_invariant(self);
            assert(h0 == a0 / 2 + (a1 % 2) * 0x8000_0000_0000_0000) by (bit_vector)
                requires
                    h0 == (a0 >> 1) | ((a1 & 1) << 63),
            ;
            assert(h1 == a1 / 2 + (a2 % 2) * 0x8000_0000_0000_0000) by (bit_vector)
                requires
                    h1 == (a1 >> 1) | ((a2 & 1) << 63),
            ;
            assert(h2 == a2 / 2 + (a3 % 2) * 0x8000_0000_0000_0000) by (bit_vector)
                requires
                    h2 == (a2 >> 1) | ((a3 & 1) << 63),
            ;
            assert(h3 == a3 / 2) by (bit_vector)
                requires
                    h3 == a3 >> 1,
            ;
        }
        FieldElement { l0: h0, l1: h1, l2: h2, l3: h3 }
    }
}

/// Field addition, by `ark_ff`'s `Fp` sum: the result is the canonical
/// representative of the sum of the two integer values.
#[verifier::external_body]
pub(crate) fn field_add(a: FieldElement, b: FieldElement) -> (r: FieldElement)
    requires
        a.canonical(),
        b.canonical(),
    ensures
        r@ == add_mod(a@, b@),
        r.canonical(),
{
    let x = Fr::from_bigint(BigInt([a.l0, a.l1, a.l2, a.l3])).unwrap();
    let y = Fr::from_bigint(BigInt([b.l0, b.l1, b.l2, b.l3])).unwrap();
    let z = (x + y).into_bigint().0;
    FieldElement { l0: z[0], l1: z[1], l2: z[2], l3: z[3] }
}

/// Field subtraction, by `ark_ff`'s `Fp` difference: the result is the
/// canonical representative of the difference of the two integer values.
#[verifier::external_body]
pub(crate) fn field_sub(a: FieldElement, b: FieldElement) -> (r: FieldElement)
    requires
        a.canonical(),
        b.canonical(),
    ensures
        r@ == sub_mod(a@, b@),
        r.canonical(),
{
    let x = Fr::from_bigint(BigInt([a.l0, a.l1, a.l2, a.l3])).unwrap();
    let y = Fr::from_bigint(BigInt([b.l0, b.l1, b.l2, b.l3])).unwrap();
    let z = (x - y).into_bigint().0;
    FieldElement { l0: z[0], l1: z[1], l2: z[2], l3: z[3] }
}

/// Field multiplication, by `ark_ff`'s `Fp` product: the result is the
/// canonical representative of the product of the two integer values.
#[verifier::external_body]
pub(crate) fn field_mul(a: FieldElement, b: FieldElement) -> (r: FieldElement)
    requires
        a.canonical(),
        b.canonical(),
    ensures
        r@ == mul_mod(a@, b@),
        r.canonical(),
{
    let x = Fr::from_bigint(BigInt([a.l0, a.l1, a.l2, a.l3])).unwrap();
    let y = Fr::from_bigint(BigInt([b.l0, b.l1, b.l2, b.l3])).unwrap();
    let z = (x * y).into_bigint().0;
    FieldElement { l0: z[0], l1: z[1], l2: z[2], l3: z[3] }
}

} // verus!
