//! The check of a succinct proof.
//!
//! The library does not look inside the proof system. It lays a verifying
//! key and a proof out in bytes, hands them to `ark_groth16` together with
//! the public inputs, and works with the verdict.

use crate::field::FieldElement;
use ark_bn254::{Bn254, Fr};
use ark_crypto_primitives::snark::SNARK;
use ark_ff::{BigInt, PrimeField};
use ark_groth16::{Groth16, Proof, VerifyingKey};
use ark_serialize::CanonicalDeserialize;
use vstd::prelude::*;

verus! {

/// The verdict of the Groth16 verifier over BN254 on a verifying key and a
/// proof, both in the uncompressed binary layout, and a list of public
/// inputs given by their integer values: `Some(true)` where it accepts,
/// `Some(false)` where it rejects, `None` where the key or the proof cannot
/// be read or the key does not fit the number of inputs.
pub uninterp spec fn groth16_verdict(key: Seq<u8>, inputs: Seq<nat>, proof: Seq<u8>) -> Option<bool>;

/// The integer values of a list of field elements.
pub open spec fn field_values(elements: Seq<FieldElement>) -> Seq<nat> {
    Seq::new(elements.len(), |i: int| elements[i]@)
}

/// Runs `ark_groth16`'s `Groth16::<Bn254>::verify` on the key and the proof
/// that `CanonicalDeserialize::deserialize_uncompressed` reads from the
/// bytes. The reading checks that every point lies on its curve and in its
/// group, so the pairing is defined. The result depends on the three
/// arguments alone; it is `None` where reading or verifying reports an
/// error.
#[verifier::external_body]
pub(crate) fn groth16_verify(key: &Vec<u8>, inputs: &Vec<FieldElement>, proof: &Vec<u8>) -> (r:
    Option<bool>)
    ensures
        r == groth16_verdict(key@, field_values(inputs@), proof@),
{
    let vk = VerifyingKey::<Bn254>::deserialize_uncompressed(key.as_slice()).ok()?;
    let pf = Proof::<Bn254>::deserialize_uncompressed(proof.as_slice()).ok()?;
    let xs = inputs.iter().map(
        |e| {
            let l = e.to_limbs();
            Fr::from_bigint(BigInt([l.0, l.1, l.2, l.3]))
        },
    ).collect::<Option<Vec<Fr>>>()?;
    Groth16::<Bn254>::verify(&vk, &xs, &pf).ok()
}

/// Whether the verdict is an acceptance. A key or a proof that cannot be
/// read counts as a rejection.
pub open spec fn accepted(verdict: Option<bool>) -> bool {
    verdict == Some(true)
}

/// Checks a proof against a key and public inputs.
pub fn proof_accepted(key: &Vec<u8>, inputs: &Vec<FieldElement>, proof: &Vec<u8>) -> (ok: bool)
    ensures
        ok == accepted(groth16_verdict(key@, field_values(inputs@), proof@)),
{
    match groth16_verify(key, inputs, proof) {
        Some(answer) => answer,
        None => false,
    }
}

} // verus!
