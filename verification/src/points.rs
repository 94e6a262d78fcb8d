//! Curve points as they come off the wire, and their layout in bytes.
//!
//! A succinct proof is three points, a verifying key four points and a list
//! of points. On the wire a point is its affine coordinates in decimal; the
//! pair of zero coordinates stands for the point at infinity. The proof
//! system reads points in a fixed binary layout, which this module writes:
//! each coordinate as 32 little-endian bytes, with two flags in the last
//! byte of a point: bit 6 for the point at infinity, bit 7 for a finite
//! point whose `y` is above its own negative.

use crate::base::{base_half, BaseElement};
use vstd::bytes::{spec_u64_to_le_bytes, u64_to_le_bytes};
use vstd::prelude::*;

verus! {

/// The bit that marks the point at infinity, in the last byte of a point.
pub const INFINITY_FLAG: u8 = 0x40;

/// The bit that marks a finite point whose `y` is above its own negative.
pub const NEGATIVE_FLAG: u8 = 0x80;

/// A point of the first group: its two affine coordinates.
#[derive(Clone, Copy, Debug, PartialEq, Eq, Structural)]
pub struct G1Point {
    pub x: BaseElement,
    pub y: BaseElement,
}

/// A point of the second group: its two affine coordinates, each a pair of
/// base-field elements.
#[derive(Clone, Copy, Debug)]
pub struct G2Point {
    pub x: [BaseElement; 2],
    pub y: [BaseElement; 2],
}

/// A succinct proof.
#[derive(Clone, Copy, Debug)]
pub struct ProofPoints {
    pub a: G1Point,
    pub b: G2Point,
    pub c: G1Point,
}

/// A verifying key: the four fixed points and one point for the constant
/// term and for each public input.
#[derive(Clone, Debug)]
pub struct KeyPoints {
    pub alpha_1: G1Point,
    pub beta_2: G2Point,
    pub gamma_2: G2Point,
    pub delta_2: G2Point,
    pub ic: Vec<G1Point>,
}

/// The 32 little-endian bytes of a base-field element.
pub open spec fn element_bytes(e: BaseElement) -> Seq<u8> {
    spec_u64_to_le_bytes(e.spec_limbs().0) + spec_u64_to_le_bytes(e.spec_limbs().1)
        + spec_u64_to_le_bytes(e.spec_limbs().2) + spec_u64_to_le_bytes(e.spec_limbs().3)
}

/// `bytes` with the bits of `flags` set in its last byte.
pub open spec fn flagged(bytes: Seq<u8>, flags: u8) -> Seq<u8> {
    if bytes.len() > 0 {
        bytes.update(bytes.len() - 1, bytes.last() | flags)
    } else {
        bytes
    }
}

/// Whether the coordinates stand for the point at infinity.
pub open spec fn g1_is_infinity(p: G1Point) -> bool {
    p.x@ == 0 && p.y@ == 0
}

/// Whether the coordinates stand for the point at infinity.
pub open spec fn g2_is_infinity(p: G2Point) -> bool {
    p.x[0]@ == 0 && p.x[1]@ == 0 && p.y[0]@ == 0 && p.y[1]@ == 0
}

/// The flags of a point of the first group.
pub open spec fn g1_flags(p: G1Point) -> u8 {
    if g1_is_infinity(p) {
        INFINITY_FLAG
    } else if p.y@ > base_half() {
        NEGATIVE_FLAG
    } else {
        0
    }
}

/// The flags of a point of the second group. Its `y` is a pair, compared
/// with its negative by the second element first.
pub open spec fn g2_flags(p: G2Point) -> u8 {
    if g2_is_infinity(p) {
        INFINITY_FLAG
    } else if p.y[1]@ > base_half() || (p.y[1]@ == 0 && p.y[0]@ > base_half()) {
        NEGATIVE_FLAG
    } else {
        0
    }
}

/// The 64 bytes of a point of the first group.
pub open spec fn g1_bytes(p: G1Point) -> Seq<u8> {
    element_bytes(p.x) + flagged(element_bytes(p.y), g1_flags(p))
}

/// The 128 bytes of a point of the second group.
pub open spec fn g2_bytes(p: G2Point) -> Seq<u8> {
    element_bytes(p.x[0]) + element_bytes(p.x[1]) + element_bytes(p.y[0]) + flagged(
        element_bytes(p.y[1]),
        g2_flags(p),
    )
}

/// The bytes of the first `n` points of a list, one after the other.
pub open spec fn g1_list_bytes(points: Seq<G1Point>, n: nat) -> Seq<u8>
    decreases n,
{
    if n == 0 {
        Seq::empty()
    } else {
        g1_list_bytes(points, (n - 1) as nat) + g1_bytes(points[n - 1])
    }
}

/// The 256 bytes of a proof: `a`, `b`, `c`.
pub open spec fn proof_bytes(p: ProofPoints) -> Seq<u8> {
    g1_bytes(p.a) + g2_bytes(p.b) + g1_bytes(p.c)
}

/// The bytes of a verifying key: the four fixed points, the number of the
/// remaining points as eight little-endian bytes, and those points.
pub open spec fn key_bytes(k: KeyPoints) -> Seq<u8> {
    g1_bytes(k.alpha_1) + g2_bytes(k.beta_2) + g2_bytes(k.gamma_2) + g2_bytes(k.delta_2)
        + spec_u64_to_le_bytes(k.ic@.len() as u64) + g1_list_bytes(k.ic@, k.ic@.len())
}

/// Appends `more` to `out`.
fn append_bytes(out: &mut Vec<u8>, more: &Vec<u8>)
    ensures
        final(out)@ == old(out)@ + more@,
{
    let ghost start = out@;
    let mut i: usize = 0;
    while i < more.len()
        invariant
            i <= more.len(),
            out@ == start + more@.take(i as int),
        decreases more.len() - i,
    {
        out.push(more[i]);
        assert(more@.take(i + 1) =~= more@.take(i as int).push(more@[i as int]));
        i = i + 1;
    }
    assert(more@.take(more.len() as int) =~= more@);
}

/// The 32 little-endian bytes of a base-field element, the last of them
/// with the bits of `flags` set.
pub fn write_element(e: &BaseElement, flags: u8) -> (out: Vec<u8>)
    ensures
        out@ == flagged(element_bytes(*e), flags),
        out@.len() == 32,
{
    let l = e.to_limbs();
    proof {
        vstd::bytes::lemma_auto_spec_u64_to_from_le_bytes();
    }
    let mut out = u64_to_le_bytes(l.0);
    let b1 = u64_to_le_bytes(l.1);
    let b2 = u64_to_le_bytes(l.2);
    let b3 = u64_to_le_bytes(l.3);
    append_bytes(&mut out, &b1);
    append_bytes(&mut out, &b2);
    append_bytes(&mut out, &b3);
    assert(out@ =~= element_bytes(*e));
    let last = out[31];
    out.set(31, last | flags);
    out
}

/// The 32 little-endian bytes of a base-field element.
pub fn write_plain(e: &BaseElement) -> (out: Vec<u8>)
    ensures
        out@ == element_bytes(*e),
        out@.len() == 32,
{
    let out = write_element(e, 0);
    proof {
        let last = element_bytes(*e).last();
        assert(last | 0u8 == last) by (bit_vector);
        assert(out@ =~= element_bytes(*e));
    }
    out
}

/// The bytes of a point of the first group.
pub fn to_g1(p: &G1Point) -> (out: Vec<u8>)
    ensures
        out@ == g1_bytes(*p),
        out@.len() == 64,
{
    let flags = if p.x.is_zero() && p.y.is_zero() {
        INFINITY_FLAG
    } else if p.y.exceeds_half() {
        NEGATIVE_FLAG
    } else {
        0
    };
    let mut out = write_plain(&p.x);
    let y = write_element(&p.y, flags);
    append_bytes(&mut out, &y);
    out
}

/// The bytes of a point of the second group.
pub fn to_g2(p: &G2Point) -> (out: Vec<u8>)
    ensures
        out@ == g2_bytes(*p),
        out@.len() == 128,
{
    let flags = if p.x[0].is_zero() && p.x[1].is_zero() && p.y[0].is_zero() && p.y[1].is_zero() {
        INFINITY_FLAG
    } else if p.y[1].exceeds_half() || (p.y[1].is_zero() && p.y[0].exceeds_half()) {
        NEGATIVE_FLAG
    } else {
        0
    };
    let mut out = write_plain(&p.x[0]);
    let x1 = write_plain(&p.x[1]);
    let y0 = write_plain(&p.y[0]);
    let y1 = write_element(&p.y[1], flags);
    append_bytes(&mut out, &x1);
    append_bytes(&mut out, &y0);
    append_bytes(&mut out, &y1);
    assert(out@ =~= g2_bytes(*p));
    out
}

/// The bytes of a list of points of the first group, one after the other.
pub fn to_g1_vec(points: &Vec<G1Point>) -> (out: Vec<u8>)
    ensures
        out@ == g1_list_bytes(points@, points@.len()),
{
    let mut out: Vec<u8> = Vec::new();
    let mut i: usize = 0;
    while i < points.len()
        invariant
            i <= points.len(),
            out@ == g1_list_bytes(points@, i as nat),
        decreases points.len() - i,
    {
        let next = to_g1(&points[i]);
        append_bytes(&mut out, &next);
        i = i + 1;
    }
    out
}

/// The bytes of a proof.
pub fn write_proof(p: &ProofPoints) -> (out: Vec<u8>)
    ensures
        out@ == proof_bytes(*p),
        out@.len() == 256,
{
    let mut out = to_g1(&p.a);
    let b = to_g2(&p.b);
    let c = to_g1(&p.c);
    append_bytes(&mut out, &b);
    append_bytes(&mut out, &c);
    out
}

/// The bytes of a verifying key.
pub fn write_key(k: &KeyPoints) -> (out: Vec<u8>)
    ensures
        out@ == key_bytes(*k),
{
    let mut out = to_g1(&k.alpha_1);
    let beta = to_g2(&k.beta_2);
    let gamma = to_g2(&k.gamma_2);
    let delta = to_g2(&k.delta_2);
    let count = u64_to_le_bytes(k.ic.len() as u64);
    let ic = to_g1_vec(&k.ic);
    append_bytes(&mut out, &beta);
    append_bytes(&mut out, &gamma);
    append_bytes(&mut out, &delta);
    append_bytes(&mut out, &count);
    append_bytes(&mut out, &ic);
    out
}

} // verus!
