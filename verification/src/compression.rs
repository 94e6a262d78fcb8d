//! The compression functions that callers hand in.
//!
//! The library hashes with a two-to-one and a four-to-one compression over
//! field elements. It does not fix them: every hashing function here takes
//! them as arguments and asks only that they accept every element and that
//! they are deterministic. What the library computes is then stated over the
//! mathematical function that such an argument stands for.

use crate::field::FieldElement;
use vstd::prelude::*;

verus! {

/// A two-to-one compression is usable: it accepts every pair of elements and
/// returns one result for each pair.
pub open spec fn two_to_one_ok<H: Fn(FieldElement, FieldElement) -> FieldElement>(h: &H) -> bool {
    &&& forall|a: FieldElement, b: FieldElement|
        a.canonical() && b.canonical() ==> #[trigger] h.requires((a, b))
    &&& forall|a: FieldElement, b: FieldElement, r1: FieldElement, r2: FieldElement|
        #[trigger] h.ensures((a, b), r1) && #[trigger] h.ensures((a, b), r2) ==> r1 == r2
}

/// The function that a usable two-to-one compression computes.
pub open spec fn two_to_one<H: Fn(FieldElement, FieldElement) -> FieldElement>(
    h: &H,
) -> spec_fn(FieldElement, FieldElement) -> FieldElement {
    |a: FieldElement, b: FieldElement| choose|r: FieldElement| h.ensures((a, b), r)
}

/// A four-to-one compression is usable: it accepts every four elements and
/// returns one result for each.
pub open spec fn four_to_one_ok<
    H: Fn(FieldElement, FieldElement, FieldElement, FieldElement) -> FieldElement,
>(h: &H) -> bool {
    &&& forall|a: FieldElement, b: FieldElement, c: FieldElement, d: FieldElement|
        a.canonical() && b.canonical() && c.canonical() && d.canonical() ==> #[trigger] h.requires(
            (a, b, c, d),
        )
    &&& forall|
        a: FieldElement,
        b: FieldElement,
        c: FieldElement,
        d: FieldElement,
        r1: FieldElement,
        r2: FieldElement,
    |
        #[trigger] h.ensures((a, b, c, d), r1) && #[trigger] h.ensures((a, b, c, d), r2) ==> r1
            == r2
}

/// The function that a usable four-to-one compression computes.
pub open spec fn four_to_one<
    H: Fn(FieldElement, FieldElement, FieldElement, FieldElement) -> FieldElement,
>(h: &H) -> spec_fn(FieldElement, FieldElement, FieldElement, FieldElement) -> FieldElement {
    |a: FieldElement, b: FieldElement, c: FieldElement, d: FieldElement|
        choose|r: FieldElement| h.ensures((a, b, c, d), r)
}

/// Whatever a usable two-to-one compression can return for a pair is the
/// value of its function at that pair.
pub proof fn lemma_two_to_one_value<H: Fn(FieldElement, FieldElement) -> FieldElement>(
    h: &H,
    a: FieldElement,
    b: FieldElement,
    r: FieldElement,
)
    requires
        two_to_one_ok(h),
        h.ensures((a, b), r),
    ensures
        two_to_one(h)(a, b) == r,
{
}

/// Whatever a usable four-to-one compression can return for four elements
/// is the value of its function there.
pub proof fn lemma_four_to_one_value<
    H: Fn(FieldElement, FieldElement, FieldElement, FieldElement) -> FieldElement,
>(h: &H, a: FieldElement, b: FieldElement, c: FieldElement, d: FieldElement, r: FieldElement)
    requires
        four_to_one_ok(h),
        h.ensures((a, b, c, d), r),
    ensures
        four_to_one(h)(a, b, c, d) == r,
{
}

/// Applies a two-to-one compression.
pub fn compress2<H: Fn(FieldElement, FieldElement) -> FieldElement>(
    h: &H,
    a: FieldElement,
    b: FieldElement,
) -> (r: FieldElement)
    requires
        two_to_one_ok(h),
    ensures
        r == two_to_one(h)(a, b),
        h.ensures((a, b), r),
{
    proof {
        use_type_invariant(&a);
        use_type_invariant(&b);
    }
    let r = h(a, b);
    assert(h.ensures((a, b), r));
    r
}

/// Applies a four-to-one compression.
pub fn compress4<H: Fn(FieldElement, FieldElement, FieldElement, FieldElement) -> FieldElement>(
    h: &H,
    a: FieldElement,
    b: FieldElement,
    c: FieldElement,
    d: FieldElement,
) -> (r: FieldElement)
    requires
        four_to_one_ok(h),
    ensures
        r == four_to_one(h)(a, b, c, d),
        h.ensures((a, b, c, d), r),
{
    proof {
        use_type_invariant(&a);
        use_type_invariant(&b);
        use_type_invariant(&c);
        use_type_invariant(&d);
    }
    let r = h(a, b, c, d);
    assert(h.ensures((a, b, c, d), r));
    r
}

} // verus!
