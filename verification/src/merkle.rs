//! A perfect binary hash tree over a list of leaf hashes.
//!
//! The leaves are padded with a fixed element to the next power of two,
//! adjacent pairs are compressed level by level until one root remains, and
//! every level below the root is kept, so that the authentication path of a
//! leaf is read off without hashing again.

use crate::compression::{compress2, two_to_one, two_to_one_ok};
use crate::field::FieldElement;
use vstd::prelude::*;

verus! {

/// Whether `n` is a power of two.
pub open spec fn is_pow2(n: nat) -> bool
    decreases n,
{
    n == 1 || (n >= 2 && n % 2 == 0 && is_pow2(n / 2))
}

/// Two to the power `k`.
pub open spec fn pow2(k: nat) -> nat
    decreases k,
{
    if k == 0 {
        1
    } else {
        2 * pow2((k - 1) as nat)
    }
}

/// The least power of two that is at least `n`.
pub open spec fn padded_len(n: nat) -> nat
    decreases n,
{
    if n <= 1 {
        1
    } else {
        2 * padded_len((n + 1) / 2)
    }
}

/// The leaves followed by as many copies of `pad` as bring their number to
/// [`padded_len`].
pub open spec fn padded(leaves: Seq<FieldElement>, pad: FieldElement) -> Seq<FieldElement> {
    leaves + Seq::new((padded_len(leaves.len()) - leaves.len()) as nat, |i: int| pad)
}

/// The level above `nodes`: each adjacent pair compressed, left first.
pub open spec fn parents(
    f: spec_fn(FieldElement, FieldElement) -> FieldElement,
    nodes: Seq<FieldElement>,
) -> Seq<FieldElement> {
    Seq::new(nodes.len() / 2, |j: int| f(nodes[2 * j], nodes[2 * j + 1]))
}

/// The root above `nodes`, a level of a power-of-two length.
pub open spec fn root_of(
    f: spec_fn(FieldElement, FieldElement) -> FieldElement,
    nodes: Seq<FieldElement>,
) -> FieldElement
    decreases nodes.len(),
{
    if nodes.len() <= 1 {
        nodes[0]
    } else {
        root_of(f, parents(f, nodes))
    }
}

/// `nodes` and every level above it, bottom first, without the level that
/// holds the root alone.
pub open spec fn levels_of(
    f: spec_fn(FieldElement, FieldElement) -> FieldElement,
    nodes: Seq<FieldElement>,
) -> Seq<Seq<FieldElement>>
    decreases nodes.len(),
{
    if nodes.len() <= 1 {
        Seq::empty()
    } else {
        seq![nodes] + levels_of(f, parents(f, nodes))
    }
}

/// The neighbour with which node `j` of a level is compressed.
pub open spec fn sibling(j: nat) -> nat {
    if j % 2 == 1 {
        (j - 1) as nat
    } else {
        j + 1
    }
}

/// The levels have the lengths of a tree: the bottom one `2^n` for `n`
/// levels, each next one half of the one below.
pub open spec fn shaped(levels: Seq<Seq<FieldElement>>) -> bool
    decreases levels.len(),
{
    levels.len() == 0 || (levels[0].len() == pow2(levels.len()) && shaped(levels.drop_first()))
}

/// The authentication path of leaf `index`: at each level the sibling of the
/// node above the leaf.
pub open spec fn path_of(levels: Seq<Seq<FieldElement>>, index: nat) -> Seq<FieldElement>
    decreases levels.len(),
{
    if levels.len() == 0 {
        Seq::empty()
    } else {
        seq![levels[0][sibling(index) as int]] + path_of(levels.drop_first(), index / 2)
    }
}

/// The hash reached from `acc` by compressing it with each path entry in
/// turn. Bit `i` of `index` puts entry `i` first when it is 1, the running
/// hash first when it is 0.
pub open spec fn fold_path(
    f: spec_fn(FieldElement, FieldElement) -> FieldElement,
    acc: FieldElement,
    index: nat,
    path: Seq<FieldElement>,
) -> FieldElement
    decreases path.len(),
{
    if path.len() == 0 {
        acc
    } else {
        let next = if index % 2 == 1 {
            f(path[0], acc)
        } else {
            f(acc, path[0])
        };
        fold_path(f, next, index / 2, path.drop_first())
    }
}

/// Whether `path` leads from `leaf` at `index` to `root`.
pub open spec fn path_verifies(
    f: spec_fn(FieldElement, FieldElement) -> FieldElement,
    leaf: FieldElement,
    index: nat,
    root: FieldElement,
    path: Seq<FieldElement>,
) -> bool {
    fold_path(f, leaf, index, path) == root
}

/// `padded_len(n)` is a power of two, at least `n` and below `2 * n` (for
/// positive `n`): it is the one power of two in that range.
pub proof fn lemma_padded_len(n: nat)
    ensures
        is_pow2(padded_len(n)),
        n <= padded_len(n),
        n >= 1 ==> padded_len(n) < 2 * n,
        is_pow2(n) ==> padded_len(n) == n,
    decreases n,
{
    if n > 1 {
        lemma_padded_len((n + 1) / 2);
        assert(padded_len(n) / 2 == padded_len((n + 1) / 2));
        if is_pow2(n) {
            assert((n + 1) / 2 == n / 2);
        }
    }
}

/// The least power of two that is at least `n`.
pub fn padded_length(n: usize) -> (size: u128)
    ensures
        size == padded_len(n as nat),
        is_pow2(size as nat),
{
    let mut size: u128 = 1;
    let mut rest: u128 = n as u128;
    proof {
        lemma_padded_len(n as nat);
    }
    // size * padded_len(rest) stays the target while rest shrinks to 1.
    while rest > 1
        invariant
            1 <= size,
            size * padded_len(rest as nat) == padded_len(n as nat),
            rest <= n,
            padded_len(n as nat) <= 2 * n + 1,
        decreases rest,
    {
        proof {
            lemma_padded_len(rest as nat);
            lemma_padded_len(((rest + 1) / 2) as nat);
            assert(size * padded_len(rest as nat) == (size * 2) * padded_len(
                ((rest + 1) / 2) as nat,
            )) by (nonlinear_arith)
                requires
                    padded_len(rest as nat) == 2 * padded_len(((rest + 1) / 2) as nat),
            ;
            assert(size * 2 <= padded_len(n as nat)) by (nonlinear_arith)
                requires
                    (size * 2) * padded_len(((rest + 1) / 2) as nat) == padded_len(n as nat),
                    padded_len(((rest + 1) / 2) as nat) >= 1,
            ;
        }
        size = size * 2;
        rest = (rest + 1) / 2;
    }
    assert(size * 1 == size);
    size
}

/// The number of levels below the root of the tree over `leaves` leaves,
/// which is the length of every authentication path: the least `n` with
/// `2^n >= leaves`.
pub fn path_length(leaves: usize) -> (n: usize)
    ensures
        pow2(n as nat) == padded_len(leaves as nat),
{
    let target = padded_length(leaves);
    let mut size: u128 = 1;
    let mut n: usize = 0;
    proof {
        lemma_padded_len(leaves as nat);
    }
    while size < target
        invariant
            size == pow2(n as nat),
            size <= target,
            target == padded_len(leaves as nat),
            target <= 2 * leaves + 1,
            is_pow2(target as nat),
            n < size,
        decreases target - size,
    {
        proof {
            lemma_pow2_below(n as nat, target as nat);
        }
        size = size * 2;
        n = n + 1;
    }
    n
}

/// A power of two below a power of two is at most half of it.
proof fn lemma_pow2_below(n: nat, target: nat)
    requires
        is_pow2(target),
        pow2(n) < target,
    ensures
        2 * pow2(n) <= target,
    decreases n,
{
    if n > 0 {
        assert(pow2(n) == 2 * pow2((n - 1) as nat));
        assert(pow2((n - 1) as nat) >= 1) by {
            lemma_pow2_positive((n - 1) as nat);
        }
        assert(target >= 2 && target % 2 == 0 && is_pow2(target / 2));
        lemma_pow2_below((n - 1) as nat, target / 2);
    }
}

proof fn lemma_pow2_positive(n: nat)
    ensures
        pow2(n) >= 1,
    decreases n,
{
    if n > 0 {
        lemma_pow2_positive((n - 1) as nat);
    }
}

/// Pads `leaves` with `pad` to the next power of two.
pub fn pad_leaves(leaves: Vec<FieldElement>, pad: FieldElement) -> (r: Vec<FieldElement>)
    ensures
        r@ == padded(leaves@, pad),
        is_pow2(r@.len()),
{
    let ghost given = leaves@;
    let mut nodes = leaves;
    let size = padded_length(nodes.len());
    proof {
        lemma_padded_len(given.len());
    }
    assert(nodes@ =~= given + Seq::new(0, |i: int| pad));
    while (nodes.len() as u128) < size
        invariant
            size == padded_len(given.len()),
            given.len() <= nodes.len(),
            nodes.len() <= size,
            is_pow2(size as nat),
            nodes@ == given + Seq::new((nodes.len() - given.len()) as nat, |i: int| pad),
        decreases size - nodes.len(),
    {
        nodes.push(pad);
        assert(nodes@ =~= given + Seq::new(
            (nodes.len() - given.len()) as nat,
            |i: int| pad,
        ));
    }
    nodes
}

/// Compresses one level into the one above it.
pub fn compress_level<H: Fn(FieldElement, FieldElement) -> FieldElement>(
    nodes: &Vec<FieldElement>,
    h: &H,
) -> (next: Vec<FieldElement>)
    requires
        two_to_one_ok(h),
    ensures
        next@ == parents(two_to_one(h), nodes@),
{
    let half = nodes.len() / 2;
    let mut next: Vec<FieldElement> = Vec::new();
    let mut j: usize = 0;
    while j < half
        invariant
            two_to_one_ok(h),
            half == nodes.len() / 2,
            j <= half,
            next.len() == j,
            forall|k: int|
                0 <= k < j ==> next[k] == two_to_one(h)(nodes[2 * k], #[trigger] nodes[2 * k + 1]),
        decreases half - j,
    {
        let r = compress2(h, nodes[2 * j], nodes[2 * j + 1]);
        next.push(r);
        j = j + 1;
    }
    assert(next@ =~= parents(two_to_one(h), nodes@));
    next
}

/// The levels of a tree as sequences.
pub open spec fn level_views(levels: Seq<Vec<FieldElement>>) -> Seq<Seq<FieldElement>> {
    Seq::new(levels.len(), |i: int| levels[i]@)
}

/// The levels above a power-of-two number of nodes have the lengths of a
/// tree, and there are as many of them as the node count has doublings.
pub proof fn lemma_levels_shaped(
    f: spec_fn(FieldElement, FieldElement) -> FieldElement,
    nodes: Seq<FieldElement>,
)
    requires
        is_pow2(nodes.len()),
    ensures
        shaped(levels_of(f, nodes)),
        nodes.len() == pow2(levels_of(f, nodes).len()),
    decreases nodes.len(),
{
    if nodes.len() > 1 {
        let up = parents(f, nodes);
        lemma_levels_shaped(f, up);
        assert(levels_of(f, nodes).drop_first() =~= levels_of(f, up));
    }
}

/// The levels have the lengths of a tree exactly when level `k` of `n` has
/// `2^(n - k)` nodes.
pub proof fn lemma_shaped_by_lengths(levels: Seq<Seq<FieldElement>>)
    ensures
        shaped(levels) <==> forall|k: int|
            0 <= k < levels.len() ==> (#[trigger] levels[k]).len() == pow2(
                (levels.len() - k) as nat,
            ),
    decreases levels.len(),
{
    if levels.len() > 0 {
        let rest = levels.drop_first();
        lemma_shaped_by_lengths(rest);
        if shaped(levels) {
            assert forall|k: int| 0 <= k < levels.len() implies (#[trigger] levels[k]).len()
                == pow2((levels.len() - k) as nat) by {
                if k > 0 {
                    assert(rest[k - 1] == levels[k]);
                }
            }
        }
        if forall|k: int|
            0 <= k < levels.len() ==> (#[trigger] levels[k]).len() == pow2(
                (levels.len() - k) as nat,
            ) {
            assert forall|k: int| 0 <= k < rest.len() implies (#[trigger] rest[k]).len() == pow2(
                (rest.len() - k) as nat,
            ) by {
                assert(rest[k] == levels[k + 1]);
            }
        }
    }
}

/// Decides [`shaped`].
pub fn is_shaped(levels: &Vec<Vec<FieldElement>>) -> (r: bool)
    ensures
        r == shaped(level_views(levels@)),
{
    let ghost views = level_views(levels@);
    proof {
        lemma_shaped_by_lengths(views);
    }
    let n = levels.len();
    let mut width: usize = 1;
    let mut k: usize = n;
    while k > 0
        invariant
            n == levels.len(),
            views == level_views(levels@),
            k <= n,
            width == pow2((n - k) as nat),
            shaped(views) <==> forall|j: int|
                0 <= j < views.len() ==> (#[trigger] views[j]).len() == pow2(
                    (views.len() - j) as nat,
                ),
            forall|j: int| k <= j < n ==> (#[trigger] views[j]).len() == pow2((n - j) as nat),
        decreases k,
    {
        let length = levels[k - 1].len();
        assert(views[k - 1] == levels@[k - 1]@);
        assert(pow2((n - (k - 1)) as nat) == 2 * width);
        if width > usize::MAX / 2 {
            return false;
        }
        width = width * 2;
        k = k - 1;
        if length != width {
            return false;
        }
    }
    true
}

/// The root above a power-of-two number of nodes, by repeated compression.
pub fn merkle_tree<H: Fn(FieldElement, FieldElement) -> FieldElement>(
    nodes: Vec<FieldElement>,
    h: &H,
) -> (root: FieldElement)
    requires
        two_to_one_ok(h),
        nodes.len() >= 1,
    ensures
        root == root_of(two_to_one(h), nodes@),
{
    let ghost bottom = nodes@;
    let mut current = nodes;
    while current.len() > 1
        invariant
            two_to_one_ok(h),
            current.len() >= 1,
            root_of(two_to_one(h), current@) == root_of(two_to_one(h), bottom),
        decreases current.len(),
    {
        let next = compress_level(&current, h);
        current = next;
    }
    current[0]
}

/// The root above a power-of-two number of nodes together with every level
/// below the root, bottom first.
pub fn merkle_tree_with_proof<H: Fn(FieldElement, FieldElement) -> FieldElement>(
    nodes: Vec<FieldElement>,
    h: &H,
) -> (r: (FieldElement, Vec<Vec<FieldElement>>))
    requires
        two_to_one_ok(h),
        nodes.len() >= 1,
    ensures
        r.0 == root_of(two_to_one(h), nodes@),
        level_views(r.1@) == levels_of(two_to_one(h), nodes@),
{
    let ghost bottom = nodes@;
    let mut current = nodes;
    let mut levels: Vec<Vec<FieldElement>> = Vec::new();
    assert(level_views(levels@) + levels_of(two_to_one(h), current@) =~= levels_of(
        two_to_one(h),
        bottom,
    ));
    while current.len() > 1
        invariant
            two_to_one_ok(h),
            current.len() >= 1,
            root_of(two_to_one(h), current@) == root_of(two_to_one(h), bottom),
            level_views(levels@) + levels_of(two_to_one(h), current@) == levels_of(
                two_to_one(h),
                bottom,
            ),
        decreases current.len(),
    {
        let next = compress_level(&current, h);
        let ghost before = levels@;
        let ghost below = current@;
        levels.push(current);
        current = next;
        assert(level_views(levels@) + levels_of(two_to_one(h), current@) =~= level_views(before)
            + levels_of(two_to_one(h), below)) by {
            assert(level_views(levels@) =~= level_views(before) + seq![below]);
        }
    }
    assert(level_views(levels@) =~= levels_of(two_to_one(h), bottom));
    (current[0], levels)
}

/// The authentication path of leaf `index`, read off the kept levels.
pub fn extract_path(levels: &Vec<Vec<FieldElement>>, index: usize) -> (path: Vec<FieldElement>)
    requires
        shaped(level_views(levels@)),
        index < pow2(levels@.len()),
    ensures
        path@ == path_of(level_views(levels@), index as nat),
        path@.len() == levels@.len(),
{
    let ghost views = level_views(levels@);
    let mut path: Vec<FieldElement> = Vec::new();
    let mut idx: usize = index;
    let mut i: usize = 0;
    assert(views.skip(0) =~= views);
    while i < levels.len()
        invariant
            views == level_views(levels@),
            i <= levels.len(),
            path.len() == i,
            shaped(views.skip(i as int)),
            idx < pow2((levels.len() - i) as nat),
            path@ + path_of(views.skip(i as int), idx as nat) == path_of(views, index as nat),
        decreases levels.len() - i,
    {
        let ghost rest = views.skip(i as int);
        assert(rest[0] == levels[i as int]@);
        assert(rest.drop_first() =~= views.skip(i + 1));
        let level = &levels[i];
        let sib: usize = if idx % 2 == 1 {
            idx - 1
        } else {
            idx + 1
        };
        let ghost before = path@;
        path.push(level[sib]);
        assert(path@ + path_of(views.skip(i + 1), (idx / 2) as nat) =~= before + path_of(
            rest,
            idx as nat,
        ));
        idx = idx / 2;
        i = i + 1;
    }
    assert(path@ =~= path_of(views, index as nat));
    path
}

/// Recomputes the root from `leaf` and `path`, taking the order of each
/// compression from the bits of `index`, and compares it with `root`.
pub fn verify_path<H: Fn(FieldElement, FieldElement) -> FieldElement>(
    leaf: FieldElement,
    index: FieldElement,
    root: FieldElement,
    path: &Vec<FieldElement>,
    h: &H,
) -> (ok: bool)
    requires
        two_to_one_ok(h),
    ensures
        ok == path_verifies(two_to_one(h), leaf, index@, root, path@),
{
    let mut acc = leaf;
    let mut idx = index;
    let mut i: usize = 0;
    assert(path@.skip(0) =~= path@);
    while i < path.len()
        invariant
            two_to_one_ok(h),
            i <= path.len(),
            fold_path(two_to_one(h), acc, idx@, path@.skip(i as int)) == fold_path(
                two_to_one(h),
                leaf,
                index@,
                path@,
            ),
        decreases path.len() - i,
    {
        assert(path@.skip(i as int).drop_first() =~= path@.skip(i + 1));
        assert(path@.skip(i as int)[0] == path@[i as int]);
        let entry = path[i];
        acc = if idx.is_odd() {
            compress2(h, entry, acc)
        } else {
            compress2(h, acc, entry)
        };
        idx = idx.half();
        i = i + 1;
    }
    acc == root
}

/// Every leaf of a tree verifies against the tree's root with the path
/// that the tree's levels give for it.
pub proof fn lemma_extracted_path_verifies(
    f: spec_fn(FieldElement, FieldElement) -> FieldElement,
    nodes: Seq<FieldElement>,
    index: nat,
)
    requires
        is_pow2(nodes.len()),
        index < nodes.len(),
    ensures
        path_verifies(
            f,
            nodes[index as int],
            index,
            root_of(f, nodes),
            path_of(levels_of(f, nodes), index),
        ),
    decreases nodes.len(),
{
    if nodes.len() > 1 {
        let up = parents(f, nodes);
        let levels = levels_of(f, nodes);
        let path = path_of(levels, index);
        assert(levels.drop_first() =~= levels_of(f, up));
        assert(path.drop_first() =~= path_of(levels_of(f, up), index / 2));
        assert(path[0] == nodes[sibling(index) as int]);
        assert(up[(index / 2) as int] == f(
            nodes[2 * (index / 2) as int],
            nodes[2 * (index / 2) as int + 1],
        ));
        lemma_extracted_path_verifies(f, up, index / 2);
    }
}

/// Every leaf of a list of any length verifies against the root of the
/// padded tree with the path that the tree's levels give for it.
pub proof fn lemma_padded_leaf_verifies(
    f: spec_fn(FieldElement, FieldElement) -> FieldElement,
    leaves: Seq<FieldElement>,
    pad: FieldElement,
    index: nat,
)
    requires
        index < leaves.len(),
    ensures
        path_verifies(
            f,
            leaves[index as int],
            index,
            root_of(f, padded(leaves, pad)),
            path_of(levels_of(f, padded(leaves, pad)), index),
        ),
{
    lemma_padded_len(leaves.len());
    assert(padded(leaves, pad)[index as int] == leaves[index as int]);
    lemma_extracted_path_verifies(f, padded(leaves, pad), index);
}

/// Whether the two recomputations, level by level, ever compress two
/// different pairs to the same hash.
pub open spec fn folds_collide(
    f: spec_fn(FieldElement, FieldElement) -> FieldElement,
    acc1: FieldElement,
    path1: Seq<FieldElement>,
    acc2: FieldElement,
    path2: Seq<FieldElement>,
    index: nat,
) -> bool
    decreases path1.len(),
{
    if path1.len() == 0 || path2.len() == 0 {
        false
    } else {
        let next1 = if index % 2 == 1 {
            f(path1[0], acc1)
        } else {
            f(acc1, path1[0])
        };
        let next2 = if index % 2 == 1 {
            f(path2[0], acc2)
        } else {
            f(acc2, path2[0])
        };
        ((acc1 != acc2 || path1[0] != path2[0]) && next1 == next2) || folds_collide(
            f,
            next1,
            path1.drop_first(),
            next2,
            path2.drop_first(),
            index / 2,
        )
    }
}

/// A changed leaf or a changed path entry changes the recomputed root,
/// unless the compression maps two different pairs to one hash on the way.
pub proof fn lemma_tampering_changes_root(
    f: spec_fn(FieldElement, FieldElement) -> FieldElement,
    leaf1: FieldElement,
    path1: Seq<FieldElement>,
    leaf2: FieldElement,
    path2: Seq<FieldElement>,
    index: nat,
)
    requires
        path1.len() == path2.len(),
        leaf1 != leaf2 || path1 != path2,
        !folds_collide(f, leaf1, path1, leaf2, path2, index),
    ensures
        fold_path(f, leaf1, index, path1) != fold_path(f, leaf2, index, path2),
    decreases path1.len(),
{
    if path1.len() > 0 {
        let next1 = if index % 2 == 1 {
            f(path1[0], leaf1)
        } else {
            f(leaf1, path1[0])
        };
        let next2 = if index % 2 == 1 {
            f(path2[0], leaf2)
        } else {
            f(leaf2, path2[0])
        };
        if leaf1 == leaf2 && path1[0] == path2[0] {
            if path1.drop_first() =~= path2.drop_first() {
                assert(path1 =~= seq![path1[0]] + path1.drop_first());
                assert(path2 =~= seq![path2[0]] + path2.drop_first());
            }
        }
        lemma_tampering_changes_root(
            f,
            next1,
            path1.drop_first(),
            next2,
            path2.drop_first(),
            index / 2,
        );
    } else {
        assert(path1 =~= path2);
    }
}

/// A path that verifies stops verifying once the leaf or any of its entries
/// is changed, unless the compression collides on the way.
pub proof fn lemma_tampered_path_rejected(
    f: spec_fn(FieldElement, FieldElement) -> FieldElement,
    leaf: FieldElement,
    path: Seq<FieldElement>,
    tampered_leaf: FieldElement,
    tampered_path: Seq<FieldElement>,
    index: nat,
    root: FieldElement,
)
    requires
        path_verifies(f, leaf, index, root, path),
        path.len() == tampered_path.len(),
        leaf != tampered_leaf || path != tampered_path,
        !folds_collide(f, leaf, path, tampered_leaf, tampered_path, index),
    ensures
        !path_verifies(f, tampered_leaf, index, root, tampered_path),
{
    lemma_tampering_changes_root(f, leaf, path, tampered_leaf, tampered_path, index);
}

} // verus!
