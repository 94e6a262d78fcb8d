//! Leaf hashes of tasks and agents, the two commitment roots, and the
//! inclusion check of one agent.
//!
//! The task tree and the agent tree are padded with different constants, so
//! that a leaf of one cannot stand for a leaf of the other.

use crate::compression::{
    compress2, compress4, four_to_one, four_to_one_ok, two_to_one, two_to_one_ok,
};
use crate::field::{add_mod, field_add, field_mul, modulus, mul_mod, FieldElement};
use crate::fleet::{Robot, Task};
use crate::merkle::{
    extract_path, lemma_extracted_path_verifies, lemma_levels_shaped, lemma_padded_len,
    level_views, levels_of, merkle_tree, merkle_tree_with_proof, pad_leaves, padded, padded_len,
    path_of, path_verifies, pow2, root_of, shaped, verify_path,
};
use vstd::prelude::*;

verus! {

/// The factor by which the first of two packed values is shifted: `2^14`,
/// above every coordinate.
pub const PACK_SHIFT: u64 = 16384;

/// The integer value of the element that pads the task tree.
pub open spec fn task_pad_value() -> nat {
    103860425244306721054357604449078699979184018657001128167783972180760304967nat
}

/// The integer value of the element that pads the agent tree.
pub open spec fn robot_pad_value() -> nat {
    19803829510264496905782185690924016388609305741426681378119315514000584486177nat
}

/// The element that pads the task tree.
pub fn task_pad() -> (r: FieldElement)
    ensures
        r@ == task_pad_value(),
        r == FieldElement::of_nat(task_pad_value()),
{
    let r = FieldElement::from_limbs(
        14109761425479933255,
        14147736323946236595,
        10941551084028840859,
        16545920334348178,
    ).unwrap();
    proof {
        r.lemma_of_view();
    }
    r
}

/// The element that pads the agent tree.
pub fn robot_pad() -> (r: FieldElement)
    ensures
        r@ == robot_pad_value(),
        r == FieldElement::of_nat(robot_pad_value()),
{
    let r = FieldElement::from_limbs(
        1366095360018885921,
        17861047854445476291,
        6663700193185116670,
        3154932060224852380,
    ).unwrap();
    proof {
        r.lemma_of_view();
    }
    r
}

/// Two elements packed into one: the first times `2^14`, plus the second,
/// in the field.
pub open spec fn pack(a: FieldElement, b: FieldElement) -> FieldElement {
    FieldElement::of_nat(add_mod(mul_mod(a@, PACK_SHIFT as nat), b@))
}

/// The leaf hash of a task: its ordinal packed with `x`, and `y` packed
/// with `z`, compressed two-to-one.
pub open spec fn task_leaf(
    f2: spec_fn(FieldElement, FieldElement) -> FieldElement,
    task: Task,
) -> FieldElement {
    f2(pack(task.task_id, task.x), pack(task.y, task.z))
}

/// The leaf hash of an agent: its identifier, the leaf hashes of its two
/// tasks and zero, compressed four-to-one.
pub open spec fn robot_leaf(
    f2: spec_fn(FieldElement, FieldElement) -> FieldElement,
    f4: spec_fn(FieldElement, FieldElement, FieldElement, FieldElement) -> FieldElement,
    robot: Robot,
) -> FieldElement {
    f4(
        robot.robot_id,
        task_leaf(f2, robot.list_tasks[0]),
        task_leaf(f2, robot.list_tasks[1]),
        FieldElement::of_nat(0),
    )
}

/// The leaf hashes of a list of tasks.
pub open spec fn task_leaves(
    f2: spec_fn(FieldElement, FieldElement) -> FieldElement,
    tasks: Seq<Task>,
) -> Seq<FieldElement> {
    Seq::new(tasks.len(), |i: int| task_leaf(f2, tasks[i]))
}

/// The leaf hashes of a list of agents.
pub open spec fn robot_leaves(
    f2: spec_fn(FieldElement, FieldElement) -> FieldElement,
    f4: spec_fn(FieldElement, FieldElement, FieldElement, FieldElement) -> FieldElement,
    robots: Seq<Robot>,
) -> Seq<FieldElement> {
    Seq::new(robots.len(), |i: int| robot_leaf(f2, f4, robots[i]))
}

/// The bottom level of the task tree: the task leaves, padded.
pub open spec fn task_tree_leaves(
    f2: spec_fn(FieldElement, FieldElement) -> FieldElement,
    tasks: Seq<Task>,
) -> Seq<FieldElement> {
    padded(task_leaves(f2, tasks), FieldElement::of_nat(task_pad_value()))
}

/// The bottom level of the agent tree: the agent leaves, padded.
pub open spec fn robot_tree_leaves(
    f2: spec_fn(FieldElement, FieldElement) -> FieldElement,
    f4: spec_fn(FieldElement, FieldElement, FieldElement, FieldElement) -> FieldElement,
    robots: Seq<Robot>,
) -> Seq<FieldElement> {
    padded(robot_leaves(f2, f4, robots), FieldElement::of_nat(robot_pad_value()))
}

/// Packing loses nothing as long as the second element is below the
/// shift and the packed value does not reach the modulus: two pairs that
/// pack to the same element are the same pair.
pub proof fn lemma_pack_injective(
    a: FieldElement,
    b: FieldElement,
    c: FieldElement,
    d: FieldElement,
)
    requires
        b@ < PACK_SHIFT,
        d@ < PACK_SHIFT,
        a@ * PACK_SHIFT + b@ < modulus(),
        c@ * PACK_SHIFT + d@ < modulus(),
        pack(a, b) == pack(c, d),
    ensures
        a == c,
        b == d,
{
    let p = modulus();
    let left = a@ * 16384 + b@;
    let right = c@ * 16384 + d@;
    assert(a@ * 16384 < p);
    assert(c@ * 16384 < p);
    vstd::arithmetic::div_mod::lemma_small_mod(a@ * 16384, p);
    vstd::arithmetic::div_mod::lemma_small_mod(c@ * 16384, p);
    vstd::arithmetic::div_mod::lemma_small_mod(left, p);
    vstd::arithmetic::div_mod::lemma_small_mod(right, p);
    FieldElement::lemma_of_nat(left);
    FieldElement::lemma_of_nat(right);
    assert(left == right);
    FieldElement::lemma_view_injective(a, c);
    FieldElement::lemma_view_injective(b, d);
}

/// Packs two elements into one.
pub fn pack_pair(a: FieldElement, b: FieldElement) -> (r: FieldElement)
    ensures
        r == pack(a, b),
        r@ == add_mod(mul_mod(a@, PACK_SHIFT as nat), b@),
{
    let shift = FieldElement::from_u64(PACK_SHIFT);
    proof {
        use_type_invariant(&a);
        use_type_invariant(&b);
    }
    let r = field_add(field_mul(a, shift), b);
    proof {
        r.lemma_of_view();
    }
    r
}

/// The leaf hash of a task.
pub fn hash_task<H2: Fn(FieldElement, FieldElement) -> FieldElement>(task: Task, h2: &H2) -> (r:
    FieldElement)
    requires
        two_to_one_ok(h2),
    ensures
        r == task_leaf(two_to_one(h2), task),
{
    compress2(h2, pack_pair(task.task_id, task.x), pack_pair(task.y, task.z))
}

/// The leaf hash of an agent.
pub fn hash_robot<
    H2: Fn(FieldElement, FieldElement) -> FieldElement,
    H4: Fn(FieldElement, FieldElement, FieldElement, FieldElement) -> FieldElement,
>(robot: Robot, h2: &H2, h4: &H4) -> (r: FieldElement)
    requires
        two_to_one_ok(h2),
        four_to_one_ok(h4),
    ensures
        r == robot_leaf(two_to_one(h2), four_to_one(h4), robot),
{
    let first = hash_task(robot.list_tasks[0], h2);
    let second = hash_task(robot.list_tasks[1], h2);
    let zero = FieldElement::zero();
    proof {
        zero.lemma_of_view();
    }
    compress4(h4, robot.robot_id, first, second, zero)
}

/// The root of the task tree: the commitment to the batch of tasks that
/// were eligible in a round.
pub fn task_root<H2: Fn(FieldElement, FieldElement) -> FieldElement>(
    tasks: &Vec<Task>,
    h2: &H2,
) -> (root: FieldElement)
    requires
        two_to_one_ok(h2),
    ensures
        root == root_of(two_to_one(h2), task_tree_leaves(two_to_one(h2), tasks@)),
{
    let mut leaves: Vec<FieldElement> = Vec::new();
    let mut i: usize = 0;
    while i < tasks.len()
        invariant
            two_to_one_ok(h2),
            i <= tasks.len(),
            leaves.len() == i,
            forall|k: int| 0 <= k < i ==> #[trigger] leaves[k] == task_leaf(two_to_one(h2), tasks[k]),
        decreases tasks.len() - i,
    {
        leaves.push(hash_task(tasks[i], h2));
        i = i + 1;
    }
    assert(leaves@ =~= task_leaves(two_to_one(h2), tasks@));
    let nodes = pad_leaves(leaves, task_pad());
    merkle_tree(nodes, h2)
}

/// The root of the agent tree and every level below it, bottom first.
pub fn robot_root<
    H2: Fn(FieldElement, FieldElement) -> FieldElement,
    H4: Fn(FieldElement, FieldElement, FieldElement, FieldElement) -> FieldElement,
>(robots: &Vec<Robot>, h2: &H2, h4: &H4) -> (r: (FieldElement, Vec<Vec<FieldElement>>))
    requires
        two_to_one_ok(h2),
        four_to_one_ok(h4),
    ensures
        r.0 == root_of(
            two_to_one(h2),
            robot_tree_leaves(two_to_one(h2), four_to_one(h4), robots@),
        ),
        level_views(r.1@) == levels_of(
            two_to_one(h2),
            robot_tree_leaves(two_to_one(h2), four_to_one(h4), robots@),
        ),
        shaped(level_views(r.1@)),
        pow2(r.1@.len()) == padded_len(robots@.len()),
{
    let mut leaves: Vec<FieldElement> = Vec::new();
    let mut i: usize = 0;
    while i < robots.len()
        invariant
            two_to_one_ok(h2),
            four_to_one_ok(h4),
            i <= robots.len(),
            leaves.len() == i,
            forall|k: int|
                0 <= k < i ==> #[trigger] leaves[k] == robot_leaf(
                    two_to_one(h2),
                    four_to_one(h4),
                    robots[k],
                ),
        decreases robots.len() - i,
    {
        leaves.push(hash_robot(robots[i], h2, h4));
        i = i + 1;
    }
    assert(leaves@ =~= robot_leaves(two_to_one(h2), four_to_one(h4), robots@));
    let nodes = pad_leaves(leaves, robot_pad());
    proof {
        lemma_levels_shaped(two_to_one(h2), nodes@);
        lemma_padded_len(robots@.len());
    }
    merkle_tree_with_proof(nodes, h2)
}

/// Whether `proof` leads from the leaf hash of `robot`, at the index that
/// is the agent's identifier, to `root`.
pub fn verify_robot_in_tree<
    H2: Fn(FieldElement, FieldElement) -> FieldElement,
    H4: Fn(FieldElement, FieldElement, FieldElement, FieldElement) -> FieldElement,
>(robot: Robot, root: FieldElement, proof: Vec<FieldElement>, h2: &H2, h4: &H4) -> (ok: bool)
    requires
        two_to_one_ok(h2),
        four_to_one_ok(h4),
    ensures
        ok == path_verifies(
            two_to_one(h2),
            robot_leaf(two_to_one(h2), four_to_one(h4), robot),
            robot.robot_id@,
            root,
            proof@,
        ),
{
    let leaf = hash_robot(robot, h2, h4);
    verify_path(leaf, robot.robot_id, root, &proof, h2)
}

/// The authentication path of the agent `robot_id`, which stands at that
/// index in the tree, read off the levels that [`robot_root`] returned.
pub fn get_merkle_proof_from_id(robot_id: FieldElement, proofs: &Vec<Vec<FieldElement>>) -> (path:
    Vec<FieldElement>)
    requires
        shaped(level_views(proofs@)),
        robot_id@ < pow2(proofs@.len()),
    ensures
        path@ == path_of(level_views(proofs@), robot_id@),
        path@.len() == proofs@.len(),
{
    if proofs.len() > 0 {
        let width: usize = proofs[0].len();
        proof {
            let views = level_views(proofs@);
            assert(views.len() == proofs@.len());
            assert(views[0] == proofs@[0]@);
            assert(width == pow2(views.len()));
        }
    } else {
        assert(pow2(proofs@.len()) == 1);
    }
    let index = robot_id.to_usize().unwrap();
    extract_path(proofs, index)
}

/// The path that the agent tree gives for an agent verifies against the
/// tree's root, provided each agent stands at the index that is its
/// identifier.
pub proof fn lemma_robot_path_verifies(
    f2: spec_fn(FieldElement, FieldElement) -> FieldElement,
    f4: spec_fn(FieldElement, FieldElement, FieldElement, FieldElement) -> FieldElement,
    robots: Seq<Robot>,
    i: nat,
)
    requires
        i < robots.len(),
        robots[i as int].robot_id@ == i,
    ensures
        path_verifies(
            f2,
            robot_leaf(f2, f4, robots[i as int]),
            robots[i as int].robot_id@,
            root_of(f2, robot_tree_leaves(f2, f4, robots)),
            path_of(levels_of(f2, robot_tree_leaves(f2, f4, robots)), i),
        ),
{
    let nodes = robot_tree_leaves(f2, f4, robots);
    lemma_padded_len(robots.len());
    assert(nodes[i as int] == robot_leaf(f2, f4, robots[i as int]));
    lemma_extracted_path_verifies(f2, nodes, i);
}

} // verus!
