//! The state of one agent and the check that guards every change of it.
//!
//! An agent holds its own record and the root it last committed to. An
//! update claims a new root and a new task. It is accepted only if the
//! succinct proof holds for the claimed root, the committed root and the
//! task root, and if the agent's record with the new task is a leaf of the
//! tree under the claimed root. Anything else leaves the state as it was.
//!
//! The state is changed through `&mut self` only: whoever shares a verifier
//! between requests holds it behind one lock, and no request sees a state
//! that another has half written.

use crate::compression::{four_to_one, four_to_one_ok, two_to_one, two_to_one_ok};
use crate::field::FieldElement;
use crate::fleet::{Robot, Task};
use crate::groth::{accepted, field_values, groth16_verdict, proof_accepted};
use crate::hashes::{robot_leaf, verify_robot_in_tree};
use crate::merkle::{folds_collide, lemma_tampered_path_rejected, path_verifies};
use crate::points::{proof_bytes, write_proof, ProofPoints};
use vstd::prelude::*;

verus! {

/// The two sizes of batch for which a proof can be made, each with its own
/// verifying key.
#[derive(Clone, Copy, Debug, PartialEq, Eq, Structural)]
pub enum Circuit {
    /// Six tasks for three agents.
    SixThree,
    /// Three tasks for three agents.
    ThreeThree,
}

/// An update as an agent receives it.
#[derive(Clone, Debug)]
pub struct Update {
    /// The claimed new root of the agent tree.
    pub robot_root: FieldElement,
    /// The claimed root of the task tree.
    pub task_root: FieldElement,
    /// Which verifying key the proof is for.
    pub circuit: Circuit,
    /// The succinct proof.
    pub proof: ProofPoints,
    /// The ordinal of the new task.
    pub task_id: FieldElement,
    /// The position of the new task.
    pub x: FieldElement,
    pub y: FieldElement,
    pub z: FieldElement,
    /// The authentication path of the agent's new record.
    pub merkle_proof: Vec<FieldElement>,
}

/// What an agent answers to an update.
#[derive(Clone, Copy, Debug, PartialEq, Eq, Structural)]
pub enum UpdateResponse {
    /// Both checks held; the update is committed.
    Accepted,
    /// The inclusion check held, the proof did not.
    ProofInvalid,
    /// The proof held, the inclusion check did not.
    InclusionInvalid,
    /// Neither held.
    BothInvalid,
}

/// The state of one agent.
pub struct UpdateVerifier {
    robot: Robot,
    root: FieldElement,
    key_6_3: Vec<u8>,
    key_3_3: Vec<u8>,
}

/// The task that an update brings.
pub open spec fn new_task(update: Update) -> Task {
    Task { task_id: update.task_id, x: update.x, y: update.y, z: update.z }
}

/// The record that the agent would hold after the update.
pub open spec fn candidate(robot: Robot, update: Update) -> Robot {
    robot.advanced(new_task(update))
}

/// The public inputs of the proof: the claimed new root, the root the agent
/// is committed to, and the claimed task root.
pub open spec fn public_inputs(root: FieldElement, update: Update) -> Seq<FieldElement> {
    seq![update.robot_root, root, update.task_root]
}

/// Whether the candidate record is a leaf under the claimed root.
pub open spec fn inclusion_holds(
    f2: spec_fn(FieldElement, FieldElement) -> FieldElement,
    f4: spec_fn(FieldElement, FieldElement, FieldElement, FieldElement) -> FieldElement,
    robot: Robot,
    update: Update,
) -> bool {
    path_verifies(
        f2,
        robot_leaf(f2, f4, candidate(robot, update)),
        robot.robot_id@,
        update.robot_root,
        update.merkle_proof@,
    )
}

/// The answer for each outcome of the two checks.
pub open spec fn response_for(proof_ok: bool, tree_ok: bool) -> UpdateResponse {
    if proof_ok && tree_ok {
        UpdateResponse::Accepted
    } else if tree_ok {
        UpdateResponse::ProofInvalid
    } else if proof_ok {
        UpdateResponse::InclusionInvalid
    } else {
        UpdateResponse::BothInvalid
    }
}

impl Circuit {
    /// The circuit that a tag on the wire names: `6_3` the larger one,
    /// anything else the smaller.
    pub fn from_tag(tag: &str) -> (c: Circuit)
        ensures
            c == (if tag@ == seq!['6', '_', '3'] {
                Circuit::SixThree
            } else {
                Circuit::ThreeThree
            }),
    {
        if tag.unicode_len() == 3 && tag.get_char(0) == '6' && tag.get_char(1) == '_'
            && tag.get_char(2) == '3' {
            assert(tag@ =~= seq!['6', '_', '3']);
            Circuit::SixThree
        } else {
            Circuit::ThreeThree
        }
    }

    /// The tag that names the circuit on the wire.
    pub fn tag(&self) -> (t: &'static str)
        ensures
            t@ == (match *self {
                Circuit::SixThree => seq!['6', '_', '3'],
                Circuit::ThreeThree => seq!['3', '_', '3'],
            }),
    {
        proof {
            reveal_strlit("6_3");
            reveal_strlit("3_3");
        }
        let t = match self {
            Circuit::SixThree => "6_3",
            Circuit::ThreeThree => "3_3",
        };
        assert(t@ =~= (match *self {
            Circuit::SixThree => seq!['6', '_', '3'],
            Circuit::ThreeThree => seq!['3', '_', '3'],
        }));
        t
    }
}

impl UpdateResponse {
    /// Whether the update was committed.
    pub fn is_success(&self) -> (r: bool)
        ensures
            r == (*self == UpdateResponse::Accepted),
    {
        match self {
            UpdateResponse::Accepted => true,
            _ => false,
        }
    }

    /// The status of the answer: 200 for an acceptance, 500 for each of the
    /// rejections.
    pub fn status(&self) -> (code: u16)
        ensures
            code == (if *self == UpdateResponse::Accepted {
                200u16
            } else {
                500u16
            }),
    {
        match self {
            UpdateResponse::Accepted => 200,
            _ => 500,
        }
    }

    /// The body of the answer. The three rejections read differently.
    pub fn message(&self) -> (m: &'static str)
        ensures
            m@ == (match *self {
                UpdateResponse::Accepted => "OK"@,
                UpdateResponse::ProofInvalid => "Zk Proof is incorrect"@,
                UpdateResponse::InclusionInvalid => "Merkle Proof is incorrect"@,
                UpdateResponse::BothInvalid => "Zk Proof and Merkle Proof are incorrect"@,
            }),
    {
        match self {
            UpdateResponse::Accepted => "OK",
            UpdateResponse::ProofInvalid => "Zk Proof is incorrect",
            UpdateResponse::InclusionInvalid => "Merkle Proof is incorrect",
            UpdateResponse::BothInvalid => "Zk Proof and Merkle Proof are incorrect",
        }
    }
}

impl UpdateVerifier {
    /// The agent's record.
    pub closed spec fn spec_robot(&self) -> Robot {
        self.robot
    }

    /// The root the agent is committed to.
    pub closed spec fn spec_root(&self) -> FieldElement {
        self.root
    }

    /// The bytes of the verifying key of a circuit.
    pub closed spec fn spec_key(&self, circuit: Circuit) -> Seq<u8> {
        match circuit {
            Circuit::SixThree => self.key_6_3@,
            Circuit::ThreeThree => self.key_3_3@,
        }
    }

    /// Whether the proof of an update holds for this state.
    pub open spec fn proof_holds(&self, update: Update) -> bool {
        accepted(
            groth16_verdict(
                self.spec_key(update.circuit),
                field_values(public_inputs(self.spec_root(), update)),
                proof_bytes(update.proof),
            ),
        )
    }

    /// An agent with the given record, committed to `root`, with the bytes
    /// of the verifying key of each circuit.
    pub fn new(robot: Robot, root: FieldElement, key_6_3: Vec<u8>, key_3_3: Vec<u8>) -> (v: Self)
        ensures
            v.spec_robot() == robot,
            v.spec_root() == root,
            v.spec_key(Circuit::SixThree) == key_6_3@,
            v.spec_key(Circuit::ThreeThree) == key_3_3@,
    {
        UpdateVerifier { robot, root, key_6_3, key_3_3 }
    }

    /// The agent's record.
    pub fn robot(&self) -> (r: Robot)
        ensures
            r == self.spec_robot(),
    {
        self.robot
    }

    /// The root the agent is committed to.
    pub fn root(&self) -> (r: FieldElement)
        ensures
            r == self.spec_root(),
    {
        self.root
    }

    /// The public inputs against which the proof of `update` is checked.
    pub fn inputs(&self, update: &Update) -> (r: Vec<FieldElement>)
        ensures
            r@ == public_inputs(self.spec_root(), *update),
    {
        let mut r: Vec<FieldElement> = Vec::new();
        r.push(update.robot_root);
        r.push(self.root);
        r.push(update.task_root);
        assert(r@ =~= public_inputs(self.spec_root(), *update));
        r
    }

    /// Decides an update whose proof has been checked: commits it if the
    /// proof held and the candidate record is a leaf under the claimed
    /// root, and leaves the state as it was otherwise.
    pub fn settle<
        H2: Fn(FieldElement, FieldElement) -> FieldElement,
        H4: Fn(FieldElement, FieldElement, FieldElement, FieldElement) -> FieldElement,
    >(&mut self, update: &Update, proof_ok: bool, h2: &H2, h4: &H4) -> (response: UpdateResponse)
        requires
            two_to_one_ok(h2),
            four_to_one_ok(h4),
        ensures
            response == response_for(
                proof_ok,
                inclusion_holds(
                    two_to_one(h2),
                    four_to_one(h4),
                    old(self).spec_robot(),
                    *update,
                ),
            ),
            response == UpdateResponse::Accepted ==> final(self).spec_robot() == candidate(
                old(self).spec_robot(),
                *update,
            ) && final(self).spec_root() == update.robot_root,
            response != UpdateResponse::Accepted ==> final(self).spec_robot() == old(
                self,
            ).spec_robot() && final(self).spec_root() == old(self).spec_root(),
            final(self).spec_key(Circuit::SixThree) == old(self).spec_key(Circuit::SixThree),
            final(self).spec_key(Circuit::ThreeThree) == old(self).spec_key(Circuit::ThreeThree),
    {
        let task = Task { task_id: update.task_id, x: update.x, y: update.y, z: update.z };
        let next = self.robot.advance(task);
        let mut path: Vec<FieldElement> = Vec::new();
        let mut i: usize = 0;
        while i < update.merkle_proof.len()
            invariant
                i <= update.merkle_proof.len(),
                path@ == update.merkle_proof@.take(i as int),
            decreases update.merkle_proof.len() - i,
        {
            path.push(update.merkle_proof[i]);
            assert(update.merkle_proof@.take(i + 1) =~= update.merkle_proof@.take(i as int).push(
                update.merkle_proof@[i as int],
            ));
            i = i + 1;
        }
        assert(path@ =~= update.merkle_proof@);
        let tree_ok = verify_robot_in_tree(next, update.robot_root, path, h2, h4);
        if proof_ok && tree_ok {
            self.robot = next;
            self.root = update.robot_root;
            UpdateResponse::Accepted
        } else if tree_ok {
            UpdateResponse::ProofInvalid
        } else if proof_ok {
            UpdateResponse::InclusionInvalid
        } else {
            UpdateResponse::BothInvalid
        }
    }

    /// Handles an update: checks the proof against the key of the update's
    /// circuit and the public inputs, checks the inclusion of the candidate
    /// record, and commits if and only if both hold.
    pub fn update<
        H2: Fn(FieldElement, FieldElement) -> FieldElement,
        H4: Fn(FieldElement, FieldElement, FieldElement, FieldElement) -> FieldElement,
    >(&mut self, update: &Update, h2: &H2, h4: &H4) -> (response: UpdateResponse)
        requires
            two_to_one_ok(h2),
            four_to_one_ok(h4),
        ensures
            response == response_for(
                old(self).proof_holds(*update),
                inclusion_holds(
                    two_to_one(h2),
                    four_to_one(h4),
                    old(self).spec_robot(),
                    *update,
                ),
            ),
            response == UpdateResponse::Accepted ==> final(self).spec_robot() == candidate(
                old(self).spec_robot(),
                *update,
            ) && final(self).spec_root() == update.robot_root,
            response != UpdateResponse::Accepted ==> final(self).spec_robot() == old(
                self,
            ).spec_robot() && final(self).spec_root() == old(self).spec_root(),
            final(self).spec_key(Circuit::SixThree) == old(self).spec_key(Circuit::SixThree),
            final(self).spec_key(Circuit::ThreeThree) == old(self).spec_key(Circuit::ThreeThree),
    {
        let inputs = self.inputs(update);
        let proof = write_proof(&update.proof);
        let proof_ok = match update.circuit {
            Circuit::SixThree => proof_accepted(&self.key_6_3, &inputs, &proof),
            Circuit::ThreeThree => proof_accepted(&self.key_3_3, &inputs, &proof),
        };
        self.settle(update, proof_ok, h2, h4)
    }
}

/// An update that has been accepted presents other public inputs when it is
/// sent again: the committed root has moved to the claimed one, so the
/// proof is checked against inputs that it was not made for. This holds
/// whenever the accepted update changed the root.
pub proof fn lemma_replay_changes_inputs(root: FieldElement, update: Update)
    requires
        update.robot_root != root,
    ensures
        public_inputs(update.robot_root, update) != public_inputs(root, update),
        field_values(public_inputs(update.robot_root, update)) != field_values(
            public_inputs(root, update),
        ),
{
    let again = public_inputs(update.robot_root, update);
    let first = public_inputs(root, update);
    assert(again[1] == update.robot_root);
    assert(first[1] == root);
    if field_values(again) == field_values(first) {
        assert(field_values(again)[1] == again[1]@);
        assert(field_values(first)[1] == first[1]@);
        FieldElement::lemma_view_injective(update.robot_root, root);
    }
}

/// An update that has been accepted does not pass the inclusion check when
/// it is sent again: the agent's record has moved on, so the record it
/// builds from the same update is another one, with another leaf hash.
/// This holds unless the compressions collide: unless the two records have
/// the same leaf hash, or the two recomputations of the root compress
/// different pairs to one hash.
pub proof fn lemma_replay_is_not_included(
    f2: spec_fn(FieldElement, FieldElement) -> FieldElement,
    f4: spec_fn(FieldElement, FieldElement, FieldElement, FieldElement) -> FieldElement,
    robot: Robot,
    update: Update,
)
    requires
        inclusion_holds(f2, f4, robot, update),
        robot_leaf(f2, f4, candidate(candidate(robot, update), update)) != robot_leaf(
            f2,
            f4,
            candidate(robot, update),
        ),
        !folds_collide(
            f2,
            robot_leaf(f2, f4, candidate(robot, update)),
            update.merkle_proof@,
            robot_leaf(f2, f4, candidate(candidate(robot, update), update)),
            update.merkle_proof@,
            robot.robot_id@,
        ),
    ensures
        !inclusion_holds(f2, f4, candidate(robot, update), update),
{
    lemma_tampered_path_rejected(
        f2,
        robot_leaf(f2, f4, candidate(robot, update)),
        update.merkle_proof@,
        robot_leaf(f2, f4, candidate(candidate(robot, update), update)),
        update.merkle_proof@,
        robot.robot_id@,
        update.robot_root,
    );
}

/// The answer is an acceptance exactly when both checks hold, and each of
/// the three ways to fail has an answer of its own.
pub proof fn lemma_commit_only_when_both_hold(proof_ok: bool, tree_ok: bool)
    ensures
        response_for(proof_ok, tree_ok) == UpdateResponse::Accepted <==> proof_ok && tree_ok,
        response_for(false, true) == UpdateResponse::ProofInvalid,
        response_for(true, false) == UpdateResponse::InclusionInvalid,
        response_for(false, false) == UpdateResponse::BothInvalid,
{
}

} // verus!
