//! The steps of a round, as the coordinator takes them.
//!
//! A round collects a batch of tasks, assigns it, commits to the fleet that
//! results and to the batch, has a proof made, and sends every agent its
//! update. Collecting input, making the proof and sending are done by the
//! program around the library; what is decided and computed in between is
//! here.

use crate::agent::{candidate, inclusion_holds, Circuit, Update};
use crate::assignment::{
    assigned_task, assignment_of, complete, first_unmatched, skate, AssignmentError,
};
use crate::compression::{four_to_one, four_to_one_ok, two_to_one, two_to_one_ok};
use crate::field::FieldElement;
use crate::fleet::{Robot, Task, COORDINATE_BOUND};
use crate::hashes::{
    get_merkle_proof_from_id, lemma_robot_path_verifies, robot_root, robot_tree_leaves, task_root,
    task_tree_leaves,
};
use crate::merkle::{
    is_shaped, level_views, levels_of, padded_len, padded_length, path_of, pow2, root_of, shaped,
};
use crate::points::ProofPoints;
use ark_std::rand::{thread_rng, Rng};
use vstd::prelude::*;

verus! {

/// A number below `bound`, drawn by `rand`'s `Rng::gen_range` from the
/// thread's generator. Nothing else is known of it.
#[verifier::external_body]
pub(crate) fn random_below(bound: u64) -> (r: u64)
    requires
        bound > 0,
    ensures
        r < bound,
{
    thread_rng().gen_range(0..bound)
}

/// A position: the three coordinates of a task.
#[derive(Clone, Copy, Debug, PartialEq, Eq, Structural)]
pub struct Position {
    pub x: FieldElement,
    pub y: FieldElement,
    pub z: FieldElement,
}

impl Position {
    /// Whether every coordinate lies in `[0, COORDINATE_BOUND)`.
    pub open spec fn in_bounds(self) -> bool {
        self.x@ < COORDINATE_BOUND && self.y@ < COORDINATE_BOUND && self.z@ < COORDINATE_BOUND
    }

    /// Decides [`Position::in_bounds`].
    pub fn is_in_bounds(&self) -> (r: bool)
        ensures
            r == self.in_bounds(),
    {
        let bound = FieldElement::from_u64(COORDINATE_BOUND);
        self.x.lt(&bound) && self.y.lt(&bound) && self.z.lt(&bound)
    }

    /// The task with ordinal `id` at this position.
    pub open spec fn task(self, id: nat) -> Task {
        Task { task_id: FieldElement::of_nat(id), x: self.x, y: self.y, z: self.z }
    }
}

/// A position within bounds, drawn at random.
pub fn random_position() -> (p: Position)
    ensures
        p.in_bounds(),
{
    Position {
        x: FieldElement::from_u64(random_below(COORDINATE_BOUND)),
        y: FieldElement::from_u64(random_below(COORDINATE_BOUND)),
        z: FieldElement::from_u64(random_below(COORDINATE_BOUND)),
    }
}

/// The position of task `i` of a batch: the `i`-th entered position if
/// there is one and it is within bounds, the `i`-th substitute otherwise.
pub open spec fn batch_position(entered: Seq<Position>, substitutes: Seq<Position>, i: int) -> Position {
    if i < entered.len() && entered[i].in_bounds() {
        entered[i]
    } else {
        substitutes[i]
    }
}

/// The batch made of entered positions and substitutes: task `i` has
/// ordinal `i` and the position that [`batch_position`] gives.
pub open spec fn batch_of(entered: Seq<Position>, substitutes: Seq<Position>) -> Seq<Task> {
    Seq::new(
        substitutes.len(),
        |i: int| batch_position(entered, substitutes, i).task(i as nat),
    )
}

/// Makes a batch with one task for each substitute. An entered position
/// that is out of bounds is not refused: its substitute takes its place.
/// Entered positions beyond the size of the batch are not used.
pub fn fill_batch(entered: &Vec<Position>, substitutes: &Vec<Position>) -> (batch: Vec<Task>)
    ensures
        batch@ == batch_of(entered@, substitutes@),
        batch@.len() == substitutes@.len(),
        (forall|i: int| 0 <= i < substitutes@.len() ==> (#[trigger] substitutes@[i]).in_bounds())
            ==> forall|i: int| 0 <= i < batch@.len() ==> (#[trigger] batch@[i]).in_bounds(),
        forall|i: int| 0 <= i < batch@.len() ==> (#[trigger] batch@[i]).task_id@ == i,
{
    let mut batch: Vec<Task> = Vec::new();
    let mut i: usize = 0;
    while i < substitutes.len()
        invariant
            i <= substitutes.len(),
            batch.len() == i,
            forall|k: int|
                0 <= k < i ==> #[trigger] batch@[k] == batch_position(
                    entered@,
                    substitutes@,
                    k,
                ).task(k as nat),
            forall|k: int| 0 <= k < i ==> (#[trigger] batch@[k]).task_id@ == k,
        decreases substitutes.len() - i,
    {
        let position = if i < entered.len() && entered[i].is_in_bounds() {
            entered[i]
        } else {
            substitutes[i]
        };
        let id = FieldElement::from_u64(i as u64);
        proof {
            id.lemma_of_view();
        }
        batch.push(Task { task_id: id, x: position.x, y: position.y, z: position.z });
        i = i + 1;
    }
    assert(batch@ =~= batch_of(entered@, substitutes@));
    batch
}

/// Collects a batch of `size` tasks from the positions that were entered,
/// with a random position within bounds in place of every entered one that
/// is out of bounds and for every task that was not entered.
pub fn collect_tasks(entered: &Vec<Position>, size: usize) -> (batch: Vec<Task>)
    ensures
        batch@.len() == size,
        forall|i: int| 0 <= i < size ==> (#[trigger] batch@[i]).task_id@ == i,
        forall|i: int| 0 <= i < size ==> (#[trigger] batch@[i]).in_bounds(),
        forall|i: int|
            0 <= i < size && i < entered@.len() && entered@[i].in_bounds() ==> #[trigger] batch@[i]
                == entered@[i].task(i as nat),
{
    let mut substitutes: Vec<Position> = Vec::new();
    let mut i: usize = 0;
    while i < size
        invariant
            i <= size,
            substitutes.len() == i,
            forall|k: int| 0 <= k < i ==> (#[trigger] substitutes@[k]).in_bounds(),
        decreases size - i,
    {
        substitutes.push(random_position());
        i = i + 1;
    }
    let batch = fill_batch(entered, &substitutes);
    assert forall|k: int| 0 <= k < size implies (#[trigger] batch@[k]).in_bounds() by {
        assert(substitutes@[k].in_bounds());
    }
    batch
}

/// The fleet at the start: agent `i` has identifier `i`, the task with
/// ordinal 0 at the origin as its previous task, and the task with ordinal
/// 1 at its starting position as its current one.
pub open spec fn fleet_at(positions: Seq<Position>) -> Seq<Robot> {
    Seq::new(
        positions.len(),
        |i: int|
            Robot {
                robot_id: FieldElement::of_nat(i as nat),
                list_tasks: [
                    Task {
                        task_id: FieldElement::of_nat(0),
                        x: FieldElement::of_nat(0),
                        y: FieldElement::of_nat(0),
                        z: FieldElement::of_nat(0),
                    },
                    positions[i].task(1),
                ],
            },
    )
}

/// The fleet at the start, one agent at each position.
pub fn initial_fleet(positions: &Vec<Position>) -> (robots: Vec<Robot>)
    ensures
        robots@ == fleet_at(positions@),
        forall|i: int| 0 <= i < robots@.len() ==> (#[trigger] robots@[i]).robot_id@ == i,
{
    let zero = FieldElement::zero();
    let one = FieldElement::from_u64(1);
    proof {
        zero.lemma_of_view();
        one.lemma_of_view();
    }
    let origin = Task { task_id: zero, x: zero, y: zero, z: zero };
    let mut robots: Vec<Robot> = Vec::new();
    let mut i: usize = 0;
    while i < positions.len()
        invariant
            i <= positions.len(),
            robots.len() == i,
            origin == (Task {
                task_id: FieldElement::of_nat(0),
                x: FieldElement::of_nat(0),
                y: FieldElement::of_nat(0),
                z: FieldElement::of_nat(0),
            }),
            one == FieldElement::of_nat(1),
            forall|k: int| 0 <= k < i ==> #[trigger] robots@[k] == fleet_at(positions@)[k],
            forall|k: int| 0 <= k < i ==> (#[trigger] robots@[k]).robot_id@ == k,
        decreases positions.len() - i,
    {
        let id = FieldElement::from_u64(i as u64);
        proof {
            id.lemma_of_view();
        }
        let p = positions[i];
        let here = Task { task_id: one, x: p.x, y: p.y, z: p.z };
        let robot = Robot { robot_id: id, list_tasks: [origin, here] };
        assert(robot == fleet_at(positions@)[i as int]);
        robots.push(robot);
        i = i + 1;
    }
    assert(robots@ =~= fleet_at(positions@));
    robots
}

/// Whether some agent of the fleet is heading to a task with this ordinal.
pub open spec fn taken_by_fleet(robots: Seq<Robot>, id: FieldElement) -> bool {
    exists|r: int| 0 <= r < robots.len() && (#[trigger] robots[r]).list_tasks[1].task_id == id
}

/// The tasks of a batch that no agent is heading to, in their order.
pub open spec fn left_over(tasks: Seq<Task>, robots: Seq<Robot>) -> Seq<Task> {
    tasks.filter(|t: Task| !taken_by_fleet(robots, t.task_id))
}

/// A list of tasks with the ordinals `0, 1, 2, ...` in place of their own.
pub open spec fn renumbered(tasks: Seq<Task>) -> Seq<Task> {
    Seq::new(
        tasks.len(),
        |i: int|
            Task {
                task_id: FieldElement::of_nat(i as nat),
                x: tasks[i].x,
                y: tasks[i].y,
                z: tasks[i].z,
            },
    )
}

/// Whether some agent of the fleet is heading to a task with this ordinal.
pub fn is_taken(robots: &Vec<Robot>, id: FieldElement) -> (r: bool)
    ensures
        r == taken_by_fleet(robots@, id),
{
    let mut i: usize = 0;
    while i < robots.len()
        invariant
            i <= robots.len(),
            forall|k: int| 0 <= k < i ==> (#[trigger] robots@[k]).list_tasks[1].task_id != id,
        decreases robots.len() - i,
    {
        if robots[i].list_tasks[1].task_id == id {
            return true;
        }
        i = i + 1;
    }
    false
}

/// The pool for the next assignment: the tasks of the batch that no agent
/// is heading to, numbered anew from zero.
pub fn remaining_tasks(tasks: &Vec<Task>, robots: &Vec<Robot>) -> (rest: Vec<Task>)
    ensures
        rest@ == renumbered(left_over(tasks@, robots@)),
        rest@.len() <= tasks@.len(),
        forall|i: int| 0 <= i < rest@.len() ==> (#[trigger] rest@[i]).task_id@ == i,
{
    let ghost keep = |t: Task| !taken_by_fleet(robots@, t.task_id);
    let mut rest: Vec<Task> = Vec::new();
    let mut i: usize = 0;
    assert(tasks@.take(0) =~= Seq::<Task>::empty());
    while i < tasks.len()
        invariant
            i <= tasks.len(),
            keep == |t: Task| !taken_by_fleet(robots@, t.task_id),
            rest@ == renumbered(tasks@.take(i as int).filter(keep)),
            rest@.len() <= i,
            forall|k: int| 0 <= k < rest@.len() ==> (#[trigger] rest@[k]).task_id@ == k,
        decreases tasks.len() - i,
    {
        let task = tasks[i];
        let ghost before = tasks@.take(i as int);
        proof {
            assert(tasks@.take(i + 1) =~= before.push(task));
            reveal(Seq::filter);
            assert(before.push(task).drop_last() =~= before);
        }
        if !is_taken(robots, task.task_id) {
            let id = FieldElement::from_u64(rest.len() as u64);
            proof {
                id.lemma_of_view();
                assert(before.push(task).filter(keep) =~= before.filter(keep).push(task));
            }
            rest.push(Task { task_id: id, x: task.x, y: task.y, z: task.z });
            assert(rest@ =~= renumbered(tasks@.take(i + 1).filter(keep)));
        } else {
            proof {
                assert(before.push(task).filter(keep) =~= before.filter(keep));
            }
        }
        i = i + 1;
    }
    assert(tasks@.take(tasks@.len() as int) =~= tasks@);
    rest
}

/// Whether another round is run. Without `forever`, rounds are run while
/// fewer than `rounds` have been run, so that a count of zero runs none;
/// with `forever`, a count of zero means that there is no last round.
pub fn another_round(done: usize, rounds: usize, forever: bool) -> (again: bool)
    ensures
        again == (done < rounds || (forever && rounds == 0)),
{
    done < rounds || (forever && rounds == 0)
}

/// What a round commits to: the fleet after the assignment, the root of
/// its tree with the levels below it, and the root of the task tree.
#[derive(Debug)]
pub struct Round {
    pub robots: Vec<Robot>,
    pub robot_root: FieldElement,
    pub levels: Vec<Vec<FieldElement>>,
    pub task_root: FieldElement,
}

impl Round {
    /// The round is the one that assigns `tasks` to `robots`: its fleet is
    /// the fleet after the assignment, and its roots and levels are those
    /// of the two trees.
    pub open spec fn commits(
        self,
        f2: spec_fn(FieldElement, FieldElement) -> FieldElement,
        f4: spec_fn(FieldElement, FieldElement, FieldElement, FieldElement) -> FieldElement,
        robots: Seq<Robot>,
        tasks: Seq<Task>,
    ) -> bool {
        &&& self.robots@.len() == robots.len()
        &&& forall|r: int|
            0 <= r < robots.len() ==> {
                let t = (#[trigger] assignment_of(robots, tasks)[r]).unwrap();
                &&& t < tasks.len()
                &&& self.robots@[r] == robots[r].advanced(assigned_task(tasks, t))
            }
        &&& self.task_root == root_of(f2, task_tree_leaves(f2, tasks))
        &&& self.robot_root == root_of(f2, robot_tree_leaves(f2, f4, self.robots@))
        &&& level_views(self.levels@) == levels_of(f2, robot_tree_leaves(f2, f4, self.robots@))
        &&& self.well_formed()
    }

    /// The levels have the shape of the tree over the fleet.
    pub open spec fn well_formed(self) -> bool {
        &&& shaped(level_views(self.levels@))
        &&& pow2(self.levels@.len()) == padded_len(self.robots@.len())
    }
}

/// Decides [`Round::well_formed`].
pub fn round_is_well_formed(round: &Round) -> (r: bool)
    ensures
        r == round.well_formed(),
{
    if !is_shaped(&round.levels) {
        return false;
    }
    // The bottom level of a shaped tree has as many nodes as the tree has
    // leaves after padding; a tree without levels has one.
    let bottom: usize = if round.levels.len() == 0 {
        1
    } else {
        round.levels[0].len()
    };
    proof {
        let views = level_views(round.levels@);
        if round.levels@.len() > 0 {
            assert(views[0] == round.levels@[0]@);
            assert(views[0].len() == pow2(views.len()));
        } else {
            assert(pow2(0) == 1);
        }
        assert(bottom == pow2(round.levels@.len()));
    }
    padded_length(round.robots.len()) == bottom as u128
}

/// Assigns the batch to the fleet and commits to both: the steps of a
/// round between collecting the tasks and having the proof made.
pub fn run_round<
    H2: Fn(FieldElement, FieldElement) -> FieldElement,
    H4: Fn(FieldElement, FieldElement, FieldElement, FieldElement) -> FieldElement,
>(robots: &Vec<Robot>, tasks: &Vec<Task>, h2: &H2, h4: &H4) -> (result: Result<
    Round,
    AssignmentError,
>)
    requires
        two_to_one_ok(h2),
        four_to_one_ok(h4),
    ensures
        result.is_ok() <==> tasks@.len() >= robots@.len(),
        result.is_ok() <==> complete(assignment_of(robots@, tasks@)),
        result.is_ok() ==> result.unwrap().commits(
            two_to_one(h2),
            four_to_one(h4),
            robots@,
            tasks@,
        ),
        result.is_err() ==> {
            let AssignmentError::UnmatchedAgent(r) = result.unwrap_err();
            first_unmatched(assignment_of(robots@, tasks@), r as int)
        },
{
    let batch_root = task_root(tasks, h2);
    match skate(robots, tasks) {
        Err(e) => Err(e),
        Ok(moved) => {
            let committed = robot_root(&moved, h2, h4);
            let round = Round {
                robots: moved,
                robot_root: committed.0,
                levels: committed.1,
                task_root: batch_root,
            };
            proof {
                assert(round.well_formed());
                assert(round.robots@ == moved@);
            }
            Ok(round)
        },
    }
}

/// The update for the agent at index `i` of the fleet: the two roots, the
/// proof, the agent's new task, and the authentication path of its new
/// record.
pub fn update_for(round: &Round, i: usize, proof: ProofPoints, circuit: Circuit) -> (u: Update)
    requires
        round.well_formed(),
        i < round.robots@.len(),
    ensures
        u.robot_root == round.robot_root,
        u.task_root == round.task_root,
        u.circuit == circuit,
        u.proof == proof,
        u.task_id == round.robots@[i as int].list_tasks[1].task_id,
        u.x == round.robots@[i as int].list_tasks[1].x,
        u.y == round.robots@[i as int].list_tasks[1].y,
        u.z == round.robots@[i as int].list_tasks[1].z,
        u.merkle_proof@ == path_of(level_views(round.levels@), i as nat),
        pow2(u.merkle_proof@.len()) == padded_len(round.robots@.len()),
{
    proof {
        crate::merkle::lemma_padded_len(round.robots@.len());
    }
    let index = FieldElement::from_u64(i as u64);
    let path = get_merkle_proof_from_id(index, &round.levels);
    let task = round.robots[i].list_tasks[1];
    Update {
        robot_root: round.robot_root,
        task_root: round.task_root,
        circuit,
        proof,
        task_id: task.task_id,
        x: task.x,
        y: task.y,
        z: task.z,
        merkle_proof: path,
    }
}

/// The names under which the prover takes its inputs.
#[derive(Clone, Copy, Debug, PartialEq, Eq, Structural)]
pub enum InputName {
    RobotsId,
    OldRobotsTasksId,
    OldRobotsPositions,
    OldRobotsRoot,
    TasksId,
    TasksPositions,
    TasksRoot,
}

/// One input of the prover.
#[derive(Clone, Copy, Debug, PartialEq, Eq, Structural)]
pub struct Input {
    pub name: InputName,
    pub value: FieldElement,
}

impl InputName {
    /// The name as the prover knows it.
    pub fn text(&self) -> (t: &'static str)
        ensures
            t@ == (match *self {
                InputName::RobotsId => "robots_id"@,
                InputName::OldRobotsTasksId => "old_robots_tasks_id"@,
                InputName::OldRobotsPositions => "old_robots_positions"@,
                InputName::OldRobotsRoot => "old_robots_root"@,
                InputName::TasksId => "tasks_id"@,
                InputName::TasksPositions => "tasks_positions"@,
                InputName::TasksRoot => "tasks_root"@,
            }),
    {
        match self {
            InputName::RobotsId => "robots_id",
            InputName::OldRobotsTasksId => "old_robots_tasks_id",
            InputName::OldRobotsPositions => "old_robots_positions",
            InputName::OldRobotsRoot => "old_robots_root",
            InputName::TasksId => "tasks_id",
            InputName::TasksPositions => "tasks_positions",
            InputName::TasksRoot => "tasks_root",
        }
    }
}

/// Coordinate `c` of a task: 0 for `x`, 1 for `y`, anything else for `z`.
pub open spec fn coordinate(t: Task, c: int) -> FieldElement {
    if c == 0 {
        t.x
    } else if c == 1 {
        t.y
    } else {
        t.z
    }
}

/// The inputs of the prover for a round that starts from `robots`,
/// committed under `root`, with the batch `tasks`, committed under
/// `batch_root`: the index of every agent; the ordinals of both tasks of
/// every agent; the coordinates of both tasks of every agent; the root; the
/// ordinal of every task; the coordinates of every task; the task root.
pub open spec fn witness_of(
    robots: Seq<Robot>,
    root: FieldElement,
    tasks: Seq<Task>,
    batch_root: FieldElement,
) -> Seq<Input> {
    Seq::new(
        robots.len(),
        |i: int| Input { name: InputName::RobotsId, value: FieldElement::of_nat(i as nat) },
    ) + Seq::new(
        2 * robots.len(),
        |k: int|
            Input {
                name: InputName::OldRobotsTasksId,
                value: robots[k / 2].list_tasks[k % 2].task_id,
            },
    ) + Seq::new(
        6 * robots.len(),
        |k: int|
            Input {
                name: InputName::OldRobotsPositions,
                value: coordinate(robots[k / 6].list_tasks[(k / 3) % 2], k % 3),
            },
    ) + seq![Input { name: InputName::OldRobotsRoot, value: root }] + Seq::new(
        tasks.len(),
        |i: int| Input { name: InputName::TasksId, value: tasks[i].task_id },
    ) + Seq::new(
        3 * tasks.len(),
        |k: int| Input { name: InputName::TasksPositions, value: coordinate(tasks[k / 3], k % 3) },
    ) + seq![Input { name: InputName::TasksRoot, value: batch_root }]
}

/// The inputs of the prover, in the order in which it takes them.
pub fn witness_inputs(
    robots: &Vec<Robot>,
    root: FieldElement,
    tasks: &Vec<Task>,
    batch_root: FieldElement,
) -> (inputs: Vec<Input>)
    ensures
        inputs@ == witness_of(robots@, root, tasks@, batch_root),
{
    let mut out: Vec<Input> = Vec::new();
    let ghost ids = Seq::new(
        robots@.len(),
        |i: int| Input { name: InputName::RobotsId, value: FieldElement::of_nat(i as nat) },
    );
    let ghost slots = Seq::new(
        2 * robots@.len(),
        |k: int|
            Input {
                name: InputName::OldRobotsTasksId,
                value: robots@[k / 2].list_tasks[k % 2].task_id,
            },
    );
    let ghost places = Seq::new(
        6 * robots@.len(),
        |k: int|
            Input {
                name: InputName::OldRobotsPositions,
                value: coordinate(robots@[k / 6].list_tasks[(k / 3) % 2], k % 3),
            },
    );
    let ghost ordinals = Seq::new(
        tasks@.len(),
        |i: int| Input { name: InputName::TasksId, value: tasks@[i].task_id },
    );
    let ghost targets = Seq::new(
        3 * tasks@.len(),
        |k: int| Input { name: InputName::TasksPositions, value: coordinate(tasks@[k / 3], k % 3) },
    );
    let mut i: usize = 0;
    while i < robots.len()
        invariant
            i <= robots.len(),
            ids.len() == robots@.len(),
            forall|k: int| 0 <= k < ids.len() ==> #[trigger] ids[k] == (Input {
                name: InputName::RobotsId,
                value: FieldElement::of_nat(k as nat),
            }),
            out@ == ids.take(i as int),
        decreases robots.len() - i,
    {
        let id = FieldElement::from_u64(i as u64);
        proof {
            id.lemma_of_view();
        }
        out.push(Input { name: InputName::RobotsId, value: id });
        assert(out@ =~= ids.take(i + 1));
        i = i + 1;
    }
    assert(out@ =~= ids);
    i = 0;
    while i < robots.len()
        invariant
            i <= robots.len(),
            slots.len() == 2 * robots@.len(),
            forall|k: int| 0 <= k < slots.len() ==> #[trigger] slots[k] == (Input {
                name: InputName::OldRobotsTasksId,
                value: robots@[k / 2].list_tasks[k % 2].task_id,
            }),
            out@ == ids + slots.take(2 * i),
        decreases robots.len() - i,
    {
        let robot = robots[i];
        out.push(Input { name: InputName::OldRobotsTasksId, value: robot.list_tasks[0].task_id });
        out.push(Input { name: InputName::OldRobotsTasksId, value: robot.list_tasks[1].task_id });
        proof {
            assert(slots[2 * i] == (Input {
                name: InputName::OldRobotsTasksId,
                value: robots@[(2 * i) / 2].list_tasks[(2 * i) % 2].task_id,
            }));
            assert(slots[2 * i + 1] == (Input {
                name: InputName::OldRobotsTasksId,
                value: robots@[(2 * i + 1) / 2].list_tasks[(2 * i + 1) % 2].task_id,
            }));
            assert(out@ =~= ids + slots.take(2 * (i + 1)));
        }
        i = i + 1;
    }
    assert(out@ =~= ids + slots);
    i = 0;
    while i < robots.len()
        invariant
            i <= robots.len(),
            places.len() == 6 * robots@.len(),
            forall|k: int| 0 <= k < places.len() ==> #[trigger] places[k] == (Input {
                name: InputName::OldRobotsPositions,
                value: coordinate(robots@[k / 6].list_tasks[(k / 3) % 2], k % 3),
            }),
            out@ == ids + slots + places.take(6 * i),
        decreases robots.len() - i,
    {
        let robot = robots[i];
        let before = robot.list_tasks[0];
        let after = robot.list_tasks[1];
        out.push(Input { name: InputName::OldRobotsPositions, value: before.x });
        out.push(Input { name: InputName::OldRobotsPositions, value: before.y });
        out.push(Input { name: InputName::OldRobotsPositions, value: before.z });
        out.push(Input { name: InputName::OldRobotsPositions, value: after.x });
        out.push(Input { name: InputName::OldRobotsPositions, value: after.y });
        out.push(Input { name: InputName::OldRobotsPositions, value: after.z });
        proof {
            let b = 6 * i;
            assert(places[b] == (Input {
                name: InputName::OldRobotsPositions,
                value: coordinate(robots@[b / 6].list_tasks[(b / 3) % 2], b % 3),
            }));
            assert(places[b + 1] == (Input {
                name: InputName::OldRobotsPositions,
                value: coordinate(robots@[(b + 1) / 6].list_tasks[((b + 1) / 3) % 2], (b + 1) % 3),
            }));
            assert(places[b + 2] == (Input {
                name: InputName::OldRobotsPositions,
                value: coordinate(robots@[(b + 2) / 6].list_tasks[((b + 2) / 3) % 2], (b + 2) % 3),
            }));
            assert(places[b + 3] == (Input {
                name: InputName::OldRobotsPositions,
                value: coordinate(robots@[(b + 3) / 6].list_tasks[((b + 3) / 3) % 2], (b + 3) % 3),
            }));
            assert(places[b + 4] == (Input {
                name: InputName::OldRobotsPositions,
                value: coordinate(robots@[(b + 4) / 6].list_tasks[((b + 4) / 3) % 2], (b + 4) % 3),
            }));
            assert(places[b + 5] == (Input {
                name: InputName::OldRobotsPositions,
                value: coordinate(robots@[(b + 5) / 6].list_tasks[((b + 5) / 3) % 2], (b + 5) % 3),
            }));
            assert(out@ =~= ids + slots + places.take(6 * (i + 1)));
        }
        i = i + 1;
    }
    assert(out@ =~= ids + slots + places);
    out.push(Input { name: InputName::OldRobotsRoot, value: root });
    let ghost head = ids + slots + places + seq![
        Input { name: InputName::OldRobotsRoot, value: root },
    ];
    assert(out@ =~= head);
    i = 0;
    while i < tasks.len()
        invariant
            i <= tasks.len(),
            ordinals.len() == tasks@.len(),
            forall|k: int| 0 <= k < ordinals.len() ==> #[trigger] ordinals[k] == (Input {
                name: InputName::TasksId,
                value: tasks@[k].task_id,
            }),
            out@ == head + ordinals.take(i as int),
        decreases tasks.len() - i,
    {
        out.push(Input { name: InputName::TasksId, value: tasks[i].task_id });
        assert(out@ =~= head + ordinals.take(i + 1));
        i = i + 1;
    }
    assert(out@ =~= head + ordinals);
    i = 0;
    while i < tasks.len()
        invariant
            i <= tasks.len(),
            targets.len() == 3 * tasks@.len(),
            forall|k: int| 0 <= k < targets.len() ==> #[trigger] targets[k] == (Input {
                name: InputName::TasksPositions,
                value: coordinate(tasks@[k / 3], k % 3),
            }),
            out@ == head + ordinals + targets.take(3 * i),
        decreases tasks.len() - i,
    {
        let task = tasks[i];
        out.push(Input { name: InputName::TasksPositions, value: task.x });
        out.push(Input { name: InputName::TasksPositions, value: task.y });
        out.push(Input { name: InputName::TasksPositions, value: task.z });
        proof {
            let b = 3 * i;
            assert(targets[b] == (Input {
                name: InputName::TasksPositions,
                value: coordinate(tasks@[b / 3], b % 3),
            }));
            assert(targets[b + 1] == (Input {
                name: InputName::TasksPositions,
                value: coordinate(tasks@[(b + 1) / 3], (b + 1) % 3),
            }));
            assert(targets[b + 2] == (Input {
                name: InputName::TasksPositions,
                value: coordinate(tasks@[(b + 2) / 3], (b + 2) % 3),
            }));
            assert(out@ =~= head + ordinals + targets.take(3 * (i + 1)));
        }
        i = i + 1;
    }
    assert(out@ =~= head + ordinals + targets);
    out.push(Input { name: InputName::TasksRoot, value: batch_root });
    assert(out@ =~= witness_of(robots@, root, tasks@, batch_root));
    out
}

/// The update that a round makes for an agent passes the agent's
/// inclusion check: the record that the agent builds from it is the leaf
/// that the round committed for the agent, and the path is the one that the
/// tree gives for that leaf. This holds for an agent that stands in the
/// fleet at the index that is its identifier and whose record is the one
/// the round started from.
pub proof fn lemma_round_update_is_included(
    f2: spec_fn(FieldElement, FieldElement) -> FieldElement,
    f4: spec_fn(FieldElement, FieldElement, FieldElement, FieldElement) -> FieldElement,
    round: Round,
    robots: Seq<Robot>,
    tasks: Seq<Task>,
    i: nat,
    u: Update,
)
    requires
        round.commits(f2, f4, robots, tasks),
        complete(assignment_of(robots, tasks)),
        i < robots.len(),
        robots[i as int].robot_id@ == i,
        u.robot_root == round.robot_root,
        u.task_id == round.robots@[i as int].list_tasks[1].task_id,
        u.x == round.robots@[i as int].list_tasks[1].x,
        u.y == round.robots@[i as int].list_tasks[1].y,
        u.z == round.robots@[i as int].list_tasks[1].z,
        u.merkle_proof@ == path_of(level_views(round.levels@), i),
    ensures
        candidate(robots[i as int], u) == round.robots@[i as int],
        inclusion_holds(f2, f4, robots[i as int], u),
{
    let t = assignment_of(robots, tasks)[i as int].unwrap();
    assert(round.robots@[i as int] == robots[i as int].advanced(assigned_task(tasks, t)));
    assert(candidate(robots[i as int], u).list_tasks =~= round.robots@[i as int].list_tasks);
    lemma_robot_path_verifies(f2, f4, round.robots@, i);
}

/// Where the coordinator stands in a round.
#[derive(Clone, Copy, Debug, PartialEq, Eq, Structural)]
pub enum Phase {
    CollectTasks,
    Assign,
    CommitNewRoot,
    Prove,
    Distribute,
    Stop,
}

/// The progress of the coordinator: its phase, which of the two assignments
/// of a round it is at, and how many rounds are done.
#[derive(Clone, Copy, Debug, PartialEq, Eq, Structural)]
pub struct Progress {
    pub phase: Phase,
    pub circuit: Circuit,
    pub rounds_done: usize,
}

/// The progress after the current phase. A round is the assignment of the
/// full batch followed by the assignment of what is left of it; after the
/// second the round is done, and another begins if [`another_round`] says
/// so.
pub open spec fn next_progress(p: Progress, rounds: usize, forever: bool) -> Progress {
    match p.phase {
        Phase::CollectTasks => Progress { phase: Phase::Assign, ..p },
        Phase::Assign => Progress { phase: Phase::CommitNewRoot, ..p },
        Phase::CommitNewRoot => Progress { phase: Phase::Prove, ..p },
        Phase::Prove => Progress { phase: Phase::Distribute, ..p },
        Phase::Distribute => match p.circuit {
            Circuit::SixThree => Progress {
                phase: Phase::Assign,
                circuit: Circuit::ThreeThree,
                rounds_done: p.rounds_done,
            },
            Circuit::ThreeThree => {
                let done = if p.rounds_done < usize::MAX {
                    (p.rounds_done + 1) as usize
                } else {
                    p.rounds_done
                };
                Progress {
                    phase: if done < rounds || (forever && rounds == 0) {
                        Phase::CollectTasks
                    } else {
                        Phase::Stop
                    },
                    circuit: Circuit::SixThree,
                    rounds_done: done,
                }
            },
        },
        Phase::Stop => p,
    }
}

/// The progress at the start: collecting, if any round is to be run.
pub fn start(rounds: usize, forever: bool) -> (p: Progress)
    ensures
        p.circuit == Circuit::SixThree,
        p.rounds_done == 0,
        p.phase == (if 0 < rounds || forever {
            Phase::CollectTasks
        } else {
            Phase::Stop
        }),
{
    Progress {
        phase: if another_round(0, rounds, forever) {
            Phase::CollectTasks
        } else {
            Phase::Stop
        },
        circuit: Circuit::SixThree,
        rounds_done: 0,
    }
}

/// Moves on to the next phase.
pub fn advance(p: Progress, rounds: usize, forever: bool) -> (next: Progress)
    ensures
        next == next_progress(p, rounds, forever),
{
    match p.phase {
        Phase::CollectTasks => Progress {
            phase: Phase::Assign,
            circuit: p.circuit,
            rounds_done: p.rounds_done,
        },
        Phase::Assign => Progress {
            phase: Phase::CommitNewRoot,
            circuit: p.circuit,
            rounds_done: p.rounds_done,
        },
        Phase::CommitNewRoot => Progress {
            phase: Phase::Prove,
            circuit: p.circuit,
            rounds_done: p.rounds_done,
        },
        Phase::Prove => Progress {
            phase: Phase::Distribute,
            circuit: p.circuit,
            rounds_done: p.rounds_done,
        },
        Phase::Distribute => match p.circuit {
            Circuit::SixThree => Progress {
                phase: Phase::Assign,
                circuit: Circuit::ThreeThree,
                rounds_done: p.rounds_done,
            },
            Circuit::ThreeThree => {
                let done = if p.rounds_done < usize::MAX {
                    p.rounds_done + 1
                } else {
                    p.rounds_done
                };
                Progress {
                    phase: if another_round(done, rounds, forever) {
                        Phase::CollectTasks
                    } else {
                        Phase::Stop
                    },
                    circuit: Circuit::SixThree,
                    rounds_done: done,
                }
            },
        },
        Phase::Stop => p,
    }
}

/// The root that each agent is known to have committed to. The coordinator
/// goes on from the root it computed whether or not the agents followed;
/// this keeps apart what it computed from what was confirmed.
pub struct Confirmations {
    roots: Vec<FieldElement>,
}

impl Confirmations {
    /// The confirmed root of each agent.
    pub closed spec fn view(&self) -> Seq<FieldElement> {
        self.roots@
    }

    /// A fleet of `agents` agents, all known to stand at `root`.
    pub fn new(agents: usize, root: FieldElement) -> (c: Self)
        ensures
            c.view().len() == agents,
            forall|i: int| 0 <= i < agents ==> #[trigger] c.view()[i] == root,
    {
        let mut roots: Vec<FieldElement> = Vec::new();
        let mut i: usize = 0;
        while i < agents
            invariant
                i <= agents,
                roots.len() == i,
                forall|k: int| 0 <= k < i ==> #[trigger] roots@[k] == root,
            decreases agents - i,
        {
            roots.push(root);
            i = i + 1;
        }
        Confirmations { roots }
    }

    /// The number of agents.
    pub fn len(&self) -> (n: usize)
        ensures
            n == self.view().len(),
    {
        self.roots.len()
    }

    /// Records the answer of an agent to the update that claimed `root`:
    /// the agent stands at `root` if it accepted, and where it stood
    /// otherwise. An agent that is not of the fleet changes nothing.
    pub fn record(&mut self, agent: usize, accepted: bool, root: FieldElement)
        ensures
            final(self).view() == (if accepted && agent < old(self).view().len() {
                old(self).view().update(agent as int, root)
            } else {
                old(self).view()
            }),
    {
        if accepted && agent < self.roots.len() {
            self.roots.set(agent, root);
        }
    }

    /// The root that an agent is known to stand at.
    pub fn confirmed(&self, agent: usize) -> (r: Option<FieldElement>)
        ensures
            r == (if agent < self.view().len() {
                Some(self.view()[agent as int])
            } else {
                None
            }),
    {
        if agent < self.roots.len() {
            Some(self.roots[agent])
        } else {
            None
        }
    }

    /// Whether every agent is known to stand at `root`.
    pub fn all_at(&self, root: FieldElement) -> (r: bool)
        ensures
            r == forall|i: int| 0 <= i < self.view().len() ==> #[trigger] self.view()[i] == root,
    {
        let mut i: usize = 0;
        while i < self.roots.len()
            invariant
                i <= self.roots.len(),
                forall|k: int| 0 <= k < i ==> #[trigger] self.roots@[k] == root,
            decreases self.roots.len() - i,
        {
            if self.roots[i] != root {
                assert(self.view()[i as int] != root);
                return false;
            }
            i = i + 1;
        }
        true
    }
}

} // verus!
