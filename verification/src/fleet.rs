//! Tasks and agents.
//!
//! A task is a position with an ordinal; an agent (robot) remembers the
//! task it came from and the task it is heading to.

use crate::codec::{decimal_chars, field_to_string};
use crate::field::FieldElement;
use crate::merkle::pow2;
use vstd::prelude::*;

verus! {

/// Exclusive upper bound of every coordinate of a position.
pub const COORDINATE_BOUND: u64 = 10000;

/// A task: its ordinal within the batch and its position.
#[derive(Clone, Copy, Debug, PartialEq, Eq, Structural)]
pub struct Task {
    pub task_id: FieldElement,
    pub x: FieldElement,
    pub y: FieldElement,
    pub z: FieldElement,
}

/// An agent: its identifier, the task it came from (`list_tasks[0]`) and the
/// task it is heading to (`list_tasks[1]`). Both slots are always filled.
#[derive(Clone, Copy, Debug)]
pub struct Robot {
    pub robot_id: FieldElement,
    pub list_tasks: [Task; 2],
}

impl Task {
    /// Whether every coordinate lies in `[0, COORDINATE_BOUND)`.
    pub open spec fn in_bounds(self) -> bool {
        &&& self.x@ < COORDINATE_BOUND
        &&& self.y@ < COORDINATE_BOUND
        &&& self.z@ < COORDINATE_BOUND
    }

    /// The ordinal of the task in decimal: how a task is shown.
    pub fn label(&self) -> (s: String)
        ensures
            s@ == decimal_chars(self.task_id@),
    {
        field_to_string(&self.task_id)
    }

    /// Decides [`Task::in_bounds`].
    pub fn is_in_bounds(&self) -> (r: bool)
        ensures
            r == self.in_bounds(),
    {
        let bound = FieldElement::from_u64(COORDINATE_BOUND);
        self.x.lt(&bound) && self.y.lt(&bound) && self.z.lt(&bound)
    }
}

impl Robot {
    /// The identifier of the agent in decimal: how an agent is shown.
    pub fn label(&self) -> (s: String)
        ensures
            s@ == decimal_chars(self.robot_id@),
    {
        field_to_string(&self.robot_id)
    }

    /// The task the agent came from.
    pub open spec fn previous(self) -> Task {
        self.list_tasks[0]
    }

    /// The task the agent is heading to; its position is the agent's position.
    pub open spec fn current(self) -> Task {
        self.list_tasks[1]
    }

    /// The agent after it has been given `task`: the old target becomes the
    /// previous task, `task` the new target.
    pub open spec fn advanced(self, task: Task) -> Robot {
        Robot { robot_id: self.robot_id, list_tasks: [self.list_tasks[1], task] }
    }

    /// Computes [`Robot::advanced`].
    pub fn advance(&self, task: Task) -> (r: Robot)
        ensures
            r == self.advanced(task),
            r.robot_id == self.robot_id,
            r.previous() == self.current(),
            r.current() == task,
    {
        Robot { robot_id: self.robot_id, list_tasks: [self.list_tasks[1], task] }
    }
}

/// The task with the given ordinal at position `positions = [x, y, z]`.
pub fn create_task(task_id: FieldElement, positions: [FieldElement; 3]) -> (t: Task)
    ensures
        t == (Task { task_id, x: positions[0], y: positions[1], z: positions[2] }),
{
    Task { task_id, x: positions[0], y: positions[1], z: positions[2] }
}

/// The agent `robot_id` whose two slots hold the tasks `task_id[k]` at
/// `positions[k]`, for `k` in `0..2`.
pub fn create_robot(
    robot_id: FieldElement,
    task_id: [FieldElement; 2],
    positions: [[FieldElement; 3]; 2],
) -> (r: Robot)
    ensures
        r.robot_id == robot_id,
        r.previous() == (Task {
            task_id: task_id[0],
            x: positions[0][0],
            y: positions[0][1],
            z: positions[0][2],
        }),
        r.current() == (Task {
            task_id: task_id[1],
            x: positions[1][0],
            y: positions[1][1],
            z: positions[1][2],
        }),
{
    Robot {
        robot_id,
        list_tasks: [
            create_task(task_id[0], positions[0]),
            create_task(task_id[1], positions[1]),
        ],
    }
}

/// The list of `2^log_length` tasks with the given ordinals and
/// positions.
pub fn create_list_tasks(
    task_id: &Vec<FieldElement>,
    positions: &Vec<[FieldElement; 3]>,
    log_length: usize,
) -> (tasks: Vec<Task>)
    requires
        task_id@.len() == pow2(log_length as nat),
        positions@.len() == pow2(log_length as nat),
    ensures
        tasks@.len() == pow2(log_length as nat),
        forall|i: int|
            0 <= i < tasks@.len() ==> #[trigger] tasks@[i] == (Task {
                task_id: task_id@[i],
                x: positions@[i][0],
                y: positions@[i][1],
                z: positions@[i][2],
            }),
{
    let mut tasks: Vec<Task> = Vec::new();
    let mut i: usize = 0;
    while i < task_id.len()
        invariant
            task_id@.len() == positions@.len(),
            i <= task_id.len(),
            tasks.len() == i,
            forall|k: int|
                0 <= k < i ==> #[trigger] tasks@[k] == (Task {
                    task_id: task_id@[k],
                    x: positions@[k][0],
                    y: positions@[k][1],
                    z: positions@[k][2],
                }),
        decreases task_id.len() - i,
    {
        tasks.push(create_task(task_id[i], positions[i]));
        i = i + 1;
    }
    tasks
}

/// The list of `2^log_length` agents with the given identifiers, each with
/// the two tasks of the given ordinals and positions.
pub fn create_list_robots(
    robots_id: &Vec<FieldElement>,
    tasks_id: &Vec<[FieldElement; 2]>,
    positions: &Vec<[[FieldElement; 3]; 2]>,
    log_length: usize,
) -> (robots: Vec<Robot>)
    requires
        robots_id@.len() == pow2(log_length as nat),
        tasks_id@.len() == pow2(log_length as nat),
        positions@.len() == pow2(log_length as nat),
    ensures
        robots@.len() == pow2(log_length as nat),
        forall|i: int|
            0 <= i < robots@.len() ==> {
                &&& (#[trigger] robots@[i]).robot_id == robots_id@[i]
                &&& robots@[i].previous() == (Task {
                    task_id: tasks_id@[i][0],
                    x: positions@[i][0][0],
                    y: positions@[i][0][1],
                    z: positions@[i][0][2],
                })
                &&& robots@[i].current() == (Task {
                    task_id: tasks_id@[i][1],
                    x: positions@[i][1][0],
                    y: positions@[i][1][1],
                    z: positions@[i][1][2],
                })
            },
{
    let mut robots: Vec<Robot> = Vec::new();
    let mut i: usize = 0;
    while i < robots_id.len()
        invariant
            robots_id@.len() == tasks_id@.len(),
            robots_id@.len() == positions@.len(),
            i <= robots_id.len(),
            robots.len() == i,
            forall|k: int|
                0 <= k < i ==> {
                    &&& (#[trigger] robots@[k]).robot_id == robots_id@[k]
                    &&& robots@[k].previous() == (Task {
                        task_id: tasks_id@[k][0],
                        x: positions@[k][0][0],
                        y: positions@[k][0][1],
                        z: positions@[k][0][2],
                    })
                    &&& robots@[k].current() == (Task {
                        task_id: tasks_id@[k][1],
                        x: positions@[k][1][0],
                        y: positions@[k][1][1],
                        z: positions@[k][1][2],
                    })
                },
        decreases robots_id.len() - i,
    {
        robots.push(create_robot(robots_id[i], tasks_id[i], positions[i]));
        i = i + 1;
    }
    robots
}

/// Whether `length` is two to the power `log_length`.
pub fn is_power_length(length: usize, log_length: usize) -> (r: bool)
    ensures
        r == (length == pow2(log_length as nat)),
{
    if length == 0 {
        proof {
            lemma_pow2_grows(0, log_length as nat);
        }
        return false;
    }
    let mut size: usize = 1;
    let mut k: usize = 0;
    while k < log_length
        invariant
            k <= log_length,
            size == pow2(k as nat),
            size <= length,
        decreases log_length - k,
    {
        if size > length / 2 {
            proof {
                lemma_pow2_grows((k + 1) as nat, log_length as nat);
            }
            return false;
        }
        size = size * 2;
        k = k + 1;
    }
    size == length
}

proof fn lemma_pow2_grows(a: nat, b: nat)
    requires
        a <= b,
    ensures
        pow2(a) <= pow2(b),
    decreases b - a,
{
    if a < b {
        lemma_pow2_grows(a, (b - 1) as nat);
    }
}

} // verus!
