//! What a configuration must say before a program starts.
//!
//! Positions come as decimal strings. The coordinator takes the starting
//! position of every agent of the fleet; an agent takes its own identifier,
//! the root it starts from and its starting position. A configuration that
//! does not pass is not repaired: the program does not start.

use crate::codec::{decimal_value, parse_field, ParseError};
use crate::coordinator::Position;
use crate::field::{modulus, FieldElement};
use crate::fleet::{Robot, Task, COORDINATE_BOUND};
use crate::wire::{fault, or_else};
use vstd::prelude::*;

verus! {

/// Why a configuration is turned down.
#[derive(Clone, Copy, Debug, PartialEq, Eq, Structural)]
pub enum ConfigError {
    /// A list does not have one entry for each agent of the fleet.
    FleetSize,
    /// More tasks are to be entered by hand than a batch holds.
    ManualChoices,
    /// A string is not a number in range.
    Number(ParseError),
    /// A coordinate is above the limit.
    OutOfBounds,
}

/// The largest coordinate at which the coordinator lets an agent start.
pub const COORDINATOR_LIMIT: u64 = COORDINATE_BOUND;

/// The largest coordinate at which an agent lets itself start.
pub const AGENT_LIMIT: u64 = COORDINATE_BOUND - 1;

/// What reading a position gives: the first faulty number of `x`, `y`, `z`,
/// or else a coordinate above the limit, or nothing wrong.
pub open spec fn position_fault(x: Seq<char>, y: Seq<char>, z: Seq<char>, limit: nat) -> Option<
    ConfigError,
> {
    match or_else(fault(x, modulus()), or_else(fault(y, modulus()), fault(z, modulus()))) {
        Some(e) => Some(ConfigError::Number(e)),
        None => if decimal_value(x) > limit || decimal_value(y) > limit || decimal_value(z)
            > limit {
            Some(ConfigError::OutOfBounds)
        } else {
            None
        },
    }
}

/// The position says what the strings say.
pub open spec fn position_reads_as(p: Position, x: Seq<char>, y: Seq<char>, z: Seq<char>) -> bool {
    p.x@ == decimal_value(x) && p.y@ == decimal_value(y) && p.z@ == decimal_value(z)
}

/// Reads a position whose coordinates may not exceed `limit`.
pub fn read_position(x: &str, y: &str, z: &str, limit: u64) -> (r: Result<Position, ConfigError>)
    ensures
        match position_fault(x@, y@, z@, limit as nat) {
            Some(e) => r == Err::<Position, ConfigError>(e),
            None => r.is_ok() && position_reads_as(r.unwrap(), x@, y@, z@),
        },
{
    let px = match parse_field(x) {
        Ok(e) => e,
        Err(e) => {
            return Err(ConfigError::Number(e));
        },
    };
    let py = match parse_field(y) {
        Ok(e) => e,
        Err(e) => {
            return Err(ConfigError::Number(e));
        },
    };
    let pz = match parse_field(z) {
        Ok(e) => e,
        Err(e) => {
            return Err(ConfigError::Number(e));
        },
    };
    let top = FieldElement::from_u64(limit);
    if top.lt(&px) || top.lt(&py) || top.lt(&pz) {
        return Err(ConfigError::OutOfBounds);
    }
    Ok(Position { x: px, y: py, z: pz })
}

/// What is wrong with the first faulty position among the first `n`.
pub open spec fn positions_fault(
    xs: Seq<String>,
    ys: Seq<String>,
    zs: Seq<String>,
    limit: nat,
    n: nat,
) -> Option<ConfigError>
    decreases n,
{
    if n == 0 {
        None
    } else {
        match positions_fault(xs, ys, zs, limit, (n - 1) as nat) {
            Some(e) => Some(e),
            None => position_fault(xs[n - 1]@, ys[n - 1]@, zs[n - 1]@, limit),
        }
    }
}

/// What is wrong with the configuration of a coordinator, if anything: a
/// list of the wrong length, too many tasks to enter by hand, or the first
/// faulty starting position.
pub open spec fn fleet_fault(
    addresses: nat,
    xs: Seq<String>,
    ys: Seq<String>,
    zs: Seq<String>,
    manual_choices: nat,
    fleet: nat,
    batch: nat,
) -> Option<ConfigError> {
    if addresses != fleet || xs.len() != fleet || ys.len() != fleet || zs.len() != fleet {
        Some(ConfigError::FleetSize)
    } else if manual_choices > batch {
        Some(ConfigError::ManualChoices)
    } else {
        positions_fault(xs, ys, zs, COORDINATOR_LIMIT as nat, fleet)
    }
}

proof fn lemma_positions_fault_stays(
    xs: Seq<String>,
    ys: Seq<String>,
    zs: Seq<String>,
    limit: nat,
    n: nat,
    m: nat,
)
    requires
        n <= m,
        positions_fault(xs, ys, zs, limit, n).is_some(),
    ensures
        positions_fault(xs, ys, zs, limit, m) == positions_fault(xs, ys, zs, limit, n),
    decreases m - n,
{
    if n < m {
        lemma_positions_fault_stays(xs, ys, zs, limit, n, (m - 1) as nat);
    }
}

/// Checks the configuration of a coordinator for a fleet of `fleet` agents
/// and batches of `batch` tasks, and reads the starting positions.
pub fn read_fleet(
    addresses: usize,
    xs: &Vec<String>,
    ys: &Vec<String>,
    zs: &Vec<String>,
    manual_choices: usize,
    fleet: usize,
    batch: usize,
) -> (r: Result<Vec<Position>, ConfigError>)
    ensures
        match fleet_fault(
            addresses as nat,
            xs@,
            ys@,
            zs@,
            manual_choices as nat,
            fleet as nat,
            batch as nat,
        ) {
            Some(e) => r == Err::<Vec<Position>, ConfigError>(e),
            None => r.is_ok() && r.unwrap()@.len() == fleet && forall|i: int|
                0 <= i < fleet ==> position_reads_as(
                    #[trigger] r.unwrap()@[i],
                    xs@[i]@,
                    ys@[i]@,
                    zs@[i]@,
                ),
        },
{
    if addresses != fleet || xs.len() != fleet || ys.len() != fleet || zs.len() != fleet {
        return Err(ConfigError::FleetSize);
    }
    if manual_choices > batch {
        return Err(ConfigError::ManualChoices);
    }
    let mut positions: Vec<Position> = Vec::new();
    let mut i: usize = 0;
    while i < fleet
        invariant
            i <= fleet,
            addresses == fleet,
            manual_choices <= batch,
            xs@.len() == fleet,
            ys@.len() == fleet,
            zs@.len() == fleet,
            positions.len() == i,
            positions_fault(xs@, ys@, zs@, COORDINATOR_LIMIT as nat, i as nat).is_none(),
            forall|k: int|
                0 <= k < i ==> position_reads_as(
                    #[trigger] positions@[k],
                    xs@[k]@,
                    ys@[k]@,
                    zs@[k]@,
                ),
        decreases fleet - i,
    {
        match read_position(xs[i].as_str(), ys[i].as_str(), zs[i].as_str(), COORDINATOR_LIMIT) {
            Ok(p) => {
                positions.push(p);
            },
            Err(e) => {
                proof {
                    assert(positions_fault(
                        xs@,
                        ys@,
                        zs@,
                        COORDINATOR_LIMIT as nat,
                        (i + 1) as nat,
                    ) == Some(e));
                    lemma_positions_fault_stays(
                        xs@,
                        ys@,
                        zs@,
                        COORDINATOR_LIMIT as nat,
                        (i + 1) as nat,
                        fleet as nat,
                    );
                }
                return Err(e);
            },
        }
        i = i + 1;
    }
    Ok(positions)
}

/// What is wrong with the configuration of an agent, if anything: the first
/// faulty number of identifier and root, or else what is wrong with the
/// position.
pub open spec fn agent_fault(
    id: Seq<char>,
    root: Seq<char>,
    x: Seq<char>,
    y: Seq<char>,
    z: Seq<char>,
) -> Option<ConfigError> {
    match or_else(fault(id, modulus()), fault(root, modulus())) {
        Some(e) => Some(ConfigError::Number(e)),
        None => position_fault(x, y, z, AGENT_LIMIT as nat),
    }
}

/// Checks the configuration of an agent and gives the record and the root
/// that the agent starts from: the task with ordinal 0 at the origin as its
/// previous task, the task with ordinal 1 at its starting position as its
/// current one.
pub fn read_agent(id: &str, root: &str, x: &str, y: &str, z: &str) -> (r: Result<
    (Robot, FieldElement),
    ConfigError,
>)
    ensures
        match agent_fault(id@, root@, x@, y@, z@) {
            Some(e) => r == Err::<(Robot, FieldElement), ConfigError>(e),
            None => {
                &&& r.is_ok()
                &&& r.unwrap().0.robot_id@ == decimal_value(id@)
                &&& r.unwrap().1@ == decimal_value(root@)
                &&& r.unwrap().0.list_tasks[0] == (Task {
                    task_id: FieldElement::of_nat(0),
                    x: FieldElement::of_nat(0),
                    y: FieldElement::of_nat(0),
                    z: FieldElement::of_nat(0),
                })
                &&& r.unwrap().0.list_tasks[1].task_id == FieldElement::of_nat(1)
                &&& r.unwrap().0.list_tasks[1].x@ == decimal_value(x@)
                &&& r.unwrap().0.list_tasks[1].y@ == decimal_value(y@)
                &&& r.unwrap().0.list_tasks[1].z@ == decimal_value(z@)
                &&& r.unwrap().0.list_tasks[1].in_bounds()
            },
        },
{
    let robot_id = match parse_field(id) {
        Ok(e) => e,
        Err(e) => {
            return Err(ConfigError::Number(e));
        },
    };
    let committed = match parse_field(root) {
        Ok(e) => e,
        Err(e) => {
            return Err(ConfigError::Number(e));
        },
    };
    let position = match read_position(x, y, z, AGENT_LIMIT) {
        Ok(p) => p,
        Err(e) => {
            return Err(e);
        },
    };
    let zero = FieldElement::zero();
    let one = FieldElement::from_u64(1);
    proof {
        zero.lemma_of_view();
        one.lemma_of_view();
    }
    let robot = Robot {
        robot_id,
        list_tasks: [
            Task { task_id: zero, x: zero, y: zero, z: zero },
            Task { task_id: one, x: position.x, y: position.y, z: position.z },
        ],
    };
    Ok((robot, committed))
}

} // verus!
