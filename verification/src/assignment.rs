//! Matching of tasks to agents by distance.
//!
//! Each agent stands at the position of the task it is heading to. The cost
//! of a task for an agent is the squared distance between the two positions.
//! For every task the agents are ranked by cost, and the tasks are then
//! handed out level by level: first to the agents that are closest to them,
//! then to the second closest, and so on.

use crate::field::{add_mod, field_add, field_mul, field_sub, modulus, mul_mod, sub_mod, FieldElement};
use crate::fleet::{Robot, Task, COORDINATE_BOUND};
use vstd::prelude::*;

verus! {

/// The square of the difference of two coordinates, in the field.
pub open spec fn diff_squared(a: nat, b: nat) -> nat {
    mul_mod(sub_mod(a, b), sub_mod(a, b))
}

/// The cost of `task` for `robot`: the sum over the three axes of the
/// squared difference between the task's coordinate and the coordinate of
/// the agent's current task, in the field.
pub open spec fn distance_value(task: Task, robot: Robot) -> nat {
    add_mod(
        add_mod(
            diff_squared(robot.list_tasks[1].x@, task.x@),
            diff_squared(robot.list_tasks[1].y@, task.y@),
        ),
        diff_squared(robot.list_tasks[1].z@, task.z@),
    )
}

/// The squared Euclidean distance between two positions, over the integers.
pub open spec fn squared_distance(a: Task, b: Task) -> int {
    (a.x@ - b.x@) * (a.x@ - b.x@) + (a.y@ - b.y@) * (a.y@ - b.y@) + (a.z@ - b.z@) * (a.z@ - b.z@)
}

/// The cost matrix: row `r`, column `t` holds the cost of task `t` for
/// agent `r`.
pub open spec fn cost_values(robots: Seq<Robot>, tasks: Seq<Task>) -> Seq<Seq<nat>> {
    Seq::new(
        robots.len(),
        |r: int| Seq::new(tasks.len(), |t: int| distance_value(tasks[t], robots[r])),
    )
}

/// The integer values of a matrix of field elements.
pub open spec fn matrix_values(m: Seq<Vec<FieldElement>>) -> Seq<Seq<nat>> {
    Seq::new(m.len(), |r: int| Seq::new(m[r]@.len(), |t: int| m[r]@[t]@))
}

/// The entries of a matrix of indices.
pub open spec fn matrix_indices(m: Seq<Vec<usize>>) -> Seq<Seq<nat>> {
    Seq::new(m.len(), |r: int| Seq::new(m[r]@.len(), |t: int| m[r]@[t] as nat))
}

/// Every row of the matrix has `width` entries.
pub open spec fn has_width<T>(m: Seq<Seq<T>>, width: nat) -> bool {
    forall|r: int| 0 <= r < m.len() ==> (#[trigger] m[r]).len() == width
}

/// The squared difference of two coordinates up to the bound is the square
/// of their integer difference: nothing wraps around the modulus.
pub proof fn lemma_diff_squared(a: nat, b: nat)
    requires
        a <= COORDINATE_BOUND,
        b <= COORDINATE_BOUND,
    ensures
        diff_squared(a, b) == (a - b) * (a - b),
        diff_squared(a, b) <= COORDINATE_BOUND * COORDINATE_BOUND,
{
    let p = modulus() as int;
    let d: int = if a >= b {
        a - b
    } else {
        b - a
    };
    assert(d * d <= 10000 * 10000) by (nonlinear_arith)
        requires
            0 <= d <= 10000,
    ;
    assert((a - b) * (a - b) == d * d) by (nonlinear_arith)
        requires
            d == a - b || d == b - a,
    ;
    let s = sub_mod(a, b) as int;
    if a >= b {
        assert(a + p - b == p * 1 + d);
        vstd::arithmetic::div_mod::lemma_mod_multiples_vanish(1, d, p);
        vstd::arithmetic::div_mod::lemma_small_mod(d as nat, p as nat);
        vstd::arithmetic::div_mod::lemma_small_mod((d * d) as nat, p as nat);
    } else {
        vstd::arithmetic::div_mod::lemma_small_mod((p - d) as nat, p as nat);
        assert(s * s == p * (p - 2 * d) + d * d) by (nonlinear_arith)
            requires
                s == p - d,
        ;
        vstd::arithmetic::div_mod::lemma_mod_multiples_vanish(p - 2 * d, d * d, p);
        vstd::arithmetic::div_mod::lemma_small_mod((d * d) as nat, p as nat);
    }
}

/// Every coordinate of the task is at most the bound.
pub open spec fn within_reach(t: Task) -> bool {
    t.x@ <= COORDINATE_BOUND && t.y@ <= COORDINATE_BOUND && t.z@ <= COORDINATE_BOUND
}

/// For positions up to the bound the cost is the squared Euclidean
/// distance: the field arithmetic does not wrap.
pub proof fn lemma_distance_is_euclidean(task: Task, robot: Robot)
    requires
        within_reach(task),
        within_reach(robot.list_tasks[1]),
    ensures
        distance_value(task, robot) == squared_distance(robot.list_tasks[1], task),
        distance_value(task, robot) <= 3 * COORDINATE_BOUND * COORDINATE_BOUND,
{
    let here = robot.list_tasks[1];
    lemma_diff_squared(here.x@, task.x@);
    lemma_diff_squared(here.y@, task.y@);
    lemma_diff_squared(here.z@, task.z@);
    let p = modulus();
    let dx = diff_squared(here.x@, task.x@);
    let dy = diff_squared(here.y@, task.y@);
    let dz = diff_squared(here.z@, task.z@);
    vstd::arithmetic::div_mod::lemma_small_mod(dx + dy, p);
    vstd::arithmetic::div_mod::lemma_small_mod(dx + dy + dz, p);
}

/// The cost of `task` for `robot`.
pub fn distance(task: &Task, robot: &Robot) -> (d: FieldElement)
    ensures
        d@ == distance_value(*task, *robot),
        within_reach(*task) && within_reach(robot.list_tasks[1]) ==> d@ == squared_distance(
            robot.list_tasks[1],
            *task,
        ),
{
    let here = robot.list_tasks[1];
    proof {
        if within_reach(*task) && within_reach(robot.list_tasks[1]) {
            lemma_distance_is_euclidean(*task, *robot);
        }
        use_type_invariant(&here.x);
        use_type_invariant(&here.y);
        use_type_invariant(&here.z);
        use_type_invariant(&task.x);
        use_type_invariant(&task.y);
        use_type_invariant(&task.z);
    }
    let dx = field_sub(here.x, task.x);
    let dy = field_sub(here.y, task.y);
    let dz = field_sub(here.z, task.z);
    field_add(field_add(field_mul(dx, dx), field_mul(dy, dy)), field_mul(dz, dz))
}

/// The cost matrix of the agents and the tasks.
pub fn cost_matrix(robots: &Vec<Robot>, tasks: &Vec<Task>) -> (cost: Vec<Vec<FieldElement>>)
    ensures
        matrix_values(cost@) == cost_values(robots@, tasks@),
{
    let mut cost: Vec<Vec<FieldElement>> = Vec::new();
    let mut r: usize = 0;
    while r < robots.len()
        invariant
            r <= robots.len(),
            cost.len() == r,
            forall|i: int|
                0 <= i < r ==> (#[trigger] cost[i])@.len() == tasks.len() && forall|t: int|
                    0 <= t < tasks.len() ==> (#[trigger] cost[i]@[t])@ == distance_value(
                        tasks[t],
                        robots[i],
                    ),
        decreases robots.len() - r,
    {
        let mut row: Vec<FieldElement> = Vec::new();
        let mut t: usize = 0;
        while t < tasks.len()
            invariant
                r < robots.len(),
                t <= tasks.len(),
                row.len() == t,
                forall|k: int|
                    0 <= k < t ==> (#[trigger] row[k])@ == distance_value(tasks[k], robots[r as int]),
            decreases tasks.len() - t,
        {
            row.push(distance(&tasks[t], &robots[r]));
            t = t + 1;
        }
        cost.push(row);
        r = r + 1;
    }
    assert(matrix_values(cost@) =~~= cost_values(robots@, tasks@));
    cost
}

/// Agent `a` is ranked before agent `b` for task `t`: it is closer, or as
/// close and earlier in the list.
pub open spec fn precedes(cost: Seq<Seq<nat>>, t: int, a: nat, b: nat) -> bool {
    cost[a as int][t] < cost[b as int][t] || (cost[a as int][t] == cost[b as int][t] && a < b)
}

/// Agent `a` stands somewhere in `order`.
pub open spec fn appears(order: Seq<nat>, a: nat) -> bool {
    exists|i: int| 0 <= i < order.len() && #[trigger] order[i] == a
}

/// `order` lists every agent once, each before all those it precedes for
/// task `t`.
pub open spec fn is_ranking(cost: Seq<Seq<nat>>, t: int, order: Seq<nat>) -> bool {
    &&& order.len() == cost.len()
    &&& forall|i: int| 0 <= i < order.len() ==> #[trigger] order[i] < cost.len()
    &&& forall|i: int, j: int|
        0 <= i < j < order.len() ==> precedes(cost, t, #[trigger] order[i], #[trigger] order[j])
    &&& forall|a: nat| a < cost.len() ==> #[trigger] appears(order, a)
}

/// Column `t` of a matrix.
pub open spec fn column(m: Seq<Seq<nat>>, t: int) -> Seq<nat> {
    Seq::new(m.len(), |i: int| m[i][t])
}

/// `rank` is the rank matrix of `cost`: entry `[i][t]` is the agent ranked
/// `i`-th for task `t`.
pub open spec fn ranks(cost: Seq<Seq<nat>>, width: nat, rank: Seq<Seq<nat>>) -> bool {
    &&& rank.len() == cost.len()
    &&& has_width(rank, width)
    &&& forall|t: int| 0 <= t < width ==> is_ranking(cost, t, #[trigger] column(rank, t))
}

/// The rank matrix of `cost`.
pub open spec fn ranking_of(cost: Seq<Seq<nat>>, width: nat) -> Seq<Seq<nat>> {
    choose|rank: Seq<Seq<nat>>| ranks(cost, width, rank)
}

/// The entries of a list of indices.
pub open spec fn indices(v: Seq<usize>) -> Seq<nat> {
    Seq::new(v.len(), |i: int| v[i] as nat)
}

/// A task has one ranking.
pub proof fn lemma_ranking_unique(cost: Seq<Seq<nat>>, t: int, first: Seq<nat>, second: Seq<nat>)
    requires
        is_ranking(cost, t, first),
        is_ranking(cost, t, second),
    ensures
        first == second,
{
    lemma_ranking_prefix_unique(cost, t, first, second, first.len());
    assert(first =~= second);
}

proof fn lemma_ranking_prefix_unique(
    cost: Seq<Seq<nat>>,
    t: int,
    first: Seq<nat>,
    second: Seq<nat>,
    n: nat,
)
    requires
        is_ranking(cost, t, first),
        is_ranking(cost, t, second),
        n <= first.len(),
    ensures
        forall|i: int| 0 <= i < n ==> first[i] == second[i],
    decreases n,
{
    if n > 0 {
        lemma_ranking_prefix_unique(cost, t, first, second, (n - 1) as nat);
        let i = n - 1;
        let x = first[i];
        let y = second[i];
        if x != y {
            assert(appears(second, x));
            assert(appears(first, y));
            let j = choose|j: int| 0 <= j < second.len() && #[trigger] second[j] == x;
            let k = choose|k: int| 0 <= k < first.len() && #[trigger] first[k] == y;
            if j < i {
                assert(first[j] == second[j]);
                assert(precedes(cost, t, first[j], first[i]));
            } else {
                assert(precedes(cost, t, second[i], second[j]));
            }
            if k < i {
                assert(first[k] == second[k]);
                assert(precedes(cost, t, second[k], second[i]));
            } else {
                assert(precedes(cost, t, first[i], first[k]));
            }
        }
    }
}

/// A cost matrix has one rank matrix.
pub proof fn lemma_ranks_unique(
    cost: Seq<Seq<nat>>,
    width: nat,
    first: Seq<Seq<nat>>,
    second: Seq<Seq<nat>>,
)
    requires
        ranks(cost, width, first),
        ranks(cost, width, second),
    ensures
        first == second,
{
    assert forall|i: int| 0 <= i < first.len() implies first[i] =~= second[i] by {
        assert forall|t: int| 0 <= t < width implies first[i][t] == second[i][t] by {
            lemma_ranking_unique(cost, t, column(first, t), column(second, t));
            assert(column(first, t)[i] == first[i][t]);
            assert(column(second, t)[i] == second[i][t]);
        }
    }
    assert(first =~= second);
}

/// The agents in the order in which they are ranked for task `t`.
pub fn rank_column(cost: &Vec<Vec<FieldElement>>, t: usize) -> (order: Vec<usize>)
    requires
        forall|r: int| 0 <= r < cost@.len() ==> t < (#[trigger] cost@[r])@.len(),
    ensures
        is_ranking(matrix_values(cost@), t as int, indices(order@)),
{
    let ghost cv = matrix_values(cost@);
    let n = cost.len();
    let mut order: Vec<usize> = Vec::new();
    let mut a: usize = 0;
    while a < n
        invariant
            cv == matrix_values(cost@),
            n == cost.len(),
            forall|r: int| 0 <= r < cost@.len() ==> t < (#[trigger] cost@[r])@.len(),
            a <= n,
            order.len() == a,
            forall|i: int| 0 <= i < a ==> #[trigger] order[i] < a,
            forall|i: int, j: int|
                0 <= i < j < a ==> precedes(
                    cv,
                    t as int,
                    #[trigger] order[i] as nat,
                    #[trigger] order[j] as nat,
                ),
            forall|b: nat| b < a ==> #[trigger] appears(indices(order@), b),
        decreases n - a,
    {
        let mine = cost[a][t];
        let mut p: usize = a;
        let mut scanning = true;
        while scanning && p > 0
            invariant
                cv == matrix_values(cost@),
                n == cost.len(),
                forall|r: int| 0 <= r < cost@.len() ==> t < (#[trigger] cost@[r])@.len(),
                a < n,
                order.len() == a,
                forall|i: int| 0 <= i < a ==> #[trigger] order[i] < a,
                p <= a,
                mine == cost[a as int]@[t as int],
                forall|j: int|
                    p <= j < a ==> cv[a as int][t as int] < cv[#[trigger] order[j] as int][t as int],
                !scanning ==> p > 0 && cv[order[p - 1] as int][t as int] <= cv[a as int][t as int],
            decreases p + if scanning { 1nat } else { 0nat },
        {
            let other = order[p - 1];
            assert(cv[other as int][t as int] == cost[other as int]@[t as int]@);
            assert(cv[a as int][t as int] == mine@);
            if mine.lt(&cost[other][t]) {
                p = p - 1;
            } else {
                scanning = false;
            }
        }
        let ghost before = order@;
        order.insert(p, a);
        proof {
            let after = order@;
            assert forall|i: int| 0 <= i < a + 1 implies #[trigger] after[i] < a + 1 by {
                if i < p {
                    assert(after[i] == before[i]);
                } else if i > p {
                    assert(after[i] == before[i - 1]);
                }
            }
            assert forall|i: int, j: int| 0 <= i < j < a + 1 implies precedes(
                cv,
                t as int,
                #[trigger] after[i] as nat,
                #[trigger] after[j] as nat,
            ) by {
                if j < p {
                    assert(after[i] == before[i] && after[j] == before[j]);
                } else if j == p {
                    assert(after[i] == before[i]);
                    assert(before[i] < a);
                    if i < p - 1 {
                        assert(precedes(cv, t as int, before[i] as nat, before[p - 1] as nat));
                    }
                } else if i < p {
                    assert(after[i] == before[i] && after[j] == before[j - 1]);
                } else if i == p {
                    assert(after[j] == before[j - 1]);
                } else {
                    assert(after[i] == before[i - 1] && after[j] == before[j - 1]);
                }
            }
            assert forall|b: nat| b < a + 1 implies #[trigger] appears(indices(after), b) by {
                if b < a {
                    assert(appears(indices(before), b));
                    let i = choose|i: int|
                        0 <= i < indices(before).len() && #[trigger] indices(before)[i] == b;
                    if i < p {
                        assert(indices(after)[i] == b);
                    } else {
                        assert(indices(after)[i + 1] == b);
                    }
                } else {
                    assert(indices(after)[p as int] == b);
                }
            }
        }
        a = a + 1;
    }
    proof {
        let ord = indices(order@);
        assert(cv.len() == n);
        assert(forall|i: int| 0 <= i < ord.len() ==> #[trigger] ord[i] == order[i]);
        assert forall|i: int, j: int| 0 <= i < j < ord.len() implies precedes(
            cv,
            t as int,
            #[trigger] ord[i],
            #[trigger] ord[j],
        ) by {
            assert(precedes(cv, t as int, order[i] as nat, order[j] as nat));
        }
    }
    order
}

/// The rank matrix of a cost matrix whose rows have `width` entries.
pub fn rank_matrix(cost: &Vec<Vec<FieldElement>>, width: usize) -> (rank: Vec<Vec<usize>>)
    requires
        has_width(matrix_values(cost@), width as nat),
    ensures
        ranks(matrix_values(cost@), width as nat, matrix_indices(rank@)),
        matrix_indices(rank@) == ranking_of(matrix_values(cost@), width as nat),
{
    let ghost cv = matrix_values(cost@);
    let n = cost.len();
    assert forall|r: int| 0 <= r < cost@.len() implies (#[trigger] cost@[r])@.len() == width by {
        assert(cv[r].len() == width);
    }
    let mut columns: Vec<Vec<usize>> = Vec::new();
    let mut t: usize = 0;
    while t < width
        invariant
            cv == matrix_values(cost@),
            n == cost.len(),
            forall|r: int| 0 <= r < cost@.len() ==> (#[trigger] cost@[r])@.len() == width,
            t <= width,
            columns.len() == t,
            forall|k: int| 0 <= k < t ==> is_ranking(cv, k, indices((#[trigger] columns[k])@)),
        decreases width - t,
    {
        let order = rank_column(cost, t);
        columns.push(order);
        t = t + 1;
    }
    let mut rank: Vec<Vec<usize>> = Vec::new();
    let mut i: usize = 0;
    while i < n
        invariant
            cv == matrix_values(cost@),
            n == cost.len(),
            cv.len() == n,
            columns.len() == width,
            forall|k: int| 0 <= k < width ==> is_ranking(cv, k, indices((#[trigger] columns[k])@)),
            i <= n,
            rank.len() == i,
            forall|j: int|
                0 <= j < i ==> (#[trigger] rank[j])@.len() == width && forall|k: int|
                    0 <= k < width ==> (#[trigger] rank[j]@[k]) == columns[k]@[j],
        decreases n - i,
    {
        let mut row: Vec<usize> = Vec::new();
        let mut k: usize = 0;
        while k < width
            invariant
                cv.len() == n,
                i < n,
                columns.len() == width,
                forall|c: int|
                    0 <= c < width ==> is_ranking(cv, c, indices((#[trigger] columns[c])@)),
                k <= width,
                row.len() == k,
                forall|c: int| 0 <= c < k ==> (#[trigger] row[c]) == columns[c]@[i as int],
            decreases width - k,
        {
            assert(is_ranking(cv, k as int, indices(columns[k as int]@)));
            assert(indices(columns[k as int]@).len() == n);
            row.push(columns[k][i]);
            k = k + 1;
        }
        rank.push(row);
        i = i + 1;
    }
    proof {
        let rv = matrix_indices(rank@);
        assert forall|r: int| 0 <= r < rv.len() implies (#[trigger] rv[r]).len() == width by {
            assert(rank[r]@.len() == width);
        }
        assert forall|c: int| 0 <= c < width implies is_ranking(cv, c, #[trigger] column(rv, c)) by {
            assert(is_ranking(cv, c, indices(columns[c]@)));
            assert(indices(columns[c]@).len() == n);
            assert forall|j: int| 0 <= j < n implies column(rv, c)[j] == indices(columns[c]@)[j] by {
                assert(rank[j]@[c] == columns[c]@[j]);
            }
            assert(column(rv, c) =~= indices(columns[c]@));
        }
        assert(ranks(cv, width as nat, rv));
        lemma_ranks_unique(cv, width as nat, rv, ranking_of(cv, width as nat));
    }
    rank
}

/// What has been handed out so far: for each agent the task it was given, if
/// any, and for each task whether it is still free.
pub struct Matching {
    pub robot_task: Seq<Option<nat>>,
    pub task_free: Seq<bool>,
}

/// Nothing handed out yet.
pub open spec fn unmatched(robots: nat, tasks: nat) -> Matching {
    Matching {
        robot_task: Seq::new(robots, |r: int| None::<nat>),
        task_free: Seq::new(tasks, |t: int| true),
    }
}

/// Task `t` can be given to agent `r` at a level: the agent has this level's
/// rank for the task, and the task is free.
pub open spec fn eligible(rank_row: Seq<nat>, free: Seq<bool>, r: nat, t: int) -> bool {
    0 <= t < rank_row.len() && t < free.len() && rank_row[t] == r && free[t]
}

/// Among the first `n` tasks, the eligible one that costs agent `r` least;
/// of several that cost the same, the last. `None` if none is eligible.
pub open spec fn best_task(
    cost_row: Seq<nat>,
    rank_row: Seq<nat>,
    free: Seq<bool>,
    r: nat,
    n: nat,
) -> Option<nat>
    decreases n,
{
    if n == 0 {
        None
    } else {
        let earlier = best_task(cost_row, rank_row, free, r, (n - 1) as nat);
        let t = (n - 1) as nat;
        if eligible(rank_row, free, r, t as int) && (earlier.is_none() || cost_row[t as int]
            <= cost_row[earlier.unwrap() as int]) {
            Some(t)
        } else {
            earlier
        }
    }
}

/// The turn of agent `r` at level `i`: if it has no task yet and some task
/// is eligible, it is given the best one.
pub open spec fn turn(cost: Seq<Seq<nat>>, rank: Seq<Seq<nat>>, m: Matching, i: int, r: int) -> Matching {
    if m.robot_task[r].is_some() {
        m
    } else {
        match best_task(cost[r], rank[i], m.task_free, r as nat, m.task_free.len()) {
            None => m,
            Some(t) => Matching {
                robot_task: m.robot_task.update(r, Some(t)),
                task_free: m.task_free.update(t as int, false),
            },
        }
    }
}

/// Level `i` after the turns of the first `n` agents.
pub open spec fn level_pass(
    cost: Seq<Seq<nat>>,
    rank: Seq<Seq<nat>>,
    m: Matching,
    i: int,
    n: nat,
) -> Matching
    decreases n,
{
    if n == 0 {
        m
    } else {
        turn(cost, rank, level_pass(cost, rank, m, i, (n - 1) as nat), i, n - 1)
    }
}

/// The matching after the first `k` levels, each a turn for every agent in
/// the order of the list.
pub open spec fn levels_pass(
    cost: Seq<Seq<nat>>,
    rank: Seq<Seq<nat>>,
    m: Matching,
    k: nat,
) -> Matching
    decreases k,
{
    if k == 0 {
        m
    } else {
        level_pass(cost, rank, levels_pass(cost, rank, m, (k - 1) as nat), k - 1, cost.len())
    }
}

/// The matching of `tasks` tasks to the agents of `cost`: as many levels as
/// there are agents, and no more.
pub open spec fn matching(cost: Seq<Seq<nat>>, rank: Seq<Seq<nat>>, tasks: nat) -> Matching {
    levels_pass(cost, rank, unmatched(cost.len(), tasks), cost.len())
}

/// An optional index as an optional natural number.
pub open spec fn optional_index(c: Option<usize>) -> Option<nat> {
    match c {
        Some(t) => Some(t as nat),
        None => None,
    }
}

/// The entries of a list of optional indices.
pub open spec fn optional_indices(v: Seq<Option<usize>>) -> Seq<Option<nat>> {
    Seq::new(v.len(), |i: int| optional_index(v[i]))
}

/// Row `r` of a matrix of field elements, as integer values.
pub open spec fn row_values(row: Seq<FieldElement>) -> Seq<nat> {
    Seq::new(row.len(), |t: int| row[t]@)
}

/// The task that agent `robot` takes at a level, given the level's row of
/// the rank matrix, the tasks still free and the agent's row of the cost
/// matrix.
pub fn task_choice(
    rank: &Vec<usize>,
    available: &Vec<bool>,
    robot: usize,
    cost: &Vec<FieldElement>,
) -> (choice: Option<usize>)
    requires
        rank.len() == available.len(),
        cost.len() == available.len(),
    ensures
        optional_index(choice) == best_task(
            row_values(cost@),
            indices(rank@),
            available@,
            robot as nat,
            available@.len(),
        ),
        choice.is_some() ==> choice.unwrap() < available@.len(),
{
    let ghost cost_row = row_values(cost@);
    let ghost rank_row = indices(rank@);
    let n = available.len();
    let mut choice: Option<usize> = None;
    let mut t: usize = 0;
    while t < n
        invariant
            n == available.len(),
            rank.len() == n,
            cost.len() == n,
            cost_row == row_values(cost@),
            rank_row == indices(rank@),
            t <= n,
            choice.is_some() ==> choice.unwrap() < t,
            optional_index(choice) == best_task(
                cost_row,
                rank_row,
                available@,
                robot as nat,
                t as nat,
            ),
        decreases n - t,
    {
        let open = rank[t] == robot && available[t];
        assert(open == eligible(rank_row, available@, robot as nat, t as int));
        let better = match choice {
            None => true,
            Some(best) => {
                assert(cost_row[best as int] == cost[best as int]@);
                assert(cost_row[t as int] == cost[t as int]@);
                !cost[best].lt(&cost[t])
            },
        };
        if open && better {
            choice = Some(t);
        }
        t = t + 1;
    }
    choice
}

/// Why no assignment was made.
#[derive(Clone, Copy, Debug, PartialEq, Eq, Structural)]
pub enum AssignmentError {
    /// The agent at this index was given no task within the levels that
    /// are scanned: the batch of tasks is too small for the fleet.
    UnmatchedAgent(usize),
}

/// The matching of the tasks to the agents, level by level: for each agent
/// the index of its task, or `None` if it was given none.
pub fn assign(rank: &Vec<Vec<usize>>, cost: &Vec<Vec<FieldElement>>, tasks: usize) -> (assignments:
    Vec<Option<usize>>)
    requires
        has_width(matrix_values(cost@), tasks as nat),
        has_width(matrix_indices(rank@), tasks as nat),
        rank@.len() == cost@.len(),
    ensures
        optional_indices(assignments@) == matching(
            matrix_values(cost@),
            matrix_indices(rank@),
            tasks as nat,
        ).robot_task,
        assignments@.len() == cost@.len(),
        forall|r: int|
            0 <= r < assignments@.len() && (#[trigger] assignments@[r]).is_some()
                ==> assignments@[r].unwrap() < tasks,
{
    let ghost cv = matrix_values(cost@);
    let ghost rv = matrix_indices(rank@);
    let n = cost.len();
    let mut robot_task: Vec<Option<usize>> = Vec::new();
    let mut task_free: Vec<bool> = Vec::new();
    let mut k: usize = 0;
    while k < n
        invariant
            k <= n,
            robot_task.len() == k,
            forall|r: int| 0 <= r < k ==> (#[trigger] robot_task[r]).is_none(),
        decreases n - k,
    {
        robot_task.push(None);
        k = k + 1;
    }
    k = 0;
    while k < tasks
        invariant
            k <= tasks,
            task_free.len() == k,
            forall|t: int| 0 <= t < k ==> #[trigger] task_free[t],
        decreases tasks - k,
    {
        task_free.push(true);
        k = k + 1;
    }
    let ghost mut m = unmatched(n as nat, tasks as nat);
    assert(optional_indices(robot_task@) =~= m.robot_task);
    assert(task_free@ =~= m.task_free);
    let mut i: usize = 0;
    while i < n
        invariant
            cv == matrix_values(cost@),
            rv == matrix_indices(rank@),
            n == cost.len(),
            rank.len() == n,
            has_width(cv, tasks as nat),
            has_width(rv, tasks as nat),
            i <= n,
            robot_task.len() == n,
            task_free.len() == tasks,
            optional_indices(robot_task@) == m.robot_task,
            task_free@ == m.task_free,
            m == levels_pass(cv, rv, unmatched(n as nat, tasks as nat), i as nat),
            forall|r: int|
                0 <= r < n && (#[trigger] robot_task@[r]).is_some() ==> robot_task@[r].unwrap()
                    < tasks,
        decreases n - i,
    {
        let ghost start = m;
        let mut r: usize = 0;
        while r < n
            invariant
                cv == matrix_values(cost@),
                rv == matrix_indices(rank@),
                n == cost.len(),
                rank.len() == n,
                has_width(cv, tasks as nat),
                has_width(rv, tasks as nat),
                i < n,
                r <= n,
                robot_task.len() == n,
                task_free.len() == tasks,
                optional_indices(robot_task@) == m.robot_task,
                task_free@ == m.task_free,
                m == level_pass(cv, rv, start, i as int, r as nat),
                forall|q: int|
                    0 <= q < n && (#[trigger] robot_task@[q]).is_some() ==> robot_task@[q].unwrap()
                        < tasks,
            decreases n - r,
        {
            proof {
                assert(cv[r as int].len() == tasks);
                assert(rv[i as int].len() == tasks);
                assert(cv[r as int] =~= row_values(cost@[r as int]@));
                assert(rv[i as int] =~= indices(rank@[i as int]@));
                assert(m.robot_task[r as int] == optional_index(robot_task@[r as int]));
            }
            let ghost next = turn(cv, rv, m, i as int, r as int);
            if robot_task[r].is_none() {
                let choice = task_choice(&rank[i], &task_free, r, &cost[r]);
                match choice {
                    Some(t) => {
                        robot_task.set(r, Some(t));
                        task_free.set(t, false);
                        assert(optional_indices(robot_task@) =~= next.robot_task);
                        assert(task_free@ =~= next.task_free);
                    },
                    None => {},
                }
            }
            proof {
                m = next;
            }
            r = r + 1;
        }
        i = i + 1;
    }
    robot_task
}

/// The task that an agent is handed when it is assigned the task at index
/// `t` of the batch: the index as its ordinal, and the position of that
/// task.
pub open spec fn assigned_task(tasks: Seq<Task>, t: nat) -> Task {
    Task {
        task_id: FieldElement::of_nat(t),
        x: tasks[t as int].x,
        y: tasks[t as int].y,
        z: tasks[t as int].z,
    }
}

/// The assignment of a batch of tasks to a fleet: for each agent the index
/// of its task, or `None` if it is left without one.
pub open spec fn assignment_of(robots: Seq<Robot>, tasks: Seq<Task>) -> Seq<Option<nat>> {
    let cost = cost_values(robots, tasks);
    matching(cost, ranking_of(cost, tasks.len()), tasks.len()).robot_task
}

/// Every agent is given a task.
pub open spec fn complete(assignment: Seq<Option<nat>>) -> bool {
    forall|r: int| 0 <= r < assignment.len() ==> (#[trigger] assignment[r]).is_some()
}

/// Agent `r` is the first that is given no task.
pub open spec fn first_unmatched(assignment: Seq<Option<nat>>, r: int) -> bool {
    &&& 0 <= r < assignment.len()
    &&& assignment[r].is_none()
    &&& forall|q: int| 0 <= q < r ==> (#[trigger] assignment[q]).is_some()
}

/// One round of assignment: every agent moves its current task to the
/// previous slot and takes the task it is assigned as its current one.
///
/// Only as many levels as there are agents are scanned. A batch with at
/// least as many tasks as agents is always handed out in full within them
/// (see `lemma_enough_tasks_complete`); with fewer tasks some agent is
/// left without one, and that is reported, not passed over.
pub fn skate(robots: &Vec<Robot>, tasks: &Vec<Task>) -> (result: Result<
    Vec<Robot>,
    AssignmentError,
>)
    ensures
        result.is_ok() <==> tasks@.len() >= robots@.len(),
        result.is_ok() <==> complete(assignment_of(robots@, tasks@)),
        result.is_ok() ==> {
            let moved = result.unwrap();
            &&& moved@.len() == robots@.len()
            &&& forall|r: int|
                0 <= r < robots@.len() ==> {
                    let t = (#[trigger] assignment_of(robots@, tasks@)[r]).unwrap();
                    &&& t < tasks@.len()
                    &&& moved@[r] == robots@[r].advanced(assigned_task(tasks@, t))
                }
        },
        result.is_err() ==> {
            let AssignmentError::UnmatchedAgent(r) = result.unwrap_err();
            first_unmatched(assignment_of(robots@, tasks@), r as int)
        },
{
    let cost = cost_matrix(robots, tasks);
    proof {
        let cv = cost_values(robots@, tasks@);
        assert(has_width(cv, tasks@.len()));
        if tasks@.len() >= robots@.len() {
            crate::matching_proofs::lemma_enough_tasks_complete(robots@, tasks@);
        } else {
            crate::matching_proofs::lemma_too_few_tasks_incomplete(robots@, tasks@);
        }
    }
    let rank = rank_matrix(&cost, tasks.len());
    let assignments = assign(&rank, &cost, tasks.len());
    let ghost assignment = assignment_of(robots@, tasks@);
    assert(optional_indices(assignments@) == assignment);
    let mut moved: Vec<Robot> = Vec::new();
    let mut i: usize = 0;
    while i < robots.len()
        invariant
            i <= robots.len(),
            assignments.len() == robots.len(),
            assignment == assignment_of(robots@, tasks@),
            complete(assignment) <==> tasks@.len() >= robots@.len(),
            optional_indices(assignments@) == assignment,
            forall|r: int|
                0 <= r < assignments@.len() && (#[trigger] assignments@[r]).is_some()
                    ==> assignments@[r].unwrap() < tasks.len(),
            moved.len() == i,
            forall|r: int| 0 <= r < i ==> (#[trigger] assignment[r]).is_some(),
            forall|r: int|
                0 <= r < i ==> {
                    let t = (#[trigger] assignment[r]).unwrap();
                    &&& t < tasks@.len()
                    &&& moved@[r] == robots@[r].advanced(assigned_task(tasks@, t))
                },
        decreases robots.len() - i,
    {
        assert(assignment[i as int] == optional_index(assignments@[i as int]));
        match assignments[i] {
            None => {
                return Err(AssignmentError::UnmatchedAgent(i));
            },
            Some(t) => {
                let ordinal = FieldElement::from_u64(t as u64);
                proof {
                    ordinal.lemma_of_view();
                }
                let task = Task { task_id: ordinal, x: tasks[t].x, y: tasks[t].y, z: tasks[t].z };
                moved.push(robots[i].advance(task));
            },
        }
        i = i + 1;
    }
    Ok(moved)
}

} // verus!
