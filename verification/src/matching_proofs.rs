//! What holds of every matching that the assignment produces.

use crate::assignment::{
    appears, assignment_of, best_task, column, complete, cost_values, eligible, has_width,
    is_ranking, level_pass, levels_pass, matching, precedes, ranking_of, ranks, turn, unmatched,
    Matching,
};
use crate::fleet::{Robot, Task};
use vstd::prelude::*;

verus! {

/// The number of tasks that are no longer free.
pub open spec fn taken_count(free: Seq<bool>) -> nat
    decreases free.len(),
{
    if free.len() == 0 {
        0
    } else {
        taken_count(free.drop_last()) + if free.last() {
            0nat
        } else {
            1nat
        }
    }
}

/// The number of agents that have been given a task.
pub open spec fn given_count(robot_task: Seq<Option<nat>>) -> nat
    decreases robot_task.len(),
{
    if robot_task.len() == 0 {
        0
    } else {
        given_count(robot_task.drop_last()) + if robot_task.last().is_some() {
            1nat
        } else {
            0nat
        }
    }
}

/// The matching is sound: a given task is a task of the batch and no longer
/// free, no task is given twice, every task that is not free has been given
/// to some agent, and as many tasks are taken as agents are served.
pub open spec fn consistent(m: Matching) -> bool {
    &&& forall|r: int|
        0 <= r < m.robot_task.len() && (#[trigger] m.robot_task[r]).is_some() ==> {
            &&& m.robot_task[r].unwrap() < m.task_free.len()
            &&& !m.task_free[m.robot_task[r].unwrap() as int]
        }
    &&& forall|r1: int, r2: int|
        0 <= r1 < m.robot_task.len() && 0 <= r2 < m.robot_task.len() && r1 != r2 && (
        #[trigger] m.robot_task[r1]).is_some() && (#[trigger] m.robot_task[r2]).is_some()
            ==> m.robot_task[r1].unwrap() != m.robot_task[r2].unwrap()
    &&& forall|t: int|
        0 <= t < m.task_free.len() && !(#[trigger] m.task_free[t]) ==> given_to_someone(
            m.robot_task,
            t as nat,
        )
    &&& taken_count(m.task_free) == given_count(m.robot_task)
}

/// Some agent has been given task `t`.
pub open spec fn given_to_someone(robot_task: Seq<Option<nat>>, t: nat) -> bool {
    exists|r: int| 0 <= r < robot_task.len() && #[trigger] robot_task[r] == Some(t)
}

/// `later` keeps everything that `earlier` has handed out.
pub open spec fn extends(earlier: Matching, later: Matching) -> bool {
    &&& later.robot_task.len() == earlier.robot_task.len()
    &&& later.task_free.len() == earlier.task_free.len()
    &&& forall|r: int|
        0 <= r < earlier.robot_task.len() && (#[trigger] earlier.robot_task[r]).is_some()
            ==> later.robot_task[r] == earlier.robot_task[r]
    &&& forall|t: int|
        0 <= t < earlier.task_free.len() && !(#[trigger] earlier.task_free[t])
            ==> !later.task_free[t]
}

/// If agent `r` is still without a task, then every task for which it has
/// the rank of this level is taken.
pub open spec fn exhausted(rank_row: Seq<nat>, m: Matching, r: int) -> bool {
    m.robot_task[r].is_none() ==> forall|t: int|
        0 <= t < m.task_free.len() && #[trigger] rank_row[t] == r ==> !m.task_free[t]
}

/// The best task is eligible and costs no more than any other eligible
/// task; there is none only if no task is eligible.
pub proof fn lemma_best_task(
    cost_row: Seq<nat>,
    rank_row: Seq<nat>,
    free: Seq<bool>,
    r: nat,
    n: nat,
)
    ensures
        match best_task(cost_row, rank_row, free, r, n) {
            Some(t) => {
                &&& t < n
                &&& eligible(rank_row, free, r, t as int)
                &&& forall|other: int|
                    0 <= other < n && eligible(rank_row, free, r, other) ==> cost_row[t as int]
                        <= #[trigger] cost_row[other]
            },
            None => forall|other: int| 0 <= other < n ==> !eligible(rank_row, free, r, other),
        },
    decreases n,
{
    if n > 0 {
        lemma_best_task(cost_row, rank_row, free, r, (n - 1) as nat);
    }
}

proof fn lemma_taken_count_update(free: Seq<bool>, t: int)
    requires
        0 <= t < free.len(),
        free[t],
    ensures
        taken_count(free.update(t, false)) == taken_count(free) + 1,
    decreases free.len(),
{
    let after = free.update(t, false);
    if t == free.len() - 1 {
        assert(after.drop_last() =~= free.drop_last());
    } else {
        assert(after.drop_last() =~= free.drop_last().update(t, false));
        lemma_taken_count_update(free.drop_last(), t);
    }
}

proof fn lemma_given_count_update(robot_task: Seq<Option<nat>>, r: int, t: nat)
    requires
        0 <= r < robot_task.len(),
        robot_task[r].is_none(),
    ensures
        given_count(robot_task.update(r, Some(t))) == given_count(robot_task) + 1,
    decreases robot_task.len(),
{
    let after = robot_task.update(r, Some(t));
    if r == robot_task.len() - 1 {
        assert(after.drop_last() =~= robot_task.drop_last());
    } else {
        assert(after.drop_last() =~= robot_task.drop_last().update(r, Some(t)));
        lemma_given_count_update(robot_task.drop_last(), r, t);
    }
}

proof fn lemma_taken_count_full(free: Seq<bool>)
    requires
        forall|t: int| 0 <= t < free.len() ==> !(#[trigger] free[t]),
    ensures
        taken_count(free) == free.len(),
    decreases free.len(),
{
    if free.len() > 0 {
        assert forall|t: int| 0 <= t < free.drop_last().len() implies !(
        #[trigger] free.drop_last()[t]) by {
            assert(free.drop_last()[t] == free[t]);
        }
        lemma_taken_count_full(free.drop_last());
    }
}

proof fn lemma_taken_count_bound(free: Seq<bool>)
    ensures
        taken_count(free) <= free.len(),
    decreases free.len(),
{
    if free.len() > 0 {
        lemma_taken_count_bound(free.drop_last());
    }
}

proof fn lemma_given_count_bound(robot_task: Seq<Option<nat>>)
    ensures
        given_count(robot_task) <= robot_task.len(),
        (exists|r: int| 0 <= r < robot_task.len() && (#[trigger] robot_task[r]).is_none())
            ==> given_count(robot_task) < robot_task.len(),
        (forall|r: int| 0 <= r < robot_task.len() ==> (#[trigger] robot_task[r]).is_some())
            ==> given_count(robot_task) == robot_task.len(),
    decreases robot_task.len(),
{
    if robot_task.len() > 0 {
        let head = robot_task.drop_last();
        lemma_given_count_bound(head);
        if exists|r: int| 0 <= r < robot_task.len() && (#[trigger] robot_task[r]).is_none() {
            let r = choose|r: int| 0 <= r < robot_task.len() && (#[trigger] robot_task[r]).is_none();
            if r < robot_task.len() - 1 {
                assert(head[r].is_none());
            }
        }
        if forall|r: int| 0 <= r < robot_task.len() ==> (#[trigger] robot_task[r]).is_some() {
            assert forall|r: int| 0 <= r < head.len() implies (#[trigger] head[r]).is_some() by {
                assert(head[r] == robot_task[r]);
            }
        }
    }
}

proof fn lemma_unmatched_consistent(robots: nat, tasks: nat)
    ensures
        consistent(unmatched(robots, tasks)),
        given_count(unmatched(robots, tasks).robot_task) == 0,
{
    let m = unmatched(robots, tasks);
    lemma_none_given(m.robot_task);
    lemma_none_taken(m.task_free);
}

proof fn lemma_none_given(robot_task: Seq<Option<nat>>)
    requires
        forall|r: int| 0 <= r < robot_task.len() ==> (#[trigger] robot_task[r]).is_none(),
    ensures
        given_count(robot_task) == 0,
    decreases robot_task.len(),
{
    if robot_task.len() > 0 {
        assert forall|r: int| 0 <= r < robot_task.drop_last().len() implies (
        #[trigger] robot_task.drop_last()[r]).is_none() by {
            assert(robot_task.drop_last()[r] == robot_task[r]);
        }
        lemma_none_given(robot_task.drop_last());
    }
}

proof fn lemma_none_taken(free: Seq<bool>)
    requires
        forall|t: int| 0 <= t < free.len() ==> #[trigger] free[t],
    ensures
        taken_count(free) == 0,
    decreases free.len(),
{
    if free.len() > 0 {
        assert forall|t: int| 0 <= t < free.drop_last().len() implies #[trigger] free.drop_last()[t] by {
            assert(free.drop_last()[t] == free[t]);
        }
        lemma_none_taken(free.drop_last());
    }
}

/// One turn keeps the matching sound, keeps what was handed out, and leaves
/// the agent either served or with nothing left to take at this level.
pub proof fn lemma_turn(cost: Seq<Seq<nat>>, rank: Seq<Seq<nat>>, m: Matching, i: int, r: int)
    requires
        consistent(m),
        0 <= r < m.robot_task.len(),
        0 <= i < rank.len(),
        rank[i].len() == m.task_free.len(),
    ensures
        consistent(turn(cost, rank, m, i, r)),
        extends(m, turn(cost, rank, m, i, r)),
        exhausted(rank[i], turn(cost, rank, m, i, r), r),
{
    let after = turn(cost, rank, m, i, r);
    if m.robot_task[r].is_none() {
        lemma_best_task(cost[r], rank[i], m.task_free, r as nat, m.task_free.len());
        match best_task(cost[r], rank[i], m.task_free, r as nat, m.task_free.len()) {
            None => {
                assert forall|t: int|
                    0 <= t < m.task_free.len() && #[trigger] rank[i][t] == r implies !m.task_free[t] by {
                    assert(!eligible(rank[i], m.task_free, r as nat, t));
                }
            },
            Some(t) => {
                lemma_taken_count_update(m.task_free, t as int);
                lemma_given_count_update(m.robot_task, r, t);
                assert forall|u: int|
                    0 <= u < after.task_free.len() && !(#[trigger] after.task_free[u]) implies given_to_someone(
                    after.robot_task,
                    u as nat,
                ) by {
                    if u == t {
                        assert(after.robot_task[r] == Some(t));
                    } else {
                        assert(!m.task_free[u]);
                        let q = choose|q: int|
                            0 <= q < m.robot_task.len() && #[trigger] m.robot_task[q] == Some(
                                u as nat,
                            );
                        assert(after.robot_task[q] == Some(u as nat));
                    }
                }
                assert forall|r1: int, r2: int|
                    0 <= r1 < after.robot_task.len() && 0 <= r2 < after.robot_task.len() && r1
                        != r2 && (#[trigger] after.robot_task[r1]).is_some() && (
                    #[trigger] after.robot_task[r2]).is_some() implies after.robot_task[r1].unwrap()
                    != after.robot_task[r2].unwrap() by {
                    if r1 != r && r2 != r {
                        assert(m.robot_task[r1].is_some() && m.robot_task[r2].is_some());
                    } else if r1 == r {
                        assert(m.robot_task[r2].is_some());
                    } else {
                        assert(m.robot_task[r1].is_some());
                    }
                }
                assert forall|q: int|
                    0 <= q < after.robot_task.len() && (
                    #[trigger] after.robot_task[q]).is_some() implies after.robot_task[q].unwrap()
                    < after.task_free.len() && !after.task_free[after.robot_task[q].unwrap() as int] by {
                    if q != r {
                        assert(m.robot_task[q].is_some());
                    }
                }
            },
        }
    }
}

proof fn lemma_extends_transitive(a: Matching, b: Matching, c: Matching)
    requires
        extends(a, b),
        extends(b, c),
    ensures
        extends(a, c),
{
    assert forall|r: int|
        0 <= r < a.robot_task.len() && (#[trigger] a.robot_task[r]).is_some() implies c.robot_task[r]
        == a.robot_task[r] by {
        assert(b.robot_task[r].is_some());
    }
    assert forall|t: int| 0 <= t < a.task_free.len() && !(#[trigger] a.task_free[t]) implies !c.task_free[t] by {
        assert(!b.task_free[t]);
    }
}

proof fn lemma_exhausted_stays(rank_row: Seq<nat>, a: Matching, b: Matching, r: int)
    requires
        extends(a, b),
        0 <= r < a.robot_task.len(),
        exhausted(rank_row, a, r),
    ensures
        exhausted(rank_row, b, r),
{
    if b.robot_task[r].is_none() {
        if a.robot_task[r].is_some() {
            assert(b.robot_task[r] == a.robot_task[r]);
        }
        assert forall|t: int|
            0 <= t < b.task_free.len() && #[trigger] rank_row[t] == r implies !b.task_free[t] by {
            assert(!a.task_free[t]);
        }
    }
}

/// A level keeps the matching sound and leaves every agent that had its
/// turn either served or with nothing left to take at this level.
pub proof fn lemma_level_pass(
    cost: Seq<Seq<nat>>,
    rank: Seq<Seq<nat>>,
    m: Matching,
    i: int,
    n: nat,
)
    requires
        consistent(m),
        n <= m.robot_task.len(),
        0 <= i < rank.len(),
        rank[i].len() == m.task_free.len(),
    ensures
        consistent(level_pass(cost, rank, m, i, n)),
        extends(m, level_pass(cost, rank, m, i, n)),
        forall|r: int| 0 <= r < n ==> #[trigger] exhausted(rank[i], level_pass(cost, rank, m, i, n), r),
    decreases n,
{
    if n > 0 {
        let before = level_pass(cost, rank, m, i, (n - 1) as nat);
        let after = level_pass(cost, rank, m, i, n);
        lemma_level_pass(cost, rank, m, i, (n - 1) as nat);
        lemma_turn(cost, rank, before, i, n - 1);
        lemma_extends_transitive(m, before, after);
        assert forall|r: int| 0 <= r < n implies #[trigger] exhausted(rank[i], after, r) by {
            if r < n - 1 {
                lemma_exhausted_stays(rank[i], before, after, r);
            }
        }
    }
}

/// The levels keep the matching sound and leave every agent either served
/// or with nothing left to take at any of them.
pub proof fn lemma_levels_pass(cost: Seq<Seq<nat>>, rank: Seq<Seq<nat>>, m: Matching, k: nat)
    requires
        consistent(m),
        m.robot_task.len() == cost.len(),
        k <= rank.len(),
        has_width(rank, m.task_free.len()),
    ensures
        consistent(levels_pass(cost, rank, m, k)),
        extends(m, levels_pass(cost, rank, m, k)),
        forall|i: int, r: int|
            0 <= i < k && 0 <= r < cost.len() ==> #[trigger] exhausted(
                rank[i],
                levels_pass(cost, rank, m, k),
                r,
            ),
    decreases k,
{
    if k > 0 {
        let before = levels_pass(cost, rank, m, (k - 1) as nat);
        let after = levels_pass(cost, rank, m, k);
        lemma_levels_pass(cost, rank, m, (k - 1) as nat);
        assert(rank[k - 1].len() == m.task_free.len());
        lemma_level_pass(cost, rank, before, k - 1, cost.len());
        lemma_extends_transitive(m, before, after);
        assert forall|i: int, r: int| 0 <= i < k && 0 <= r < cost.len() implies #[trigger] exhausted(
            rank[i],
            after,
            r,
        ) by {
            if i < k - 1 {
                assert(exhausted(rank[i], before, r));
                lemma_exhausted_stays(rank[i], before, after, r);
            }
        }
    }
}

/// Whatever the ranks, the matching is sound: no task is given to two
/// agents, every given task is a task of the batch, and no agent holds more
/// than the one entry that the matching has for it.
pub proof fn lemma_matching_consistent(cost: Seq<Seq<nat>>, rank: Seq<Seq<nat>>, tasks: nat)
    requires
        rank.len() == cost.len(),
        has_width(rank, tasks),
    ensures
        consistent(matching(cost, rank, tasks)),
        matching(cost, rank, tasks).robot_task.len() == cost.len(),
        matching(cost, rank, tasks).task_free.len() == tasks,
{
    lemma_unmatched_consistent(cost.len(), tasks);
    lemma_levels_pass(cost, rank, unmatched(cost.len(), tasks), cost.len());
}

/// With at least as many tasks as agents, every agent is given a task
/// within the levels that are scanned.
pub proof fn lemma_enough_tasks_complete_matching(
    cost: Seq<Seq<nat>>,
    rank: Seq<Seq<nat>>,
    tasks: nat,
)
    requires
        ranks(cost, tasks, rank),
        tasks >= cost.len(),
    ensures
        complete(matching(cost, rank, tasks).robot_task),
{
    let start = unmatched(cost.len(), tasks);
    let m = matching(cost, rank, tasks);
    lemma_unmatched_consistent(cost.len(), tasks);
    lemma_levels_pass(cost, rank, start, cost.len());
    if !complete(m.robot_task) {
        let r = choose|r: int| 0 <= r < m.robot_task.len() && (#[trigger] m.robot_task[r]).is_none();
        assert forall|t: int| 0 <= t < m.task_free.len() implies !(#[trigger] m.task_free[t]) by {
            let order = column(rank, t);
            assert(is_ranking(cost, t, order));
            assert(appears(order, r as nat));
            let i = choose|i: int| 0 <= i < order.len() && #[trigger] order[i] == r as nat;
            assert(rank[i][t] == r);
            assert(exhausted(rank[i], m, r));
        }
        lemma_taken_count_full(m.task_free);
        lemma_given_count_bound(m.robot_task);
    }
}

/// With as many tasks as agents, every task is given to an agent.
pub proof fn lemma_square_matching_covers(cost: Seq<Seq<nat>>, rank: Seq<Seq<nat>>, tasks: nat)
    requires
        ranks(cost, tasks, rank),
        tasks == cost.len(),
    ensures
        forall|t: int|
            0 <= t < tasks ==> #[trigger] given_to_someone(
                matching(cost, rank, tasks).robot_task,
                t as nat,
            ),
{
    let m = matching(cost, rank, tasks);
    lemma_enough_tasks_complete_matching(cost, rank, tasks);
    lemma_matching_consistent(cost, rank, tasks);
    lemma_given_count_bound(m.robot_task);
    assert(taken_count(m.task_free) == tasks);
    lemma_all_taken(m.task_free);
    assert forall|t: int| 0 <= t < tasks implies #[trigger] given_to_someone(
        m.robot_task,
        t as nat,
    ) by {
        assert(!m.task_free[t]);
    }
}

proof fn lemma_all_taken(free: Seq<bool>)
    requires
        taken_count(free) == free.len(),
    ensures
        forall|t: int| 0 <= t < free.len() ==> !(#[trigger] free[t]),
    decreases free.len(),
{
    if free.len() > 0 {
        lemma_taken_count_bound(free.drop_last());
        lemma_all_taken(free.drop_last());
        assert forall|t: int| 0 <= t < free.len() implies !(#[trigger] free[t]) by {
            if t < free.len() - 1 {
                assert(free.drop_last()[t] == free[t]);
            }
        }
    }
}

/// Where agent `a` goes into `order`: behind every entry that does not cost
/// more than it.
spec fn insertion_point(cost: Seq<Seq<nat>>, t: int, order: Seq<nat>, a: nat) -> int
    decreases order.len(),
{
    if order.len() == 0 {
        0
    } else if cost[a as int][t] < cost[order.last() as int][t] {
        insertion_point(cost, t, order.drop_last(), a)
    } else {
        order.len() as int
    }
}

/// The first `n` agents in the order in which they are ranked for task `t`.
spec fn ranking_prefix(cost: Seq<Seq<nat>>, t: int, n: nat) -> Seq<nat>
    decreases n,
{
    if n == 0 {
        Seq::empty()
    } else {
        let earlier = ranking_prefix(cost, t, (n - 1) as nat);
        earlier.insert(insertion_point(cost, t, earlier, (n - 1) as nat), (n - 1) as nat)
    }
}

proof fn lemma_insertion_point(cost: Seq<Seq<nat>>, t: int, order: Seq<nat>, a: nat)
    ensures
        0 <= insertion_point(cost, t, order, a) <= order.len(),
        forall|j: int|
            insertion_point(cost, t, order, a) <= j < order.len() ==> cost[a as int][t]
                < cost[#[trigger] order[j] as int][t],
        insertion_point(cost, t, order, a) > 0 ==> cost[order[insertion_point(
            cost,
            t,
            order,
            a,
        ) - 1] as int][t] <= cost[a as int][t],
    decreases order.len(),
{
    if order.len() > 0 && cost[a as int][t] < cost[order.last() as int][t] {
        lemma_insertion_point(cost, t, order.drop_last(), a);
        let p = insertion_point(cost, t, order.drop_last(), a);
        assert forall|j: int| p <= j < order.len() implies cost[a as int][t] < cost[
        #[trigger] order[j] as int][t] by {
            if j < order.len() - 1 {
                assert(order.drop_last()[j] == order[j]);
            }
        }
        if p > 0 {
            assert(order.drop_last()[p - 1] == order[p - 1]);
        }
    }
}

proof fn lemma_ranking_prefix(cost: Seq<Seq<nat>>, t: int, n: nat)
    ensures
        ranking_prefix(cost, t, n).len() == n,
        forall|i: int| 0 <= i < n ==> #[trigger] ranking_prefix(cost, t, n)[i] < n,
        forall|i: int, j: int|
            0 <= i < j < n ==> precedes(
                cost,
                t,
                #[trigger] ranking_prefix(cost, t, n)[i],
                #[trigger] ranking_prefix(cost, t, n)[j],
            ),
        forall|a: nat| a < n ==> #[trigger] appears(ranking_prefix(cost, t, n), a),
    decreases n,
{
    if n > 0 {
        let a = (n - 1) as nat;
        let before = ranking_prefix(cost, t, a);
        let p = insertion_point(cost, t, before, a);
        let after = ranking_prefix(cost, t, n);
        lemma_ranking_prefix(cost, t, a);
        lemma_insertion_point(cost, t, before, a);
        assert(after == before.insert(p, a));
        assert forall|i: int| 0 <= i < n implies #[trigger] after[i] < n by {
            if i < p {
                assert(after[i] == before[i]);
            } else if i > p {
                assert(after[i] == before[i - 1]);
            }
        }
        assert forall|i: int, j: int| 0 <= i < j < n implies precedes(
            cost,
            t,
            #[trigger] after[i],
            #[trigger] after[j],
        ) by {
            if j < p {
                assert(after[i] == before[i] && after[j] == before[j]);
            } else if j == p {
                assert(after[i] == before[i]);
                assert(before[i] < a);
                if i < p - 1 {
                    assert(precedes(cost, t, before[i], before[p - 1]));
                }
            } else if i < p {
                assert(after[i] == before[i] && after[j] == before[j - 1]);
            } else if i == p {
                assert(after[j] == before[j - 1]);
            } else {
                assert(after[i] == before[i - 1] && after[j] == before[j - 1]);
            }
        }
        assert forall|b: nat| b < n implies #[trigger] appears(after, b) by {
            if b < a {
                assert(appears(before, b));
                let i = choose|i: int| 0 <= i < before.len() && #[trigger] before[i] == b;
                if i < p {
                    assert(after[i] == b);
                } else {
                    assert(after[i + 1] == b);
                }
            } else {
                assert(after[p] == b);
            }
        }
    }
}

/// Every cost matrix has a rank matrix, so [`ranking_of`] is one.
pub proof fn lemma_ranking_exists(cost: Seq<Seq<nat>>, width: nat)
    ensures
        ranks(cost, width, ranking_of(cost, width)),
{
    let n = cost.len();
    let rank = Seq::new(n, |i: int| Seq::new(width, |t: int| ranking_prefix(cost, t, n)[i]));
    assert forall|t: int| 0 <= t < width implies is_ranking(cost, t, #[trigger] column(rank, t)) by {
        lemma_ranking_prefix(cost, t, n);
        assert(column(rank, t) =~= ranking_prefix(cost, t, n));
    }
    assert(ranks(cost, width, rank));
}

/// The assignment has one entry for each agent. An entry names a task of
/// the batch, and no two entries name the same task: no task is assigned
/// to two agents, and no agent receives more than one task.
pub proof fn lemma_assignment_one_to_one(robots: Seq<Robot>, tasks: Seq<Task>)
    ensures
        assignment_of(robots, tasks).len() == robots.len(),
        forall|r: int|
            0 <= r < robots.len() && (#[trigger] assignment_of(robots, tasks)[r]).is_some()
                ==> assignment_of(robots, tasks)[r].unwrap() < tasks.len(),
        forall|r1: int, r2: int|
            0 <= r1 < robots.len() && 0 <= r2 < robots.len() && r1 != r2 && (
            #[trigger] assignment_of(robots, tasks)[r1]).is_some() && (#[trigger] assignment_of(
                robots,
                tasks,
            )[r2]).is_some() ==> assignment_of(robots, tasks)[r1].unwrap() != assignment_of(
                robots,
                tasks,
            )[r2].unwrap(),
{
    let cost = cost_values(robots, tasks);
    lemma_ranking_exists(cost, tasks.len());
    lemma_matching_consistent(cost, ranking_of(cost, tasks.len()), tasks.len());
}

/// A batch with at least as many tasks as agents leaves no agent without a
/// task, although only as many levels as there are agents are scanned.
pub proof fn lemma_enough_tasks_complete(robots: Seq<Robot>, tasks: Seq<Task>)
    requires
        tasks.len() >= robots.len(),
    ensures
        complete(assignment_of(robots, tasks)),
{
    let cost = cost_values(robots, tasks);
    lemma_ranking_exists(cost, tasks.len());
    lemma_enough_tasks_complete_matching(cost, ranking_of(cost, tasks.len()), tasks.len());
}

/// A batch with fewer tasks than agents leaves some agent without a task.
pub proof fn lemma_too_few_tasks_incomplete(robots: Seq<Robot>, tasks: Seq<Task>)
    requires
        tasks.len() < robots.len(),
    ensures
        !complete(assignment_of(robots, tasks)),
{
    let cost = cost_values(robots, tasks);
    lemma_ranking_exists(cost, tasks.len());
    let m = matching(cost, ranking_of(cost, tasks.len()), tasks.len());
    lemma_matching_consistent(cost, ranking_of(cost, tasks.len()), tasks.len());
    lemma_given_count_bound(m.robot_task);
    lemma_taken_count_bound(m.task_free);
}

/// With as many tasks as agents, every task of the batch is assigned to
/// exactly one agent.
pub proof fn lemma_equal_sizes_assign_every_task(robots: Seq<Robot>, tasks: Seq<Task>)
    requires
        tasks.len() == robots.len(),
    ensures
        forall|t: int|
            0 <= t < tasks.len() ==> #[trigger] given_to_someone(
                assignment_of(robots, tasks),
                t as nat,
            ),
        forall|r1: int, r2: int|
            0 <= r1 < robots.len() && 0 <= r2 < robots.len() && (#[trigger] assignment_of(
                robots,
                tasks,
            )[r1]).is_some() && #[trigger] assignment_of(robots, tasks)[r2] == assignment_of(
                robots,
                tasks,
            )[r1] ==> r1 == r2,
{
    let cost = cost_values(robots, tasks);
    lemma_ranking_exists(cost, tasks.len());
    lemma_square_matching_covers(cost, ranking_of(cost, tasks.len()), tasks.len());
    lemma_assignment_one_to_one(robots, tasks);
}

/// The assignment is a function of the positions alone: two fleets whose
/// agents stand at the same positions, given two batches whose tasks lie at
/// the same positions, are assigned alike.
pub proof fn lemma_assignment_deterministic(
    robots: Seq<Robot>,
    tasks: Seq<Task>,
    other_robots: Seq<Robot>,
    other_tasks: Seq<Task>,
)
    requires
        robots.len() == other_robots.len(),
        tasks.len() == other_tasks.len(),
        forall|r: int|
            0 <= r < robots.len() ==> {
                &&& (#[trigger] robots[r]).list_tasks[1].x == other_robots[r].list_tasks[1].x
                &&& robots[r].list_tasks[1].y == other_robots[r].list_tasks[1].y
                &&& robots[r].list_tasks[1].z == other_robots[r].list_tasks[1].z
            },
        forall|t: int|
            0 <= t < tasks.len() ==> {
                &&& (#[trigger] tasks[t]).x == other_tasks[t].x
                &&& tasks[t].y == other_tasks[t].y
                &&& tasks[t].z == other_tasks[t].z
            },
    ensures
        assignment_of(robots, tasks) == assignment_of(other_robots, other_tasks),
{
    assert(cost_values(robots, tasks) =~~= cost_values(other_robots, other_tasks));
}

} // verus!
