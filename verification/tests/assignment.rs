use skate::assignment::{
    assign, cost_matrix, distance, rank_column, rank_matrix, skate, task_choice, AssignmentError,
};
use skate::field::FieldElement;
use skate::fleet::{create_robot, create_task, Robot, Task};

fn fe(v: u64) -> FieldElement {
    FieldElement::from_u64(v)
}

fn task_at(id: u64, x: u64, y: u64, z: u64) -> Task {
    create_task(fe(id), [fe(x), fe(y), fe(z)])
}

fn robot_at(id: u64, x: u64, y: u64, z: u64) -> Robot {
    create_robot(fe(id), [fe(0), fe(1)], [[fe(0), fe(0), fe(0)], [fe(x), fe(y), fe(z)]])
}

fn costs(rows: &[&[u64]]) -> Vec<Vec<FieldElement>> {
    rows.iter().map(|r| r.iter().map(|v| fe(*v)).collect()).collect()
}

fn targets(robots: &[Robot]) -> Vec<u64> {
    robots.iter().map(|r| r.list_tasks[1].task_id.to_u64().unwrap()).collect()
}

#[test]
fn nearest_neighbour_pairing_of_three() {
    let robots =
        vec![robot_at(0, 0, 0, 0), robot_at(1, 100, 100, 100), robot_at(2, 10000, 10000, 10000)];
    let tasks = vec![task_at(0, 1, 1, 1), task_at(1, 99, 99, 99), task_at(2, 9999, 9999, 9999)];
    let moved = skate(&robots, &tasks).unwrap();
    assert_eq!(moved.len(), 3);
    for i in 0..3 {
        assert_eq!(moved[i].robot_id, robots[i].robot_id);
        assert_eq!(moved[i].list_tasks[0], robots[i].list_tasks[1]);
        assert_eq!(moved[i].list_tasks[1], tasks[i]);
    }
}

#[test]
fn cost_is_squared_distance() {
    let robots = vec![robot_at(0, 10, 20, 30)];
    let tasks = vec![task_at(0, 13, 16, 30), task_at(1, 0, 0, 0)];
    let cost = cost_matrix(&robots, &tasks);
    assert_eq!(cost.len(), 1);
    assert_eq!(cost[0], vec![fe(9 + 16), fe(100 + 400 + 900)]);
}

#[test]
fn distance_does_not_depend_on_direction() {
    let near = task_at(0, 7, 0, 9999);
    let far = robot_at(0, 9999, 3, 0);
    let d = distance(&near, &far);
    assert_eq!(d, fe(9992 * 9992 + 9 + 9999 * 9999));
    let swapped = distance(&task_at(0, 9999, 3, 0), &robot_at(0, 7, 0, 9999));
    assert_eq!(d, swapped);
}

#[test]
fn largest_cost_within_bounds() {
    let d = distance(&task_at(0, 9999, 9999, 9999), &robot_at(0, 0, 0, 0));
    assert_eq!(d, fe(3 * 9999 * 9999));
}

#[test]
fn too_few_tasks_is_reported() {
    let robots = vec![robot_at(0, 0, 0, 0), robot_at(1, 5, 5, 5)];
    let tasks = vec![task_at(0, 4, 4, 4)];
    assert_eq!(skate(&robots, &tasks).unwrap_err(), AssignmentError::UnmatchedAgent(0));
}

#[test]
fn no_tasks_for_one_agent_is_reported() {
    let robots = vec![robot_at(0, 0, 0, 0)];
    assert_eq!(skate(&robots, &vec![]).unwrap_err(), AssignmentError::UnmatchedAgent(0));
}

#[test]
fn empty_fleet_is_assigned_nothing() {
    let tasks = vec![task_at(0, 4, 4, 4)];
    assert_eq!(skate(&vec![], &tasks).unwrap().len(), 0);
}

#[test]
fn ranking_is_stable_for_equal_costs() {
    // costs of the one task for agents 0..4: 2, 2, 1, 2
    let cost = costs(&[&[2], &[2], &[1], &[2]]);
    assert_eq!(rank_column(&cost, 0), vec![2, 0, 1, 3]);
}

#[test]
fn rank_matrix_lists_agents_by_cost_for_each_task() {
    let cost = costs(&[&[5, 1, 7], &[3, 1, 9], &[4, 0, 8]]);
    let rank = rank_matrix(&cost, 3);
    // task 0: agents 1, 2, 0; task 1: agents 2, 0, 1; task 2: agents 0, 2, 1
    assert_eq!(rank, vec![vec![1, 2, 0], vec![2, 0, 2], vec![0, 1, 1]]);
}

#[test]
fn task_choice_takes_the_cheapest_eligible_task() {
    let rank = vec![1, 0, 1, 1];
    let available = vec![true, true, false, true];
    let cost: Vec<FieldElement> = vec![fe(9), fe(1), fe(2), fe(4)];
    assert_eq!(task_choice(&rank, &available, 1, &cost), Some(3));
    assert_eq!(task_choice(&rank, &available, 0, &cost), Some(1));
    assert_eq!(task_choice(&rank, &available, 2, &cost), None);
}

#[test]
fn task_choice_takes_the_last_of_equally_cheap_tasks() {
    let rank = vec![0, 0, 0];
    let available = vec![true, true, true];
    let cost: Vec<FieldElement> = vec![fe(3), fe(3), fe(5)];
    assert_eq!(task_choice(&rank, &available, 0, &cost), Some(1));
}

#[test]
fn agent_that_loses_its_nearest_task_takes_one_at_a_later_level() {
    // Both agents are closest to task 0; agent 0 is closer.
    let robots = vec![robot_at(0, 0, 0, 0), robot_at(1, 10, 0, 0)];
    let tasks = vec![task_at(0, 4, 0, 0), task_at(1, 100, 0, 0)];
    let moved = skate(&robots, &tasks).unwrap();
    assert_eq!(targets(&moved), vec![0, 1]);
}

#[test]
fn six_tasks_for_three_agents_gives_each_agent_its_own_task() {
    let robots = vec![robot_at(0, 0, 0, 0), robot_at(1, 500, 500, 500), robot_at(2, 900, 0, 0)];
    let tasks = vec![
        task_at(0, 890, 1, 1),
        task_at(1, 1, 2, 3),
        task_at(2, 5000, 5000, 5000),
        task_at(3, 499, 499, 499),
        task_at(4, 9000, 1, 1),
        task_at(5, 30, 30, 30),
    ];
    let moved = skate(&robots, &tasks).unwrap();
    let mut chosen = targets(&moved);
    assert_eq!(chosen, vec![1, 3, 0]);
    chosen.sort();
    chosen.dedup();
    assert_eq!(chosen.len(), 3);
    for r in &moved {
        let t = r.list_tasks[1].task_id.to_u64().unwrap() as usize;
        assert_eq!(r.list_tasks[1].x, tasks[t].x);
        assert_eq!(r.list_tasks[1].y, tasks[t].y);
        assert_eq!(r.list_tasks[1].z, tasks[t].z);
    }
}

#[test]
fn equal_sizes_assign_every_task_once() {
    let robots: Vec<Robot> = (0..5).map(|i| robot_at(i, 7 * i * i % 100, 3 * i, 50)).collect();
    let tasks: Vec<Task> = (0..5).map(|i| task_at(i, 11 * i % 40, 90 - i, 5 * i)).collect();
    let moved = skate(&robots, &tasks).unwrap();
    let mut chosen = targets(&moved);
    chosen.sort();
    assert_eq!(chosen, vec![0, 1, 2, 3, 4]);
}

#[test]
fn same_positions_give_the_same_assignment() {
    let robots = vec![robot_at(0, 3, 4, 5), robot_at(1, 300, 40, 5), robot_at(2, 30, 400, 50)];
    let tasks = vec![task_at(0, 31, 399, 50), task_at(1, 2, 2, 2), task_at(2, 299, 41, 6)];
    let first = skate(&robots, &tasks).unwrap();
    let second = skate(&robots.clone(), &tasks.clone()).unwrap();
    assert_eq!(targets(&first), targets(&second));
    // other identifiers and histories, same positions
    let others: Vec<Robot> = robots
        .iter()
        .map(|r| {
            let here = r.list_tasks[1];
            create_robot(
                fe(77),
                [fe(5), fe(6)],
                [[fe(9), fe(9), fe(9)], [here.x, here.y, here.z]],
            )
        })
        .collect();
    assert_eq!(targets(&skate(&others, &tasks).unwrap()), targets(&first));
}

#[test]
fn assigned_task_carries_its_index_as_ordinal() {
    let robots = vec![robot_at(0, 0, 0, 0)];
    let tasks = vec![task_at(40, 9, 9, 9), task_at(41, 1, 1, 1)];
    let moved = skate(&robots, &tasks).unwrap();
    assert_eq!(moved[0].list_tasks[1], task_at(1, 1, 1, 1));
}

#[test]
fn assign_leaves_an_agent_without_task_when_tasks_run_out() {
    let cost = costs(&[&[1], &[2]]);
    let rank = rank_matrix(&cost, 1);
    assert_eq!(assign(&rank, &cost, 1), vec![Some(0), None]);
}
