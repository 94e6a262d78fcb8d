use ark_bn254::Fr;
use ark_crypto_primitives::crh::poseidon::{TwoToOneCRH, CRH};
use ark_crypto_primitives::crh::{CRHScheme, TwoToOneCRHScheme};
use ark_crypto_primitives::sponge::poseidon::{find_poseidon_ark_and_mds, PoseidonConfig};
use ark_ff::{BigInt, PrimeField};
use skate::agent::{Circuit, UpdateResponse, UpdateVerifier};
use skate::assignment::AssignmentError;
use skate::base::BaseElement;
use skate::coordinator::{
    advance, another_round, collect_tasks, fill_batch, initial_fleet, is_taken, random_position,
    remaining_tasks, round_is_well_formed, run_round, start, update_for, witness_inputs, Input,
    InputName, Phase, Position, Progress, Round,
};
use skate::field::FieldElement;
use skate::fleet::{
    create_list_robots, create_list_tasks, create_task, is_power_length, Robot, Task,
};
use skate::hashes::{robot_root, task_root};
use skate::points::{G1Point, G2Point, ProofPoints};

fn fe(v: u64) -> FieldElement {
    FieldElement::from_u64(v)
}

fn to_fr(e: FieldElement) -> Fr {
    let l = e.to_limbs();
    Fr::from_bigint(BigInt([l.0, l.1, l.2, l.3])).unwrap()
}

fn from_fr(x: Fr) -> FieldElement {
    let l = x.into_bigint().0;
    FieldElement::from_limbs(l[0], l[1], l[2], l[3]).unwrap()
}

fn poseidon() -> PoseidonConfig<Fr> {
    let (ark, mds) = find_poseidon_ark_and_mds::<Fr>(254, 2, 8, 57, 0);
    PoseidonConfig::new(8, 57, 5, mds, ark, 2, 1)
}

fn two(cfg: &PoseidonConfig<Fr>, a: FieldElement, b: FieldElement) -> FieldElement {
    from_fr(TwoToOneCRH::<Fr>::compress(cfg, to_fr(a), to_fr(b)).unwrap())
}

fn four(
    cfg: &PoseidonConfig<Fr>,
    a: FieldElement,
    b: FieldElement,
    c: FieldElement,
    d: FieldElement,
) -> FieldElement {
    from_fr(CRH::<Fr>::evaluate(cfg, [to_fr(a), to_fr(b), to_fr(c), to_fr(d)]).unwrap())
}

fn at(x: u64, y: u64, z: u64) -> Position {
    Position { x: fe(x), y: fe(y), z: fe(z) }
}

fn task_at(id: u64, x: u64, y: u64, z: u64) -> Task {
    create_task(fe(id), [fe(x), fe(y), fe(z)])
}

fn no_proof() -> ProofPoints {
    let zero = BaseElement::zero();
    ProofPoints {
        a: G1Point { x: zero, y: zero },
        b: G2Point { x: [zero, zero], y: [zero, zero] },
        c: G1Point { x: zero, y: zero },
    }
}

#[test]
fn entered_positions_out_of_bounds_are_replaced() {
    let entered = vec![at(1, 2, 3), at(10000, 2, 3), at(4, 5, 9999)];
    let substitutes = vec![at(11, 11, 11), at(12, 12, 12), at(13, 13, 13), at(14, 14, 14)];
    let batch = fill_batch(&entered, &substitutes);
    assert_eq!(
        batch,
        vec![task_at(0, 1, 2, 3), task_at(1, 12, 12, 12), task_at(2, 4, 5, 9999), task_at(3, 14, 14, 14)]
    );
}

#[test]
fn entered_positions_beyond_the_batch_are_not_used() {
    let entered = vec![at(1, 1, 1), at(2, 2, 2)];
    assert_eq!(fill_batch(&entered, &vec![at(9, 9, 9)]), vec![task_at(0, 1, 1, 1)]);
    assert_eq!(fill_batch(&entered, &vec![]), vec![]);
}

#[test]
fn collected_batch_is_dense_and_within_bounds() {
    let entered = vec![at(1, 2, 3), at(20000, 2, 3)];
    for _ in 0..20 {
        let batch = collect_tasks(&entered, 6);
        assert_eq!(batch.len(), 6);
        assert_eq!(batch[0], task_at(0, 1, 2, 3));
        for (i, t) in batch.iter().enumerate() {
            assert_eq!(t.task_id, fe(i as u64));
            assert!(t.is_in_bounds());
        }
        assert!(random_position().is_in_bounds());
    }
    assert_eq!(collect_tasks(&entered, 0).len(), 0);
}

#[test]
fn bounds_exclude_ten_thousand() {
    assert!(at(0, 0, 0).is_in_bounds());
    assert!(at(9999, 9999, 9999).is_in_bounds());
    assert!(!at(10000, 0, 0).is_in_bounds());
    assert!(!at(0, 10000, 0).is_in_bounds());
    assert!(!at(0, 0, 10000).is_in_bounds());
    assert!(task_at(0, 9999, 0, 0).is_in_bounds());
    assert!(!task_at(0, 0, 0, 10000).is_in_bounds());
}

#[test]
fn fleet_starts_with_two_filled_slots() {
    let robots = initial_fleet(&vec![at(5, 6, 7), at(8, 9, 10)]);
    assert_eq!(robots.len(), 2);
    for (i, r) in robots.iter().enumerate() {
        assert_eq!(r.robot_id, fe(i as u64));
        assert_eq!(r.list_tasks[0], task_at(0, 0, 0, 0));
    }
    assert_eq!(robots[0].list_tasks[1], task_at(1, 5, 6, 7));
    assert_eq!(robots[1].list_tasks[1], task_at(1, 8, 9, 10));
    assert_eq!(robots[1].label(), "1");
    assert_eq!(task_at(12, 0, 0, 0).label(), "12");
}

#[test]
fn assigned_tasks_leave_the_pool_and_the_rest_is_renumbered() {
    let tasks: Vec<Task> = (0..6).map(|i| task_at(i, 100 + i, 0, 0)).collect();
    let robots: Vec<Robot> = initial_fleet(&vec![at(0, 0, 0), at(0, 0, 0), at(0, 0, 0)])
        .iter()
        .zip([4u64, 0, 2])
        .map(|(r, t)| r.advance(tasks[t as usize]))
        .collect();
    assert!(is_taken(&robots, fe(4)));
    assert!(!is_taken(&robots, fe(1)));
    let rest = remaining_tasks(&tasks, &robots);
    assert_eq!(rest, vec![task_at(0, 101, 0, 0), task_at(1, 103, 0, 0), task_at(2, 105, 0, 0)]);
    assert_eq!(remaining_tasks(&tasks, &vec![]).len(), 6);
    assert_eq!(remaining_tasks(&vec![], &robots).len(), 0);
}

#[test]
fn zero_rounds_run_none_unless_asked_to_run_forever() {
    assert!(!another_round(0, 0, false));
    assert!(another_round(0, 0, true));
    assert!(another_round(1000, 0, true));
    assert!(another_round(0, 1, false));
    assert!(!another_round(1, 1, false));
    assert!(!another_round(1, 1, true));
    assert!(another_round(2, 3, false));
    assert_eq!(start(0, false).phase, Phase::Stop);
    assert_eq!(start(0, true).phase, Phase::CollectTasks);
    assert_eq!(start(2, false).phase, Phase::CollectTasks);
}

#[test]
fn a_round_is_two_assignments_and_then_the_next_round_or_the_end() {
    let mut p = start(2, false);
    let mut seen = vec![(p.phase, p.circuit, p.rounds_done)];
    while p.phase != Phase::Stop {
        p = advance(p, 2, false);
        seen.push((p.phase, p.circuit, p.rounds_done));
    }
    let six = Circuit::SixThree;
    let three = Circuit::ThreeThree;
    assert_eq!(
        seen,
        vec![
            (Phase::CollectTasks, six, 0),
            (Phase::Assign, six, 0),
            (Phase::CommitNewRoot, six, 0),
            (Phase::Prove, six, 0),
            (Phase::Distribute, six, 0),
            (Phase::Assign, three, 0),
            (Phase::CommitNewRoot, three, 0),
            (Phase::Prove, three, 0),
            (Phase::Distribute, three, 0),
            (Phase::CollectTasks, six, 1),
            (Phase::Assign, six, 1),
            (Phase::CommitNewRoot, six, 1),
            (Phase::Prove, six, 1),
            (Phase::Distribute, six, 1),
            (Phase::Assign, three, 1),
            (Phase::CommitNewRoot, three, 1),
            (Phase::Prove, three, 1),
            (Phase::Distribute, three, 1),
            (Phase::Stop, six, 2),
        ]
    );
    assert_eq!(advance(p, 2, false), p);
    let last = Progress { phase: Phase::Distribute, circuit: three, rounds_done: usize::MAX };
    assert_eq!(advance(last, 0, true).phase, Phase::CollectTasks);
    assert_eq!(advance(last, 0, true).rounds_done, usize::MAX);
}

#[test]
fn round_commits_to_the_fleet_after_the_assignment() {
    let cfg = poseidon();
    let h2 = |a: FieldElement, b: FieldElement| two(&cfg, a, b);
    let h4 =
        |a: FieldElement, b: FieldElement, c: FieldElement, d: FieldElement| four(&cfg, a, b, c, d);
    let robots = initial_fleet(&vec![at(0, 0, 0), at(100, 100, 100), at(9000, 9000, 9000)]);
    let tasks = fill_batch(
        &vec![],
        &vec![at(8999, 9000, 9000), at(1, 1, 1), at(5000, 5, 5), at(99, 99, 99), at(7, 7000, 7), at(3, 3, 8000)],
    );
    let round = run_round(&robots, &tasks, &h2, &h4).unwrap();
    assert!(round_is_well_formed(&round));
    let chosen: Vec<u64> =
        round.robots.iter().map(|r| r.list_tasks[1].task_id.to_u64().unwrap()).collect();
    assert_eq!(chosen, vec![1, 3, 0]);
    assert_eq!(round.task_root, task_root(&tasks, &h2));
    let (root, levels) = robot_root(&round.robots, &h2, &h4);
    assert_eq!(round.robot_root, root);
    assert_eq!(round.levels, levels);

    // every agent accepts its update once the proof is taken to hold
    let (old_root, _) = robot_root(&robots, &h2, &h4);
    for i in 0..3 {
        let u = update_for(&round, i, no_proof(), Circuit::SixThree);
        assert_eq!(u.robot_root, round.robot_root);
        assert_eq!(u.task_root, round.task_root);
        assert_eq!(u.circuit, Circuit::SixThree);
        assert_eq!(u.merkle_proof.len(), 2);
        assert_eq!(u.merkle_proof.len(), skate::merkle::path_length(robots.len()));
        assert_eq!(u.task_id, round.robots[i].list_tasks[1].task_id);
        let mut v = UpdateVerifier::new(robots[i], old_root, vec![], vec![]);
        assert_eq!(v.settle(&u, true, &h2, &h4), UpdateResponse::Accepted);
        assert_eq!(v.root(), round.robot_root);
        assert_eq!(v.robot().list_tasks[1], round.robots[i].list_tasks[1]);
        // without a proof that holds, the same update is turned down
        let mut w = UpdateVerifier::new(robots[i], old_root, vec![], vec![]);
        assert_eq!(w.update(&u, &h2, &h4), UpdateResponse::ProofInvalid);
        assert_eq!(w.root(), old_root);
    }

    // second assignment of the round, over what is left
    let rest = remaining_tasks(&tasks, &round.robots);
    assert_eq!(rest.len(), 3);
    let second = run_round(&round.robots, &rest, &h2, &h4).unwrap();
    for (before, after) in round.robots.iter().zip(second.robots.iter()) {
        assert_eq!(after.list_tasks[0], before.list_tasks[1]);
    }
    assert_eq!(remaining_tasks(&rest, &second.robots).len(), 0);
}

#[test]
fn round_with_too_few_tasks_is_an_error() {
    let cfg = poseidon();
    let h2 = |a: FieldElement, b: FieldElement| two(&cfg, a, b);
    let h4 =
        |a: FieldElement, b: FieldElement, c: FieldElement, d: FieldElement| four(&cfg, a, b, c, d);
    let robots = initial_fleet(&vec![at(0, 0, 0), at(1, 1, 1), at(2, 2, 2)]);
    let tasks = fill_batch(&vec![], &vec![at(1, 1, 1), at(2, 2, 2)]);
    let e = run_round(&robots, &tasks, &h2, &h4).unwrap_err();
    assert!(matches!(e, AssignmentError::UnmatchedAgent(_)));
}

#[test]
fn prover_inputs_come_in_the_order_of_the_circuit() {
    let robots = initial_fleet(&vec![at(5, 6, 7), at(8, 9, 10)]);
    let tasks = vec![task_at(0, 1, 2, 3), task_at(1, 4, 5, 6)];
    let inputs = witness_inputs(&robots, fe(77), &tasks, fe(88));
    let values = |name: InputName| -> Vec<u64> {
        inputs.iter().filter(|i| i.name == name).map(|i| i.value.to_u64().unwrap()).collect()
    };
    assert_eq!(values(InputName::RobotsId), vec![0, 1]);
    assert_eq!(values(InputName::OldRobotsTasksId), vec![0, 1, 0, 1]);
    assert_eq!(values(InputName::OldRobotsPositions), vec![0, 0, 0, 5, 6, 7, 0, 0, 0, 8, 9, 10]);
    assert_eq!(values(InputName::OldRobotsRoot), vec![77]);
    assert_eq!(values(InputName::TasksId), vec![0, 1]);
    assert_eq!(values(InputName::TasksPositions), vec![1, 2, 3, 4, 5, 6]);
    assert_eq!(values(InputName::TasksRoot), vec![88]);
    let names: Vec<&str> = inputs.iter().map(|i| i.name.text()).collect();
    let mut order = names.clone();
    order.dedup();
    assert_eq!(
        order,
        vec![
            "robots_id",
            "old_robots_tasks_id",
            "old_robots_positions",
            "old_robots_root",
            "tasks_id",
            "tasks_positions",
            "tasks_root"
        ]
    );
    assert_eq!(inputs.len(), 2 + 4 + 12 + 1 + 2 + 6 + 1);
    assert_eq!(inputs[0], Input { name: InputName::RobotsId, value: fe(0) });
}

#[test]
fn lists_are_built_from_ordinals_and_positions() {
    let ids = vec![fe(0), fe(1)];
    let positions = vec![[fe(1), fe(2), fe(3)], [fe(4), fe(5), fe(6)]];
    assert!(is_power_length(ids.len(), 1));
    assert_eq!(
        create_list_tasks(&ids, &positions, 1),
        vec![task_at(0, 1, 2, 3), task_at(1, 4, 5, 6)]
    );
    let robots = create_list_robots(
        &ids,
        &vec![[fe(0), fe(1)], [fe(2), fe(3)]],
        &vec![
            [[fe(1), fe(1), fe(1)], [fe(2), fe(2), fe(2)]],
            [[fe(3), fe(3), fe(3)], [fe(4), fe(4), fe(4)]],
        ],
        1,
    );
    assert_eq!(robots.len(), 2);
    assert_eq!(robots[1].robot_id, fe(1));
    assert_eq!(robots[1].list_tasks[0], task_at(2, 3, 3, 3));
    assert_eq!(robots[1].list_tasks[1], task_at(3, 4, 4, 4));
}

#[test]
fn power_lengths() {
    assert!(is_power_length(1, 0));
    assert!(is_power_length(8, 3));
    assert!(!is_power_length(0, 0));
    assert!(!is_power_length(6, 3));
    assert!(!is_power_length(8, 2));
    assert!(!is_power_length(8, 4));
    assert!(!is_power_length(8, 200));
}

#[test]
fn well_formed_rounds_have_the_levels_of_their_fleet() {
    let robots = initial_fleet(&vec![at(0, 0, 0), at(1, 1, 1), at(2, 2, 2)]);
    let level = |n: u64| -> Vec<FieldElement> { (0..n).map(fe).collect() };
    let round = |levels: Vec<Vec<FieldElement>>| Round {
        robots: robots.clone(),
        robot_root: fe(0),
        levels,
        task_root: fe(0),
    };
    assert!(round_is_well_formed(&round(vec![level(4), level(2)])));
    assert!(!round_is_well_formed(&round(vec![level(2)])));
    assert!(!round_is_well_formed(&round(vec![level(8), level(4), level(2)])));
    assert!(!round_is_well_formed(&round(vec![level(4), level(3)])));
    assert!(!round_is_well_formed(&round(vec![])));
    let nobody = Round { robots: vec![], robot_root: fe(0), levels: vec![], task_root: fe(0) };
    assert!(round_is_well_formed(&nobody));
}
