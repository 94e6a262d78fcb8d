use ark_bn254::{Bn254, Fq, Fr, G1Affine, G2Affine};
use ark_crypto_primitives::crh::poseidon::{TwoToOneCRH, CRH};
use ark_crypto_primitives::crh::{CRHScheme, TwoToOneCRHScheme};
use ark_crypto_primitives::snark::SNARK;
use ark_crypto_primitives::sponge::poseidon::{find_poseidon_ark_and_mds, PoseidonConfig};
use ark_ec::AffineRepr;
use ark_ff::{BigInt, PrimeField};
use ark_groth16::{Groth16, Proof, VerifyingKey};
use ark_relations::r1cs::{
    ConstraintSynthesizer, ConstraintSystemRef, LinearCombination, SynthesisError,
};
use ark_serialize::CanonicalSerialize;
use ark_std::rand::rngs::StdRng;
use ark_std::rand::SeedableRng;
use skate::agent::{Circuit, Update, UpdateResponse, UpdateVerifier};
use skate::base::BaseElement;
use skate::codec::parse_base;
use skate::field::FieldElement;
use skate::fleet::{create_robot, create_task, Robot};
use skate::groth::proof_accepted;
use skate::hashes::{get_merkle_proof_from_id, robot_root};
use skate::keys::{read_verifying_key, KeyText};
use skate::points::{to_g1, to_g2, write_key, write_proof, G1Point, G2Point, ProofPoints};

fn fe(v: u64) -> FieldElement {
    FieldElement::from_u64(v)
}

fn to_fr(e: FieldElement) -> Fr {
    let l = e.to_limbs();
    Fr::from_bigint(BigInt([l.0, l.1, l.2, l.3])).unwrap()
}

fn from_fr(x: Fr) -> FieldElement {
    let l = x.into_bigint().0;
    FieldElement::from_limbs(l[0], l[1], l[2], l[3]).unwrap()
}

fn base(x: Fq) -> BaseElement {
    parse_base(&x.into_bigint().to_string()).unwrap()
}

fn g1(p: &G1Affine) -> G1Point {
    G1Point { x: base(p.x), y: base(p.y) }
}

fn g2(p: &G2Affine) -> G2Point {
    G2Point { x: [base(p.x.c0), base(p.x.c1)], y: [base(p.y.c0), base(p.y.c1)] }
}

fn g1_text(p: &G1Affine) -> Vec<String> {
    vec![p.x.into_bigint().to_string(), p.y.into_bigint().to_string(), "1".to_string()]
}

fn g2_text(p: &G2Affine) -> Vec<Vec<String>> {
    vec![
        vec![p.x.c0.into_bigint().to_string(), p.x.c1.into_bigint().to_string()],
        vec![p.y.c0.into_bigint().to_string(), p.y.c1.into_bigint().to_string()],
        vec!["1".to_string(), "0".to_string()],
    ]
}

fn key_text(vk: &VerifyingKey<Bn254>) -> KeyText {
    KeyText {
        vk_alpha_1: g1_text(&vk.alpha_g1),
        vk_beta_2: g2_text(&vk.beta_g2),
        vk_gamma_2: g2_text(&vk.gamma_g2),
        vk_delta_2: g2_text(&vk.delta_g2),
        ic: vk.gamma_abc_g1.iter().map(g1_text).collect(),
    }
}

fn points(proof: &Proof<Bn254>) -> ProofPoints {
    ProofPoints { a: g1(&proof.a), b: g2(&proof.b), c: g1(&proof.c) }
}

fn poseidon() -> PoseidonConfig<Fr> {
    let (ark, mds) = find_poseidon_ark_and_mds::<Fr>(254, 2, 8, 57, 0);
    PoseidonConfig::new(8, 57, 5, mds, ark, 2, 1)
}

fn two(cfg: &PoseidonConfig<Fr>, a: FieldElement, b: FieldElement) -> FieldElement {
    from_fr(TwoToOneCRH::<Fr>::compress(cfg, to_fr(a), to_fr(b)).unwrap())
}

fn four(
    cfg: &PoseidonConfig<Fr>,
    a: FieldElement,
    b: FieldElement,
    c: FieldElement,
    d: FieldElement,
) -> FieldElement {
    from_fr(CRH::<Fr>::evaluate(cfg, [to_fr(a), to_fr(b), to_fr(c), to_fr(d)]).unwrap())
}

/// A statement with three public inputs: the prover knows `w` with
/// `x0 * x1 = w - x2`.
#[derive(Clone)]
struct Statement {
    x: [Fr; 3],
    w: Fr,
}

impl Statement {
    fn about(x: [Fr; 3]) -> Statement {
        Statement { x, w: x[0] * x[1] + x[2] }
    }
}

impl ConstraintSynthesizer<Fr> for Statement {
    fn generate_constraints(self, cs: ConstraintSystemRef<Fr>) -> Result<(), SynthesisError> {
        let x0 = cs.new_input_variable(|| Ok(self.x[0]))?;
        let x1 = cs.new_input_variable(|| Ok(self.x[1]))?;
        let x2 = cs.new_input_variable(|| Ok(self.x[2]))?;
        let w = cs.new_witness_variable(|| Ok(self.w))?;
        cs.enforce_constraint(
            LinearCombination::from(x0),
            LinearCombination::from(x1),
            LinearCombination::from(w) - x2,
        )
    }
}

struct Setting {
    cfg: PoseidonConfig<Fr>,
    before: Vec<Robot>,
    after: Vec<Robot>,
    old_root: FieldElement,
    new_root: FieldElement,
    task_root: FieldElement,
    levels: Vec<Vec<FieldElement>>,
    key: Vec<u8>,
    proof: ProofPoints,
}

fn fleet_before() -> Vec<Robot> {
    (0..3u64)
        .map(|i| {
            create_robot(fe(i), [fe(0), fe(1)], [[fe(0), fe(0), fe(0)], [fe(10 * i), fe(5), fe(7)]])
        })
        .collect()
}

fn setting() -> Setting {
    let cfg = poseidon();
    let before = fleet_before();
    let after: Vec<Robot> = before
        .iter()
        .enumerate()
        .map(|(i, r)| {
            r.advance(create_task(fe(i as u64), [fe(100 + i as u64), fe(200), fe(300)]))
        })
        .collect();
    let (old_root, new_root, levels) = {
        let h2 = |a: FieldElement, b: FieldElement| two(&cfg, a, b);
        let h4 = |a: FieldElement, b: FieldElement, c: FieldElement, d: FieldElement| {
            four(&cfg, a, b, c, d)
        };
        let (old_root, _) = robot_root(&before, &h2, &h4);
        let (new_root, levels) = robot_root(&after, &h2, &h4);
        (old_root, new_root, levels)
    };
    let task_root = fe(424242);
    let x = [to_fr(new_root), to_fr(old_root), to_fr(task_root)];
    let mut rng = StdRng::seed_from_u64(7);
    let (pk, vk) = Groth16::<Bn254>::circuit_specific_setup(Statement::about(x), &mut rng).unwrap();
    let proof = Groth16::<Bn254>::prove(&pk, Statement::about(x), &mut rng).unwrap();
    assert!(Groth16::<Bn254>::verify(&vk, &x, &proof).unwrap());
    let key = write_key(&read_verifying_key(&key_text(&vk), 4).unwrap());
    Setting {
        cfg,
        before,
        after,
        old_root,
        new_root,
        task_root,
        levels,
        key,
        proof: points(&proof),
    }
}

fn update_for_agent(s: &Setting, i: usize) -> Update {
    let task = s.after[i].list_tasks[1];
    Update {
        robot_root: s.new_root,
        task_root: s.task_root,
        circuit: Circuit::SixThree,
        proof: s.proof,
        task_id: task.task_id,
        x: task.x,
        y: task.y,
        z: task.z,
        merkle_proof: get_merkle_proof_from_id(fe(i as u64), &s.levels),
    }
}

fn agent(s: &Setting, i: usize) -> UpdateVerifier {
    UpdateVerifier::new(s.before[i], s.old_root, s.key.clone(), s.key.clone())
}

#[test]
fn key_and_proof_are_laid_out_as_the_proof_system_reads_them() {
    let mut rng = StdRng::seed_from_u64(11);
    let x = [Fr::from(3u64), Fr::from(4u64), Fr::from(5u64)];
    let (pk, vk) = Groth16::<Bn254>::circuit_specific_setup(Statement::about(x), &mut rng).unwrap();
    let proof = Groth16::<Bn254>::prove(&pk, Statement::about(x), &mut rng).unwrap();

    let mut expected = Vec::new();
    proof.serialize_uncompressed(&mut expected).unwrap();
    assert_eq!(write_proof(&points(&proof)), expected);

    let mut expected = Vec::new();
    vk.serialize_uncompressed(&mut expected).unwrap();
    assert_eq!(write_key(&read_verifying_key(&key_text(&vk), 4).unwrap()), expected);

    let mut expected = Vec::new();
    vk.alpha_g1.serialize_uncompressed(&mut expected).unwrap();
    assert_eq!(to_g1(&g1(&vk.alpha_g1)), expected);
    let mut expected = Vec::new();
    vk.beta_g2.serialize_uncompressed(&mut expected).unwrap();
    assert_eq!(to_g2(&g2(&vk.beta_g2)), expected);
}

#[test]
fn zero_coordinates_are_the_point_at_infinity() {
    let zero = BaseElement::zero();
    let mut expected = Vec::new();
    G1Affine::identity().serialize_uncompressed(&mut expected).unwrap();
    assert_eq!(to_g1(&G1Point { x: zero, y: zero }), expected);
    assert_eq!(expected[63], 0x40);
    let mut expected = Vec::new();
    G2Affine::identity().serialize_uncompressed(&mut expected).unwrap();
    assert_eq!(to_g2(&G2Point { x: [zero, zero], y: [zero, zero] }), expected);
    // one non-zero coordinate is enough for a finite point
    let one = BaseElement::from_u64(1);
    assert_eq!(to_g1(&G1Point { x: zero, y: one })[63], 0);
    assert_eq!(to_g1(&G1Point { x: zero, y: one })[32], 1);
}

#[test]
fn a_proof_is_accepted_for_its_inputs_only() {
    let s = setting();
    let proof = write_proof(&s.proof);
    let inputs = vec![s.new_root, s.old_root, s.task_root];
    assert!(proof_accepted(&s.key, &inputs, &proof));
    let stale = vec![s.new_root, s.new_root, s.task_root];
    assert!(!proof_accepted(&s.key, &stale, &proof));
    let other_order = vec![s.old_root, s.new_root, s.task_root];
    assert!(!proof_accepted(&s.key, &other_order, &proof));
    // too few inputs for the key, or bytes that are no key or no proof
    assert!(!proof_accepted(&s.key, &vec![s.new_root], &proof));
    assert!(!proof_accepted(&vec![1, 2, 3], &inputs, &proof));
    assert!(!proof_accepted(&s.key, &inputs, &vec![0u8; 256]));
    assert!(!proof_accepted(&s.key, &inputs, &vec![]));
}

#[test]
fn valid_update_commits_once_and_advances_the_root() {
    let s = setting();
    let h2 = |a: FieldElement, b: FieldElement| two(&s.cfg, a, b);
    let h4 =
        |a: FieldElement, b: FieldElement, c: FieldElement, d: FieldElement| four(&s.cfg, a, b, c, d);
    for i in 0..3 {
        let mut v = agent(&s, i);
        let u = update_for_agent(&s, i);
        assert_eq!(v.inputs(&u), vec![s.new_root, s.old_root, s.task_root]);
        assert_eq!(v.update(&u, &h2, &h4), UpdateResponse::Accepted);
        assert_eq!(v.root(), s.new_root);
        assert_eq!(v.robot().robot_id, s.before[i].robot_id);
        assert_eq!(v.robot().list_tasks[0], s.before[i].list_tasks[1]);
        assert_eq!(v.robot().list_tasks[1], s.after[i].list_tasks[1]);
    }
}

#[test]
fn replayed_update_is_rejected_and_not_committed_again() {
    let s = setting();
    let h2 = |a: FieldElement, b: FieldElement| two(&s.cfg, a, b);
    let h4 =
        |a: FieldElement, b: FieldElement, c: FieldElement, d: FieldElement| four(&s.cfg, a, b, c, d);
    let mut v = agent(&s, 1);
    let u = update_for_agent(&s, 1);
    assert_eq!(v.update(&u, &h2, &h4), UpdateResponse::Accepted);
    let committed = v.robot();
    assert_eq!(v.inputs(&u), vec![s.new_root, s.new_root, s.task_root]);
    let again = v.update(&u, &h2, &h4);
    assert!(again == UpdateResponse::ProofInvalid || again == UpdateResponse::BothInvalid);
    assert!(!again.is_success());
    assert_eq!(v.root(), s.new_root);
    assert_eq!(v.robot().list_tasks[0], committed.list_tasks[0]);
    assert_eq!(v.robot().list_tasks[1], committed.list_tasks[1]);
}

#[test]
fn corrupted_proof_is_told_from_corrupted_path() {
    let s = setting();
    let h2 = |a: FieldElement, b: FieldElement| two(&s.cfg, a, b);
    let h4 =
        |a: FieldElement, b: FieldElement, c: FieldElement, d: FieldElement| four(&s.cfg, a, b, c, d);
    let good = update_for_agent(&s, 2);

    let mut bad_proof = good.clone();
    bad_proof.proof.c = bad_proof.proof.a;
    let mut v = agent(&s, 2);
    assert_eq!(v.update(&bad_proof, &h2, &h4), UpdateResponse::ProofInvalid);
    assert_eq!(v.root(), s.old_root);
    assert_eq!(v.robot().list_tasks[1], s.before[2].list_tasks[1]);

    let mut bad_coordinate = good.clone();
    bad_coordinate.proof.a.x = BaseElement::from_u64(5);
    assert_eq!(v.update(&bad_coordinate, &h2, &h4), UpdateResponse::ProofInvalid);

    let mut bad_path = good.clone();
    bad_path.merkle_proof[0] = fe(1);
    assert_eq!(v.update(&bad_path, &h2, &h4), UpdateResponse::InclusionInvalid);
    assert_eq!(v.root(), s.old_root);

    let mut bad_task = good.clone();
    bad_task.x = fe(1);
    assert_eq!(v.update(&bad_task, &h2, &h4), UpdateResponse::InclusionInvalid);

    let mut short_path = good.clone();
    short_path.merkle_proof.pop();
    assert_eq!(v.update(&short_path, &h2, &h4), UpdateResponse::InclusionInvalid);

    let mut bad_both = good.clone();
    bad_both.proof.c = bad_both.proof.a;
    bad_both.merkle_proof[1] = fe(1);
    assert_eq!(v.update(&bad_both, &h2, &h4), UpdateResponse::BothInvalid);
    assert_eq!(v.root(), s.old_root);

    // a claimed root that the proof was not made for fails both checks
    let mut other_root = good.clone();
    other_root.robot_root = fe(12);
    assert_eq!(v.update(&other_root, &h2, &h4), UpdateResponse::BothInvalid);

    // after all the rejections the good update still goes through
    assert_eq!(v.update(&good, &h2, &h4), UpdateResponse::Accepted);
    assert_eq!(v.root(), s.new_root);
}

#[test]
fn update_for_another_agent_is_not_accepted() {
    let s = setting();
    let h2 = |a: FieldElement, b: FieldElement| two(&s.cfg, a, b);
    let h4 =
        |a: FieldElement, b: FieldElement, c: FieldElement, d: FieldElement| four(&s.cfg, a, b, c, d);
    let mut v = agent(&s, 0);
    assert_eq!(v.update(&update_for_agent(&s, 1), &h2, &h4), UpdateResponse::InclusionInvalid);
    assert_eq!(v.root(), s.old_root);
}

#[test]
fn the_key_of_the_named_circuit_is_used() {
    let s = setting();
    let h2 = |a: FieldElement, b: FieldElement| two(&s.cfg, a, b);
    let h4 =
        |a: FieldElement, b: FieldElement, c: FieldElement, d: FieldElement| four(&s.cfg, a, b, c, d);
    let mut v = UpdateVerifier::new(s.before[0], s.old_root, s.key.clone(), vec![9, 9, 9]);
    let mut u = update_for_agent(&s, 0);
    u.circuit = Circuit::ThreeThree;
    assert_eq!(v.update(&u, &h2, &h4), UpdateResponse::ProofInvalid);
    u.circuit = Circuit::SixThree;
    assert_eq!(v.update(&u, &h2, &h4), UpdateResponse::Accepted);
}

#[test]
fn settle_commits_if_and_only_if_both_checks_hold() {
    let s = setting();
    let h2 = |a: FieldElement, b: FieldElement| two(&s.cfg, a, b);
    let h4 =
        |a: FieldElement, b: FieldElement, c: FieldElement, d: FieldElement| four(&s.cfg, a, b, c, d);
    let good = update_for_agent(&s, 0);
    let mut bad = good.clone();
    bad.merkle_proof[0] = fe(3);

    let mut v = agent(&s, 0);
    assert_eq!(v.settle(&good, false, &h2, &h4), UpdateResponse::ProofInvalid);
    assert_eq!(v.root(), s.old_root);
    assert_eq!(v.settle(&bad, true, &h2, &h4), UpdateResponse::InclusionInvalid);
    assert_eq!(v.root(), s.old_root);
    assert_eq!(v.settle(&bad, false, &h2, &h4), UpdateResponse::BothInvalid);
    assert_eq!(v.root(), s.old_root);
    assert_eq!(v.robot().list_tasks[1], s.before[0].list_tasks[1]);
    assert_eq!(v.settle(&good, true, &h2, &h4), UpdateResponse::Accepted);
    assert_eq!(v.root(), s.new_root);
    assert_eq!(v.robot().list_tasks[1], s.after[0].list_tasks[1]);
}

#[test]
fn answers_read_differently() {
    assert_eq!(UpdateResponse::Accepted.message(), "OK");
    assert_eq!(UpdateResponse::ProofInvalid.message(), "Zk Proof is incorrect");
    assert_eq!(UpdateResponse::InclusionInvalid.message(), "Merkle Proof is incorrect");
    assert_eq!(
        UpdateResponse::BothInvalid.message(),
        "Zk Proof and Merkle Proof are incorrect"
    );
    assert_eq!(UpdateResponse::Accepted.status(), 200);
    assert_eq!(UpdateResponse::ProofInvalid.status(), 500);
    assert_eq!(UpdateResponse::InclusionInvalid.status(), 500);
    assert_eq!(UpdateResponse::BothInvalid.status(), 500);
    assert!(UpdateResponse::Accepted.is_success());
    assert!(!UpdateResponse::ProofInvalid.is_success());
    assert!(!UpdateResponse::InclusionInvalid.is_success());
    assert!(!UpdateResponse::BothInvalid.is_success());
}

#[test]
fn circuits_are_named_by_their_tags() {
    assert_eq!(Circuit::from_tag("6_3"), Circuit::SixThree);
    assert_eq!(Circuit::from_tag("3_3"), Circuit::ThreeThree);
    assert_eq!(Circuit::from_tag(""), Circuit::ThreeThree);
    assert_eq!(Circuit::from_tag("6_33"), Circuit::ThreeThree);
    assert_eq!(Circuit::SixThree.tag(), "6_3");
    assert_eq!(Circuit::ThreeThree.tag(), "3_3");
}
