use skate::codec::ParseError;
use skate::config::{read_agent, read_fleet, read_position, ConfigError, AGENT_LIMIT, COORDINATOR_LIMIT};
use skate::coordinator::{Confirmations, Position};
use skate::field::FieldElement;
use skate::fleet::create_task;

fn fe(v: u64) -> FieldElement {
    FieldElement::from_u64(v)
}

fn strings(items: &[&str]) -> Vec<String> {
    items.iter().map(|s| s.to_string()).collect()
}

#[test]
fn coordinator_lets_agents_start_at_ten_thousand() {
    assert_eq!(COORDINATOR_LIMIT, 10000);
    assert_eq!(AGENT_LIMIT, 9999);
    let positions = read_fleet(
        3,
        &strings(&["0", "100", "10000"]),
        &strings(&["0", "100", "10000"]),
        &strings(&["0", "100", "10000"]),
        6,
        3,
        6,
    )
    .unwrap();
    assert_eq!(
        positions,
        vec![
            Position { x: fe(0), y: fe(0), z: fe(0) },
            Position { x: fe(100), y: fe(100), z: fe(100) },
            Position { x: fe(10000), y: fe(10000), z: fe(10000) },
        ]
    );
}

#[test]
fn faults_of_a_fleet_configuration() {
    let x = strings(&["1", "2", "3"]);
    assert_eq!(read_fleet(2, &x, &x, &x, 0, 3, 6), Err(ConfigError::FleetSize));
    assert_eq!(read_fleet(3, &strings(&["1"]), &x, &x, 0, 3, 6), Err(ConfigError::FleetSize));
    assert_eq!(read_fleet(3, &x, &x, &strings(&[]), 0, 3, 6), Err(ConfigError::FleetSize));
    assert_eq!(read_fleet(3, &x, &x, &x, 7, 3, 6), Err(ConfigError::ManualChoices));
    assert!(read_fleet(3, &x, &x, &x, 6, 3, 6).is_ok());
    assert_eq!(
        read_fleet(3, &x, &strings(&["1", "10001", "3"]), &x, 0, 3, 6),
        Err(ConfigError::OutOfBounds)
    );
    assert_eq!(
        read_fleet(3, &x, &x, &strings(&["1", "2", "three"]), 0, 3, 6),
        Err(ConfigError::Number(ParseError::InvalidDigit))
    );
    // the earlier agent's fault is the one that is told
    assert_eq!(
        read_fleet(3, &strings(&["99999", "", "3"]), &x, &x, 0, 3, 6),
        Err(ConfigError::OutOfBounds)
    );
    // the size is looked at first
    assert_eq!(read_fleet(3, &strings(&["x"]), &x, &x, 9, 3, 6), Err(ConfigError::FleetSize));
    assert_eq!(read_fleet(0, &vec![], &vec![], &vec![], 0, 0, 0), Ok(vec![]));
}

#[test]
fn position_is_read_number_by_number() {
    assert_eq!(read_position("1", "2", "3", 5), Ok(Position { x: fe(1), y: fe(2), z: fe(3) }));
    assert_eq!(read_position("5", "5", "5", 5), Ok(Position { x: fe(5), y: fe(5), z: fe(5) }));
    assert_eq!(read_position("6", "5", "5", 5), Err(ConfigError::OutOfBounds));
    assert_eq!(read_position("5", "5", "6", 5), Err(ConfigError::OutOfBounds));
    assert_eq!(read_position("7", "", "5", 5), Err(ConfigError::Number(ParseError::Empty)));
    assert_eq!(read_position("07", "", "5", 5), Err(ConfigError::Number(ParseError::LeadingZero)));
}

#[test]
fn agent_starts_from_its_configuration() {
    let (robot, root) = read_agent("2", "123456789", "10", "20", "9999").unwrap();
    assert_eq!(robot.robot_id, fe(2));
    assert_eq!(root, fe(123456789));
    assert_eq!(robot.list_tasks[0], create_task(fe(0), [fe(0), fe(0), fe(0)]));
    assert_eq!(robot.list_tasks[1], create_task(fe(1), [fe(10), fe(20), fe(9999)]));
}

#[test]
fn faults_of_an_agent_configuration() {
    assert_eq!(read_agent("2", "1", "10", "20", "10000").unwrap_err(), ConfigError::OutOfBounds);
    assert_eq!(
        read_agent("", "1", "10", "20", "10000").unwrap_err(),
        ConfigError::Number(ParseError::Empty)
    );
    assert_eq!(
        read_agent("2", "0x1", "50000", "20", "30").unwrap_err(),
        ConfigError::Number(ParseError::InvalidDigit)
    );
    assert_eq!(
        read_agent(
            "2",
            "21888242871839275222246405745257275088548364400416034343698204186575808495617",
            "1",
            "2",
            "3"
        )
        .unwrap_err(),
        ConfigError::Number(ParseError::OutOfRange)
    );
}

#[test]
fn confirmations_follow_the_answers() {
    let mut c = Confirmations::new(3, fe(1));
    assert_eq!(c.len(), 3);
    assert!(c.all_at(fe(1)));
    c.record(0, true, fe(2));
    c.record(1, false, fe(2));
    c.record(7, true, fe(2));
    assert_eq!(c.confirmed(0), Some(fe(2)));
    assert_eq!(c.confirmed(1), Some(fe(1)));
    assert_eq!(c.confirmed(2), Some(fe(1)));
    assert_eq!(c.confirmed(3), None);
    assert!(!c.all_at(fe(2)));
    assert!(!c.all_at(fe(1)));
    c.record(1, true, fe(2));
    c.record(2, true, fe(2));
    assert!(c.all_at(fe(2)));
    assert!(Confirmations::new(0, fe(1)).all_at(fe(5)));
}
