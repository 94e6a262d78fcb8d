use skate::base::BaseElement;
use skate::codec::{
    base_to_string, field_to_string, limbs_to_string, parse_base, parse_field, parse_limbs,
    ParseError,
};
use skate::field::FieldElement;

const R: &str = "21888242871839275222246405745257275088548364400416034343698204186575808495617";
const R_MINUS_ONE: &str =
    "21888242871839275222246405745257275088548364400416034343698204186575808495616";
const Q: &str = "21888242871839275222246405745257275088696311157297823662689037894645226208583";
const Q_MINUS_ONE: &str =
    "21888242871839275222246405745257275088696311157297823662689037894645226208582";
const TWO_256: &str =
    "115792089237316195423570985008687907853269984665640564039457584007913129639936";
const TWO_256_MINUS_ONE: &str =
    "115792089237316195423570985008687907853269984665640564039457584007913129639935";

#[test]
fn small_numbers_parse_to_their_value() {
    assert_eq!(parse_field("0"), Ok(FieldElement::from_u64(0)));
    assert_eq!(parse_field("7"), Ok(FieldElement::from_u64(7)));
    assert_eq!(parse_field("10000"), Ok(FieldElement::from_u64(10000)));
    assert_eq!(parse_field("18446744073709551615"), Ok(FieldElement::from_u64(u64::MAX)));
    assert_eq!(parse_base("42"), Ok(BaseElement::from_u64(42)));
}

#[test]
fn limbs_are_little_endian() {
    assert_eq!(parse_limbs("18446744073709551616"), Ok((0, 1, 0, 0)));
    assert_eq!(parse_limbs("340282366920938463463374607431768211456"), Ok((0, 0, 1, 0)));
    assert_eq!(parse_limbs("340282366920938463463374607431768211461"), Ok((5, 0, 1, 0)));
    assert_eq!(parse_limbs(TWO_256_MINUS_ONE), Ok((u64::MAX, u64::MAX, u64::MAX, u64::MAX)));
    assert_eq!(
        parse_field(R_MINUS_ONE).unwrap().to_limbs(),
        (0x43e1f593f0000000, 0x2833e84879b97091, 0xb85045b68181585d, 0x30644e72e131a029)
    );
}

#[test]
fn each_fault_has_its_own_error() {
    assert_eq!(parse_field(""), Err(ParseError::Empty));
    assert_eq!(parse_field("12a"), Err(ParseError::InvalidDigit));
    assert_eq!(parse_field("-1"), Err(ParseError::InvalidDigit));
    assert_eq!(parse_field("+1"), Err(ParseError::InvalidDigit));
    assert_eq!(parse_field(" 1"), Err(ParseError::InvalidDigit));
    assert_eq!(parse_field("1 "), Err(ParseError::InvalidDigit));
    assert_eq!(parse_field("١"), Err(ParseError::InvalidDigit));
    assert_eq!(parse_field("00"), Err(ParseError::LeadingZero));
    assert_eq!(parse_field("0123"), Err(ParseError::LeadingZero));
    assert_eq!(parse_field(R), Err(ParseError::OutOfRange));
    assert_eq!(parse_field(TWO_256), Err(ParseError::OutOfRange));
    assert_eq!(parse_limbs(TWO_256), Err(ParseError::OutOfRange));
}

#[test]
fn a_bad_digit_is_reported_before_a_leading_zero_or_the_range() {
    assert_eq!(parse_field("0x1"), Err(ParseError::InvalidDigit));
    let long = format!("{}x", TWO_256);
    assert_eq!(parse_field(&long), Err(ParseError::InvalidDigit));
    let zero_long = format!("0{}", TWO_256);
    assert_eq!(parse_field(&zero_long), Err(ParseError::LeadingZero));
}

#[test]
fn the_bound_is_that_of_the_field() {
    assert!(parse_field(R_MINUS_ONE).is_ok());
    assert_eq!(parse_field(R), Err(ParseError::OutOfRange));
    // the base field is the larger one
    assert!(parse_base(R).is_ok());
    assert!(parse_base(Q_MINUS_ONE).is_ok());
    assert_eq!(parse_base(Q), Err(ParseError::OutOfRange));
    assert!(parse_limbs(Q).is_ok());
}

#[test]
fn numbers_are_written_without_leading_zeros() {
    assert_eq!(field_to_string(&FieldElement::from_u64(0)), "0");
    assert_eq!(field_to_string(&FieldElement::from_u64(9)), "9");
    assert_eq!(field_to_string(&FieldElement::from_u64(10)), "10");
    assert_eq!(field_to_string(&FieldElement::from_u64(10000)), "10000");
    assert_eq!(field_to_string(&FieldElement::from_u64(u64::MAX)), "18446744073709551615");
    assert_eq!(limbs_to_string(0, 1, 0, 0), "18446744073709551616");
    assert_eq!(limbs_to_string(u64::MAX, u64::MAX, u64::MAX, u64::MAX), TWO_256_MINUS_ONE);
    assert_eq!(base_to_string(&parse_base(Q_MINUS_ONE).unwrap()), Q_MINUS_ONE);
}

#[test]
fn writing_and_reading_give_the_number_back() {
    for text in ["0", "1", "99", "100", "16384", R_MINUS_ONE, "340282366920938463463374607431768211461"] {
        let x = parse_field(text).unwrap();
        assert_eq!(field_to_string(&x), text);
        assert_eq!(parse_field(&field_to_string(&x)), Ok(x));
    }
}

#[test]
fn field_elements_compare_as_integers() {
    let small = FieldElement::from_u64(u64::MAX);
    let large = parse_field("18446744073709551616").unwrap();
    assert!(small.lt(&large));
    assert!(!large.lt(&small));
    assert!(!small.lt(&small));
    assert!(large.lt(&parse_field(R_MINUS_ONE).unwrap()));
}

#[test]
fn halving_and_parity_follow_the_integer() {
    let x = parse_field("18446744073709551617").unwrap();
    assert!(x.is_odd());
    assert_eq!(x.half(), FieldElement::from_u64(1 << 63));
    assert!(!x.half().is_odd());
    assert_eq!(FieldElement::from_u64(6).half(), FieldElement::from_u64(3));
    assert_eq!(FieldElement::from_u64(1).half(), FieldElement::zero());
}

#[test]
fn conversions_to_machine_integers() {
    assert_eq!(FieldElement::from_u64(12).to_u64(), Some(12));
    assert_eq!(FieldElement::from_u64(12).to_usize(), Some(12));
    assert_eq!(parse_field("18446744073709551616").unwrap().to_u64(), None);
    assert_eq!(FieldElement::from_limbs(1, 2, 3, 4).unwrap().to_limbs(), (1, 2, 3, 4));
    assert_eq!(
        FieldElement::from_limbs(
            0x43e1f593f0000001,
            0x2833e84879b97091,
            0xb85045b68181585d,
            0x30644e72e131a029
        ),
        None
    );
    assert!(BaseElement::from_limbs(
        0x3c208c16d87cfd47,
        0x97816a916871ca8d,
        0xb85045b68181585d,
        0x30644e72e131a029
    )
    .is_none());
    assert!(BaseElement::zero().is_zero());
    assert!(!BaseElement::from_u64(1).is_zero());
}
