//! The decimal wire form of numbers.
//!
//! On the wire every number is a string of decimal digits, most significant
//! first, without a sign and without leading zeros. Decoding checks the
//! range and reports what is wrong with a string; it never wraps a value
//! around a modulus.

use crate::base::{base_modulus, BaseElement};
use crate::field::{limbs_value, modulus, FieldElement};
use vstd::prelude::*;
use vstd::string::{StrSliceExecFns, StringExecFns};

verus! {

/// Why a string is not the decimal form of a number in range.
#[derive(Clone, Copy, Debug, PartialEq, Eq, Structural)]
pub enum ParseError {
    /// The string is empty.
    Empty,
    /// Some character is not one of `0` to `9`.
    InvalidDigit,
    /// The string has more than one digit and starts with `0`.
    LeadingZero,
    /// The number is not below the bound of its kind.
    OutOfRange,
}

/// Two to the power 256: the bound of four limbs.
pub open spec fn limbs_bound() -> nat {
    0x1_0000_0000_0000_0000_0000_0000_0000_0000_0000_0000_0000_0000_0000_0000_0000_0000nat
}

/// Whether `c` is a decimal digit.
pub open spec fn is_digit(c: char) -> bool {
    48 <= c as int <= 57
}

/// The value of a decimal digit.
pub open spec fn digit_value(c: char) -> nat {
    (c as int - 48) as nat
}

/// The digit of a value below ten.
pub open spec fn digit_char(d: nat) -> char {
    (d + 48) as char
}

/// Every character is a decimal digit.
pub open spec fn all_digits(text: Seq<char>) -> bool {
    forall|i: int| 0 <= i < text.len() ==> is_digit(#[trigger] text[i])
}

/// The number that a string of digits denotes in base ten.
pub open spec fn decimal_value(text: Seq<char>) -> nat
    decreases text.len(),
{
    if text.len() == 0 {
        0
    } else {
        decimal_value(text.drop_last()) * 10 + digit_value(text.last())
    }
}

/// The decimal form of a number: no leading zeros, `0` for zero.
pub open spec fn decimal_chars(n: nat) -> Seq<char>
    decreases n,
{
    if n < 10 {
        seq![digit_char(n)]
    } else {
        decimal_chars(n / 10).push(digit_char(n % 10))
    }
}

/// What decoding a string gives for numbers below `bound`: the number, or
/// the first of the four faults that applies.
pub open spec fn parse_outcome(text: Seq<char>, bound: nat) -> Result<nat, ParseError> {
    if text.len() == 0 {
        Err(ParseError::Empty)
    } else if !all_digits(text) {
        Err(ParseError::InvalidDigit)
    } else if text.len() > 1 && text[0] == '0' {
        Err(ParseError::LeadingZero)
    } else if decimal_value(text) >= bound {
        Err(ParseError::OutOfRange)
    } else {
        Ok(decimal_value(text))
    }
}

/// A longer string of digits denotes no smaller a number than its prefix.
pub proof fn lemma_prefix_value(text: Seq<char>, k: int)
    requires
        0 <= k <= text.len(),
    ensures
        decimal_value(text.take(k)) <= decimal_value(text),
    decreases text.len() - k,
{
    if k < text.len() {
        lemma_prefix_value(text, k + 1);
        assert(text.take(k + 1).drop_last() =~= text.take(k));
    } else {
        assert(text.take(k) =~= text);
    }
}

/// The decimal form of a number is made of digits, has no leading zero, and
/// denotes the number.
pub proof fn lemma_decimal_chars(n: nat)
    ensures
        decimal_chars(n).len() >= 1,
        all_digits(decimal_chars(n)),
        decimal_chars(n).len() > 1 ==> decimal_chars(n)[0] != '0',
        decimal_value(decimal_chars(n)) == n,
    decreases n,
{
    if n < 10 {
        let s = decimal_chars(n);
        assert(s.drop_last() =~= Seq::<char>::empty());
        assert(decimal_value(s.drop_last()) == 0);
    } else {
        lemma_decimal_chars(n / 10);
        let head = decimal_chars(n / 10);
        let s = decimal_chars(n);
        assert(s.drop_last() =~= head);
        assert(s[0] == head[0]);
        if n / 10 < 10 {
            assert(head[0] == digit_char(n / 10));
        } else {
            lemma_decimal_chars(n / 10 / 10);
        }
    }
}

/// Decoding the decimal form of a number below the bound gives the number
/// back.
pub proof fn lemma_round_trip(n: nat, bound: nat)
    requires
        n < bound,
    ensures
        parse_outcome(decimal_chars(n), bound) == Ok::<nat, ParseError>(n),
{
    lemma_decimal_chars(n);
}

/// Ten times the value of four limbs, plus a digit: the low 256 bits and
/// what is carried out of them.
fn times_ten_plus(l0: u64, l1: u64, l2: u64, l3: u64, d: u64) -> (r: (u64, u64, u64, u64, u64))
    requires
        d < 10,
    ensures
        limbs_value(l0, l1, l2, l3) * 10 + d == limbs_value(r.0, r.1, r.2, r.3) + r.4
            * limbs_bound(),
        r.4 < 10,
{
    let base: u128 = 0x1_0000_0000_0000_0000;
    let t0: u128 = (l0 as u128) * 10 + (d as u128);
    let t1: u128 = (l1 as u128) * 10 + t0 / base;
    let t2: u128 = (l2 as u128) * 10 + t1 / base;
    let t3: u128 = (l3 as u128) * 10 + t2 / base;
    ((t0 % base) as u64, (t1 % base) as u64, (t2 % base) as u64, (t3 % base) as u64, (t3
        / base) as u64)
}

/// The value of four limbs divided by ten: the quotient and the remainder.
fn div_rem_ten(l0: u64, l1: u64, l2: u64, l3: u64) -> (r: (u64, u64, u64, u64, u8))
    ensures
        limbs_value(l0, l1, l2, l3) == limbs_value(r.0, r.1, r.2, r.3) * 10 + r.4,
        r.4 < 10,
{
    let base: u128 = 0x1_0000_0000_0000_0000;
    let c3: u128 = l3 as u128;
    let c2: u128 = (c3 % 10) * base + (l2 as u128);
    let c1: u128 = (c2 % 10) * base + (l1 as u128);
    let c0: u128 = (c1 % 10) * base + (l0 as u128);
    ((c0 / 10) as u64, (c1 / 10) as u64, (c2 / 10) as u64, (c3 / 10) as u64, (c0 % 10) as u8)
}

/// Decodes the decimal form of a number below two to the power 256 into
/// four little-endian limbs.
pub fn parse_limbs(text: &str) -> (r: Result<(u64, u64, u64, u64), ParseError>)
    ensures
        match parse_outcome(text@, limbs_bound()) {
            Ok(v) => r.is_ok() && limbs_value(
                r.unwrap().0,
                r.unwrap().1,
                r.unwrap().2,
                r.unwrap().3,
            ) == v,
            Err(e) => r == Err::<(u64, u64, u64, u64), ParseError>(e),
        },
{
    let n = text.unicode_len();
    if n == 0 {
        return Err(ParseError::Empty);
    }
    let mut i: usize = 0;
    while i < n
        invariant
            n == text@.len(),
            i <= n,
            forall|k: int| 0 <= k < i ==> is_digit(#[trigger] text@[k]),
        decreases n - i,
    {
        let c = text.get_char(i);
        if !('0' <= c && c <= '9') {
            assert(!is_digit(text@[i as int]));
            return Err(ParseError::InvalidDigit);
        }
        i = i + 1;
    }
    if n > 1 && text.get_char(0) == '0' {
        return Err(ParseError::LeadingZero);
    }
    let mut acc: (u64, u64, u64, u64) = (0, 0, 0, 0);
    i = 0;
    assert(text@.take(0) =~= Seq::<char>::empty());
    while i < n
        invariant
            n == text@.len(),
            i <= n,
            all_digits(text@),
            !(n > 1 && text@[0] == '0'),
            limbs_value(acc.0, acc.1, acc.2, acc.3) == decimal_value(text@.take(i as int)),
        decreases n - i,
    {
        let c = text.get_char(i);
        assert(is_digit(text@[i as int]));
        let d: u64 = (c as u32 - 48) as u64;
        let next = times_ten_plus(acc.0, acc.1, acc.2, acc.3, d);
        proof {
            let longer = text@.take(i + 1);
            assert(longer.drop_last() =~= text@.take(i as int));
            assert(longer.last() == text@[i as int]);
            assert(decimal_value(longer) == limbs_value(next.0, next.1, next.2, next.3) + next.4
                * limbs_bound());
            lemma_prefix_value(text@, i + 1);
        }
        if next.4 != 0 {
            assert(next.4 * limbs_bound() >= limbs_bound()) by (nonlinear_arith)
                requires
                    next.4 >= 1,
            ;
            return Err(ParseError::OutOfRange);
        }
        acc = (next.0, next.1, next.2, next.3);
        i = i + 1;
    }
    assert(text@.take(n as int) =~= text@);
    Ok(acc)
}

/// Decodes the decimal form of a field element.
pub fn parse_field(text: &str) -> (r: Result<FieldElement, ParseError>)
    ensures
        match parse_outcome(text@, modulus()) {
            Ok(v) => r.is_ok() && r.unwrap()@ == v,
            Err(e) => r == Err::<FieldElement, ParseError>(e),
        },
{
    match parse_limbs(text) {
        Ok(l) => match FieldElement::from_limbs(l.0, l.1, l.2, l.3) {
            Some(e) => Ok(e),
            None => Err(ParseError::OutOfRange),
        },
        Err(e) => Err(e),
    }
}

/// Decodes the decimal form of a base-field element.
pub fn parse_base(text: &str) -> (r: Result<BaseElement, ParseError>)
    ensures
        match parse_outcome(text@, base_modulus()) {
            Ok(v) => r.is_ok() && r.unwrap()@ == v,
            Err(e) => r == Err::<BaseElement, ParseError>(e),
        },
{
    match parse_limbs(text) {
        Ok(l) => match BaseElement::from_limbs(l.0, l.1, l.2, l.3) {
            Some(e) => Ok(e),
            None => Err(ParseError::OutOfRange),
        },
        Err(e) => Err(e),
    }
}

/// The string of one digit.
fn digit_str(d: u8) -> (s: &'static str)
    requires
        d < 10,
    ensures
        s@ == seq![digit_char(d as nat)],
{
    proof {
        reveal_strlit("0");
        reveal_strlit("1");
        reveal_strlit("2");
        reveal_strlit("3");
        reveal_strlit("4");
        reveal_strlit("5");
        reveal_strlit("6");
        reveal_strlit("7");
        reveal_strlit("8");
        reveal_strlit("9");
    }
    let s = match d {
        0 => "0",
        1 => "1",
        2 => "2",
        3 => "3",
        4 => "4",
        5 => "5",
        6 => "6",
        7 => "7",
        8 => "8",
        _ => "9",
    };
    assert(s@ =~= seq![digit_char(d as nat)]);
    s
}

/// The digits of a list of digit values, last value first.
pub open spec fn reversed_digits(digits: Seq<u8>) -> Seq<char>
    decreases digits.len(),
{
    if digits.len() == 0 {
        Seq::empty()
    } else {
        seq![digit_char(digits.last() as nat)] + reversed_digits(digits.drop_last())
    }
}

/// The decimal form of the value of four little-endian limbs.
pub fn limbs_to_string(l0: u64, l1: u64, l2: u64, l3: u64) -> (s: String)
    ensures
        s@ == decimal_chars(limbs_value(l0, l1, l2, l3)),
{
    let ghost n = limbs_value(l0, l1, l2, l3);
    let mut digits: Vec<u8> = Vec::new();
    let mut cur: (u64, u64, u64, u64) = (l0, l1, l2, l3);
    assert(decimal_chars(n) =~= decimal_chars(n) + reversed_digits(digits@));
    while !(cur.1 == 0 && cur.2 == 0 && cur.3 == 0 && cur.0 < 10)
        invariant
            decimal_chars(n) == decimal_chars(limbs_value(cur.0, cur.1, cur.2, cur.3))
                + reversed_digits(digits@),
            forall|j: int| 0 <= j < digits.len() ==> #[trigger] digits[j] < 10,
        decreases limbs_value(cur.0, cur.1, cur.2, cur.3),
    {
        let ghost v = limbs_value(cur.0, cur.1, cur.2, cur.3);
        let next = div_rem_ten(cur.0, cur.1, cur.2, cur.3);
        let ghost before = digits@;
        digits.push(next.4);
        proof {
            assert(v >= 10);
            assert(v / 10 == limbs_value(next.0, next.1, next.2, next.3));
            assert(v % 10 == next.4);
            assert(digits@.drop_last() =~= before);
            assert(decimal_chars(v) =~= decimal_chars(v / 10) + seq![digit_char(v % 10)]);
            assert(decimal_chars(v) + reversed_digits(before) =~= decimal_chars(v / 10)
                + reversed_digits(digits@));
        }
        cur = (next.0, next.1, next.2, next.3);
    }
    let ghost before = digits@;
    digits.push(cur.0 as u8);
    proof {
        assert(digits@.drop_last() =~= before);
        assert(decimal_chars(n) =~= reversed_digits(digits@));
    }
    let mut out = String::from_str("");
    proof {
        reveal_strlit("");
    }
    let mut k: usize = digits.len();
    assert(digits@.take(k as int) =~= digits@);
    assert(out@ + reversed_digits(digits@.take(k as int)) =~= reversed_digits(digits@));
    while k > 0
        invariant
            k <= digits.len(),
            forall|j: int| 0 <= j < digits.len() ==> #[trigger] digits[j] < 10,
            out@ + reversed_digits(digits@.take(k as int)) == reversed_digits(digits@),
        decreases k,
    {
        let ghost prefix = digits@.take(k as int);
        let ghost so_far = out@;
        k = k - 1;
        out.append(digit_str(digits[k]));
        proof {
            assert(prefix.drop_last() =~= digits@.take(k as int));
            assert(prefix.last() == digits@[k as int]);
            assert(out@ + reversed_digits(digits@.take(k as int)) =~= so_far + reversed_digits(
                prefix,
            ));
        }
    }
    assert(digits@.take(0) =~= Seq::<u8>::empty());
    assert(out@ =~= reversed_digits(digits@));
    out
}

/// The decimal form of a field element.
pub fn field_to_string(x: &FieldElement) -> (s: String)
    ensures
        s@ == decimal_chars(x@),
{
    let l = x.to_limbs();
    limbs_to_string(l.0, l.1, l.2, l.3)
}

/// The decimal form of a base-field element.
pub fn base_to_string(x: &BaseElement) -> (s: String)
    ensures
        s@ == decimal_chars(x@),
{
    let l = x.to_limbs();
    limbs_to_string(l.0, l.1, l.2, l.3)
}

} // verus!
