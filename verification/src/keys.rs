//! Verifying keys as they are stored: every coordinate a decimal string.
//!
//! A stored key gives each point of the first group as a list of strings
//! of which the first two are its coordinates, and each point of the second
//! group as a list of such pairs. Reading takes those coordinates and as
//! many points for the public inputs as are asked for.

use crate::base::base_modulus;
use crate::codec::{decimal_value, parse_base, ParseError};
use crate::points::{G1Point, G2Point, KeyPoints};
use crate::wire::{fault, or_else};
use vstd::prelude::*;

verus! {

/// A stored verifying key.
#[derive(Debug)]
pub struct KeyText {
    pub vk_alpha_1: Vec<String>,
    pub vk_beta_2: Vec<Vec<String>>,
    pub vk_gamma_2: Vec<Vec<String>>,
    pub vk_delta_2: Vec<Vec<String>>,
    pub ic: Vec<Vec<String>>,
}

/// Why a stored key cannot be read.
#[derive(Clone, Copy, Debug, PartialEq, Eq, Structural)]
pub enum KeyError {
    /// A point has too few coordinates, or there are too few points.
    Shape,
    /// A coordinate is not a number in range.
    Number(ParseError),
}

/// A list of strings holds the two coordinates of a point.
pub open spec fn g1_shaped(s: Seq<String>) -> bool {
    s.len() >= 2
}

/// A list of lists of strings holds the four coordinates of a point.
pub open spec fn g2_shaped(s: Seq<Vec<String>>) -> bool {
    s.len() >= 2 && s[0]@.len() >= 2 && s[1]@.len() >= 2
}

/// What is wrong with the coordinates of a point of the first group.
pub open spec fn g1_fault(s: Seq<String>) -> Option<ParseError> {
    or_else(fault(s[0]@, base_modulus()), fault(s[1]@, base_modulus()))
}

/// What is wrong with the coordinates of a point of the second group.
pub open spec fn g2_fault(s: Seq<Vec<String>>) -> Option<ParseError> {
    or_else(
        fault(s[0]@[0]@, base_modulus()),
        or_else(
            fault(s[0]@[1]@, base_modulus()),
            or_else(fault(s[1]@[0]@, base_modulus()), fault(s[1]@[1]@, base_modulus())),
        ),
    )
}

/// The point says what the strings say.
pub open spec fn g1_reads_as(p: G1Point, s: Seq<String>) -> bool {
    p.x@ == decimal_value(s[0]@) && p.y@ == decimal_value(s[1]@)
}

/// The point says what the strings say.
pub open spec fn g2_reads_as(p: G2Point, s: Seq<Vec<String>>) -> bool {
    &&& p.x[0]@ == decimal_value(s[0]@[0]@)
    &&& p.x[1]@ == decimal_value(s[0]@[1]@)
    &&& p.y[0]@ == decimal_value(s[1]@[0]@)
    &&& p.y[1]@ == decimal_value(s[1]@[1]@)
}

/// What reading a point of the first group gives.
pub open spec fn g1_outcome(s: Seq<String>) -> Option<KeyError> {
    if !g1_shaped(s) {
        Some(KeyError::Shape)
    } else {
        match g1_fault(s) {
            Some(e) => Some(KeyError::Number(e)),
            None => None,
        }
    }
}

/// What reading a point of the second group gives.
pub open spec fn g2_outcome(s: Seq<Vec<String>>) -> Option<KeyError> {
    if !g2_shaped(s) {
        Some(KeyError::Shape)
    } else {
        match g2_fault(s) {
            Some(e) => Some(KeyError::Number(e)),
            None => None,
        }
    }
}

/// What is wrong with the first faulty point among the first `n` of a
/// list, if any is.
pub open spec fn points_outcome(items: Seq<Vec<String>>, n: nat) -> Option<KeyError>
    decreases n,
{
    if n == 0 {
        None
    } else {
        match points_outcome(items, (n - 1) as nat) {
            Some(e) => Some(e),
            None => g1_outcome(items[n - 1]@),
        }
    }
}

/// The first of two faults.
pub open spec fn first_error(first: Option<KeyError>, second: Option<KeyError>) -> Option<
    KeyError,
> {
    if first.is_some() {
        first
    } else {
        second
    }
}

/// What is wrong with a stored key read for `n_vars` points of public
/// input, if anything: the first fault in the order alpha, beta, gamma,
/// delta, and the points of public input, of which there must be at least
/// `n_vars`.
pub open spec fn key_outcome(t: KeyText, n_vars: nat) -> Option<KeyError> {
    first_error(
        g1_outcome(t.vk_alpha_1@),
        first_error(
            g2_outcome(t.vk_beta_2@),
            first_error(
                g2_outcome(t.vk_gamma_2@),
                first_error(
                    g2_outcome(t.vk_delta_2@),
                    if t.ic@.len() < n_vars {
                        Some(KeyError::Shape)
                    } else {
                        points_outcome(t.ic@, n_vars)
                    },
                ),
            ),
        ),
    )
}

/// The key says what the strings say.
pub open spec fn key_reads_as(k: KeyPoints, t: KeyText, n_vars: nat) -> bool {
    &&& g1_reads_as(k.alpha_1, t.vk_alpha_1@)
    &&& g2_reads_as(k.beta_2, t.vk_beta_2@)
    &&& g2_reads_as(k.gamma_2, t.vk_gamma_2@)
    &&& g2_reads_as(k.delta_2, t.vk_delta_2@)
    &&& k.ic@.len() == n_vars
    &&& forall|i: int| 0 <= i < n_vars ==> g1_reads_as(#[trigger] k.ic@[i], t.ic@[i]@)
}

/// Reads the coordinates of a point of the first group.
pub fn read_g1(s: &Vec<String>) -> (r: Result<G1Point, KeyError>)
    ensures
        match g1_outcome(s@) {
            Some(e) => r == Err::<G1Point, KeyError>(e),
            None => r.is_ok() && g1_reads_as(r.unwrap(), s@),
        },
{
    if s.len() < 2 {
        return Err(KeyError::Shape);
    }
    let x = match parse_base(s[0].as_str()) {
        Ok(e) => e,
        Err(e) => {
            return Err(KeyError::Number(e));
        },
    };
    let y = match parse_base(s[1].as_str()) {
        Ok(e) => e,
        Err(e) => {
            return Err(KeyError::Number(e));
        },
    };
    Ok(G1Point { x, y })
}

/// Reads the coordinates of a point of the second group.
pub fn read_g2(s: &Vec<Vec<String>>) -> (r: Result<G2Point, KeyError>)
    ensures
        match g2_outcome(s@) {
            Some(e) => r == Err::<G2Point, KeyError>(e),
            None => r.is_ok() && g2_reads_as(r.unwrap(), s@),
        },
{
    if s.len() < 2 || s[0].len() < 2 || s[1].len() < 2 {
        return Err(KeyError::Shape);
    }
    let x0 = match parse_base(s[0][0].as_str()) {
        Ok(e) => e,
        Err(e) => {
            return Err(KeyError::Number(e));
        },
    };
    let x1 = match parse_base(s[0][1].as_str()) {
        Ok(e) => e,
        Err(e) => {
            return Err(KeyError::Number(e));
        },
    };
    let y0 = match parse_base(s[1][0].as_str()) {
        Ok(e) => e,
        Err(e) => {
            return Err(KeyError::Number(e));
        },
    };
    let y1 = match parse_base(s[1][1].as_str()) {
        Ok(e) => e,
        Err(e) => {
            return Err(KeyError::Number(e));
        },
    };
    Ok(G2Point { x: [x0, x1], y: [y0, y1] })
}

proof fn lemma_points_outcome_stays(items: Seq<Vec<String>>, n: nat, m: nat)
    requires
        n <= m,
        points_outcome(items, n).is_some(),
    ensures
        points_outcome(items, m) == points_outcome(items, n),
    decreases m - n,
{
    if n < m {
        lemma_points_outcome_stays(items, n, (m - 1) as nat);
    }
}

/// Reads a stored verifying key with `n_vars` points of public input: one
/// for the constant term and one for each public input.
pub fn read_verifying_key(t: &KeyText, n_vars: usize) -> (r: Result<KeyPoints, KeyError>)
    ensures
        match key_outcome(*t, n_vars as nat) {
            Some(e) => r == Err::<KeyPoints, KeyError>(e),
            None => r.is_ok() && key_reads_as(r.unwrap(), *t, n_vars as nat),
        },
{
    let alpha_1 = match read_g1(&t.vk_alpha_1) {
        Ok(p) => p,
        Err(e) => {
            return Err(e);
        },
    };
    let beta_2 = match read_g2(&t.vk_beta_2) {
        Ok(p) => p,
        Err(e) => {
            return Err(e);
        },
    };
    let gamma_2 = match read_g2(&t.vk_gamma_2) {
        Ok(p) => p,
        Err(e) => {
            return Err(e);
        },
    };
    let delta_2 = match read_g2(&t.vk_delta_2) {
        Ok(p) => p,
        Err(e) => {
            return Err(e);
        },
    };
    if t.ic.len() < n_vars {
        return Err(KeyError::Shape);
    }
    let mut ic: Vec<G1Point> = Vec::new();
    let mut i: usize = 0;
    while i < n_vars
        invariant
            i <= n_vars <= t.ic.len(),
            ic.len() == i,
            g1_outcome(t.vk_alpha_1@).is_none(),
            g2_outcome(t.vk_beta_2@).is_none(),
            g2_outcome(t.vk_gamma_2@).is_none(),
            g2_outcome(t.vk_delta_2@).is_none(),
            points_outcome(t.ic@, i as nat).is_none(),
            forall|k: int| 0 <= k < i ==> g1_reads_as(#[trigger] ic@[k], t.ic@[k]@),
        decreases n_vars - i,
    {
        match read_g1(&t.ic[i]) {
            Ok(p) => {
                ic.push(p);
            },
            Err(e) => {
                proof {
                    assert(points_outcome(t.ic@, (i + 1) as nat) == Some(e));
                    lemma_points_outcome_stays(t.ic@, (i + 1) as nat, n_vars as nat);
                }
                return Err(e);
            },
        }
        i = i + 1;
    }
    Ok(KeyPoints { alpha_1, beta_2, gamma_2, delta_2, ic })
}

} // verus!
