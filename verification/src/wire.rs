//! The update message on the wire.
//!
//! An update travels as a JSON object whose values are strings: every
//! number in decimal, the proof as eight numbers (the two coordinates of
//! `a`, the four of `b`, the two of `c`), the authentication path as a list
//! of numbers with one entry for each level of the agent tree. This module
//! turns the strings of a received message into an update, reporting the
//! first string that is not a number in range, and writes the body of a
//! message to send.

use crate::agent::{Circuit, Update};
use crate::base::{base_modulus, BaseElement};
use crate::codec::{
    base_to_string, decimal_chars, decimal_value, field_to_string, parse_base, parse_field,
    parse_outcome, ParseError,
};
use crate::field::{modulus, FieldElement};
use crate::points::{G1Point, G2Point, ProofPoints};
use vstd::prelude::*;
use vstd::string::StringExecFns;

verus! {

/// The number of strings that make a proof.
pub const PROOF_LENGTH: usize = 8;

/// A received update, every value still a string.
#[derive(Debug)]
pub struct UpdateText {
    pub robot_root: String,
    pub task_root: String,
    pub circuit: String,
    pub proof: Vec<String>,
    pub task_id: String,
    pub x: String,
    pub y: String,
    pub z: String,
    pub merkle_proof: Vec<String>,
}

/// Why a received update cannot be read.
#[derive(Clone, Copy, Debug, PartialEq, Eq, Structural)]
pub enum WireError {
    /// The proof is not made of eight strings.
    ProofLength,
    /// The path does not have one entry for each level of the agent tree.
    PathLength,
    /// A string is not a number in range.
    Number(ParseError),
}

/// The characters of each string of a list.
pub open spec fn texts(strings: Seq<String>) -> Seq<Seq<char>> {
    Seq::new(strings.len(), |i: int| strings[i]@)
}

/// What is wrong with a string as a number below `bound`, if anything.
pub open spec fn fault(text: Seq<char>, bound: nat) -> Option<ParseError> {
    match parse_outcome(text, bound) {
        Ok(_) => None,
        Err(e) => Some(e),
    }
}

/// What is wrong with the first faulty string among the first `n` of a
/// list, if any is faulty.
pub open spec fn list_fault(items: Seq<Seq<char>>, bound: nat, n: nat) -> Option<ParseError>
    decreases n,
{
    if n == 0 {
        None
    } else {
        match list_fault(items, bound, (n - 1) as nat) {
            Some(e) => Some(e),
            None => fault(items[n - 1], bound),
        }
    }
}

/// The first of two faults.
pub open spec fn or_else(first: Option<ParseError>, second: Option<ParseError>) -> Option<
    ParseError,
> {
    if first.is_some() {
        first
    } else {
        second
    }
}

/// What is wrong with a received update for an agent whose paths have
/// `path_length` entries, if anything: a proof or a path of the wrong
/// length, or else the first faulty number in the order root, task root,
/// proof, ordinal, position, path.
pub open spec fn update_fault(t: UpdateText, path_length: nat) -> Option<WireError> {
    if t.proof@.len() != PROOF_LENGTH {
        Some(WireError::ProofLength)
    } else if t.merkle_proof@.len() != path_length {
        Some(WireError::PathLength)
    } else {
        match or_else(
            fault(t.robot_root@, modulus()),
            or_else(
                fault(t.task_root@, modulus()),
                or_else(
                    list_fault(texts(t.proof@), base_modulus(), PROOF_LENGTH as nat),
                    or_else(
                        fault(t.task_id@, modulus()),
                        or_else(
                            fault(t.x@, modulus()),
                            or_else(
                                fault(t.y@, modulus()),
                                or_else(
                                    fault(t.z@, modulus()),
                                    list_fault(
                                        texts(t.merkle_proof@),
                                        modulus(),
                                        t.merkle_proof@.len(),
                                    ),
                                ),
                            ),
                        ),
                    ),
                ),
            ),
        ) {
            Some(e) => Some(WireError::Number(e)),
            None => None,
        }
    }
}

/// The update says what the strings say.
pub open spec fn reads_as(u: Update, t: UpdateText) -> bool {
    &&& u.robot_root@ == decimal_value(t.robot_root@)
    &&& u.task_root@ == decimal_value(t.task_root@)
    &&& u.circuit == (if t.circuit@ == seq!['6', '_', '3'] {
        Circuit::SixThree
    } else {
        Circuit::ThreeThree
    })
    &&& t.proof@.len() == PROOF_LENGTH
    &&& u.proof.a.x@ == decimal_value(t.proof@[0]@)
    &&& u.proof.a.y@ == decimal_value(t.proof@[1]@)
    &&& u.proof.b.x[0]@ == decimal_value(t.proof@[2]@)
    &&& u.proof.b.x[1]@ == decimal_value(t.proof@[3]@)
    &&& u.proof.b.y[0]@ == decimal_value(t.proof@[4]@)
    &&& u.proof.b.y[1]@ == decimal_value(t.proof@[5]@)
    &&& u.proof.c.x@ == decimal_value(t.proof@[6]@)
    &&& u.proof.c.y@ == decimal_value(t.proof@[7]@)
    &&& u.task_id@ == decimal_value(t.task_id@)
    &&& u.x@ == decimal_value(t.x@)
    &&& u.y@ == decimal_value(t.y@)
    &&& u.z@ == decimal_value(t.z@)
    &&& u.merkle_proof@.len() == t.merkle_proof@.len()
    &&& forall|i: int|
        0 <= i < t.merkle_proof@.len() ==> (#[trigger] u.merkle_proof@[i])@ == decimal_value(
            t.merkle_proof@[i]@,
        )
}

/// Reads a list of field elements.
pub fn parse_field_list(items: &Vec<String>) -> (r: Result<Vec<FieldElement>, ParseError>)
    ensures
        match list_fault(texts(items@), modulus(), items@.len()) {
            Some(e) => r == Err::<Vec<FieldElement>, ParseError>(e),
            None => r.is_ok() && r.unwrap()@.len() == items@.len() && forall|i: int|
                0 <= i < items@.len() ==> (#[trigger] r.unwrap()@[i])@ == decimal_value(
                    items@[i]@,
                ),
        },
{
    let mut out: Vec<FieldElement> = Vec::new();
    let mut i: usize = 0;
    while i < items.len()
        invariant
            i <= items.len(),
            out.len() == i,
            list_fault(texts(items@), modulus(), i as nat).is_none(),
            forall|k: int| 0 <= k < i ==> (#[trigger] out@[k])@ == decimal_value(items@[k]@),
        decreases items.len() - i,
    {
        assert(texts(items@)[i as int] == items@[i as int]@);
        match parse_field(items[i].as_str()) {
            Ok(e) => {
                out.push(e);
            },
            Err(e) => {
                proof {
                    lemma_fault_stays(texts(items@), modulus(), (i + 1) as nat, items@.len());
                }
                return Err(e);
            },
        }
        i = i + 1;
    }
    Ok(out)
}

/// Reads a list of base-field elements.
pub fn parse_base_list(items: &Vec<String>) -> (r: Result<Vec<BaseElement>, ParseError>)
    ensures
        match list_fault(texts(items@), base_modulus(), items@.len()) {
            Some(e) => r == Err::<Vec<BaseElement>, ParseError>(e),
            None => r.is_ok() && r.unwrap()@.len() == items@.len() && forall|i: int|
                0 <= i < items@.len() ==> (#[trigger] r.unwrap()@[i])@ == decimal_value(
                    items@[i]@,
                ),
        },
{
    let mut out: Vec<BaseElement> = Vec::new();
    let mut i: usize = 0;
    while i < items.len()
        invariant
            i <= items.len(),
            out.len() == i,
            list_fault(texts(items@), base_modulus(), i as nat).is_none(),
            forall|k: int| 0 <= k < i ==> (#[trigger] out@[k])@ == decimal_value(items@[k]@),
        decreases items.len() - i,
    {
        assert(texts(items@)[i as int] == items@[i as int]@);
        match parse_base(items[i].as_str()) {
            Ok(e) => {
                out.push(e);
            },
            Err(e) => {
                proof {
                    lemma_fault_stays(texts(items@), base_modulus(), (i + 1) as nat, items@.len());
                }
                return Err(e);
            },
        }
        i = i + 1;
    }
    Ok(out)
}

/// A fault among the first strings of a list is the fault of every longer
/// part of the list.
pub proof fn lemma_fault_stays(items: Seq<Seq<char>>, bound: nat, n: nat, m: nat)
    requires
        n <= m,
        list_fault(items, bound, n).is_some(),
    ensures
        list_fault(items, bound, m) == list_fault(items, bound, n),
    decreases m - n,
{
    if n < m {
        lemma_fault_stays(items, bound, n, (m - 1) as nat);
    }
}

/// Reads a received update whose path is to have `path_length` entries:
/// as many as the agent tree has levels below its root.
pub fn parse_update(t: &UpdateText, path_length: usize) -> (r: Result<Update, WireError>)
    ensures
        match update_fault(*t, path_length as nat) {
            Some(e) => r == Err::<Update, WireError>(e),
            None => r.is_ok() && reads_as(r.unwrap(), *t),
        },
{
    if t.proof.len() != PROOF_LENGTH {
        return Err(WireError::ProofLength);
    }
    if t.merkle_proof.len() != path_length {
        return Err(WireError::PathLength);
    }
    let robot_root = match parse_field(t.robot_root.as_str()) {
        Ok(e) => e,
        Err(e) => {
            return Err(WireError::Number(e));
        },
    };
    let task_root = match parse_field(t.task_root.as_str()) {
        Ok(e) => e,
        Err(e) => {
            return Err(WireError::Number(e));
        },
    };
    let points = match parse_base_list(&t.proof) {
        Ok(v) => v,
        Err(e) => {
            return Err(WireError::Number(e));
        },
    };
    let task_id = match parse_field(t.task_id.as_str()) {
        Ok(e) => e,
        Err(e) => {
            return Err(WireError::Number(e));
        },
    };
    let x = match parse_field(t.x.as_str()) {
        Ok(e) => e,
        Err(e) => {
            return Err(WireError::Number(e));
        },
    };
    let y = match parse_field(t.y.as_str()) {
        Ok(e) => e,
        Err(e) => {
            return Err(WireError::Number(e));
        },
    };
    let z = match parse_field(t.z.as_str()) {
        Ok(e) => e,
        Err(e) => {
            return Err(WireError::Number(e));
        },
    };
    let merkle_proof = match parse_field_list(&t.merkle_proof) {
        Ok(v) => v,
        Err(e) => {
            return Err(WireError::Number(e));
        },
    };
    let proof = ProofPoints {
        a: G1Point { x: points[0], y: points[1] },
        b: G2Point { x: [points[2], points[3]], y: [points[4], points[5]] },
        c: G1Point { x: points[6], y: points[7] },
    };
    let circuit = Circuit::from_tag(t.circuit.as_str());
    Ok(Update { robot_root, task_root, circuit, proof, task_id, x, y, z, merkle_proof })
}

/// The first `n` items of a list, each between double quotes, with commas
/// between them.
pub open spec fn quoted_list(items: Seq<Seq<char>>, n: nat) -> Seq<char>
    decreases n,
{
    if n == 0 {
        Seq::empty()
    } else if n == 1 {
        "\""@ + items[0] + "\""@
    } else {
        quoted_list(items, (n - 1) as nat) + ",\""@ + items[n - 1] + "\""@
    }
}

/// The eight numbers of a proof in decimal, in the order of the wire.
pub open spec fn proof_decimals(p: ProofPoints) -> Seq<Seq<char>> {
    seq![
        decimal_chars(p.a.x@),
        decimal_chars(p.a.y@),
        decimal_chars(p.b.x[0]@),
        decimal_chars(p.b.x[1]@),
        decimal_chars(p.b.y[0]@),
        decimal_chars(p.b.y[1]@),
        decimal_chars(p.c.x@),
        decimal_chars(p.c.y@),
    ]
}

/// The numbers of a path in decimal.
pub open spec fn path_decimals(path: Seq<FieldElement>) -> Seq<Seq<char>> {
    Seq::new(path.len(), |i: int| decimal_chars(path[i]@))
}

/// The part of the body that names the circuit, if the body names it.
pub open spec fn circuit_part(c: Circuit, with_circuit: bool) -> Seq<char> {
    if with_circuit {
        "\",\"circuit\" : \""@ + (match c {
            Circuit::SixThree => seq!['6', '_', '3'],
            Circuit::ThreeThree => seq!['3', '_', '3'],
        })
    } else {
        Seq::empty()
    }
}

/// The body of the message that carries an update.
pub open spec fn update_body(u: Update, with_circuit: bool) -> Seq<char> {
    "{\"robot_root\" : \""@ + decimal_chars(u.robot_root@) + "\",\"task_root\" : \""@
        + decimal_chars(u.task_root@) + circuit_part(u.circuit, with_circuit)
        + "\",\"proof\" : ["@ + quoted_list(proof_decimals(u.proof), PROOF_LENGTH as nat)
        + "],\"task_id\" : \""@ + decimal_chars(u.task_id@) + "\",\"x\" : \""@ + decimal_chars(
        u.x@,
    ) + "\",\"y\" : \""@ + decimal_chars(u.y@) + "\",\"z\" : \""@ + decimal_chars(u.z@)
        + "\",\"merkle_proof\" : ["@ + quoted_list(
        path_decimals(u.merkle_proof@),
        u.merkle_proof@.len(),
    ) + "]}"@
}

/// Appends the items of a list, quoted and separated by commas.
fn append_quoted(out: &mut String, items: &Vec<String>)
    ensures
        final(out)@ == old(out)@ + quoted_list(texts(items@), items@.len()),
{
    let ghost start = out@;
    let ghost all = texts(items@);
    let mut i: usize = 0;
    assert(out@ =~= start + quoted_list(all, 0));
    while i < items.len()
        invariant
            i <= items.len(),
            all == texts(items@),
            out@ == start + quoted_list(all, i as nat),
        decreases items.len() - i,
    {
        let ghost before = out@;
        if i == 0 {
            out.append("\"");
        } else {
            out.append(",\"");
        }
        out.append(items[i].as_str());
        out.append("\"");
        proof {
            assert(all[i as int] == items@[i as int]@);
            if i == 0 {
                assert(out@ =~= start + ("\""@ + all[0] + "\""@));
            } else {
                assert(out@ =~= start + (quoted_list(all, i as nat) + ",\""@ + all[i as int]
                    + "\""@));
            }
        }
        i = i + 1;
    }
}

/// The body of the message that carries an update to an agent. The tag of
/// the circuit is written if `with_circuit`; the older form of the message
/// has none.
pub fn encode_update(u: &Update, with_circuit: bool) -> (body: String)
    ensures
        body@ == update_body(*u, with_circuit),
{
    let mut proof: Vec<String> = Vec::new();
    proof.push(base_to_string(&u.proof.a.x));
    proof.push(base_to_string(&u.proof.a.y));
    proof.push(base_to_string(&u.proof.b.x[0]));
    proof.push(base_to_string(&u.proof.b.x[1]));
    proof.push(base_to_string(&u.proof.b.y[0]));
    proof.push(base_to_string(&u.proof.b.y[1]));
    proof.push(base_to_string(&u.proof.c.x));
    proof.push(base_to_string(&u.proof.c.y));
    assert(texts(proof@) =~= proof_decimals(u.proof));
    let mut path: Vec<String> = Vec::new();
    let mut i: usize = 0;
    while i < u.merkle_proof.len()
        invariant
            i <= u.merkle_proof.len(),
            path.len() == i,
            forall|k: int| 0 <= k < i ==> (#[trigger] path@[k])@ == decimal_chars(u.merkle_proof@[k]@),
        decreases u.merkle_proof.len() - i,
    {
        path.push(field_to_string(&u.merkle_proof[i]));
        i = i + 1;
    }
    assert(texts(path@) =~= path_decimals(u.merkle_proof@));
    let mut body = String::from_str("{\"robot_root\" : \"");
    body.append(field_to_string(&u.robot_root).as_str());
    body.append("\",\"task_root\" : \"");
    body.append(field_to_string(&u.task_root).as_str());
    if with_circuit {
        body.append("\",\"circuit\" : \"");
        body.append(u.circuit.tag());
    }
    assert(body@ =~= "{\"robot_root\" : \""@ + decimal_chars(u.robot_root@)
        + "\",\"task_root\" : \""@ + decimal_chars(u.task_root@) + circuit_part(
        u.circuit,
        with_circuit,
    ));
    body.append("\",\"proof\" : [");
    append_quoted(&mut body, &proof);
    body.append("],\"task_id\" : \"");
    body.append(field_to_string(&u.task_id).as_str());
    body.append("\",\"x\" : \"");
    body.append(field_to_string(&u.x).as_str());
    body.append("\",\"y\" : \"");
    body.append(field_to_string(&u.y).as_str());
    body.append("\",\"z\" : \"");
    body.append(field_to_string(&u.z).as_str());
    body.append("\",\"merkle_proof\" : [");
    append_quoted(&mut body, &path);
    body.append("]}");
    assert(body@ =~= update_body(*u, with_circuit));
    body
}

/// The address to which the update of an agent is sent: `http://`, the
/// agent's host and port, and `/update`.
pub fn update_url(host: &str) -> (url: String)
    ensures
        url@ == "http://"@ + host@ + "/update"@,
{
    let mut url = String::from_str("http://");
    url.append(host);
    url.append("/update");
    url
}

} // verus!
