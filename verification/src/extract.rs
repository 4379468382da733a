//! The record extractor: walks the syntax tree produced by the grammar
//! engine and materializes the domain records.
//!
//! Text fields (`name`, `diagnosis`, `notes`) are trimmed of leading and
//! trailing whitespace; the `age` literal is converted to an 8-bit unsigned
//! integer, and a literal that is not a plain decimal between 0 and 255
//! aborts the whole extraction with a data error. An absent `diagnosis` or
//! `notes` defaults to the empty string, an absent `temperature` to the
//! literal `"0"`. The first error wins: no partial document is returned.

use crate::grammar::copy_span;
use crate::grammar::digit_char;
use crate::grammar::is_digit;
use crate::grammar::is_space;
use crate::grammar::skip_ws;
use crate::grammar::space_char;
use crate::grammar::ws_end;
use crate::grammar::PatientNode;
use crate::grammar::PatientNodeV;
use crate::grammar::VisitNode;
use crate::grammar::VisitNodeV;
use crate::grammar::{chars_of, p_file, patient_nodes_view, sp_file};
use crate::records::patients_view;
use crate::records::visits_view;
use crate::records::ParseError;
use crate::records::Patient;
use crate::records::PatientV;
use crate::records::Visit;
use crate::records::VisitV;
use vstd::prelude::*;
use vstd::string::StringExecFns;

verus! {

// ---------------------------------------------------------------------------
// Trimming
// ---------------------------------------------------------------------------
/// The position before which the trailing whitespace run that ends at `j`
/// starts.
pub open spec fn trim_stop(t: Seq<char>, j: int) -> int
    decreases j,
{
    if 0 < j && j <= t.len() && is_space(t[j - 1]) {
        trim_stop(t, j - 1)
    } else {
        j
    }
}

/// `t` without leading and trailing whitespace.
pub open spec fn spec_trim(t: Seq<char>) -> Seq<char> {
    let a = ws_end(t, 0);
    let b = trim_stop(t, t.len() as int);
    if a <= b {
        t.subrange(a, b)
    } else {
        Seq::empty()
    }
}

fn trim_chars(t: &Vec<char>) -> (r: Vec<char>)
    ensures
        r@ == spec_trim(t@),
{
    let a = skip_ws(t, 0);
    let mut b = t.len();
    while b > 0 && space_char(t[b - 1])
        invariant
            b <= t@.len(),
            trim_stop(t@, t@.len() as int) == trim_stop(t@, b as int),
        decreases b,
    {
        b = b - 1;
    }
    if a <= b {
        copy_span(t, a, b)
    } else {
        let r: Vec<char> = Vec::new();
        r
    }
}

// ---------------------------------------------------------------------------
// The age literal
// ---------------------------------------------------------------------------
/// The numeric value of one digit.
pub open spec fn digit_val(c: char) -> nat {
    if is_digit(c) {
        (c as u32 - 48) as nat
    } else {
        0
    }
}

/// The numeric value of a digit string, most significant digit first.
pub open spec fn digits_val(t: Seq<char>) -> nat
    decreases t.len(),
{
    if t.len() == 0 {
        0
    } else {
        digits_val(t.drop_last()) * 10 + digit_val(t.last())
    }
}

/// Every character of `t` is a digit.
pub open spec fn all_digits(t: Seq<char>) -> bool {
    forall|k: int| 0 <= k < t.len() ==> is_digit(t[k])
}

/// The age an `age` literal denotes: a nonempty string of plain digits
/// whose value fits 8 unsigned bits, and nothing else. A sign, a fractional
/// part, or a value over 255 is rejected.
pub open spec fn spec_age_of(t: Seq<char>) -> Option<u8> {
    if t.len() > 0 && all_digits(t) && digits_val(t) <= 255 {
        Some(digits_val(t) as u8)
    } else {
        None
    }
}

/// A digit string is worth at least as much as any of its prefixes.
proof fn lemma_digits_val_prefix(t: Seq<char>, m: int)
    requires
        0 <= m <= t.len(),
    ensures
        digits_val(t.subrange(0, m)) <= digits_val(t),
    decreases t.len() - m,
{
    if m < t.len() {
        lemma_digits_val_prefix(t, m + 1);
        assert(t.subrange(0, m + 1).drop_last() =~= t.subrange(0, m));
    } else {
        assert(t.subrange(0, m) =~= t);
    }
}

fn parse_age_lit(t: &Vec<char>) -> (r: Option<u8>)
    ensures
        r == spec_age_of(t@),
{
    if t.len() == 0 {
        return None;
    }
    let mut acc: u32 = 0;
    let mut k: usize = 0;
    while k < t.len()
        invariant
            k <= t@.len(),
            acc <= 255,
            acc as nat == digits_val(t@.subrange(0, k as int)),
            all_digits(t@.subrange(0, k as int)),
        decreases t@.len() - k,
    {
        let c = t[k];
        if !digit_char(c) {
            assert(!is_digit(t@[k as int]));
            return None;
        }
        let d = c as u32 - 48;
        proof {
            assert(t@.subrange(0, k + 1 as int).drop_last() =~= t@.subrange(0, k as int));
            assert(forall|m: int|
                0 <= m < k + 1 ==> is_digit(#[trigger] t@.subrange(0, k + 1 as int)[m]));
        }
        acc = acc * 10 + d;
        if acc > 255 {
            proof {
                lemma_digits_val_prefix(t@, k + 1);
            }
            return None;
        }
        k = k + 1;
    }
    proof {
        assert(t@.subrange(0, t@.len() as int) =~= t@);
    }
    Some(acc as u8)
}

// ---------------------------------------------------------------------------
// Building strings
// ---------------------------------------------------------------------------
/// Relies on std's `String::push`: appends the given character to the end
/// of the string.
#[verifier::external_body]
fn push_char(s: &mut String, c: char)
    ensures
        final (s)@ == old(s)@.push(c),
{
    s.push(c);
}

fn string_of_chars(v: &Vec<char>) -> (s: String)
    ensures
        s@ == v@,
{
    let mut s = String::new();
    let mut k: usize = 0;
    while k < v.len()
        invariant
            k <= v@.len(),
            s@ == v@.subrange(0, k as int),
        decreases v@.len() - k,
    {
        proof {
            assert(s@.push(v@[k as int]) =~= v@.subrange(0, k + 1 as int));
        }
        push_char(&mut s, v[k]);
        k = k + 1;
    }
    proof {
        assert(v@.subrange(0, v@.len() as int) =~= v@);
    }
    s
}

fn zero_literal() -> (s: String)
    ensures
        s@ == seq!['0'],
{
    let mut s = String::new();
    push_char(&mut s, '0');
    proof {
        assert(Seq::<char>::empty().push('0') =~= seq!['0']);
    }
    s
}

fn invalid_age_message() -> (s: String)
    ensures
        s@ == "Invalid age value"@,
{
    String::from_str("Invalid age value")
}

// ---------------------------------------------------------------------------
// Extraction
// ---------------------------------------------------------------------------
/// The raw span of an optional text child, the empty string where the
/// child is absent.
pub open spec fn or_empty(o: Option<Seq<char>>) -> Seq<char> {
    match o {
        Some(t) => t,
        None => Seq::empty(),
    }
}

/// The numeric literal of an optional `temperature` child, `"0"` where the
/// child is absent.
pub open spec fn or_zero(o: Option<Seq<char>>) -> Seq<char> {
    match o {
        Some(t) => t,
        None => seq!['0'],
    }
}

/// The visit record a visit node denotes.
pub open spec fn spec_extract_visit(n: VisitNodeV) -> VisitV {
    VisitV {
        diagnosis: spec_trim(or_empty(n.diagnosis)),
        temperature: or_zero(n.temperature),
        notes: spec_trim(or_empty(n.notes)),
    }
}

/// The visit records of a sequence of visit nodes, in order.
pub open spec fn spec_extract_visits(ns: Seq<VisitNodeV>) -> Seq<VisitV> {
    ns.map_values(|n: VisitNodeV| spec_extract_visit(n))
}

/// The patient record a patient node denotes, or `None` where its age
/// literal does not denote an age.
pub open spec fn spec_extract_patient(n: PatientNodeV) -> Option<PatientV> {
    match spec_age_of(n.age) {
        Some(a) => Some(
            PatientV { name: spec_trim(n.name), age: a, visits: spec_extract_visits(n.visits) },
        ),
        None => None,
    }
}

/// The patient records of a sequence of patient nodes, in order, or `None`
/// where any patient node fails to extract.
pub open spec fn spec_extract_doc(ns: Seq<PatientNodeV>) -> Option<Seq<PatientV>>
    decreases ns.len(),
{
    if ns.len() == 0 {
        Some(Seq::empty())
    } else {
        match spec_extract_patient(ns[0]) {
            Some(p) => match spec_extract_doc(ns.drop_first()) {
                Some(rest) => Some(seq![p] + rest),
                None => None,
            },
            None => None,
        }
    }
}

fn extract_visit(n: &VisitNode) -> (v: Visit)
    ensures
        v@ == spec_extract_visit(n@),
{
    let diagnosis = match &n.diagnosis {
        Some(t) => {
            let tt = trim_chars(t);
            string_of_chars(&tt)
        },
        None => {
            proof {
                assert(spec_trim(Seq::<char>::empty()) =~= Seq::<char>::empty());
            }
            String::new()
        },
    };
    let temperature = match &n.temperature {
        Some(t) => string_of_chars(t),
        None => zero_literal(),
    };
    let notes = match &n.notes {
        Some(t) => {
            let tt = trim_chars(t);
            string_of_chars(&tt)
        },
        None => {
            proof {
                assert(spec_trim(Seq::<char>::empty()) =~= Seq::<char>::empty());
            }
            String::new()
        },
    };
    Visit { diagnosis, temperature, notes }
}

fn extract_patient(n: &PatientNode) -> (r: Result<Patient, ParseError>)
    ensures
        match r {
            Ok(p) => spec_extract_patient(n@) == Some(p@),
            Err(e) => spec_extract_patient(n@) is None && (e matches ParseError::DataError(m)
                && m@ == "Invalid age value"@),
        },
{
    let age = match parse_age_lit(&n.age) {
        Some(a) => a,
        None => {
            return Err(ParseError::DataError(invalid_age_message()));
        },
    };
    let tn = trim_chars(&n.name);
    let name = string_of_chars(&tn);
    let mut visits: Vec<Visit> = Vec::new();
    let mut k: usize = 0;
    while k < n.visits.len()
        invariant
            k <= n.visits@.len(),
            visits_view(visits@) == spec_extract_visits(n@.visits.subrange(0, k as int)),
        decreases n.visits@.len() - k,
    {
        let v = extract_visit(&n.visits[k]);
        proof {
            assert(n@.visits.subrange(0, k + 1 as int) =~= n@.visits.subrange(0, k as int).push(
                n@.visits[k as int],
            ));
            assert(n@.visits[k as int] == n.visits@[k as int]@);
            assert(v@ == spec_extract_visit(n@.visits[k as int]));
            assert(visits_view(visits@.push(v)) =~= visits_view(visits@).push(v@));
            assert(spec_extract_visits(n@.visits.subrange(0, k as int).push(n@.visits[k as int]))
                =~= spec_extract_visits(n@.visits.subrange(0, k as int)).push(
                spec_extract_visit(n@.visits[k as int]),
            ));
        }
        visits.push(v);
        k = k + 1;
    }
    proof {
        assert(n@.visits.subrange(0, n@.visits.len() as int) =~= n@.visits);
    }
    let p = Patient { name, age, visits };
    Ok(p)
}

fn extract_document(ns: &Vec<PatientNode>) -> (r: Result<Vec<Patient>, ParseError>)
    ensures
        match r {
            Ok(ps) => spec_extract_doc(patient_nodes_view(ns@)) == Some(patients_view(ps@)),
            Err(e) => spec_extract_doc(patient_nodes_view(ns@)) is None && (e matches
                ParseError::DataError(m) && m@ == "Invalid age value"@),
        },
{
    let mut ps: Vec<Patient> = Vec::new();
    let mut k: usize = 0;
    proof {
        assert(patient_nodes_view(ns@).skip(0) =~= patient_nodes_view(ns@));
        assert(patients_view(ps@) =~= Seq::<PatientV>::empty());
        if spec_extract_doc(patient_nodes_view(ns@)) is Some {
            let rest = spec_extract_doc(patient_nodes_view(ns@))->0;
            assert(patients_view(ps@) + rest =~= rest);
        }
    }
    while k < ns.len()
        invariant
            k <= ns@.len(),
            ({
                let whole = patient_nodes_view(ns@);
                let suffix = whole.skip(k as int);
                match spec_extract_doc(suffix) {
                    Some(rest) => spec_extract_doc(whole) == Some(patients_view(ps@) + rest),
                    None => spec_extract_doc(whole) is None,
                }
            }),
        decreases ns@.len() - k,
    {
        let whole = Ghost(patient_nodes_view(ns@));
        proof {
            assert(whole@.skip(k as int).len() > 0);
            assert(whole@.skip(k as int)[0] == whole@[k as int]);
            assert(whole@.skip(k as int).drop_first() =~= whole@.skip(k + 1 as int));
        }
        match extract_patient(&ns[k]) {
            Ok(p) => {
                proof {
                    assert(patients_view(ps@.push(p)) =~= patients_view(ps@) + seq![p@]);
                    if spec_extract_doc(whole@.skip(k + 1 as int)) is Some {
                        let rest = spec_extract_doc(whole@.skip(k + 1 as int))->0;
                        assert(patients_view(ps@) + (seq![p@] + rest) =~= (patients_view(ps@)
                            + seq![p@]) + rest);
                    }
                }
                ps.push(p);
            },
            Err(e) => {
                return Err(e);
            },
        }
        k = k + 1;
    }
    proof {
        assert(patient_nodes_view(ns@).skip(ns@.len() as int) =~= Seq::<PatientNodeV>::empty());
        assert(patients_view(ps@) + Seq::<PatientV>::empty() =~= patients_view(ps@));
    }
    Ok(ps)
}

/// Parses a full medical document and returns the patients in source
/// order, a syntax error where the text does not conform to the grammar,
/// or a data error where an age literal does not denote an age.
pub fn parse_medical_document(input: &str) -> (r: Result<Vec<Patient>, ParseError>)
    ensures
        match r {
            Ok(ps) => (sp_file(input@) matches Some(nodes) && spec_extract_doc(nodes) == Some(
                patients_view(ps@),
            )),
            Err(e) => match e {
                ParseError::SyntaxError { position } => sp_file(input@) is None && position
                    <= input@.len(),
                ParseError::DataError(m) => (sp_file(input@) matches Some(nodes)
                    && spec_extract_doc(nodes) is None) && m@ == "Invalid age value"@,
            },
        },
{
    let s = chars_of(input);
    match p_file(&s) {
        Ok(nodes) => extract_document(&nodes),
        Err(e) => Err(ParseError::SyntaxError { position: e }),
    }
}

} // verus!
