//! Laws the library keeps, proved once and for all over the grammar and
//! extraction spec functions that the executable functions are verified
//! against.

use crate::extract::spec_age_of;
use crate::extract::spec_trim;
use crate::extract::trim_stop;
use crate::grammar::is_space;
use crate::grammar::lemma_ws_end;
use crate::extract::spec_extract_doc;
use crate::extract::spec_extract_patient;
use crate::extract::spec_extract_visit;
use crate::grammar::digits_end;
use crate::grammar::is_digit;
use crate::grammar::lemma_digits_end;
use crate::grammar::lemma_digits_end_is;
use crate::grammar::lemma_text_end;
use crate::grammar::number_end;
use crate::grammar::open_tag;
use crate::grammar::sp_text_elem;
use crate::grammar::PatientNodeV;
use crate::records::PatientV;
use vstd::prelude::*;

verus! {

/// Law: extraction preserves patient order. A successfully extracted
/// document has exactly one patient record per patient node, each the
/// extraction of the node at the same position.
pub proof fn lemma_extraction_preserves_order(ns: Seq<PatientNodeV>, ps: Seq<PatientV>)
    requires
        spec_extract_doc(ns) == Some(ps),
    ensures
        ps.len() == ns.len(),
        forall|k: int| 0 <= k < ns.len() ==> Some(#[trigger] ps[k]) == spec_extract_patient(ns[k]),
    decreases ns.len(),
{
    if ns.len() > 0 {
        let rest = spec_extract_doc(ns.drop_first())->0;
        lemma_extraction_preserves_order(ns.drop_first(), rest);
        assert forall|k: int| 0 <= k < ns.len() implies Some(#[trigger] ps[k])
            == spec_extract_patient(ns[k]) by {
            if k > 0 {
                assert(ps[k] == rest[k - 1]);
                assert(ns.drop_first()[k - 1] == ns[k]);
            }
        }
    }
}

/// Law: extraction preserves visit order. An extracted patient has exactly
/// one visit record per visit node, each the extraction of the node at the
/// same position.
pub proof fn lemma_patient_preserves_visit_order(n: PatientNodeV, p: PatientV)
    requires
        spec_extract_patient(n) == Some(p),
    ensures
        p.visits.len() == n.visits.len(),
        forall|k: int|
            0 <= k < n.visits.len() ==> #[trigger] p.visits[k] == spec_extract_visit(n.visits[k]),
{
}

/// Law: an age literal that does not denote an age fails the patient,
/// whatever its other fields hold.
pub proof fn lemma_bad_age_fails_patient(n: PatientNodeV)
    requires
        spec_age_of(n.age) is None,
    ensures
        spec_extract_patient(n) is None,
{
}

/// Law: one failing patient fails the whole document, wherever it stands.
pub proof fn lemma_bad_patient_fails_document(ns: Seq<PatientNodeV>, k: int)
    requires
        0 <= k < ns.len(),
        spec_extract_patient(ns[k]) is None,
    ensures
        spec_extract_doc(ns) is None,
    decreases ns.len(),
{
    if k > 0 && spec_extract_patient(ns[0]) is Some {
        assert(ns.drop_first()[k - 1] == ns[k]);
        lemma_bad_patient_fails_document(ns.drop_first(), k - 1);
    }
}

/// Law: a patient with no visit children extracts to a patient whose visit
/// sequence is empty; it is not an error.
pub proof fn lemma_no_visits_is_not_an_error(n: PatientNodeV)
    requires
        spec_age_of(n.age) is Some,
        n.visits.len() == 0,
    ensures
        spec_extract_patient(n) matches Some(p) && p.visits.len() == 0,
{
}

/// The characters of `t` between `a` and `b` are all digits.
pub open spec fn digits_between(t: Seq<char>, a: int, b: int) -> bool {
    forall|k: int| a <= k < b ==> is_digit(t[k])
}

/// The position after the optional leading sign of `t`.
pub open spec fn sign_end(t: Seq<char>) -> int {
    if t.len() > 0 && t[0] == '-' {
        1
    } else {
        0
    }
}

/// `t` is, in full, an integer-shaped or decimal-shaped numeric literal:
/// an optional sign, one or more digits, and optionally a point followed
/// by one or more digits.
pub open spec fn is_number_lit(t: Seq<char>) -> bool {
    exists|d: int|
        #![trigger digits_between(t, sign_end(t), d)]
        {
            &&& sign_end(t) < d <= t.len()
            &&& digits_between(t, sign_end(t), d)
            &&& (d == t.len() || (t[d] == '.' && d + 1 < t.len() && digits_between(
                t,
                d + 1,
                t.len() as int,
            )))
        }
}

/// Law: the `number` rule consumes a whole literal exactly when the
/// literal is integer-shaped or decimal-shaped; a literal holding any
/// other character (a letter, a second sign or point) is rejected.
pub proof fn lemma_number_literal_shapes(t: Seq<char>)
    ensures
        number_end(t, 0) == Some(t.len() as int) <==> is_number_lit(t),
{
    let b = sign_end(t);
    if number_end(t, 0) == Some(t.len() as int) {
        lemma_digits_end(t, b);
        lemma_digits_end(t, b + 1);
        let k = digits_end(t, b);
        assert(is_digit(t[b]));
        assert(b < k <= t.len());
        if k < t.len() && t[k] == '.' && k + 1 < t.len() && is_digit(t[k + 1]) {
            lemma_digits_end(t, k + 1);
            assert(digits_between(t, b, k));
            assert(digits_between(t, k + 1, t.len() as int));
            assert(digits_end(t, k + 1) == t.len());
            assert(t[k] == '.' && k + 1 < t.len());
        } else {
            assert(k == t.len());
            assert(digits_between(t, b, k));
        }
        assert(is_number_lit(t));
    }
    if is_number_lit(t) {
        let d = choose|d: int|
            #![trigger digits_between(t, sign_end(t), d)]
            {
                &&& sign_end(t) < d <= t.len()
                &&& digits_between(t, sign_end(t), d)
                &&& (d == t.len() || (t[d] == '.' && d + 1 < t.len() && digits_between(
                    t,
                    d + 1,
                    t.len() as int,
                )))
            };
        assert(is_digit(t[b]));
        lemma_digits_end_is(t, b, d);
        if d < t.len() {
            assert(is_digit(t[d + 1]));
            lemma_digits_end_is(t, d + 1, t.len() as int);
        }
        assert(number_end(t, 0) == Some(t.len() as int));
    }
}

proof fn lemma_trim_stop(t: Seq<char>, j: int)
    requires
        0 <= j <= t.len(),
    ensures
        0 <= trim_stop(t, j) <= j,
        trim_stop(t, j) == 0 || !is_space(t[trim_stop(t, j) - 1]),
        forall|k: int| trim_stop(t, j) <= k < j ==> is_space(t[k]),
    decreases j,
{
    if 0 < j && is_space(t[j - 1]) {
        lemma_trim_stop(t, j - 1);
    }
}

/// Law: a trimmed value never starts or ends with whitespace; trimming
/// never lengthens a value.
pub proof fn lemma_trim_characterization(t: Seq<char>)
    ensures
        spec_trim(t).len() <= t.len(),
        spec_trim(t).len() > 0 ==> !is_space(spec_trim(t).first()),
        spec_trim(t).len() > 0 ==> !is_space(spec_trim(t).last()),
{
    lemma_ws_end(t, 0);
    lemma_trim_stop(t, t.len() as int);
}

/// Law: a text span never holds the reserved markup character `<`.
pub proof fn lemma_text_spans_have_no_markup(s: Seq<char>, i: int, name: Seq<char>)
    requires
        0 <= i <= s.len(),
        sp_text_elem(s, i, name) is Some,
    ensures
        forall|k: int|
            0 <= k < (sp_text_elem(s, i, name)->0).1.len() ==> (sp_text_elem(s, i, name)->0).1[k]
                != '<',
{
    lemma_text_end(s, i + open_tag(name).len());
}

} // verus!
