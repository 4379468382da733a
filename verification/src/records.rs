//! The domain model: patients, visits, and the two error kinds a parse can
//! surface.
//!
//! All records are immutable values built once by the extractor. A
//! temperature is kept as its validated numeric literal (for example
//! `"38.1"`), exactly as it stood between the `<temperature>` tags: the
//! grammar guarantees the literal's shape, and callers that want to compute
//! with it convert it outside the library.

use vstd::prelude::*;

verus! {

/// One medical visit: a trimmed diagnosis, the numeric literal of the
/// temperature, and trimmed notes.
#[derive(Debug)]
pub struct Visit {
    pub diagnosis: String,
    pub temperature: String,
    pub notes: String,
}

/// The mathematical value of a [`Visit`]: its three fields as character
/// sequences.
pub struct VisitV {
    pub diagnosis: Seq<char>,
    pub temperature: Seq<char>,
    pub notes: Seq<char>,
}

impl View for Visit {
    type V = VisitV;

    open spec fn view(&self) -> VisitV {
        VisitV {
            diagnosis: self.diagnosis@,
            temperature: self.temperature@,
            notes: self.notes@,
        }
    }
}

/// One patient record: a trimmed name, an age that fits 8 unsigned bits, and
/// the visits in source order.
#[derive(Debug)]
pub struct Patient {
    pub name: String,
    pub age: u8,
    pub visits: Vec<Visit>,
}

/// The mathematical value of a [`Patient`].
pub struct PatientV {
    pub name: Seq<char>,
    pub age: u8,
    pub visits: Seq<VisitV>,
}

/// The values of a sequence of visits.
pub open spec fn visits_view(vs: Seq<Visit>) -> Seq<VisitV> {
    vs.map_values(|v: Visit| v@)
}

impl View for Patient {
    type V = PatientV;

    open spec fn view(&self) -> PatientV {
        PatientV { name: self.name@, age: self.age, visits: visits_view(self.visits@) }
    }
}

/// The values of a sequence of patients.
pub open spec fn patients_view(ps: Seq<Patient>) -> Seq<PatientV> {
    ps.map_values(|p: Patient| p@)
}

/// What a parse surfaces when it fails. The two kinds stay distinguishable:
/// a syntax error means the text does not conform to the grammar, a data
/// error means a syntactically valid field failed numeric conversion.
#[derive(Debug)]
pub enum ParseError {
    /// The grammar rejected the input; `position` is a character offset into
    /// the input near which recognition stopped.
    SyntaxError { position: usize },
    /// A field's content could not be converted to its semantic type; the
    /// message names the field.
    DataError(String),
}

/// The number of visits in `ps`, summed over all patients.
pub open spec fn spec_total_visits(ps: Seq<PatientV>) -> nat
    decreases ps.len(),
{
    if ps.len() == 0 {
        0
    } else {
        spec_total_visits(ps.drop_last()) + ps.last().visits.len()
    }
}

/// Returns the number of patients in the document.
pub fn count_patients(patients: &[Patient]) -> (n: usize)
    ensures
        n == patients@.len(),
{
    patients.len()
}

/// Returns the total number of visits across all patients, saturating at
/// `usize::MAX` if the true sum does not fit.
pub fn count_total_visits(patients: &[Patient]) -> (n: usize)
    ensures
        n as nat == ({
            let t = spec_total_visits(patients_view(patients@));
            if t > usize::MAX as nat {
                usize::MAX as nat
            } else {
                t
            }
        }),
{
    let mut n: usize = 0;
    let mut i: usize = 0;
    while i < patients.len()
        invariant
            i <= patients@.len(),
            n as nat == ({
                let t = spec_total_visits(patients_view(patients@.subrange(0, i as int)));
                if t > usize::MAX as nat {
                    usize::MAX as nat
                } else {
                    t
                }
            }),
        decreases patients@.len() - i,
    {
        proof {
            assert(patients_view(patients@.subrange(0, i + 1 as int)).drop_last()
                =~= patients_view(patients@.subrange(0, i as int)));
            assert(patients_view(patients@.subrange(0, i + 1 as int)).last()
                == patients@[i as int]@);
        }
        n = n.saturating_add(patients[i].visits.len());
        i = i + 1;
    }
    proof {
        assert(patients@.subrange(0, patients@.len() as int) =~= patients@);
    }
    n
}

} // verus!
