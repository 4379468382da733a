//! The grammar engine: the formal rules of the markup format and a
//! recursive-descent recognizer that turns raw text into a typed syntax tree.
//!
//! The rule set, in PEG style (ordered choice, committed matches):
//!
//! * `file`        = ws (`patient` ws)* end-of-input
//! * `patient`     = `<patient>` ws `name` ws `age` ws (`visit` ws)* `</patient>`
//! * `visit`       = `<visit>` ws `diagnosis`? ws `temperature`? ws `notes`? ws `</visit>`
//! * `name`, `diagnosis`, `notes` = open tag, `text`, matching close tag
//! * `age`, `temperature` = open tag, ws `number` ws, matching close tag
//! * `text`        = one or more characters other than `<`
//! * `number`      = optional `-`, one or more digits, then optionally
//!   `.` followed by one or more digits
//! * ws            = any run of spaces, tabs, carriage returns or newlines
//!
//! Each rule is a spec function from a position to the position after the
//! match (`None` where the rule does not match), so the grammar is
//! deterministic; the executable parser is proved to agree with it exactly.

use crate::records::ParseError;
use vstd::prelude::*;
use vstd::string::StrSliceExecFns;

verus! {

// ---------------------------------------------------------------------------
// Character classes
// ---------------------------------------------------------------------------
/// Insignificant whitespace: space, tab, carriage return, newline.
pub open spec fn is_space(c: char) -> bool {
    c == ' ' || c == '\t' || c == '\r' || c == '\n'
}

/// A decimal digit.
pub open spec fn is_digit(c: char) -> bool {
    48 <= c as u32 && c as u32 <= 57
}

/// A character allowed inside a text span: anything but the reserved
/// markup character `<`.
pub open spec fn is_text_char(c: char) -> bool {
    c != '<'
}

// ---------------------------------------------------------------------------
// Scanners: maximal runs of a character class
// ---------------------------------------------------------------------------
/// The position after the whitespace run starting at `i`.
pub open spec fn ws_end(s: Seq<char>, i: int) -> int
    decreases s.len() - i,
{
    if 0 <= i && i < s.len() && is_space(s[i]) {
        ws_end(s, i + 1)
    } else {
        i
    }
}

/// The position after the digit run starting at `i`.
pub open spec fn digits_end(s: Seq<char>, i: int) -> int
    decreases s.len() - i,
{
    if 0 <= i && i < s.len() && is_digit(s[i]) {
        digits_end(s, i + 1)
    } else {
        i
    }
}

/// The position after the text run starting at `i`.
pub open spec fn text_end(s: Seq<char>, i: int) -> int
    decreases s.len() - i,
{
    if 0 <= i && i < s.len() && is_text_char(s[i]) {
        text_end(s, i + 1)
    } else {
        i
    }
}

pub proof fn lemma_ws_end(s: Seq<char>, i: int)
    requires
        0 <= i <= s.len(),
    ensures
        i <= ws_end(s, i) <= s.len(),
        forall|k: int| i <= k < ws_end(s, i) ==> is_space(s[k]),
        ws_end(s, i) == s.len() || !is_space(s[ws_end(s, i)]),
    decreases s.len() - i,
{
    if i < s.len() && is_space(s[i]) {
        lemma_ws_end(s, i + 1);
    }
}

pub proof fn lemma_digits_end(s: Seq<char>, i: int)
    requires
        0 <= i <= s.len(),
    ensures
        i <= digits_end(s, i) <= s.len(),
        forall|k: int| i <= k < digits_end(s, i) ==> is_digit(s[k]),
        digits_end(s, i) == s.len() || !is_digit(s[digits_end(s, i)]),
    decreases s.len() - i,
{
    if i < s.len() && is_digit(s[i]) {
        lemma_digits_end(s, i + 1);
    }
}

pub proof fn lemma_text_end(s: Seq<char>, i: int)
    requires
        0 <= i <= s.len(),
    ensures
        i <= text_end(s, i) <= s.len(),
        forall|k: int| i <= k < text_end(s, i) ==> is_text_char(s[k]),
        text_end(s, i) == s.len() || !is_text_char(s[text_end(s, i)]),
    decreases s.len() - i,
{
    if i < s.len() && is_text_char(s[i]) {
        lemma_text_end(s, i + 1);
    }
}

/// A scan ends at `m` exactly when the run of digits starting at `i`
/// stops there.
pub proof fn lemma_digits_end_is(s: Seq<char>, i: int, m: int)
    requires
        0 <= i <= m <= s.len(),
        forall|k: int| i <= k < m ==> is_digit(s[k]),
        m == s.len() || !is_digit(s[m]),
    ensures
        digits_end(s, i) == m,
    decreases m - i,
{
    if i < m {
        lemma_digits_end_is(s, i + 1, m);
    }
}

// ---------------------------------------------------------------------------
// Literals and tags
// ---------------------------------------------------------------------------
/// The literal `t` stands in `s` at position `i`.
pub open spec fn lit_at(s: Seq<char>, i: int, t: Seq<char>) -> bool {
    &&& 0 <= i
    &&& i + t.len() <= s.len()
    &&& forall|k: int| 0 <= k < t.len() ==> s[i + k] == t[k]
}

pub open spec fn kw_patient() -> Seq<char> {
    seq!['p', 'a', 't', 'i', 'e', 'n', 't']
}

pub open spec fn kw_name() -> Seq<char> {
    seq!['n', 'a', 'm', 'e']
}

pub open spec fn kw_age() -> Seq<char> {
    seq!['a', 'g', 'e']
}

pub open spec fn kw_visit() -> Seq<char> {
    seq!['v', 'i', 's', 'i', 't']
}

pub open spec fn kw_diagnosis() -> Seq<char> {
    seq!['d', 'i', 'a', 'g', 'n', 'o', 's', 'i', 's']
}

pub open spec fn kw_temperature() -> Seq<char> {
    seq!['t', 'e', 'm', 'p', 'e', 'r', 'a', 't', 'u', 'r', 'e']
}

pub open spec fn kw_notes() -> Seq<char> {
    seq!['n', 'o', 't', 'e', 's']
}

/// `<name>` for a tag name.
pub open spec fn open_tag(name: Seq<char>) -> Seq<char> {
    seq!['<'] + name + seq!['>']
}

/// `</name>` for a tag name.
pub open spec fn close_tag(name: Seq<char>) -> Seq<char> {
    seq!['<', '/'] + name + seq!['>']
}

// ---------------------------------------------------------------------------
// The rules
// ---------------------------------------------------------------------------
/// `number` at `i`: optional `-`, one or more digits, then optionally `.`
/// followed by one or more digits. Returns the position after the match.
pub open spec fn number_end(s: Seq<char>, i: int) -> Option<int> {
    let j: int = if 0 <= i && i < s.len() && s[i] == '-' {
        i + 1
    } else {
        i
    };
    if 0 <= j && j < s.len() && is_digit(s[j]) {
        let k = digits_end(s, j);
        if k < s.len() && s[k] == '.' && k + 1 < s.len() && is_digit(s[k + 1]) {
            Some(digits_end(s, k + 1))
        } else {
            Some(k)
        }
    } else {
        None
    }
}

/// A text element `<name>text</name>` at `i`. Returns the position after
/// the close tag and the raw text span (untrimmed).
pub open spec fn sp_text_elem(s: Seq<char>, i: int, name: Seq<char>) -> Option<(int, Seq<char>)> {
    if lit_at(s, i, open_tag(name)) {
        let a = i + open_tag(name).len();
        let e = text_end(s, a);
        if a < e && lit_at(s, e, close_tag(name)) {
            Some((e + close_tag(name).len(), s.subrange(a, e)))
        } else {
            None
        }
    } else {
        None
    }
}

/// A numeric element `<name> number </name>` at `i`. Returns the position
/// after the close tag and the numeric literal.
pub open spec fn sp_num_elem(s: Seq<char>, i: int, name: Seq<char>) -> Option<(int, Seq<char>)> {
    if lit_at(s, i, open_tag(name)) {
        let a = ws_end(s, i + open_tag(name).len());
        match number_end(s, a) {
            Some(b) => {
                let c = ws_end(s, b);
                if lit_at(s, c, close_tag(name)) {
                    Some((c + close_tag(name).len(), s.subrange(a, b)))
                } else {
                    None
                }
            },
            None => None,
        }
    } else {
        None
    }
}

// ---------------------------------------------------------------------------
// Syntax tree nodes
// ---------------------------------------------------------------------------
/// The syntax node of one `visit` block: the raw spans of the children that
/// were present.
pub struct VisitNode {
    pub diagnosis: Option<Vec<char>>,
    pub temperature: Option<Vec<char>>,
    pub notes: Option<Vec<char>>,
}

/// The mathematical value of a [`VisitNode`].
pub struct VisitNodeV {
    pub diagnosis: Option<Seq<char>>,
    pub temperature: Option<Seq<char>>,
    pub notes: Option<Seq<char>>,
}

impl View for VisitNode {
    type V = VisitNodeV;

    open spec fn view(&self) -> VisitNodeV {
        VisitNodeV {
            diagnosis: match self.diagnosis {
                Some(t) => Some(t@),
                None => None,
            },
            temperature: match self.temperature {
                Some(t) => Some(t@),
                None => None,
            },
            notes: match self.notes {
                Some(t) => Some(t@),
                None => None,
            },
        }
    }
}

/// The syntax node of one `patient` block: the raw name span, the raw age
/// literal, and the visit nodes in source order.
pub struct PatientNode {
    pub name: Vec<char>,
    pub age: Vec<char>,
    pub visits: Vec<VisitNode>,
}

/// The values of a sequence of visit nodes.
pub open spec fn visit_nodes_view(ns: Seq<VisitNode>) -> Seq<VisitNodeV> {
    ns.map_values(|n: VisitNode| n@)
}

/// The mathematical value of a [`PatientNode`].
pub struct PatientNodeV {
    pub name: Seq<char>,
    pub age: Seq<char>,
    pub visits: Seq<VisitNodeV>,
}

impl View for PatientNode {
    type V = PatientNodeV;

    open spec fn view(&self) -> PatientNodeV {
        PatientNodeV { name: self.name@, age: self.age@, visits: visit_nodes_view(self.visits@) }
    }
}

/// The values of a sequence of patient nodes.
pub open spec fn patient_nodes_view(ns: Seq<PatientNode>) -> Seq<PatientNodeV> {
    ns.map_values(|n: PatientNode| n@)
}

// ---------------------------------------------------------------------------
// Composite rules
// ---------------------------------------------------------------------------
/// Step over an optional child: where it matched, skip the trailing
/// whitespace; where it did not, stay at `i` with no value.
pub open spec fn opt_child(s: Seq<char>, i: int, r: Option<(int, Seq<char>)>) -> (
    int,
    Option<Seq<char>>,
) {
    match r {
        Some(p) => (ws_end(s, p.0), Some(p.1)),
        None => (i, None),
    }
}

/// A `visit` block at `i`: open tag, then optional `diagnosis`,
/// `temperature` and `notes` children in that order, then the close tag.
pub open spec fn sp_visit(s: Seq<char>, i: int) -> Option<(int, VisitNodeV)> {
    if lit_at(s, i, open_tag(kw_visit())) {
        let a = ws_end(s, i + open_tag(kw_visit()).len());
        let bd = opt_child(s, a, sp_text_elem(s, a, kw_diagnosis()));
        let ct = opt_child(s, bd.0, sp_num_elem(s, bd.0, kw_temperature()));
        let dn = opt_child(s, ct.0, sp_text_elem(s, ct.0, kw_notes()));
        if lit_at(s, dn.0, close_tag(kw_visit())) {
            Some(
                (
                    dn.0 + close_tag(kw_visit()).len(),
                    VisitNodeV { diagnosis: bd.1, temperature: ct.1, notes: dn.1 },
                ),
            )
        } else {
            None
        }
    } else {
        None
    }
}

/// Zero or more `visit` blocks separated by whitespace, starting at `i`.
/// Returns the position after the last block and the nodes in source order.
pub open spec fn sp_visits(s: Seq<char>, i: int) -> (int, Seq<VisitNodeV>)
    decreases s.len() - i,
{
    match sp_visit(s, i) {
        Some(r) => {
            let a = ws_end(s, r.0);
            if i < a && a <= s.len() {
                let rest = sp_visits(s, a);
                (rest.0, seq![r.1] + rest.1)
            } else {
                (i, Seq::empty())
            }
        },
        None => (i, Seq::empty()),
    }
}

/// A `patient` block at `i`: open tag, exactly one `name`, exactly one
/// `age`, zero or more `visit` blocks, close tag.
pub open spec fn sp_patient(s: Seq<char>, i: int) -> Option<(int, PatientNodeV)> {
    if lit_at(s, i, open_tag(kw_patient())) {
        let a = ws_end(s, i + open_tag(kw_patient()).len());
        match sp_text_elem(s, a, kw_name()) {
            Some(rn) => {
                let b = ws_end(s, rn.0);
                match sp_num_elem(s, b, kw_age()) {
                    Some(ra) => {
                        let c = ws_end(s, ra.0);
                        let vs = sp_visits(s, c);
                        if lit_at(s, vs.0, close_tag(kw_patient())) {
                            Some(
                                (
                                    vs.0 + close_tag(kw_patient()).len(),
                                    PatientNodeV { name: rn.1, age: ra.1, visits: vs.1 },
                                ),
                            )
                        } else {
                            None
                        }
                    },
                    None => None,
                }
            },
            None => None,
        }
    } else {
        None
    }
}

/// Zero or more `patient` blocks separated by whitespace, starting at `i`.
pub open spec fn sp_patients(s: Seq<char>, i: int) -> (int, Seq<PatientNodeV>)
    decreases s.len() - i,
{
    match sp_patient(s, i) {
        Some(r) => {
            let a = ws_end(s, r.0);
            if i < a && a <= s.len() {
                let rest = sp_patients(s, a);
                (rest.0, seq![r.1] + rest.1)
            } else {
                (i, Seq::empty())
            }
        },
        None => (i, Seq::empty()),
    }
}

/// A whole document: leading whitespace, the patient blocks, end of input.
/// `Some` holds the patient nodes in source order.
pub open spec fn sp_file(s: Seq<char>) -> Option<Seq<PatientNodeV>> {
    let r = sp_patients(s, ws_end(s, 0));
    if r.0 == s.len() {
        Some(r.1)
    } else {
        None
    }
}

// ---------------------------------------------------------------------------
// Executable scanners and helpers
// ---------------------------------------------------------------------------
pub(crate) fn space_char(c: char) -> (b: bool)
    ensures
        b == is_space(c),
{
    c == ' ' || c == '\t' || c == '\r' || c == '\n'
}

pub(crate) fn digit_char(c: char) -> (b: bool)
    ensures
        b == is_digit(c),
{
    let u = c as u32;
    48 <= u && u <= 57
}

fn text_char(c: char) -> (b: bool)
    ensures
        b == is_text_char(c),
{
    c != '<'
}

pub(crate) fn skip_ws(s: &Vec<char>, i: usize) -> (j: usize)
    requires
        i <= s@.len(),
    ensures
        j == ws_end(s@, i as int),
        i <= j <= s@.len(),
{
    let mut j = i;
    while j < s.len() && space_char(s[j])
        invariant
            i <= j <= s@.len(),
            ws_end(s@, i as int) == ws_end(s@, j as int),
        decreases s@.len() - j,
    {
        j = j + 1;
    }
    j
}

fn scan_digits(s: &Vec<char>, i: usize) -> (j: usize)
    requires
        i <= s@.len(),
    ensures
        j == digits_end(s@, i as int),
        i <= j <= s@.len(),
{
    let mut j = i;
    while j < s.len() && digit_char(s[j])
        invariant
            i <= j <= s@.len(),
            digits_end(s@, i as int) == digits_end(s@, j as int),
        decreases s@.len() - j,
    {
        j = j + 1;
    }
    j
}

fn scan_text(s: &Vec<char>, i: usize) -> (j: usize)
    requires
        i <= s@.len(),
    ensures
        j == text_end(s@, i as int),
        i <= j <= s@.len(),
{
    let mut j = i;
    while j < s.len() && text_char(s[j])
        invariant
            i <= j <= s@.len(),
            text_end(s@, i as int) == text_end(s@, j as int),
        decreases s@.len() - j,
    {
        j = j + 1;
    }
    j
}

fn match_lit(s: &Vec<char>, i: usize, t: &Vec<char>) -> (b: bool)
    requires
        i <= s@.len(),
    ensures
        b == lit_at(s@, i as int, t@),
{
    if s.len() - i < t.len() {
        return false;
    }
    let mut k: usize = 0;
    while k < t.len()
        invariant
            k <= t@.len(),
            i + t@.len() <= s@.len() <= usize::MAX,
            forall|m: int| 0 <= m < k ==> s@[i + m] == t@[m],
        decreases t@.len() - k,
    {
        if s[i + k] != t[k] {
            return false;
        }
        k = k + 1;
    }
    true
}

pub(crate) fn copy_span(s: &Vec<char>, a: usize, b: usize) -> (r: Vec<char>)
    requires
        a <= b <= s@.len(),
    ensures
        r@ == s@.subrange(a as int, b as int),
{
    let mut r: Vec<char> = Vec::new();
    let mut k = a;
    while k < b
        invariant
            a <= k <= b <= s@.len(),
            r@ == s@.subrange(a as int, k as int),
        decreases b - k,
    {
        proof {
            assert(r@.push(s@[k as int]) =~= s@.subrange(a as int, k + 1 as int));
        }
        r.push(s[k]);
        k = k + 1;
    }
    r
}

fn kw_patient_vec() -> (r: Vec<char>)
    ensures
        r@ == kw_patient(),
{
    let r = vec!['p', 'a', 't', 'i', 'e', 'n', 't'];
    proof {
        assert(r@ =~= kw_patient());
    }
    r
}

fn kw_name_vec() -> (r: Vec<char>)
    ensures
        r@ == kw_name(),
{
    let r = vec!['n', 'a', 'm', 'e'];
    proof {
        assert(r@ =~= kw_name());
    }
    r
}

fn kw_age_vec() -> (r: Vec<char>)
    ensures
        r@ == kw_age(),
{
    let r = vec!['a', 'g', 'e'];
    proof {
        assert(r@ =~= kw_age());
    }
    r
}

fn kw_visit_vec() -> (r: Vec<char>)
    ensures
        r@ == kw_visit(),
{
    let r = vec!['v', 'i', 's', 'i', 't'];
    proof {
        assert(r@ =~= kw_visit());
    }
    r
}

fn kw_diagnosis_vec() -> (r: Vec<char>)
    ensures
        r@ == kw_diagnosis(),
{
    let r = vec!['d', 'i', 'a', 'g', 'n', 'o', 's', 'i', 's'];
    proof {
        assert(r@ =~= kw_diagnosis());
    }
    r
}

fn kw_temperature_vec() -> (r: Vec<char>)
    ensures
        r@ == kw_temperature(),
{
    let r = vec!['t', 'e', 'm', 'p', 'e', 'r', 'a', 't', 'u', 'r', 'e'];
    proof {
        assert(r@ =~= kw_temperature());
    }
    r
}

fn kw_notes_vec() -> (r: Vec<char>)
    ensures
        r@ == kw_notes(),
{
    let r = vec!['n', 'o', 't', 'e', 's'];
    proof {
        assert(r@ =~= kw_notes());
    }
    r
}

fn mk_open(name: &Vec<char>) -> (r: Vec<char>)
    ensures
        r@ == open_tag(name@),
{
    let mut r: Vec<char> = Vec::new();
    r.push('<');
    let mut k: usize = 0;
    while k < name.len()
        invariant
            k <= name@.len(),
            r@ == seq!['<'] + name@.subrange(0, k as int),
        decreases name@.len() - k,
    {
        proof {
            assert(r@.push(name@[k as int]) =~= seq!['<'] + name@.subrange(0, k + 1 as int));
        }
        r.push(name[k]);
        k = k + 1;
    }
    r.push('>');
    proof {
        assert(name@.subrange(0, name@.len() as int) =~= name@);
        assert((seq!['<'] + name@).push('>') =~= open_tag(name@));
    }
    r
}

fn mk_close(name: &Vec<char>) -> (r: Vec<char>)
    ensures
        r@ == close_tag(name@),
{
    let mut r: Vec<char> = Vec::new();
    r.push('<');
    r.push('/');
    let mut k: usize = 0;
    while k < name.len()
        invariant
            k <= name@.len(),
            r@ == seq!['<', '/'] + name@.subrange(0, k as int),
        decreases name@.len() - k,
    {
        proof {
            assert(r@.push(name@[k as int]) =~= seq!['<', '/'] + name@.subrange(0, k + 1 as int));
        }
        r.push(name[k]);
        k = k + 1;
    }
    r.push('>');
    proof {
        assert(name@.subrange(0, name@.len() as int) =~= name@);
        assert((seq!['<', '/'] + name@).push('>') =~= close_tag(name@));
    }
    r
}

// ---------------------------------------------------------------------------
// Progress: a matched rule always moves the position forward, within bounds
// ---------------------------------------------------------------------------
pub proof fn lemma_number_end_some(s: Seq<char>, i: int)
    requires
        0 <= i <= s.len(),
        number_end(s, i) is Some,
    ensures
        i < number_end(s, i)->0 <= s.len(),
{
    let j: int = if i < s.len() && s[i] == '-' {
        i + 1
    } else {
        i
    };
    lemma_digits_end(s, j + 1);
    let k = digits_end(s, j);
    if k < s.len() && s[k] == '.' && k + 1 < s.len() && is_digit(s[k + 1]) {
        lemma_digits_end(s, k + 2);
    }
}

pub proof fn lemma_text_elem_some(s: Seq<char>, i: int, name: Seq<char>)
    requires
        0 <= i <= s.len(),
        sp_text_elem(s, i, name) is Some,
    ensures
        i < sp_text_elem(s, i, name)->0 .0 <= s.len(),
{
    lemma_text_end(s, i + open_tag(name).len());
}

pub proof fn lemma_num_elem_some(s: Seq<char>, i: int, name: Seq<char>)
    requires
        0 <= i <= s.len(),
        sp_num_elem(s, i, name) is Some,
    ensures
        i < sp_num_elem(s, i, name)->0 .0 <= s.len(),
{
    lemma_ws_end(s, i + open_tag(name).len());
    let a = ws_end(s, i + open_tag(name).len());
    lemma_number_end_some(s, a);
    lemma_ws_end(s, number_end(s, a)->0);
}

pub proof fn lemma_visit_some(s: Seq<char>, i: int)
    requires
        0 <= i <= s.len(),
        sp_visit(s, i) is Some,
    ensures
        i < sp_visit(s, i)->0 .0 <= s.len(),
{
    lemma_ws_end(s, i + open_tag(kw_visit()).len());
    let a = ws_end(s, i + open_tag(kw_visit()).len());
    if sp_text_elem(s, a, kw_diagnosis()) is Some {
        lemma_text_elem_some(s, a, kw_diagnosis());
        lemma_ws_end(s, sp_text_elem(s, a, kw_diagnosis())->0 .0);
    }
    let bd = opt_child(s, a, sp_text_elem(s, a, kw_diagnosis()));
    if sp_num_elem(s, bd.0, kw_temperature()) is Some {
        lemma_num_elem_some(s, bd.0, kw_temperature());
        lemma_ws_end(s, sp_num_elem(s, bd.0, kw_temperature())->0 .0);
    }
    let ct = opt_child(s, bd.0, sp_num_elem(s, bd.0, kw_temperature()));
    if sp_text_elem(s, ct.0, kw_notes()) is Some {
        lemma_text_elem_some(s, ct.0, kw_notes());
        lemma_ws_end(s, sp_text_elem(s, ct.0, kw_notes())->0 .0);
    }
}

pub proof fn lemma_visits_bounds(s: Seq<char>, i: int)
    requires
        0 <= i <= s.len(),
    ensures
        i <= sp_visits(s, i).0 <= s.len(),
    decreases s.len() - i,
{
    if let Some(r) = sp_visit(s, i) {
        let a = ws_end(s, r.0);
        if i < a && a <= s.len() {
            lemma_visits_bounds(s, a);
        }
    }
}

pub proof fn lemma_patient_some(s: Seq<char>, i: int)
    requires
        0 <= i <= s.len(),
        sp_patient(s, i) is Some,
    ensures
        i < sp_patient(s, i)->0 .0 <= s.len(),
{
    lemma_ws_end(s, i + open_tag(kw_patient()).len());
    let a = ws_end(s, i + open_tag(kw_patient()).len());
    lemma_text_elem_some(s, a, kw_name());
    lemma_ws_end(s, sp_text_elem(s, a, kw_name())->0 .0);
    let b = ws_end(s, sp_text_elem(s, a, kw_name())->0 .0);
    lemma_num_elem_some(s, b, kw_age());
    lemma_ws_end(s, sp_num_elem(s, b, kw_age())->0 .0);
    let c = ws_end(s, sp_num_elem(s, b, kw_age())->0 .0);
    lemma_visits_bounds(s, c);
}

pub proof fn lemma_patients_bounds(s: Seq<char>, i: int)
    requires
        0 <= i <= s.len(),
    ensures
        i <= sp_patients(s, i).0 <= s.len(),
    decreases s.len() - i,
{
    if let Some(r) = sp_patient(s, i) {
        let a = ws_end(s, r.0);
        if i < a && a <= s.len() {
            lemma_patients_bounds(s, a);
        }
    }
}

// ---------------------------------------------------------------------------
// The executable parser
// ---------------------------------------------------------------------------
fn p_number(s: &Vec<char>, i: usize) -> (r: Result<usize, usize>)
    requires
        i <= s@.len(),
    ensures
        match r {
            Ok(b) => number_end(s@, i as int) == Some(b as int) && i < b <= s@.len(),
            Err(e) => number_end(s@, i as int) is None && e <= s@.len(),
        },
{
    let j = if i < s.len() && s[i] == '-' {
        i + 1
    } else {
        i
    };
    if j < s.len() && digit_char(s[j]) {
        proof {
            lemma_digits_end(s@, j + 1);
        }
        let k = scan_digits(s, j);
        if k < s.len() && s[k] == '.' {
            if k + 1 < s.len() && digit_char(s[k + 1]) {
                proof {
                    lemma_digits_end(s@, k + 2);
                }
                let b = scan_digits(s, k + 1);
                return Ok(b);
            }
            return Ok(k);
        }
        Ok(k)
    } else {
        Err(j)
    }
}

fn p_text_elem(s: &Vec<char>, i: usize, name: &Vec<char>) -> (r: Result<(usize, Vec<char>), usize>)
    requires
        i <= s@.len(),
    ensures
        match r {
            Ok(p) => sp_text_elem(s@, i as int, name@) == Some((p.0 as int, p.1@)) && i < p.0
                <= s@.len(),
            Err(e) => sp_text_elem(s@, i as int, name@) is None && e <= s@.len(),
        },
{
    let ot = mk_open(name);
    if !match_lit(s, i, &ot) {
        return Err(i);
    }
    proof {
        assert(i + ot@.len() <= s.len());
    }
    let a = i + ot.len();
    let e = scan_text(s, a);
    if e == a {
        return Err(a);
    }
    let ct = mk_close(name);
    if !match_lit(s, e, &ct) {
        return Err(e);
    }
    proof {
        assert(e + ct@.len() <= s.len());
    }
    let t = copy_span(s, a, e);
    Ok((e + ct.len(), t))
}

fn p_num_elem(s: &Vec<char>, i: usize, name: &Vec<char>) -> (r: Result<(usize, Vec<char>), usize>)
    requires
        i <= s@.len(),
    ensures
        match r {
            Ok(p) => sp_num_elem(s@, i as int, name@) == Some((p.0 as int, p.1@)) && i < p.0
                <= s@.len(),
            Err(e) => sp_num_elem(s@, i as int, name@) is None && e <= s@.len(),
        },
{
    let ot = mk_open(name);
    if !match_lit(s, i, &ot) {
        return Err(i);
    }
    proof {
        assert(i + ot@.len() <= s.len());
    }
    let a = skip_ws(s, i + ot.len());
    match p_number(s, a) {
        Ok(b) => {
            let c = skip_ws(s, b);
            let ct = mk_close(name);
            if !match_lit(s, c, &ct) {
                return Err(c);
            }
            proof {
                assert(c + ct@.len() <= s.len());
            }
            let t = copy_span(s, a, b);
            Ok((c + ct.len(), t))
        },
        Err(e) => Err(e),
    }
}

fn p_visit(s: &Vec<char>, i: usize) -> (r: Result<(usize, VisitNode), usize>)
    requires
        i <= s@.len(),
    ensures
        match r {
            Ok(p) => sp_visit(s@, i as int) == Some((p.0 as int, p.1@)) && i < p.0 <= s@.len(),
            Err(e) => sp_visit(s@, i as int) is None && e <= s@.len(),
        },
{
    let kv = kw_visit_vec();
    let ot = mk_open(&kv);
    if !match_lit(s, i, &ot) {
        return Err(i);
    }
    proof {
        assert(i + ot@.len() <= s.len());
    }
    let a = skip_ws(s, i + ot.len());
    let kd = kw_diagnosis_vec();
    let (b, diagnosis) = match p_text_elem(s, a, &kd) {
        Ok(p) => (skip_ws(s, p.0), Some(p.1)),
        Err(_) => (a, None),
    };
    let kt = kw_temperature_vec();
    let (c, temperature) = match p_num_elem(s, b, &kt) {
        Ok(p) => (skip_ws(s, p.0), Some(p.1)),
        Err(_) => (b, None),
    };
    let kn = kw_notes_vec();
    let (d, notes) = match p_text_elem(s, c, &kn) {
        Ok(p) => (skip_ws(s, p.0), Some(p.1)),
        Err(_) => (c, None),
    };
    let ct = mk_close(&kv);
    if !match_lit(s, d, &ct) {
        return Err(d);
    }
    proof {
        assert(d + ct@.len() <= s.len());
    }
    Ok((d + ct.len(), VisitNode { diagnosis, temperature, notes }))
}

fn p_visits(s: &Vec<char>, i: usize) -> (r: (usize, Vec<VisitNode>))
    requires
        i <= s@.len(),
    ensures
        r.0 as int == sp_visits(s@, i as int).0,
        visit_nodes_view(r.1@) == sp_visits(s@, i as int).1,
        i <= r.0 <= s@.len(),
{
    let mut cur = i;
    let mut acc: Vec<VisitNode> = Vec::new();
    loop
        invariant
            i <= cur <= s@.len(),
            sp_visits(s@, i as int).0 == sp_visits(s@, cur as int).0,
            sp_visits(s@, i as int).1 == visit_nodes_view(acc@) + sp_visits(s@, cur as int).1,
        ensures
            i <= cur <= s@.len(),
            sp_visits(s@, i as int).0 == cur as int,
            sp_visits(s@, i as int).1 == visit_nodes_view(acc@),
        decreases s@.len() - cur,
    {
        match p_visit(s, cur) {
            Ok(p) => {
                let nxt = skip_ws(s, p.0);
                proof {
                    lemma_visits_bounds(s@, nxt as int);
                    assert(visit_nodes_view(acc@.push(p.1)) =~= visit_nodes_view(acc@) + seq![
                        p.1@,
                    ]);
                    assert(visit_nodes_view(acc@) + (seq![p.1@] + sp_visits(s@, nxt as int).1)
                        =~= (visit_nodes_view(acc@) + seq![p.1@]) + sp_visits(s@, nxt as int).1);
                }
                acc.push(p.1);
                cur = nxt;
            },
            Err(_) => {
                proof {
                    assert(sp_visits(s@, cur as int).1 =~= Seq::<VisitNodeV>::empty());
                    assert(visit_nodes_view(acc@) + Seq::<VisitNodeV>::empty() =~= visit_nodes_view(
                        acc@,
                    ));
                }
                break ;
            },
        }
    }
    (cur, acc)
}

fn p_patient(s: &Vec<char>, i: usize) -> (r: Result<(usize, PatientNode), usize>)
    requires
        i <= s@.len(),
    ensures
        match r {
            Ok(p) => sp_patient(s@, i as int) == Some((p.0 as int, p.1@)) && i < p.0 <= s@.len(),
            Err(e) => sp_patient(s@, i as int) is None && e <= s@.len(),
        },
{
    let kp = kw_patient_vec();
    let ot = mk_open(&kp);
    if !match_lit(s, i, &ot) {
        return Err(i);
    }
    proof {
        assert(i + ot@.len() <= s.len());
    }
    let a = skip_ws(s, i + ot.len());
    let kn = kw_name_vec();
    let (n_end, name_span) = match p_text_elem(s, a, &kn) {
        Ok(p) => p,
        Err(e) => {
            return Err(e);
        },
    };
    let b = skip_ws(s, n_end);
    let ka = kw_age_vec();
    let (a_end, age_span) = match p_num_elem(s, b, &ka) {
        Ok(p) => p,
        Err(e) => {
            return Err(e);
        },
    };
    let c = skip_ws(s, a_end);
    let (d, visits) = p_visits(s, c);
    let ct = mk_close(&kp);
    if !match_lit(s, d, &ct) {
        return Err(d);
    }
    proof {
        assert(d + ct@.len() <= s.len());
    }
    Ok((d + ct.len(), PatientNode { name: name_span, age: age_span, visits }))
}

fn p_patients(s: &Vec<char>, i: usize) -> (r: (usize, Vec<PatientNode>))
    requires
        i <= s@.len(),
    ensures
        r.0 as int == sp_patients(s@, i as int).0,
        patient_nodes_view(r.1@) == sp_patients(s@, i as int).1,
        i <= r.0 <= s@.len(),
{
    let mut cur = i;
    let mut acc: Vec<PatientNode> = Vec::new();
    loop
        invariant
            i <= cur <= s@.len(),
            sp_patients(s@, i as int).0 == sp_patients(s@, cur as int).0,
            sp_patients(s@, i as int).1 == patient_nodes_view(acc@) + sp_patients(
                s@,
                cur as int,
            ).1,
        ensures
            i <= cur <= s@.len(),
            sp_patients(s@, i as int).0 == cur as int,
            sp_patients(s@, i as int).1 == patient_nodes_view(acc@),
        decreases s@.len() - cur,
    {
        match p_patient(s, cur) {
            Ok(p) => {
                let nxt = skip_ws(s, p.0);
                proof {
                    lemma_patients_bounds(s@, nxt as int);
                    assert(patient_nodes_view(acc@.push(p.1)) =~= patient_nodes_view(acc@) + seq![
                        p.1@,
                    ]);
                    assert(patient_nodes_view(acc@) + (seq![p.1@] + sp_patients(s@, nxt as int).1)
                        =~= (patient_nodes_view(acc@) + seq![p.1@]) + sp_patients(
                        s@,
                        nxt as int,
                    ).1);
                }
                acc.push(p.1);
                cur = nxt;
            },
            Err(_) => {
                proof {
                    assert(sp_patients(s@, cur as int).1 =~= Seq::<PatientNodeV>::empty());
                    assert(patient_nodes_view(acc@) + Seq::<PatientNodeV>::empty()
                        =~= patient_nodes_view(acc@));
                }
                break ;
            },
        }
    }
    (cur, acc)
}

/// Parse a whole document into its patient nodes, or report the character
/// position near which the grammar rejected the text.
pub(crate) fn p_file(s: &Vec<char>) -> (r: Result<Vec<PatientNode>, usize>)
    ensures
        match r {
            Ok(ns) => sp_file(s@) == Some(patient_nodes_view(ns@)),
            Err(e) => sp_file(s@) is None && e <= s@.len(),
        },
{
    let start = skip_ws(s, 0);
    let (end, ns) = p_patients(s, start);
    if end == s.len() {
        Ok(ns)
    } else {
        Err(end)
    }
}

/// The characters of `input`, in order.
pub(crate) fn chars_of(input: &str) -> (r: Vec<char>)
    ensures
        r@ == input@,
{
    let n = input.unicode_len();
    let mut r: Vec<char> = Vec::new();
    let mut k: usize = 0;
    while k < n
        invariant
            n == input@.len(),
            k <= n,
            r@ == input@.subrange(0, k as int),
        decreases n - k,
    {
        proof {
            assert(r@.push(input@[k as int]) =~= input@.subrange(0, k + 1 as int));
        }
        let c = input.get_char(k);
        r.push(c);
        k = k + 1;
    }
    proof {
        assert(input@.subrange(0, input@.len() as int) =~= input@);
    }
    r
}

// ---------------------------------------------------------------------------
// Single-rule entry
// ---------------------------------------------------------------------------
/// The rules of the grammar, by name.
#[allow(non_camel_case_types)]
#[derive(Debug, Clone, Copy, PartialEq, Eq)]
pub enum Rule {
    file,
    patient,
    visit,
    name,
    age,
    diagnosis,
    temperature,
    notes,
    text,
    number,
}

/// What matching one rule against the start of `s` yields: the number of
/// characters the rule consumes, or `None` where it does not match. The
/// `file` rule alone must consume the whole input.
pub open spec fn sp_rule(rule: Rule, s: Seq<char>) -> Option<int> {
    match rule {
        Rule::file => match sp_file(s) {
            Some(_) => Some(s.len() as int),
            None => None,
        },
        Rule::patient => match sp_patient(s, 0) {
            Some(r) => Some(r.0),
            None => None,
        },
        Rule::visit => match sp_visit(s, 0) {
            Some(r) => Some(r.0),
            None => None,
        },
        Rule::name => match sp_text_elem(s, 0, kw_name()) {
            Some(r) => Some(r.0),
            None => None,
        },
        Rule::age => match sp_num_elem(s, 0, kw_age()) {
            Some(r) => Some(r.0),
            None => None,
        },
        Rule::diagnosis => match sp_text_elem(s, 0, kw_diagnosis()) {
            Some(r) => Some(r.0),
            None => None,
        },
        Rule::temperature => match sp_num_elem(s, 0, kw_temperature()) {
            Some(r) => Some(r.0),
            None => None,
        },
        Rule::notes => match sp_text_elem(s, 0, kw_notes()) {
            Some(r) => Some(r.0),
            None => None,
        },
        Rule::text => if text_end(s, 0) > 0 {
            Some(text_end(s, 0))
        } else {
            None
        },
        Rule::number => number_end(s, 0),
    }
}

/// The grammar engine.
pub struct Grammar;

impl Grammar {
    /// Match a single rule against the start of `input`. `Ok` carries the
    /// number of characters the rule consumed; `Err` carries a syntax error
    /// with the position near which matching stopped.
    pub fn parse(rule: Rule, input: &str) -> (r: Result<usize, ParseError>)
        ensures
            match r {
                Ok(e) => sp_rule(rule, input@) == Some(e as int),
                Err(err) => sp_rule(rule, input@) is None && (err matches ParseError::SyntaxError {
                    position,
                } && position <= input@.len()),
            },
    {
        let s = chars_of(input);
        let res: Result<usize, usize> = match rule {
            Rule::file => match p_file(&s) {
                Ok(_) => Ok(s.len()),
                Err(e) => Err(e),
            },
            Rule::patient => match p_patient(&s, 0) {
                Ok(p) => Ok(p.0),
                Err(e) => Err(e),
            },
            Rule::visit => match p_visit(&s, 0) {
                Ok(p) => Ok(p.0),
                Err(e) => Err(e),
            },
            Rule::name => {
                let kw = kw_name_vec();
                match p_text_elem(&s, 0, &kw) {
                    Ok(p) => Ok(p.0),
                    Err(e) => Err(e),
                }
            },
            Rule::age => {
                let kw = kw_age_vec();
                match p_num_elem(&s, 0, &kw) {
                    Ok(p) => Ok(p.0),
                    Err(e) => Err(e),
                }
            },
            Rule::diagnosis => {
                let kw = kw_diagnosis_vec();
                match p_text_elem(&s, 0, &kw) {
                    Ok(p) => Ok(p.0),
                    Err(e) => Err(e),
                }
            },
            Rule::temperature => {
                let kw = kw_temperature_vec();
                match p_num_elem(&s, 0, &kw) {
                    Ok(p) => Ok(p.0),
                    Err(e) => Err(e),
                }
            },
            Rule::notes => {
                let kw = kw_notes_vec();
                match p_text_elem(&s, 0, &kw) {
                    Ok(p) => Ok(p.0),
                    Err(e) => Err(e),
                }
            },
            Rule::text => {
                let e = scan_text(&s, 0);
                if e == 0 {
                    Err(0)
                } else {
                    Ok(e)
                }
            },
            Rule::number => p_number(&s, 0),
        };
        match res {
            Ok(e) => Ok(e),
            Err(p) => Err(ParseError::SyntaxError { position: p }),
        }
    }
}

} // verus!
