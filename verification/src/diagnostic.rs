//! Diagnostics: what reading a corpus reports, and where.
//!
//! Every finding carries a stable identifier, a severity its identifier
//! decides, a message naming what is wrong, and a location when there is a file
//! to point at. A list of them is answered in one deterministic total order —
//! by file, then the whole file before any span, then by where the span
//! starts, then by identifier — with ties left in the order they were found.

use vstd::prelude::*;

use crate::chars::{chars_of, precedes, sorts_before};

verus! {

/// A note's identity: its vault-relative path.
#[derive(Clone, Debug, PartialEq, Eq)]
pub struct VaultPath {
    path: String,
}

impl View for VaultPath {
    type V = Seq<char>;

    closed spec fn view(&self) -> Seq<char> {
        self.path@
    }
}

impl VaultPath {
    /// The vault-relative path `path`, as the kernel spells it.
    pub fn kernel(path: &str) -> (p: VaultPath)
        ensures
            p@ == path@,
    {
        VaultPath { path: String::from_str(path) }
    }

    /// The path's spelling.
    pub fn as_str(&self) -> (s: &str)
        ensures
            s@ == self@,
    {
        self.path.as_str()
    }

    /// A copy of this path.
    pub fn copy(&self) -> (p: VaultPath)
        ensures
            p@ == self@,
            p == *self,
    {
        VaultPath { path: self.path.clone() }
    }

    /// The path's characters.
    pub fn chars(&self) -> (v: Vec<char>)
        ensures
            v@ == self@,
    {
        chars_of(self.path.as_str())
    }
}

/// The file a location is in.
#[derive(Clone, Debug, PartialEq, Eq)]
pub enum FileRef {
    /// A file inside the vault, by its vault-relative path.
    InVault(VaultPath),
}

impl FileRef {
    /// The path a reader is shown for this file.
    pub fn display_path(&self) -> (s: &str)
        ensures
            match self {
                FileRef::InVault(p) => s@ == p@,
            },
    {
        match self {
            FileRef::InVault(path) => path.as_str(),
        }
    }

    /// The vault-relative path this file is spelled by.
    pub open spec fn spelled(self) -> Seq<char> {
        match self {
            FileRef::InVault(p) => p@,
        }
    }
}

/// A point in a file: a one-based line and column, and a byte offset.
#[derive(Clone, Copy, Debug, PartialEq, Eq)]
pub struct Position {
    /// The one-based line.
    pub line: usize,
    /// The one-based column, counted in characters.
    pub column: usize,
    /// The byte offset from the start of the file.
    pub offset: usize,
}

impl Position {
    /// The point at `line`, `column`, and byte `offset`.
    pub fn new(line: usize, column: usize, offset: usize) -> (p: Position)
        ensures
            p.line == line,
            p.column == column,
            p.offset == offset,
    {
        Position { line, column, offset }
    }
}

/// A range of a file, from one position to another.
#[derive(Clone, Copy, Debug, PartialEq, Eq)]
pub struct Span {
    /// Where the range starts.
    pub start: Position,
    /// Where the range ends.
    pub end: Position,
}

impl Span {
    /// The empty range at `at`.
    pub fn at(at: Position) -> (s: Span)
        ensures
            s.start == at,
            s.end == at,
    {
        Span { start: at, end: at }
    }

    /// The range from `start` to `end`.
    pub fn between(start: Position, end: Position) -> (s: Span)
        ensures
            s.start == start,
            s.end == end,
    {
        Span { start, end }
    }
}

/// Where a finding points: a file, and a range of it when there are bytes to
/// point at.
#[derive(Clone, Debug, PartialEq, Eq)]
pub struct Location {
    /// The file.
    pub file: FileRef,
    /// The range, absent for a finding about the whole file.
    pub span: Option<Span>,
}

impl Location {
    /// A copy of this location.
    pub fn copy(&self) -> (r: Location)
        ensures
            r == *self,
    {
        let file = match &self.file {
            FileRef::InVault(path) => FileRef::InVault(path.copy()),
        };
        Location { file, span: self.span }
    }

    /// A range of a file.
    pub fn in_file(file: FileRef, span: Span) -> (l: Location)
        ensures
            l.file == file,
            l.span == Some(span),
    {
        Location { file, span: Some(span) }
    }

    /// A whole file, for a finding whose subject is an absence.
    pub fn whole_file(file: FileRef) -> (l: Location)
        ensures
            l.file == file,
            l.span.is_none(),
    {
        Location { file, span: None }
    }
}

/// How serious a finding is.
#[derive(Clone, Copy, Debug, PartialEq, Eq)]
pub enum Severity {
    /// The corpus breaks a rule it declared.
    Error,
    /// The corpus is read, and something about it deserves a look.
    Warning,
    /// Worth knowing, and nothing to repair.
    Info,
}

impl Severity {
    /// The lowercase wire spelling.
    pub fn as_str(self) -> (s: &'static str)
        ensures
            s@ == self.spelling(),
    {
        match self {
            Severity::Error => "error",
            Severity::Warning => "warning",
            Severity::Info => "info",
        }
    }

    /// The lowercase wire spelling.
    pub open spec fn spelling(self) -> Seq<char> {
        match self {
            Severity::Error => "error"@,
            Severity::Warning => "warning"@,
            Severity::Info => "info"@,
        }
    }
}

/// Every finding the kernel mints while reading a corpus.
#[derive(Clone, Copy, Debug, PartialEq, Eq)]
pub enum KernelDiagnostic {
    /// A note's bytes could not be read as text.
    NoteUnreadable,
    /// A note opens with a byte order mark.
    NoteByteOrderMark,
    /// A note ends its lines with a carriage return.
    NoteCarriageReturnLineEnding,
    /// A frontmatter block is not the subset's grammar.
    NoteFrontmatterInvalid,
    /// A frontmatter block writes YAML the subset refuses.
    NoteFrontmatterUnsupported,
    /// A note's `type` is not a scalar.
    NoteTypeInvalid,
    /// A note's `type` names no declared type.
    NoteUnknownType,
    /// A note writes a key its type does not declare.
    NoteUndeclaredProperty,
    /// A note writes no value for a required property.
    NoteMissingRequiredProperty,
    /// A note writes no edge for a required relationship.
    NoteMissingRequiredRelationship,
    /// A value does not take the form its declared kind names.
    NotePropertyKindInvalid,
    /// A relationship's value is not a link or a sequence of links.
    NoteRelationshipValueInvalid,
    /// A required tag namespace holds none of the note's tags.
    NoteRequiredNamespaceMissing,
    /// A tag is outside a closed namespace's vocabulary.
    NoteTagOutsideVocabulary,
    /// A lifecycle filter met a corpus that declares no axis.
    NoteLifecycleAxisAbsent,
    /// A typed link names no note.
    LinkDanglingTypedLink,
    /// A caller's reference names no note.
    LinkTargetNotFound,
    /// A bare name several notes bear.
    LinkAmbiguousReference,
    /// A query the grammar cannot read.
    SearchInvalidQuery,
}

impl KernelDiagnostic {
    /// The stable identifier.
    pub open spec fn spelling(self) -> Seq<char> {
        match self {
            KernelDiagnostic::NoteUnreadable => "note.unreadable"@,
            KernelDiagnostic::NoteByteOrderMark => "note.byte-order-mark"@,
            KernelDiagnostic::NoteCarriageReturnLineEnding => "note.carriage-return-line-ending"@,
            KernelDiagnostic::NoteFrontmatterInvalid => "note.frontmatter-invalid"@,
            KernelDiagnostic::NoteFrontmatterUnsupported => "note.frontmatter-unsupported"@,
            KernelDiagnostic::NoteTypeInvalid => "note.type-invalid"@,
            KernelDiagnostic::NoteUnknownType => "note.unknown-type"@,
            KernelDiagnostic::NoteUndeclaredProperty => "note.undeclared-property"@,
            KernelDiagnostic::NoteMissingRequiredProperty => "note.missing-required-property"@,
            KernelDiagnostic::NoteMissingRequiredRelationship => "note.missing-required-relationship"@,
            KernelDiagnostic::NotePropertyKindInvalid => "note.property-kind-invalid"@,
            KernelDiagnostic::NoteRelationshipValueInvalid => "note.relationship-value-invalid"@,
            KernelDiagnostic::NoteRequiredNamespaceMissing => "note.required-namespace-missing"@,
            KernelDiagnostic::NoteTagOutsideVocabulary => "note.tag-outside-vocabulary"@,
            KernelDiagnostic::NoteLifecycleAxisAbsent => "note.lifecycle-axis-absent"@,
            KernelDiagnostic::LinkDanglingTypedLink => "link.dangling-typed-link"@,
            KernelDiagnostic::LinkTargetNotFound => "link.target-not-found"@,
            KernelDiagnostic::LinkAmbiguousReference => "link.ambiguous-reference"@,
            KernelDiagnostic::SearchInvalidQuery => "search.invalid-query"@,
        }
    }

    /// The severity every finding under this identifier carries.
    pub open spec fn level(self) -> Severity {
        match self {
            KernelDiagnostic::NoteUndeclaredProperty => Severity::Info,
            KernelDiagnostic::NoteByteOrderMark => Severity::Warning,
            KernelDiagnostic::NoteCarriageReturnLineEnding => Severity::Warning,
            _ => Severity::Error,
        }
    }

    /// The stable identifier.
    pub fn as_str(self) -> (s: &'static str)
        ensures
            s@ == self.spelling(),
    {
        match self {
            KernelDiagnostic::NoteUnreadable => "note.unreadable",
            KernelDiagnostic::NoteByteOrderMark => "note.byte-order-mark",
            KernelDiagnostic::NoteCarriageReturnLineEnding => "note.carriage-return-line-ending",
            KernelDiagnostic::NoteFrontmatterInvalid => "note.frontmatter-invalid",
            KernelDiagnostic::NoteFrontmatterUnsupported => "note.frontmatter-unsupported",
            KernelDiagnostic::NoteTypeInvalid => "note.type-invalid",
            KernelDiagnostic::NoteUnknownType => "note.unknown-type",
            KernelDiagnostic::NoteUndeclaredProperty => "note.undeclared-property",
            KernelDiagnostic::NoteMissingRequiredProperty => "note.missing-required-property",
            KernelDiagnostic::NoteMissingRequiredRelationship => "note.missing-required-relationship",
            KernelDiagnostic::NotePropertyKindInvalid => "note.property-kind-invalid",
            KernelDiagnostic::NoteRelationshipValueInvalid => "note.relationship-value-invalid",
            KernelDiagnostic::NoteRequiredNamespaceMissing => "note.required-namespace-missing",
            KernelDiagnostic::NoteTagOutsideVocabulary => "note.tag-outside-vocabulary",
            KernelDiagnostic::NoteLifecycleAxisAbsent => "note.lifecycle-axis-absent",
            KernelDiagnostic::LinkDanglingTypedLink => "link.dangling-typed-link",
            KernelDiagnostic::LinkTargetNotFound => "link.target-not-found",
            KernelDiagnostic::LinkAmbiguousReference => "link.ambiguous-reference",
            KernelDiagnostic::SearchInvalidQuery => "search.invalid-query",
        }
    }

    /// The severity every finding under this identifier carries.
    pub fn severity(self) -> (s: Severity)
        ensures
            s == self.level(),
    {
        match self {
            KernelDiagnostic::NoteUndeclaredProperty => Severity::Info,
            KernelDiagnostic::NoteByteOrderMark => Severity::Warning,
            KernelDiagnostic::NoteCarriageReturnLineEnding => Severity::Warning,
            _ => Severity::Error,
        }
    }
}

/// Evidence a finding carries: a message, and where it points.
#[derive(Clone, Debug, PartialEq, Eq)]
pub struct Related {
    /// What the evidence says.
    pub message: String,
    /// Where it points, when there is somewhere to point.
    pub location: Option<Location>,
}

impl Related {
    /// Evidence saying `message`, pointing nowhere.
    pub fn new(message: String) -> (r: Related)
        ensures
            r.message@ == message@,
            r.location.is_none(),
    {
        Related { message, location: None }
    }

    /// The same evidence, pointing at `location`.
    pub fn at(self, location: Location) -> (r: Related)
        ensures
            r.message@ == self.message@,
            r.location == Some(location),
    {
        Related { message: self.message, location: Some(location) }
    }
}

/// One finding.
#[derive(Clone, Debug, PartialEq, Eq)]
pub struct Diagnostic {
    /// The stable identifier.
    pub id: KernelDiagnostic,
    /// How serious it is, which the identifier decides.
    pub severity: Severity,
    /// What is wrong.
    pub message: String,
    /// Where, when there is a file to point at.
    pub location: Option<Location>,
    /// The evidence, in the order it was gathered.
    pub related: Vec<Related>,
    /// What to do about it, when there is one thing to say.
    pub help: Option<String>,
}

impl Diagnostic {
    /// A finding under `id`, saying `message`, pointing nowhere yet.
    pub fn kernel(id: KernelDiagnostic, message: String) -> (d: Diagnostic)
        ensures
            d.id == id,
            d.severity == id.level(),
            d.message@ == message@,
            d.location.is_none(),
            d.related@.len() == 0,
            d.help.is_none(),
    {
        Diagnostic {
            id,
            severity: id.severity(),
            message,
            location: None,
            related: Vec::new(),
            help: None,
        }
    }

    /// The same finding, pointing at `location`.
    pub fn at(self, location: Location) -> (d: Diagnostic)
        ensures
            d.id == self.id,
            d.severity == self.severity,
            d.message@ == self.message@,
            d.location == Some(location),
            d.related@ == self.related@,
            d.help == self.help,
    {
        Diagnostic { location: Some(location), ..self }
    }

    /// The same finding, saying what to do about it.
    pub fn with_help(self, help: &str) -> (d: Diagnostic)
        ensures
            d.id == self.id,
            d.severity == self.severity,
            d.message@ == self.message@,
            d.location == self.location,
            d.related@ == self.related@,
            d.help matches Some(h) && h@ == help@,
    {
        Diagnostic { help: Some(String::from_str(help)), ..self }
    }

    /// The same finding, carrying one more piece of evidence.
    pub fn with_related(self, related: Related) -> (d: Diagnostic)
        ensures
            d.id == self.id,
            d.severity == self.severity,
            d.message@ == self.message@,
            d.location == self.location,
            d.related@ == self.related@.push(related),
            d.help == self.help,
    {
        let mut d = self;
        d.related.push(related);
        d
    }
}

/// Whether `a` comes strictly before `b` in the total order: by file, then
/// the whole file before any span, then by where the span starts.
pub open spec fn ordered_before(a: Diagnostic, b: Diagnostic) -> bool {
    let by_id = precedes(a.id.spelling(), b.id.spelling());
    match (a.location, b.location) {
        (None, None) => by_id,
        (None, Some(_)) => true,
        (Some(_), None) => false,
        (Some(x), Some(y)) => {
            if x.file.spelled() != y.file.spelled() {
                precedes(x.file.spelled(), y.file.spelled())
            } else {
                match (x.span, y.span) {
                    (None, Some(_)) => true,
                    (Some(_), None) => false,
                    (None, None) => by_id,
                    (Some(s), Some(t)) => s.start.offset < t.start.offset || (s.start.offset == t.start.offset
                        && by_id),
                }
            }
        },
    }
}

/// Whether `a` comes strictly before `b`.
pub fn before(a: &Diagnostic, b: &Diagnostic) -> (r: bool)
    ensures
        r == ordered_before(*a, *b),
{
    let ia = chars_of(a.id.as_str());
    let ib = chars_of(b.id.as_str());
    let by_id = sorts_before(&ia, &ib);
    match (&a.location, &b.location) {
        (None, None) => by_id,
        (None, Some(_)) => true,
        (Some(_), None) => false,
        (Some(x), Some(y)) => {
            let (FileRef::InVault(p), FileRef::InVault(q)) = (&x.file, &y.file);
            let pc = p.chars();
            let qc = q.chars();
            if sorts_before(&pc, &qc) {
                proof {
                    lemma_precedes_asymmetric(pc@, qc@);
                }
                return true;
            }
            if sorts_before(&qc, &pc) {
                proof {
                    lemma_precedes_asymmetric(qc@, pc@);
                }
                return false;
            }
            proof {
                lemma_precedes_total(pc@, qc@);
            }
            match (&x.span, &y.span) {
                (None, Some(_)) => true,
                (Some(_), None) => false,
                (None, None) => by_id,
                (Some(s), Some(t)) => s.start.offset < t.start.offset || (s.start.offset == t.start.offset
                    && by_id),
            }
        },
    }
}

/// No sequence precedes another that precedes it.
pub proof fn lemma_precedes_asymmetric(a: Seq<char>, b: Seq<char>)
    requires
        precedes(a, b),
    ensures
        !precedes(b, a),
        a != b,
    decreases a.len(),
{
    if a.len() > 0 && b.len() > 0 && a[0] == b[0] {
        lemma_precedes_asymmetric(a.drop_first(), b.drop_first());
        if a == b {
            assert(a.drop_first() == b.drop_first());
        }
    }
}

/// Two sequences neither of which precedes the other are the same sequence.
pub proof fn lemma_precedes_total(a: Seq<char>, b: Seq<char>)
    requires
        !precedes(a, b),
        !precedes(b, a),
    ensures
        a == b,
    decreases a.len(),
{
    if a.len() == 0 || b.len() == 0 {
        assert(a =~= b);
    } else {
        if a[0] == b[0] {
            lemma_precedes_total(a.drop_first(), b.drop_first());
            assert(a =~= seq![a[0]] + a.drop_first());
            assert(b =~= seq![b[0]] + b.drop_first());
        } else {
            vstd::utf8::char_u32_cast(a[0], a[0] as u32);
            vstd::utf8::char_u32_cast(b[0], b[0] as u32);
        }
    }
}

/// Whether `s` is in the total order, ties allowed.
pub open spec fn is_sorted(s: Seq<Diagnostic>) -> bool {
    forall|i: int, j: int| 0 <= i < j < s.len() ==> !ordered_before(#[trigger] s[j], #[trigger] s[i])
}

/// Precedence chains.
pub proof fn lemma_precedes_transitive(a: Seq<char>, b: Seq<char>, c: Seq<char>)
    requires
        precedes(a, b),
        precedes(b, c),
    ensures
        precedes(a, c),
    decreases a.len(),
{
    if a.len() > 0 && b.len() > 0 && c.len() > 0 && a[0] == b[0] && b[0] == c[0] {
        lemma_precedes_transitive(a.drop_first(), b.drop_first(), c.drop_first());
    }
}

/// The total order chains, and nothing comes before itself.
pub proof fn lemma_ordered_transitive(a: Diagnostic, b: Diagnostic, c: Diagnostic)
    requires
        ordered_before(a, b),
        ordered_before(b, c),
    ensures
        ordered_before(a, c),
{
    let (ia, ib, ic) = (a.id.spelling(), b.id.spelling(), c.id.spelling());
    if precedes(ia, ib) && precedes(ib, ic) {
        lemma_precedes_transitive(ia, ib, ic);
    }
    if let (Some(x), Some(y), Some(z)) = (a.location, b.location, c.location) {
        let (p, q, r) = (x.file.spelled(), y.file.spelled(), z.file.spelled());
        if p != q && q != r {
            lemma_precedes_transitive(p, q, r);
            lemma_precedes_asymmetric(p, r);
        } else if p != q {
            lemma_precedes_asymmetric(p, q);
        } else if q != r {
            lemma_precedes_asymmetric(q, r);
        }
    }
}

/// Nothing comes before something that comes before it.
pub proof fn lemma_ordered_asymmetric(a: Diagnostic, b: Diagnostic)
    requires
        ordered_before(a, b),
    ensures
        !ordered_before(b, a),
{
    if precedes(a.id.spelling(), b.id.spelling()) {
        lemma_precedes_asymmetric(a.id.spelling(), b.id.spelling());
    }
    if let (Some(x), Some(y)) = (a.location, b.location) {
        if x.file.spelled() != y.file.spelled() {
            lemma_precedes_asymmetric(x.file.spelled(), y.file.spelled());
        }
    }
}

/// Taking an element out of a sequence takes it out of its multiset.
pub proof fn lemma_remove_multiset<A>(t: Seq<A>, k: int)
    requires
        0 <= k < t.len(),
    ensures
        t.to_multiset() =~= t.remove(k).to_multiset().insert(t[k]),
{
    broadcast use vstd::seq_lib::group_to_multiset_ensures;
    broadcast use vstd::multiset::group_multiset_axioms;

    assert(t.contains(t[k]));
    assert(t.to_multiset().count(t[k]) > 0);
}

/// Where `d` goes in the sorted `r` so that the order holds and ties keep
/// their arrival order: before the first element `d` comes before.
fn insertion_point(r: &Vec<Diagnostic>, d: &Diagnostic) -> (k: usize)
    ensures
        k <= r.len(),
        forall|j: int| 0 <= j < k ==> !ordered_before(*d, #[trigger] r@[j]),
        k < r.len() ==> ordered_before(*d, r@[k as int]),
{
    let mut k: usize = 0;
    while k < r.len()
        invariant
            k <= r.len(),
            forall|j: int| 0 <= j < k ==> !ordered_before(*d, #[trigger] r@[j]),
        decreases r.len() - k,
    {
        if before(d, &r[k]) {
            return k;
        }
        k = k + 1;
    }
    k
}

/// `list` in the total order, ties kept in the order they arrived.
pub fn sorted(list: Vec<Diagnostic>) -> (r: Vec<Diagnostic>)
    ensures
        r@.to_multiset() == list@.to_multiset(),
        is_sorted(r@),
{
    broadcast use vstd::seq_lib::group_to_multiset_ensures;

    let mut rest = list;
    let mut r: Vec<Diagnostic> = Vec::new();
    while rest.len() > 0
        invariant
            r@.to_multiset().add(rest@.to_multiset()) == list@.to_multiset(),
            is_sorted(r@),
        decreases rest.len(),
    {
        let ghost before_rest = rest@;
        let d = rest.remove(0);
        let k = insertion_point(&r, &d);
        let ghost old_r = r@;
        r.insert(k, d);
        proof {
            assert(r@.remove(k as int) =~= old_r);
            assert(r@[k as int] == d);
            lemma_remove_multiset(r@, k as int);
            assert(before_rest.remove(0) == rest@);
            lemma_remove_multiset(before_rest, 0);
            assert forall|i: int, j: int| 0 <= i < j < r@.len() implies !ordered_before(
                #[trigger] r@[j],
                #[trigger] r@[i],
            ) by {
                if j < k {
                    assert(r@[i] == old_r[i] && r@[j] == old_r[j]);
                } else if i > k {
                    assert(r@[i] == old_r[i - 1] && r@[j] == old_r[j - 1]);
                } else if i == k {
                    assert(r@[j] == old_r[j - 1]);
                    if ordered_before(r@[j], d) {
                        assert(ordered_before(d, old_r[k as int]));
                        if j - 1 == k {
                            lemma_ordered_asymmetric(d, old_r[k as int]);
                        } else {
                            lemma_ordered_transitive(old_r[j - 1], d, old_r[k as int]);
                        }
                    }
                } else if j == k {
                    assert(r@[i] == old_r[i]);
                } else {
                    assert(r@[i] == old_r[i] && r@[j] == old_r[j - 1]);
                }
            }
        }
    }
    proof {
        assert(rest@ =~= Seq::<Diagnostic>::empty());
    }
    r
}

/// How many of `list`'s diagnostics are of severity `level`.
pub open spec fn count_of(list: Seq<Diagnostic>, level: Severity) -> nat
    decreases list.len(),
{
    if list.len() == 0 {
        0
    } else {
        count_of(list.drop_last(), level) + if list.last().severity == level {
            1nat
        } else {
            0nat
        }
    }
}

/// A list never holds more diagnostics of one severity than it holds.
pub proof fn lemma_count_of_bounded(list: Seq<Diagnostic>, level: Severity)
    ensures
        count_of(list, level) <= list.len(),
    decreases list.len(),
{
    if list.len() > 0 {
        lemma_count_of_bounded(list.drop_last(), level);
    }
}

/// Whether `counts` are the counts of `list`.
pub open spec fn counted(counts: SeverityCounts, list: Seq<Diagnostic>) -> bool {
    &&& counts.error == count_of(list, Severity::Error)
    &&& counts.warning == count_of(list, Severity::Warning)
    &&& counts.info == count_of(list, Severity::Info)
}

/// How many diagnostics of each severity a report carries: what a consumer
/// maps to an exit code.
#[derive(Clone, Copy, Debug, PartialEq, Eq)]
pub struct SeverityCounts {
    /// How many are errors.
    pub error: usize,
    /// How many are warnings.
    pub warning: usize,
    /// How many are informational.
    pub info: usize,
}

impl SeverityCounts {
    /// No diagnostic of any severity.
    pub fn zero() -> (c: SeverityCounts)
        ensures
            c.error == 0,
            c.warning == 0,
            c.info == 0,
    {
        SeverityCounts { error: 0, warning: 0, info: 0 }
    }

    /// The counts of `list`.
    pub fn of(list: &[Diagnostic]) -> (c: SeverityCounts)
        ensures
            c.error == count_of(list@, Severity::Error),
            c.warning == count_of(list@, Severity::Warning),
            c.info == count_of(list@, Severity::Info),
    {
        let mut c = SeverityCounts::zero();
        let mut i: usize = 0;
        while i < list.len()
            invariant
                i <= list.len(),
                c.error == count_of(list@.take(i as int), Severity::Error),
                c.warning == count_of(list@.take(i as int), Severity::Warning),
                c.info == count_of(list@.take(i as int), Severity::Info),
            decreases list.len() - i,
        {
            proof {
                assert(list@.take(i + 1).drop_last() =~= list@.take(i as int));
                lemma_count_of_bounded(list@.take(i as int), Severity::Error);
                lemma_count_of_bounded(list@.take(i as int), Severity::Warning);
                lemma_count_of_bounded(list@.take(i as int), Severity::Info);
            }
            match list[i].severity {
                Severity::Error => c.error = c.error + 1,
                Severity::Warning => c.warning = c.warning + 1,
                Severity::Info => c.info = c.info + 1,
            }
            i = i + 1;
        }
        assert(list@.take(list@.len() as int) =~= list@);
        c
    }
}

} // verus!
