//! One note as the shared document model, and its plain-text rendering.

use vstd::prelude::*;

use crate::chars::string_of;
use crate::contract::{Contract, kind_spelling, property_decl_at, type_at};
use crate::diagnostic::{Diagnostic, KernelDiagnostic, SeverityCounts, counted, is_sorted, sorted};
use crate::note::index::{names_of, paths_of, resolution_spec};
use crate::note::list::bound_name;
use crate::note::resolve::{ambiguous_message, not_found_message, position};
use crate::note::{Binding, Corpus, Edge, FieldValue, Note, Property, PropertyValue, RecordValue, Relationship};
use crate::text::{append, append_folded, fold};

verus! {

/// The result of asking a corpus to show one reference.
#[derive(Clone, Debug, PartialEq, Eq)]
pub struct ShowReport {
    /// The note the reference named, or `None` when resolution refused it.
    pub note: Option<Note>,
    /// The contract the corpus was read against.
    pub contract: Contract,
    /// Everything reading and resolving the corpus reported, in the total
    /// order.
    pub diagnostics: Vec<Diagnostic>,
    /// How many diagnostics of each severity the report carries.
    pub counts: SeverityCounts,
}

impl ShowReport {
    /// The note the reference named, or `None` when resolution refused it.
    pub fn note(&self) -> (r: Option<&Note>)
        ensures
            match self.note {
                Some(n) => r == Some(&n),
                None => r.is_none(),
            },
    {
        match &self.note {
            Some(n) => Some(n),
            None => None,
        }
    }

    /// Everything reading and resolving the corpus reported, in the total
    /// order.
    pub fn diagnostics(&self) -> (r: &[Diagnostic])
        ensures
            r@ == self.diagnostics@,
    {
        self.diagnostics.as_slice()
    }

    /// How many diagnostics of each severity the report carries.
    pub fn counts(&self) -> (r: SeverityCounts)
        ensures
            r == self.counts,
    {
        self.counts
    }
}

/// Whether `d` is how a reference `written` that met `met` notes is refused:
/// `link.target-not-found` when it met none, `link.ambiguous-reference`
/// naming the count when it met several, pointing at no file.
pub open spec fn refusal(d: Diagnostic, written: Seq<char>, met: Seq<Seq<char>>) -> bool {
    &&& d.location.is_none()
    &&& met.len() == 0 ==> d.id == KernelDiagnostic::LinkTargetNotFound && d.message@ == not_found_message(written)
        && d.related@.len() == 0
    &&& met.len() > 0 ==> d.id == KernelDiagnostic::LinkAmbiguousReference && d.message@ == ambiguous_message(
        written,
        met.len(),
    ) && d.related@.len() == met.len()
    &&& forall|i: int|
        0 <= i < met.len() ==> ((#[trigger] d.related@[i]).location matches Some(l) && l.file.spelled() == met[i]
            && l.span.is_none())
}

/// Whether `r` is the report of showing `reference` from `corpus` under
/// `contract`, with `extra` diagnostics from the loading path.
pub open spec fn shows(r: ShowReport, corpus: Corpus, contract: Contract, reference: Seq<char>, extra: Seq<Diagnostic>) -> bool {
    let (one, several) = resolution_spec(names_of(corpus.notes@), paths_of(corpus.notes@), reference);
    let carried = extra + corpus.diagnostics@;
    &&& r.contract == contract
    &&& is_sorted(r.diagnostics@)
    &&& match one {
        Some(at) => {
            &&& r.note == Some(corpus.notes@[at as int])
            &&& r.diagnostics@.to_multiset() == carried.to_multiset()
            &&& counted(r.counts, carried)
        },
        None => {
            &&& r.note.is_none()
            &&& exists|d: Diagnostic|
                refusal(d, reference, several.map_values(|at: usize| corpus.notes@[at as int].path@))
                    && r.diagnostics@.to_multiset() == carried.push(d).to_multiset()
                    && counted(r.counts, #[trigger] carried.push(d))
        },
    }
}

/// Resolves `reference` and builds the one report every rendering uses. A
/// refused reference is reported as a diagnostic beside the corpus's own.
/// The report takes the corpus, the contract and `extra` over rather than
/// copying them.
pub fn show_report(corpus: Corpus, contract: Contract, reference: &str, extra: Vec<Diagnostic>) -> (r: ShowReport)
    ensures
        shows(r, corpus, contract, reference@, extra@),
{
    let Corpus { notes, diagnostics } = corpus;
    let mut notes = notes;
    let mut found = diagnostics;
    let mut all = extra;
    all.append(&mut found);
    let ghost carried = all@;
    let resolved = position(notes.as_slice(), reference);
    let note = match resolved {
        Ok(at) => Some(notes.remove(at)),
        Err(refused) => {
            let d = refused.diagnostic();
            all.push(d);
            assert(refusal(d, reference@, refused.met()));
            assert(all@ == carried.push(d));
            None
        },
    };
    let counts = SeverityCounts::of(&all);
    let diagnostics = sorted(all);
    ShowReport { note, contract, diagnostics, counts }
}

/// The kind a note's property `name` is declared with, under the type its
/// binding names.
pub open spec fn declared_kind(contract: Contract, binding: Binding, name: Seq<char>) -> Option<crate::contract::PropertyKind> {
    match bound_name(binding) {
        Some(t) => match type_at(contract.types@, t) {
            Some(i) => match property_decl_at(contract.types@[i].properties@, name) {
                Some(j) => Some(contract.types@[i].properties@[j].kind),
                None => None,
            },
            None => None,
        },
        None => None,
    }
}

/// Whether every property the report's note carries is declared by the
/// note's type in the report's contract: true of any note read against that
/// contract, and what rendering a property's kind relies on.
pub open spec fn renderable(report: ShowReport) -> bool {
    match report.note {
        Some(n) => forall|i: int|
            0 <= i < n.properties@.len() ==> (#[trigger] declared_kind(report.contract, n.binding, n.properties@[i].name@)).is_some(),
        None => true,
    }
}

/// Scalars joined by `, `, each on one line.
pub open spec fn scalars_text(values: Seq<String>) -> Seq<char>
    decreases values.len(),
{
    if values.len() == 0 {
        Seq::empty()
    } else if values.len() == 1 {
        fold(values[0]@)
    } else {
        scalars_text(values.drop_last()) + ", "@ + fold(values.last()@)
    }
}

/// A record's fields joined by `, `, each as `name: value` on one line.
pub open spec fn fields_text(fields: Seq<FieldValue>) -> Seq<char>
    decreases fields.len(),
{
    if fields.len() == 0 {
        Seq::empty()
    } else if fields.len() == 1 {
        fold(fields[0].name@) + ": "@ + fold(fields[0].value@)
    } else {
        fields_text(fields.drop_last()) + ", "@ + fold(fields.last().name@) + ": "@ + fold(fields.last().value@)
    }
}

/// A record value, in braces.
pub open spec fn record_text(record: RecordValue) -> Seq<char> {
    "{"@ + fields_text(record.fields@) + "}"@
}

/// Records joined by `, `.
pub open spec fn records_text(records: Seq<RecordValue>) -> Seq<char>
    decreases records.len(),
{
    if records.len() == 0 {
        Seq::empty()
    } else if records.len() == 1 {
        record_text(records[0])
    } else {
        records_text(records.drop_last()) + ", "@ + record_text(records.last())
    }
}

/// A property value as one line: a scalar as written, a list or a list of
/// records in brackets, a record in braces.
pub open spec fn value_text(value: PropertyValue) -> Seq<char> {
    match value {
        PropertyValue::Scalar(s) => fold(s@),
        PropertyValue::List(values) => "["@ + scalars_text(values@) + "]"@,
        PropertyValue::Record(record) => record_text(record),
        PropertyValue::RecordList(records) => "["@ + records_text(records@) + "]"@,
    }
}

/// One line per property, each preceded by a line break.
pub open spec fn property_lines(contract: Contract, binding: Binding, properties: Seq<Property>) -> Seq<char>
    decreases properties.len(),
{
    if properties.len() == 0 {
        Seq::empty()
    } else {
        let p = properties.last();
        property_lines(contract, binding, properties.drop_last()) + "\n  "@ + fold(p.name@) + " ("@
            + kind_spelling(declared_kind(contract, binding, p.name@).unwrap()) + "): "@ + value_text(p.value)
    }
}

/// One line per edge under `predicate`, each preceded by a line break.
pub open spec fn edge_lines(predicate: Seq<char>, edges: Seq<Edge>) -> Seq<char>
    decreases edges.len(),
{
    if edges.len() == 0 {
        Seq::empty()
    } else {
        let e = edges.last();
        edge_lines(predicate, edges.drop_last()) + "\n  "@ + fold(predicate) + ": "@ + fold(e.written@) + " -> "@
            + match e.target {
            Some(t) => t@,
            None => "-"@,
        }
    }
}

/// Every relationship's edge lines, in order.
pub open spec fn relationship_lines(relationships: Seq<Relationship>) -> Seq<char>
    decreases relationships.len(),
{
    if relationships.len() == 0 {
        Seq::empty()
    } else {
        relationship_lines(relationships.drop_last()) + edge_lines(
            relationships.last().predicate@,
            relationships.last().edges@,
        )
    }
}

/// One line per tag, each preceded by a line break.
pub open spec fn tag_lines(tags: Seq<String>) -> Seq<char>
    decreases tags.len(),
{
    if tags.len() == 0 {
        Seq::empty()
    } else {
        tag_lines(tags.drop_last()) + "\n  - "@ + fold(tags.last()@)
    }
}

/// A section's lines, or the line saying it has none.
pub open spec fn or_none(lines: Seq<char>) -> Seq<char> {
    if lines.len() == 0 {
        "\n  -"@
    } else {
        lines
    }
}

/// The document model of `note`, one part to a line.
pub open spec fn document(contract: Contract, note: Note) -> Seq<char> {
    "path: "@ + note.path@ + "\ntitle: "@ + match note.title {
        Some(t) => fold(t@),
        None => "-"@,
    } + "\ntype: "@ + match bound_name(note.binding) {
        Some(t) => t,
        None => "-"@,
    } + "\nbound by: "@ + match note.binding {
        Binding::Declared { .. } => "declaration"@,
        Binding::CatchAll { .. } => "catch-all"@,
        Binding::Unbound { .. } => "none"@,
    } + "\nproperties:"@ + or_none(property_lines(contract, note.binding, note.properties@))
        + "\nrelationships:"@ + or_none(relationship_lines(note.relationships@)) + "\ntags:"@ + or_none(
        tag_lines(note.tags@),
    ) + "\nbody:\n"@ + note.body@
}

/// `text`, ending in a line break.
pub open spec fn terminated(text: Seq<char>) -> Seq<char> {
    if text.len() > 0 && text.last() == '\n' {
        text
    } else {
        text.push('\n')
    }
}

/// `show`'s plain text: the note's document model, or nothing when the
/// reference was refused.
pub open spec fn show_text_spec(report: ShowReport) -> Seq<char> {
    match report.note {
        Some(n) => terminated(document(report.contract, n)),
        None => Seq::empty(),
    }
}

/// Appends `values` joined by `, `, each on one line.
fn push_scalars(out: &mut Vec<char>, values: &Vec<String>)
    ensures
        final(out)@ == old(out)@ + scalars_text(values@),
{
    let ghost start = out@;
    let mut i: usize = 0;
    while i < values.len()
        invariant
            i <= values.len(),
            out@ == start + scalars_text(values@.take(i as int)),
        decreases values.len() - i,
    {
        assert(values@.take(i + 1).drop_last() =~= values@.take(i as int));
        if i > 0 {
            append(out, ", ");
        }
        append_folded(out, values[i].as_str());
        i = i + 1;
        assert(out@ =~= start + scalars_text(values@.take(i as int)));
    }
    assert(values@.take(values@.len() as int) =~= values@);
}

/// Appends a record value, in braces.
fn push_record(out: &mut Vec<char>, record: &RecordValue)
    ensures
        final(out)@ == old(out)@ + record_text(*record),
{
    let ghost start = out@;
    append(out, "{");
    let fields = &record.fields;
    let mut i: usize = 0;
    while i < fields.len()
        invariant
            i <= fields.len(),
            out@ == start + "{"@ + fields_text(fields@.take(i as int)),
        decreases fields.len() - i,
    {
        assert(fields@.take(i + 1).drop_last() =~= fields@.take(i as int));
        if i > 0 {
            append(out, ", ");
        }
        append_folded(out, fields[i].name.as_str());
        append(out, ": ");
        append_folded(out, fields[i].value.as_str());
        i = i + 1;
        assert(out@ =~= start + "{"@ + fields_text(fields@.take(i as int)));
    }
    assert(fields@.take(fields@.len() as int) =~= fields@);
    append(out, "}");
    assert(out@ =~= start + record_text(*record));
}

/// Appends records joined by `, `.
fn push_records(out: &mut Vec<char>, records: &Vec<RecordValue>)
    ensures
        final(out)@ == old(out)@ + records_text(records@),
{
    let ghost start = out@;
    let mut i: usize = 0;
    while i < records.len()
        invariant
            i <= records.len(),
            out@ == start + records_text(records@.take(i as int)),
        decreases records.len() - i,
    {
        assert(records@.take(i + 1).drop_last() =~= records@.take(i as int));
        if i > 0 {
            append(out, ", ");
        }
        push_record(out, &records[i]);
        i = i + 1;
        assert(out@ =~= start + records_text(records@.take(i as int)));
    }
    assert(records@.take(records@.len() as int) =~= records@);
}

/// Appends a property value as one line.
fn push_value(out: &mut Vec<char>, value: &PropertyValue)
    ensures
        final(out)@ == old(out)@ + value_text(*value),
{
    let ghost start = out@;
    match value {
        PropertyValue::Scalar(text) => append_folded(out, text.as_str()),
        PropertyValue::List(values) => {
            append(out, "[");
            push_scalars(out, values);
            append(out, "]");
            assert(out@ =~= start + value_text(*value));
        },
        PropertyValue::Record(record) => push_record(out, record),
        PropertyValue::RecordList(records) => {
            append(out, "[");
            push_records(out, records);
            append(out, "]");
            assert(out@ =~= start + value_text(*value));
        },
    }
}

/// Appends one line per property.
fn push_properties(out: &mut Vec<char>, contract: &Contract, binding: &Binding, properties: &Vec<Property>)
    requires
        forall|i: int| 0 <= i < properties@.len() ==> (#[trigger] declared_kind(*contract, *binding, properties@[i].name@)).is_some(),
    ensures
        final(out)@ == old(out)@ + property_lines(*contract, *binding, properties@),
{
    let ghost start = out@;
    let mut i: usize = 0;
    while i < properties.len()
        invariant
            i <= properties.len(),
            forall|k: int| 0 <= k < properties@.len() ==> (#[trigger] declared_kind(*contract, *binding, properties@[k].name@)).is_some(),
            out@ == start + property_lines(*contract, *binding, properties@.take(i as int)),
        decreases properties.len() - i,
    {
        assert(properties@.take(i + 1).drop_last() =~= properties@.take(i as int));
        let p = &properties[i];
        let ghost wanted = declared_kind(*contract, *binding, p.name@);
        assert(wanted.is_some());
        let kind = match binding.bound_type() {
            Some(t) => match contract.type_named(t) {
                Some(declared) => match declared.property(p.name.as_str()) {
                    Some(decl) => decl.kind.as_str(),
                    None => "",
                },
                None => "",
            },
            None => "",
        };
        assert(kind@ == kind_spelling(wanted.unwrap()));
        append(out, "\n  ");
        append_folded(out, p.name.as_str());
        append(out, " (");
        append(out, kind);
        append(out, "): ");
        push_value(out, &p.value);
        i = i + 1;
        assert(out@ =~= start + property_lines(*contract, *binding, properties@.take(i as int)));
    }
    assert(properties@.take(properties@.len() as int) =~= properties@);
}

/// Appends one line per edge under `predicate`.
fn push_edges(out: &mut Vec<char>, predicate: &str, edges: &Vec<Edge>)
    ensures
        final(out)@ == old(out)@ + edge_lines(predicate@, edges@),
{
    let ghost start = out@;
    let mut i: usize = 0;
    while i < edges.len()
        invariant
            i <= edges.len(),
            out@ == start + edge_lines(predicate@, edges@.take(i as int)),
        decreases edges.len() - i,
    {
        assert(edges@.take(i + 1).drop_last() =~= edges@.take(i as int));
        append(out, "\n  ");
        append_folded(out, predicate);
        append(out, ": ");
        append_folded(out, edges[i].written.as_str());
        append(out, " -> ");
        match &edges[i].target {
            Some(t) => append(out, t.as_str()),
            None => append(out, "-"),
        }
        i = i + 1;
        assert(out@ =~= start + edge_lines(predicate@, edges@.take(i as int)));
    }
    assert(edges@.take(edges@.len() as int) =~= edges@);
}

/// Appends every relationship's edge lines.
fn push_relationships(out: &mut Vec<char>, relationships: &Vec<Relationship>)
    ensures
        final(out)@ == old(out)@ + relationship_lines(relationships@),
{
    let ghost start = out@;
    let mut i: usize = 0;
    while i < relationships.len()
        invariant
            i <= relationships.len(),
            out@ == start + relationship_lines(relationships@.take(i as int)),
        decreases relationships.len() - i,
    {
        assert(relationships@.take(i + 1).drop_last() =~= relationships@.take(i as int));
        push_edges(out, relationships[i].predicate.as_str(), &relationships[i].edges);
        i = i + 1;
        assert(out@ =~= start + relationship_lines(relationships@.take(i as int)));
    }
    assert(relationships@.take(relationships@.len() as int) =~= relationships@);
}

/// Appends one line per tag.
fn push_tags(out: &mut Vec<char>, tags: &Vec<String>)
    ensures
        final(out)@ == old(out)@ + tag_lines(tags@),
{
    let ghost start = out@;
    let mut i: usize = 0;
    while i < tags.len()
        invariant
            i <= tags.len(),
            out@ == start + tag_lines(tags@.take(i as int)),
        decreases tags.len() - i,
    {
        assert(tags@.take(i + 1).drop_last() =~= tags@.take(i as int));
        append(out, "\n  - ");
        append_folded(out, tags[i].as_str());
        i = i + 1;
        assert(out@ =~= start + tag_lines(tags@.take(i as int)));
    }
    assert(tags@.take(tags@.len() as int) =~= tags@);
}

/// Appends a section's lines, or the line saying it has none: `lines` is
/// what the section wrote after `before`.
fn close_section(out: &mut Vec<char>, before: usize)
    requires
        before <= old(out)@.len(),
    ensures
        final(out)@ == old(out)@.take(before as int) + or_none(old(out)@.skip(before as int)),
{
    proof {
        reveal_strlit("\n  -");
    }
    if out.len() == before {
        append(out, "\n  -");
        assert(out@ =~= old(out)@.take(before as int) + or_none(old(out)@.skip(before as int)));
    } else {
        assert(out@ =~= old(out)@.take(before as int) + or_none(old(out)@.skip(before as int)));
    }
}

impl ShowReport {
    /// Whether every property the note carries is declared by its type in
    /// the report's contract, which rendering relies on.
    pub fn declares_every_property(&self) -> (b: bool)
        ensures
            b == renderable(*self),
    {
        match &self.note {
            None => true,
            Some(n) => {
                let mut i: usize = 0;
                while i < n.properties.len()
                    invariant
                        i <= n.properties@.len(),
                        self.note == Some(*n),
                        forall|k: int| 0 <= k < i ==> (#[trigger] declared_kind(self.contract, n.binding, n.properties@[k].name@)).is_some(),
                    decreases n.properties.len() - i,
                {
                    let p = &n.properties[i];
                    let ghost wanted = declared_kind(self.contract, n.binding, p.name@);
                    let known = match n.binding.bound_type() {
                        Some(t) => match self.contract.type_named(t) {
                            Some(declared) => declared.property(p.name.as_str()).is_some(),
                            None => false,
                        },
                        None => false,
                    };
                    assert(known == wanted.is_some());
                    if !known {
                        assert(declared_kind(self.contract, n.binding, n.properties@[i as int].name@).is_none());
                        assert(!renderable(*self)) by {
                            let k = i as int;
                            assert(0 <= k < n.properties@.len());
                        }
                        return false;
                    }
                    i = i + 1;
                }
                true
            },
        }
    }
}

/// Renders the selected note as plain text: path, title, type and what
/// bound it, every property with its kind, every edge with its target, every
/// tag, then the body. A refused reference has no document model to render
/// and produces an empty string.
pub fn show_text(report: &ShowReport) -> (text: String)
    requires
        renderable(*report),
    ensures
        text@ == show_text_spec(*report),
{
    let note = match &report.note {
        Some(n) => n,
        None => return String::new(),
    };
    let mut out: Vec<char> = Vec::new();
    append(&mut out, "path: ");
    append(&mut out, note.path.as_str());
    append(&mut out, "\ntitle: ");
    match &note.title {
        Some(t) => append_folded(&mut out, t.as_str()),
        None => append(&mut out, "-"),
    }
    append(&mut out, "\ntype: ");
    match note.binding.bound_type() {
        Some(t) => append(&mut out, t),
        None => append(&mut out, "-"),
    }
    append(&mut out, "\nbound by: ");
    append(&mut out, note.binding.bound_by());
    append(&mut out, "\nproperties:");
    let ghost head = out@;
    let mark = out.len();
    push_properties(&mut out, &report.contract, &note.binding, &note.properties);
    assert(out@.skip(mark as int) =~= property_lines(report.contract, note.binding, note.properties@));
    assert(out@.take(mark as int) =~= head);
    close_section(&mut out, mark);
    append(&mut out, "\nrelationships:");
    let ghost head = out@;
    let mark = out.len();
    push_relationships(&mut out, &note.relationships);
    assert(out@.skip(mark as int) =~= relationship_lines(note.relationships@));
    assert(out@.take(mark as int) =~= head);
    close_section(&mut out, mark);
    append(&mut out, "\ntags:");
    let ghost head = out@;
    let mark = out.len();
    push_tags(&mut out, &note.tags);
    assert(out@.skip(mark as int) =~= tag_lines(note.tags@));
    assert(out@.take(mark as int) =~= head);
    close_section(&mut out, mark);
    append(&mut out, "\nbody:\n");
    append(&mut out, note.body.as_str());
    assert(out@ =~= document(report.contract, *note));
    if out.len() == 0 || out[out.len() - 1] != '\n' {
        out.push('\n');
    }
    string_of(&out)
}

} // verus!
