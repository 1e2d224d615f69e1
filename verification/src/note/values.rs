//! Holding a frontmatter value to the kind its declaration names.
//!
//! A value's shape can be wrong — a mapping where a scalar was declared — and
//! then there is no value to carry: the property is absent from the model,
//! with the fault reported against it. A value's lexical form can be wrong —
//! `2026-8-3` for a `date` — and then the characters are carried anyway: the
//! model says what the note wrote, and the diagnostics say what is wrong with
//! it. A record's fields validate exactly as properties do, under the field's
//! path in the message.

use vstd::prelude::*;

use crate::chars::{decimal, join, join3, str_eq};
use crate::contract::{Contract, FieldDecl, FieldKind, PropertyDecl, PropertyKind, ScalarKind};
use crate::diagnostic::KernelDiagnostic;

use super::findings::{Findings, declaration};
use super::frontmatter::{Entry, Shape, Value};
use super::lexical;
use super::model::{FieldValue, PropertyValue, RecordValue};
use super::validate::{keyed_at, written};

verus! {

/// Whether `after` is `before` with findings added and nothing else changed.
pub open spec fn grew(before: Findings, after: Findings) -> bool {
    &&& after.wf()
    &&& after.chars == before.chars
    &&& after.offsets == before.offsets
    &&& after.file == before.file
    &&& after.list@.len() >= before.list@.len()
    &&& forall|i: int| 0 <= i < before.list@.len() ==> #[trigger] after.list@[i] == before.list@[i]
}

/// A finding by what it says: its identifier and its message.
pub type Said = (KernelDiagnostic, Seq<char>);

/// Whether `after` is `before` with findings saying `said` appended, in
/// order, and nothing else changed.
pub open spec fn appended(before: Findings, after: Findings, said: Seq<Said>) -> bool {
    &&& grew(before, after)
    &&& after.list@.len() == before.list@.len() + said.len()
    &&& forall|k: int|
        0 <= k < said.len() ==> (#[trigger] after.list@[before.list@.len() + k]).id == said[k].0
            && after.list@[before.list@.len() + k].message@ == said[k].1
}

/// Findings appended in two steps are those of both, in order.
pub proof fn lemma_appended_twice(a: Findings, b: Findings, c: Findings, first: Seq<Said>, second: Seq<Said>)
    requires
        appended(a, b, first),
        appended(b, c, second),
    ensures
        appended(a, c, first + second),
{
    assert forall|k: int| 0 <= k < (first + second).len() implies (#[trigger] c.list@[a.list@.len() + k]).id == (first
        + second)[k].0 && c.list@[a.list@.len() + k].message@ == (first + second)[k].1 by {
        if k < first.len() {
            assert(c.list@[a.list@.len() + k] == b.list@[a.list@.len() + k]);
        } else {
            assert(c.list@[a.list@.len() + k] == c.list@[b.list@.len() + (k - first.len())]);
        }
    }
}

/// The characters of every scalar among `items`, in order.
pub open spec fn scalars_of(items: Seq<Value>) -> Seq<Seq<char>>
    decreases items.len(),
{
    if items.len() == 0 {
        Seq::empty()
    } else {
        scalars_of(items.drop_last()) + match items.last().shape {
            Shape::Scalar(t) => seq![t@],
            _ => Seq::empty(),
        }
    }
}

/// The characters of a scalar value; none for anything else.
pub open spec fn scalar_text(v: Value) -> Seq<char> {
    match v.shape {
        Shape::Scalar(t) => t@,
        _ => Seq::empty(),
    }
}

/// A record's fields, by name and characters: each declared field the note
/// wrote, in declaration order, with the characters of the scalar it wrote
/// (none for anything else).
pub open spec fn record_fields(fields: Seq<FieldDecl>, entries: Seq<Entry>) -> Seq<(Seq<char>, Seq<char>)>
    decreases fields.len(),
{
    if fields.len() == 0 {
        Seq::empty()
    } else {
        record_fields(fields.drop_last(), entries) + match keyed_at(entries, fields.last().name@) {
            Some(k) => seq![(fields.last().name@, scalar_text(entries[k].value))],
            None => Seq::empty(),
        }
    }
}

/// Whether `r` is the record `fields` hold `entries` to.
pub open spec fn holds_record(fields: Seq<FieldDecl>, entries: Seq<Entry>, r: RecordValue) -> bool {
    r.fields@.map_values(|f: FieldValue| (f.name@, f.value@)) == record_fields(fields, entries)
}

/// The entries of every mapping among `items`, in order.
pub open spec fn mappings_of(items: Seq<Value>) -> Seq<Seq<Entry>>
    decreases items.len(),
{
    if items.len() == 0 {
        Seq::empty()
    } else {
        mappings_of(items.drop_last()) + match items.last().shape {
            Shape::Mapping(es) => seq![es@],
            _ => Seq::empty(),
        }
    }
}

/// What a declared property carries for the value a note wrote: the
/// characters of a scalar, the scalars of a list, a record for a mapping, and
/// nothing where the shape cannot be held.
pub open spec fn carries(kind: PropertyKind, value: Value, r: Option<PropertyValue>) -> bool {
    match kind {
        PropertyKind::Scalar(_) | PropertyKind::Enum { .. } => match value.shape {
            Shape::Scalar(t) => r matches Some(PropertyValue::Scalar(s)) && s@ == t@,
            _ => r.is_none(),
        },
        PropertyKind::List { .. } => match value.shape {
            Shape::Sequence(items) => r matches Some(PropertyValue::List(v)) && v@.map_values(|s: String| s@)
                == scalars_of(items@),
            _ => r.is_none(),
        },
        PropertyKind::Record { fields } => match value.shape {
            Shape::Mapping(es) => r matches Some(PropertyValue::Record(rv)) && holds_record(fields@, es@, rv),
            _ => r.is_none(),
        },
        PropertyKind::ListOfRecord { fields } => match value.shape {
            Shape::Sequence(items) => r matches Some(PropertyValue::RecordList(rs)) && rs@.len() == mappings_of(
                items@,
            ).len() && forall|a: int| 0 <= a < rs@.len() ==> holds_record(fields@, mappings_of(items@)[a], #[trigger] rs@[a]),
            _ => r.is_none(),
        },
    }
}

/// Whether a scalar or `enum` kind admits `text`.
pub open spec fn fits_spec(kind: PropertyKind, text: Seq<char>) -> bool {
    match kind {
        PropertyKind::Scalar(s) => lexical::takes_form(s, text),
        PropertyKind::Enum { values } => exists|i: int| 0 <= i < values@.len() && #[trigger] values@[i]@ == text,
        _ => true,
    }
}

/// Whether a scalar or `enum` kind admits these characters.
fn fits(kind: &PropertyKind, text: &str) -> (b: bool)
    ensures
        b == fits_spec(*kind, text@),
{
    match kind {
        PropertyKind::Scalar(s) => lexical::scalar(*s, text),
        PropertyKind::Enum { values } => lexical::member(values.as_slice(), text),
        _ => true,
    }
}

/// Whether a field's kind admits these characters.
fn field_fits(kind: &FieldKind, text: &str) -> (b: bool)
    ensures
        b == match *kind {
            FieldKind::Scalar(s) => lexical::takes_form(s, text@),
            FieldKind::Enum { values } => exists|i: int| 0 <= i < values@.len() && #[trigger] values@[i]@ == text@,
        },
{
    match kind {
        FieldKind::Scalar(s) => lexical::scalar(*s, text),
        FieldKind::Enum { values } => lexical::member(values.as_slice(), text),
    }
}

/// The note wrote a shape the declared kind cannot hold.
fn mismatch(findings: &mut Findings, path: &str, kind: &str, value: &Value)
    requires
        old(findings).wf(),
    ensures
        grew(*old(findings), *final(findings)),
        final(findings).list@.len() == old(findings).list@.len() + 1,
{
    let head = join3("`", path, "` is declared ");
    let said = join3(head.as_str(), kind, ", and the note writes ");
    let message = join(said.as_str(), value.describe());
    findings.spanned(KernelDiagnostic::NotePropertyKindInvalid, message, value.span.start..value.span.end);
}

/// The note wrote characters the declared kind's lexical form does not admit.
fn invalid(findings: &mut Findings, path: &str, kind: &str, text: &str, value: &Value)
    requires
        old(findings).wf(),
    ensures
        grew(*old(findings), *final(findings)),
        final(findings).list@.len() == old(findings).list@.len() + 1,
{
    let head = join3("`", path, "` is declared ");
    let said = join3(head.as_str(), kind, ", and `");
    let message = join3(said.as_str(), text, "` is not one");
    findings.spanned(KernelDiagnostic::NotePropertyKindInvalid, message, value.span.start..value.span.end);
}

/// Where the contract declares a property: `type.<type>.property.<name>`.
fn prefix_of(declaring: &str, property: &str) -> (r: String)
    ensures
        r@ == "type."@ + declaring@ + ".property."@ + property@,
{
    let head = join3("type.", declaring, ".property.");
    join(head.as_str(), property)
}

/// The value a note wrote for a declared property, when its shape admits one.
pub fn property(
    findings: &mut Findings,
    contract: &Contract,
    declaring: &str,
    declared: &PropertyDecl,
    value: &Value,
) -> (r: Option<PropertyValue>)
    requires
        old(findings).wf(),
    ensures
        grew(*old(findings), *final(findings)),
        carries(declared.kind, *value, r),
{
    let path = declared.name.as_str();
    match &declared.kind {
        PropertyKind::Record { fields } => match &value.shape {
            Shape::Mapping(entries) => {
                let prefix = prefix_of(declaring, path);
                Some(PropertyValue::Record(record(findings, contract, prefix.as_str(), fields, path, entries)))
            },
            _ => {
                mismatch(findings, path, declared.kind.describe().as_str(), value);
                None
            },
        },
        PropertyKind::ListOfRecord { fields } => match &value.shape {
            Shape::Sequence(items) => {
                let prefix = prefix_of(declaring, path);
                Some(PropertyValue::RecordList(records(findings, contract, prefix.as_str(), fields, path, items)))
            },
            _ => {
                mismatch(findings, path, declared.kind.describe().as_str(), value);
                None
            },
        },
        PropertyKind::List { of } => match &value.shape {
            Shape::Sequence(items) => Some(PropertyValue::List(elements(findings, path, *of, items))),
            _ => {
                mismatch(findings, path, declared.kind.describe().as_str(), value);
                None
            },
        },
        _ => match &value.shape {
            Shape::Scalar(text) => {
                if !fits(&declared.kind, text.as_str()) {
                    invalid(findings, path, declared.kind.describe().as_str(), text.as_str(), value);
                }
                Some(PropertyValue::Scalar(text.clone()))
            },
            _ => {
                mismatch(findings, path, declared.kind.describe().as_str(), value);
                None
            },
        },
    }
}

/// `path` followed by `[index]`.
fn indexed(path: &str, index: usize) -> (r: String)
    ensures
        r@ == path@ + "["@ + crate::chars::decimal_spec(index as nat) + "]"@,
{
    let head = join3(path, "[", decimal(index).as_str());
    join(head.as_str(), "]")
}

/// Every element of a `list`, each checked against the element kind; an
/// element that is not a scalar is reported and dropped.
fn elements(findings: &mut Findings, path: &str, of: ScalarKind, items: &Vec<Value>) -> (r: Vec<String>)
    requires
        old(findings).wf(),
    ensures
        grew(*old(findings), *final(findings)),
        r@.map_values(|s: String| s@) == scalars_of(items@),
{
    let mut out: Vec<String> = Vec::new();
    let kind = join3("`", of.as_str(), "`");
    let mut i: usize = 0;
    assert(items@.take(0) =~= Seq::<Value>::empty());
    while i < items.len()
        invariant
            i <= items@.len(),
            grew(*old(findings), *findings),
            out@.map_values(|s: String| s@) == scalars_of(items@.take(i as int)),
        decreases items.len() - i,
    {
        let ghost before = out@;
        assert(items@.take(i + 1).drop_last() =~= items@.take(i as int));
        let item = &items[i];
        let at = indexed(path, i);
        match &item.shape {
            Shape::Scalar(text) => {
                if !lexical::scalar(of, text.as_str()) {
                    invalid(findings, at.as_str(), kind.as_str(), text.as_str(), item);
                }
                out.push(text.clone());
                assert(out@.map_values(|s: String| s@) =~= before.map_values(|s: String| s@).push(text@));
            },
            _ => {
                mismatch(findings, at.as_str(), kind.as_str(), item);
                assert(out@.map_values(|s: String| s@) =~= before.map_values(|s: String| s@) + Seq::empty());
            },
        }
        i = i + 1;
    }
    assert(items@.take(items@.len() as int) =~= items@);
    out
}

/// Every element of a `list` of `record`, each held to the same fields; an
/// element that is not a mapping is reported and dropped.
fn records(
    findings: &mut Findings,
    contract: &Contract,
    prefix: &str,
    fields: &Vec<FieldDecl>,
    path: &str,
    items: &Vec<Value>,
) -> (r: Vec<RecordValue>)
    requires
        old(findings).wf(),
    ensures
        grew(*old(findings), *final(findings)),
        r@.len() == mappings_of(items@).len(),
        forall|a: int| 0 <= a < r@.len() ==> holds_record(fields@, mappings_of(items@)[a], #[trigger] r@[a]),
{
    let mut out: Vec<RecordValue> = Vec::new();
    let mut i: usize = 0;
    while i < items.len()
        invariant
            i <= items@.len(),
            grew(*old(findings), *findings),
            out@.len() == mappings_of(items@.take(i as int)).len(),
            forall|a: int| 0 <= a < out@.len() ==> holds_record(fields@, mappings_of(items@.take(i as int))[a], #[trigger] out@[a]),
        decreases items.len() - i,
    {
        assert(items@.take(i + 1).drop_last() =~= items@.take(i as int));
        let ghost before = out@;
        let item = &items[i];
        let at = indexed(path, i);
        match &item.shape {
            Shape::Mapping(entries) => {
                out.push(record(findings, contract, prefix, fields, at.as_str(), entries));
                assert forall|a: int| 0 <= a < out@.len() implies holds_record(fields@, mappings_of(items@.take(i + 1))[a], #[trigger] out@[a]) by {
                    if a < before.len() {
                        assert(out@[a] == before[a]);
                    }
                }
            },
            _ => {
                mismatch(findings, at.as_str(), "`record`", item);
            },
        }
        i = i + 1;
    }
    assert(items@.take(items@.len() as int) =~= items@);
    out
}

/// The position of the entry keyed `key`, when there is one.
pub fn entry_keyed(entries: &Vec<Entry>, key: &str) -> (r: Option<usize>)
    ensures
        match r {
            Some(i) => i < entries@.len() && entries@[i as int].key@ == key@ && forall|j: int|
                0 <= j < i ==> #[trigger] entries@[j].key@ != key@,
            None => forall|j: int| 0 <= j < entries@.len() ==> #[trigger] entries@[j].key@ != key@,
        },
{
    let mut i: usize = 0;
    while i < entries.len()
        invariant
            i <= entries@.len(),
            forall|j: int| 0 <= j < i ==> #[trigger] entries@[j].key@ != key@,
        decreases entries.len() - i,
    {
        if str_eq(entries[i].key.as_str(), key) {
            return Some(i);
        }
        i = i + 1;
    }
    None
}

/// One record value: its declared fields in declaration order, with what the
/// note wrote for them, and every field it declares nothing for reported.
fn record(
    findings: &mut Findings,
    contract: &Contract,
    prefix: &str,
    fields: &Vec<FieldDecl>,
    path: &str,
    entries: &Vec<Entry>,
) -> (r: RecordValue)
    requires
        old(findings).wf(),
    ensures
        grew(*old(findings), *final(findings)),
        holds_record(fields@, entries@, r),
{
    let mut values: Vec<FieldValue> = Vec::new();
    let mut i: usize = 0;
    while i < fields.len()
        invariant
            i <= fields@.len(),
            grew(*old(findings), *findings),
            values@.map_values(|f: FieldValue| (f.name@, f.value@)) == record_fields(fields@.take(i as int), entries@),
        decreases fields.len() - i,
    {
        assert(fields@.take(i + 1).drop_last() =~= fields@.take(i as int));
        let ghost before = values@;
        let field = &fields[i];
        let got = field_value(findings, contract, prefix, field, path, entries);
        match got {
            Some(f) => {
                values.push(f);
                assert(values@.map_values(|f: FieldValue| (f.name@, f.value@)) =~= before.map_values(
                    |f: FieldValue| (f.name@, f.value@),
                ).push((fields@[i as int].name@, scalar_text(entries@[keyed_at(entries@, fields@[i as int].name@).unwrap()].value))));
            },
            None => {
                assert(values@.map_values(|f: FieldValue| (f.name@, f.value@)) =~= before.map_values(
                    |f: FieldValue| (f.name@, f.value@),
                ) + Seq::empty());
            },
        }
        i = i + 1;
    }
    assert(fields@.take(fields@.len() as int) =~= fields@);
    let mut j: usize = 0;
    while j < entries.len()
        invariant
            j <= entries@.len(),
            grew(*old(findings), *findings),
        decreases entries.len() - j,
    {
        let entry = &entries[j];
        if !declares_field(fields, entry.key.as_str()) {
            let head = join3("the record `", path, "` declares no field `");
            let message = join3(head.as_str(), entry.key.as_str(), "`, so its value is not validated");
            findings.spanned(
                KernelDiagnostic::NoteUndeclaredProperty,
                message,
                entry.key_span.start..entry.key_span.end,
            );
        }
        j = j + 1;
    }
    RecordValue { fields: values }
}

/// What the note wrote for one declared field of a record, checked against
/// the field's kind; a required field it leaves out is reported.
fn field_value(
    findings: &mut Findings,
    contract: &Contract,
    prefix: &str,
    field: &FieldDecl,
    path: &str,
    entries: &Vec<Entry>,
) -> (r: Option<FieldValue>)
    requires
        old(findings).wf(),
    ensures
        grew(*old(findings), *final(findings)),
        match keyed_at(entries@, field.name@) {
            Some(k) => r matches Some(f) && f.name@ == field.name@ && f.value@ == scalar_text(entries@[k].value),
            None => r.is_none(),
        },
{
    let at = join3(path, ".", field.name.as_str());
    match written(entries, field.name.as_str()) {
        Some(k) => {
            let entry = &entries[k];
            let text = match &entry.value.shape {
                Shape::Scalar(text) => text.clone(),
                _ => String::new(),
            };
            if !field_fits(&field.kind, text.as_str()) {
                invalid(findings, at.as_str(), field.kind.describe().as_str(), text.as_str(), &entry.value);
            }
            let f = FieldValue { name: field.name.clone(), value: text };
            Some(f)
        },
        None => {
            if field.required {
                let message = join3("the record requires the field `", at.as_str(), "`, and the note writes no value for it");
                let head = join3(prefix, ".field.", field.name.as_str());
                let key = join(head.as_str(), ".required");
                let said = join3("the field is declared ", field.kind.describe().as_str(), " and required");
                let evidence = declaration(contract, key.as_str(), said);
                findings.absent(KernelDiagnostic::NoteMissingRequiredProperty, message, evidence);
            }
            None
        },
    }
}

/// Whether a record declares a field named `key`.
fn declares_field(fields: &Vec<FieldDecl>, key: &str) -> (b: bool)
    ensures
        b == exists|i: int| 0 <= i < fields@.len() && (#[trigger] fields@[i]).name@ == key@,
{
    let mut i: usize = 0;
    while i < fields.len()
        invariant
            i <= fields@.len(),
            forall|j: int| 0 <= j < i ==> (#[trigger] fields@[j]).name@ != key@,
        decreases fields.len() - i,
    {
        if str_eq(fields[i].name.as_str(), key) {
            return true;
        }
        i = i + 1;
    }
    false
}

} // verus!
