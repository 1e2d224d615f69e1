//! Binding a note to its type, and reading it against that type's declarations.
//!
//! `type` is the format's one reserved frontmatter word, and its value must be
//! a scalar naming a declared type. A note with no `type` key belongs to the
//! catch-all type. The catch-all binds absence, never error: a `type` that is
//! not a scalar, or names no declared type, binds to nothing, and a note bound
//! to nothing collects no further finding — every remaining rule reads a
//! declaration, and there is none to read.
//!
//! A key that is neither a declared property, a declared predicate, nor the
//! discriminator is reported at `info`, per key, against its span.

use vstd::prelude::*;

use crate::chars::{begins, chars_of, join, join3, starts_with, string_of, slice, str_eq};
use crate::contract::{
    Contract, PropertyDecl, PropertyKind, RelationshipDecl, TagNamespaceDecl, TypeDecl, catch_all_at, declares_property,
    declares_relationship, type_at,
};
use crate::diagnostic::{KernelDiagnostic, Related};

use super::findings::{Findings, declaration, located_at};
use super::frontmatter::{Entry, Shape, Value};
use super::lexical;
use super::model::{Binding, Edge, Property, PropertyValue, Relationship};
use super::values::{self, Said, appended, entry_keyed, grew, lemma_appended_twice};

verus! {

/// The format's one reserved frontmatter word.
pub open spec fn discriminator() -> Seq<char> {
    seq!['t', 'y', 'p', 'e']
}

/// The first position of `entries` keyed `key`.
pub open spec fn keyed_at(entries: Seq<Entry>, key: Seq<char>) -> Option<int> {
    if exists|i: int| 0 <= i < entries.len() && (#[trigger] entries[i]).key@ == key {
        Some(
            choose|i: int|
                0 <= i < entries.len() && (#[trigger] entries[i]).key@ == key && forall|j: int|
                    0 <= j < i ==> (#[trigger] entries[j]).key@ != key,
        )
    } else {
        None
    }
}

/// What a note bound to.
pub struct Bound {
    /// The binding the document model carries.
    pub binding: Binding,
    /// The position of the type it bound to among the contract's types.
    pub declared: Option<usize>,
}

/// What binding a note's entries to a contract's types answers: the type a
/// scalar `type` names; the catch-all where there is no `type`; and nothing
/// where `type` is not a scalar or names no declared type.
pub open spec fn binds(contract: Contract, entries: Seq<Entry>, b: Bound) -> bool {
    match keyed_at(entries, discriminator()) {
        None => match catch_all_at(contract.types@) {
            Some(i) => (b.declared matches Some(d) && d == i) && (b.binding matches Binding::CatchAll { name } && name@
                == contract.types@[i].name@),
            None => b.declared.is_none() && b.binding == Binding::Unbound { named: None },
        },
        Some(k) => match entries[k].value.shape {
            Shape::Scalar(t) => match type_at(contract.types@, t@) {
                Some(i) => (b.declared matches Some(d) && d == i) && (b.binding matches Binding::Declared { name }
                    && name@ == t@),
                None => b.declared.is_none() && (b.binding matches Binding::Unbound { named: Some(n) } && n@
                    == t@),
            },
            _ => b.declared.is_none() && b.binding == Binding::Unbound { named: None },
        },
    }
}

/// What binding reports: nothing for a note with no `type` or one naming a
/// declared type; `note.type-invalid` for a `type` that is not a scalar;
/// `note.unknown-type` naming the type for one the contract does not declare.
pub open spec fn bind_said(contract: Contract, entries: Seq<Entry>) -> Seq<Said> {
    match keyed_at(entries, discriminator()) {
        None => Seq::empty(),
        Some(k) => match entries[k].value.shape {
            Shape::Scalar(t) => match type_at(contract.types@, t@) {
                Some(_) => Seq::empty(),
                None => seq![(KernelDiagnostic::NoteUnknownType, "the contract declares no type `"@ + t@ + "`"@)],
            },
            _ => seq![(
                KernelDiagnostic::NoteTypeInvalid,
                "`type` must name a declared type, and the note writes "@ + super::frontmatter::describe_spec(
                    entries[k].value.shape,
                ),
            )],
        },
    }
}

/// The first entry keyed `key`, when there is one.
pub fn written(entries: &Vec<Entry>, key: &str) -> (r: Option<usize>)
    ensures
        match r {
            Some(i) => keyed_at(entries@, key@) == Some(i as int) && i < entries@.len() && entries@[i as int].key@
                == key@,
            None => keyed_at(entries@, key@).is_none(),
        },
{
    let found = entry_keyed(entries, key);
    match found {
        Some(i) => {
            assert(entries@[i as int].key@ == key@);
            let ghost chosen = choose|c: int|
                0 <= c < entries@.len() && (#[trigger] entries@[c]).key@ == key@ && forall|j: int|
                    0 <= j < c ==> (#[trigger] entries@[j]).key@ != key@;
            assert(exists|c: int|
                0 <= c < entries@.len() && (#[trigger] entries@[c]).key@ == key@ && forall|j: int|
                    0 <= j < c ==> (#[trigger] entries@[j]).key@ != key@) by {
                assert(0 <= i < entries@.len() && entries@[i as int].key@ == key@);
            }
            assert(chosen == i) by {
                if chosen < i {
                    assert(entries@[chosen].key@ != key@);
                } else if chosen > i {
                    assert(entries@[i as int].key@ != key@);
                }
            }
        },
        None => {},
    }
    found
}

/// Binds a note to the type its discriminator names, or to the catch-all.
pub fn bind(findings: &mut Findings, contract: &Contract, entries: &Vec<Entry>) -> (b: Bound)
    requires
        old(findings).wf(),
    ensures
        grew(*old(findings), *final(findings)),
        binds(*contract, entries@, b),
        appended(*old(findings), *final(findings), bind_said(*contract, entries@)),
        bind_said(*contract, entries@).len() > 0 ==> (keyed_at(entries@, discriminator()) matches Some(k) && located_at(
            final(findings).list@.last(),
            old(findings).file.spelled(),
            entries@[k].value.span.start as int,
            entries@[k].value.span.end as int,
        )),
{
    proof {
        crate::contract::lemma_type_at(contract.types@, Seq::empty());
    }
    let k = match written(entries, "type") {
        Some(k) => k,
        None => {
            proof {
                reveal_strlit("type");
                assert("type"@ =~= discriminator());
                crate::contract::lemma_catch_all_at(contract.types@);
            }
            let bound = match catch_all_index(contract) {
                Some(i) => {
                    let name = contract.types[i].name.clone();
                    proof {
                        crate::contract::lemma_catch_all_at(contract.types@);
                    }
                    assert(name@ == contract.types@[i as int].name@);
                    Bound { binding: Binding::CatchAll { name }, declared: Some(i) }
                },
                None => {
                    assert(catch_all_at(contract.types@).is_none());
                    Bound { binding: Binding::Unbound { named: None }, declared: None }
                },
            };
            assert(keyed_at(entries@, discriminator()).is_none());
            return bound;
        },
    };
    proof {
        reveal_strlit("type");
        assert("type"@ =~= discriminator());
    }
    let entry = &entries[k];
    match &entry.value.shape {
        Shape::Scalar(name) => match type_index(contract, name.as_str()) {
            Some(i) => Bound { binding: Binding::Declared { name: name.clone() }, declared: Some(i) },
            None => {
                let message = join3("the contract declares no type `", name.as_str(), "`");
                findings.spanned(
                    KernelDiagnostic::NoteUnknownType,
                    message,
                    entry.value.span.start..entry.value.span.end,
                );
                Bound { binding: Binding::Unbound { named: Some(name.clone()) }, declared: None }
            },
        },
        _ => {
            let message = join("`type` must name a declared type, and the note writes ", entry.value.describe());
            findings.spanned(KernelDiagnostic::NoteTypeInvalid, message, entry.value.span.start..entry.value.span.end);
            Bound { binding: Binding::Unbound { named: None }, declared: None }
        },
    }
}

/// The position of the type named `name`.
fn type_index(contract: &Contract, name: &str) -> (r: Option<usize>)
    ensures
        match type_at(contract.types@, name@) {
            Some(i) => r matches Some(k) && k == i,
            None => r.is_none(),
        },
{
    proof {
        crate::contract::lemma_type_at(contract.types@, name@);
    }
    let mut i: usize = 0;
    while i < contract.types.len()
        invariant
            i <= contract.types@.len(),
            forall|j: int| 0 <= j < i ==> #[trigger] contract.types@[j].name@ != name@,
        decreases contract.types.len() - i,
    {
        if str_eq(contract.types[i].name.as_str(), name) {
            proof {
                crate::contract::lemma_type_at(contract.types@, name@);
            }
            assert(type_at(contract.types@, name@) == Some(i as int));
            return Some(i);
        }
        i = i + 1;
    }
    None
}

/// The position of the catch-all type.
fn catch_all_index(contract: &Contract) -> (r: Option<usize>)
    ensures
        match catch_all_at(contract.types@) {
            Some(i) => r matches Some(k) && k == i,
            None => r.is_none(),
        },
{
    proof {
        crate::contract::lemma_catch_all_at(contract.types@);
    }
    let mut i: usize = 0;
    while i < contract.types.len()
        invariant
            i <= contract.types@.len(),
            forall|j: int| 0 <= j < i ==> !crate::contract::declares_capability(#[trigger] contract.types@[j], crate::contract::Capability::CatchAll),
        decreases contract.types.len() - i,
    {
        if contract.types[i].declares(crate::contract::Capability::CatchAll) {
            proof {
                crate::contract::lemma_catch_all_at(contract.types@);
            }
            assert(catch_all_at(contract.types@) == Some(i as int));
            return Some(i);
        }
        i = i + 1;
    }
    None
}

/// Whether a declared kind can hold the shape a note wrote: a scalar for a
/// scalar or `enum`, a sequence for a `list`, a mapping for a `record`.
pub open spec fn holds_shape(kind: PropertyKind, value: Value) -> bool {
    match kind {
        PropertyKind::Scalar(_) | PropertyKind::Enum { .. } => value.shape is Scalar,
        PropertyKind::List { .. } | PropertyKind::ListOfRecord { .. } => value.shape is Sequence,
        PropertyKind::Record { .. } => value.shape is Mapping,
    }
}

/// Whether a declared property is one the note wrote in a shape its kind
/// can hold.
pub open spec fn held(d: PropertyDecl, entries: Seq<Entry>) -> bool {
    match keyed_at(entries, d.name@) {
        Some(k) => holds_shape(d.kind, entries[k].value),
        None => false,
    }
}

/// Whether `r` is what a note carries for the properties `decls` declares:
/// in declaration order, each one the note wrote in a shape its kind can
/// hold, under its declared name, with the value that shape carries.
pub open spec fn carried(decls: Seq<PropertyDecl>, entries: Seq<Entry>, r: Seq<Property>) -> bool
    decreases decls.len(),
{
    if decls.len() == 0 {
        r.len() == 0
    } else if held(decls.last(), entries) {
        let k = keyed_at(entries, decls.last().name@).unwrap();
        &&& r.len() > 0
        &&& carried(decls.drop_last(), entries, r.drop_last())
        &&& r.last().name@ == decls.last().name@
        &&& values::carries(decls.last().kind, entries[k].value, Some(r.last().value))
    } else {
        carried(decls.drop_last(), entries, r)
    }
}

/// Whether `e` is the reference `text` written where `value` stands in the
/// note at `file`.
pub open spec fn edge_of(file: Seq<char>, e: Edge, text: Seq<char>, value: Value) -> bool {
    &&& e.written@ == text
    &&& e.target.is_none()
    &&& e.at.file.spelled() == file
    &&& e.at.span matches Some(s) && s.start.offset == value.span.start && s.end.offset == value.span.end
}

/// Whether every item is a scalar.
pub open spec fn all_scalars(items: Seq<Value>) -> bool {
    forall|i: int| 0 <= i < items.len() ==> (#[trigger] items[i]).shape is Scalar
}

/// The references a relationship's value carries: none for an empty scalar,
/// one for a scalar, one per item of a sequence of scalars, and none for a
/// sequence that holds anything else or for a mapping.
pub open spec fn edges_of(file: Seq<char>, value: Value, r: Seq<Edge>) -> bool {
    match value.shape {
        Shape::Scalar(t) => if t@.len() == 0 {
            r.len() == 0
        } else {
            r.len() == 1 && edge_of(file, r[0], t@, value)
        },
        Shape::Sequence(items) => if all_scalars(items@) {
            &&& r.len() == items@.len()
            &&& forall|i: int| 0 <= i < r.len() ==> edge_of(file, #[trigger] r[i], values::scalar_text(items@[i]), items@[i])
        } else {
            r.len() == 0
        },
        Shape::Mapping(_) => r.len() == 0,
    }
}

/// Whether `r` is one relationship per declared predicate, in declaration
/// order, each with the references the note wrote under it.
pub open spec fn related(file: Seq<char>, decls: Seq<RelationshipDecl>, entries: Seq<Entry>, r: Seq<Relationship>) -> bool {
    &&& r.len() == decls.len()
    &&& forall|i: int| 0 <= i < r.len() ==> {
        &&& (#[trigger] r[i]).predicate@ == decls[i].predicate@
        &&& match keyed_at(entries, decls[i].predicate@) {
            Some(k) => edges_of(file, entries[k].value, r[i].edges@),
            None => r[i].edges@.len() == 0,
        }
    }
}

/// The position of the first property named `name`, when there is one.
pub open spec fn named_at(properties: Seq<Property>, name: Seq<char>) -> Option<int> {
    if exists|i: int| 0 <= i < properties.len() && (#[trigger] properties[i]).name@ == name {
        Some(
            choose|i: int|
                0 <= i < properties.len() && (#[trigger] properties[i]).name@ == name && forall|j: int|
                    0 <= j < i ==> (#[trigger] properties[j]).name@ != name,
        )
    } else {
        None
    }
}

/// A note's tags: the values of the contract's tag property, when the note
/// carries it as a list; none otherwise.
pub open spec fn tags_spec(contract: Contract, properties: Seq<Property>) -> Seq<Seq<char>> {
    match contract.tags {
        Some(t) => match named_at(properties, t.property@) {
            Some(i) => match properties[i].value {
                PropertyValue::List(items) => items@.map_values(|s: String| s@),
                _ => Seq::empty(),
            },
            None => Seq::empty(),
        },
        None => Seq::empty(),
    }
}

/// Everything a note's frontmatter says, once held to its type.
pub struct Contents {
    /// The declared properties the note carries, in declaration order.
    pub properties: Vec<Property>,
    /// The declared relationships, in declaration order.
    pub relationships: Vec<Relationship>,
    /// The declared tag property's values.
    pub tags: Vec<String>,
}

/// Whether `after` is `before` grown by findings that end with ones saying
/// `said`, in order.
pub open spec fn ends_with_said(before: Findings, after: Findings, said: Seq<Said>) -> bool {
    &&& grew(before, after)
    &&& after.list@.len() >= before.list@.len() + said.len()
    &&& forall|k: int|
        0 <= k < said.len() ==> (#[trigger] after.list@[after.list@.len() - said.len() + k]).id == said[k].0
            && after.list@[after.list@.len() - said.len() + k].message@ == said[k].1
}

/// Whether a finding saying `said` is among those `findings` gained after
/// its first `from`.
pub open spec fn reported_since(findings: Findings, from: int, said: Said) -> bool {
    exists|k: int| from <= k < findings.list@.len() && (#[trigger] findings.list@[k]).id == said.0 && findings.list@[k].message@ == said.1
}

/// What a required property the note writes no value for reports.
pub open spec fn missing_said(declared: TypeDecl, property: PropertyDecl) -> Said {
    (
        KernelDiagnostic::NoteMissingRequiredProperty,
        "the type `"@ + declared.name@ + "` requires `"@ + property.name@ + "`, and the note writes no value for it"@,
    )
}

/// The entry holding the note's tags, when the contract names a tag
/// property and the note writes it.
pub open spec fn tag_entry(contract: Contract, entries: Seq<Entry>) -> Option<usize> {
    match contract.tags {
        Some(t) => match keyed_at(entries, t.property@) {
            Some(k) => Some(k as usize),
            None => None,
        },
        None => None,
    }
}

/// Findings appended after some that grew are what the whole ends with.
proof fn lemma_ends_with(a: Findings, b: Findings, c: Findings, said: Seq<Said>)
    requires
        grew(a, b),
        appended(b, c, said),
    ensures
        ends_with_said(a, c, said),
{
    assert forall|k: int| 0 <= k < said.len() implies (#[trigger] c.list@[c.list@.len() - said.len() + k]).id == said[k].0
        && c.list@[c.list@.len() - said.len() + k].message@ == said[k].1 by {
        assert(c.list@.len() - said.len() + k == b.list@.len() + k);
    }
}

/// Reads a note's frontmatter against the type it bound to: every carried
/// property is one the type declares, and there is one relationship per
/// declared predicate, in declaration order.
pub fn contents(findings: &mut Findings, contract: &Contract, declared: &TypeDecl, entries: &Vec<Entry>) -> (c: Contents)
    requires
        old(findings).wf(),
    ensures
        grew(*old(findings), *final(findings)),
        carried(declared.properties@, entries@, c.properties@),
        forall|i: int| 0 <= i < c.properties@.len() ==> declares_property(*declared, (#[trigger] c.properties@[i]).name@),
        related(old(findings).file.spelled(), declared.relationships@, entries@, c.relationships@),
        c.tags@.map_values(|s: String| s@) == tags_spec(*contract, c.properties@),
        missing_reported(*final(findings), old(findings).list@.len() as int, *declared, entries@, declared.properties@.len() as int),
        ends_with_said(
            *old(findings),
            *final(findings),
            relationships_said(*declared, declared.relationships@, entries@) + undeclared_said(*declared, entries@)
                + namespaces_said(declared.tag_namespaces@, tagged_items(entries@, tag_entry(*contract, entries@))),
        ),
{
    let properties = properties(findings, contract, declared, entries);
    let ghost mid = *findings;
    let relationships = relationships(findings, contract, declared, entries);
    let ghost after_relationships = *findings;
    undeclared(findings, declared, entries);
    let ghost after_undeclared = *findings;
    let tagged = match &contract.tags {
        Some(tags) => written(entries, tags.property.as_str()),
        None => None,
    };
    assert(tagged == tag_entry(*contract, entries@));
    namespaces(findings, declared, entries, tagged);
    proof {
        let r = relationships_said(*declared, declared.relationships@, entries@);
        let u = undeclared_said(*declared, entries@);
        let n = namespaces_said(declared.tag_namespaces@, tagged_items(entries@, tag_entry(*contract, entries@)));
        lemma_appended_twice(mid, after_relationships, after_undeclared, r, u);
        lemma_appended_twice(mid, after_undeclared, *findings, r + u, n);
        lemma_ends_with(*old(findings), mid, *findings, r + u + n);
        assert forall|j: int|
            0 <= j < declared.properties@.len() && (#[trigger] declared.properties@[j]).required && keyed_at(
                entries@,
                declared.properties@[j].name@,
            ).is_none() implies reported_since(*findings, old(findings).list@.len() as int, missing_said(*declared, declared.properties@[j])) by {
            assert(reported_since(mid, old(findings).list@.len() as int, missing_said(*declared, declared.properties@[j])));
            let k = choose|k: int| old(findings).list@.len() <= k < mid.list@.len() && (#[trigger] mid.list@[k]).id == missing_said(*declared, declared.properties@[j]).0 && mid.list@[k].message@ == missing_said(*declared, declared.properties@[j]).1;
            assert(findings.list@[k] == mid.list@[k]);
        }
    }
    let tags = tags_of(contract, &properties);
    Contents { properties, relationships, tags }
}

/// Whether a finding reporting each required property among the first
/// `count` that the note writes no value for was gained since `from`.
pub open spec fn missing_reported(findings: Findings, from: int, declared: TypeDecl, entries: Seq<Entry>, count: int) -> bool {
    forall|j: int|
        0 <= j < count && (#[trigger] declared.properties@[j]).required && keyed_at(entries, declared.properties@[j].name@).is_none()
            ==> reported_since(findings, from, missing_said(declared, declared.properties@[j]))
}

/// What was reported stays reported as findings grow, and one more
/// property's report joins it.
proof fn lemma_missing_kept(before: Findings, start: Findings, after: Findings, declared: TypeDecl, entries: Seq<Entry>, i: int)
    requires
        0 <= i < declared.properties@.len(),
        start.list@.len() >= before.list@.len(),
        grew(start, after),
        missing_reported(start, before.list@.len() as int, declared, entries, i),
        declared.properties@[i].required && keyed_at(entries, declared.properties@[i].name@).is_none() ==> after.list@.len()
            > start.list@.len() && after.list@[start.list@.len() as int].id == missing_said(declared, declared.properties@[i]).0
            && after.list@[start.list@.len() as int].message@ == missing_said(declared, declared.properties@[i]).1,
    ensures
        missing_reported(after, before.list@.len() as int, declared, entries, i + 1),
{
    assert forall|j: int|
        0 <= j < i + 1 && (#[trigger] declared.properties@[j]).required && keyed_at(entries, declared.properties@[j].name@).is_none()
            implies reported_since(after, before.list@.len() as int, missing_said(declared, declared.properties@[j])) by {
        if j < i {
            let k = choose|k: int|
                before.list@.len() <= k < start.list@.len() && (#[trigger] start.list@[k]).id == missing_said(declared, declared.properties@[j]).0
                    && start.list@[k].message@ == missing_said(declared, declared.properties@[j]).1;
            assert(after.list@[k] == start.list@[k]);
        } else {
            let k = start.list@.len() as int;
            assert(after.list@[k].id == missing_said(declared, declared.properties@[j]).0);
        }
    }
}

/// Every declared property, in declaration order, with what the note wrote.
#[verifier::spinoff_prover]
fn properties(findings: &mut Findings, contract: &Contract, declared: &TypeDecl, entries: &Vec<Entry>) -> (r: Vec<Property>)
    requires
        old(findings).wf(),
    ensures
        grew(*old(findings), *final(findings)),
        carried(declared.properties@, entries@, r@),
        forall|i: int| 0 <= i < r@.len() ==> declares_property(*declared, (#[trigger] r@[i]).name@),
        missing_reported(*final(findings), old(findings).list@.len() as int, *declared, entries@, declared.properties@.len() as int),
{
    let mut out: Vec<Property> = Vec::new();
    let mut i: usize = 0;
    while i < declared.properties.len()
        invariant
            i <= declared.properties@.len(),
            grew(*old(findings), *findings),
            missing_reported(*findings, old(findings).list@.len() as int, *declared, entries@, i as int),
            carried(declared.properties@.take(i as int), entries@, out@),
            forall|k: int| 0 <= k < out@.len() ==> declares_property(*declared, (#[trigger] out@[k]).name@),
        decreases declared.properties.len() - i,
    {
        assert(declared.properties@.take(i + 1).drop_last() =~= declared.properties@.take(i as int));
        let ghost before = out@;
        let ghost start = *findings;
        let property = &declared.properties[i];
        match written(entries, property.name.as_str()) {
            Some(k) => {
                let read = values::property(findings, contract, declared.name.as_str(), property, &entries[k].value);
                match read {
                    Some(value) => {
                        let name = property.name.clone();
                        assert(declared.properties@[i as int].name@ == property.name@);
                        out.push(Property { name, value });
                        assert(out@.drop_last() =~= before);
                    },
                    None => {},
                }
            },
            None => {
                if property.required {
                    missing_property(findings, contract, declared, property);
                    assert(property.name@ == declared.properties@[i as int].name@);
                    let ghost m = findings.list@[start.list@.len() + 0int];
                    assert(m.id == missing_said(*declared, declared.properties@[i as int]).0);
                    assert(m.message@ == missing_said(*declared, declared.properties@[i as int]).1);
                }
            },
        }
        proof {
            lemma_missing_kept(*old(findings), start, *findings, *declared, entries@, i as int);
        }
        i = i + 1;
    }
    assert(declared.properties@.take(declared.properties@.len() as int) =~= declared.properties@);
    out
}

/// How many references a relationship's value carries.
pub open spec fn edge_count(value: Value) -> int {
    match value.shape {
        Shape::Scalar(t) => if t@.len() == 0 { 0 } else { 1 },
        Shape::Sequence(items) => if all_scalars(items@) { items@.len() as int } else { 0 },
        Shape::Mapping(_) => 0,
    }
}

/// What reading a relationship's value reports: nothing for a scalar or a
/// sequence of scalars; `note.relationship-value-invalid` for anything else.
pub open spec fn edges_said(predicate: Seq<char>, value: Value) -> Seq<Said> {
    let invalid = seq![(
        KernelDiagnostic::NoteRelationshipValueInvalid,
        "`"@ + predicate + "` is a relationship, so its value is a link or a sequence of links, and the note writes "@
            + super::frontmatter::describe_spec(value.shape),
    )];
    match value.shape {
        Shape::Scalar(_) => Seq::empty(),
        Shape::Sequence(items) => if all_scalars(items@) { Seq::empty() } else { invalid },
        Shape::Mapping(_) => invalid,
    }
}

/// What one declared relationship reports: what its value reports, then
/// `note.missing-required-relationship` when it is required and the note
/// carries no reference under it.
pub open spec fn relationship_said(declared: TypeDecl, r: RelationshipDecl, entries: Seq<Entry>) -> Seq<Said> {
    let (first, count) = match keyed_at(entries, r.predicate@) {
        Some(k) => (edges_said(r.predicate@, entries[k].value), edge_count(entries[k].value)),
        None => (Seq::empty(), 0),
    };
    first + if r.required && count == 0 {
        seq![(
            KernelDiagnostic::NoteMissingRequiredRelationship,
            "the type `"@ + declared.name@ + "` requires at least one `"@ + r.predicate@ + "`, and the note writes none"@,
        )]
    } else {
        Seq::empty()
    }
}

/// What the declared relationships report, in declaration order.
pub open spec fn relationships_said(declared: TypeDecl, decls: Seq<RelationshipDecl>, entries: Seq<Entry>) -> Seq<Said>
    decreases decls.len(),
{
    if decls.len() == 0 {
        Seq::empty()
    } else {
        relationships_said(declared, decls.drop_last(), entries) + relationship_said(declared, decls.last(), entries)
    }
}

/// Every declared relationship, in declaration order, with the edges it
/// carries.
fn relationships(
    findings: &mut Findings,
    contract: &Contract,
    declared: &TypeDecl,
    entries: &Vec<Entry>,
) -> (r: Vec<Relationship>)
    requires
        old(findings).wf(),
    ensures
        grew(*old(findings), *final(findings)),
        related(old(findings).file.spelled(), declared.relationships@, entries@, r@),
        appended(*old(findings), *final(findings), relationships_said(*declared, declared.relationships@, entries@)),
{
    let mut carried: Vec<Relationship> = Vec::new();
    let mut i: usize = 0;
    assert(declared.relationships@.take(0) =~= Seq::<RelationshipDecl>::empty());
    while i < declared.relationships.len()
        invariant
            i <= declared.relationships@.len(),
            grew(*old(findings), *findings),
            appended(*old(findings), *findings, relationships_said(*declared, declared.relationships@.take(i as int), entries@)),
            carried@.len() == i,
            forall|j: int| 0 <= j < i ==> {
                &&& (#[trigger] carried@[j]).predicate@ == declared.relationships@[j].predicate@
                &&& match keyed_at(entries@, declared.relationships@[j].predicate@) {
                    Some(k) => edges_of(old(findings).file.spelled(), entries@[k].value, carried@[j].edges@),
                    None => carried@[j].edges@.len() == 0,
                }
            },
        decreases declared.relationships.len() - i,
    {
        let ghost start = *findings;
        let relationship = &declared.relationships[i];
        let predicate = relationship.predicate.as_str();
        let edges = match written(entries, predicate) {
            Some(k) => edges(findings, predicate, &entries[k].value),
            None => Vec::new(),
        };
        let ghost mid = *findings;
        if edges.len() == 0 && relationship.required {
            missing_relationship(findings, contract, declared, relationship);
        }
        proof {
            let decl = declared.relationships@[i as int];
            let first = match keyed_at(entries@, decl.predicate@) {
                Some(k) => edges_said(decl.predicate@, entries@[k].value),
                None => Seq::<Said>::empty(),
            };
            let second = relationship_said(*declared, decl, entries@).skip(first.len() as int);
            assert(relationship_said(*declared, decl, entries@) =~= first + second);
            if !(edges.len() == 0 && relationship.required) {
                assert(second =~= Seq::<Said>::empty());
            }
            lemma_appended_twice(start, mid, *findings, first, second);
            assert(declared.relationships@.take(i + 1).drop_last() =~= declared.relationships@.take(i as int));
            lemma_appended_twice(
                *old(findings),
                start,
                *findings,
                relationships_said(*declared, declared.relationships@.take(i as int), entries@),
                first + second,
            );
        }
        let ghost before = carried@;
        carried.push(Relationship { predicate: relationship.predicate.clone(), edges });
        assert forall|j: int| 0 <= j < i + 1 implies {
            &&& (#[trigger] carried@[j]).predicate@ == declared.relationships@[j].predicate@
            &&& match keyed_at(entries@, declared.relationships@[j].predicate@) {
                Some(k) => edges_of(old(findings).file.spelled(), entries@[k].value, carried@[j].edges@),
                None => carried@[j].edges@.len() == 0,
            }
        } by {
            if j < i {
                assert(carried@[j] == before[j]);
            }
        }
        i = i + 1;
    }
    assert(declared.relationships@.take(declared.relationships@.len() as int) =~= declared.relationships@);
    carried
}

/// The references a note wrote under one predicate: none for an empty scalar,
/// one for a scalar, one per item of a sequence of scalars, and none, with
/// the value reported, for anything else.
fn edges(findings: &mut Findings, predicate: &str, value: &Value) -> (r: Vec<Edge>)
    requires
        old(findings).wf(),
    ensures
        grew(*old(findings), *final(findings)),
        edges_of(old(findings).file.spelled(), *value, r@),
        appended(*old(findings), *final(findings), edges_said(predicate@, *value)),
        r@.len() == edge_count(*value),
{
    match &value.shape {
        Shape::Scalar(text) => {
            let mut out: Vec<Edge> = Vec::new();
            if chars_of(text.as_str()).len() > 0 {
                out.push(Edge { written: text.clone(), target: None, at: findings.at(value.span.start..value.span.end) });
            }
            out
        },
        Shape::Sequence(items) => {
            let mut out: Vec<Edge> = Vec::new();
            let mut i: usize = 0;
            while i < items.len()
                invariant
                    i <= items@.len(),
                    grew(*old(findings), *findings),
                    *findings == *old(findings),
                    value.shape == Shape::Sequence(*items),
                    out@.len() == i,
                    forall|j: int| 0 <= j < i ==> (#[trigger] items@[j]).shape is Scalar,
                    forall|j: int|
                        0 <= j < i ==> edge_of(old(findings).file.spelled(), #[trigger] out@[j], values::scalar_text(items@[j]), items@[j]),
                decreases items.len() - i,
            {
                let item = &items[i];
                match &item.shape {
                    Shape::Scalar(text) => {
                        let ghost before = out@;
                        out.push(Edge { written: text.clone(), target: None, at: findings.at(item.span.start..item.span.end) });
                        assert forall|j: int| 0 <= j < i + 1 implies edge_of(old(findings).file.spelled(), #[trigger] out@[j], values::scalar_text(items@[j]), items@[j]) by {
                            if j < i {
                                assert(out@[j] == before[j]);
                            }
                        }
                    },
                    _ => {
                        relationship_invalid(findings, predicate, value);
                        assert(!all_scalars(items@)) by {
                            assert(!(items@[i as int].shape is Scalar));
                        }
                        return Vec::new();
                    },
                }
                i = i + 1;
            }
            out
        },
        Shape::Mapping(_) => {
            relationship_invalid(findings, predicate, value);
            Vec::new()
        },
    }
}

fn relationship_invalid(findings: &mut Findings, predicate: &str, value: &Value)
    requires
        old(findings).wf(),
    ensures
        appended(
            *old(findings),
            *final(findings),
            seq![(
                KernelDiagnostic::NoteRelationshipValueInvalid,
                "`"@ + predicate@
                    + "` is a relationship, so its value is a link or a sequence of links, and the note writes "@
                    + super::frontmatter::describe_spec(value.shape),
            )],
        ),
{
    let head = join3("`", predicate, "` is a relationship, so its value is a link or a sequence of links, and the note writes ");
    let message = join(head.as_str(), value.describe());
    findings.spanned(KernelDiagnostic::NoteRelationshipValueInvalid, message, value.span.start..value.span.end);
}

/// Whether the bound type says anything at all about `key`.
fn declares(declared: &TypeDecl, key: &str) -> (b: bool)
    ensures
        b == (key@ == discriminator() || declares_property(*declared, key@) || declares_relationship(*declared, key@)),
{
    proof {
        reveal_strlit("type");
        assert("type"@ =~= discriminator());
    }
    str_eq(key, "type") || declared.has_property(key) || declared.has_relationship(key)
}

/// Whether the bound type says anything at all about `key`: the
/// discriminator, a declared property, or a declared predicate.
pub open spec fn declares_key(declared: TypeDecl, key: Seq<char>) -> bool {
    key == discriminator() || declares_property(declared, key) || declares_relationship(declared, key)
}

/// What the keys the bound type declares nothing for report, in order.
pub open spec fn undeclared_said(declared: TypeDecl, entries: Seq<Entry>) -> Seq<Said>
    decreases entries.len(),
{
    if entries.len() == 0 {
        Seq::empty()
    } else {
        let key = entries.last().key@;
        undeclared_said(declared, entries.drop_last()) + if declares_key(declared, key) {
            Seq::empty()
        } else {
            seq![(
                KernelDiagnostic::NoteUndeclaredProperty,
                "the type `"@ + declared.name@ + "` declares no `"@ + key + "`, so its value is not validated"@,
            )]
        }
    }
}

/// Every key the bound type declares nothing for, reported at `info`.
fn undeclared(findings: &mut Findings, declared: &TypeDecl, entries: &Vec<Entry>)
    requires
        old(findings).wf(),
    ensures
        appended(*old(findings), *final(findings), undeclared_said(*declared, entries@)),
{
    let mut i: usize = 0;
    assert(entries@.take(0) =~= Seq::<Entry>::empty());
    while i < entries.len()
        invariant
            i <= entries@.len(),
            appended(*old(findings), *findings, undeclared_said(*declared, entries@.take(i as int))),
        decreases entries.len() - i,
    {
        let ghost before = *findings;
        assert(entries@.take(i + 1).drop_last() =~= entries@.take(i as int));
        let entry = &entries[i];
        if !declares(declared, entry.key.as_str()) {
            let head = join3("the type `", declared.name.as_str(), "` declares no `");
            let message = join3(head.as_str(), entry.key.as_str(), "`, so its value is not validated");
            findings.spanned(KernelDiagnostic::NoteUndeclaredProperty, message, entry.key_span.start..entry.key_span.end);
        }
        proof {
            let step = undeclared_said(*declared, entries@.take(i + 1)).skip(undeclared_said(*declared, entries@.take(i as int)).len() as int);
            assert(undeclared_said(*declared, entries@.take(i + 1)) =~= undeclared_said(*declared, entries@.take(i as int)) + step);
            assert(appended(before, *findings, step));
            lemma_appended_twice(*old(findings), before, *findings, undeclared_said(*declared, entries@.take(i as int)), step);
        }
        i = i + 1;
    }
    assert(entries@.take(entries@.len() as int) =~= entries@);
}

/// The tags a note wrote: the items of the tag property's sequence, when
/// the note wrote one.
pub open spec fn tagged_items(entries: Seq<Entry>, tagged: Option<usize>) -> Seq<Value> {
    match tagged {
        Some(k) => match entries[k as int].value.shape {
            Shape::Sequence(items) => items@,
            _ => Seq::empty(),
        },
        None => Seq::empty(),
    }
}

/// Whether a tag lies in a namespace whose vocabulary is closed and does not
/// declare it.
pub open spec fn outside_vocabulary(namespace: TagNamespaceDecl, tag: Seq<char>) -> bool {
    &&& begins(tag, namespace.prefix@)
    &&& namespace.values matches Some(values) && !exists|i: int|
        0 <= i < values@.len() && #[trigger] values@[i]@ == tag.skip(namespace.prefix@.len() as int)
}

/// What the tags among `items` outside a namespace's vocabulary report, in
/// order.
pub open spec fn outside_said(namespace: TagNamespaceDecl, items: Seq<Value>) -> Seq<Said>
    decreases items.len(),
{
    if items.len() == 0 {
        Seq::empty()
    } else {
        outside_said(namespace, items.drop_last()) + match items.last().shape {
            Shape::Scalar(t) => if outside_vocabulary(namespace, t@) {
                seq![(
                    KernelDiagnostic::NoteTagOutsideVocabulary,
                    "the namespace `"@ + namespace.prefix@ + "` does not declare the tag `"@ + t@ + "`"@,
                )]
            } else {
                Seq::empty()
            },
            _ => Seq::empty(),
        }
    }
}

/// Whether a value is a tag in a namespace.
pub open spec fn in_namespace(namespace: TagNamespaceDecl, v: Value) -> bool {
    v.shape matches Shape::Scalar(t) && begins(t@, namespace.prefix@)
}

/// Whether some tag among `items` lies in a namespace.
pub open spec fn any_in(namespace: TagNamespaceDecl, items: Seq<Value>) -> bool {
    exists|i: int| 0 <= i < items.len() && in_namespace(namespace, #[trigger] items[i])
}

/// What one namespace reports: each tag outside its vocabulary, then, for a
/// required namespace no tag lies in, that it is missing.
pub open spec fn namespace_said(namespace: TagNamespaceDecl, items: Seq<Value>) -> Seq<Said> {
    outside_said(namespace, items) + if namespace.required && !any_in(namespace, items) {
        required_said(namespace)
    } else {
        Seq::empty()
    }
}

/// What every namespace reports, in declaration order.
pub open spec fn namespaces_said(namespaces: Seq<TagNamespaceDecl>, items: Seq<Value>) -> Seq<Said>
    decreases namespaces.len(),
{
    if namespaces.len() == 0 {
        Seq::empty()
    } else {
        namespaces_said(namespaces.drop_last(), items) + namespace_said(namespaces.last(), items)
    }
}

/// Holds a note's tags to the namespaces its type declares. Namespaces are
/// evaluated independently, and a tag matching no declared namespace is
/// untouched at any severity.
fn namespaces(findings: &mut Findings, declared: &TypeDecl, entries: &Vec<Entry>, tagged: Option<usize>)
    requires
        old(findings).wf(),
        tagged matches Some(k) ==> k < entries@.len(),
    ensures
        appended(*old(findings), *final(findings), namespaces_said(declared.tag_namespaces@, tagged_items(entries@, tagged))),
{
    let ghost items = tagged_items(entries@, tagged);
    let ghost all = declared.tag_namespaces@;
    let mut n: usize = 0;
    assert(all.take(0) =~= Seq::<TagNamespaceDecl>::empty());
    while n < declared.tag_namespaces.len()
        invariant
            n <= all.len(),
            all == declared.tag_namespaces@,
            items == tagged_items(entries@, tagged),
            appended(*old(findings), *findings, namespaces_said(all.take(n as int), items)),
            tagged matches Some(k) ==> k < entries@.len(),
        decreases declared.tag_namespaces.len() - n,
    {
        let ghost start = *findings;
        assert(all.take(n + 1).drop_last() =~= all.take(n as int));
        let namespace = &declared.tag_namespaces[n];
        let prefix = chars_of(namespace.prefix.as_str());
        let mut matched: usize = 0;
        let empty: Vec<Value> = Vec::new();
        let listed = match tagged {
            Some(k) => match &entries[k].value.shape {
                Shape::Sequence(items) => items,
                _ => &empty,
            },
            None => &empty,
        };
        assert(listed@ == items);
        let mut i: usize = 0;
        assert(items.take(0) =~= Seq::<Value>::empty());
        while i < listed.len()
            invariant
                i <= listed@.len(),
                listed@ == items,
                prefix@ == namespace.prefix@,
                appended(start, *findings, outside_said(*namespace, items.take(i as int))),
                (matched == 0) == !any_in(*namespace, items.take(i as int)),
            decreases listed.len() - i,
        {
            let ghost before = *findings;
            assert(items.take(i + 1).drop_last() =~= items.take(i as int));
            let item = &listed[i];
            if let Shape::Scalar(text) = &item.shape {
                let tag = chars_of(text.as_str());
                if starts_with(&tag, &prefix) {
                    matched = if matched < usize::MAX { matched + 1 } else { matched };
                    let remainder = string_of(&slice(&tag, prefix.len(), tag.len()));
                    assert(remainder@ =~= text@.skip(namespace.prefix@.len() as int));
                    let closed = match &namespace.values {
                        Some(values) => !lexical::member(values.as_slice(), remainder.as_str()),
                        None => false,
                    };
                    if closed {
                        let head = join3("the namespace `", namespace.prefix.as_str(), "` does not declare the tag `");
                        let message = join3(head.as_str(), text.as_str(), "`");
                        findings.spanned(
                            KernelDiagnostic::NoteTagOutsideVocabulary,
                            message,
                            item.span.start..item.span.end,
                        );
                    }
                }
            }
            proof {
                let prior = outside_said(*namespace, items.take(i as int));
                let step = outside_said(*namespace, items.take(i + 1)).skip(prior.len() as int);
                assert(outside_said(*namespace, items.take(i + 1)) =~= prior + step);
                assert(appended(before, *findings, step));
                lemma_appended_twice(start, before, *findings, prior, step);
                if any_in(*namespace, items.take(i as int)) {
                    let w = choose|w: int| 0 <= w < items.take(i as int).len() && in_namespace(*namespace, #[trigger] items.take(i as int)[w]);
                    assert(items.take(i + 1)[w] == items.take(i as int)[w]);
                }
                if any_in(*namespace, items.take(i + 1)) && !any_in(*namespace, items.take(i as int)) {
                    let w = choose|w: int| 0 <= w < items.take(i + 1).len() && in_namespace(*namespace, #[trigger] items.take(i + 1)[w]);
                    if w < i {
                        assert(items.take(i as int)[w] == items.take(i + 1)[w]);
                    }
                }
                if !any_in(*namespace, items.take(i + 1)) {
                    assert(!in_namespace(*namespace, items.take(i + 1)[i as int]));
                }
            }
            i = i + 1;
        }
        assert(items.take(items.len() as int) =~= items);
        let ghost middle = *findings;
        if namespace.required && matched == 0 {
            required_namespace(findings, namespace, entries, tagged);
        }
        proof {
            let tail = if namespace.required && !any_in(*namespace, items) { required_said(*namespace) } else { Seq::<Said>::empty() };
            assert(appended(middle, *findings, tail));
            lemma_appended_twice(start, middle, *findings, outside_said(*namespace, items), tail);
            lemma_appended_twice(*old(findings), start, *findings, namespaces_said(all.take(n as int), items), namespace_said(*namespace, items));
        }
        n = n + 1;
    }
    assert(all.take(all.len() as int) =~= all);
}

/// What a required namespace with no tag in it reports.
pub open spec fn required_said(namespace: TagNamespaceDecl) -> Seq<Said> {
    seq![(
        KernelDiagnostic::NoteRequiredNamespaceMissing,
        "the type requires a tag beginning `"@ + namespace.prefix@ + "`, and the note carries none"@,
    )]
}

/// A required namespace with no tag in it: against the tags the note wrote
/// when it wrote any, and against the note itself when it wrote none.
fn required_namespace(findings: &mut Findings, namespace: &TagNamespaceDecl, entries: &Vec<Entry>, tagged: Option<usize>)
    requires
        old(findings).wf(),
        tagged matches Some(k) ==> k < entries@.len(),
    ensures
        appended(*old(findings), *final(findings), required_said(*namespace)),
{
    let prefix = namespace.prefix.as_str();
    let message = join3("the type requires a tag beginning `", prefix, "`, and the note carries none");
    match tagged {
        Some(k) => {
            let value = &entries[k].value;
            findings.spanned(KernelDiagnostic::NoteRequiredNamespaceMissing, message, value.span.start..value.span.end);
        },
        None => {
            let evidence = Related::new(join3("the namespace `", prefix, "` is declared required"));
            findings.absent(KernelDiagnostic::NoteRequiredNamespaceMissing, message, evidence);
        },
    }
}

/// The position of the first property named `name`, when there is one.
fn named(properties: &Vec<Property>, name: &str) -> (r: Option<usize>)
    ensures
        match r {
            Some(i) => named_at(properties@, name@) == Some(i as int) && i < properties@.len(),
            None => named_at(properties@, name@).is_none(),
        },
{
    let mut i: usize = 0;
    while i < properties.len()
        invariant
            i <= properties@.len(),
            forall|j: int| 0 <= j < i ==> (#[trigger] properties@[j]).name@ != name@,
        decreases properties.len() - i,
    {
        if str_eq(properties[i].name.as_str(), name) {
            let ghost chosen = choose|c: int|
                0 <= c < properties@.len() && (#[trigger] properties@[c]).name@ == name@ && forall|j: int|
                    0 <= j < c ==> (#[trigger] properties@[j]).name@ != name@;
            assert(exists|c: int|
                0 <= c < properties@.len() && (#[trigger] properties@[c]).name@ == name@ && forall|j: int|
                    0 <= j < c ==> (#[trigger] properties@[j]).name@ != name@) by {
                assert(0 <= i < properties@.len() && properties@[i as int].name@ == name@);
            }
            assert(chosen == i) by {
                if chosen < i {
                    assert(properties@[chosen].name@ != name@);
                } else if chosen > i {
                    assert(properties@[i as int].name@ != name@);
                }
            }
            return Some(i);
        }
        i = i + 1;
    }
    None
}

/// A copy of each string, in order.
fn copy_strings(items: &Vec<String>) -> (r: Vec<String>)
    ensures
        r@.map_values(|s: String| s@) == items@.map_values(|s: String| s@),
{
    let mut out: Vec<String> = Vec::new();
    let mut i: usize = 0;
    while i < items.len()
        invariant
            i <= items@.len(),
            out@.len() == i,
            forall|j: int| 0 <= j < i ==> (#[trigger] out@[j])@ == items@[j]@,
        decreases items.len() - i,
    {
        out.push(items[i].clone());
        i = i + 1;
    }
    assert(out@.map_values(|s: String| s@) =~= items@.map_values(|s: String| s@));
    out
}

/// The note's tags: the declared tag property's list values, when the
/// contract names a tag property and the note carries it as a list.
fn tags_of(contract: &Contract, properties: &Vec<Property>) -> (r: Vec<String>)
    ensures
        r@.map_values(|s: String| s@) == tags_spec(*contract, properties@),
{
    let none: Vec<String> = Vec::new();
    assert(none@.map_values(|s: String| s@) =~= Seq::<Seq<char>>::empty());
    let tags = match &contract.tags {
        Some(tags) => tags,
        None => return none,
    };
    match named(properties, tags.property.as_str()) {
        Some(i) => match &properties[i].value {
            PropertyValue::List(items) => copy_strings(items),
            _ => none,
        },
        None => none,
    }
}

fn missing_property(findings: &mut Findings, contract: &Contract, declared: &TypeDecl, property: &PropertyDecl)
    requires
        old(findings).wf(),
    ensures
        appended(
            *old(findings),
            *final(findings),
            seq![(
                KernelDiagnostic::NoteMissingRequiredProperty,
                "the type `"@ + declared.name@ + "` requires `"@ + property.name@ + "`, and the note writes no value for it"@,
            )],
        ),
{
    let name = property.name.as_str();
    let head = join3("the type `", declared.name.as_str(), "` requires `");
    let message = join3(head.as_str(), name, "`, and the note writes no value for it");
    let key_head = join3("type.", declared.name.as_str(), ".property.");
    let key = join3(key_head.as_str(), name, ".required");
    let said_head = join3("`", name, "` is declared ");
    let said = join3(said_head.as_str(), property.kind.describe().as_str(), " and required");
    let evidence = declaration(contract, key.as_str(), said);
    findings.absent(KernelDiagnostic::NoteMissingRequiredProperty, message, evidence);
}

fn missing_relationship(findings: &mut Findings, contract: &Contract, declared: &TypeDecl, relationship: &RelationshipDecl)
    requires
        old(findings).wf(),
    ensures
        appended(
            *old(findings),
            *final(findings),
            seq![(
                KernelDiagnostic::NoteMissingRequiredRelationship,
                "the type `"@ + declared.name@ + "` requires at least one `"@ + relationship.predicate@ + "`, and the note writes none"@,
            )],
        ),
{
    let predicate = relationship.predicate.as_str();
    let head = join3("the type `", declared.name.as_str(), "` requires at least one `");
    let message = join3(head.as_str(), predicate, "`, and the note writes none");
    let key_head = join3("type.", declared.name.as_str(), ".relationship.");
    let key = join3(key_head.as_str(), predicate, ".required");
    let evidence = declaration(contract, key.as_str(), join3("`", predicate, "` is declared required"));
    findings.absent(KernelDiagnostic::NoteMissingRequiredRelationship, message, evidence);
}

} // verus!
