//! Corpus enumeration and filtering.
//!
//! Four filters compose with AND semantics: the bound type, one literal tag,
//! the lifecycle axis value, and the ordinary lifecycle state in its declared
//! encoding. A lifecycle filter against a corpus that declares no axis is
//! refused before anything is read.

use vstd::prelude::*;

use crate::chars::{precedes, str_eq};
use crate::contract::{Contract, LifecycleDecl, Ordinary, declares_property, type_at};
use crate::diagnostic::{Diagnostic, KernelDiagnostic, VaultPath, is_sorted};

use super::model::{Binding, Note, PropertyValue, property_at};
use super::{Corpus, Listing, corpus_of, read_corpus};

verus! {

/// The composable filters accepted by corpus enumeration.
#[derive(Clone, Debug, Default, PartialEq, Eq)]
pub struct ListFilter {
    /// Match the bound type exactly.
    pub bound_type: Option<String>,
    /// Match one literal, complete tag exactly.
    pub tag: Option<String>,
    /// Match the declared lifecycle axis value exactly.
    pub lifecycle: Option<String>,
    /// Match the ordinary lifecycle state in its declared encoding.
    pub ordinary: bool,
}

/// The name of the type a binding bound to.
pub open spec fn bound_name(b: Binding) -> Option<Seq<char>> {
    match b {
        Binding::Declared { name } => Some(name@),
        Binding::CatchAll { name } => Some(name@),
        Binding::Unbound { .. } => None,
    }
}

/// The characters of the scalar a note writes for `name`, when it writes one.
pub open spec fn scalar_property(note: Note, name: Seq<char>) -> Option<Seq<char>> {
    match property_at(note.properties@, name) {
        Some(i) => match note.properties@[i].value {
            PropertyValue::Scalar(v) => Some(v@),
            _ => None,
        },
        None => None,
    }
}

/// Whether a filter asks about the lifecycle.
pub open spec fn lifecycle_requested(filter: ListFilter) -> bool {
    filter.lifecycle.is_some() || filter.ordinary
}

/// Whether a note satisfies the lifecycle filters: it binds to a type that
/// declares the axis, its axis value is the one asked for, and it is in the
/// ordinary state when that is asked for.
pub open spec fn lifecycle_matches(note: Note, contract: Contract, filter: ListFilter) -> bool {
    if !lifecycle_requested(filter) {
        true
    } else {
        match contract.lifecycle {
            LifecycleDecl::NoAxis => true,
            LifecycleDecl::Axis { axis, ordinary } => match bound_name(note.binding) {
                None => false,
                Some(t) => match type_at(contract.types@, t) {
                    None => false,
                    Some(i) => {
                        let value = scalar_property(note, axis@);
                        &&& declares_property(contract.types@[i], axis@)
                        &&& (filter.lifecycle matches Some(w) ==> value == Some(w@))
                        &&& (filter.ordinary ==> match ordinary {
                            Ordinary::Absent => value.is_none(),
                            Ordinary::Value(w) => value == Some(w@),
                        })
                    },
                },
            },
        }
    }
}

/// Whether a note satisfies every supplied filter.
pub open spec fn matches_spec(note: Note, contract: Contract, filter: ListFilter) -> bool {
    &&& (filter.bound_type matches Some(w) ==> bound_name(note.binding) == Some(w@))
    &&& (filter.tag matches Some(w) ==> exists|k: int| 0 <= k < note.tags@.len() && #[trigger] note.tags@[k]@ == w@)
    &&& lifecycle_matches(note, contract, filter)
}

/// The same filter without its tag.
pub open spec fn untagged(filter: ListFilter) -> ListFilter {
    ListFilter { bound_type: filter.bound_type, tag: None, lifecycle: filter.lifecycle, ordinary: filter.ordinary }
}

/// A tag filter admits exactly the notes the rest of the filter admits that
/// carry the wanted tag, wherever it stands among their tags: the order a
/// note writes its tags in never decides.
pub proof fn law_tag_filter(note: Note, contract: Contract, filter: ListFilter)
    requires
        filter.tag is Some,
    ensures
        matches_spec(note, contract, filter) <==> (matches_spec(note, contract, untagged(filter)) && note.tags@.map_values(
            |t: String| t@,
        ).contains(filter.tag.unwrap()@)),
{
    let w = filter.tag.unwrap();
    let views = note.tags@.map_values(|t: String| t@);
    if views.contains(w@) {
        let k = choose|k: int| 0 <= k < views.len() && views[k] == w@;
        assert(note.tags@[k]@ == w@);
    }
    if exists|k: int| 0 <= k < note.tags@.len() && #[trigger] note.tags@[k]@ == w@ {
        let k = choose|k: int| 0 <= k < note.tags@.len() && #[trigger] note.tags@[k]@ == w@;
        assert(views[k] == w@);
    }
}

/// The refusal a lifecycle filter meets against a corpus that declares no
/// axis.
pub fn axis_refusal(contract: &Contract, filter: &ListFilter) -> (r: Option<Diagnostic>)
    ensures
        r.is_some() == (lifecycle_requested(*filter) && contract.lifecycle is NoAxis),
        r matches Some(d) ==> d.id == KernelDiagnostic::NoteLifecycleAxisAbsent && d.location.is_none(),
{
    let requested = filter.lifecycle.is_some() || filter.ordinary;
    let absent = match &contract.lifecycle {
        LifecycleDecl::NoAxis => true,
        _ => false,
    };
    if requested && absent {
        Some(Diagnostic::kernel(
            KernelDiagnostic::NoteLifecycleAxisAbsent,
            String::from_str("this corpus declares no lifecycle axis to filter"),
        ))
    } else {
        None
    }
}

/// The characters of the scalar a note writes for `name`.
fn scalar_of<'a>(note: &'a Note, name: &str) -> (r: Option<&'a str>)
    ensures
        match scalar_property(*note, name@) {
            Some(v) => r matches Some(s) && s@ == v,
            None => r.is_none(),
        },
{
    match note.property(name) {
        Some(PropertyValue::Scalar(v)) => Some(v.as_str()),
        _ => None,
    }
}

/// Whether `note` satisfies every supplied filter, ANDed.
pub fn admits(note: &Note, contract: &Contract, filter: &ListFilter) -> (b: bool)
    ensures
        b == matches_spec(*note, *contract, *filter),
{
    let typed = match &filter.bound_type {
        Some(wanted) => match note.binding.bound_type() {
            Some(name) => str_eq(name, wanted.as_str()),
            None => false,
        },
        None => true,
    };
    let tagged = match &filter.tag {
        Some(wanted) => {
            let mut found = false;
            let mut k: usize = 0;
            while k < note.tags.len()
                invariant
                    k <= note.tags@.len(),
                    found == exists|j: int| 0 <= j < k && #[trigger] note.tags@[j]@ == wanted@,
                decreases note.tags.len() - k,
            {
                if str_eq(note.tags[k].as_str(), wanted.as_str()) {
                    found = true;
                }
                k = k + 1;
            }
            found
        },
        None => true,
    };
    typed && tagged && lifecycle_check(note, contract, filter)
}

fn lifecycle_check(note: &Note, contract: &Contract, filter: &ListFilter) -> (b: bool)
    ensures
        b == lifecycle_matches(*note, *contract, *filter),
{
    if !(filter.lifecycle.is_some() || filter.ordinary) {
        return true;
    }
    let (axis, ordinary) = match &contract.lifecycle {
        LifecycleDecl::NoAxis => return true,
        LifecycleDecl::Axis { axis, ordinary } => (axis, ordinary),
    };
    let name = match note.binding.bound_type() {
        Some(name) => name,
        None => return false,
    };
    let declared = match contract.type_named(name) {
        Some(declared) => declared,
        None => return false,
    };
    proof {
        crate::contract::lemma_type_at(contract.types@, name@);
    }
    if !declared.has_property(axis.as_str()) {
        return false;
    }
    let value = scalar_of(note, axis.as_str());
    let asked = match &filter.lifecycle {
        Some(wanted) => match value {
            Some(v) => str_eq(v, wanted.as_str()),
            None => false,
        },
        None => true,
    };
    let plain = if filter.ordinary {
        match ordinary {
            Ordinary::Absent => value.is_none(),
            Ordinary::Value(wanted) => match value {
                Some(v) => str_eq(v, wanted.as_str()),
                None => false,
            },
        }
    } else {
        true
    };
    asked && plain
}

/// One body-free summary returned by [`list`].
#[derive(Clone, Debug, PartialEq, Eq)]
pub struct NoteSummary {
    /// The note's vault-relative identity.
    pub path: VaultPath,
    /// The type the note bound to, when it bound to one.
    pub bound_type: Option<String>,
    /// The axis value the note carries, when the contract and type declare an
    /// axis.
    pub lifecycle: Option<String>,
}

impl NoteSummary {
    /// The note's vault-relative identity.
    pub fn path(&self) -> (r: &VaultPath)
        ensures
            *r == self.path,
    {
        &self.path
    }

    /// The type the note bound to, when it bound to one.
    pub fn bound_type(&self) -> (r: Option<&str>)
        ensures
            match self.bound_type {
                Some(t) => r matches Some(s) && s@ == t@,
                None => r.is_none(),
            },
    {
        match &self.bound_type {
            Some(t) => Some(t.as_str()),
            None => None,
        }
    }

    /// The axis value the note carries.
    pub fn lifecycle(&self) -> (r: Option<&str>)
        ensures
            match self.lifecycle {
                Some(t) => r matches Some(s) && s@ == t@,
                None => r.is_none(),
            },
    {
        match &self.lifecycle {
            Some(t) => Some(t.as_str()),
            None => None,
        }
    }
}

/// The axis value a note carries: its scalar for the axis property, where
/// the contract declares an axis and the note's type declares the property.
pub open spec fn axis_value(note: Note, contract: Contract) -> Option<Seq<char>> {
    match contract.lifecycle {
        LifecycleDecl::NoAxis => None,
        LifecycleDecl::Axis { axis, .. } => match bound_name(note.binding) {
            None => None,
            Some(t) => match type_at(contract.types@, t) {
                None => None,
                Some(i) => if declares_property(contract.types@[i], axis@) {
                    scalar_property(note, axis@)
                } else {
                    None
                },
            },
        },
    }
}

/// The summary of one note: its path, its bound type, and its axis value when
/// its type declares the axis.
pub fn summarize(note: &Note, contract: &Contract) -> (s: NoteSummary)
    ensures
        s.path@ == note.path@,
        match bound_name(note.binding) {
            Some(t) => s.bound_type matches Some(u) && u@ == t,
            None => s.bound_type.is_none(),
        },
        match axis_value(*note, *contract) {
            Some(v) => s.lifecycle matches Some(u) && u@ == v,
            None => s.lifecycle.is_none(),
        },
{
    let bound = match note.binding.bound_type() {
        Some(name) => Some(String::from_str(name)),
        None => None,
    };
    let lifecycle = match &contract.lifecycle {
        LifecycleDecl::Axis { axis, .. } => match note.binding.bound_type() {
            Some(name) => match contract.type_named(name) {
                Some(declared) => if declared.has_property(axis.as_str()) {
                    match scalar_of(note, axis.as_str()) {
                        Some(v) => Some(String::from_str(v)),
                        None => None,
                    }
                } else {
                    None
                },
                None => None,
            },
            None => None,
        },
        LifecycleDecl::NoAxis => None,
    };
    NoteSummary { path: note.path.copy(), bound_type: bound, lifecycle }
}

/// The result of enumerating a corpus.
#[derive(Clone, Debug, PartialEq, Eq)]
pub struct ListResult {
    /// Matching notes, in vault-relative path order.
    pub notes: Vec<NoteSummary>,
    /// Everything enumeration reported, in the total order.
    pub diagnostics: Vec<Diagnostic>,
}

impl ListResult {
    /// Matching notes, in vault-relative path order.
    pub fn notes(&self) -> (r: &[NoteSummary])
        ensures
            r@ == self.notes@,
    {
        self.notes.as_slice()
    }

    /// Everything enumeration reported, in the total order.
    pub fn diagnostics(&self) -> (r: &[Diagnostic])
        ensures
            r@ == self.diagnostics@,
    {
        self.diagnostics.as_slice()
    }
}

/// Whether `s` summarizes `note`: its path, its bound type, and its axis
/// value.
pub open spec fn summarizes(s: NoteSummary, note: Note, contract: Contract) -> bool {
    &&& s.path@ == note.path@
    &&& match bound_name(note.binding) {
        Some(t) => s.bound_type matches Some(u) && u@ == t,
        None => s.bound_type.is_none(),
    }
    &&& match axis_value(note, contract) {
        Some(v) => s.lifecycle matches Some(u) && u@ == v,
        None => s.lifecycle.is_none(),
    }
}

/// The notes that satisfy every filter, in order.
pub open spec fn selected(notes: Seq<Note>, contract: Contract, filter: ListFilter) -> Seq<Note>
    decreases notes.len(),
{
    if notes.len() == 0 {
        Seq::empty()
    } else {
        let rest = selected(notes.drop_last(), contract, filter);
        if matches_spec(notes.last(), contract, filter) {
            rest.push(notes.last())
        } else {
            rest
        }
    }
}

/// The summaries of the corpus's notes that satisfy every filter, in corpus
/// order.
pub fn select(corpus: &Corpus, contract: &Contract, filter: &ListFilter) -> (r: Vec<NoteSummary>)
    ensures
        r@.len() == selected(corpus.notes@, *contract, *filter).len(),
        forall|k: int| 0 <= k < r@.len() ==> summarizes(#[trigger] r@[k], selected(corpus.notes@, *contract, *filter)[k], *contract),
{
    let mut out: Vec<NoteSummary> = Vec::new();
    let mut i: usize = 0;
    while i < corpus.notes.len()
        invariant
            i <= corpus.notes@.len(),
            out@.len() == selected(corpus.notes@.take(i as int), *contract, *filter).len(),
            forall|k: int| 0 <= k < out@.len() ==> summarizes(#[trigger] out@[k], selected(corpus.notes@.take(i as int), *contract, *filter)[k], *contract),
        decreases corpus.notes.len() - i,
    {
        let ghost seen = selected(corpus.notes@.take(i as int), *contract, *filter);
        assert(corpus.notes@.take(i + 1).drop_last() =~= corpus.notes@.take(i as int));
        let note = &corpus.notes[i];
        if admits(note, contract, filter) {
            out.push(summarize(note, contract));
            assert forall|k: int| 0 <= k < out@.len() implies summarizes(#[trigger] out@[k], selected(corpus.notes@.take(i + 1), *contract, *filter)[k], *contract) by {
                if k < seen.len() {
                    assert(selected(corpus.notes@.take(i + 1), *contract, *filter)[k] == seen[k]);
                }
            }
        }
        i = i + 1;
    }
    assert(corpus.notes@.take(corpus.notes@.len() as int) =~= corpus.notes@);
    out
}

/// Enumerates the notes a walk listed, applying every supplied filter with
/// AND semantics. A lifecycle filter against a corpus declaring no axis is
/// refused, and nothing is read.
pub fn list(listing: Listing, contract: &Contract, filter: &ListFilter) -> (r: ListResult)
    ensures
        lifecycle_requested(*filter) && contract.lifecycle is NoAxis ==> r.notes@.len() == 0
            && r.diagnostics@.len() == 1 && r.diagnostics@[0].id == KernelDiagnostic::NoteLifecycleAxisAbsent,
        !(lifecycle_requested(*filter) && contract.lifecycle is NoAxis) ==> exists|c: Corpus| {
            &&& #[trigger] corpus_of(listing, *contract, c)
            &&& selected(c.notes@, *contract, *filter).len() == r.notes@.len()
            &&& forall|k: int| 0 <= k < r.notes@.len() ==> summarizes(#[trigger] r.notes@[k], selected(c.notes@, *contract, *filter)[k], *contract)
            &&& r.diagnostics@ == c.diagnostics@
        },
        is_sorted(r.diagnostics@),
{
    match axis_refusal(contract, filter) {
        Some(refused) => {
            let mut diagnostics: Vec<Diagnostic> = Vec::new();
            diagnostics.push(refused);
            return ListResult { notes: Vec::new(), diagnostics };
        },
        None => {},
    }
    let corpus = read_corpus(listing, contract);
    let notes = select(&corpus, contract, filter);
    assert(selected(corpus.notes@, *contract, *filter).len() == notes@.len());
    ListResult { notes, diagnostics: corpus.diagnostics }
}

} // verus!
