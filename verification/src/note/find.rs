//! Entity lookup: reference resolution exposed as a verb.
//!
//! `find` answers which note a name is, with a case-insensitive match over
//! note names and aliases, narrowed by a type when one is given. A
//! path-qualified reference — one carrying a `/` or a trailing `.md` —
//! resolves exactly. An unambiguous match answers the note's summary; an
//! ambiguous one is `link.ambiguous-reference` with every candidate as
//! evidence; a name nothing bears is `link.target-not-found`.

use vstd::prelude::*;

use crate::chars::{join3, str_eq};
use crate::contract::Contract;
use crate::diagnostic::{Diagnostic, KernelDiagnostic, VaultPath, is_sorted, sorted};

use super::index::{path_qualified, path_qualified_spec, qualified, qualified_spec};
use super::list::{NoteSummary, bound_name, summarize, summarizes};
use super::model::{ALIAS_PROPERTY, Note, PropertyValue, name_of, property_at};
use super::resolve;
use super::search::tokens::{lowercase, to_lowercase};
use super::{Corpus, Listing, corpus_of, read_corpus};

verus! {

/// The note's aliases: the values of its `aliases` property.
pub open spec fn aliases_of(note: Note) -> Seq<Seq<char>> {
    match property_at(note.properties@, ALIAS_PROPERTY@) {
        Some(i) => match note.properties@[i].value {
            PropertyValue::Scalar(v) => seq![v@],
            PropertyValue::List(vs) => vs@.map_values(|s: String| s@),
            _ => Seq::empty(),
        },
        None => Seq::empty(),
    }
}

/// Whether `note` is one a lookup of `name` could mean: its path, for a
/// path-qualified name; otherwise its name or one of its aliases, compared
/// lowercased; and of the wanted type, when one is wanted.
pub open spec fn candidate(note: Note, name: Seq<char>, wanted: Option<Seq<char>>) -> bool {
    &&& (wanted matches Some(t) ==> bound_name(note.binding) == Some(t))
    &&& if path_qualified_spec(name) {
        note.path@ == qualified_spec(name)
    } else {
        ||| lowercase(name_of(note.path@)) == lowercase(name)
        ||| exists|k: int| 0 <= k < aliases_of(note).len() && lowercase(#[trigger] aliases_of(note)[k]) == lowercase(name)
    }
}

/// The notes a lookup of `name` could mean, in corpus order.
pub open spec fn candidates_of(notes: Seq<Note>, name: Seq<char>, wanted: Option<Seq<char>>) -> Seq<Note> {
    notes.filter(|n: Note| candidate(n, name, wanted))
}

/// One more note is one more candidate, or not.
proof fn lemma_candidates_step(notes: Seq<Note>, x: Note, name: Seq<char>, wanted: Option<Seq<char>>)
    ensures
        candidates_of(notes.push(x), name, wanted) == (if candidate(x, name, wanted) {
            candidates_of(notes, name, wanted).push(x)
        } else {
            candidates_of(notes, name, wanted)
        }),
{
    reveal(Seq::filter);
    assert(notes.push(x).drop_last() =~= notes);
}

/// The result of asking a corpus to find one name.
#[derive(Clone, Debug, PartialEq, Eq)]
pub struct FindResult {
    /// The one note the name resolved to, when it resolved.
    pub note: Option<NoteSummary>,
    /// Everything the lookup reported, in the total order.
    pub diagnostics: Vec<Diagnostic>,
}

impl FindResult {
    /// The one note the name resolved to, or `None` when resolution refused.
    pub fn note(&self) -> (r: Option<&NoteSummary>)
        ensures
            match self.note {
                Some(s) => r == Some(&s),
                None => r.is_none(),
            },
    {
        match &self.note {
            Some(s) => Some(s),
            None => None,
        }
    }

    /// Everything the lookup reported, in the total order.
    pub fn diagnostics(&self) -> (r: &[Diagnostic])
        ensures
            r@ == self.diagnostics@,
    {
        self.diagnostics.as_slice()
    }
}

/// Whether `note` is a candidate for `name`, whose lowercase spelling is
/// `lowered`.
fn is_candidate(note: &Note, name: &str, lowered: &str, wanted: Option<&str>) -> (b: bool)
    requires
        lowered@ == lowercase(name@),
    ensures
        b == candidate(*note, name@, match wanted { Some(w) => Some(w@), None => None }),
{
    let typed = match wanted {
        Some(w) => match note.binding.bound_type() {
            Some(t) => str_eq(t, w),
            None => false,
        },
        None => true,
    };
    if !typed {
        return false;
    }
    if path_qualified(name) {
        let path = qualified(name);
        return str_eq(note.path.as_str(), path.as_str());
    }
    let own = note.name();
    if str_eq(to_lowercase(own.as_str()).as_str(), lowered) {
        return true;
    }
    let aliases = note.aliases();
    assert(aliases@.map_values(|s: String| s@) =~= aliases_of(*note));
    let mut k: usize = 0;
    while k < aliases.len()
        invariant
            k <= aliases@.len(),
            lowered@ == lowercase(name@),
            !path_qualified_spec(name@),
            match wanted {
                Some(w) => bound_name(note.binding) == Some(w@),
                None => true,
            },
            aliases@.map_values(|s: String| s@) == aliases_of(*note),
            forall|j: int| 0 <= j < k ==> lowercase(#[trigger] aliases_of(*note)[j]) != lowercase(name@),
        decreases aliases.len() - k,
    {
        if str_eq(to_lowercase(aliases[k].as_str()).as_str(), lowered) {
            assert(aliases_of(*note)[k as int] == aliases@[k as int]@);
            return true;
        }
        assert(aliases_of(*note)[k as int] == aliases@[k as int]@);
        k = k + 1;
    }
    false
}

/// The type a lookup is narrowed to, by its characters.
pub open spec fn wanted_type(wanted: Option<&str>) -> Option<Seq<char>> {
    match wanted {
        Some(w) => Some(w@),
        None => None,
    }
}

/// Whether `r` is what looking `name` up in `corpus` answers, narrowed by
/// `wanted`: the summary of the one candidate, or the refusal beside the
/// corpus's own findings when there is none or several.
pub open spec fn finds(r: FindResult, corpus: Corpus, contract: Contract, name: Seq<char>, wanted: Option<Seq<char>>) -> bool {
    let found = candidates_of(corpus.notes@, name, wanted);
    &&& r.note.is_some() <==> found.len() == 1
    &&& (r.note matches Some(s) ==> summarizes(s, found[0], contract))
    &&& found.len() == 1 ==> r.diagnostics@.to_multiset() == corpus.diagnostics@.to_multiset()
    &&& found.len() != 1 ==> exists|d: Diagnostic| {
        &&& r.diagnostics@.to_multiset() == #[trigger] corpus.diagnostics@.push(d).to_multiset()
        &&& d.location.is_none()
        &&& found.len() == 0 ==> d.id == KernelDiagnostic::LinkTargetNotFound && d.message@ == match wanted {
            None => resolve::not_found_message(name),
            Some(t) => "`"@ + name + "` names no note of type `"@ + t + "` in this vault"@,
        }
        &&& found.len() > 1 ==> {
            &&& d.id == KernelDiagnostic::LinkAmbiguousReference
            &&& d.message@ == resolve::ambiguous_message(name, found.len())
            &&& d.related@.len() == found.len()
            &&& forall|i: int| 0 <= i < found.len() ==> ((#[trigger] d.related@[i]).location matches Some(l)
                && l.file.spelled() == found[i].path@ && l.span.is_none())
        }
    }
    &&& is_sorted(r.diagnostics@)
}

/// Finds the one note of `corpus` that `name` resolves to, narrowed by the
/// wanted type when one is given: the summary of the one candidate, or no
/// note with `link.target-not-found` when there is none and
/// `link.ambiguous-reference` when there are several. The corpus's own
/// findings are reported on every lookup.
pub fn find_in(corpus: Corpus, contract: &Contract, name: &str, wanted: Option<&str>) -> (r: FindResult)
    ensures
        finds(r, corpus, *contract, name@, wanted_type(wanted)),
{
    let ghost wanted_spec = match wanted {
        Some(w) => Some(w@),
        None => None,
    };
    let lowered = to_lowercase(name);
    let mut found: Vec<usize> = Vec::new();
    let mut i: usize = 0;
    while i < corpus.notes.len()
        invariant
            i <= corpus.notes@.len(),
            lowered@ == lowercase(name@),
            wanted_spec == match wanted { Some(w) => Some(w@), None => None },
            found@.len() == candidates_of(corpus.notes@.take(i as int), name@, wanted_spec).len(),
            forall|k: int| 0 <= k < found@.len() ==> (#[trigger] found@[k]) < i,
            forall|k: int| 0 <= k < found@.len() ==> corpus.notes@[#[trigger] found@[k] as int] == candidates_of(corpus.notes@.take(i as int), name@, wanted_spec)[k],
        decreases corpus.notes.len() - i,
    {
        proof {
            let before = corpus.notes@.take(i as int);
            assert(corpus.notes@.take(i + 1) =~= before.push(corpus.notes@[i as int]));
            lemma_candidates_step(before, corpus.notes@[i as int], name@, wanted_spec);
        }
        let ghost prior = found@;
        if is_candidate(&corpus.notes[i], name, lowered.as_str(), wanted) {
            found.push(i);
        }
        assert forall|k: int| 0 <= k < found@.len() implies corpus.notes@[#[trigger] found@[k] as int] == candidates_of(corpus.notes@.take(i + 1), name@, wanted_spec)[k] by {
            if k < prior.len() {
                assert(found@[k] == prior[k]);
            }
        }
        i = i + 1;
    }
    assert(corpus.notes@.take(corpus.notes@.len() as int) =~= corpus.notes@);
    let ghost carried = corpus.diagnostics@;
    let Corpus { notes, diagnostics } = corpus;
    let mut diagnostics = diagnostics;
    let note = if found.len() == 1 {
        Some(summarize(&notes[found[0]], contract))
    } else if found.len() == 0 {
        let refused = match wanted {
            None => resolve::not_found(name),
            Some(w) => {
                let head = join3("`", name, "` names no note of type `");
                Diagnostic::kernel(KernelDiagnostic::LinkTargetNotFound, join3(head.as_str(), w, "` in this vault"))
            },
        };
        diagnostics.push(refused);
        None
    } else {
        let mut paths: Vec<VaultPath> = Vec::new();
        let mut m: usize = 0;
        while m < found.len()
            invariant
                m <= found@.len(),
                paths@.len() == m,
                notes@ == corpus.notes@,
                forall|j: int| 0 <= j < found@.len() ==> (#[trigger] found@[j]) < notes@.len(),
                forall|j: int| 0 <= j < m ==> (#[trigger] paths@[j])@ == notes@[found@[j] as int].path@,
            decreases found.len() - m,
        {
            paths.push(notes[found[m]].path.copy());
            m = m + 1;
        }
        diagnostics.push(resolve::ambiguous(name, &paths));
        None
    };
    let ghost before_sort = diagnostics@;
    proof {
        if found@.len() != 1 {
            assert(before_sort == carried.push(before_sort.last()));
        } else {
            assert(before_sort == carried);
        }
    }
    let diagnostics = sorted(diagnostics);
    FindResult { note, diagnostics }
}

/// Finds the one note `name` resolves to among the notes a walk listed,
/// reading the corpus through the same path `search` and `list` use.
pub fn find(listing: Listing, contract: &Contract, name: &str, wanted: Option<&str>) -> (r: FindResult)
    ensures
        exists|c: Corpus|
            #![trigger corpus_of(listing, *contract, c), finds(r, c, *contract, name@, wanted_type(wanted))]
            corpus_of(listing, *contract, c) && finds(r, c, *contract, name@, wanted_type(wanted)),
{
    let ghost given = listing;
    let corpus = read_corpus(listing, contract);
    let ghost c = corpus;
    let r = find_in(corpus, contract, name, wanted);
    assert(corpus_of(given, *contract, c) && finds(r, c, *contract, name@, wanted_type(wanted)));
    r
}

} // verus!
