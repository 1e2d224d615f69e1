//! Resolving what a corpus's references name, once the whole corpus is in hand.
//!
//! The resolution rule is [`super::index`]'s and is the same at every door.
//! The finding is not, and the difference is who wrote the reference:
//!
//! - a **typed link** is a claim the corpus authored, so it must resolve, and
//!   one that does not is `link.dangling-typed-link`;
//! - an **untyped reference** in prose claims nothing, so a dangling one is a
//!   finding at no severity;
//! - a reference a **caller** hands the SDK is `link.target-not-found`, carried
//!   back by [`UnresolvedReference`].
//!
//! Ambiguity — a bare name several notes bear — is `link.ambiguous-reference`
//! at every door, carrying every candidate as evidence.

use vstd::prelude::*;

use crate::chars::{decimal, join, join3};
use crate::contract::LinkDialect;
use crate::diagnostic::{Diagnostic, FileRef, KernelDiagnostic, Location, Related, VaultPath};

use super::index::{Index, Resolution, names_of, paths_of, resolution_spec, resolves_as};
use super::links::{self, fragment_spec, target_spec};
use super::model::{Edge, Note, Reference, Relationship};

verus! {

/// What `written`, read in `dialect` inside the note at `own`, names among
/// notes with these names and paths: the path it resolves to, or the
/// candidates a bare name met.
pub open spec fn named_spec(
    dialect: LinkDialect,
    names: Seq<Seq<char>>,
    paths: Seq<Seq<char>>,
    own: Seq<char>,
    written: Seq<char>,
) -> (Option<Seq<char>>, Seq<Seq<char>>) {
    let target = target_spec(dialect, written);
    if target.len() == 0 && (fragment_spec(dialect, written) matches Some(f) && f.len() > 0) {
        (Some(own), Seq::empty())
    } else {
        let (one, several) = resolution_spec(names, paths, target);
        match one {
            Some(at) => (Some(paths[at as int]), Seq::empty()),
            None => (None, several.map_values(|at: usize| paths[at as int])),
        }
    }
}

/// Why a reference a caller supplied named no note.
#[derive(Clone, Debug, PartialEq, Eq)]
pub struct UnresolvedReference {
    reference: String,
    candidates: Vec<VaultPath>,
}

impl UnresolvedReference {
    /// The reference exactly as it was supplied.
    pub closed spec fn written(&self) -> Seq<char> {
        self.reference@
    }

    /// Every note a bare name met, when it met more than one.
    pub closed spec fn met(&self) -> Seq<Seq<char>> {
        self.candidates@.map_values(|p: VaultPath| p@)
    }

    /// The reference exactly as it was supplied.
    pub fn reference(&self) -> (r: &str)
        ensures
            r@ == self.written(),
    {
        self.reference.as_str()
    }

    /// Every note a bare name met, when it met more than one; empty where the
    /// reference simply named nothing.
    pub fn candidates(&self) -> (r: &[VaultPath])
        ensures
            r@.map_values(|p: VaultPath| p@) == self.met(),
    {
        self.candidates.as_slice()
    }

    /// The diagnostic this refusal is reported as: `link.target-not-found`
    /// with no candidates, `link.ambiguous-reference` carrying each one. It
    /// carries no location, because the reference came from no file.
    pub fn diagnostic(&self) -> (d: Diagnostic)
        ensures
            d.id == if self.met().len() == 0 {
                KernelDiagnostic::LinkTargetNotFound
            } else {
                KernelDiagnostic::LinkAmbiguousReference
            },
            d.location.is_none(),
            self.met().len() == 0 ==> d.message@ == not_found_message(self.written()),
            self.met().len() > 0 ==> d.message@ == ambiguous_message(
                self.written(),
                self.met().len(),
            ),
            self.met().len() > 0 ==> d.related@.len() == self.met().len(),
            self.met().len() == 0 ==> d.related@.len() == 0,
            forall|i: int|
                0 <= i < self.met().len() ==> ((#[trigger] d.related@[i]).location matches Some(l) && l.file.spelled()
                    == self.met()[i] && l.span.is_none()),
    {
        if self.candidates.len() == 0 {
            not_found(self.reference.as_str())
        } else {
            ambiguous(self.reference.as_str(), &self.candidates)
        }
    }
}

/// The message of a caller's reference naming no note.
pub open spec fn not_found_message(reference: Seq<char>) -> Seq<char> {
    "`"@ + reference + "` names no note in this vault"@
}

/// The message of a bare name several notes bear.
pub open spec fn ambiguous_message(reference: Seq<char>, count: nat) -> Seq<char> {
    "`"@ + reference + "` is a bare name that "@ + crate::chars::decimal_spec(count)
        + " notes bear, so it names none of them"@
}

/// The message of a typed link naming no note.
pub open spec fn dangling_message(reference: Seq<char>) -> Seq<char> {
    "`"@ + reference + "` names no note, and a typed link must resolve"@
}

/// A caller's reference naming no note.
pub fn not_found(reference: &str) -> (d: Diagnostic)
    ensures
        d.id == KernelDiagnostic::LinkTargetNotFound,
        d.message@ == not_found_message(reference@),
        d.location.is_none(),
        d.related@.len() == 0,
{
    Diagnostic::kernel(
        KernelDiagnostic::LinkTargetNotFound,
        join3("`", reference, "` names no note in this vault"),
    )
}

/// A typed link naming no note.
pub fn dangling(reference: &str) -> (d: Diagnostic)
    ensures
        d.id == KernelDiagnostic::LinkDanglingTypedLink,
        d.message@ == dangling_message(reference@),
        d.location.is_none(),
{
    Diagnostic::kernel(
        KernelDiagnostic::LinkDanglingTypedLink,
        join3("`", reference, "` names no note, and a typed link must resolve"),
    ).with_help(
        "until the note exists, the reference belongs in prose rather than in a relationship",
    )
}

/// A bare name several notes bear, carrying every one of them as evidence.
pub fn ambiguous(reference: &str, candidates: &[VaultPath]) -> (d: Diagnostic)
    ensures
        d.id == KernelDiagnostic::LinkAmbiguousReference,
        d.message@ == ambiguous_message(reference@, candidates@.len()),
        d.location.is_none(),
        d.related@.len() == candidates@.len(),
        forall|i: int|
            0 <= i < candidates@.len() ==> ((#[trigger] d.related@[i]).location matches Some(l)
                && l.file.spelled() == candidates@[i]@ && l.span.is_none()),
{
    let count = decimal(candidates.len());
    let head = join3("`", reference, "` is a bare name that ");
    let message = join3(head.as_str(), count.as_str(), " notes bear, so it names none of them");
    let mut reported = Diagnostic::kernel(KernelDiagnostic::LinkAmbiguousReference, message)
        .with_help("qualify the reference with enough of its path to pick one");
    let mut i: usize = 0;
    while i < candidates.len()
        invariant
            i <= candidates.len(),
            reported.id == KernelDiagnostic::LinkAmbiguousReference,
            reported.message@ == ambiguous_message(reference@, candidates@.len()),
            reported.location.is_none(),
            reported.related@.len() == i,
            forall|k: int|
                0 <= k < i ==> ((#[trigger] reported.related@[k]).location matches Some(l)
                    && l.file.spelled() == candidates@[k]@ && l.span.is_none()),
        decreases candidates.len() - i,
    {
        reported = reported.with_related(bearer(&candidates[i]));
        i = i + 1;
    }
    reported
}

fn bearer(path: &VaultPath) -> (r: Related)
    ensures
        r.location matches Some(l) && l.file.spelled() == path@ && l.span.is_none(),
{
    let message = join3("`", path.as_str(), "` bears that name");
    let at = Location::whole_file(FileRef::InVault(path.copy()));
    Related::new(message).at(at)
}

/// Resolves a caller's reference against a corpus's notes.
pub fn reference<'a>(notes: &'a [Note], written: &str) -> (r: Result<&'a Note, UnresolvedReference>)
    ensures
        ({
            let (one, several) = resolution_spec(names_of(notes@), paths_of(notes@), written@);
            match r {
                Ok(note) => one matches Some(at) && *note == notes@[at as int],
                Err(refused) => one.is_none() && refused.written() == written@ && refused.met()
                    == several.map_values(|at: usize| notes@[at as int].path@),
            }
        }),
{
    match position(notes, written) {
        Ok(at) => Ok(&notes[at]),
        Err(refused) => Err(refused),
    }
}

/// Resolves a caller's reference against a corpus's notes, answering with
/// the position of the note it names.
pub fn position(notes: &[Note], written: &str) -> (r: Result<usize, UnresolvedReference>)
    ensures
        ({
            let (one, several) = resolution_spec(names_of(notes@), paths_of(notes@), written@);
            match r {
                Ok(at) => one == Some(at) && at < notes@.len(),
                Err(refused) => one.is_none() && refused.written() == written@ && refused.met()
                    == several.map_values(|at: usize| notes@[at as int].path@),
            }
        }),
{
    let index = Index::of(notes);
    assert(index.names().len() == index.paths().len());
    match index.resolve(written) {
        Resolution::One(at) => Ok(at),
        Resolution::Ambiguous(candidates) => {
            let mut paths: Vec<VaultPath> = Vec::new();
            let mut i: usize = 0;
            while i < candidates.len()
                invariant
                    i <= candidates.len(),
                    forall|k: int| 0 <= k < candidates@.len() ==> #[trigger] candidates@[k] < notes@.len(),
                    paths@.len() == i,
                    paths@.map_values(|p: VaultPath| p@) == candidates@.take(i as int).map_values(
                        |at: usize| notes@[at as int].path@,
                    ),
                decreases candidates.len() - i,
            {
                let ghost before = paths@;
                paths.push(notes[candidates[i]].path.copy());
                proof {
                    assert(candidates@.take(i + 1) =~= candidates@.take(i as int).push(candidates@[i as int]));
                    assert(paths@.map_values(|p: VaultPath| p@) =~= before.map_values(|p: VaultPath| p@).push(
                        notes@[candidates@[i as int] as int].path@));
                }
                i = i + 1;
            }
            assert(candidates@.take(candidates@.len() as int) =~= candidates@);
            Err(UnresolvedReference { reference: String::from_str(written), candidates: paths })
        },
        Resolution::Absent => Err(
            UnresolvedReference { reference: String::from_str(written), candidates: Vec::new() },
        ),
    }
}

/// What one reference names among the corpus's notes: the note it resolves
/// to, or the candidates a bare name met (none when nothing bears it).
pub fn named(
    index: &Index,
    paths: &Vec<VaultPath>,
    dialect: LinkDialect,
    own: &VaultPath,
    written: &str,
) -> (r: (Option<VaultPath>, Vec<VaultPath>))
    requires
        index.names().len() == index.paths().len(),
        paths@.len() == index.paths().len(),
        forall|k: int| 0 <= k < paths@.len() ==> (#[trigger] paths@[k])@ == index.paths()[k],
    ensures
        ({
            let (one, several) = named_spec(dialect, index.names(), index.paths(), own@, written@);
            &&& one matches Some(p) ==> (r.0 matches Some(q) && q@ == p)
            &&& one.is_none() ==> r.0.is_none() && r.1@.map_values(|v: VaultPath| v@) == several
        }),
{
    let reference = links::reference(dialect, written);
    if reference.names_own_note() {
        return (Some(own.copy()), Vec::new());
    }
    match index.resolve(reference.target.as_str()) {
        Resolution::One(at) => (Some(paths[at].copy()), Vec::new()),
        Resolution::Ambiguous(candidates) => {
            let mut out: Vec<VaultPath> = Vec::new();
            let mut i: usize = 0;
            while i < candidates.len()
                invariant
                    i <= candidates@.len(),
                    paths@.len() == index.paths().len(),
                    forall|k: int| 0 <= k < paths@.len() ==> (#[trigger] paths@[k])@ == index.paths()[k],
                    forall|k: int| 0 <= k < candidates@.len() ==> #[trigger] candidates@[k] < index.paths().len(),
                    out@.map_values(|v: VaultPath| v@) == candidates@.take(i as int).map_values(
                        |at: usize| index.paths()[at as int],
                    ),
                decreases candidates.len() - i,
            {
                let ghost before = out@;
                out.push(paths[candidates[i]].copy());
                proof {
                    assert(candidates@.take(i + 1) =~= candidates@.take(i as int).push(candidates@[i as int]));
                    assert(out@.map_values(|v: VaultPath| v@) =~= before.map_values(|v: VaultPath| v@).push(
                        index.paths()[candidates@[i as int] as int]));
                }
                i = i + 1;
            }
            assert(candidates@.take(candidates@.len() as int) =~= candidates@);
            (None, out)
        },
        Resolution::Absent => (None, Vec::new()),
    }
}

/// A link that named no note: what it wrote, the candidates its bare name
/// met (none when nothing bears it), and where it is written.
pub type Miss = (Seq<char>, Seq<Seq<char>>, Location);

/// Whether `d` reports `miss`, where it is written: a bare name several notes
/// bear is `link.ambiguous-reference`, carrying each candidate as evidence; a
/// name nothing bears is `link.dangling-typed-link`.
pub open spec fn reports(d: Diagnostic, dialect: LinkDialect, miss: Miss) -> bool {
    let target = target_spec(dialect, miss.0);
    &&& d.location == Some(miss.2)
    &&& if miss.1.len() > 0 {
        &&& d.id == KernelDiagnostic::LinkAmbiguousReference
        &&& d.message@ == ambiguous_message(target, miss.1.len())
        &&& d.related@.len() == miss.1.len()
        &&& forall|i: int|
            0 <= i < miss.1.len() ==> ((#[trigger] d.related@[i]).location matches Some(l) && l.file.spelled()
                == miss.1[i] && l.span.is_none())
    } else {
        &&& d.id == KernelDiagnostic::LinkDanglingTypedLink
        &&& d.message@ == dangling_message(target)
    }
}

/// Whether `after` is `before` followed by one report of each miss, in order.
pub open spec fn extends(dialect: LinkDialect, before: Seq<Diagnostic>, after: Seq<Diagnostic>, misses: Seq<Miss>) -> bool {
    &&& after.len() == before.len() + misses.len()
    &&& forall|i: int| 0 <= i < before.len() ==> after[i] == before[i]
    &&& forall|i: int| 0 <= i < misses.len() ==> reports(#[trigger] after[before.len() + i], dialect, misses[i])
}

/// Reports appended in two steps are the reports of both, in order.
pub proof fn lemma_extends_twice(
    dialect: LinkDialect,
    a: Seq<Diagnostic>,
    b: Seq<Diagnostic>,
    c: Seq<Diagnostic>,
    first: Seq<Miss>,
    second: Seq<Miss>,
)
    requires
        extends(dialect, a, b, first),
        extends(dialect, b, c, second),
    ensures
        extends(dialect, a, c, first + second),
{
    assert forall|i: int| 0 <= i < (first + second).len() implies reports(#[trigger] c[a.len() + i], dialect, (first + second)[i]) by {
        if i < first.len() {
            assert(c[a.len() + i] == b[a.len() + i]);
        } else {
            assert(c[a.len() + i] == c[b.len() + (i - first.len())]);
        }
    }
}

/// Whether `after` is the typed link `before`, in the note at `own`, once
/// resolved: the same reference at the same place, pointing at the note the
/// rule names, and otherwise as it was.
pub open spec fn resolved_edge(
    dialect: LinkDialect,
    names: Seq<Seq<char>>,
    paths: Seq<Seq<char>>,
    own: Seq<char>,
    before: Edge,
    after: Edge,
) -> bool {
    &&& after.written == before.written
    &&& after.at == before.at
    &&& match named_spec(dialect, names, paths, own, before.written@).0 {
        Some(p) => after.target matches Some(t) && t@ == p,
        None => after.target == before.target,
    }
}

/// Whether `after` is the body reference `before`, in the note at `own`, once
/// resolved.
pub open spec fn resolved_reference(
    dialect: LinkDialect,
    names: Seq<Seq<char>>,
    paths: Seq<Seq<char>>,
    own: Seq<char>,
    before: Reference,
    after: Reference,
) -> bool {
    &&& after.written == before.written
    &&& after.at == before.at
    &&& match named_spec(dialect, names, paths, own, before.written@).0 {
        Some(p) => after.target matches Some(t) && t@ == p,
        None => after.target == before.target,
    }
}

/// Whether `after` is the relationship `before` with each edge resolved.
pub open spec fn resolved_relationship(
    dialect: LinkDialect,
    names: Seq<Seq<char>>,
    paths: Seq<Seq<char>>,
    own: Seq<char>,
    before: Relationship,
    after: Relationship,
) -> bool {
    &&& after.predicate == before.predicate
    &&& after.edges@.len() == before.edges@.len()
    &&& forall|j: int|
        0 <= j < after.edges@.len() ==> resolved_edge(dialect, names, paths, own, before.edges@[j], #[trigger] after.edges@[j])
}

/// Whether `after` is the note `before` with every typed link and every body
/// reference resolved, and nothing else changed.
pub open spec fn resolved_note(dialect: LinkDialect, names: Seq<Seq<char>>, paths: Seq<Seq<char>>, before: Note, after: Note) -> bool {
    &&& after.path == before.path
    &&& after.binding == before.binding
    &&& after.properties == before.properties
    &&& after.tags == before.tags
    &&& after.title == before.title
    &&& after.body == before.body
    &&& after.relationships@.len() == before.relationships@.len()
    &&& forall|j: int|
        0 <= j < after.relationships@.len() ==> resolved_relationship(
            dialect,
            names,
            paths,
            before.path@,
            before.relationships@[j],
            #[trigger] after.relationships@[j],
        )
    &&& after.references@.len() == before.references@.len()
    &&& forall|j: int|
        0 <= j < after.references@.len() ==> resolved_reference(
            dialect,
            names,
            paths,
            before.path@,
            before.references@[j],
            #[trigger] after.references@[j],
        )
}

/// The typed links among `edges` that name no note, in order.
pub open spec fn edge_misses(
    dialect: LinkDialect,
    names: Seq<Seq<char>>,
    paths: Seq<Seq<char>>,
    own: Seq<char>,
    edges: Seq<Edge>,
) -> Seq<Miss>
    decreases edges.len(),
{
    if edges.len() == 0 {
        Seq::empty()
    } else {
        let e = edges.last();
        let (one, several) = named_spec(dialect, names, paths, own, e.written@);
        edge_misses(dialect, names, paths, own, edges.drop_last()) + if one.is_none() {
            seq![(e.written@, several, e.at)]
        } else {
            Seq::empty()
        }
    }
}

/// The typed links of `relationships` that name no note, in order.
pub open spec fn relationship_misses(
    dialect: LinkDialect,
    names: Seq<Seq<char>>,
    paths: Seq<Seq<char>>,
    own: Seq<char>,
    relationships: Seq<Relationship>,
) -> Seq<Miss>
    decreases relationships.len(),
{
    if relationships.len() == 0 {
        Seq::empty()
    } else {
        relationship_misses(dialect, names, paths, own, relationships.drop_last()) + edge_misses(
            dialect,
            names,
            paths,
            own,
            relationships.last().edges@,
        )
    }
}

/// The body references among `references` whose bare name several notes
/// bear, in order; one that names nothing is no finding.
pub open spec fn reference_misses(
    dialect: LinkDialect,
    names: Seq<Seq<char>>,
    paths: Seq<Seq<char>>,
    own: Seq<char>,
    references: Seq<Reference>,
) -> Seq<Miss>
    decreases references.len(),
{
    if references.len() == 0 {
        Seq::empty()
    } else {
        let r = references.last();
        let (one, several) = named_spec(dialect, names, paths, own, r.written@);
        reference_misses(dialect, names, paths, own, references.drop_last()) + if one.is_none() && several.len() > 0 {
            seq![(r.written@, several, r.at)]
        } else {
            Seq::empty()
        }
    }
}

/// What one note reports once resolved: its typed links first, in the
/// contract's declaration order, then its body references.
pub open spec fn note_misses(dialect: LinkDialect, names: Seq<Seq<char>>, paths: Seq<Seq<char>>, n: Note) -> Seq<Miss> {
    relationship_misses(dialect, names, paths, n.path@, n.relationships@) + reference_misses(
        dialect,
        names,
        paths,
        n.path@,
        n.references@,
    )
}

/// What a corpus reports once resolved, note by note.
pub open spec fn corpus_misses(dialect: LinkDialect, names: Seq<Seq<char>>, paths: Seq<Seq<char>>, notes: Seq<Note>) -> Seq<Miss>
    decreases notes.len(),
{
    if notes.len() == 0 {
        Seq::empty()
    } else {
        corpus_misses(dialect, names, paths, notes.drop_last()) + note_misses(dialect, names, paths, notes.last())
    }
}

/// Whether `index` and `paths` hold the same corpus.
pub open spec fn indexed(index: Index, paths: Seq<VaultPath>) -> bool {
    &&& index.names().len() == index.paths().len()
    &&& paths.len() == index.paths().len()
    &&& forall|k: int| 0 <= k < paths.len() ==> (#[trigger] paths[k])@ == index.paths()[k]
}

/// Resolves one typed link, reporting it when it names no note.
fn resolve_edge(
    index: &Index,
    paths: &Vec<VaultPath>,
    dialect: LinkDialect,
    own: &VaultPath,
    edge: Edge,
    reported: &mut Vec<Diagnostic>,
) -> (r: Edge)
    requires
        indexed(*index, paths@),
    ensures
        resolved_edge(dialect, index.names(), index.paths(), own@, edge, r),
        extends(dialect, old(reported)@, final(reported)@, edge_misses(dialect, index.names(), index.paths(), own@, seq![edge])),
{
    let Edge { written, target, at } = edge;
    let (found, candidates) = named(index, paths, dialect, own, written.as_str());
    let ghost before = reported@;
    let ghost miss = named_spec(dialect, index.names(), index.paths(), own@, edge.written@);
    assert(seq![edge].drop_last() =~= Seq::<Edge>::empty());
    assert(edge_misses(dialect, index.names(), index.paths(), own@, seq![edge].drop_last()) =~= Seq::<Miss>::empty());
    match found {
        Some(path) => {
            assert(edge_misses(dialect, index.names(), index.paths(), own@, seq![edge]) =~= Seq::<Miss>::empty());
            Edge { written, target: Some(path), at }
        },
        None => {
            let shown = links::reference(dialect, written.as_str());
            if candidates.len() > 0 {
                reported.push(ambiguous(shown.target.as_str(), &candidates).at(at.copy()));
            } else {
                reported.push(dangling(shown.target.as_str()).at(at.copy()));
            }
            assert(edge_misses(dialect, index.names(), index.paths(), own@, seq![edge]) =~= seq![(edge.written@, miss.1, edge.at)]);
            assert(reports(reported@[before.len() as int], dialect, (written@, candidates@.map_values(|v: VaultPath| v@), at)));
            Edge { written, target, at }
        },
    }
}

/// Resolves a relationship's typed links, in order.
fn resolve_edges(
    index: &Index,
    paths: &Vec<VaultPath>,
    dialect: LinkDialect,
    own: &VaultPath,
    edges: Vec<Edge>,
    reported: &mut Vec<Diagnostic>,
) -> (r: Vec<Edge>)
    requires
        indexed(*index, paths@),
    ensures
        r@.len() == edges@.len(),
        forall|j: int| 0 <= j < r@.len() ==> resolved_edge(dialect, index.names(), index.paths(), own@, edges@[j], #[trigger] r@[j]),
        extends(dialect, old(reported)@, final(reported)@, edge_misses(dialect, index.names(), index.paths(), own@, edges@)),
{
    let ghost all = edges@;
    let ghost start = reported@;
    let mut rest = edges;
    let mut out: Vec<Edge> = Vec::new();
    assert(all.take(0) =~= Seq::<Edge>::empty());
    while rest.len() > 0
        invariant
            indexed(*index, paths@),
            out@.len() + rest@.len() == all.len(),
            rest@ == all.skip(out@.len() as int),
            forall|j: int| 0 <= j < out@.len() ==> resolved_edge(dialect, index.names(), index.paths(), own@, all[j], #[trigger] out@[j]),
            extends(dialect, start, reported@, edge_misses(dialect, index.names(), index.paths(), own@, all.take(out@.len() as int))),
        decreases rest@.len(),
    {
        let ghost k = out@.len() as int;
        let ghost mid = reported@;
        let edge = rest.remove(0);
        assert(edge == all[k]);
        assert(rest@ =~= all.skip(k + 1));
        let resolved = resolve_edge(index, paths, dialect, own, edge, reported);
        proof {
            let names = index.names();
            let ps = index.paths();
            assert(all.take(k + 1).drop_last() =~= all.take(k));
            assert(edge_misses(dialect, names, ps, own@, seq![all[k]]) =~= edge_misses(dialect, names, ps, own@, seq![all[k]].drop_last()) + edge_misses(dialect, names, ps, own@, seq![all[k]]));
            assert(edge_misses(dialect, names, ps, own@, all.take(k + 1)) == edge_misses(dialect, names, ps, own@, all.take(k))
                + edge_misses(dialect, names, ps, own@, seq![all[k]]));
            lemma_extends_twice(dialect, start, mid, reported@, edge_misses(dialect, names, ps, own@, all.take(k)), edge_misses(dialect, names, ps, own@, seq![all[k]]));
        }
        let ghost prior = out@;
        out.push(resolved);
        assert forall|j: int| 0 <= j < out@.len() implies resolved_edge(dialect, index.names(), index.paths(), own@, all[j], #[trigger] out@[j]) by {
            if j < k {
                assert(out@[j] == prior[j]);
            }
        }
    }
    assert(all.take(all.len() as int) =~= all);
    out
}

/// Resolves one note's typed links, in the contract's declaration order,
/// then its body references, reporting whatever names no note.
fn resolve_note(index: &Index, paths: &Vec<VaultPath>, dialect: LinkDialect, note: Note, reported: &mut Vec<Diagnostic>) -> (r: Note)
    requires
        indexed(*index, paths@),
    ensures
        resolved_note(dialect, index.names(), index.paths(), note, r),
        extends(dialect, old(reported)@, final(reported)@, note_misses(dialect, index.names(), index.paths(), note)),
{
    let ghost original = note;
    let ghost names = index.names();
    let ghost ps = index.paths();
    let ghost start = reported@;
    let Note { path, binding, properties, relationships, references, tags, title, body } = note;
    let own = path.copy();
    let ghost rels = relationships@;
    let mut pending = relationships;
    let mut relationships: Vec<Relationship> = Vec::new();
    assert(rels.take(0) =~= Seq::<Relationship>::empty());
    while pending.len() > 0
        invariant
            indexed(*index, paths@),
            names == index.names(),
            ps == index.paths(),
            own@ == original.path@,
            relationships@.len() + pending@.len() == rels.len(),
            pending@ == rels.skip(relationships@.len() as int),
            forall|j: int|
                0 <= j < relationships@.len() ==> resolved_relationship(dialect, names, ps, own@, rels[j], #[trigger] relationships@[j]),
            extends(dialect, start, reported@, relationship_misses(dialect, names, ps, own@, rels.take(relationships@.len() as int))),
        decreases pending@.len(),
    {
        let ghost k = relationships@.len() as int;
        let ghost mid = reported@;
        let relationship = pending.remove(0);
        assert(relationship == rels[k]);
        assert(pending@ =~= rels.skip(k + 1));
        let Relationship { predicate, edges } = relationship;
        let edges = resolve_edges(index, paths, dialect, &own, edges, reported);
        proof {
            assert(rels.take(k + 1).drop_last() =~= rels.take(k));
            lemma_extends_twice(
                dialect,
                start,
                mid,
                reported@,
                relationship_misses(dialect, names, ps, own@, rels.take(k)),
                edge_misses(dialect, names, ps, own@, rels[k].edges@),
            );
        }
        let ghost prior = relationships@;
        relationships.push(Relationship { predicate, edges });
        assert forall|j: int| 0 <= j < relationships@.len() implies resolved_relationship(dialect, names, ps, own@, rels[j], #[trigger] relationships@[j]) by {
            if j < k {
                assert(relationships@[j] == prior[j]);
            }
        }
    }
    assert(rels.take(rels.len() as int) =~= rels);
    let ghost after_links = reported@;
    let ghost refs = references@;
    let mut pending = references;
    let mut references: Vec<Reference> = Vec::new();
    assert(refs.take(0) =~= Seq::<Reference>::empty());
    while pending.len() > 0
        invariant
            indexed(*index, paths@),
            names == index.names(),
            ps == index.paths(),
            own@ == original.path@,
            references@.len() + pending@.len() == refs.len(),
            pending@ == refs.skip(references@.len() as int),
            forall|j: int|
                0 <= j < references@.len() ==> resolved_reference(dialect, names, ps, own@, refs[j], #[trigger] references@[j]),
            extends(dialect, after_links, reported@, reference_misses(dialect, names, ps, own@, refs.take(references@.len() as int))),
        decreases pending@.len(),
    {
        let ghost k = references@.len() as int;
        let ghost mid = reported@;
        let reference = pending.remove(0);
        assert(reference == refs[k]);
        assert(pending@ =~= refs.skip(k + 1));
        assert(refs.take(k + 1).drop_last() =~= refs.take(k));
        let Reference { written, target, at } = reference;
        let (found, candidates) = named(index, paths, dialect, &own, written.as_str());
        let resolved = match found {
            Some(p) => Reference { written, target: Some(p), at },
            None => {
                if candidates.len() > 0 {
                    let shown = links::reference(dialect, written.as_str());
                    reported.push(ambiguous(shown.target.as_str(), &candidates).at(at.copy()));
                    assert(reports(reported@[mid.len() as int], dialect, (written@, candidates@.map_values(|v: VaultPath| v@), at)));
                }
                Reference { written, target, at }
            },
        };
        proof {
            let step = if named_spec(dialect, names, ps, own@, refs[k].written@).0.is_none() && named_spec(dialect, names, ps, own@, refs[k].written@).1.len() > 0 {
                seq![(refs[k].written@, named_spec(dialect, names, ps, own@, refs[k].written@).1, refs[k].at)]
            } else {
                Seq::<Miss>::empty()
            };
            assert(reference_misses(dialect, names, ps, own@, refs.take(k + 1)) == reference_misses(dialect, names, ps, own@, refs.take(k)) + step);
            assert(extends(dialect, mid, reported@, step));
            lemma_extends_twice(dialect, after_links, mid, reported@, reference_misses(dialect, names, ps, own@, refs.take(k)), step);
        }
        let ghost prior = references@;
        references.push(resolved);
        assert forall|j: int| 0 <= j < references@.len() implies resolved_reference(dialect, names, ps, own@, refs[j], #[trigger] references@[j]) by {
            if j < k {
                assert(references@[j] == prior[j]);
            }
        }
    }
    assert(refs.take(refs.len() as int) =~= refs);
    proof {
        lemma_extends_twice(
            dialect,
            start,
            after_links,
            reported@,
            relationship_misses(dialect, names, ps, own@, rels),
            reference_misses(dialect, names, ps, own@, refs),
        );
    }
    Note { path, binding, properties, relationships, references, tags, title, body }
}

/// Resolves every typed link and every body reference of a corpus, each
/// against the whole corpus, and reports what did not resolve: a typed link
/// naming nothing is `link.dangling-typed-link`, a bare name several notes
/// bear is `link.ambiguous-reference` at every door, and a body reference
/// naming nothing is no finding at all.
pub fn corpus(notes: Vec<Note>, dialect: LinkDialect) -> (r: (Vec<Note>, Vec<Diagnostic>))
    ensures
        r.0@.len() == notes@.len(),
        forall|i: int| 0 <= i < notes@.len() ==> (#[trigger] r.0@[i]).path@ == notes@[i].path@,
        forall|i: int|
            0 <= i < notes@.len() ==> resolved_note(dialect, names_of(notes@), paths_of(notes@), notes@[i], #[trigger] r.0@[i]),
        extends(dialect, Seq::empty(), r.1@, corpus_misses(dialect, names_of(notes@), paths_of(notes@), notes@)),
{
    let index = Index::of(notes.as_slice());
    let mut paths: Vec<VaultPath> = Vec::new();
    let mut i: usize = 0;
    while i < notes.len()
        invariant
            i <= notes@.len(),
            paths@.len() == i,
            index.paths() == paths_of(notes@),
            forall|k: int| 0 <= k < i ==> (#[trigger] paths@[k])@ == paths_of(notes@)[k],
        decreases notes.len() - i,
    {
        paths.push(notes[i].path.copy());
        i = i + 1;
    }
    let ghost original = notes@;
    let ghost names = index.names();
    let ghost ps = index.paths();
    let mut rest = notes;
    let mut done: Vec<Note> = Vec::new();
    let mut reported: Vec<Diagnostic> = Vec::new();
    assert(original.take(0) =~= Seq::<Note>::empty());
    while rest.len() > 0
        invariant
            indexed(index, paths@),
            names == index.names(),
            ps == index.paths(),
            names == names_of(original),
            ps == paths_of(original),
            done@.len() + rest@.len() == original.len(),
            rest@ == original.skip(done@.len() as int),
            forall|k: int| 0 <= k < done@.len() ==> resolved_note(dialect, names, ps, original[k], #[trigger] done@[k]),
            extends(dialect, Seq::empty(), reported@, corpus_misses(dialect, names, ps, original.take(done@.len() as int))),
        decreases rest@.len(),
    {
        let ghost k = done@.len() as int;
        let ghost mid = reported@;
        let note = rest.remove(0);
        assert(note == original[k]);
        assert(rest@ =~= original.skip(k + 1));
        assert(original.take(k + 1).drop_last() =~= original.take(k));
        let resolved = resolve_note(&index, &paths, dialect, note, &mut reported);
        proof {
            lemma_extends_twice(
                dialect,
                Seq::empty(),
                mid,
                reported@,
                corpus_misses(dialect, names, ps, original.take(k)),
                note_misses(dialect, names, ps, original[k]),
            );
        }
        let ghost prior = done@;
        done.push(resolved);
        assert forall|j: int| 0 <= j < done@.len() implies resolved_note(dialect, names, ps, original[j], #[trigger] done@[j]) by {
            if j < k {
                assert(done@[j] == prior[j]);
            }
        }
    }
    assert(original.take(original.len() as int) =~= original);
    (done, reported)
}

} // verus!
