//! Lexical retrieval: a corpus scan, not an index.
//!
//! Each search reads the corpus through the same path `list` uses, so a
//! broken corpus surfaces its diagnostics on every retrieval. A query matches
//! a note's body and its identity: the vault-relative path, the title, and
//! the note's aliases — the values of the property its bound type declares
//! under the name `aliases`. The four list filters compose with the query,
//! ANDed, under list's own rules. Hits are relevance-ordered with a
//! deterministic tie-break on the vault-relative path.

pub mod query;
pub mod tokens;

use core::ops::Range;

use vstd::prelude::*;

use crate::chars::{byte_len, byte_offsets, precedes, slice, string_of};
use crate::contract::Contract;
use crate::diagnostic::{Diagnostic, KernelDiagnostic, VaultPath, is_sorted, lemma_precedes_asymmetric, lemma_precedes_transitive, sorted};
use crate::note::body::{trim_end, trim_start};
use crate::note::list::{ListFilter, admits, axis_refusal, matches_spec};
use crate::note::model::Note;
use crate::note::{Corpus, Listing, corpus_of, read_corpus};

use query::{Atom, AtomSpec, Query, count_spec, first_span, lemma_no_count_no_span};
use tokens::{Token, scan, scanned};
use crate::note::find::aliases_of;

verus! {

/// How many bytes of the note's own text a snippet quotes on each side of the
/// first match.
pub const SNIPPET_CONTEXT: usize = 40;

/// One search hit: identity, bound type, and a matched-context snippet.
#[derive(Clone, Debug, PartialEq, Eq)]
pub struct SearchHit {
    /// The note's vault-relative identity.
    pub path: VaultPath,
    /// The type the note bound to, when it bound to one.
    pub bound_type: Option<String>,
    /// The note's own text around the first body match, or the matched alias
    /// where only the identity matched; nothing where only the path matched.
    pub snippet: Option<String>,
}

impl SearchHit {
    /// The note's vault-relative identity.
    pub fn path(&self) -> (r: &VaultPath)
        ensures
            *r == self.path,
    {
        &self.path
    }

    /// The type the note bound to, when it bound to one.
    pub fn bound_type(&self) -> (r: Option<&str>)
        ensures
            match self.bound_type {
                Some(t) => r matches Some(s) && s@ == t@,
                None => r.is_none(),
            },
    {
        match &self.bound_type {
            Some(t) => Some(t.as_str()),
            None => None,
        }
    }

    /// The matched context this note is quoted by.
    pub fn snippet(&self) -> (r: Option<&str>)
        ensures
            match self.snippet {
                Some(t) => r matches Some(s) && s@ == t@,
                None => r.is_none(),
            },
    {
        match &self.snippet {
            Some(t) => Some(t.as_str()),
            None => None,
        }
    }
}

/// One search, as asked: the query text, the filters, and the cap.
#[derive(Clone, Debug, PartialEq, Eq)]
pub struct SearchRequest {
    /// The query text.
    pub query: String,
    /// The four filters, ANDed with the query under list's rules.
    pub filter: ListFilter,
    /// Keep at most this many hits, best-ranked first.
    pub limit: usize,
}

/// The result of searching a corpus.
#[derive(Clone, Debug, PartialEq, Eq)]
pub struct SearchResult {
    /// Matching notes, relevance-ordered with a path tie-break.
    pub hits: Vec<SearchHit>,
    /// Everything the search reported, in the total order.
    pub diagnostics: Vec<Diagnostic>,
}

impl SearchResult {
    /// Matching notes, relevance-ordered with a path tie-break.
    pub fn hits(&self) -> (r: &[SearchHit])
        ensures
            r@ == self.hits@,
    {
        self.hits.as_slice()
    }

    /// Everything the search reported, in the total order.
    pub fn diagnostics(&self) -> (r: &[Diagnostic])
        ensures
            r@ == self.diagnostics@,
    {
        self.diagnostics.as_slice()
    }
}

/// How well a note matched: how many of the query's atoms matched at all,
/// then how often the identity — title, path, aliases — matched, then how
/// often anything did.
#[derive(Clone, Copy, Debug, PartialEq, Eq)]
pub struct Relevance {
    /// The atoms that matched anything.
    pub matched_atoms: usize,
    /// The identity's occurrences.
    pub identity: usize,
    /// Every occurrence.
    pub occurrences: usize,
}

/// One matching note, ready to be ordered.
#[derive(Debug)]
pub struct Scored {
    /// How well it matched.
    pub relevance: Relevance,
    /// The hit it becomes.
    pub hit: SearchHit,
}

/// Whether `a` ranks strictly before `b`: better relevance, field by field,
/// and the vault-relative path for every tie.
pub open spec fn outranks(a: Scored, b: Scored) -> bool {
    let (x, y) = (a.relevance, b.relevance);
    ||| x.matched_atoms > y.matched_atoms
    ||| (x.matched_atoms == y.matched_atoms && x.identity > y.identity)
    ||| (x.matched_atoms == y.matched_atoms && x.identity == y.identity && x.occurrences > y.occurrences)
    ||| (x.matched_atoms == y.matched_atoms && x.identity == y.identity && x.occurrences == y.occurrences
        && precedes(a.hit.path@, b.hit.path@))
}

/// Whether `s` is in rank order, ties allowed.
pub open spec fn ranked(s: Seq<Scored>) -> bool {
    forall|i: int, j: int| 0 <= i < j < s.len() ==> !outranks(#[trigger] s[j], #[trigger] s[i])
}

proof fn lemma_outranks_transitive(a: Scored, b: Scored, c: Scored)
    requires
        outranks(a, b),
        outranks(b, c),
    ensures
        outranks(a, c),
{
    let (x, y, z) = (a.relevance, b.relevance, c.relevance);
    if x.matched_atoms == y.matched_atoms && y.matched_atoms == z.matched_atoms && x.identity == y.identity
        && y.identity == z.identity && x.occurrences == y.occurrences && y.occurrences == z.occurrences {
        lemma_precedes_transitive(a.hit.path@, b.hit.path@, c.hit.path@);
    }
}

proof fn lemma_outranks_asymmetric(a: Scored, b: Scored)
    requires
        outranks(a, b),
    ensures
        !outranks(b, a),
{
    if precedes(a.hit.path@, b.hit.path@) {
        lemma_precedes_asymmetric(a.hit.path@, b.hit.path@);
    }
}

/// Relevance ranks field by field: more matched atoms always rank first;
/// among equal matched atoms, more identity occurrences rank first however
/// often the other matched elsewhere; only then do occurrences count; and
/// the path breaks a full tie.
pub proof fn law_rank_order(a: Scored, b: Scored)
    ensures
        a.relevance.matched_atoms > b.relevance.matched_atoms ==> outranks(a, b) && !outranks(b, a),
        a.relevance.matched_atoms == b.relevance.matched_atoms && a.relevance.identity > b.relevance.identity ==> outranks(a, b)
            && !outranks(b, a),
        a.relevance.matched_atoms == b.relevance.matched_atoms && a.relevance.identity == b.relevance.identity
            && a.relevance.occurrences > b.relevance.occurrences ==> outranks(a, b) && !outranks(b, a),
        a.relevance == b.relevance ==> (outranks(a, b) <==> precedes(a.hit.path@, b.hit.path@)),
{
    if outranks(a, b) {
        lemma_outranks_asymmetric(a, b);
    }
}

/// In rank order, no hit stands after one with fewer matched atoms, nor,
/// among equal matched atoms, after one whose identity matched less often.
pub proof fn law_ranked_identity_first(s: Seq<Scored>, i: int, j: int)
    requires
        ranked(s),
        0 <= i < j < s.len(),
    ensures
        s[i].relevance.matched_atoms >= s[j].relevance.matched_atoms,
        s[i].relevance.matched_atoms == s[j].relevance.matched_atoms ==> s[i].relevance.identity >= s[j].relevance.identity,
        s[i].relevance.matched_atoms == s[j].relevance.matched_atoms && s[i].relevance.identity == s[j].relevance.identity
            ==> s[i].relevance.occurrences >= s[j].relevance.occurrences,
{
    law_rank_order(s[j], s[i]);
    assert(!outranks(s[j], s[i]));
}

/// Whether `a` ranks strictly before `b`.
fn ranks_before(a: &Scored, b: &Scored) -> (r: bool)
    ensures
        r == outranks(*a, *b),
{
    let (x, y) = (a.relevance, b.relevance);
    if x.matched_atoms != y.matched_atoms {
        return x.matched_atoms > y.matched_atoms;
    }
    if x.identity != y.identity {
        return x.identity > y.identity;
    }
    if x.occurrences != y.occurrences {
        return x.occurrences > y.occurrences;
    }
    let p = a.hit.path.chars();
    let q = b.hit.path.chars();
    crate::chars::sorts_before(&p, &q)
}

/// `scored` in rank order, ties kept in the order they arrived.
pub fn rank(scored: Vec<Scored>) -> (r: Vec<Scored>)
    ensures
        r@.to_multiset() == scored@.to_multiset(),
        ranked(r@),
{
    broadcast use vstd::seq_lib::group_to_multiset_ensures;

    let mut rest = scored;
    let mut r: Vec<Scored> = Vec::new();
    while rest.len() > 0
        invariant
            r@.to_multiset().add(rest@.to_multiset()) == scored@.to_multiset(),
            ranked(r@),
        decreases rest.len(),
    {
        let ghost before_rest = rest@;
        let item = rest.remove(0);
        let mut k: usize = 0;
        while k < r.len() && !ranks_before(&item, &r[k])
            invariant
                k <= r@.len(),
                forall|j: int| 0 <= j < k ==> !outranks(item, #[trigger] r@[j]),
            decreases r.len() - k,
        {
            k = k + 1;
        }
        let ghost old_r = r@;
        let ghost d = item;
        r.insert(k, item);
        proof {
            assert(r@.remove(k as int) =~= old_r);
            crate::diagnostic::lemma_remove_multiset(r@, k as int);
            assert(before_rest.remove(0) == rest@);
            crate::diagnostic::lemma_remove_multiset(before_rest, 0);
            assert forall|i: int, j: int| 0 <= i < j < r@.len() implies !outranks(#[trigger] r@[j], #[trigger] r@[i]) by {
                if j < k {
                    assert(r@[i] == old_r[i] && r@[j] == old_r[j]);
                } else if i > k {
                    assert(r@[i] == old_r[i - 1] && r@[j] == old_r[j - 1]);
                } else if i == k {
                    assert(r@[j] == old_r[j - 1]);
                    if outranks(r@[j], d) {
                        assert(outranks(d, old_r[k as int]));
                        if j - 1 == k {
                            lemma_outranks_asymmetric(d, old_r[k as int]);
                        } else {
                            lemma_outranks_transitive(old_r[j - 1], d, old_r[k as int]);
                        }
                    }
                } else if j == k {
                    assert(r@[i] == old_r[i]);
                } else {
                    assert(r@[i] == old_r[i] && r@[j] == old_r[j - 1]);
                }
            }
        }
    }
    proof {
        assert(rest@ =~= Seq::<Scored>::empty());
    }
    r
}

/// `a + b`, saturating at the largest count.
pub open spec fn sat(a: nat, b: nat) -> nat {
    if a + b <= usize::MAX {
        a + b
    } else {
        usize::MAX as nat
    }
}

/// How often an atom matches a note's aliases, all told.
pub open spec fn alias_hits(atom: AtomSpec, aliases: Seq<(String, Vec<Token>)>) -> nat
    decreases aliases.len(),
{
    if aliases.len() == 0 {
        0
    } else {
        sat(alias_hits(atom, aliases.drop_last()), count_spec(atom, aliases.last().1@))
    }
}

/// How often an atom matches a note's identity: its title, its path and its
/// aliases.
pub open spec fn identity_hits(atom: AtomSpec, f: Fields) -> nat {
    sat(sat(count_spec(atom, f.title@), count_spec(atom, f.path@)), alias_hits(atom, f.aliases@))
}

/// A tally of matched atoms, identity occurrences and all occurrences, with
/// one more atom held against the fields.
pub open spec fn weighed(t: (nat, nat, nat), atom: AtomSpec, f: Fields) -> (nat, nat, nat) {
    let body = count_spec(atom, f.body@);
    let identity = identity_hits(atom, f);
    (
        if body > 0 || identity > 0 {
            sat(t.0, 1)
        } else {
            t.0
        },
        sat(t.1, identity),
        sat(t.2, sat(body, identity)),
    )
}

/// The whole query's tally over a note's fields.
pub open spec fn tally_spec(atoms: Seq<AtomSpec>, f: Fields) -> (nat, nat, nat)
    decreases atoms.len(),
{
    if atoms.len() == 0 {
        (0, 0, 0)
    } else {
        weighed(tally_spec(atoms.drop_last(), f), atoms.last(), f)
    }
}

/// The earlier of two spans by where they start; the first on a tie.
pub open spec fn earliest(prev: Option<(int, int)>, cur: Option<(int, int)>) -> Option<(int, int)> {
    match cur {
        Some(c) => match prev {
            Some(p) => if c.0 < p.0 {
                cur
            } else {
                prev
            },
            None => cur,
        },
        None => prev,
    }
}

/// The whole query's earliest match in a note's body: the one that starts
/// first, the earlier atom's on a tie.
pub open spec fn first_body_spec(atoms: Seq<AtomSpec>, f: Fields) -> Option<(int, int)>
    decreases atoms.len(),
{
    if atoms.len() == 0 {
        None
    } else {
        earliest(first_body_spec(atoms.drop_last(), f), first_span(atoms.last(), f.body@))
    }
}

/// The first alias, among the first `upto`, in which an atom matches
/// anything.
pub open spec fn alias_first_upto(atom: AtomSpec, aliases: Seq<(String, Vec<Token>)>, upto: int) -> Option<int>
    decreases upto,
{
    if upto <= 0 {
        None
    } else {
        let before = alias_first_upto(atom, aliases, upto - 1);
        if before is None && count_spec(atom, aliases[upto - 1].1@) > 0 {
            Some(upto - 1)
        } else {
            before
        }
    }
}

/// The lesser of two positions.
pub open spec fn lesser(prev: Option<int>, cur: Option<int>) -> Option<int> {
    match cur {
        Some(c) => match prev {
            Some(p) => if c < p {
                cur
            } else {
                prev
            },
            None => cur,
        },
        None => prev,
    }
}

/// The first alias, in note order, in which any atom of the query matches
/// anything.
pub open spec fn first_alias_spec(atoms: Seq<AtomSpec>, f: Fields) -> Option<int>
    decreases atoms.len(),
{
    if atoms.len() == 0 {
        None
    } else {
        lesser(first_alias_spec(atoms.drop_last(), f), alias_first_upto(atoms.last(), f.aliases@, f.aliases@.len() as int))
    }
}

/// A position found among the first `upto` aliases is one of them.
pub proof fn lemma_alias_first_below(atom: AtomSpec, aliases: Seq<(String, Vec<Token>)>, upto: int)
    ensures
        alias_first_upto(atom, aliases, upto) matches Some(k) ==> 0 <= k < upto,
    decreases upto,
{
    if upto > 0 {
        lemma_alias_first_below(atom, aliases, upto - 1);
    }
}

/// A range as the pair of its ends.
pub open spec fn span_of(r: Option<Range<usize>>) -> Option<(int, int)> {
    match r {
        Some(s) => Some((s.start as int, s.end as int)),
        None => None,
    }
}

/// A position as an integer.
pub open spec fn index_of(r: Option<usize>) -> Option<int> {
    match r {
        Some(k) => Some(k as int),
        None => None,
    }
}

/// The atoms of `query`, as the grammar reads them.
pub open spec fn atoms_of(query: Query) -> Seq<AtomSpec> {
    query.atoms@.map_values(|a: Atom| a.spec_of())
}

/// Whether `f` holds `note`'s fields: its body, title, path and aliases, each
/// scanned into its words.
pub open spec fn fields_of(f: Fields, note: Note) -> bool {
    &&& scanned(f.body@, note.body@)
    &&& scanned(f.path@, note.path@)
    &&& match note.title {
        Some(t) => scanned(f.title@, t@),
        None => f.title@.len() == 0,
    }
    &&& f.aliases@.len() == aliases_of(note).len()
    &&& forall|k: int|
        0 <= k < f.aliases@.len() ==> (#[trigger] f.aliases@[k]).0@ == aliases_of(note)[k] && scanned(
            f.aliases@[k].1@,
            aliases_of(note)[k],
        )
}

/// `a + b`, or the largest count when that overflows.
fn plus(a: usize, b: usize) -> (r: usize)
    ensures
        r == sat(a as nat, b as nat),
{
    if a <= usize::MAX - b {
        a + b
    } else {
        usize::MAX
    }
}

/// What matching one note against the whole query found.
pub struct Tally {
    /// The atoms that matched anything.
    pub matched_atoms: usize,
    /// The identity's occurrences.
    pub identity: usize,
    /// Every occurrence.
    pub occurrences: usize,
    /// The earliest body match, whichever atom found it.
    pub first_body: Option<Range<usize>>,
    /// The first alias in note order that anything matched.
    pub first_alias: Option<usize>,
}

/// Everything of one note a query is matched against, tokenized once.
pub struct Fields {
    /// The body's words.
    pub body: Vec<Token>,
    /// The title's words.
    pub title: Vec<Token>,
    /// The path's words.
    pub path: Vec<Token>,
    /// Each alias, with its words.
    pub aliases: Vec<(String, Vec<Token>)>,
}

impl Fields {
    /// The fields of `note`.
    pub fn of(note: &Note) -> (f: Fields)
        ensures
            fields_of(f, *note),
    {
        let title = match &note.title {
            Some(t) => scan(t.as_str()),
            None => Vec::new(),
        };
        let found = note.aliases();
        assert(found@.map_values(|s: String| s@) =~= aliases_of(*note));
        let mut aliases: Vec<(String, Vec<Token>)> = Vec::new();
        let mut i: usize = 0;
        while i < found.len()
            invariant
                i <= found@.len(),
                found@.map_values(|s: String| s@) == aliases_of(*note),
                aliases@.len() == i,
                forall|k: int|
                    0 <= k < i ==> (#[trigger] aliases@[k]).0@ == aliases_of(*note)[k] && scanned(
                        aliases@[k].1@,
                        aliases_of(*note)[k],
                    ),
            decreases found.len() - i,
        {
            let alias = found[i].clone();
            let words = scan(alias.as_str());
            aliases.push((alias, words));
            i = i + 1;
        }
        Fields { body: scan(note.body.as_str()), title, path: scan(note.path.as_str()), aliases }
    }

    /// The whole query, held against every field.
    pub fn tally(&self, query: &Query) -> (t: Tally)
        ensures
            (t.matched_atoms as nat, t.identity as nat, t.occurrences as nat) == tally_spec(atoms_of(*query), *self),
            t.first_alias matches Some(k) ==> k < self.aliases@.len(),
            span_of(t.first_body) == first_body_spec(atoms_of(*query), *self),
            index_of(t.first_alias) == first_alias_spec(atoms_of(*query), *self),
    {
        let ghost atoms = atoms_of(*query);
        let mut tally = Tally { matched_atoms: 0, identity: 0, occurrences: 0, first_body: None, first_alias: None };
        let mut i: usize = 0;
        while i < query.atoms.len()
            invariant
                i <= query.atoms@.len(),
                atoms == atoms_of(*query),
                (tally.matched_atoms as nat, tally.identity as nat, tally.occurrences as nat) == tally_spec(atoms.take(i as int), *self),
                tally.first_alias matches Some(k) ==> k < self.aliases@.len(),
                span_of(tally.first_body) == first_body_spec(atoms.take(i as int), *self),
                index_of(tally.first_alias) == first_alias_spec(atoms.take(i as int), *self),
            decreases query.atoms.len() - i,
        {
            assert(atoms.take(i + 1).drop_last() =~= atoms.take(i as int));
            assert(atoms.take(i + 1).last() == query.atoms@[i as int].spec_of());
            self.weigh(&query.atoms[i], &mut tally);
            i = i + 1;
        }
        assert(atoms.take(atoms.len() as int) =~= atoms);
        tally
    }

    /// One atom's occurrences across every field, folded into the tally.
    fn weigh(&self, atom: &Atom, tally: &mut Tally)
        requires
            old(tally).first_alias matches Some(k) ==> k < self.aliases@.len(),
        ensures
            (final(tally).matched_atoms as nat, final(tally).identity as nat, final(tally).occurrences as nat) == weighed(
                (old(tally).matched_atoms as nat, old(tally).identity as nat, old(tally).occurrences as nat),
                atom.spec_of(),
                *self,
            ),
            final(tally).first_alias matches Some(k) ==> k < self.aliases@.len(),
            span_of(final(tally).first_body) == earliest(span_of(old(tally).first_body), first_span(atom.spec_of(), self.body@)),
            index_of(final(tally).first_alias) == lesser(
                index_of(old(tally).first_alias),
                alias_first_upto(atom.spec_of(), self.aliases@, self.aliases@.len() as int),
            ),
    {
        let body = atom.count(&self.body);
        if body == 0 {
            proof {
                lemma_no_count_no_span(atom.spec_of(), self.body@);
            }
        }
        if body > 0 {
            match atom.first(&self.body) {
                Some(span) => {
                    let earlier = match &tally.first_body {
                        Some(seen) => span.start < seen.start,
                        None => true,
                    };
                    if earlier {
                        tally.first_body = Some(span);
                    }
                },
                None => {},
            }
        }
        let ghost body_first = tally.first_body;
        assert(span_of(body_first) == earliest(span_of(old(tally).first_body), first_span(atom.spec_of(), self.body@)));
        let title = atom.count(&self.title);
        let path = atom.count(&self.path);
        let mut aliases: usize = 0;
        let mut k: usize = 0;
        while k < self.aliases.len()
            invariant
                k <= self.aliases@.len(),
                tally.matched_atoms == old(tally).matched_atoms,
                tally.identity == old(tally).identity,
                tally.occurrences == old(tally).occurrences,
                tally.first_body == body_first,
                aliases as nat == alias_hits(atom.spec_of(), self.aliases@.take(k as int)),
                tally.first_alias matches Some(a) ==> a < self.aliases@.len(),
                index_of(tally.first_alias) == lesser(index_of(old(tally).first_alias), alias_first_upto(atom.spec_of(), self.aliases@, k as int)),
            decreases self.aliases.len() - k,
        {
            assert(self.aliases@.take(k + 1).drop_last() =~= self.aliases@.take(k as int));
            proof {
                lemma_alias_first_below(atom.spec_of(), self.aliases@, k as int);
            }
            let count = atom.count(&self.aliases[k].1);
            if count > 0 {
                let earlier = match tally.first_alias {
                    Some(seen) => k < seen,
                    None => true,
                };
                if earlier {
                    tally.first_alias = Some(k);
                }
            }
            aliases = plus(aliases, count);
            k = k + 1;
        }
        assert(self.aliases@.take(self.aliases@.len() as int) =~= self.aliases@);
        let identity = plus(plus(title, path), aliases);
        if body > 0 || identity > 0 {
            tally.matched_atoms = plus(tally.matched_atoms, 1);
        }
        tally.identity = plus(tally.identity, identity);
        tally.occurrences = plus(tally.occurrences, plus(body, identity));
    }

    /// The matched context a note is quoted by: the body around the first
    /// match, else the first matched alias, and nothing where the path alone
    /// matched.
    fn snippet(&self, note: &Note, tally: &Tally) -> (r: Option<String>)
        requires
            tally.first_alias matches Some(k) ==> k < self.aliases@.len(),
        ensures
            match span_of(tally.first_body) {
                Some(b) => r matches Some(x) && x@ == window_spec(note.body@, b.0, b.1),
                None => match tally.first_alias {
                    Some(k) => r matches Some(x) && x@ == self.aliases@[k as int].0@,
                    None => r.is_none(),
                },
            },
    {
        match &tally.first_body {
            Some(span) => Some(window(note.body.as_str(), span.start, span.end)),
            None => match tally.first_alias {
                Some(index) => Some(self.aliases[index].0.clone()),
                None => None,
            },
        }
    }
}

/// The first character boundary of `text`, from the `k`th on, that sits at
/// or after byte `at`; the last boundary when none does.
pub open spec fn first_boundary(text: Seq<char>, at: int, k: int) -> int
    decreases text.len() - k,
{
    if k >= text.len() || byte_len(text.take(k)) >= at {
        k
    } else {
        first_boundary(text, at, k + 1)
    }
}

/// The character boundaries on either side of byte `at`: the last at or
/// before it, and the first at or after it.
pub open spec fn around(text: Seq<char>, at: int) -> (int, int) {
    let k = first_boundary(text, at, 0);
    if byte_len(text.take(k)) > at && k > 0 {
        (k - 1, k)
    } else {
        (k, k)
    }
}

/// The note's own text around the bytes `start..end`: up to the context on
/// each side, widened to character boundaries, trimmed, with an ellipsis
/// marking each cut edge.
pub open spec fn window_spec(body: Seq<char>, start: int, end: int) -> Seq<char> {
    let total = byte_len(body) as int;
    let context = SNIPPET_CONTEXT as int;
    let low = if start > context { start - context } else { 0 };
    let high = if total >= context && end <= total - context { end + context } else { total };
    let to = if around(body, high).1 > body.len() { body.len() as int } else { around(body, high).1 };
    let from = if around(body, low).0 > to { to } else { around(body, low).0 };
    let quoted = crate::note::body::trim_start_spec(crate::note::body::trim_end_spec(body.subrange(from, to)));
    (if from > 0 { seq!['…'] } else { Seq::empty() }) + quoted + (if to < body.len() { seq!['…'] } else { Seq::empty() })
}

/// The boundaries around byte `at`, over the boundary offsets of `text`.
fn boundaries(offsets: &Vec<usize>, at: usize, Ghost(text): Ghost<Seq<char>>) -> (r: (usize, usize))
    requires
        offsets@.len() == text.len() + 1,
        forall|i: int| 0 <= i <= text.len() ==> #[trigger] offsets@[i] == byte_len(text.take(i)),
    ensures
        r.0 <= r.1 < offsets@.len(),
        (r.0 as int, r.1 as int) == around(text, at as int),
{
    let mut k: usize = 0;
    while k < offsets.len() - 1 && offsets[k] < at
        invariant
            k < offsets@.len(),
            offsets@.len() == text.len() + 1,
            forall|i: int| 0 <= i <= text.len() ==> #[trigger] offsets@[i] == byte_len(text.take(i)),
            first_boundary(text, at as int, 0) == first_boundary(text, at as int, k as int),
        decreases offsets.len() - k,
    {
        k = k + 1;
    }
    assert(first_boundary(text, at as int, k as int) == k);
    if offsets[k] > at && k > 0 {
        (k - 1, k)
    } else {
        (k, k)
    }
}

/// The note's own text around the byte range `start..end`: up to
/// [`SNIPPET_CONTEXT`] bytes on each side, widened to character boundaries,
/// trimmed, with an ellipsis marking each cut edge.
pub fn window(body: &str, start: usize, end: usize) -> (r: String)
    ensures
        r@ == window_spec(body@, start as int, end as int),
{
    let (chars, offsets) = byte_offsets(body);
    let total = offsets[chars.len()];
    assert(chars@.take(chars@.len() as int) =~= chars@);
    let low = if start > SNIPPET_CONTEXT { start - SNIPPET_CONTEXT } else { 0 };
    let high = if total >= SNIPPET_CONTEXT && end <= total - SNIPPET_CONTEXT { end + SNIPPET_CONTEXT } else { total };
    let (from, _) = boundaries(&offsets, low, Ghost(chars@));
    let (_, to) = boundaries(&offsets, high, Ghost(chars@));
    let to = if to > chars.len() { chars.len() } else { to };
    let from = if from > to { to } else { from };
    let quoted = trim_start(&trim_end(&slice(&chars, from, to)));
    let mut out: Vec<char> = Vec::new();
    if from > 0 {
        out.push('…');
    }
    let ghost head = out@;
    let mut i: usize = 0;
    while i < quoted.len()
        invariant
            i <= quoted@.len(),
            out@ == head + quoted@.take(i as int),
        decreases quoted.len() - i,
    {
        out.push(quoted[i]);
        i = i + 1;
        assert(out@ =~= head + quoted@.take(i as int));
    }
    assert(quoted@.take(quoted@.len() as int) =~= quoted@);
    if to < chars.len() {
        out.push('…');
    }
    assert(out@ =~= window_spec(body@, start as int, end as int));
    string_of(&out)
}

/// Whether `r` is what holding `note` against `atoms` answers: a scored hit
/// iff any atom matched, carrying the tally of the note's fields, its path,
/// its bound type, and its snippet: the body around the earliest body match,
/// else the first alias anything matched, else nothing.
pub open spec fn evaluates(note: Note, atoms: Seq<AtomSpec>, r: Option<Scored>) -> bool {
    exists|f: Fields| #[trigger] fields_of(f, note) && {
        let t = tally_spec(atoms, f);
        &&& r.is_some() <==> t.0 > 0
        &&& r matches Some(s) ==> {
            &&& s.relevance.matched_atoms == t.0
            &&& s.relevance.identity == t.1
            &&& s.relevance.occurrences == t.2
            &&& s.hit.path@ == note.path@
            &&& match crate::note::list::bound_name(note.binding) {
                Some(n) => s.hit.bound_type matches Some(b) && b@ == n,
                None => s.hit.bound_type.is_none(),
            }
            &&& match first_body_spec(atoms, f) {
                Some(b) => s.hit.snippet matches Some(x) && x@ == window_spec(note.body@, b.0, b.1),
                None => match first_alias_spec(atoms, f) {
                    Some(k) => s.hit.snippet matches Some(x) && 0 <= k < aliases_of(note).len() && x@ == aliases_of(note)[k],
                    None => s.hit.snippet.is_none(),
                },
            }
        }
    }
}

/// Whether `scored` holds the matches among `notes`, in note order: `picked`
/// says which note each came from; every picked note satisfies the filters
/// and matched, and every other note that satisfies the filters matched
/// nothing.
pub open spec fn picks(
    notes: Seq<Note>,
    contract: Contract,
    filter: ListFilter,
    atoms: Seq<AtomSpec>,
    scored: Seq<Scored>,
    picked: Seq<int>,
    upto: int,
) -> bool {
    &&& picked.len() == scored.len()
    &&& forall|a: int, b: int| 0 <= a < b < picked.len() ==> #[trigger] picked[a] < #[trigger] picked[b]
    &&& forall|a: int|
        0 <= a < picked.len() ==> 0 <= #[trigger] picked[a] < upto && matches_spec(notes[picked[a]], contract, filter)
            && evaluates(notes[picked[a]], atoms, Some(scored[a]))
    &&& forall|j: int|
        0 <= j < upto && matches_spec(#[trigger] notes[j], contract, filter) && !picked.contains(j) ==> evaluates(
            notes[j],
            atoms,
            None,
        )
}

/// Whether `r`'s hits are the best `limit` of `ordered`, in order.
pub open spec fn best_of(r: SearchResult, ordered: Seq<Scored>, limit: usize) -> bool {
    &&& r.hits@.len() == if ordered.len() < limit { ordered.len() } else { limit as nat }
    &&& forall|k: int| 0 <= k < r.hits@.len() ==> #[trigger] r.hits@[k] == ordered[k].hit
}

/// Whether `r` answers a search of `notes`, read in path order, for `atoms`
/// under `filter`: the matches, ranked, cut to `limit`.
pub open spec fn answers(
    r: SearchResult,
    contract: Contract,
    filter: ListFilter,
    limit: usize,
    atoms: Seq<AtomSpec>,
    notes: Seq<Note>,
    scored: Seq<Scored>,
    picked: Seq<int>,
    ordered: Seq<Scored>,
) -> bool {
    &&& forall|i: int, j: int| 0 <= i < j < notes.len() ==> !precedes((#[trigger] notes[j]).path@, (#[trigger] notes[i]).path@)
    &&& picks(notes, contract, filter, atoms, scored, picked, notes.len() as int)
    &&& ordered.to_multiset() == scored.to_multiset()
    &&& ranked(ordered)
    &&& best_of(r, ordered, limit)
}

/// Holds `note` against `query`, answering a scored hit iff anything matched.
pub fn evaluate(note: &Note, query: &Query) -> (r: Option<Scored>)
    ensures
        evaluates(*note, atoms_of(*query), r),
{
    let fields = Fields::of(note);
    let tally = fields.tally(query);
    assert(fields_of(fields, *note));
    if tally.matched_atoms == 0 {
        return None;
    }
    let bound = match note.binding.bound_type() {
        Some(name) => Some(String::from_str(name)),
        None => None,
    };
    let snippet = fields.snippet(note, &tally);
    Some(Scored {
        relevance: Relevance {
            matched_atoms: tally.matched_atoms,
            identity: tally.identity,
            occurrences: tally.occurrences,
        },
        hit: SearchHit { path: note.path.copy(), bound_type: bound, snippet },
    })
}

/// What refuses a search before anything is read: a query the grammar
/// cannot read, then a lifecycle filter against a corpus declaring no axis.
fn refusals(parsed: &Result<Query, query::QueryFault>, text: &str, contract: &Contract, filter: &ListFilter) -> (faults: Vec<Diagnostic>)
    ensures
        faults@.len() == (if parsed is Err { 1int } else { 0int }) + (if crate::note::list::lifecycle_requested(*filter)
            && contract.lifecycle is NoAxis { 1int } else { 0int }),
        parsed is Err ==> faults@[0].id == KernelDiagnostic::SearchInvalidQuery,
        crate::note::list::lifecycle_requested(*filter) && contract.lifecycle is NoAxis ==> faults@[faults@.len() - 1].id
            == KernelDiagnostic::NoteLifecycleAxisAbsent,
        forall|k: int| 0 <= k < faults@.len() ==> (#[trigger] faults@[k]).location.is_none(),
{
    let mut faults: Vec<Diagnostic> = Vec::new();
    match parsed {
        Ok(_) => {},
        Err(fault) => faults.push(fault.diagnostic(text)),
    }
    match axis_refusal(contract, filter) {
        Some(refused) => faults.push(refused),
        None => {},
    }
    faults
}

/// Findings in the total order, none lost.
fn in_order(faults: Vec<Diagnostic>) -> (r: Vec<Diagnostic>)
    ensures
        is_sorted(r@),
        r@.len() == faults@.len(),
        forall|k: int| 0 <= k < faults@.len() ==> r@.contains(#[trigger] faults@[k]),
        forall|k: int| 0 <= k < r@.len() ==> faults@.contains(#[trigger] r@[k]),
{
    broadcast use vstd::seq_lib::group_to_multiset_ensures;

    let ghost given = faults@;
    let r = sorted(faults);
    proof {
        vstd::seq_lib::to_multiset_len(given);
        vstd::seq_lib::to_multiset_len(r@);
    }
    assert forall|k: int| 0 <= k < given.len() implies r@.contains(#[trigger] given[k]) by {
        vstd::seq_lib::to_multiset_contains(given, given[k]);
        vstd::seq_lib::to_multiset_contains(r@, given[k]);
        assert(given.contains(given[k]));
    }
    assert forall|k: int| 0 <= k < r@.len() implies given.contains(#[trigger] r@[k]) by {
        vstd::seq_lib::to_multiset_contains(given, r@[k]);
        vstd::seq_lib::to_multiset_contains(r@, r@[k]);
        assert(r@.contains(r@[k]));
    }
    r
}

/// Searches the notes a walk listed for what `request` asks. A query the
/// grammar cannot read, and a lifecycle filter against a corpus declaring no
/// axis, are refused before anything is read, every fault reported; an empty
/// result is a result, not a diagnostic.
pub fn search(listing: Listing, contract: &Contract, request: &SearchRequest) -> (r: SearchResult)
    ensures
        crate::note::list::lifecycle_requested(request.filter) && contract.lifecycle is NoAxis ==> r.hits@.len() == 0,
        match query::parse_spec(request.query@) {
            Err(_) => r.hits@.len() == 0,
            Ok(atoms) => !(crate::note::list::lifecycle_requested(request.filter) && contract.lifecycle is NoAxis)
                ==> exists|c: Corpus, scored: Seq<Scored>, picked: Seq<int>, ordered: Seq<Scored>|
                #![trigger corpus_of(listing, *contract, c), answers(r, *contract, request.filter, request.limit, atoms, c.notes@, scored, picked, ordered)]
                {
                    &&& corpus_of(listing, *contract, c)
                    &&& answers(r, *contract, request.filter, request.limit, atoms, c.notes@, scored, picked, ordered)
                    &&& r.diagnostics@ == c.diagnostics@
                },
        },
        ({
            let malformed = query::parse_spec(request.query@) is Err;
            let refused = crate::note::list::lifecycle_requested(request.filter) && contract.lifecycle is NoAxis;
            &&& malformed || refused ==> r.diagnostics@.len() == (if malformed { 1int } else { 0int }) + (if refused { 1int } else { 0int })
            &&& malformed ==> exists|k: int| 0 <= k < r.diagnostics@.len() && (#[trigger] r.diagnostics@[k]).id == KernelDiagnostic::SearchInvalidQuery
            &&& refused ==> exists|k: int| 0 <= k < r.diagnostics@.len() && (#[trigger] r.diagnostics@[k]).id == KernelDiagnostic::NoteLifecycleAxisAbsent
            &&& malformed || refused ==> forall|k: int| 0 <= k < r.diagnostics@.len() ==> (#[trigger] r.diagnostics@[k]).location.is_none()
        }),
        r.hits@.len() <= request.limit,
        is_sorted(r.diagnostics@),
{
    let ghost given = listing;
    let parsed = query::parse(request.query.as_str());
    let faults = refusals(&parsed, request.query.as_str(), contract, &request.filter);
    if faults.len() > 0 {
        let ghost found = faults@;
        let diagnostics = in_order(faults);
        let r = SearchResult { hits: Vec::new(), diagnostics };
        assert(r.diagnostics@.contains(found[0]));
        assert(r.diagnostics@.contains(found[found.len() - 1]));
        assert forall|k: int| 0 <= k < r.diagnostics@.len() implies (#[trigger] r.diagnostics@[k]).location.is_none() by {
            assert(found.contains(r.diagnostics@[k]));
        }
        return r;
    }
    let query = match parsed {
        Ok(query) => query,
        Err(_) => return SearchResult { hits: Vec::new(), diagnostics: faults },
    };
    let corpus = read_corpus(listing, contract);
    let ghost c = corpus;
    let r = answer(corpus, contract, request, &query);
    proof {
        let atoms = atoms_of(query);
        let (scored, picked, ordered) = choose|scored: Seq<Scored>, picked: Seq<int>, ordered: Seq<Scored>|
            #[trigger] answers(r, *contract, request.filter, request.limit, atoms, c.notes@, scored, picked, ordered);
        assert(corpus_of(given, *contract, c));
        assert(answers(r, *contract, request.filter, request.limit, atoms, c.notes@, scored, picked, ordered));
    }
    r
}

/// Holds every note of a corpus against a readable query, under the filters,
/// and keeps the best-ranked hits up to the cap.
fn answer(corpus: Corpus, contract: &Contract, request: &SearchRequest, query: &Query) -> (r: SearchResult)
    requires
        forall|i: int, j: int|
            0 <= i < j < corpus.notes@.len() ==> !precedes((#[trigger] corpus.notes@[j]).path@, (#[trigger] corpus.notes@[i]).path@),
    ensures
        exists|scored: Seq<Scored>, picked: Seq<int>, ordered: Seq<Scored>|
            #[trigger] answers(r, *contract, request.filter, request.limit, atoms_of(*query), corpus.notes@, scored, picked, ordered),
        r.diagnostics@ == corpus.diagnostics@,
        r.hits@.len() <= request.limit,
{
    let ghost atoms = atoms_of(*query);
    let mut scored: Vec<Scored> = Vec::new();
    let ghost mut picked: Seq<int> = Seq::empty();
    let mut i: usize = 0;
    while i < corpus.notes.len()
        invariant
            i <= corpus.notes@.len(),
            atoms == atoms_of(*query),
            picks(corpus.notes@, *contract, request.filter, atoms, scored@, picked, i as int),
        decreases corpus.notes.len() - i,
    {
        let note = &corpus.notes[i];
        if admits(note, contract, &request.filter) {
            match evaluate(note, query) {
                Some(s) => {
                    let ghost before = scored@;
                    let ghost was = picked;
                    scored.push(s);
                    proof {
                        picked = picked.push(i as int);
                        assert forall|j: int|
                            0 <= j < i + 1 && matches_spec(#[trigger] corpus.notes@[j], *contract, request.filter)
                                && !picked.contains(j) implies evaluates(corpus.notes@[j], atoms, None) by {
                            if j < i {
                                assert(!was.contains(j)) by {
                                    if was.contains(j) {
                                        let a = choose|a: int| 0 <= a < was.len() && was[a] == j;
                                        assert(picked[a] == j);
                                    }
                                }
                            } else {
                                assert(picked[picked.len() - 1] == j);
                            }
                        }
                        assert forall|a: int| 0 <= a < picked.len() implies 0 <= #[trigger] picked[a] < i + 1
                            && matches_spec(corpus.notes@[picked[a]], *contract, request.filter) && evaluates(
                            corpus.notes@[picked[a]],
                            atoms,
                            Some(scored@[a]),
                        ) by {
                            if a < was.len() {
                                assert(scored@[a] == before[a]);
                            }
                        }
                    }
                },
                None => {
                    proof {
                        assert forall|j: int|
                            0 <= j < i + 1 && matches_spec(#[trigger] corpus.notes@[j], *contract, request.filter)
                                && !picked.contains(j) implies evaluates(corpus.notes@[j], atoms, None) by {}
                    }
                },
            }
        } else {
            proof {
                assert forall|j: int|
                    0 <= j < i + 1 && matches_spec(#[trigger] corpus.notes@[j], *contract, request.filter)
                        && !picked.contains(j) implies evaluates(corpus.notes@[j], atoms, None) by {}
            }
        }
        i = i + 1;
    }
    let ghost all = scored@;
    let ordered = rank(scored);
    let ghost ranked_seq = ordered@;
    let mut hits: Vec<SearchHit> = Vec::new();
    let mut rest = ordered;
    while rest.len() > 0 && hits.len() < request.limit
        invariant
            hits@.len() <= request.limit,
            hits@.len() <= ranked_seq.len(),
            rest@ == ranked_seq.skip(hits@.len() as int),
            forall|k: int| 0 <= k < hits@.len() ==> #[trigger] hits@[k] == ranked_seq[k].hit,
        decreases rest@.len(),
    {
        let ghost n: int = hits@.len() as int;
        let best = rest.remove(0);
        assert(best == ranked_seq[n]);
        hits.push(best.hit);
        assert(rest@ =~= ranked_seq.skip(n + 1));
    }
    let r = SearchResult { hits, diagnostics: corpus.diagnostics };
    assert(best_of(r, ranked_seq, request.limit));
    assert(answers(r, *contract, request.filter, request.limit, atoms, corpus.notes@, all, picked, ranked_seq));
    r
}

} // verus!
