//! The public document model: what a note is, and what reading one answers.

pub mod body;
pub mod encoding;
pub mod find;
pub mod findings;
pub mod frontmatter;
pub mod index;
pub mod lexical;
pub mod links;
pub mod list;
pub mod model;
pub mod read;
pub mod values;
pub mod resolve;
pub mod search;
pub mod traverse;
pub mod validate;

use vstd::prelude::*;

use crate::chars::precedes;
use crate::contract::Contract;
use crate::diagnostic::{Diagnostic, VaultPath, is_sorted, sorted};

pub use model::{
    Binding, Edge, FieldValue, Note, Property, PropertyValue, RecordValue, Reference, Relationship,
};
pub use resolve::UnresolvedReference;
pub use traverse::{Traversal, traverse};

verus! {

/// Every note in a vault, read against its contract.
#[derive(Clone, Debug, PartialEq, Eq)]
pub struct Corpus {
    /// Every note that could be read, in vault-relative path order.
    pub notes: Vec<Note>,
    /// Everything reading the corpus reported, in the total order.
    pub diagnostics: Vec<Diagnostic>,
}

impl Corpus {
    /// Every note that could be read, in vault-relative path order.
    pub fn notes(&self) -> (r: &[Note])
        ensures
            r@ == self.notes@,
    {
        self.notes.as_slice()
    }

    /// The note at a vault-relative path.
    pub fn note(&self, path: &VaultPath) -> (r: Option<&Note>)
        ensures
            match r {
                Some(n) => n.path@ == path@ && exists|i: int| 0 <= i < self.notes@.len() && self.notes@[i] == *n,
                None => forall|i: int| 0 <= i < self.notes@.len() ==> (#[trigger] self.notes@[i]).path@ != path@,
            },
    {
        let wanted = path.chars();
        let mut i: usize = 0;
        while i < self.notes.len()
            invariant
                i <= self.notes@.len(),
                wanted@ == path@,
                forall|k: int| 0 <= k < i ==> (#[trigger] self.notes@[k]).path@ != path@,
            decreases self.notes.len() - i,
        {
            let here = self.notes[i].path.chars();
            if crate::chars::same(&here, &wanted) {
                return Some(&self.notes[i]);
            }
            i = i + 1;
        }
        None
    }

    /// The note a reference names, by the one rule every door obeys: a
    /// reference with no `/` that does not end in `.md` is a bare name and
    /// resolves iff exactly one note bears it; one with a `/`, or ending in
    /// `.md`, is path-qualified, with `.md` appended when absent.
    pub fn resolve(&self, reference: &str) -> (r: Result<&Note, UnresolvedReference>)
        ensures
            ({
                let (one, several) = index::resolution_spec(
                    index::names_of(self.notes@),
                    index::paths_of(self.notes@),
                    reference@,
                );
                match r {
                    Ok(note) => one matches Some(at) && *note == self.notes@[at as int],
                    Err(refused) => one.is_none() && refused.written() == reference@ && refused.met()
                        == several.map_values(|at: usize| self.notes@[at as int].path@),
                }
            }),
    {
        resolve::reference(self.notes.as_slice(), reference)
    }

    /// Everything reading the corpus reported, in the total order.
    pub fn diagnostics(&self) -> (r: &[Diagnostic])
        ensures
            r@ == self.diagnostics@,
    {
        self.diagnostics.as_slice()
    }
}

/// What a walk of a vault root found: every file it listed that is not a
/// symlink, by vault-relative path and with its bytes, and every directory it
/// could not read, already reported.
#[derive(Clone, Debug, PartialEq, Eq)]
pub struct Listing {
    /// The files, by vault-relative path, with their bytes.
    pub files: Vec<(VaultPath, Vec<u8>)>,
    /// What the walk could not read.
    pub unreadable: Vec<Diagnostic>,
}

/// Whether bytes are the UTF-8 spelling of some text.
pub open spec fn readable(bytes: Seq<u8>) -> bool {
    exists|text: Seq<char>| #[trigger] encoding::utf8(text) == bytes
}

/// Whether `n` is a note read from one of `files`: a note path listed there,
/// read from its text against `contract`.
pub open spec fn read_from(files: Seq<(VaultPath, Vec<u8>)>, contract: Contract, n: Note) -> bool {
    exists|m: int|
        #![trigger files[m]]
        0 <= m < files.len() && files[m].0@ == n.path@ && traverse::note_path(n.path@) && exists|text: Seq<char>|
            #[trigger] encoding::utf8(text) == files[m].1@ && read::reads_text(n, contract, n.path@, text)
}

/// Whether `c` is the corpus `listing` reads to against `contract`, where
/// `before` are its notes as read, before resolution: each note is read from
/// one listed note file and then resolved against all of them; every
/// readable note file gives a note; and every finding of the walk and of
/// resolution is reported.
pub open spec fn reads_corpus(listing: Listing, contract: Contract, before: Seq<Note>, c: Corpus) -> bool {
    let names = index::names_of(before);
    let paths = index::paths_of(before);
    let dialect = contract.dialect.links;
    &&& before.len() == c.notes@.len()
    &&& forall|i: int| 0 <= i < before.len() ==> read_from(listing.files@, contract, #[trigger] before[i])
    &&& forall|i: int| 0 <= i < before.len() ==> resolve::resolved_note(dialect, names, paths, before[i], #[trigger] c.notes@[i])
    &&& forall|m: int|
        0 <= m < listing.files@.len() && traverse::note_path(listing.files@[m].0@) && readable(
            #[trigger] listing.files@[m].1@,
        ) ==> exists|i: int| 0 <= i < c.notes@.len() && (#[trigger] c.notes@[i]).path@ == listing.files@[m].0@
    &&& exists|reported: Seq<Diagnostic>|
        #[trigger] resolve::extends(dialect, Seq::empty(), reported, resolve::corpus_misses(dialect, names, paths, before))
            && forall|k: int| 0 <= k < reported.len() ==> c.diagnostics@.contains(#[trigger] reported[k])
    &&& forall|k: int| 0 <= k < listing.unreadable@.len() ==> c.diagnostics@.contains(#[trigger] listing.unreadable@[k])
}

/// Whether every finding reading the note file `file` against `contract`
/// reports is among `reported`.
pub open spec fn reports_file(file: (VaultPath, Vec<u8>), contract: Contract, reported: Seq<Diagnostic>) -> bool {
    exists|n: Option<Note>, d: Seq<Diagnostic>|
        #[trigger] read::reads_bytes(n, d, contract, file.0@, file.1@) && forall|k: int|
            0 <= k < d.len() ==> reported.contains(#[trigger] d[k])
}

/// Whether no two of `files` share a path, as no walk lists one path twice.
pub open spec fn distinct_paths(files: Seq<(VaultPath, Vec<u8>)>) -> bool {
    forall|a: int, b: int| 0 <= a < b < files.len() ==> (#[trigger] files[a]).0@ != (#[trigger] files[b]).0@
}

/// Whether `c` is what reading `listing` against `contract` gives: its notes
/// are read from the listed note files and resolved, in path order, one
/// note to a path where the walk listed each path once, and every finding
/// is reported, each note's among them, in the total order.
pub open spec fn corpus_of(listing: Listing, contract: Contract, c: Corpus) -> bool {
    &&& forall|i: int| 0 <= i < c.notes@.len() ==> traverse::note_path((#[trigger] c.notes@[i]).path@)
    &&& forall|i: int, j: int|
        0 <= i < j < c.notes@.len() ==> !precedes((#[trigger] c.notes@[j]).path@, (#[trigger] c.notes@[i]).path@)
    &&& distinct_paths(listing.files@) ==> forall|i: int, j: int|
        0 <= i < j < c.notes@.len() ==> (#[trigger] c.notes@[i]).path@ != (#[trigger] c.notes@[j]).path@
    &&& forall|m: int|
        0 <= m < listing.files@.len() && traverse::note_path((#[trigger] listing.files@[m]).0@) ==> reports_file(
            listing.files@[m],
            contract,
            c.diagnostics@,
        )
    &&& is_sorted(c.diagnostics@)
    &&& exists|before: Seq<Note>| #[trigger] reads_corpus(listing, contract, before, c)
}

/// What the notes read so far reported stays reported when the next one's
/// findings follow them.
proof fn lemma_reports_kept(
    ordered: Seq<(VaultPath, Vec<u8>)>,
    i: int,
    contract: Contract,
    start: Seq<Diagnostic>,
    said: Seq<Diagnostic>,
    got: Option<Note>,
)
    requires
        0 <= i < ordered.len(),
        forall|m: int| 0 <= m < i ==> reports_file(#[trigger] ordered[m], contract, start),
        read::reads_bytes(got, said, contract, ordered[i].0@, ordered[i].1@),
    ensures
        forall|m: int| 0 <= m < i + 1 ==> reports_file(#[trigger] ordered[m], contract, start + said),
{
    let found = start + said;
    assert forall|x: Diagnostic| start.contains(x) implies found.contains(x) by {
        let w = choose|w: int| 0 <= w < start.len() && start[w] == x;
        assert(found[w] == x);
    }
    assert forall|m: int| 0 <= m < i + 1 implies reports_file(#[trigger] ordered[m], contract, found) by {
        if m < i {
            let (n, d) = choose|n: Option<Note>, d: Seq<Diagnostic>|
                #[trigger] read::reads_bytes(n, d, contract, ordered[m].0@, ordered[m].1@) && forall|k: int|
                    0 <= k < d.len() ==> start.contains(#[trigger] d[k]);
            assert forall|k: int| 0 <= k < d.len() implies found.contains(#[trigger] d[k]) by {
                assert(start.contains(d[k]));
            }
        } else {
            assert forall|k: int| 0 <= k < said.len() implies found.contains(#[trigger] said[k]) by {
                assert(found[start.len() + k] == said[k]);
            }
            assert(read::reads_bytes(got, said, contract, ordered[m].0@, ordered[m].1@));
        }
    }
}

/// Every listed note file is among those read, so what each reported is
/// among what the corpus reports.
proof fn lemma_reports_all(
    files: Seq<(VaultPath, Vec<u8>)>,
    ordered: Seq<(VaultPath, Vec<u8>)>,
    before: Seq<(VaultPath, Vec<u8>)>,
    contract: Contract,
    base: Seq<Diagnostic>,
    diagnostics: Seq<Diagnostic>,
)
    requires
        forall|m: int| 0 <= m < files.len() && traverse::note_path((#[trigger] files[m]).0@) ==> before.contains(files[m]),
        ordered.to_multiset() == before.to_multiset(),
        forall|o: int| 0 <= o < ordered.len() ==> reports_file(#[trigger] ordered[o], contract, base),
        forall|x: Diagnostic| base.contains(x) ==> diagnostics.contains(x),
    ensures
        forall|m: int|
            0 <= m < files.len() && traverse::note_path((#[trigger] files[m]).0@) ==> reports_file(files[m], contract, diagnostics),
{
    assert forall|m: int| 0 <= m < files.len() && traverse::note_path((#[trigger] files[m]).0@) implies reports_file(
        files[m],
        contract,
        diagnostics,
    ) by {
        vstd::seq_lib::to_multiset_contains(before, files[m]);
        vstd::seq_lib::to_multiset_contains(ordered, files[m]);
        let o = choose|o: int| 0 <= o < ordered.len() && ordered[o] == files[m];
        assert(reports_file(ordered[o], contract, base));
        let (n, d) = choose|n: Option<Note>, d: Seq<Diagnostic>|
            #[trigger] read::reads_bytes(n, d, contract, ordered[o].0@, ordered[o].1@) && forall|k: int|
                0 <= k < d.len() ==> base.contains(#[trigger] d[k]);
        assert forall|k: int| 0 <= k < d.len() implies diagnostics.contains(#[trigger] d[k]) by {
            assert(base.contains(d[k]));
        }
    }
}

/// Where no two listed files share a path, no two files among `ordered`,
/// each listed and none twice, share one.
proof fn lemma_ordered_distinct(files: Seq<(VaultPath, Vec<u8>)>, ordered: Seq<(VaultPath, Vec<u8>)>)
    requires
        distinct_paths(files),
        ordered.no_duplicates(),
        forall|k: int| 0 <= k < ordered.len() ==> files.contains(#[trigger] ordered[k]),
    ensures
        forall|a: int, b: int| 0 <= a < b < ordered.len() ==> (#[trigger] ordered[a]).0@ != (#[trigger] ordered[b]).0@,
{
    assert forall|a: int, b: int| 0 <= a < b < ordered.len() implies (#[trigger] ordered[a]).0@ != (#[trigger] ordered[b]).0@ by {
        assert(files.contains(ordered[a]) && files.contains(ordered[b]));
        let ma = choose|m: int| 0 <= m < files.len() && files[m] == ordered[a];
        let mb = choose|m: int| 0 <= m < files.len() && files[m] == ordered[b];
        if ma < mb {
            assert(files[ma].0@ != files[mb].0@);
        } else if mb < ma {
            assert(files[mb].0@ != files[ma].0@);
        }
    }
}

/// Reads every note among a walk's files against `contract`. A note that cannot be
/// read is a diagnostic against that note and the rest of the corpus is read
/// anyway; resolution runs last, because which note a reference names is a
/// fact about the whole corpus.
#[verifier::spinoff_prover]
#[verifier::rlimit(40)]
pub fn read_corpus(listing: Listing, contract: &Contract) -> (c: Corpus)
    ensures
        forall|i: int| 0 <= i < c.notes@.len() ==> traverse::note_path((#[trigger] c.notes@[i]).path@),
        forall|i: int, j: int|
            0 <= i < j < c.notes@.len() ==> !precedes((#[trigger] c.notes@[j]).path@, (#[trigger] c.notes@[i]).path@),
        is_sorted(c.diagnostics@),
        exists|before: Seq<Note>| #[trigger] reads_corpus(listing, *contract, before, c),
        corpus_of(listing, *contract, c),
{
    broadcast use vstd::seq_lib::group_to_multiset_ensures;

    let ghost given = listing;
    let ghost files = listing.files@;
    let ghost unreadable = listing.unreadable@;
    let mut wanted: Vec<(VaultPath, Vec<u8>)> = Vec::new();
    let mut rest = listing.files;
    while rest.len() > 0
        invariant
            rest@.len() <= files.len(),
            rest@ == files.skip(files.len() - rest@.len()),
            forall|k: int| 0 <= k < wanted@.len() ==> traverse::note_path((#[trigger] wanted@[k]).0@),
            forall|k: int| 0 <= k < wanted@.len() ==> files.contains(#[trigger] wanted@[k]),
            forall|m: int|
                0 <= m < files.len() - rest@.len() && traverse::note_path((#[trigger] files[m]).0@) ==> wanted@.contains(files[m]),
            distinct_paths(files) ==> forall|k: int, m: int|
                0 <= k < wanted@.len() && files.len() - rest@.len() <= m < files.len() ==> (#[trigger] wanted@[k]).0@
                    != (#[trigger] files[m]).0@,
            distinct_paths(files) ==> wanted@.no_duplicates(),
        decreases rest@.len(),
    {
        let ghost taken = files.len() - rest@.len();
        let ghost prior = wanted@;
        let file = rest.remove(0);
        assert(file == files[taken]);
        assert(rest@ =~= files.skip(taken + 1));
        if traverse::is_note(file.0.as_str()) {
            wanted.push(file);
            assert(wanted@[prior.len() as int] == files[taken]);
        }
        assert forall|k: int| 0 <= k < wanted@.len() implies files.contains(#[trigger] wanted@[k]) by {
            if k < prior.len() {
                assert(wanted@[k] == prior[k]);
            } else {
                assert(files[taken] == wanted@[k]);
            }
        }
        assert(distinct_paths(files) ==> forall|k: int, m: int|
            0 <= k < wanted@.len() && taken + 1 <= m < files.len() ==> (#[trigger] wanted@[k]).0@ != (#[trigger] files[m]).0@) by {
            if distinct_paths(files) {
                assert forall|k: int, m: int| 0 <= k < wanted@.len() && taken + 1 <= m < files.len() implies (#[trigger] wanted@[k]).0@
                    != (#[trigger] files[m]).0@ by {
                    if k < prior.len() {
                        assert(wanted@[k] == prior[k]);
                    } else {
                        assert(wanted@[k] == files[taken]);
                    }
                }
            }
        }
        assert(distinct_paths(files) ==> wanted@.no_duplicates()) by {
            if distinct_paths(files) {
                assert forall|a: int, b: int| 0 <= a < wanted@.len() && 0 <= b < wanted@.len() && a != b implies wanted@[a] != wanted@[b] by {
                    if a < prior.len() && b < prior.len() {
                        assert(wanted@[a] == prior[a] && wanted@[b] == prior[b]);
                    } else if a < prior.len() {
                        assert(wanted@[a] == prior[a]);
                        assert(prior[a].0@ != files[taken].0@);
                    } else if b < prior.len() {
                        assert(wanted@[b] == prior[b]);
                        assert(prior[b].0@ != files[taken].0@);
                    }
                }
            }
        }
        assert forall|m: int| 0 <= m < taken + 1 && traverse::note_path((#[trigger] files[m]).0@) implies wanted@.contains(files[m]) by {
            if m < taken {
                assert(prior.contains(files[m]));
                let w = choose|w: int| 0 <= w < prior.len() && prior[w] == files[m];
                assert(wanted@[w] == files[m]);
            } else {
                assert(wanted@[prior.len() as int] == files[m]);
            }
        }
    }
    let ghost before = wanted@;
    let ordered = traverse::by_path(wanted);
    proof {
        assert forall|k: int| 0 <= k < ordered@.len() implies traverse::note_path((#[trigger] ordered@[k]).0@) && files.contains(ordered@[k]) by {
            vstd::seq_lib::to_multiset_contains(ordered@, ordered@[k]);
            vstd::seq_lib::to_multiset_contains(before, ordered@[k]);
            assert(ordered@.contains(ordered@[k]));
            let w = choose|w: int| 0 <= w < before.len() && before[w] == ordered@[k];
        }
    }
    proof {
        if distinct_paths(files) {
            before.lemma_multiset_has_no_duplicates();
            ordered@.lemma_multiset_has_no_duplicates_conv();
            lemma_ordered_distinct(files, ordered@);
        }
    }
    let mut notes: Vec<Note> = Vec::new();
    let mut found: Vec<Diagnostic> = listing.unreadable;
    let mut i: usize = 0;
    while i < ordered.len()
        invariant
            i <= ordered@.len(),
            forall|k: int| 0 <= k < ordered@.len() ==> traverse::note_path((#[trigger] ordered@[k]).0@) && files.contains(ordered@[k]),
            traverse::path_ordered(ordered@),
            forall|k: int| 0 <= k < notes@.len() ==> exists|m: int| 0 <= m < i && (#[trigger] notes@[k]).path@ == ordered@[m].0@,
            forall|k: int, l: int| 0 <= k < l < notes@.len() ==> !precedes((#[trigger] notes@[l]).path@, (#[trigger] notes@[k]).path@),
            forall|k: int, m: int| 0 <= k < notes@.len() && i <= m < ordered@.len() ==> !precedes(ordered@[m].0@, (#[trigger] notes@[k]).path@) || (#[trigger] ordered@[m]).0@ == notes@[k].path@,
            forall|k: int| 0 <= k < notes@.len() ==> read_from(files, *contract, #[trigger] notes@[k]),
            forall|m: int| 0 <= m < i && readable((#[trigger] ordered@[m]).1@) ==> exists|k: int| 0 <= k < notes@.len() && (#[trigger] notes@[k]).path@ == ordered@[m].0@,
            found@.len() >= unreadable.len(),
            forall|k: int| 0 <= k < unreadable.len() ==> #[trigger] found@[k] == unreadable[k],
            forall|m: int| 0 <= m < i ==> reports_file(#[trigger] ordered@[m], *contract, found@),
            distinct_paths(files) ==> forall|a: int, b: int|
                0 <= a < b < ordered@.len() ==> (#[trigger] ordered@[a]).0@ != (#[trigger] ordered@[b]).0@,
            distinct_paths(files) ==> forall|k: int, l: int|
                0 <= k < l < notes@.len() ==> (#[trigger] notes@[k]).path@ != (#[trigger] notes@[l]).path@,
            distinct_paths(files) ==> forall|k: int, m: int|
                0 <= k < notes@.len() && i <= m < ordered@.len() ==> (#[trigger] notes@[k]).path@ != (#[trigger] ordered@[m]).0@,
        decreases ordered.len() - i,
    {
        let file = &ordered[i];
        let read = read::note(&file.0, file.1.as_slice(), contract);
        let ghost prior = notes@;
        let ghost got = read.note;
        match read.note {
            Some(note) => {
                proof {
                    let text = choose|text: Seq<char>| encoding::utf8(text) == file.1@ && #[trigger] read::reads_text(note, *contract, file.0@, text);
                    assert(files.contains(ordered@[i as int]));
                    let m = choose|m: int| 0 <= m < files.len() && files[m] == ordered@[i as int];
                    assert(files[m].0@ == note.path@);
                    assert(read_from(files, *contract, note));
                }
                notes.push(note);
                assert forall|k: int| 0 <= k < notes@.len() implies read_from(files, *contract, #[trigger] notes@[k]) by {
                    if k < prior.len() {
                        assert(notes@[k] == prior[k]);
                    }
                }
                proof {
                    if distinct_paths(files) {
                        let last = prior.len() as int;
                        assert(notes@[last].path@ == ordered@[i as int].0@);
                        assert forall|k: int, l: int| 0 <= k < l < notes@.len() implies (#[trigger] notes@[k]).path@
                            != (#[trigger] notes@[l]).path@ by {
                            assert(notes@[k] == prior[k]);
                            if l < last {
                                assert(notes@[l] == prior[l]);
                            }
                        }
                        assert forall|k: int, m: int| 0 <= k < notes@.len() && i + 1 <= m < ordered@.len() implies (#[trigger] notes@[k]).path@
                            != (#[trigger] ordered@[m]).0@ by {
                            if k < last {
                                assert(notes@[k] == prior[k]);
                            }
                        }
                    }
                }
            },
            None => {},
        }
        assert forall|m: int| 0 <= m < i + 1 && readable((#[trigger] ordered@[m]).1@) implies exists|k: int| 0 <= k < notes@.len() && (#[trigger] notes@[k]).path@ == ordered@[m].0@ by {
            if m < i {
                let k = choose|k: int| 0 <= k < prior.len() && (#[trigger] prior[k]).path@ == ordered@[m].0@;
                assert(notes@[k] == prior[k]);
            } else {
                let t = choose|text: Seq<char>| #[trigger] encoding::utf8(text) == ordered@[m].1@;
                assert(read.note.is_some());
                assert(notes@[prior.len() as int].path@ == ordered@[m].0@);
            }
        }
        let ghost said = read.diagnostics@;
        let ghost start = found@;
        let mut rest = read.diagnostics;
        while rest.len() > 0
            invariant
                rest@.len() <= said.len(),
                rest@ == said.skip(said.len() - rest@.len()),
                found@ == start + said.take(said.len() - rest@.len()),
            decreases rest@.len(),
        {
            let ghost j = said.len() - rest@.len();
            let item = rest.remove(0);
            assert(item == said[j]);
            assert(rest@ =~= said.skip(j + 1));
            found.push(item);
            assert(found@ =~= start + said.take(j + 1));
        }
        assert(said.take(said.len() as int) =~= said);
        proof {
            lemma_reports_kept(ordered@, i as int, *contract, start, said, got);
            assert(found@ =~= start + said);
            assert forall|k: int| 0 <= k < unreadable.len() implies #[trigger] found@[k] == unreadable[k] by {
                assert(found@[k] == start[k]);
            }
        }
        i = i + 1;
    }
    let ghost read_notes = notes@;
    let (notes, reported) = resolve::corpus(notes, contract.dialect.links);
    let ghost all_reported = reported@;
    let ghost base = found@;
    let mut reported = reported;
    while reported.len() > 0
        invariant
            reported@.len() <= all_reported.len(),
            reported@ == all_reported.skip(all_reported.len() - reported@.len()),
            found@ == base + all_reported.take(all_reported.len() - reported@.len()),
        decreases reported@.len(),
    {
        let ghost j = all_reported.len() - reported@.len();
        let item = reported.remove(0);
        assert(item == all_reported[j]);
        assert(reported@ =~= all_reported.skip(j + 1));
        found.push(item);
        assert(found@ =~= base + all_reported.take(j + 1));
    }
    assert(all_reported.take(all_reported.len() as int) =~= all_reported);
    let diagnostics = sorted(found);
    let c = Corpus { notes, diagnostics };
    proof {
        let full = base + all_reported;
        assert forall|x: Diagnostic| full.contains(x) implies c.diagnostics@.contains(x) by {
            vstd::seq_lib::to_multiset_contains(full, x);
            vstd::seq_lib::to_multiset_contains(c.diagnostics@, x);
        }
        assert forall|k: int| 0 <= k < all_reported.len() implies c.diagnostics@.contains(#[trigger] all_reported[k]) by {
            assert(full[base.len() + k] == all_reported[k]);
            assert(full.contains(all_reported[k]));
        }
        assert forall|k: int| 0 <= k < unreadable.len() implies c.diagnostics@.contains(#[trigger] unreadable[k]) by {
            assert(full[k] == unreadable[k]);
            assert(full.contains(unreadable[k]));
        }
        assert forall|m: int|
            0 <= m < files.len() && traverse::note_path(files[m].0@) && readable(#[trigger] files[m].1@) implies exists|i: int|
                0 <= i < c.notes@.len() && (#[trigger] c.notes@[i]).path@ == files[m].0@ by {
            assert(before.contains(files[m]));
            vstd::seq_lib::to_multiset_contains(before, files[m]);
            vstd::seq_lib::to_multiset_contains(ordered@, files[m]);
            let o = choose|o: int| 0 <= o < ordered@.len() && ordered@[o] == files[m];
            assert(readable(ordered@[o].1@));
            let k = choose|k: int| 0 <= k < read_notes.len() && (#[trigger] read_notes[k]).path@ == ordered@[o].0@;
            assert(c.notes@[k].path@ == read_notes[k].path@);
        }
        assert forall|x: Diagnostic| base.contains(x) implies c.diagnostics@.contains(x) by {
            let w = choose|w: int| 0 <= w < base.len() && base[w] == x;
            assert(full[w] == x);
            assert(full.contains(x));
        }
        lemma_reports_all(files, ordered@, before, *contract, base, c.diagnostics@);
        assert(reads_corpus(given, *contract, read_notes, c));
        if distinct_paths(files) {
            assert forall|a: int, b: int| 0 <= a < b < c.notes@.len() implies (#[trigger] c.notes@[a]).path@
                != (#[trigger] c.notes@[b]).path@ by {
                assert(c.notes@[a].path@ == read_notes[a].path@);
                assert(c.notes@[b].path@ == read_notes[b].path@);
            }
        }
        assert(corpus_of(given, *contract, c));
    }
    c
}

} // verus!
