//! The name index, and the one rule every reference resolves by.
//!
//! Identity is the path. A note's name — its file name without the `.md`
//! extension — is a per-reference resolution shorthand and nothing more.
//!
//! - a reference containing no `/` and not ending in `.md` is a **bare name**,
//!   and resolves iff exactly one note in the corpus bears it;
//! - a reference containing a `/`, or ending in `.md`, is **path-qualified**,
//!   resolved against the vault root, with `.md` appended when it is absent.
//!
//! Nothing here touches the filesystem: a path-qualified reference is matched
//! against the paths the corpus holds, so no spelling reaches outside it.

use vstd::prelude::*;

use crate::chars::{chars_of, contains_char, ends, ends_with, has, same};

use super::model::{Note, name_of, note_extension};

verus! {

/// Whether a reference is path-qualified rather than a bare name.
pub open spec fn path_qualified_spec(reference: Seq<char>) -> bool {
    has(reference, '/') || ends(reference, note_extension())
}

/// A path-qualified reference as a vault-relative path spells it.
pub open spec fn qualified_spec(reference: Seq<char>) -> Seq<char> {
    if ends(reference, note_extension()) {
        reference
    } else {
        reference + note_extension()
    }
}

/// The positions below `n` whose name is `name`, in order.
pub open spec fn bearers(names: Seq<Seq<char>>, name: Seq<char>, n: int) -> Seq<usize>
    decreases n,
{
    if n <= 0 {
        Seq::empty()
    } else if names[n - 1] == name {
        bearers(names, name, n - 1).push((n - 1) as usize)
    } else {
        bearers(names, name, n - 1)
    }
}

/// The last position below `n` whose path is `path`, or `-1`.
pub open spec fn last_path(paths: Seq<Seq<char>>, path: Seq<char>, n: int) -> int
    decreases n,
{
    if n <= 0 {
        -1
    } else if paths[n - 1] == path {
        n - 1
    } else {
        last_path(paths, path, n - 1)
    }
}

/// Each note's name, by position.
pub open spec fn names_of(notes: Seq<Note>) -> Seq<Seq<char>> {
    notes.map_values(|n: Note| name_of(n.path@))
}

/// Each note's path, by position.
pub open spec fn paths_of(notes: Seq<Note>) -> Seq<Seq<char>> {
    notes.map_values(|n: Note| n.path@)
}

/// What a reference named.
#[derive(Clone, Debug, PartialEq, Eq)]
pub enum Resolution {
    /// Exactly one note, by its position in the corpus.
    One(usize),
    /// A bare name several notes bear, in corpus order.
    Ambiguous(Vec<usize>),
    /// Nothing this corpus holds.
    Absent,
}

/// What `reference` names among notes with these names and paths.
pub open spec fn resolution_spec(
    names: Seq<Seq<char>>,
    paths: Seq<Seq<char>>,
    reference: Seq<char>,
) -> (Option<usize>, Seq<usize>) {
    if path_qualified_spec(reference) {
        let at = last_path(paths, qualified_spec(reference), paths.len() as int);
        if at >= 0 {
            (Some(at as usize), Seq::empty())
        } else {
            (None, Seq::empty())
        }
    } else {
        let found = bearers(names, reference, names.len() as int);
        if found.len() == 1 {
            (Some(found[0]), Seq::empty())
        } else {
            (None, found)
        }
    }
}

/// Whether `r` is the resolution `spec` describes: one position, several
/// candidates, or nothing.
pub open spec fn resolves_as(r: Resolution, spec: (Option<usize>, Seq<usize>)) -> bool {
    match r {
        Resolution::One(at) => spec.0 == Some(at),
        Resolution::Ambiguous(v) => spec.0.is_none() && spec.1.len() > 1 && v@ == spec.1,
        Resolution::Absent => spec.0.is_none() && spec.1.len() == 0,
    }
}

/// Every note in a corpus, by the two things a reference can name.
pub struct Index {
    names: Vec<Vec<char>>,
    paths: Vec<Vec<char>>,
}

impl Index {
    /// Each note's name, by position.
    pub closed spec fn names(&self) -> Seq<Seq<char>> {
        self.names@.map_values(|v: Vec<char>| v@)
    }

    /// Each note's path, by position.
    pub closed spec fn paths(&self) -> Seq<Seq<char>> {
        self.paths@.map_values(|v: Vec<char>| v@)
    }

    /// Indexes `notes`.
    pub fn of(notes: &[Note]) -> (index: Index)
        ensures
            index.names().len() == notes@.len(),
            index.paths().len() == notes@.len(),
            index.names() == names_of(notes@),
            index.paths() == paths_of(notes@),
    {
        let mut names: Vec<Vec<char>> = Vec::new();
        let mut paths: Vec<Vec<char>> = Vec::new();
        let mut i: usize = 0;
        while i < notes.len()
            invariant
                i <= notes.len(),
                names@.len() == i,
                paths@.len() == i,
                forall|k: int| 0 <= k < i ==> #[trigger] names@[k]@ == name_of(notes@[k].path@),
                forall|k: int| 0 <= k < i ==> #[trigger] paths@[k]@ == notes@[k].path@,
            decreases notes.len() - i,
        {
            let note = &notes[i];
            let name = note.name();
            let name_chars = chars_of(name.as_str());
            let path_chars = note.path.chars();
            assert(name_chars@ == name_of(notes@[i as int].path@));
            assert(path_chars@ == notes@[i as int].path@);
            let ghost old_names = names@;
            let ghost old_paths = paths@;
            names.push(name_chars);
            paths.push(path_chars);
            assert forall|k: int| 0 <= k < i + 1 implies #[trigger] names@[k]@ == name_of(notes@[k].path@) by {
                if k < i {
                    assert(names@[k] == old_names[k]);
                }
            }
            assert forall|k: int| 0 <= k < i + 1 implies #[trigger] paths@[k]@ == notes@[k].path@ by {
                if k < i {
                    assert(paths@[k] == old_paths[k]);
                }
            }
            i = i + 1;
        }
        let index = Index { names, paths };
        assert(index.names() =~= names_of(notes@));
        assert(index.paths() =~= paths_of(notes@));
        index
    }

    /// The note `reference` names, under the standing resolution rule.
    pub fn resolve(&self, reference: &str) -> (r: Resolution)
        requires
            self.names().len() == self.paths().len(),
        ensures
            resolves_as(r, resolution_spec(self.names(), self.paths(), reference@)),
            r matches Resolution::One(at) ==> at < self.paths().len(),
            r matches Resolution::Ambiguous(v) ==> forall|k: int|
                0 <= k < v@.len() ==> #[trigger] v@[k] < self.paths().len(),
    {
        let wanted = chars_of(reference);
        if path_qualified(reference) {
            let path = qualified_chars(&wanted);
            match self.at_path(&path) {
                Some(at) => Resolution::One(at),
                None => Resolution::Absent,
            }
        } else {
            let found = self.named(&wanted);
            if found.len() == 1 {
                Resolution::One(found[0])
            } else if found.len() == 0 {
                Resolution::Absent
            } else {
                Resolution::Ambiguous(found)
            }
        }
    }

    /// The last position whose path is `path`.
    fn at_path(&self, path: &[char]) -> (r: Option<usize>)
        ensures
            match r {
                Some(at) => last_path(self.paths(), path@, self.paths().len() as int) == at
                    && at < self.paths().len(),
                None => last_path(self.paths(), path@, self.paths().len() as int) == -1,
            },
    {
        let mut n = self.paths.len();
        while n > 0
            invariant
                n <= self.paths@.len(),
                last_path(self.paths(), path@, self.paths().len() as int) == last_path(
                    self.paths(),
                    path@,
                    n as int,
                ),
            decreases n,
        {
            if same(&self.paths[n - 1], path) {
                return Some(n - 1);
            }
            n = n - 1;
        }
        None
    }

    /// Every position whose name is `name`, in order.
    fn named(&self, name: &[char]) -> (r: Vec<usize>)
        ensures
            r@ == bearers(self.names(), name@, self.names().len() as int),
            forall|k: int| 0 <= k < r@.len() ==> #[trigger] r@[k] < self.names().len(),
    {
        let mut found: Vec<usize> = Vec::new();
        let mut i: usize = 0;
        while i < self.names.len()
            invariant
                i <= self.names@.len(),
                found@ == bearers(self.names(), name@, i as int),
                forall|k: int| 0 <= k < found@.len() ==> #[trigger] found@[k] < i,
            decreases self.names.len() - i,
        {
            if same(&self.names[i], name) {
                found.push(i);
            }
            i = i + 1;
        }
        found
    }
}

/// Whether a reference is path-qualified: it carries a `/`, or ends in `.md`.
pub fn path_qualified(reference: &str) -> (b: bool)
    ensures
        b == path_qualified_spec(reference@),
{
    let text = chars_of(reference);
    let ext = ['.', 'm', 'd'];
    assert(ext@ =~= note_extension());
    contains_char(&text, '/') || ends_with(&text, &ext)
}

fn qualified_chars(reference: &[char]) -> (r: Vec<char>)
    ensures
        r@ == qualified_spec(reference@),
{
    let ext = ['.', 'm', 'd'];
    assert(ext@ =~= note_extension());
    let mut out = crate::chars::slice(reference, 0, reference.len());
    assert(out@ =~= reference@);
    if !ends_with(reference, &ext) {
        out.push('.');
        out.push('m');
        out.push('d');
        assert(out@ =~= reference@ + note_extension());
    }
    out
}

/// A path-qualified reference as a vault-relative path spells it: with `.md`
/// appended only when it lacks one.
pub fn qualified(reference: &str) -> (r: String)
    ensures
        r@ == qualified_spec(reference@),
{
    let text = chars_of(reference);
    crate::chars::string_of(&qualified_chars(&text))
}

} // verus!
