//! Which files under a vault root are notes, and in what order.
//!
//! A note is any file with the `.md` extension under the vault root, found by
//! a walk that skips every directory whose name begins with `.` and follows no
//! symlink. The walk itself is the application's: it lists the files it found
//! and the directories it could not read, and the rule and the order are
//! decided here. Notes are answered in vault-relative path order, whatever
//! order the files were listed in.

use vstd::prelude::*;
use vstd::multiset::Multiset;

use crate::chars::{chars_of, precedes, sorts_before};
use crate::diagnostic::{
    Diagnostic, VaultPath, is_sorted, lemma_precedes_asymmetric, lemma_precedes_transitive, sorted,
};

verus! {

/// Where the file name of `p` begins: just after its last `/`.
pub open spec fn name_start(p: Seq<char>) -> int
    decreases p.len(),
{
    if p.len() == 0 {
        0
    } else if p.last() == '/' {
        p.len() as int
    } else {
        name_start(p.drop_last())
    }
}

/// Whether the file name of `p` has the extension `md`: a `.` that is not
/// the name's first character, followed by `md` and nothing else.
pub open spec fn has_note_extension(p: Seq<char>) -> bool {
    let n = p.len() as int;
    &&& n >= 3
    &&& p[n - 3] == '.'
    &&& p[n - 2] == 'm'
    &&& p[n - 1] == 'd'
    &&& n - 3 > name_start(p)
}

/// Whether some directory on the way to `p` has a name beginning with `.`.
pub open spec fn hidden(p: Seq<char>) -> bool {
    exists|k: int| 0 <= k < name_start(p) && #[trigger] p[k] == '.' && (k == 0 || p[k - 1] == '/')
}

/// Whether the file at `p` is a note.
pub open spec fn note_path(p: Seq<char>) -> bool {
    has_note_extension(p) && !hidden(p)
}

proof fn lemma_name_start(p: Seq<char>)
    ensures
        0 <= name_start(p) <= p.len(),
        name_start(p) > 0 ==> p[name_start(p) - 1] == '/',
        forall|i: int| name_start(p) <= i < p.len() ==> p[i] != '/',
    decreases p.len(),
{
    if p.len() > 0 && p.last() != '/' {
        lemma_name_start(p.drop_last());
        assert forall|i: int| name_start(p) <= i < p.len() implies p[i] != '/' by {
            if i < p.len() - 1 {
                assert(p[i] == p.drop_last()[i]);
            }
        }
    }
}

/// Whether the file at `p` is a note.
pub fn is_note(p: &str) -> (b: bool)
    ensures
        b == note_path(p@),
{
    let s = chars_of(p);
    let n = s.len();
    proof {
        lemma_name_start(s@);
    }
    let mut start: usize = n;
    assert(s@.take(n as int) =~= s@);
    while start > 0 && s[start - 1] != '/'
        invariant
            s@ == p@,
            start <= n,
            n == s@.len(),
            name_start(s@) == name_start(s@.take(start as int)),
            forall|i: int| start <= i < n ==> s@[i] != '/',
        decreases start,
    {
        assert(s@.take(start as int).drop_last() =~= s@.take(start - 1));
        start = start - 1;
    }
    assert(s@.take(n as int) =~= s@);
    assert(name_start(s@) == start) by {
        if start > 0 {
            assert(s@.take(start as int).last() == '/');
        } else {
            assert(s@.take(0) =~= Seq::<char>::empty());
        }
    }
    let extension = n >= 3 && s[n - 3] == '.' && s[n - 2] == 'm' && s[n - 1] == 'd' && n - 3 > start;
    let mut k: usize = 0;
    while k < start
        invariant
            s@ == p@,
            k <= start,
            start == name_start(s@),
            start <= s@.len(),
            forall|j: int| 0 <= j < k ==> !(#[trigger] s@[j] == '.' && (j == 0 || s@[j - 1] == '/')),
        decreases start - k,
    {
        if s[k] == '.' && (k == 0 || s[k - 1] == '/') {
            assert(hidden(s@));
            return false;
        }
        k = k + 1;
    }
    extension
}

/// Whether `s` runs in path order, ties allowed.
pub open spec fn path_ordered<T>(s: Seq<(VaultPath, T)>) -> bool {
    forall|i: int, j: int| 0 <= i < j < s.len() ==> !precedes((#[trigger] s[j]).0@, (#[trigger] s[i]).0@)
}

/// Where `item` goes in the ordered `r`: before the first path it precedes.
fn path_slot<T>(r: &Vec<(VaultPath, T)>, path: &Vec<char>) -> (k: usize)
    ensures
        k <= r@.len(),
        forall|j: int| 0 <= j < k ==> !precedes(path@, (#[trigger] r@[j]).0@),
        k < r@.len() ==> precedes(path@, r@[k as int].0@),
{
    let mut k: usize = 0;
    while k < r.len()
        invariant
            k <= r@.len(),
            forall|j: int| 0 <= j < k ==> !precedes(path@, (#[trigger] r@[j]).0@),
        decreases r.len() - k,
    {
        let here = r[k].0.chars();
        if sorts_before(path, &here) {
            return k;
        }
        k = k + 1;
    }
    k
}

/// `items` in path order, ties kept in the order they arrived.
pub fn by_path<T>(items: Vec<(VaultPath, T)>) -> (r: Vec<(VaultPath, T)>)
    ensures
        r@.to_multiset() == items@.to_multiset(),
        path_ordered(r@),
{
    broadcast use vstd::seq_lib::group_to_multiset_ensures;

    let mut rest = items;
    let mut r: Vec<(VaultPath, T)> = Vec::new();
    while rest.len() > 0
        invariant
            r@.to_multiset().add(rest@.to_multiset()) == items@.to_multiset(),
            path_ordered(r@),
        decreases rest.len(),
    {
        let ghost before_rest = rest@;
        let item = rest.remove(0);
        let path = item.0.chars();
        let k = path_slot(&r, &path);
        let ghost old_r = r@;
        let ghost p = item.0@;
        r.insert(k, item);
        proof {
            assert(r@.remove(k as int) =~= old_r);
            crate::diagnostic::lemma_remove_multiset(r@, k as int);
            assert(before_rest.remove(0) == rest@);
            crate::diagnostic::lemma_remove_multiset(before_rest, 0);
            assert forall|i: int, j: int| 0 <= i < j < r@.len() implies !precedes(
                (#[trigger] r@[j]).0@,
                (#[trigger] r@[i]).0@,
            ) by {
                if j < k {
                    assert(r@[i] == old_r[i] && r@[j] == old_r[j]);
                } else if i > k {
                    assert(r@[i] == old_r[i - 1] && r@[j] == old_r[j - 1]);
                } else if i == k {
                    assert(r@[i].0@ == p);
                    assert(r@[j] == old_r[j - 1]);
                    if precedes(r@[j].0@, p) {
                        assert(precedes(p, old_r[k as int].0@));
                        if j - 1 == k {
                            lemma_precedes_asymmetric(p, old_r[k as int].0@);
                        } else {
                            lemma_precedes_transitive(old_r[j - 1].0@, p, old_r[k as int].0@);
                        }
                    }
                } else if j == k {
                    assert(r@[i] == old_r[i]);
                    assert(r@[j].0@ == p);
                } else {
                    assert(r@[i] == old_r[i] && r@[j] == old_r[j - 1]);
                }
            }
        }
    }
    proof {
        assert(rest@ =~= Seq::<(VaultPath, T)>::empty());
    }
    r
}

/// Every note under a vault root, and everything the walk could not read.
#[derive(Clone, Debug, PartialEq, Eq)]
pub struct Traversal {
    /// The notes, in vault-relative path order.
    pub notes: Vec<VaultPath>,
    /// What the walk could not read, in the total order.
    pub diagnostics: Vec<Diagnostic>,
}

impl Traversal {
    /// Every note found, in vault-relative path order.
    pub fn notes(&self) -> (r: &[VaultPath])
        ensures
            r@ == self.notes@,
    {
        self.notes.as_slice()
    }

    /// Everything the walk could not read, in the total order.
    pub fn diagnostics(&self) -> (r: &[Diagnostic])
        ensures
            r@ == self.diagnostics@,
    {
        self.diagnostics.as_slice()
    }
}

/// Whatever one sequence holds, the other does too, when their multisets
/// agree.
proof fn lemma_same_members<A>(a: Seq<A>, b: Seq<A>)
    requires
        a.to_multiset() == b.to_multiset(),
    ensures
        forall|m: int| 0 <= m < a.len() ==> b.contains(#[trigger] a[m]),
        forall|m: int| 0 <= m < b.len() ==> a.contains(#[trigger] b[m]),
{
    assert forall|m: int| 0 <= m < a.len() implies b.contains(#[trigger] a[m]) by {
        assert(a.contains(a[m]));
        vstd::seq_lib::to_multiset_contains(a, a[m]);
        vstd::seq_lib::to_multiset_contains(b, a[m]);
    }
    assert forall|m: int| 0 <= m < b.len() implies a.contains(#[trigger] b[m]) by {
        assert(b.contains(b[m]));
        vstd::seq_lib::to_multiset_contains(a, b[m]);
        vstd::seq_lib::to_multiset_contains(b, b[m]);
    }
}

/// The listed files that are notes, in the order listed.
pub open spec fn note_files(files: Seq<VaultPath>) -> Seq<VaultPath> {
    files.filter(|p: VaultPath| note_path(p@))
}

/// How many times each path occurs in `paths`.
pub open spec fn held(paths: Seq<VaultPath>) -> Multiset<(VaultPath, ())> {
    paths.map_values(|p: VaultPath| (p, ())).to_multiset()
}

/// The files among `files` that are notes, in the order listed.
fn notes_among(files: &[VaultPath]) -> (found: Vec<(VaultPath, ())>)
    ensures
        found@ == note_files(files@).map_values(|p: VaultPath| (p, ())),
        forall|k: int| 0 <= k < found@.len() ==> note_path((#[trigger] found@[k]).0@),
        forall|j: int| 0 <= j < files@.len() && note_path((#[trigger] files@[j])@) ==> exists|k: int|
            0 <= k < found@.len() && found@[k].0@ == files@[j]@,
{
    let mut found: Vec<(VaultPath, ())> = Vec::new();
    let mut i: usize = 0;
    while i < files.len()
        invariant
            i <= files@.len(),
            forall|k: int| 0 <= k < found@.len() ==> note_path((#[trigger] found@[k]).0@),
            forall|j: int| 0 <= j < i && note_path((#[trigger] files@[j])@) ==> exists|k: int|
                0 <= k < found@.len() && found@[k].0@ == files@[j]@,
            found@ == note_files(files@.take(i as int)).map_values(|p: VaultPath| (p, ())),
        decreases files.len() - i,
    {
        let ghost old_found = found@;
        proof {
            reveal(Seq::filter);
            assert(files@.take(i + 1).drop_last() =~= files@.take(i as int));
        }
        if is_note(files[i].as_str()) {
            found.push((files[i].copy(), ()));
            assert(found@[found@.len() - 1].0@ == files@[i as int]@);
            assert forall|j: int| 0 <= j < i + 1 && note_path((#[trigger] files@[j])@) implies exists|k: int|
                0 <= k < found@.len() && found@[k].0@ == files@[j]@ by {
                if j < i {
                    let w = choose|k: int| 0 <= k < old_found.len() && old_found[k].0@ == files@[j]@;
                    assert(found@[w] == old_found[w]);
                } else {
                    assert(found@[found@.len() - 1].0@ == files@[j]@);
                }
            }
        }
        assert(found@ =~= note_files(files@.take(i + 1)).map_values(|p: VaultPath| (p, ())));
        i = i + 1;
    }
    assert(files@.take(files@.len() as int) =~= files@);
    found
}

/// The notes among the files a walk listed — each a vault-relative path of
/// a file that is not a symlink — in path order, with the directories it
/// could not read reported in the total order.
pub fn traverse(files: &[VaultPath], unreadable: Vec<Diagnostic>) -> (t: Traversal)
    ensures
        forall|i: int| 0 <= i < t.notes@.len() ==> note_path((#[trigger] t.notes@[i])@),
        forall|j: int| 0 <= j < files@.len() && note_path((#[trigger] files@[j])@) ==> exists|i: int|
            0 <= i < t.notes@.len() && (#[trigger] t.notes@[i])@ == files@[j]@,
        forall|i: int, j: int| 0 <= i < j < t.notes@.len() ==> !precedes((#[trigger] t.notes@[j])@, (#[trigger] t.notes@[i])@),
        is_sorted(t.diagnostics@),
        t.diagnostics@.to_multiset() == unreadable@.to_multiset(),
        held(t.notes@) == held(note_files(files@)),
{
    let found = notes_among(files);
    let ghost before = found@;
    let ordered = by_path(found);
    proof {
        lemma_same_members(ordered@, before);
    }
    let mut notes: Vec<VaultPath> = Vec::new();
    let mut k: usize = 0;
    while k < ordered.len()
        invariant
            k <= ordered@.len(),
            notes@.len() == k,
            forall|m: int| 0 <= m < k ==> (#[trigger] notes@[m])@ == ordered@[m].0@ && notes@[m] == ordered@[m].0,
        decreases ordered.len() - k,
    {
        notes.push(ordered[k].0.copy());
        k = k + 1;
    }
    proof {
        lemma_same_members(ordered@, before);
        assert forall|m: int| 0 <= m < notes@.len() implies note_path((#[trigger] notes@[m])@) by {
            assert(before.contains(ordered@[m]));
            let w = choose|w: int| 0 <= w < before.len() && before[w] == ordered@[m];
            assert(note_path(before[w].0@));
        }
        assert forall|j: int| 0 <= j < files@.len() && note_path((#[trigger] files@[j])@) implies exists|i: int|
            0 <= i < notes@.len() && (#[trigger] notes@[i])@ == files@[j]@ by {
            let w = choose|w: int| 0 <= w < before.len() && before[w].0@ == files@[j]@;
            assert(ordered@.contains(before[w]));
            let v = choose|v: int| 0 <= v < ordered@.len() && ordered@[v] == before[w];
            assert(notes@[v]@ == files@[j]@);
        }
        assert forall|i: int, j: int| 0 <= i < j < notes@.len() implies !precedes((#[trigger] notes@[j])@, (#[trigger] notes@[i])@) by {
            assert(!precedes(ordered@[j].0@, ordered@[i].0@));
        }
    }
    assert(notes@.map_values(|p: VaultPath| (p, ())) =~= ordered@);
    let diagnostics = sorted(unreadable);
    let t = Traversal { notes, diagnostics };
    assert(t.notes@ == notes@);
    t
}

/// Whether a vault-relative directory's own name begins with `.`.
pub open spec fn hidden_dir(relative: Seq<char>) -> bool {
    let start = name_start(relative);
    start < relative.len() && relative[start] == '.'
}

/// Whether a vault-relative directory is hidden: its own name begins with a
/// `.`, so the walk does not descend into it.
pub fn hidden_directory(relative: &str) -> (b: bool)
    ensures
        b == hidden_dir(relative@),
{
    let s = chars_of(relative);
    proof {
        lemma_name_start(s@);
    }
    let n = s.len();
    let mut start: usize = n;
    assert(s@.take(n as int) =~= s@);
    while start > 0 && s[start - 1] != '/'
        invariant
            s@ == relative@,
            start <= n,
            n == s@.len(),
            name_start(s@) == name_start(s@.take(start as int)),
        decreases start,
    {
        assert(s@.take(start as int).drop_last() =~= s@.take(start - 1));
        start = start - 1;
    }
    assert(name_start(s@) == start) by {
        if start > 0 {
            assert(s@.take(start as int).last() == '/');
        } else {
            assert(s@.take(0) =~= Seq::<char>::empty());
        }
    }
    start < n && s[start] == '.'
}

/// A vault-relative path with one more segment beneath it.
pub fn join_segment(prefix: &str, name: &str) -> (r: String)
    ensures
        prefix@.len() == 0 ==> r@ == name@,
        prefix@.len() > 0 ==> r@ == prefix@ + seq!['/'] + name@,
{
    if chars_of(prefix).len() == 0 {
        String::from_str(name)
    } else {
        let r = crate::chars::join3(prefix, "/", name);
        proof {
            reveal_strlit("/");
        }
        r
    }
}

/// How a message names a directory inside the vault: the root, whose
/// vault-relative spelling is empty, spells itself `.`.
pub fn spell(relative: &str) -> (r: String)
    ensures
        relative@.len() == 0 ==> r@ == seq!['.'],
        relative@.len() > 0 ==> r@ == relative@,
{
    if chars_of(relative).len() == 0 {
        proof {
            reveal_strlit(".");
        }
        String::from_str(".")
    } else {
        String::from_str(relative)
    }
}

/// A directory the walk could not enumerate, reported against its
/// vault-relative path; `reason` is what the walk was told.
pub fn unreadable(relative: &str, reason: &str) -> (d: Diagnostic)
    ensures
        d.id == crate::diagnostic::KernelDiagnostic::NoteUnreadable,
        d.location matches Some(l) && l.file.spelled() == relative@ && l.span.is_none(),
{
    let head = crate::chars::join3("the directory `", spell(relative).as_str(), "` could not be read: ");
    let message = crate::chars::join(head.as_str(), reason);
    let at = crate::diagnostic::Location::whole_file(crate::diagnostic::FileRef::InVault(VaultPath::kernel(relative)));
    Diagnostic::kernel(crate::diagnostic::KernelDiagnostic::NoteUnreadable, message).at(at)
}

/// Whether an entry whose name is not valid UTF-8 would have been read under
/// a well-formed name: a symlink is never followed, a hidden directory is
/// invisible wholesale, and only the note extension makes a file a note. The
/// rules run on `name`, the entry's own name spelled lossily.
pub fn read_despite_name(symlink: bool, directory: bool, name: &str) -> (b: bool)
    ensures
        b == (!symlink && if directory {
            !(name@.len() > 0 && name@[0] == '.')
        } else {
            note_path(name@)
        }),
{
    if symlink {
        return false;
    }
    if directory {
        let s = chars_of(name);
        return !(s.len() > 0 && s[0] == '.');
    }
    is_note(name)
}

/// An entry whose name is not valid UTF-8, which a vault-relative spelling
/// cannot hold: reported with no location, because the one thing a location
/// holds is the spelling this name does not have. `spelled` is the entry's
/// vault-relative path, spelled lossily.
pub fn nameless(spelled: &str) -> (d: Diagnostic)
    ensures
        d.id == crate::diagnostic::KernelDiagnostic::NoteUnreadable,
        d.location.is_none(),
        d.message@ == "`"@ + spelled@ + "` could not be read: its name is not valid UTF-8"@,
{
    Diagnostic::kernel(
        crate::diagnostic::KernelDiagnostic::NoteUnreadable,
        crate::chars::join3("`", spelled, "` could not be read: its name is not valid UTF-8"),
    )
}

} // verus!
