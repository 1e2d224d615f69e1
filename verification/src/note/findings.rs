//! Collecting one note's diagnostics while it is read.
//!
//! Every finding about a note points at that note: at a span wherever the note
//! wrote the thing that is wrong, and at the whole file for a finding whose
//! subject is an absence, which has no bytes to point at. Findings come out in
//! the standing total order, ties in the order they were found — which, for
//! absences, is the contract's declaration order.

use core::ops::Range;

use vstd::prelude::*;

use crate::chars::{byte_offsets, str_eq};
use crate::contract::Contract;
use crate::diagnostic::{
    Diagnostic, FileRef, KernelDiagnostic, Location, Position, Related, Span, VaultPath, is_sorted, sorted,
};

verus! {

/// How many line feeds `s` holds.
pub open spec fn newlines(s: Seq<char>) -> nat
    decreases s.len(),
{
    if s.len() == 0 {
        0
    } else {
        newlines(s.drop_last()) + if s.last() == '\n' {
            1nat
        } else {
            0nat
        }
    }
}

/// How many characters `s` holds after its last line feed.
pub open spec fn line_tail(s: Seq<char>) -> nat
    decreases s.len(),
{
    if s.len() == 0 {
        0
    } else if s.last() == '\n' {
        0
    } else {
        line_tail(s.drop_last()) + 1
    }
}

/// Evidence pointing at where the contract writes a requirement: the
/// location its provenance records for `key`, when it records one.
pub fn declaration(contract: &Contract, key: &str, message: String) -> (r: Related)
    ensures
        r.message@ == message@,
{
    let related = Related::new(message);
    let entries = contract.provenance.entries();
    let mut i: usize = 0;
    while i < entries.len()
        invariant
            i <= entries@.len(),
            related.message@ == message@,
        decreases entries.len() - i,
    {
        if str_eq(entries[i].key.as_str(), key) {
            return match &entries[i].location {
                Some(location) => related.at(location.clone()),
                None => related,
            };
        }
        i = i + 1;
    }
    related
}

/// A copy of a file reference.
pub fn copy_file(file: &FileRef) -> (r: FileRef)
    ensures
        r.spelled() == file.spelled(),
{
    match file {
        FileRef::InVault(path) => FileRef::InVault(path.copy()),
    }
}

/// Whether a finding points at bytes `start` to `end` of the file at `file`.
pub open spec fn located_at(d: Diagnostic, file: Seq<char>, start: int, end: int) -> bool {
    match d.location {
        Some(l) => l.file.spelled() == file && match l.span {
            Some(s) => s.start.offset == start && s.end.offset == end,
            None => false,
        },
        None => false,
    }
}

/// One note's diagnostics, and what they point at.
pub struct Findings {
    /// The note's characters.
    pub chars: Vec<char>,
    /// The byte offset of each character boundary.
    pub offsets: Vec<usize>,
    /// The note.
    pub file: FileRef,
    /// What was found, in the order it was found.
    pub list: Vec<Diagnostic>,
}

impl Findings {
    /// Whether the offsets are those of the characters.
    pub open spec fn wf(&self) -> bool {
        &&& self.offsets@.len() == self.chars@.len() + 1
        &&& forall|k: int| 0 <= k <= self.chars@.len() ==> #[trigger] self.offsets@[k] == crate::chars::byte_len(self.chars@.take(k))
    }

    /// A collector for the note at `path`, whose text is `text`.
    pub fn new(path: &VaultPath, text: &str) -> (f: Findings)
        ensures
            f.wf(),
            f.chars@ == text@,
            f.file.spelled() == path@,
            f.list@.len() == 0,
    {
        let (chars, offsets) = byte_offsets(text);
        Findings { chars, offsets, file: FileRef::InVault(path.copy()), list: Vec::new() }
    }

    /// The point at byte offset `at`: its line and its column in characters,
    /// counted over the characters before it.
    pub fn position(&self, at: usize) -> (p: Position)
        requires
            self.wf(),
        ensures
            p.offset == at,
            forall|k: int| 0 <= k <= self.chars@.len() && self.offsets@[k] == at ==> p.line == 1 + newlines(
                #[trigger] self.chars@.take(k),
            ) && p.column == 1 + line_tail(self.chars@.take(k)),
    {
        let mut line: usize = 1;
        let mut column: usize = 1;
        let mut k: usize = 0;
        assert(self.chars@.take(0) =~= Seq::<char>::empty());
        assert(self.offsets@.len() == self.offsets.len());
        while k < self.chars.len() && self.offsets[k] < at
            invariant
                self.wf(),
                self.chars@.len() < usize::MAX,
                k <= self.chars@.len(),
                line == 1 + newlines(self.chars@.take(k as int)),
                column == 1 + line_tail(self.chars@.take(k as int)),
                line <= k + 1,
                column <= k + 1,
                forall|j: int| 0 <= j < k ==> self.offsets@[j] < at,
            decreases self.chars.len() - k,
        {
            assert(self.chars@.take(k + 1).drop_last() =~= self.chars@.take(k as int));
            if self.chars[k] == '\n' {
                line = line + 1;
                column = 1;
            } else {
                column = column + 1;
            }
            k = k + 1;
        }
        proof {
            assert forall|j: int| 0 <= j <= self.chars@.len() && self.offsets@[j] == at implies j == k by {
                if j < k {
                } else if j > k {
                    crate::chars::lemma_byte_len_prefix(self.chars@, k as int, j);
                    if k < self.chars@.len() {
                        crate::chars::lemma_byte_len_step(self.chars@, k as int);
                        crate::chars::lemma_byte_len_prefix(self.chars@, k + 1, j);
                    }
                }
            }
        }
        Position::new(line, column, at)
    }

    /// The location of a byte range within the note.
    pub fn at(&self, span: Range<usize>) -> (l: Location)
        requires
            self.wf(),
        ensures
            l.file.spelled() == self.file.spelled(),
            l.span matches Some(s) && s.start.offset == span.start && s.end.offset == span.end,
    {
        let start = self.position(span.start);
        let end = self.position(span.end);
        Location::in_file(copy_file(&self.file), Span::between(start, end))
    }

    /// The note itself, for a finding about something that is not there.
    pub fn note(&self) -> (l: Location)
        ensures
            l.file.spelled() == self.file.spelled(),
            l.span.is_none(),
    {
        Location::whole_file(copy_file(&self.file))
    }

    /// Reports a fault at a byte range.
    pub fn spanned(&mut self, kind: KernelDiagnostic, message: String, span: Range<usize>)
        requires
            old(self).wf(),
        ensures
            final(self).wf(),
            final(self).chars == old(self).chars,
            final(self).offsets == old(self).offsets,
            final(self).file == old(self).file,
            final(self).list@.len() == old(self).list@.len() + 1,
            forall|i: int| 0 <= i < old(self).list@.len() ==> final(self).list@[i] == old(self).list@[i],
            final(self).list@.last().id == kind,
            final(self).list@.last().message@ == message@,
            final(self).list@.last().location matches Some(l) && l.span.is_some(),
            located_at(final(self).list@.last(), old(self).file.spelled(), span.start as int, span.end as int),
    {
        let at = self.at(span);
        self.list.push(Diagnostic::kernel(kind, message).at(at));
    }

    /// Reports a fault about something the note does not carry, naming where
    /// the requirement is declared.
    pub fn absent(&mut self, kind: KernelDiagnostic, message: String, declared: Related)
        requires
            old(self).wf(),
        ensures
            final(self).wf(),
            final(self).chars == old(self).chars,
            final(self).offsets == old(self).offsets,
            final(self).file == old(self).file,
            final(self).list@.len() == old(self).list@.len() + 1,
            forall|i: int| 0 <= i < old(self).list@.len() ==> final(self).list@[i] == old(self).list@[i],
            final(self).list@.last().id == kind,
            final(self).list@.last().message@ == message@,
            final(self).list@.last().location matches Some(l) && l.span.is_none(),
            final(self).list@.last().related@ == seq![declared],
    {
        let at = self.note();
        self.list.push(Diagnostic::kernel(kind, message).at(at).with_related(declared));
    }

    /// Everything found, in the deterministic total order.
    pub fn finish(self) -> (r: Vec<Diagnostic>)
        ensures
            r@.to_multiset() == self.list@.to_multiset(),
            is_sorted(r@),
    {
        sorted(self.list)
    }
}

} // verus!
