//! Reading one note: its bytes, its frontmatter, its type, and its body.
//!
//! Bytes first, because a file that cannot be read has nothing else to say.
//! Then the frontmatter block, because everything schema'd is in it. Then the
//! type, the dispatch key for every remaining rule. Then the note's contents
//! against that type. A frontmatter block that did not load leaves no
//! declarations to read the note by, so it binds to nothing rather than being
//! treated as a note with no frontmatter: the catch-all binds absence, and a
//! block that failed to parse is not an absence.

use vstd::prelude::*;

use crate::chars::{byte_offsets, join, join3, slice, string_of, substring};
use crate::contract::{Contract, LinkDialect};
use crate::diagnostic::{Diagnostic, FileRef, KernelDiagnostic, Location, VaultPath, is_sorted};

use super::body;
use super::encoding::{self, EncodingFault};
use super::findings::{Findings, located_at};
use super::frontmatter::{self, Entry, FaultKind, Front};
use super::links;
use super::model::{Binding, Note, Reference};
use super::validate;
use super::values::Said;

verus! {

/// One note, read — or the reasons it could not be.
pub struct Read {
    /// The note, absent only when its bytes are not text.
    pub note: Option<Note>,
    /// Everything reading it reported, in the deterministic total order.
    pub diagnostics: Vec<Diagnostic>,
}

/// The first character boundary at or after byte `at`.
pub fn char_index(offsets: &Vec<usize>, at: usize) -> (k: usize)
    requires
        offsets@.len() > 0,
    ensures
        k < offsets@.len(),
        forall|j: int| 0 <= j < k ==> offsets@[j] < at,
        k == offsets@.len() - 1 || offsets@[k as int] >= at,
{
    let mut k: usize = 0;
    while k < offsets.len() - 1 && offsets[k] < at
        invariant
            k < offsets@.len(),
            forall|j: int| 0 <= j < k ==> offsets@[j] < at,
        decreases offsets.len() - k,
    {
        k = k + 1;
    }
    k
}

/// The identifier a fault a note is read despite is reported under.
pub open spec fn warning_id(fault: EncodingFault) -> KernelDiagnostic {
    match fault {
        EncodingFault::ByteOrderMark => KernelDiagnostic::NoteByteOrderMark,
        EncodingFault::CarriageReturn(_) => KernelDiagnostic::NoteCarriageReturnLineEnding,
    }
}

/// What a fault a note is read despite says.
pub open spec fn warning_text(fault: EncodingFault) -> Seq<char> {
    match fault {
        EncodingFault::ByteOrderMark => "the note begins with a byte order mark, which UTF-8 needs no mark for"@,
        EncodingFault::CarriageReturn(_) => "the note ends its lines with a carriage return and a line feed"@,
    }
}

/// Where a fault a note is read despite is, in bytes.
pub open spec fn warning_at(fault: EncodingFault) -> int {
    match fault {
        EncodingFault::ByteOrderMark => 0,
        EncodingFault::CarriageReturn(at) => at as int,
    }
}

/// The identifier a frontmatter fault is reported under.
pub open spec fn fault_id(kind: FaultKind) -> KernelDiagnostic {
    match kind {
        FaultKind::Invalid => KernelDiagnostic::NoteFrontmatterInvalid,
        FaultKind::Unsupported => KernelDiagnostic::NoteFrontmatterUnsupported,
    }
}

/// What reading a note reports before its contents are held to its type,
/// by what each finding says, in order: one warning per fault the text is
/// read despite, one finding per fault its frontmatter reading found, and,
/// unless the block was refused, what binding its entries reports.
pub open spec fn reading_said(contract: Contract, warnings: Seq<EncodingFault>, p: frontmatter::Parsed) -> Seq<Said> {
    warnings.map_values(|f: EncodingFault| (warning_id(f), warning_text(f))) + p.faults@.map_values(
        |f: frontmatter::Fault| (fault_id(f.kind), f.message@),
    ) + match p.front {
        Front::Refused => Seq::empty(),
        _ => validate::bind_said(contract, front_entries(p.front)),
    }
}

/// Whether `list` opens with findings saying `said`, in order.
pub open spec fn opens_with(list: Seq<Diagnostic>, said: Seq<Said>) -> bool {
    &&& said.len() <= list.len()
    &&& forall|k: int| 0 <= k < said.len() ==> (#[trigger] list[k]).id == said[k].0 && list[k].message@ == said[k].1
}

/// Whether the first findings of `list`, one per fault the text is read
/// despite and then one per frontmatter fault, point where each was found.
pub open spec fn located_reading(
    list: Seq<Diagnostic>,
    path: Seq<char>,
    warnings: Seq<EncodingFault>,
    faults: Seq<frontmatter::Fault>,
) -> bool {
    &&& warnings.len() + faults.len() <= list.len()
    &&& forall|i: int|
        0 <= i < warnings.len() ==> located_at(list[i], path, warning_at(#[trigger] warnings[i]), warning_at(warnings[i]))
    &&& forall|j: int|
        0 <= j < faults.len() ==> located_at(
            list[warnings.len() + j],
            path,
            (#[trigger] faults[j]).span.start as int,
            faults[j].span.end as int,
        )
}

/// Whether reading the note at `path`, whose text is `text`, gives `n` and
/// `diagnostics`: `text` carries `warnings`, its frontmatter reading is
/// `p`, its body begins at character `k`, and `list` is what was reported,
/// in the order found. A note bound to nothing is reported nothing beyond
/// its reading and its binding.
pub open spec fn read_as(
    n: Note,
    diagnostics: Seq<Diagnostic>,
    contract: Contract,
    path: Seq<char>,
    text: Seq<char>,
    warnings: Seq<EncodingFault>,
    p: frontmatter::Parsed,
    k: int,
    list: Seq<Diagnostic>,
) -> bool {
    &&& encoding::warned(text, warnings)
    &&& frontmatter::outcome(text, p)
    &&& body_begins(text, p.body.start as int, k)
    &&& reads_from(n, contract, p.front, path, text.skip(k), n.references@)
    &&& references_in(contract.dialect.links, path, text, k, n.references@)
    &&& diagnostics.to_multiset() == list.to_multiset()
    &&& opens_with(list, reading_said(contract, warnings, p))
    &&& located_reading(list, path, warnings, p.faults@)
    &&& n.binding is Unbound ==> list.len() == reading_said(contract, warnings, p).len()
}

/// Whether `note` and `diagnostics` are what reading the note at `path`,
/// whose bytes are `bytes`, against `contract` gives: bytes that are not
/// UTF-8 give no note and one `note.unreadable` against the whole file;
/// text gives its note and every finding about it.
pub open spec fn reads_bytes(
    note: Option<Note>,
    diagnostics: Seq<Diagnostic>,
    contract: Contract,
    path: Seq<char>,
    bytes: Seq<u8>,
) -> bool {
    match note {
        None => {
            &&& forall|s: Seq<char>| encoding::utf8(s) != bytes
            &&& diagnostics.len() == 1
            &&& diagnostics[0].id == KernelDiagnostic::NoteUnreadable
            &&& diagnostics[0].message@ == "`"@ + path + "` could not be read: its bytes are not valid UTF-8"@
            &&& diagnostics[0].location matches Some(l) && l.file.spelled() == path && l.span.is_none()
        },
        Some(n) => exists|text: Seq<char>, warnings: Seq<EncodingFault>, p: frontmatter::Parsed, k: int, list: Seq<Diagnostic>|
            encoding::utf8(text) == bytes && #[trigger] read_as(n, diagnostics, contract, path, text, warnings, p, k, list),
    }
}

/// Reads the note at `path`, whose bytes are `bytes`, against `contract`.
///
/// Bytes that are not UTF-8 give no note and one `note.unreadable` against
/// the whole file; otherwise the note is read, whatever else is wrong with
/// it, and every finding comes out in the total order.
pub fn note(path: &VaultPath, bytes: &[u8], contract: &Contract) -> (r: Read)
    ensures
        r.note.is_none() <==> forall|s: Seq<char>| encoding::utf8(s) != bytes@,
        r.note.is_none() ==> r.diagnostics@.len() == 1 && r.diagnostics@[0].id == KernelDiagnostic::NoteUnreadable,
        r.note matches Some(n) ==> exists|text: Seq<char>| encoding::utf8(text) == bytes@ && #[trigger] reads_text(n, *contract, path@, text),
        is_sorted(r.diagnostics@),
        reads_bytes(r.note, r.diagnostics@, *contract, path@, bytes@),
{
    match encoding::inspect(bytes) {
        Some(reading) => {
            let ghost text = reading.text@;
            let ghost warnings = reading.faults@;
            let r = from_text(path, reading, contract);
            proof {
                let (p, k, list) = choose|p: frontmatter::Parsed, k: int, list: Seq<Diagnostic>|
                    #[trigger] read_as(r.note.unwrap(), r.diagnostics@, *contract, path@, text, warnings, p, k, list);
                assert(encoding::utf8(text) == bytes@ && read_as(r.note.unwrap(), r.diagnostics@, *contract, path@, text, warnings, p, k, list));
            }
            r
        },
        None => {
            let mut diagnostics: Vec<Diagnostic> = Vec::new();
            diagnostics.push(unopened(path, "its bytes are not valid UTF-8"));
            proof {
                reveal_strlit("its bytes are not valid UTF-8");
                reveal_strlit("` could not be read: its bytes are not valid UTF-8");
                reveal_strlit("` could not be read: ");
                assert(("`"@ + path@ + "` could not be read: "@) + "its bytes are not valid UTF-8"@ =~= "`"@ + path@
                    + "` could not be read: its bytes are not valid UTF-8"@);
            }
            Read { note: None, diagnostics }
        },
    }
}

/// A note whose bytes could not be read at all, and `reason`, what stopped
/// the read: `note.unreadable` against the whole file.
pub fn unopened(path: &VaultPath, reason: &str) -> (d: Diagnostic)
    ensures
        d.id == KernelDiagnostic::NoteUnreadable,
        d.message@ == "`"@ + path@ + "` could not be read: "@ + reason@,
        d.location matches Some(l) && l.file.spelled() == path@ && l.span.is_none(),
{
    let head = join3("`", path.as_str(), "` could not be read: ");
    let message = join(head.as_str(), reason);
    let at = Location::whole_file(FileRef::InVault(path.copy()));
    Diagnostic::kernel(KernelDiagnostic::NoteUnreadable, message).at(at)
}

/// The identifier a fault a note is read despite is reported under.
fn warned_about(fault: EncodingFault) -> (k: KernelDiagnostic)
    ensures
        k == match fault {
            EncodingFault::ByteOrderMark => KernelDiagnostic::NoteByteOrderMark,
            EncodingFault::CarriageReturn(_) => KernelDiagnostic::NoteCarriageReturnLineEnding,
        },
{
    match fault {
        EncodingFault::ByteOrderMark => KernelDiagnostic::NoteByteOrderMark,
        EncodingFault::CarriageReturn(_) => KernelDiagnostic::NoteCarriageReturnLineEnding,
    }
}

/// The pipeline, once the note's bytes are text.
#[verifier::spinoff_prover]
#[verifier::rlimit(60)]
fn from_text(path: &VaultPath, reading: encoding::Reading, contract: &Contract) -> (r: Read)
    requires
        encoding::warned(reading.text@, reading.faults@),
    ensures
        r.note matches Some(n) && reads_text(n, *contract, path@, reading.text@),
        r.note is Some,
        exists|p: frontmatter::Parsed, k: int, list: Seq<Diagnostic>|
            #[trigger] read_as(r.note.unwrap(), r.diagnostics@, *contract, path@, reading.text@, reading.faults@, p, k, list),
        is_sorted(r.diagnostics@),
{
    let text = reading.text;
    let ghost warnings = reading.faults@;
    let mut findings = Findings::new(path, text.as_str());
    let mut i: usize = 0;
    while i < reading.faults.len()
        invariant
            findings.wf(),
            findings.chars@ == text@,
            findings.file.spelled() == path@,
            warnings == reading.faults@,
            i <= warnings.len(),
            findings.list@.len() == i,
            forall|k: int| 0 <= k < i ==> {
                &&& (#[trigger] findings.list@[k]).id == warning_id(warnings[k])
                &&& findings.list@[k].message@ == warning_text(warnings[k])
                &&& located_at(findings.list@[k], path@, warning_at(warnings[k]), warning_at(warnings[k]))
            },
        decreases reading.faults.len() - i,
    {
        let fault = reading.faults[i];
        let at = fault.offset();
        let ghost before = findings.list@;
        findings.spanned(warned_about(fault), String::from_str(fault.describe()), at..at);
        assert forall|k: int| 0 <= k < i + 1 implies {
            &&& (#[trigger] findings.list@[k]).id == warning_id(warnings[k])
            &&& findings.list@[k].message@ == warning_text(warnings[k])
            &&& located_at(findings.list@[k], path@, warning_at(warnings[k]), warning_at(warnings[k]))
        } by {
            if k < i {
                assert(findings.list@[k] == before[k]);
            }
        }
        i = i + 1;
    }
    let ghost opened = findings.list@;
    let parsed = frontmatter::read(text.as_str());
    let ghost w = warnings.len() as int;
    let mut j: usize = 0;
    while j < parsed.faults.len()
        invariant
            findings.wf(),
            findings.chars@ == text@,
            findings.file.spelled() == path@,
            j <= parsed.faults@.len(),
            w == opened.len(),
            findings.list@.len() == w + j,
            forall|k: int| 0 <= k < w ==> #[trigger] findings.list@[k] == opened[k],
            forall|k: int| 0 <= k < j ==> {
                &&& findings.list@[w + k].id == fault_id((#[trigger] parsed.faults@[k]).kind)
                &&& findings.list@[w + k].message@ == parsed.faults@[k].message@
                &&& located_at(findings.list@[w + k], path@, parsed.faults@[k].span.start as int, parsed.faults@[k].span.end as int)
            },
        decreases parsed.faults.len() - j,
    {
        let fault = &parsed.faults[j];
        let kind = match fault.kind {
            FaultKind::Invalid => KernelDiagnostic::NoteFrontmatterInvalid,
            FaultKind::Unsupported => KernelDiagnostic::NoteFrontmatterUnsupported,
        };
        let ghost before = findings.list@;
        findings.spanned(kind, fault.message.clone(), fault.span.start..fault.span.end);
        assert forall|k: int| 0 <= k < j + 1 implies {
            &&& findings.list@[w + k].id == fault_id((#[trigger] parsed.faults@[k]).kind)
            &&& findings.list@[w + k].message@ == parsed.faults@[k].message@
            &&& located_at(findings.list@[w + k], path@, parsed.faults@[k].span.start as int, parsed.faults@[k].span.end as int)
        } by {
            if k < j {
                assert(findings.list@[w + k] == before[w + k]);
            }
        }
        j = j + 1;
    }
    let ghost read_so_far = findings.list@;
    let start = char_index(&findings.offsets, parsed.body.start);
    let body = substring(&findings.chars, start, findings.chars.len());
    assert(findings.chars@ == text@);
    assert(body@ =~= text@.skip(start as int));
    assert(body_begins(text@, parsed.body.start as int, start as int)) by {
        assert forall|j: int| 0 <= j < start implies crate::chars::byte_len(#[trigger] text@.take(j)) < parsed.body.start by {
            assert(findings.offsets@[j] == crate::chars::byte_len(findings.chars@.take(j)));
        }
        assert(findings.offsets@[start as int] == crate::chars::byte_len(findings.chars@.take(start as int)));
    }
    let references = references(&findings, contract, start, body.as_str());
    let note = build(&mut findings, path, contract, &parsed.front, body, references);
    assert(reads_text(note, *contract, path@, text@));
    let ghost list = findings.list@;
    let diagnostics = findings.finish();
    proof {
        let tail = match parsed.front {
            Front::Refused => Seq::<Said>::empty(),
            _ => validate::bind_said(*contract, front_entries(parsed.front)),
        };
        if parsed.front is Refused {
            assert(list.skip(read_so_far.len() as int) =~= Seq::<Diagnostic>::empty());
        }
        lemma_opens(list, read_so_far, opened, warnings, parsed.faults@, tail, path@);
        assert(reading_said(*contract, warnings, parsed) == warnings.map_values(
            |f: EncodingFault| (warning_id(f), warning_text(f)),
        ) + parsed.faults@.map_values(|f: frontmatter::Fault| (fault_id(f.kind), f.message@)) + tail);
        assert(read_as(note, diagnostics@, *contract, path@, text@, warnings, parsed, start as int, list));
    }
    let r = Read { note: Some(note), diagnostics };
    assert(read_as(r.note.unwrap(), r.diagnostics@, *contract, path@, reading.text@, reading.faults@, parsed, start as int, list));
    r
}

/// The findings of a note's reading open what it reports, each where it
/// was found, whatever followed them.
proof fn lemma_opens(
    list: Seq<Diagnostic>,
    read: Seq<Diagnostic>,
    opened: Seq<Diagnostic>,
    warnings: Seq<EncodingFault>,
    faults: Seq<frontmatter::Fault>,
    tail: Seq<Said>,
    path: Seq<char>,
)
    requires
        opened.len() == warnings.len(),
        forall|k: int| 0 <= k < warnings.len() ==> {
            &&& (#[trigger] opened[k]).id == warning_id(warnings[k])
            &&& opened[k].message@ == warning_text(warnings[k])
            &&& located_at(opened[k], path, warning_at(warnings[k]), warning_at(warnings[k]))
        },
        read.len() == warnings.len() + faults.len(),
        forall|k: int| 0 <= k < warnings.len() ==> #[trigger] read[k] == opened[k],
        forall|k: int| 0 <= k < faults.len() ==> {
            &&& read[warnings.len() + k].id == fault_id((#[trigger] faults[k]).kind)
            &&& read[warnings.len() + k].message@ == faults[k].message@
            &&& located_at(read[warnings.len() + k], path, faults[k].span.start as int, faults[k].span.end as int)
        },
        list.len() >= read.len(),
        forall|k: int| 0 <= k < read.len() ==> #[trigger] list[k] == read[k],
        opens_with(list.skip(read.len() as int), tail),
    ensures
        opens_with(
            list,
            warnings.map_values(|f: EncodingFault| (warning_id(f), warning_text(f))) + faults.map_values(
                |f: frontmatter::Fault| (fault_id(f.kind), f.message@),
            ) + tail,
        ),
        located_reading(list, path, warnings, faults),
{
    let w = warnings.len() as int;
    let f = faults.len() as int;
    let said = warnings.map_values(|f: EncodingFault| (warning_id(f), warning_text(f))) + faults.map_values(
        |f: frontmatter::Fault| (fault_id(f.kind), f.message@),
    ) + tail;
    assert forall|k: int| 0 <= k < said.len() implies (#[trigger] list[k]).id == said[k].0 && list[k].message@ == said[k].1 by {
        if k < w {
            assert(list[k] == read[k]);
            assert(opened[k] == read[k]);
        } else if k < w + f {
            assert(list[k] == read[k]);
            let j = k - w;
            assert(faults[j] == faults[j]);
            assert(read[w + j] == read[k]);
        } else {
            assert(list.skip(read.len() as int)[k - w - f] == list[k]);
        }
    }
    assert forall|i: int| 0 <= i < w implies located_at(list[i], path, warning_at(#[trigger] warnings[i]), warning_at(warnings[i])) by {
        assert(list[i] == read[i]);
        assert(opened[i] == read[i]);
    }
    assert forall|j: int| 0 <= j < f implies located_at(list[warnings.len() + j], path, (#[trigger] faults[j]).span.start as int, faults[j].span.end as int) by {
        assert(list[w + j] == read[w + j]);
    }
}

/// The character a byte offset names, when it is a boundary: the first
/// boundary at or after a boundary is that boundary itself.
proof fn lemma_boundary_exact(text: Seq<char>, offsets: Seq<usize>, a: int, k: int)
    requires
        offsets.len() == text.len() + 1,
        forall|i: int| 0 <= i <= text.len() ==> #[trigger] offsets[i] == crate::chars::byte_len(text.take(i)),
        0 <= a <= text.len(),
        0 <= k < offsets.len(),
        forall|j: int| 0 <= j < k ==> #[trigger] offsets[j] < offsets[a],
        k == offsets.len() - 1 || offsets[k] >= offsets[a],
    ensures
        k == a,
{
    if k < a {
        crate::chars::lemma_byte_len_strict(text, k, a);
    }
    if k > a {
        let reached = offsets[a];
        assert(reached < offsets[a]);
    }
}

/// Whether `r` is the reference that the body starting at character `k` of
/// `text` writes over its characters `run.0` to `run.1`, in the note at
/// `path`: what it wrote, unresolved, located by its bytes in the note.
pub open spec fn reference_at(path: Seq<char>, text: Seq<char>, k: int, run: (int, int), r: Reference) -> bool {
    &&& r.written@ == text.skip(k).subrange(run.0, run.1)
    &&& r.target.is_none()
    &&& r.at.file.spelled() == path
    &&& r.at.span matches Some(s) && s.start.offset == crate::chars::byte_len(text.take(k + run.0))
        && s.end.offset == crate::chars::byte_len(text.take(k + run.1))
}

/// Whether `r` holds every link the body starting at character `k` of `text`
/// writes, in the order it writes them.
pub open spec fn references_in(d: LinkDialect, path: Seq<char>, text: Seq<char>, k: int, r: Seq<Reference>) -> bool {
    let found = links::runs(d, text.skip(k), 0);
    &&& r.len() == found.len()
    &&& forall|i: int| 0 <= i < r.len() ==> reference_at(path, text, k, found[i], #[trigger] r[i])
}

/// Every untyped reference the body writes, located in the note. The body
/// begins at character `start` of the note.
fn references(findings: &Findings, contract: &Contract, start: usize, body: &str) -> (r: Vec<Reference>)
    requires
        findings.wf(),
        start <= findings.chars@.len(),
        body@ == findings.chars@.subrange(start as int, findings.chars@.len() as int),
    ensures
        references_in(contract.dialect.links, findings.file.spelled(), findings.chars@, start as int, r@),
{
    let ghost d = contract.dialect.links;
    let found = links::scan(contract.dialect.links, body);
    let (chars, offsets) = byte_offsets(body);
    proof {
        links::lemma_runs_bounds(d, body@, 0);
        assert(findings.chars@.skip(start as int) =~= body@);
    }
    let ghost all = links::runs(d, body@, 0);
    let mut out: Vec<Reference> = Vec::new();
    let mut i: usize = 0;
    let limit = findings.offsets.len();
    while i < found.len()
        invariant
            findings.wf(),
            limit == findings.offsets@.len(),
            start <= findings.chars@.len(),
            chars@ == body@,
            body@ == findings.chars@.skip(start as int),
            chars@.len() + start == findings.chars@.len(),
            offsets@.len() == chars@.len() + 1,
            forall|j: int| 0 <= j <= chars@.len() ==> #[trigger] offsets@[j] == crate::chars::byte_len(chars@.take(j)),
            all == links::runs(d, body@, 0),
            d == contract.dialect.links,
            found@.len() == all.len(),
            forall|j: int|
                0 <= j < found@.len() ==> {
                    let (a, b) = #[trigger] all[j];
                    found@[j].start == crate::chars::byte_len(body@.take(a)) && found@[j].end == crate::chars::byte_len(body@.take(b))
                },
            forall|j: int|
                0 <= j < all.len() ==> {
                    let (a, b) = #[trigger] all[j];
                    0 <= a < b <= body@.len()
                },
            i <= found@.len(),
            out@.len() == i,
            forall|j: int| 0 <= j < i ==> reference_at(findings.file.spelled(), findings.chars@, start as int, all[j], #[trigger] out@[j]),
        decreases found.len() - i,
    {
        let ghost run = all[i as int];
        assert(found@[i as int].start == offsets@[run.0]);
        assert(found@[i as int].end == offsets@[run.1]);
        let a = char_index(&offsets, found[i].start);
        let b = char_index(&offsets, found[i].end);
        proof {
            lemma_boundary_exact(chars@, offsets@, run.0, a as int);
            lemma_boundary_exact(chars@, offsets@, run.1, b as int);
        }
        if a <= b {
            let written = substring(&chars, a, b);
            let from = findings.offsets[start + a];
            let to = findings.offsets[start + b];
            let ghost before = out@;
            out.push(Reference { written, target: None, at: findings.at(from..to) });
            assert forall|j: int| 0 <= j < i + 1 implies reference_at(findings.file.spelled(), findings.chars@, start as int, all[j], #[trigger] out@[j]) by {
                if j < i {
                    assert(out@[j] == before[j]);
                } else {
                    assert(findings.offsets@[start + a] == crate::chars::byte_len(findings.chars@.take(start + a)));
                    assert(findings.offsets@[start + b] == crate::chars::byte_len(findings.chars@.take(start + b)));
                }
            }
        }
        i = i + 1;
    }
    out
}

/// Whether the body of `text`, whose frontmatter reading put its start at
/// byte `at`, begins at character `k`: the first character boundary at or
/// after that byte.
pub open spec fn body_begins(text: Seq<char>, at: int, k: int) -> bool {
    &&& 0 <= k <= text.len()
    &&& forall|j: int| 0 <= j < k ==> crate::chars::byte_len(#[trigger] text.take(j)) < at
    &&& (k == text.len() || crate::chars::byte_len(text.take(k)) >= at)
}

/// Whether `n` is the document model of the note at `path` whose text is
/// `text`: read from what its frontmatter reading answered, with the body
/// that follows the block.
pub open spec fn reads_text(n: Note, contract: Contract, path: Seq<char>, text: Seq<char>) -> bool {
    exists|p: frontmatter::Parsed, k: int|
        #![trigger frontmatter::outcome(text, p), body_begins(text, p.body.start as int, k)]
        frontmatter::outcome(text, p) && body_begins(text, p.body.start as int, k) && reads_from(
            n,
            contract,
            p.front,
            path,
            text.skip(k),
            n.references@,
        ) && references_in(contract.dialect.links, path, text, k, n.references@)
}

/// The entries a frontmatter block carries: none when there is no block.
pub open spec fn front_entries(front: Front) -> Seq<Entry> {
    match front {
        Front::Read(entries) => entries@,
        _ => Seq::empty(),
    }
}

/// Whether `n` is the document model of the note at `path`, whose
/// frontmatter is `front`, whose body is `body` and whose body writes
/// `references`: a refused block binds to nothing; otherwise the binding is
/// what the block's entries bind to, and only a note bound to a declared
/// type carries properties, relationships or tags.
pub open spec fn reads_from(
    n: Note,
    contract: Contract,
    front: Front,
    path: Seq<char>,
    body: Seq<char>,
    references: Seq<Reference>,
) -> bool {
    &&& n.path@ == path
    &&& n.body@ == body
    &&& n.references@ == references
    &&& match n.title {
        Some(t) => body::title_spec(body) == Some(t@),
        None => body::title_spec(body).is_none(),
    }
    &&& match front {
        Front::Refused => n.binding == (Binding::Unbound { named: None }),
        _ => exists|d: Option<usize>| #[trigger] validate::binds(contract, front_entries(front), validate::Bound { binding: n.binding, declared: d }),
    }
    &&& n.binding is Unbound ==> n.properties@.len() == 0 && n.relationships@.len() == 0 && n.tags@.len() == 0
    &&& contract.tags.is_none() ==> n.tags@.len() == 0
    &&& n.properties@.len() > 0 ==> exists|d: usize| {
        &&& #[trigger] validate::binds(contract, front_entries(front), validate::Bound { binding: n.binding, declared: Some(d) })
        &&& d < contract.types@.len()
        &&& forall|i: int| 0 <= i < n.properties@.len() ==> crate::contract::declares_property(contract.types@[d as int], (#[trigger] n.properties@[i]).name@)
    }
    &&& match front {
        Front::Refused => true,
        _ => exists|d: Option<usize>| {
            &&& #[trigger] validate::binds(contract, front_entries(front), validate::Bound { binding: n.binding, declared: d })
            &&& holds_contents(n, contract, front_entries(front), path, d)
        },
    }
}

/// Whether `n` carries what `entries` say under the type at position `d` of
/// the contract's types: its properties, its relationships and its tags, as
/// validation reads them; nothing where it bound to no declared type.
pub open spec fn holds_contents(n: Note, contract: Contract, entries: Seq<Entry>, path: Seq<char>, d: Option<usize>) -> bool {
    if d is Some && d.unwrap() < contract.types@.len() {
        let declared = contract.types@[d.unwrap() as int];
        &&& validate::carried(declared.properties@, entries, n.properties@)
        &&& validate::related(path, declared.relationships@, entries, n.relationships@)
        &&& n.tags@.map_values(|s: String| s@) == validate::tags_spec(contract, n.properties@)
    } else {
        n.properties@.len() == 0 && n.relationships@.len() == 0 && n.tags@.len() == 0
    }
}

/// The document model, once the note's frontmatter is in hand.
fn build(
    findings: &mut Findings,
    path: &VaultPath,
    contract: &Contract,
    front: &Front,
    body: String,
    references: Vec<Reference>,
) -> (n: Note)
    requires
        old(findings).wf(),
        old(findings).file.spelled() == path@,
    ensures
        final(findings).wf(),
        reads_from(n, *contract, *front, path@, body@, references@),
        super::values::grew(*old(findings), *final(findings)),
        match *front {
            Front::Refused => final(findings).list@ == old(findings).list@,
            _ => opens_with(
                final(findings).list@.skip(old(findings).list@.len() as int),
                validate::bind_said(*contract, front_entries(*front)),
            ),
        },
        n.binding is Unbound ==> final(findings).list@.len() == old(findings).list@.len() + match *front {
            Front::Refused => 0,
            _ => validate::bind_said(*contract, front_entries(*front)).len(),
        },
{
    let title = body::title(body.as_str());
    let empty: Vec<Entry> = Vec::new();
    let entries = match front {
        Front::Refused => {
            return Note {
                path: path.copy(),
                binding: Binding::Unbound { named: None },
                properties: Vec::new(),
                relationships: Vec::new(),
                references,
                tags: Vec::new(),
                title,
                body,
            };
        },
        Front::Read(entries) => entries,
        Front::Absent => &empty,
    };
    let ghost start = *findings;
    let bound = validate::bind(findings, contract, entries);
    let ghost mid = *findings;
    assert(entries@ == front_entries(*front));
    assert(opens_with(mid.list@.skip(start.list@.len() as int), validate::bind_said(*contract, entries@))) by {
        let said = validate::bind_said(*contract, entries@);
        assert forall|k: int| 0 <= k < said.len() implies (#[trigger] mid.list@.skip(start.list@.len() as int)[k]).id
            == said[k].0 && mid.list@.skip(start.list@.len() as int)[k].message@ == said[k].1 by {
            assert(mid.list@[start.list@.len() + k] == mid.list@.skip(start.list@.len() as int)[k]);
        }
    }
    let ghost bound_spec = validate::Bound { binding: bound.binding, declared: bound.declared };
    assert(validate::binds(*contract, front_entries(*front), bound_spec));
    let known = match bound.declared {
        Some(i) => i < contract.types.len(),
        None => false,
    };
    if !known {
            return Note {
                path: path.copy(),
                binding: bound.binding,
                properties: Vec::new(),
                relationships: Vec::new(),
                references,
                tags: Vec::new(),
                title,
                body,
            };
    }
    let declared = match bound.declared {
        Some(i) => &contract.types[i],
        None => &contract.types[0],
    };
    let contents = validate::contents(findings, contract, declared, entries);
    proof {
        let said = validate::bind_said(*contract, entries@);
        assert forall|k: int| 0 <= k < said.len() implies (#[trigger] findings.list@.skip(start.list@.len() as int)[k]).id
            == said[k].0 && findings.list@.skip(start.list@.len() as int)[k].message@ == said[k].1 by {
            assert(findings.list@[start.list@.len() + k] == mid.list@[start.list@.len() + k]);
        }
    }
    Note {
        path: path.copy(),
        binding: bound.binding,
        properties: contents.properties,
        relationships: contents.relationships,
        references,
        tags: contents.tags,
        title,
        body,
    }
}

} // verus!
