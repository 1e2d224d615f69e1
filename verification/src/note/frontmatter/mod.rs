//! Frontmatter: a strict YAML subset, read by hand.
//!
//! The subset admits scalars, sequences, and mappings; it refuses anchors,
//! aliases, tags, multi-document streams, non-string keys, and duplicate keys.
//! Implicit typing never runs: a key and a scalar are the characters written,
//! and the declared kind decides what they mean. The legal value shapes are
//! exactly four — a scalar, a sequence of scalars, a mapping of scalars, and a
//! sequence of mappings of scalars — which [`shape`] holds a block to.

use core::ops::Range;

use vstd::prelude::*;

use crate::chars::{byte_len, byte_offsets, slice};
use crate::note::body::{content_of, find_newline, indent_of, line_starts, lines_spec, measure};
use block::Line;

pub mod block;
pub mod flow;
pub mod scalar;
pub mod shape;

verus! {

/// How deep a collection may sit before the subset stops reading: a
/// top-level mapping is depth 0, its value depth 1, a sequence's element depth
/// 2, and one level below that is read so the shape rule can name it.
pub const MAX_NESTING: usize = 3;

/// One key and the value it carries.
#[derive(Debug, PartialEq, Eq)]
pub struct Entry {
    /// The key's characters; a key is always a string.
    pub key: String,
    /// Where the key is written.
    pub key_span: Range<usize>,
    /// The value the key carries.
    pub value: Value,
}

/// A frontmatter value, before any declaration has been consulted.
#[derive(Debug, PartialEq, Eq)]
pub struct Value {
    /// Where the value is written; a collection points at where it starts.
    pub span: Range<usize>,
    /// What the value is.
    pub shape: Shape,
}

/// What a frontmatter value is, structurally.
#[derive(Debug, PartialEq, Eq)]
pub enum Shape {
    /// A scalar's characters, with quoting undone and nothing else
    /// interpreted.
    Scalar(String),
    /// A sequence's items, in order.
    Sequence(Vec<Value>),
    /// A mapping's entries, in order.
    Mapping(Vec<Entry>),
}

impl Value {
    /// The scalar's characters, when the value is a scalar.
    pub fn scalar(&self) -> (r: Option<&str>)
        ensures
            match self.shape {
                Shape::Scalar(t) => r matches Some(s) && s@ == t@,
                _ => r.is_none(),
            },
    {
        match &self.shape {
            Shape::Scalar(text) => Some(text.as_str()),
            _ => None,
        }
    }

    /// The items, when the value is a sequence.
    pub fn sequence(&self) -> (r: Option<&[Value]>)
        ensures
            match self.shape {
                Shape::Sequence(items) => r matches Some(s) && s@ == items@,
                _ => r.is_none(),
            },
    {
        match &self.shape {
            Shape::Sequence(items) => Some(items.as_slice()),
            _ => None,
        }
    }

    /// The entries, when the value is a mapping.
    pub fn mapping(&self) -> (r: Option<&[Entry]>)
        ensures
            match self.shape {
                Shape::Mapping(entries) => r matches Some(s) && s@ == entries@,
                _ => r.is_none(),
            },
    {
        match &self.shape {
            Shape::Mapping(entries) => Some(entries.as_slice()),
            _ => None,
        }
    }

    /// How a message names what was found where a kind was expected.
    pub fn describe(&self) -> (r: &'static str)
        ensures
            r@ == describe_spec(self.shape),
    {
        match &self.shape {
            Shape::Scalar(_) => "a scalar",
            Shape::Sequence(_) => "a sequence",
            Shape::Mapping(_) => "a mapping",
        }
    }
}

/// How a message names a shape.
pub open spec fn describe_spec(shape: Shape) -> Seq<char> {
    match shape {
        Shape::Scalar(_) => "a scalar"@,
        Shape::Sequence(_) => "a sequence"@,
        Shape::Mapping(_) => "a mapping"@,
    }
}

/// Which refusal a fault is, which is what picks its identifier.
#[derive(Clone, Copy, Debug, PartialEq, Eq)]
pub enum FaultKind {
    /// The characters are not the subset's grammar at all.
    Invalid,
    /// The characters are YAML the subset deliberately refuses.
    Unsupported,
}

/// One reason a frontmatter block did not load.
#[derive(Debug, PartialEq, Eq)]
pub struct Fault {
    /// Which refusal this is.
    pub kind: FaultKind,
    /// What is wrong, naming the construct.
    pub message: String,
    /// Where the construct is written.
    pub span: Range<usize>,
}

impl Fault {
    /// A fault of `kind`, saying `message`, at `span`.
    pub fn new(kind: FaultKind, message: String, span: Range<usize>) -> (f: Fault)
        ensures
            f.kind == kind,
            f.message@ == message@,
            f.span == span,
    {
        Fault { kind, message, span }
    }
}

/// What a note's frontmatter block turned out to be.
#[derive(Debug, PartialEq, Eq)]
pub enum Front {
    /// The note carries no frontmatter block at all.
    Absent,
    /// The block loaded, with these entries in the order it wrote them.
    Read(Vec<Entry>),
    /// The block did not load; the note has no frontmatter, not an empty one.
    Refused,
}

impl Front {
    /// The entries the block loaded, when it loaded.
    pub fn entries(&self) -> (r: Option<&[Entry]>)
        ensures
            match self {
                Front::Read(entries) => r matches Some(s) && s@ == entries@,
                _ => r.is_none(),
            },
    {
        match self {
            Front::Read(entries) => Some(entries.as_slice()),
            _ => None,
        }
    }
}

/// A note split into its frontmatter and its body.
#[derive(Debug, PartialEq, Eq)]
pub struct Parsed {
    /// What the frontmatter block turned out to be.
    pub front: Front,
    /// Every reason the block did not load, in the order they were found.
    pub faults: Vec<Fault>,
    /// Where the body is: everything after the block.
    pub body: Range<usize>,
}


/// Whether `w` is a copy of `v`: the same span, and the same scalar, items
/// or entries, each a copy in turn.
pub open spec fn copies(v: Value, w: Value) -> bool
    decreases v,
{
    &&& w.span == v.span
    &&& match v.shape {
        Shape::Scalar(t) => w.shape matches Shape::Scalar(u) && u@ == t@,
        Shape::Sequence(items) => w.shape matches Shape::Sequence(out) && out@.len() == items@.len() && forall|i: int|
            0 <= i < items@.len() ==> copies(#[trigger] items@[i], out@[i]),
        Shape::Mapping(entries) => w.shape matches Shape::Mapping(out) && out@.len() == entries@.len() && forall|i: int|
            0 <= i < entries@.len() ==> copies_entry(#[trigger] entries@[i], out@[i]),
    }
}

/// Whether `f` is a copy of `e`: the same key where it was written, and a
/// copy of its value.
pub open spec fn copies_entry(e: Entry, f: Entry) -> bool
    decreases e,
{
    &&& f.key@ == e.key@
    &&& f.key_span == e.key_span
    &&& copies(e.value, f.value)
}

/// A copy of `v`.
fn copy_value(v: &Value) -> (r: Value)
    ensures
        copies(*v, r),
    decreases v,
{
    let shape = match &v.shape {
        Shape::Scalar(t) => Shape::Scalar(t.clone()),
        Shape::Sequence(items) => {
            let mut out: Vec<Value> = Vec::new();
            let mut i: usize = 0;
            while i < items.len()
                invariant
                    i <= items.len(),
                    v.shape == Shape::Sequence(*items),
                    out@.len() == i,
                    forall|k: int| 0 <= k < i ==> copies(#[trigger] items@[k], out@[k]),
                decreases items.len() - i,
            {
                assert(decreases_to!(v => v.shape));
                assert(decreases_to!(v.shape => v.shape->Sequence_0));
                assert(decreases_to!(*items => items@));
                assert(decreases_to!(items@ => items@[i as int]));
                assert(decreases_to!(v => items@[i as int]));
                out.push(copy_value(&items[i]));
                i = i + 1;
            }
            Shape::Sequence(out)
        },
        Shape::Mapping(entries) => {
            let mut out: Vec<Entry> = Vec::new();
            let mut i: usize = 0;
            while i < entries.len()
                invariant
                    i <= entries.len(),
                    v.shape == Shape::Mapping(*entries),
                    out@.len() == i,
                    forall|k: int| 0 <= k < i ==> copies_entry(#[trigger] entries@[k], out@[k]),
                decreases entries.len() - i,
            {
                assert(decreases_to!(v => v.shape));
                assert(decreases_to!(v.shape => v.shape->Mapping_0));
                assert(decreases_to!(*entries => entries@));
                assert(decreases_to!(entries@ => entries@[i as int]));
                assert(decreases_to!(v => entries@[i as int]));
                out.push(copy_entry(&entries[i]));
                i = i + 1;
            }
            Shape::Mapping(out)
        },
    };
    Value { span: v.span.start..v.span.end, shape }
}

/// A copy of `e`.
fn copy_entry(e: &Entry) -> (r: Entry)
    ensures
        copies_entry(*e, r),
    decreases e,
{
    Entry {
        key: e.key.clone(),
        key_span: e.key_span.start..e.key_span.end,
        value: copy_value(&e.value),
    }
}

/// A copy of `entries`.
fn copy_entries(entries: &Vec<Entry>) -> (r: Vec<Entry>)
    ensures
        r@.len() == entries@.len(),
        forall|i: int| 0 <= i < entries@.len() ==> copies_entry(#[trigger] entries@[i], r@[i]),
{
    let mut out: Vec<Entry> = Vec::new();
    let mut i: usize = 0;
    while i < entries.len()
        invariant
            i <= entries@.len(),
            out@.len() == i,
            forall|k: int| 0 <= k < i ==> copies_entry(#[trigger] entries@[k], out@[k]),
        decreases entries.len() - i,
    {
        out.push(copy_entry(&entries[i]));
        i = i + 1;
    }
    out
}

impl Clone for Entry {
    fn clone(&self) -> (r: Entry) {
        copy_entry(self)
    }
}

impl Clone for Value {
    fn clone(&self) -> (r: Value) {
        copy_value(self)
    }
}

impl Clone for Front {
    fn clone(&self) -> (r: Front) {
        match self {
            Front::Absent => Front::Absent,
            Front::Read(entries) => Front::Read(copy_entries(entries)),
            Front::Refused => Front::Refused,
        }
    }
}

impl Clone for Fault {
    fn clone(&self) -> (r: Fault) {
        Fault {
            kind: self.kind,
            message: self.message.clone(),
            span: self.span.start..self.span.end,
        }
    }
}

impl Clone for Parsed {
    fn clone(&self) -> (r: Parsed) {
        let mut faults: Vec<Fault> = Vec::new();
        let mut i: usize = 0;
        while i < self.faults.len()
            decreases self.faults.len() - i,
        {
            let f = &self.faults[i];
            faults.push(Fault { kind: f.kind, message: f.message.clone(), span: f.span.start..f.span.end });
            i = i + 1;
        }
        Parsed { front: self.front.clone(), faults, body: self.body.start..self.body.end }
    }
}

/// The fence that opens and closes a frontmatter block.
pub open spec fn fence() -> Seq<char> {
    seq!['-', '-', '-']
}

/// A note's characters after a leading byte order mark, which is stepped over
/// rather than hiding the block.
pub open spec fn after_mark(s: Seq<char>) -> Seq<char> {
    if s.len() > 0 && s[0] == '\u{feff}' {
        s.drop_first()
    } else {
        s
    }
}

/// The raw lines the grammar reads: the note after its mark, split into lines.
pub open spec fn raw_lines(s: Seq<char>) -> Seq<Seq<char>> {
    lines_spec(after_mark(s))
}

/// How many characters a leading byte order mark takes: one or none.
pub open spec fn mark_len(s: Seq<char>) -> int {
    if s.len() > 0 && s[0] == '\u{feff}' {
        1
    } else {
        0
    }
}

/// Where each raw line starts among the note's characters.
pub open spec fn raw_starts(s: Seq<char>) -> Seq<int> {
    line_starts(after_mark(s), mark_len(s))
}

/// Where the body starts, in characters, after raw line `c`: at the next
/// line, or at the end when there is none.
pub open spec fn body_after(s: Seq<char>, c: int) -> int {
    if c + 1 < raw_lines(s).len() {
        raw_starts(s)[c + 1]
    } else {
        s.len() as int
    }
}

/// Whether a raw line is a fence: `---` at the margin, trailing space aside.
pub open spec fn fence_line(raw: Seq<char>) -> bool {
    indent_of(raw) == 0 && content_of(raw) == fence()
}

/// Whether a note opens a frontmatter block on its first line.
pub open spec fn opens_block(s: Seq<char>) -> bool {
    raw_lines(s).len() > 0 && fence_line(raw_lines(s)[0])
}

/// Whether a note that opens a block also closes it on a later line.
pub open spec fn closes_block(s: Seq<char>) -> bool {
    exists|i: int| 1 <= i < raw_lines(s).len() && #[trigger] fence_line(raw_lines(s)[i])
}

/// Every line of a note, indentation measured and terminators removed; the
/// offsets count a leading byte order mark, so they stay over the note's own
/// characters.
pub fn lines(text: &[char]) -> (r: Vec<Line>)
    ensures
        r@.len() == raw_lines(text@).len(),
        forall|i: int|
            0 <= i < r@.len() ==> {
                &&& (#[trigger] r@[i]).text@ == content_of(raw_lines(text@)[i])
                &&& r@[i].indent == indent_of(raw_lines(text@)[i])
                &&& r@[i].sound()
                &&& r@[i].at + r@[i].text@.len() <= text@.len()
                &&& r@[i].start <= text@.len()
                &&& r@[i].start == raw_starts(text@)[i]
                &&& r@[i].at == r@[i].start + r@[i].indent
            },
        raw_starts(text@).len() == r@.len(),
{
    let base: usize = if text.len() > 0 && text[0] == '\u{feff}' { 1 } else { 0 };
    assert(text@.skip(base as int) =~= after_mark(text@));
    let mut out: Vec<Line> = Vec::new();
    let ghost mut raws: Seq<Seq<char>> = Seq::empty();
    let ghost mut starts: Seq<int> = Seq::empty();
    let mut start: usize = base;
    proof {
        crate::note::body::lemma_line_starts_len(text@.skip(base as int), base as int);
    }
    while start < text.len()
        invariant
            base <= start <= text@.len(),
            text@.skip(base as int) == after_mark(text@),
            raws + lines_spec(text@.skip(start as int)) == raw_lines(text@),
            starts + line_starts(text@.skip(start as int), start as int) == raw_starts(text@),
            starts.len() == raws.len(),
            lines_spec(text@.skip(start as int)).len() == line_starts(text@.skip(start as int), start as int).len(),
            base == mark_len(text@),
            out@.len() == raws.len(),
            forall|i: int|
                0 <= i < out@.len() ==> {
                    &&& (#[trigger] out@[i]).text@ == content_of(raws[i])
                    &&& out@[i].indent == indent_of(raws[i])
                    &&& out@[i].sound()
                    &&& out@[i].at + out@[i].text@.len() <= text@.len()
                    &&& out@[i].start <= text@.len()
                    &&& out@[i].start == starts[i]
                    &&& out@[i].at == out@[i].start + out@[i].indent
                },
        decreases text.len() - start,
    {
        let rest = slice(text, start, text.len());
        assert(rest@ =~= text@.skip(start as int));
        let (k, next) = match find_newline(&rest) {
            Some(k) => (k, start + k + 1),
            None => (rest.len(), text.len()),
        };
        let mut raw = slice(&rest, 0, k);
        if k < rest.len() && raw.len() > 0 && raw[raw.len() - 1] == '\r' {
            raw = slice(&raw, 0, raw.len() - 1);
        }
        let (content, indent) = measure(&raw);
        let line = Line { indent, text: content, at: start + indent, start };
        proof {
            let s = text@.skip(start as int);
            if k < rest.len() {
                assert(raw@ =~= {
                    let l = s.take(k as int);
                    if l.len() > 0 && l.last() == '\r' { l.drop_last() } else { l }
                });
                assert(s.skip(k + 1) =~= text@.skip(start + k + 1));
                assert(lines_spec(s) == seq![raw@] + lines_spec(text@.skip(next as int)));
                assert(line_starts(s, start as int) == seq![start as int] + line_starts(text@.skip(next as int), next as int));
            } else {
                assert(raw@ =~= s);
                assert(text@.skip(next as int) =~= Seq::<char>::empty());
                assert(lines_spec(s) == seq![raw@]);
                assert(line_starts(s, start as int) == seq![start as int]);
            }
            assert(raws.push(raw@) + lines_spec(text@.skip(next as int)) =~= raws + lines_spec(s));
            assert(starts.push(start as int) + line_starts(text@.skip(next as int), next as int) =~= starts + line_starts(s, start as int));
            raws = raws.push(raw@);
            starts = starts.push(start as int);
            crate::note::body::lemma_line_starts_len(text@.skip(next as int), next as int);
        }
        out.push(line);
        start = next;
    }
    proof {
        assert(text@.skip(start as int) =~= Seq::<char>::empty());
        assert(raws + Seq::<Seq<char>>::empty() =~= raws);
        assert(starts + Seq::<int>::empty() =~= starts);
    }
    out
}

/// Whether a line is a frontmatter fence.
pub fn is_fence(line: &Line) -> (b: bool)
    ensures
        b == (line.indent == 0 && line.text@ == fence()),
{
    let dashes = ['-', '-', '-'];
    assert(dashes@ =~= fence());
    line.indent == 0 && crate::chars::same(&line.text, &dashes)
}

/// Where a character offset falls in bytes.
fn byte_at(offsets: &Vec<usize>, at: usize) -> (b: usize)
    requires
        offsets@.len() > 0,
    ensures
        at < offsets@.len() ==> b == offsets@[at as int],
{
    if at < offsets.len() {
        offsets[at]
    } else {
        offsets[offsets.len() - 1]
    }
}

/// Whether `w` is `v` with its spans moved: the same kind of value, and for
/// a scalar the same characters.
pub open spec fn same_shape(v: Value, w: Value) -> bool {
    &&& (w.shape is Scalar <==> v.shape is Scalar)
    &&& (w.shape is Sequence <==> v.shape is Sequence)
    &&& (w.shape is Mapping <==> v.shape is Mapping)
    &&& v.shape matches Shape::Scalar(t) ==> (w.shape matches Shape::Scalar(u) && u@ == t@)
}

/// A value with its spans, and those of everything in it, moved from
/// character offsets to byte offsets.
fn value_in_bytes(v: &Value, offsets: &Vec<usize>) -> (r: Value)
    requires
        offsets@.len() > 0,
    ensures
        same_shape(*v, r),
    decreases v,
{
    let shape = match &v.shape {
        Shape::Scalar(t) => Shape::Scalar(t.clone()),
        Shape::Sequence(items) => {
            let mut out: Vec<Value> = Vec::new();
            let mut i: usize = 0;
            while i < items.len()
                invariant
                    i <= items.len(),
                    offsets@.len() > 0,
                    v.shape == Shape::Sequence(*items),
                decreases items.len() - i,
            {
                assert(decreases_to!(v => v.shape));
                assert(decreases_to!(v.shape => v.shape->Sequence_0));
                assert(decreases_to!(*items => items@));
                assert(decreases_to!(items@ => items@[i as int]));
                assert(decreases_to!(v => items@[i as int]));
                out.push(value_in_bytes(&items[i], offsets));
                i = i + 1;
            }
            Shape::Sequence(out)
        },
        Shape::Mapping(entries) => {
            let mut out: Vec<Entry> = Vec::new();
            let mut i: usize = 0;
            while i < entries.len()
                invariant
                    i <= entries.len(),
                    offsets@.len() > 0,
                    v.shape == Shape::Mapping(*entries),
                decreases entries.len() - i,
            {
                assert(decreases_to!(v => v.shape));
                assert(decreases_to!(v.shape => v.shape->Mapping_0));
                assert(decreases_to!(*entries => entries@));
                assert(decreases_to!(entries@ => entries@[i as int]));
                assert(decreases_to!(v => entries@[i as int]));
                out.push(entry_in_bytes(&entries[i], offsets));
                i = i + 1;
            }
            Shape::Mapping(out)
        },
    };
    Value { span: byte_at(offsets, v.span.start)..byte_at(offsets, v.span.end), shape }
}

/// An entry with its spans moved to byte offsets.
fn entry_in_bytes(e: &Entry, offsets: &Vec<usize>) -> (r: Entry)
    requires
        offsets@.len() > 0,
    ensures
        r.key@ == e.key@,
        same_shape(e.value, r.value),
    decreases e,
{
    Entry {
        key: e.key.clone(),
        key_span: byte_at(offsets, e.key_span.start)..byte_at(offsets, e.key_span.end),
        value: value_in_bytes(&e.value, offsets),
    }
}

/// A block's entries and faults with their spans moved to byte offsets.
fn block_in_bytes(entries: &Vec<Entry>, faults: &Vec<Fault>, offsets: &Vec<usize>) -> (r: (Vec<Entry>, Vec<Fault>))
    requires
        offsets@.len() > 0,
    ensures
        r.0@.len() == entries@.len(),
        forall|i: int| 0 <= i < entries@.len() ==> (#[trigger] r.0@[i]).key@ == entries@[i].key@,
        forall|i: int| 0 <= i < entries@.len() ==> same_shape(entries@[i].value, (#[trigger] r.0@[i]).value),
        r.1@.len() == faults@.len(),
{
    let mut out: Vec<Entry> = Vec::new();
    let mut i: usize = 0;
    while i < entries.len()
        invariant
            i <= entries.len(),
            out@.len() == i,
            forall|k: int| 0 <= k < i ==> (#[trigger] out@[k]).key@ == entries@[k].key@,
            forall|k: int| 0 <= k < i ==> same_shape(entries@[k].value, (#[trigger] out@[k]).value),
            offsets@.len() > 0,
        decreases entries.len() - i,
    {
        out.push(entry_in_bytes(&entries[i], offsets));
        i = i + 1;
    }
    let mut moved: Vec<Fault> = Vec::new();
    let mut j: usize = 0;
    while j < faults.len()
        invariant
            j <= faults.len(),
            moved@.len() == j,
            offsets@.len() > 0,
        decreases faults.len() - j,
    {
        let f = &faults[j];
        let span = byte_at(offsets, f.span.start)..byte_at(offsets, f.span.end);
        moved.push(Fault::new(f.kind, f.message.clone(), span));
        j = j + 1;
    }
    (out, moved)
}

/// Whether the raw line `raw` writes the entry `e` at the margin: a
/// `key: value` line the subset reads, whose key is `e`'s, and whose value,
/// where the line writes one, is what the line spells.
pub open spec fn written_at_margin(raw: Seq<char>, e: Entry) -> bool {
    let text = content_of(raw);
    &&& indent_of(raw) == 0
    &&& !block::refuses_key(text)
    &&& scalar::key_spec(text) matches Some((k, n, a)) && e.key@ == k && (a < text.len() ==> block::inline_shape(
        text.skip(a),
        e.value,
    ))
}

/// Whether one of the block's lines, after the opening fence, writes `e` at
/// the margin.
pub open spec fn margin_written(raws: Seq<Seq<char>>, e: Entry) -> bool {
    exists|j: int| 1 <= j < raws.len() && #[trigger] written_at_margin(raws[j], e)
}

/// An entry a block line writes keeps what it says once its spans move.
proof fn lemma_written_at_margin(line: Line, raw: Seq<char>, e: Entry, moved: Entry)
    requires
        block::written_entry(line, 0, e),
        line.text@ == content_of(raw),
        line.indent == indent_of(raw),
        moved.key@ == e.key@,
        same_shape(e.value, moved.value),
    ensures
        written_at_margin(raw, moved),
{
}

/// Whether a raw block line is a flat `key: value` line: at the margin, not
/// a sequence item or `...`, a key the subset reads, with a plain scalar
/// written on the line.
pub open spec fn flat_raw(raw: Seq<char>) -> bool {
    let text = content_of(raw);
    &&& indent_of(raw) == 0
    &&& !block::item_spec(text)
    &&& text != block::document_end()
    &&& !block::refuses_key(text)
    &&& scalar::key_spec(text) matches Some((k, n, a)) && a < text.len() && block::plain_written(text.skip(a))
}

/// The key a flat raw line writes.
pub open spec fn flat_raw_key(raw: Seq<char>) -> Seq<char> {
    scalar::key_spec(content_of(raw)).unwrap().0
}

/// Whether line `c` is the fence that closes the block the first line opens.
pub open spec fn closes_at(raws: Seq<Seq<char>>, c: int) -> bool {
    &&& 1 <= c < raws.len()
    &&& fence_line(raws[c])
    &&& forall|j: int| 1 <= j < c ==> !fence_line(#[trigger] raws[j])
}

/// Whether the raw lines between the fences, before line `c`, are flat:
/// each blank, a comment, or a flat `key: value` line, and no key written
/// twice.
pub open spec fn flat_block(raws: Seq<Seq<char>>, c: int) -> bool {
    &&& forall|j: int| 1 <= j < c ==> block::ignorable(content_of(#[trigger] raws[j])) || flat_raw(raws[j])
    &&& forall|i: int, j: int|
        1 <= i < j < c && flat_raw(#[trigger] raws[i]) && flat_raw(#[trigger] raws[j]) ==> flat_raw_key(raws[i])
            != flat_raw_key(raws[j])
}

/// Whether `entries` are the entries raw lines `1..c` write, one per line
/// that is not blank or a comment, in the order written; `origin` says which
/// line each comes from.
pub open spec fn raw_origin(raws: Seq<Seq<char>>, c: int, entries: Seq<Entry>, origin: Seq<int>) -> bool {
    &&& origin.len() == entries.len()
    &&& forall|i: int|
        0 <= i < origin.len() ==> 1 <= #[trigger] origin[i] < c && !block::ignorable(content_of(raws[origin[i]]))
            && written_at_margin(raws[origin[i]], entries[i])
    &&& forall|i: int, j: int| 0 <= i < j < origin.len() ==> #[trigger] origin[i] < #[trigger] origin[j]
    &&& forall|j: int| 1 <= j < c && !block::ignorable(content_of(#[trigger] raws[j])) ==> exists|i: int|
        0 <= i < origin.len() && origin[i] == j
}

/// Whether `entries` are exactly the entries raw lines `1..c` write.
pub open spec fn reads_raw(raws: Seq<Seq<char>>, c: int, entries: Seq<Entry>) -> bool {
    exists|origin: Seq<int>| #[trigger] raw_origin(raws, c, entries, origin)
}

/// What reading the frontmatter of `text` answered: no block when the note
/// opens none; a loaded block with no fault, every value in one of the four
/// shapes and no key written twice; a refused one with every fault; and one
/// fault for a block that is never closed. The body runs to the end of the
/// note.
#[verifier::opaque]
pub open spec fn outcome(text: Seq<char>, r: Parsed) -> bool {
    &&& r.body.start <= r.body.end
    &&& r.body.end == byte_len(text)
    &&& !opens_block(text) <==> r.front is Absent
    &&& r.front is Absent ==> r.faults@.len() == 0 && r.body.start == 0
    &&& r.front matches Front::Read(entries) ==> r.faults@.len() == 0 && shape::admitted(entries@)
        && flow::distinct_keys(entries@)
    &&& r.front matches Front::Read(entries) ==> forall|i: int|
        0 <= i < entries@.len() ==> margin_written(raw_lines(text), #[trigger] entries@[i])
    &&& forall|c: int|
        opens_block(text) && #[trigger] closes_at(raw_lines(text), c) && flat_block(raw_lines(text), c) ==> (r.front matches Front::Read(
            entries,
        ) && reads_raw(raw_lines(text), c, entries@))
    &&& r.front is Refused <==> r.faults@.len() > 0
    &&& opens_block(text) && !closes_block(text) ==> r.faults@.len() == 1 && r.faults@[0].kind == FaultKind::Invalid
    &&& opens_block(text) && !closes_block(text) ==> {
        &&& r.faults@[0].span.start == byte_len(text.take(raw_starts(text)[0]))
        &&& r.faults@[0].span.end == byte_len(text.take(raw_starts(text)[0] + 3))
        &&& r.body.start == byte_len(text.take(body_after(text, 0)))
    }
    &&& forall|c: int|
        opens_block(text) && #[trigger] closes_at(raw_lines(text), c) ==> r.body.start == byte_len(text.take(body_after(text, c)))
}

/// Reads a note's frontmatter block, and says where its body starts. Every
/// span is a byte range over the note.
pub fn read(text: &str) -> (r: Parsed)
    ensures
        outcome(text@, r),
{
    reveal(outcome);
    let (chars, offsets) = byte_offsets(text);
    let total = offsets[chars.len()];
    assert(chars@.take(chars@.len() as int) =~= chars@);
    let lines = lines(&chars);
    if lines.len() == 0 || !is_fence(&lines[0]) {
        return Parsed { front: Front::Absent, faults: Vec::new(), body: 0..total };
    }
    let mut closing: usize = 1;
    while closing < lines.len() && !is_fence(&lines[closing])
        invariant
            1 <= closing <= lines@.len(),
            lines@.len() == raw_lines(chars@).len(),
            forall|i: int| 0 <= i < lines@.len() ==> (#[trigger] lines@[i]).text@ == content_of(raw_lines(chars@)[i])
                && lines@[i].indent == indent_of(raw_lines(chars@)[i]),
            forall|i: int| 1 <= i < closing ==> !fence_line(#[trigger] raw_lines(chars@)[i]),
        decreases lines.len() - closing,
    {
        closing = closing + 1;
    }
    if closing == lines.len() {
        let opening = &lines[0];
        let span = byte_at(&offsets, opening.at)..byte_at(&offsets, opening.end());
        let fault = Fault::new(
            FaultKind::Invalid,
            String::from_str("the frontmatter block opens with `---` and is never closed"),
            span,
        );
        let start = if lines.len() > 1 { lines[1].start } else { chars.len() };
        let body = byte_at(&offsets, start);
        let mut faults: Vec<Fault> = Vec::new();
        faults.push(fault);
        proof {
            crate::chars::lemma_byte_len_prefix(chars@, start as int, chars@.len() as int);
            assert(chars@.take(chars@.len() as int) =~= chars@);
        }
        return Parsed { front: Front::Refused, faults, body: body..total };
    }
    assert(fence_line(raw_lines(chars@)[closing as int]));
    assert(closes_block(text@));
    let mut block: Vec<Line> = Vec::new();
    let mut i: usize = 1;
    while i < closing
        invariant
            1 <= i <= closing < lines@.len(),
            forall|k: int| 0 <= k < lines@.len() ==> (#[trigger] lines@[k]).sound(),
            forall|k: int| 0 <= k < block@.len() ==> (#[trigger] block@[k]).sound(),
            block@.len() == i - 1,
            forall|k: int|
                0 <= k < block@.len() ==> (#[trigger] block@[k]).text@ == lines@[k + 1].text@ && block@[k].indent
                    == lines@[k + 1].indent && block@[k].at == lines@[k + 1].at,
        decreases closing - i,
    {
        block.push(lines[i].copy());
        i = i + 1;
    }
    let ghost block_lines = block@;
    let (read_entries, read_faults) = block::read(block);
    let (entries, mut faults) = block_in_bytes(&read_entries, &read_faults, &offsets);
    assert forall|k: int| 0 <= k < entries@.len() implies margin_written(raw_lines(text@), #[trigger] entries@[k]) by {
        assert(block::margin_entry(block_lines, read_entries@[k]));
        let j = choose|j: int| 0 <= j < block_lines.len() && #[trigger] block::written_entry(block_lines[j], 0, read_entries@[k]);
        lemma_written_at_margin(block_lines[j], raw_lines(chars@)[j + 1], read_entries@[k], entries@[k]);
        assert(chars@ == text@);
        assert(written_at_margin(raw_lines(text@)[j + 1], entries@[k]));
    }
    assert(read_faults@.len() == 0 ==> flow::distinct_keys(entries@)) by {
        if read_faults@.len() == 0 {
            assert forall|i: int, j: int| 0 <= i < j < entries@.len() implies #[trigger] entries@[i].key@
                != #[trigger] entries@[j].key@ by {
                assert(entries@[i].key@ == read_entries@[i].key@);
                assert(entries@[j].key@ == read_entries@[j].key@);
            }
        }
    }
    let ghost raws = raw_lines(chars@);
    let ghost flat_here = flat_block(raws, closing as int);
    proof {
        if flat_here {
            assert forall|j: int| 0 <= j < block_lines.len() implies block::ignorable((#[trigger] block_lines[j]).text@)
                || block::flat_entry(block_lines[j]) by {
                assert(block::ignorable(content_of(raws[j + 1])) || flat_raw(raws[j + 1]));
            }
            assert forall|i: int, j: int|
                0 <= i < j < block_lines.len() && block::flat_entry(#[trigger] block_lines[i]) && block::flat_entry(
                    #[trigger] block_lines[j],
                ) implies block::flat_key(block_lines[i]) != block::flat_key(block_lines[j]) by {
                assert(flat_raw(raws[i + 1]) && flat_raw(raws[j + 1]));
            }
            assert(block::flat(block_lines));
            assert(block::read_exactly(block_lines, read_entries@));
            let o = choose|o: Seq<int>| #[trigger] block::reads_lines(block_lines, read_entries@, o);
            let shifted = o.map_values(|x: int| x + 1);
            assert forall|i: int| 0 <= i < shifted.len() implies 1 <= #[trigger] shifted[i] < closing && !block::ignorable(
                content_of(raws[shifted[i]]),
            ) && written_at_margin(raws[shifted[i]], entries@[i]) by {
                lemma_written_at_margin(block_lines[o[i]], raws[o[i] + 1], read_entries@[i], entries@[i]);
            }
            assert forall|i: int, j: int| 0 <= i < j < shifted.len() implies #[trigger] shifted[i] < #[trigger] shifted[j] by {
                assert(o[i] < o[j]);
            }
            assert forall|j: int| 1 <= j < closing && !block::ignorable(content_of(#[trigger] raws[j])) implies exists|i: int|
                0 <= i < shifted.len() && shifted[i] == j by {
                assert(!block::ignorable(block_lines[j - 1].text@));
                let i = choose|i: int| 0 <= i < o.len() && o[i] == j - 1;
                assert(shifted[i] == j);
            }
            assert(raw_origin(raws, closing as int, entries@, shifted));
            assert forall|i: int| 0 <= i < entries@.len() implies shape::value_admitted(#[trigger] entries@[i].value) by {
                assert(block::written_entry(block_lines[o[i]], 0, read_entries@[i]));
                assert(block::flat_entry(block_lines[o[i]]));
            }
        }
    }
    shape::check(&entries, &mut faults);
    proof {
        if flat_here {
            assert(faults@.len() == 0);
        }
        assert forall|c: int| opens_block(text@) && #[trigger] closes_at(raw_lines(text@), c) implies c == closing by {
            assert(chars@ == text@);
            if c < closing {
                assert(!fence_line(raws[c]));
            } else if c > closing {
                assert(!fence_line(raws[closing as int]));
            }
        }
    }
    let start = if closing + 1 < lines.len() { lines[closing + 1].start } else { chars.len() };
    let body = byte_at(&offsets, start);
    proof {
        crate::chars::lemma_byte_len_prefix(chars@, start as int, chars@.len() as int);
        assert(chars@.take(chars@.len() as int) =~= chars@);
    }
    let front = if faults.len() == 0 { Front::Read(entries) } else { Front::Refused };
    Parsed { front, faults, body: body..total }
}

} // verus!
