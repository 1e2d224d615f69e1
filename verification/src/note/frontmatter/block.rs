//! The block-style half of the subset: lines, indentation, and their entries.
//!
//! The walk is line-oriented and indentation-driven, exactly as YAML's block
//! style is, with three narrowings: a plain scalar is one line; indentation is
//! spaces, a tab being refused; and a sequence item's mapping starts on the
//! item's own line. Every position here is a character offset into the note.

use core::ops::Range;

use vstd::prelude::*;

use crate::chars::{chars_of, join3, slice, string_of};

use super::flow::{distinct_keys, key_written, written_twice};
use super::scalar::{count_spaces, key, opens_flow, plain, quoted, refused_value};
use super::{Entry, Fault, FaultKind, MAX_NESTING, Shape, Value};

verus! {

/// One line of a note, as the grammar sees it: the content without its
/// indentation, trailing spaces, or terminator; how many spaces indented it;
/// where the content begins; and where the line begins.
#[derive(Debug)]
pub struct Line {
    /// How many spaces precede the content.
    pub indent: usize,
    /// The content.
    pub text: Vec<char>,
    /// The character offset of the content.
    pub at: usize,
    /// The character offset of the line.
    pub start: usize,
}

impl Line {
    /// A copy of this line.
    pub fn copy(&self) -> (r: Line)
        ensures
            r.indent == self.indent,
            r.text@ == self.text@,
            r.at == self.at,
            r.start == self.start,
    {
        Line { indent: self.indent, text: slice(&self.text, 0, self.text.len()), at: self.at, start: self.start }
    }

    /// Whether this line is sound: its content ends inside the offsets a
    /// `usize` holds.
    pub open spec fn sound(&self) -> bool {
        self.at + self.text@.len() <= usize::MAX && self.indent <= self.at
    }

    /// Where the content ends.
    pub fn end(&self) -> (r: usize)
        requires
            self.sound(),
        ensures
            r == self.at + self.text@.len(),
    {
        self.at + self.text.len()
    }

    /// Where the content is.
    pub fn range(&self) -> (r: Range<usize>)
        requires
            self.sound(),
        ensures
            r.start == self.at,
            r.end == self.at + self.text@.len(),
    {
        self.at..self.at + self.text.len()
    }

    /// Whether the line carries nothing the grammar reads.
    pub fn is_ignorable(&self) -> (b: bool)
        ensures
            b == ignorable(self.text@),
    {
        self.text.len() == 0 || self.text[0] == '#'
    }
}

/// Whether a line's content carries nothing the grammar reads: it is empty or
/// a comment.
pub open spec fn ignorable(text: Seq<char>) -> bool {
    text.len() == 0 || text[0] == '#'
}

/// Whether the line at `index` is stepped over by a peek, or opens a mapping
/// (or, with `items`, a sequence) at `indent`: either way, reading a
/// collection there consumes it.
pub open spec fn opens_here(lines: Seq<Line>, index: usize, indent: usize, items: bool) -> bool {
    index < lines.len() && {
        let text = lines[index as int].text@;
        ||| ignorable(text)
        ||| text == document_end()
        ||| (lines[index as int].indent == indent && item_spec(text) == items)
    }
}

/// Whether a peek steps over a line: blank, a comment, or a `...`.
pub open spec fn skipped(line: Line) -> bool {
    ignorable(line.text@) || line.text@ == document_end()
}

/// The first line at or after `from` that a peek reads, when there is one.
pub open spec fn first_read(lines: Seq<Line>, from: int) -> Option<int>
    decreases lines.len() - from,
{
    if from < 0 || from >= lines.len() {
        None
    } else if skipped(lines[from]) {
        first_read(lines, from + 1)
    } else {
        Some(from)
    }
}

/// The document-end marker, which only a multi-document stream writes.
pub open spec fn document_end() -> Seq<char> {
    seq!['.', '.', '.']
}

/// Whether a line opens a sequence item.
pub open spec fn item_spec(text: Seq<char>) -> bool {
    (text.len() == 1 && text[0] == '-') || (text.len() >= 2 && text[0] == '-' && text[1] == ' ')
}

/// Whether a line opens a sequence item.
pub fn is_item(text: &[char]) -> (b: bool)
    ensures
        b == item_spec(text@),
{
    (text.len() == 1 && text[0] == '-') || (text.len() >= 2 && text[0] == '-' && text[1] == ' ')
}

/// Whether a sequence item's content opens a mapping rather than a scalar.
pub fn opens_mapping(text: &[char]) -> (b: bool)
    ensures
        b == (!super::scalar::opens_flow_spec(text@) && super::scalar::key_spec(text@).is_some()),
{
    !opens_flow(text) && key(text).is_some()
}

/// Whether a line cannot open a mapping entry: a tab indents it, it writes an
/// explicit key or a merge key, a flow collection stands where the key would,
/// or it opens a construct the subset refuses outright.
pub open spec fn refuses_key(text: Seq<char>) -> bool {
    ||| (text.len() > 0 && text[0] == '\t')
    ||| (text.len() == 1 && text[0] == '?')
    ||| (text.len() >= 2 && text[0] == '?' && text[1] == ' ')
    ||| (text.len() >= 2 && text[0] == '<' && text[1] == '<')
    ||| super::scalar::opens_flow_spec(text)
    ||| super::scalar::refused_value_spec(text).is_some()
}

/// Why a line cannot open a mapping entry, when it cannot: which refusal, and
/// what it says.
pub fn refused_key(text: &[char]) -> (r: Option<(FaultKind, String)>)
    ensures
        r.is_some() == refuses_key(text@),
        text@.len() > 0 && text@[0] == '\t' ==> (r matches Some((k, _)) && k == FaultKind::Invalid),
        (r matches Some((k, _)) && k == FaultKind::Invalid) ==> text@.len() > 0 && text@[0] == '\t',
        r.is_none() ==> super::scalar::refused_value_spec(text@).is_none() && !super::scalar::opens_flow_spec(text@),
{
    if text.len() > 0 && text[0] == '\t' {
        return Some((FaultKind::Invalid, String::from_str("a tab indents this line; the subset indents with spaces")));
    }
    if (text.len() == 1 && text[0] == '?') || (text.len() >= 2 && text[0] == '?' && text[1] == ' ') {
        return Some((FaultKind::Unsupported, String::from_str("`?` writes an explicit key, which the subset refuses")));
    }
    if text.len() >= 2 && text[0] == '<' && text[1] == '<' {
        return Some((FaultKind::Unsupported, String::from_str("`<<` writes a merge key, which resolves an alias")));
    }
    if opens_flow(text) {
        return Some((FaultKind::Unsupported, String::from_str("a flow collection cannot be a key: keys are strings")));
    }
    match refused_value(text) {
        Some(message) => Some((FaultKind::Unsupported, message)),
        None => None,
    }
}

/// Whether `v` is a scalar with no characters, at `at`.
pub open spec fn empty_at(v: Value, at: int) -> bool {
    v.shape matches Shape::Scalar(t) && t@.len() == 0 && v.span.start == at && v.span.end == at
}

/// Whether what follows a quoted scalar on its line is nothing, or white
/// space and then a comment.
pub open spec fn comment_or_nothing(rest: Seq<char>) -> bool
    decreases rest.len(),
{
    if rest.len() == 0 {
        true
    } else if crate::note::body::is_space(rest[0]) {
        comment_or_nothing(rest.drop_first())
    } else {
        rest[0] == '#'
    }
}

/// What a value written on its key's line reads as: nothing, at where it
/// starts, for a construct the subset refuses or a quote that does not
/// close; a sequence or a mapping, or nothing where it cannot be read, for a
/// flow collection opened by `[` or `{`; the characters a quoted scalar
/// spells, over the quotes; or the plain scalar the line writes, up to a
/// comment, without trailing white space.
pub open spec fn inline_value(text: Seq<char>, at: int, v: Value) -> bool {
    if super::scalar::refused_value_spec(text).is_some() {
        empty_at(v, at)
    } else if super::scalar::opens_flow_spec(text) {
        if text[0] == '[' {
            empty_at(v, at) || v.shape is Sequence
        } else {
            empty_at(v, at) || v.shape is Mapping
        }
    } else if super::flow::quote_first(text) {
        match super::scalar::quoted_spec(text) {
            Ok((t, n)) => v.shape matches Shape::Scalar(s) && s@ == t && v.span.start == at && v.span.end == at + n,
            Err(_) => empty_at(v, at),
        }
    } else {
        let t = super::scalar::plain_spec(text);
        v.shape matches Shape::Scalar(s) && s@ == t && v.span.start == at && v.span.end == at + t.len()
    }
}

/// What a value written on its key's line reads as, spans aside.
pub open spec fn inline_shape(text: Seq<char>, v: Value) -> bool {
    if super::scalar::refused_value_spec(text).is_some() {
        v.shape matches Shape::Scalar(t) && t@.len() == 0
    } else if super::scalar::opens_flow_spec(text) {
        if text[0] == '[' {
            (v.shape matches Shape::Scalar(t) && t@.len() == 0) || v.shape is Sequence
        } else {
            (v.shape matches Shape::Scalar(t) && t@.len() == 0) || v.shape is Mapping
        }
    } else if super::flow::quote_first(text) {
        match super::scalar::quoted_spec(text) {
            Ok((t, n)) => v.shape matches Shape::Scalar(s) && s@ == t,
            Err(_) => v.shape matches Shape::Scalar(t) && t@.len() == 0,
        }
    } else {
        v.shape matches Shape::Scalar(s) && s@ == super::scalar::plain_spec(text)
    }
}

/// Whether `e` is the entry `line` writes at `indent`: a `key: value` line
/// the subset reads, whose key is the key the line writes, where it writes
/// it, and whose value, when it is written on the line, is what the line
/// spells.
pub open spec fn written_entry(line: Line, indent: usize, e: Entry) -> bool {
    &&& line.indent == indent
    &&& !refuses_key(line.text@)
    &&& super::scalar::key_spec(line.text@) matches Some((k, n, a)) && {
        &&& e.key@ == k
        &&& e.key_span.start == line.at
        &&& e.key_span.end == line.at + n
        &&& a < line.text@.len() ==> inline_value(line.text@.skip(a), line.at + a, e.value)
    }
}

/// Whether a value written on its key's line is a plain scalar: nothing the
/// subset refuses, no flow collection, no quote.
pub open spec fn plain_written(text: Seq<char>) -> bool {
    &&& super::scalar::refused_value_spec(text).is_none()
    &&& !super::scalar::opens_flow_spec(text)
    &&& !super::flow::quote_first(text)
}

/// Whether a line is a `key: value` line at the margin whose value is a
/// plain scalar written on the line.
pub open spec fn flat_entry(line: Line) -> bool {
    &&& line.indent == 0
    &&& !item_spec(line.text@)
    &&& line.text@ != document_end()
    &&& !refuses_key(line.text@)
    &&& super::scalar::key_spec(line.text@) matches Some((k, n, a)) && a < line.text@.len() && plain_written(
        line.text@.skip(a),
    )
}

/// The key a flat entry line writes.
pub open spec fn flat_key(line: Line) -> Seq<char> {
    super::scalar::key_spec(line.text@).unwrap().0
}

/// Whether a block is flat: every line blank, a comment, or a flat entry
/// line, and no key written twice.
pub open spec fn flat(lines: Seq<Line>) -> bool {
    &&& forall|j: int| 0 <= j < lines.len() ==> ignorable((#[trigger] lines[j]).text@) || flat_entry(lines[j])
    &&& forall|i: int, j: int|
        0 <= i < j < lines.len() && flat_entry(#[trigger] lines[i]) && flat_entry(#[trigger] lines[j]) ==> flat_key(lines[i])
            != flat_key(lines[j])
}

/// Whether `entries` are exactly the entries the lines write, one per line
/// that is not blank or a comment, in the order written, each read from its
/// line.
pub open spec fn reads_lines(lines: Seq<Line>, entries: Seq<Entry>, origin: Seq<int>) -> bool {
    &&& origin.len() == entries.len()
    &&& forall|i: int| 0 <= i < origin.len() ==> 0 <= #[trigger] origin[i] < lines.len() && !ignorable(lines[origin[i]].text@)
        && written_entry(lines[origin[i]], 0, entries[i])
    &&& forall|i: int, j: int| 0 <= i < j < origin.len() ==> #[trigger] origin[i] < #[trigger] origin[j]
    &&& forall|j: int| 0 <= j < lines.len() && !ignorable(#[trigger] lines[j].text@) ==> exists|i: int| 0 <= i < origin.len() && origin[i] == j
}

/// Whether `entries` are exactly the entries the lines write, in order.
pub open spec fn read_exactly(lines: Seq<Line>, entries: Seq<Entry>) -> bool {
    exists|origin: Seq<int>| #[trigger] reads_lines(lines, entries, origin)
}

/// Whether `e` is the entry one of `lines` writes at the margin.
pub open spec fn margin_entry(lines: Seq<Line>, e: Entry) -> bool {
    exists|j: int| 0 <= j < lines.len() && #[trigger] written_entry(lines[j], 0, e)
}

/// What a value written beneath its line reads as, when the lines from
/// `index` on hold what follows it and it sits at `indent`, `depth` deep:
/// nothing, at `blank_at`, where no line follows that opens a collection
/// under it; nothing, where the line opening one is, when it would nest
/// deeper than the subset reads; else a sequence opened by an item at
/// `indent`, or a mapping opened by a line indented further, starting at
/// that line.
pub open spec fn nested_value(lines: Seq<Line>, index: int, indent: usize, depth: usize, blank_at: int, v: Value) -> bool {
    match first_read(lines, index) {
        None => empty_at(v, blank_at),
        Some(j) => {
            let l = lines[j];
            if (l.indent == indent && item_spec(l.text@)) || l.indent > indent {
                if depth > MAX_NESTING {
                    empty_at(v, l.at as int)
                } else {
                    v.span.start == l.at && if item_spec(l.text@) {
                        v.shape is Sequence
                    } else {
                        v.shape is Mapping
                    }
                }
            } else {
                empty_at(v, blank_at)
            }
        },
    }
}

/// What an item line writes after its `-` and the spaces that follow it.
pub open spec fn item_inner(text: Seq<char>) -> Seq<char> {
    text.skip(1).skip(super::scalar::leading_spaces(text.skip(1)) as int)
}

/// Where what an item line writes after its `-` begins.
pub open spec fn item_at(line: Line) -> int {
    line.at + 1 + super::scalar::leading_spaces(line.text@.skip(1))
}

/// What a sequence item reads as: what is written beneath it, when nothing
/// follows its `-`; a collection opened where its first key is, when what
/// follows is a `key:` (nothing there when it would nest deeper than the
/// subset reads), a sequence where that is itself an item and a mapping
/// otherwise; else the value written on the line.
pub open spec fn item_value(lines: Seq<Line>, index: int, line: Line, depth: usize, v: Value) -> bool {
    let inner = item_inner(line.text@);
    if inner.len() == 0 {
        nested_value(lines, index + 1, line.indent, (depth + 1) as usize, line.at + line.text@.len(), v)
    } else if !super::scalar::opens_flow_spec(inner) && super::scalar::key_spec(inner).is_some() {
        if depth + 1 > MAX_NESTING {
            empty_at(v, item_at(line))
        } else {
            v.span.start == item_at(line) && if item_spec(inner) {
                v.shape is Sequence
            } else {
                v.shape is Mapping
            }
        }
    } else {
        inline_value(inner, item_at(line), v)
    }
}

/// A key that carries nothing at all: a scalar with no characters.
fn empty(at: usize) -> (v: Value)
    ensures
        v.span.start == at,
        v.span.end == at,
        v.shape matches Shape::Scalar(t) && t@.len() == 0,
{
    Value { span: at..at, shape: Shape::Scalar(String::new()) }
}

/// Where a value sits, and how deep a collection written there would be.
#[derive(Clone, Copy)]
struct Spot {
    at: usize,
    indent: usize,
    depth: usize,
}

/// One block being walked.
struct Block {
    lines: Vec<Line>,
    index: usize,
    faults: Vec<Fault>,
}

/// Reads a frontmatter block's lines as a mapping of keys to values, and
/// every reason the lines are not the subset.
pub fn read(lines: Vec<Line>) -> (r: (Vec<Entry>, Vec<Fault>))
    requires
        forall|i: int| 0 <= i < lines@.len() ==> (#[trigger] lines@[i]).sound(),
    ensures
        r.1@.len() == 0 ==> distinct_keys(r.0@),
        forall|i: int| 0 <= i < r.0@.len() ==> margin_entry(lines@, #[trigger] r.0@[i]),
        flat(lines@) ==> r.1@.len() == 0 && read_exactly(lines@, r.0@),
        r.0@.len() == 0 && r.1@.len() == 0 ==> forall|j: int| 0 <= j < lines@.len() ==> ignorable(#[trigger] lines@[j].text@),
{
    let ghost given = lines@;
    let mut block = Block { lines, index: 0, faults: Vec::new() };
    let (entries, Ghost(origin)) = block.document();
    assert forall|i: int| 0 <= i < entries@.len() implies margin_entry(given, #[trigger] entries@[i]) by {
        let j = origin[i];
        assert(block.lines@[j] == given[j] || block.lines@[j].indent > 0);
        assert(written_entry(given[j], 0, entries@[i]));
    }
    assert(given == lines@);
    assert(flat(given) ==> reads_lines(given, entries@, origin));
    assert(flat(given) ==> read_exactly(given, entries@));
    (entries, block.faults)
}

impl Block {
    spec fn ok(&self) -> bool {
        &&& self.index <= self.lines@.len()
        &&& forall|i: int| 0 <= i < self.lines@.len() ==> (#[trigger] self.lines@[i]).sound()
    }

    /// Whether the line at the cursor is `line`, and one the grammar reads.
    spec fn fresh(&self, line: Line) -> bool {
        &&& self.index < self.lines@.len()
        &&& self.lines@[self.index as int].text@ == line.text@
        &&& self.lines@[self.index as int].indent == line.indent
        &&& self.lines@[self.index as int].at == line.at
        &&& !ignorable(line.text@)
        &&& line.text@ != document_end()
    }

    spec fn moved(&self, before: &Block) -> bool {
        &&& self.ok()
        &&& self.lines@.len() == before.lines@.len()
        &&& self.index >= before.index
        &&& self.faults@.len() >= before.faults@.len()
        &&& forall|k: int| 0 <= k < before.index ==> #[trigger] self.lines@[k] == before.lines@[k]
        &&& forall|k: int| 0 <= k < self.lines@.len() ==> #[trigger] self.lines@[k] == before.lines@[k] || self.lines@[k].indent > 0
    }

    /// The whole block: one mapping at the left margin, and nothing else.
    fn document(&mut self) -> (r: (Vec<Entry>, Ghost<Seq<int>>))
        requires
            old(self).ok(),
        ensures
            final(self).moved(old(self)),
            distinct_keys(r.0@) || final(self).faults@.len() > old(self).faults@.len(),
            r.1@.len() == r.0@.len(),
            forall|i: int|
                0 <= i < r.0@.len() ==> old(self).index <= #[trigger] r.1@[i] < final(self).index && written_entry(
                    final(self).lines@[r.1@[i]],
                    0,
                    r.0@[i],
                ),
            r.0@.len() == 0 && final(self).faults@.len() == old(self).faults@.len() ==> forall|j: int|
                old(self).index <= j < old(self).lines@.len() ==> ignorable(#[trigger] old(self).lines@[j].text@),
            old(self).index == 0 && flat(old(self).lines@) ==> final(self).faults@.len() == old(self).faults@.len()
                && reads_lines(old(self).lines@, r.0@, r.1@),
    {
        let (entries, Ghost(origin)) = self.mapping(0, 0);
        if let Some(line) = self.peek() {
            self.refuse(
                FaultKind::Invalid,
                String::from_str("frontmatter is a mapping of keys to values"),
                line.range(),
            );
            self.index = self.lines.len();
        }
        (entries, Ghost(origin))
    }

    fn refuse(&mut self, kind: FaultKind, message: String, span: Range<usize>)
        ensures
            final(self).lines == old(self).lines,
            final(self).lines@ == old(self).lines@,
            final(self).index == old(self).index,
            final(self).faults@.len() == old(self).faults@.len() + 1,
    {
        self.faults.push(Fault::new(kind, message, span));
    }

    /// The next line the grammar reads, without consuming it. Blank lines and
    /// comments are stepped over, and so is a `...` after being refused.
    fn peek(&mut self) -> (r: Option<Line>)
        requires
            old(self).ok(),
        ensures
            final(self).moved(old(self)),
            final(self).lines == old(self).lines,
            r matches Some(line) ==> final(self).fresh(line) && line.sound(),
            r is None ==> final(self).index == final(self).lines@.len(),
            r is Some ==> first_read(old(self).lines@, old(self).index as int) == Some(final(self).index as int),
            (forall|j: int| old(self).index <= j < old(self).lines@.len() ==> (#[trigger] old(self).lines@[j]).text@ != document_end())
                ==> final(self).faults@.len() == old(self).faults@.len(),
            final(self).faults@.len() == old(self).faults@.len() ==> forall|j: int|
                old(self).index <= j < final(self).index ==> ignorable(#[trigger] old(self).lines@[j].text@),
            r is None ==> first_read(old(self).lines@, old(self).index as int).is_none(),
            old(self).index < old(self).lines@.len() && (ignorable(old(self).lines@[old(self).index as int].text@)
                || old(self).lines@[old(self).index as int].text@ == document_end()) ==> final(self).index
                > old(self).index,
    {
        while self.index < self.lines.len()
            invariant
                self.ok(),
                self.lines == old(self).lines,
                self.index >= old(self).index,
                self.faults@.len() >= old(self).faults@.len(),
                first_read(self.lines@, self.index as int) == first_read(old(self).lines@, old(self).index as int),
                (forall|j: int| old(self).index <= j < old(self).lines@.len() ==> (#[trigger] old(self).lines@[j]).text@ != document_end())
                    ==> self.faults@.len() == old(self).faults@.len(),
                self.faults@.len() == old(self).faults@.len() ==> forall|j: int|
                    old(self).index <= j < self.index ==> ignorable(#[trigger] old(self).lines@[j].text@),
                old(self).index < old(self).lines@.len() && (ignorable(old(self).lines@[old(self).index as int].text@)
                    || old(self).lines@[old(self).index as int].text@ == document_end()) && self.index
                    == old(self).index ==> self.lines@[self.index as int].text@ == old(self).lines@[old(self).index as int].text@,
            decreases self.lines.len() - self.index,
        {
            let line = self.lines[self.index].copy();
            if line.is_ignorable() {
                self.index = self.index + 1;
                continue;
            }
            let end = ['.', '.', '.'];
            assert(end@ =~= document_end());
            if !crate::chars::same(&line.text, &end) {
                return Some(line);
            }
            let span = line.range();
            self.refuse(
                FaultKind::Unsupported,
                String::from_str("`...` ends a document: this is a multi-document stream"),
                span,
            );
            self.index = self.index + 1;
        }
        None
    }

    /// Steps over every line indented under `indent`.
    fn skip_under(&mut self, indent: usize)
        requires
            old(self).ok(),
        ensures
            final(self).moved(old(self)),
            final(self).lines == old(self).lines,
            final(self).faults == old(self).faults,
            old(self).index < old(self).lines@.len() && old(self).lines@[old(self).index as int].indent
                > indent ==> final(self).index > old(self).index,
    {
        while self.index < self.lines.len()
            invariant
                self.ok(),
                self.lines == old(self).lines,
                self.faults == old(self).faults,
                self.index >= old(self).index,
                old(self).index < old(self).lines@.len() && old(self).lines@[old(self).index as int].indent
                    > indent ==> (self.index > old(self).index || self.index == old(self).index),
            decreases self.lines.len() - self.index,
        {
            let line = &self.lines[self.index];
            if line.indent <= indent && !line.is_ignorable() {
                return;
            }
            self.index = self.index + 1;
        }
    }

    /// A mapping whose keys sit at `indent`.
    fn mapping(&mut self, indent: usize, depth: usize) -> (r: (Vec<Entry>, Ghost<Seq<int>>))
        requires
            old(self).ok(),
            depth <= MAX_NESTING,
        ensures
            final(self).moved(old(self)),
            distinct_keys(r.0@) || final(self).faults@.len() > old(self).faults@.len(),
            opens_here(old(self).lines@, old(self).index, indent, false) ==> final(self).index > old(self).index,
            r.1@.len() == r.0@.len(),
            forall|i: int|
                0 <= i < r.0@.len() ==> old(self).index <= #[trigger] r.1@[i] < final(self).index && written_entry(
                    final(self).lines@[r.1@[i]],
                    indent,
                    r.0@[i],
                ),
            r.0@.len() == 0 && final(self).faults@.len() == old(self).faults@.len() ==> final(self).lines@ == old(self).lines@
                && forall|j: int| old(self).index <= j < final(self).index ==> ignorable(#[trigger] old(self).lines@[j].text@),
            indent == 0 && old(self).index == 0 && flat(old(self).lines@) ==> {
                &&& final(self).faults@.len() == old(self).faults@.len()
                &&& final(self).lines == old(self).lines
                &&& final(self).index == old(self).lines@.len()
                &&& reads_lines(old(self).lines@, r.0@, r.1@)
            },
        decreases MAX_NESTING + 2 - depth, 2nat,
    {
        let mut entries: Vec<Entry> = Vec::new();
        let start = self.index;
        let ghost mut origin: Seq<int> = Seq::empty();
        loop
            invariant
                self.ok(),
                self.lines@.len() == old(self).lines@.len(),
                self.index >= start,
                start == old(self).index,
                depth <= MAX_NESTING,
                self.index == start ==> self.lines@ == old(self).lines@,
                self.faults@.len() >= old(self).faults@.len(),
                distinct_keys(entries@) || self.faults@.len() > old(self).faults@.len(),
                forall|k: int| 0 <= k < start ==> #[trigger] self.lines@[k] == old(self).lines@[k],
                forall|k: int| 0 <= k < self.lines@.len() ==> #[trigger] self.lines@[k] == old(self).lines@[k] || self.lines@[k].indent > 0,
                origin.len() == entries@.len(),
                entries@.len() == 0 && self.faults@.len() == old(self).faults@.len() ==> self.lines@ == old(self).lines@
                    && forall|j: int| start <= j < self.index ==> ignorable(#[trigger] old(self).lines@[j].text@),
                indent == 0 && start == 0 && flat(old(self).lines@) ==> {
                    &&& self.faults@.len() == old(self).faults@.len()
                    &&& self.lines == old(self).lines
                    &&& forall|i: int| 0 <= i < origin.len() ==> !ignorable(old(self).lines@[#[trigger] origin[i]].text@)
                    &&& forall|i: int, j: int| 0 <= i < j < origin.len() ==> #[trigger] origin[i] < #[trigger] origin[j]
                    &&& forall|j: int| 0 <= j < self.index && !ignorable(#[trigger] old(self).lines@[j].text@) ==> exists|i: int|
                        0 <= i < origin.len() && origin[i] == j
                },
                forall|i: int|
                    0 <= i < entries@.len() ==> start <= #[trigger] origin[i] < self.index && written_entry(self.lines@[origin[i]], indent, entries@[i]),
            ensures
                self.ok(),
                self.lines@.len() == old(self).lines@.len(),
                self.index >= start,
                self.faults@.len() >= old(self).faults@.len(),
                distinct_keys(entries@) || self.faults@.len() > old(self).faults@.len(),
                opens_here(old(self).lines@, old(self).index, indent, false) ==> self.index > start,
                forall|k: int| 0 <= k < start ==> #[trigger] self.lines@[k] == old(self).lines@[k],
                forall|k: int| 0 <= k < self.lines@.len() ==> #[trigger] self.lines@[k] == old(self).lines@[k] || self.lines@[k].indent > 0,
                origin.len() == entries@.len(),
                entries@.len() == 0 && self.faults@.len() == old(self).faults@.len() ==> self.lines@ == old(self).lines@
                    && forall|j: int| start <= j < self.index ==> ignorable(#[trigger] old(self).lines@[j].text@),
                indent == 0 && start == 0 && flat(old(self).lines@) ==> {
                    &&& self.faults@.len() == old(self).faults@.len()
                    &&& self.lines == old(self).lines
                    &&& forall|i: int| 0 <= i < origin.len() ==> !ignorable(old(self).lines@[#[trigger] origin[i]].text@)
                    &&& forall|i: int, j: int| 0 <= i < j < origin.len() ==> #[trigger] origin[i] < #[trigger] origin[j]
                    &&& forall|j: int| 0 <= j < self.index && !ignorable(#[trigger] old(self).lines@[j].text@) ==> exists|i: int|
                        0 <= i < origin.len() && origin[i] == j
                },
                forall|i: int|
                    0 <= i < entries@.len() ==> start <= #[trigger] origin[i] < self.index && written_entry(self.lines@[origin[i]], indent, entries@[i]),
                indent == 0 && start == 0 && flat(old(self).lines@) ==> self.index == old(self).lines@.len(),
            decreases self.lines@.len() - self.index,
        {
            let ghost flat_case = indent == 0 && start == 0 && flat(old(self).lines@);
            let ghost before_peek = self.index as int;
            proof {
                if flat_case {
                    assert forall|j: int| self.index <= j < self.lines@.len() implies (#[trigger] self.lines@[j]).text@
                        != document_end() by {
                        assert(ignorable(old(self).lines@[j].text@) || flat_entry(old(self).lines@[j]));
                        if ignorable(old(self).lines@[j].text@) {
                            reveal_strlit("...");
                        }
                    }
                }
            }
            let line = match self.peek() {
                Some(line) => line,
                None => break,
            };
            proof {
                if flat_case {
                    let at = self.index as int;
                    assert(!ignorable(self.lines@[at].text@));
                    assert(flat_entry(old(self).lines@[at]));
                    assert(flat_entry(line));
                }
            }
            if line.indent < indent || is_item(&line.text) {
                break;
            }
            if line.indent > indent {
                self.stray(line);
                continue;
            }
            let ghost at = self.index as int;
            let entry = match self.entry(line, indent, depth) {
                Some(entry) => entry,
                None => continue,
            };
            assert(written_entry(self.lines@[at], indent, entry));
            let key = chars_of(entry.key.as_str());
            let ghost before = entries@;
            proof {
                if flat_case {
                    assert forall|i: int| 0 <= i < entries@.len() implies entries@[i].key@ != key@ by {
                        let o = origin[i];
                        assert(written_entry(old(self).lines@[o], 0, entries@[i]));
                        assert(flat_entry(old(self).lines@[o]));
                        assert(flat_entry(old(self).lines@[at]));
                        assert(o < at);
                    }
                }
            }
            if key_written(&entries, &key) {
                let message = written_twice(entry.key.as_str());
                let span = entry.key_span.start..entry.key_span.end;
                self.refuse(FaultKind::Unsupported, message, span);
            }
            entries.push(entry);
            assert(entries@ == before.push(entry));
            let ghost prior_origin = origin;
            proof {
                origin = origin.push(at);
                if flat_case {
                    assert forall|j: int| 0 <= j < self.index && !ignorable(#[trigger] old(self).lines@[j].text@) implies exists|i: int|
                        0 <= i < origin.len() && origin[i] == j by {
                        if j < before_peek {
                            let i = choose|i: int| 0 <= i < prior_origin.len() && prior_origin[i] == j;
                            assert(origin[i] == j);
                        } else if j < at {
                            assert(ignorable(old(self).lines@[j].text@));
                        } else {
                            assert(origin[origin.len() - 1] == j);
                        }
                    }
                }
            }
        }
        (entries, Ghost(origin))
    }

    fn stray(&mut self, line: Line)
        requires
            old(self).ok(),
            old(self).fresh(line),
            line.sound(),
        ensures
            final(self).moved(old(self)),
            final(self).index == old(self).index + 1,
            final(self).faults@.len() == old(self).faults@.len() + 1,
    {
        self.refuse(
            FaultKind::Invalid,
            String::from_str("this line is indented under a key that opens no nested block"),
            line.range(),
        );
        assert(self.index < self.lines.len());
        self.index = self.index + 1;
    }

    /// One `key: value` entry, consuming whatever the value takes.
    fn entry(&mut self, line: Line, indent: usize, depth: usize) -> (r: Option<Entry>)
        requires
            old(self).ok(),
            old(self).fresh(line),
            line.sound(),
            depth <= MAX_NESTING,
        ensures
            final(self).moved(old(self)),
            final(self).index > old(self).index,
            r.is_some() <==> !refuses_key(line.text@) && super::scalar::key_spec(line.text@).is_some(),
            r.is_none() ==> final(self).faults@.len() > old(self).faults@.len(),
            final(self).lines@[old(self).index as int] == old(self).lines@[old(self).index as int],
            r matches Some(e) ==> written_entry(line, line.indent, e),
            flat_entry(line) ==> r is Some && final(self).faults@.len() == old(self).faults@.len() && final(self).lines
                == old(self).lines && final(self).index == old(self).index + 1,
            r matches Some(e) ==> super::scalar::key_spec(line.text@) matches Some((k, n, a)) && {
                &&& e.key@ == k
                &&& e.key_span.start == line.at
                &&& e.key_span.end == line.at + n
                &&& a < line.text@.len() ==> inline_value(line.text@.skip(a), line.at + a, e.value)
                &&& a >= line.text@.len() ==> nested_value(
                    old(self).lines@,
                    old(self).index + 1,
                    indent,
                    (depth + 1) as usize,
                    line.at + line.text@.len(),
                    e.value,
                )
            },
        decreases MAX_NESTING + 2 - depth, 1nat,
    {
        assert(self.index < self.lines.len());
        self.index = self.index + 1;
        if let Some((kind, message)) = refused_key(&line.text) {
            self.refuse(kind, message, line.range());
            self.skip_under(indent);
            return None;
        }
        let (text, length, value_at) = match key(&line.text) {
            Some(k) => k,
            None => {
                self.refuse(FaultKind::Invalid, String::from_str("expected `key: value`"), line.range());
                self.skip_under(indent);
                return None;
            },
        };
        let rest = slice(&line.text, value_at, line.text.len());
        assert(rest@ =~= line.text@.skip(value_at as int));
        let spot = Spot { at: line.at + value_at, indent, depth: depth + 1 };
        let value = self.value(&rest, line.end(), spot);
        Some(Entry { key: string_of(&text), key_span: line.at..line.at + length, value })
    }

    /// The value an entry or an item carries: on the line, or beneath it.
    fn value(&mut self, rest: &[char], blank_at: usize, spot: Spot) -> (v: Value)
        requires
            old(self).ok(),
            spot.depth <= MAX_NESTING + 1,
            spot.at + rest@.len() <= usize::MAX,
        ensures
            final(self).moved(old(self)),
            rest@.len() > 0 ==> inline_value(rest@, spot.at as int, v),
            rest@.len() == 0 ==> nested_value(old(self).lines@, old(self).index as int, spot.indent, spot.depth, blank_at as int, v),
            rest@.len() > 0 && plain_written(rest@) ==> final(self).faults@.len() == old(self).faults@.len() && final(self).lines
                == old(self).lines && final(self).index == old(self).index,
        decreases MAX_NESTING + 2 - spot.depth, 5nat,
    {
        if rest.len() == 0 {
            return self.nested(spot, blank_at);
        }
        self.inline(rest, spot)
    }

    /// A collection written in the lines beneath its key, if there is one. A
    /// sequence may sit at its key's own indentation; a mapping must be
    /// indented further.
    fn nested(&mut self, spot: Spot, blank_at: usize) -> (v: Value)
        requires
            old(self).ok(),
            spot.depth <= MAX_NESTING + 1,
        ensures
            final(self).moved(old(self)),
            nested_value(old(self).lines@, old(self).index as int, spot.indent, spot.depth, blank_at as int, v),
        decreases MAX_NESTING + 2 - spot.depth, 4nat,
    {
        let line = match self.peek() {
            Some(line) => line,
            None => return empty(blank_at),
        };
        let indent = if line.indent == spot.indent && is_item(&line.text) {
            spot.indent
        } else if line.indent > spot.indent {
            line.indent
        } else {
            return empty(blank_at);
        };
        if self.too_deep(&line, spot) {
            return empty(line.at);
        }
        self.collection(line, indent, spot.depth)
    }

    /// Refuses, and steps over, a collection deeper than the subset reads.
    fn too_deep(&mut self, line: &Line, spot: Spot) -> (b: bool)
        requires
            old(self).ok(),
            line.sound(),
        ensures
            final(self).moved(old(self)),
            !b ==> final(self).index == old(self).index && final(self).lines == old(self).lines,
            !b ==> spot.depth <= MAX_NESTING,
            b == (spot.depth > MAX_NESTING),
            b && old(self).index < old(self).lines@.len() && old(self).lines@[old(self).index as int].indent
                > spot.indent ==> final(self).index > old(self).index,
    {
        if spot.depth <= MAX_NESTING {
            return false;
        }
        self.refuse(
            FaultKind::Unsupported,
            String::from_str("the frontmatter nests deeper than the subset reads"),
            line.range(),
        );
        self.skip_under(spot.indent);
        true
    }

    /// The sequence or mapping beginning at `line`.
    fn collection(&mut self, line: Line, indent: usize, depth: usize) -> (v: Value)
        requires
            old(self).ok(),
            old(self).index < old(self).lines@.len(),
            old(self).lines@[old(self).index as int].text@ == line.text@,
            old(self).lines@[old(self).index as int].indent == line.indent,
            line.sound(),
            line.indent == indent,
            depth <= MAX_NESTING,
        ensures
            final(self).moved(old(self)),
            final(self).index > old(self).index,
            v.span.start == line.at,
            if item_spec(line.text@) { v.shape is Sequence } else { v.shape is Mapping },
        decreases MAX_NESTING + 2 - depth, 3nat,
    {
        let span = line.range();
        let shape = if is_item(&line.text) {
            Shape::Sequence(self.sequence(indent, depth))
        } else {
            Shape::Mapping(self.mapping(indent, depth).0)
        };
        Value { span, shape }
    }

    /// Every item of one block sequence.
    fn sequence(&mut self, indent: usize, depth: usize) -> (items: Vec<Value>)
        requires
            old(self).ok(),
            depth <= MAX_NESTING,
        ensures
            final(self).moved(old(self)),
            opens_here(old(self).lines@, old(self).index, indent, true) ==> final(self).index > old(self).index,
        decreases MAX_NESTING + 2 - depth, 2nat,
    {
        let mut items: Vec<Value> = Vec::new();
        let start = self.index;
        loop
            invariant
                self.ok(),
                self.lines@.len() == old(self).lines@.len(),
                self.index >= start,
                start == old(self).index,
                depth <= MAX_NESTING,
                self.index == start ==> self.lines@ == old(self).lines@,
                self.faults@.len() >= old(self).faults@.len(),
                forall|k: int| 0 <= k < start ==> #[trigger] self.lines@[k] == old(self).lines@[k],
                forall|k: int| 0 <= k < self.lines@.len() ==> #[trigger] self.lines@[k] == old(self).lines@[k] || self.lines@[k].indent > 0,
            ensures
                self.ok(),
                self.lines@.len() == old(self).lines@.len(),
                self.index >= start,
                self.faults@.len() >= old(self).faults@.len(),
                opens_here(old(self).lines@, old(self).index, indent, true) ==> self.index > start,
                forall|k: int| 0 <= k < start ==> #[trigger] self.lines@[k] == old(self).lines@[k],
                forall|k: int| 0 <= k < self.lines@.len() ==> #[trigger] self.lines@[k] == old(self).lines@[k] || self.lines@[k].indent > 0,
            decreases self.lines@.len() - self.index,
        {
            let line = match self.peek() {
                Some(line) => line,
                None => break,
            };
            if line.indent != indent || !is_item(&line.text) {
                break;
            }
            let item = self.item(line, indent, depth);
            items.push(item);
        }
        items
    }

    /// One sequence item. The `- ` is stepped over by rewriting the line to
    /// start after it, which is how `- caption: A` opens a mapping whose
    /// remaining keys line up under `caption`.
    fn item(&mut self, line: Line, indent: usize, depth: usize) -> (v: Value)
        requires
            old(self).ok(),
            old(self).fresh(line),
            line.sound(),
            line.indent == indent,
            item_spec(line.text@),
            depth <= MAX_NESTING,
        ensures
            final(self).moved(old(self)),
            final(self).index > old(self).index,
            item_value(old(self).lines@, old(self).index as int, line, depth, v),
        decreases MAX_NESTING + 2 - depth, 1nat,
    {
        let after = slice(&line.text, 1, line.text.len());
        let lead = count_spaces(&after);
        let inner = slice(&after, lead, after.len());
        assert(after@ =~= line.text@.skip(1));
        assert(inner@ =~= item_inner(line.text@));
        let spot = Spot { at: line.at + 1 + lead, indent, depth: depth + 1 };
        assert(self.index < self.lines.len());
        if inner.len() == 0 {
            self.index = self.index + 1;
            return self.nested(spot, line.end());
        }
        let opened = Line { indent: indent + 1 + lead, text: slice(&inner, 0, inner.len()), at: spot.at, start: line.start };
        let stored = opened.copy();
        self.lines.set(self.index, stored);
        if !opens_mapping(&inner) {
            self.index = self.index + 1;
            return self.inline(&inner, spot);
        }
        if self.too_deep(&opened, spot) {
            return empty(opened.at);
        }
        let opened_indent = opened.indent;
        self.collection(opened, opened_indent, spot.depth)
    }

    /// A value written on the line its key is on.
    fn inline(&mut self, text: &[char], spot: Spot) -> (v: Value)
        requires
            old(self).ok(),
            spot.at + text@.len() <= usize::MAX,
            spot.depth <= MAX_NESTING + 1,
        ensures
            final(self).moved(old(self)),
            final(self).index >= old(self).index,
            inline_value(text@, spot.at as int, v),
            super::scalar::refused_value_spec(text@).is_some() ==> final(self).faults@.len() == old(self).faults@.len() + 1,
            super::scalar::refused_value_spec(text@).is_none() ==> final(self).index == old(self).index,
            super::scalar::refused_value_spec(text@).is_none() && !super::scalar::opens_flow_spec(text@) && !super::flow::quote_first(text@)
                ==> final(self).faults@.len() == old(self).faults@.len() && final(self).lines == old(self).lines,
            super::scalar::refused_value_spec(text@).is_none() && super::scalar::opens_flow_spec(text@) && text@[0] == '['
                && spot.depth <= MAX_NESTING && super::flow::members(text@, 1) is Some && super::flow::spaces_then_comment(
                text@.skip(super::flow::members(text@, 1).unwrap().1),
            ) ==> (v.shape matches Shape::Sequence(items) && super::flow::members_are(
                items@,
                super::flow::members(text@, 1).unwrap().0,
                spot.at as int,
            )),
    {
        let span = spot.at..spot.at + text.len();
        if let Some(message) = refused_value(text) {
            self.refuse(FaultKind::Unsupported, message, span);
            self.skip_under(spot.indent);
            return empty(spot.at);
        }
        if opens_flow(text) {
            return match super::flow::read(text, spot.at, spot.depth) {
                Ok(value) => value,
                Err(fault) => {
                    self.faults.push(fault);
                    empty(spot.at)
                },
            };
        }
        if text.len() > 0 && (text[0] == '\'' || text[0] == '"') {
            return self.quoted(text, spot.at);
        }
        let read = plain(text);
        proof {
            super::flow::lemma_trim_end_len(text@.take(read@.len() as int));
            lemma_plain_len(text@);
        }
        Value { span: spot.at..spot.at + read.len(), shape: Shape::Scalar(string_of(&read)) }
    }

    /// A quoted scalar, and whatever was written after it.
    fn quoted(&mut self, text: &[char], at: usize) -> (v: Value)
        requires
            old(self).ok(),
            at + text@.len() <= usize::MAX,
        ensures
            final(self).moved(old(self)),
            final(self).index == old(self).index,
            match super::scalar::quoted_spec(text@) {
                Ok((t, n)) => {
                    &&& v.shape matches Shape::Scalar(s) && s@ == t && v.span.start == at && v.span.end == at + n
                    &&& final(self).faults@.len() == old(self).faults@.len() + if comment_or_nothing(text@.skip(n)) {
                        0int
                    } else {
                        1int
                    }
                },
                Err(_) => empty_at(v, at as int) && final(self).faults@.len() == old(self).faults@.len() + 1,
            },
    {
        let span = at..at + text.len();
        let (read, length) = match quoted(text) {
            Ok(r) => r,
            Err(message) => {
                self.refuse(FaultKind::Invalid, message, span);
                return empty(at);
            },
        };
        let trailing = slice(text, length, text.len());
        assert(trailing@ =~= text@.skip(length as int));
        let spaces = count_trailing_start(&trailing);
        if spaces < trailing.len() && trailing[spaces] != '#' {
            self.refuse(
                FaultKind::Invalid,
                String::from_str("the quoted scalar is followed by more than a comment"),
                span,
            );
        }
        Value { span: at..at + length, shape: Shape::Scalar(string_of(&read)) }
    }
}

/// How much leading white space `s` carries.
fn count_trailing_start(s: &[char]) -> (n: usize)
    ensures
        n <= s@.len(),
        comment_or_nothing(s@) == (n == s@.len() || s@[n as int] == '#'),
{
    let mut k: usize = 0;
    assert(s@.skip(0) =~= s@);
    while k < s.len() && crate::note::body::white(s[k])
        invariant
            k <= s.len(),
            comment_or_nothing(s@) == comment_or_nothing(s@.skip(k as int)),
        decreases s.len() - k,
    {
        assert(s@.skip(k as int).drop_first() =~= s@.skip(k + 1));
        k = k + 1;
    }
    if k < s.len() {
        assert(s@.skip(k as int)[0] == s@[k as int]);
    }
    k
}

/// A plain scalar never holds more than was written.
proof fn lemma_plain_len(text: Seq<char>)
    ensures
        super::scalar::plain_spec(text).len() <= text.len(),
{
    let end = if text.len() > 0 && text[0] == '#' {
        0
    } else {
        let at = crate::chars::first_occurrence(text, 0, seq![' ', '#']);
        if at >= 0 {
            at
        } else {
            text.len() as int
        }
    };
    crate::note::links::lemma_occurrence_bounds(text, 0, seq![' ', '#']);
    super::flow::lemma_trim_end_len(text.take(end));
}

} // verus!
