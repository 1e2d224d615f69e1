//! Flow collections: `[one, two]` and `{ x: one }`.
//!
//! Flow style is admitted because a corpus already writes it. One narrowing is
//! this module's own: a flow collection closes on the line it opens on. Every
//! position here is a character offset into the note, which the caller turns
//! into bytes.

use core::ops::Range;

use vstd::prelude::*;

use crate::chars::{join3, same, slice, string_of};

use super::scalar::{count_spaces, quoted, refused_value, trim_end};
use super::{Entry, Fault, FaultKind, MAX_NESTING, Shape, Value};

verus! {

/// Whether no two entries carry the same key.
pub open spec fn distinct_keys(entries: Seq<Entry>) -> bool {
    forall|i: int, j: int| 0 <= i < j < entries.len() ==> #[trigger] entries[i].key@ != #[trigger] entries[j].key@
}

/// Whether a value that is a mapping writes no key twice.
pub open spec fn keys_distinct(v: Value) -> bool {
    v.shape matches Shape::Mapping(entries) ==> distinct_keys(entries@)
}

/// The first entry of `entries` whose key is `key`.
pub fn key_written(entries: &Vec<Entry>, key: &[char]) -> (r: bool)
    ensures
        r == exists|i: int| 0 <= i < entries@.len() && #[trigger] entries@[i].key@ == key@,
{
    let mut i: usize = 0;
    while i < entries.len()
        invariant
            i <= entries.len(),
            forall|k: int| 0 <= k < i ==> #[trigger] entries@[k].key@ != key@,
        decreases entries.len() - i,
    {
        let here = crate::chars::chars_of(entries[i].key.as_str());
        if same(&here, key) {
            return true;
        }
        i = i + 1;
    }
    false
}

/// The message a repeated key is refused with.
pub fn written_twice(key: &str) -> (m: String)
    ensures
        m@ == "the key `"@ + key@ + "` is written twice"@,
{
    join3("the key `", key, "` is written twice")
}

/// Reads `text` as one flow collection at `depth`, starting at character `at`
/// of the note, and nothing after it but a comment.
///
/// Returns the first fault, because a flow collection that stops making sense
/// mid-way has no further structure to report against.
pub fn read(text: &[char], at: usize, depth: usize) -> (r: Result<Value, Fault>)
    requires
        at + text@.len() <= usize::MAX,
        depth <= MAX_NESTING + 1,
    ensures
        r matches Ok(v) ==> keys_distinct(v),
        text@.len() > 0 && text@[0] == '[' ==> (r matches Ok(v) ==> v.shape is Sequence),
        text@.len() > 0 && text@[0] == '{' ==> (r matches Ok(v) ==> v.shape is Mapping),
        text@.len() > 0 && text@[0] == '[' && depth <= MAX_NESTING && members(text@, 1) is Some && spaces_then_comment(
            text@.skip(members(text@, 1).unwrap().1),
        ) ==> (r matches Ok(v) && (v.span.start == at && (v.shape matches Shape::Sequence(items) && members_are(
            items@,
            members(text@, 1).unwrap().0,
            at as int,
        )))),
        forall|end: int|
            depth <= MAX_NESTING && (#[trigger] closes_empty(text@, '[', ']', end) || closes_empty(text@, '{', '}', end))
                && spaces_then_comment(text@.skip(end)) ==> (r matches Ok(v) && v.span.start == at && match v.shape {
                Shape::Sequence(items) => items@.len() == 0,
                Shape::Mapping(entries) => entries@.len() == 0,
                _ => false,
            }),
{
    let mut flow = Flow { text: slice(text, 0, text.len()), at, index: 0 };
    assert(flow.text@.skip(0) =~= text@);
    proof {
        if text@.len() > 0 && (text@[0] == '[' || text@[0] == '{') {
            assert(super::scalar::leading_spaces(text@) == 0);
            assert(text@.skip(0) =~= text@);
        }
    }
    let ghost start = flow;
    let value = flow.value(depth)?;
    let ghost after_value = flow.index;
    flow.skip_spaces();
    proof {
        if text@.len() > 0 && text@[0] == '[' && depth <= MAX_NESTING && members(text@, 1) is Some {
            assert(flow.text@ == text@);
            let (ms, end) = members(text@, 1).unwrap();
            assert(after_value == end);
            assert(flow.text@.skip(after_value as int) =~= text@.skip(end));
        }
        assert(start.text@.skip(0) =~= text@);
        assert(text@.skip(0) =~= text@);
        assert forall|end: int|
            depth <= MAX_NESTING && (#[trigger] closes_empty(text@, '[', ']', end) || closes_empty(text@, '{', '}', end))
                && spaces_then_comment(text@.skip(end)) implies flow.index == flow.text@.len() || flow.text@[flow.index as int] == '#' by {
            if closes_empty(text@, '[', ']', end) {
                assert(closes_empty(start.text@.skip(0).skip(0), '[', ']', end));
            } else {
                assert(closes_empty(start.text@.skip(0).skip(0), '{', '}', end));
            }
            assert(after_value == end);
            assert(flow.text@.skip(after_value as int) =~= text@.skip(end));
        }
    }
    if flow.index == flow.text.len() || flow.text[flow.index] == '#' {
        Ok(value)
    } else {
        Err(flow.invalid(String::from_str("the flow collection is followed by more than a comment")))
    }
}

/// Whether a character ends a plain scalar inside a flow collection.
pub open spec fn stops_flow(c: char) -> bool {
    c == ',' || c == ']' || c == '}'
}

/// How many characters of `rest` a plain scalar inside a flow collection
/// runs over: up to the first `,`, `]` or `}`, or to the end.
pub open spec fn flow_plain_end(rest: Seq<char>) -> int
    decreases rest.len(),
{
    if rest.len() == 0 || stops_flow(rest[0]) {
        0
    } else {
        1 + flow_plain_end(rest.drop_first())
    }
}

/// How many characters of `rest` a flow mapping's unquoted key runs over: up
/// to the first `:`, or to the end.
pub open spec fn flow_key_end(rest: Seq<char>) -> int
    decreases rest.len(),
{
    if rest.len() == 0 || rest[0] == ':' {
        0
    } else {
        1 + flow_key_end(rest.drop_first())
    }
}

/// Whether text opens with a quote.
pub open spec fn quote_first(rest: Seq<char>) -> bool {
    rest.len() > 0 && (rest[0] == '\'' || rest[0] == '"')
}

/// What a scalar read inside a flow collection from `rest` answers: a quoted
/// scalar's characters, over the quotes; a refusal for a construct the
/// subset refuses; else the characters up to the next `,`, `]` or `}`
/// without trailing white space, refused when there are none. `n` is how
/// many characters it consumed; `at` is where `rest` starts in the note.
pub open spec fn flow_scalar(rest: Seq<char>, at: int, r: Result<Value, Fault>, n: int) -> bool {
    if quote_first(rest) {
        match super::scalar::quoted_spec(rest) {
            Ok((t, k)) => r matches Ok(v) && v.shape matches Shape::Scalar(s) && s@ == t && v.span.start == at
                && v.span.end == at + k && n == k,
            Err(m) => r matches Err(f) && f.kind == FaultKind::Invalid && f.message@ == m,
        }
    } else if super::scalar::refused_value_spec(rest).is_some() {
        r matches Err(f) && f.kind == FaultKind::Unsupported && Some(f.message@) == super::scalar::refused_value_spec(rest)
    } else {
        let t = crate::note::body::trim_end_spec(rest.take(flow_plain_end(rest)));
        if t.len() == 0 {
            r matches Err(f) && f.kind == FaultKind::Invalid
        } else {
            r matches Ok(v) && v.shape matches Shape::Scalar(s) && s@ == t && v.span.start == at && v.span.end == at
                + t.len() && n == flow_plain_end(rest)
        }
    }
}

/// What a flow mapping's key read from `rest` answers: a quoted key's
/// characters; else the characters up to the next `:` without trailing white
/// space, refused when there are none. `n` is how many characters it
/// consumed.
pub open spec fn flow_key(rest: Seq<char>, r: Result<String, Fault>, n: int) -> bool {
    if quote_first(rest) {
        match super::scalar::quoted_spec(rest) {
            Ok((t, k)) => r matches Ok(key) && key@ == t && n == k,
            Err(m) => r matches Err(f) && f.kind == FaultKind::Invalid && f.message@ == m,
        }
    } else {
        let t = crate::note::body::trim_end_spec(rest.take(flow_key_end(rest)));
        if t.len() == 0 {
            r matches Err(f) && f.kind == FaultKind::Invalid
        } else {
            r matches Ok(key) && key@ == t && n == flow_key_end(rest)
        }
    }
}

/// The key a flow mapping's entry read from `rest` writes, and how many
/// characters it runs over: a quoted key's characters, else those up to the
/// next `:` without trailing white space; none when it cannot be read.
pub open spec fn key_read(rest: Seq<char>) -> Option<(Seq<char>, int)> {
    if quote_first(rest) {
        match super::scalar::quoted_spec(rest) {
            Ok((t, k)) => Some((t, k)),
            Err(_) => None,
        }
    } else {
        let t = crate::note::body::trim_end_spec(rest.take(flow_key_end(rest)));
        if t.len() == 0 {
            None
        } else {
            Some((t, flow_key_end(rest)))
        }
    }
}

/// A value read as an entry's, or the fault that stopped it.
pub open spec fn value_of(r: Result<Entry, Fault>) -> Result<Value, Fault> {
    match r {
        Ok(e) => Ok(e.value),
        Err(f) => Err(f),
    }
}

/// Whether what follows is spaces and then nothing or a comment.
pub open spec fn spaces_then_comment(rest: Seq<char>) -> bool {
    let k = super::scalar::leading_spaces(rest);
    k == rest.len() || (k < rest.len() && rest[k] == '#')
}

/// Whether `text` opens a flow collection with `open` that closes at once,
/// with `close`, past white space: `[]`, `{ }`. Where it does, the closing
/// bracket ends at character `end`.
pub open spec fn closes_empty(text: Seq<char>, open: char, close: char, end: int) -> bool {
    let inside = text.skip(1);
    let k = super::scalar::leading_spaces(inside);
    &&& text.len() > 0 && text[0] == open
    &&& k < inside.len() && inside[k] == close
    &&& end == 1 + k + 1
}

/// What one scalar member of a flow collection written from the start of
/// `rest` reads as, when it can be read: its characters, how many
/// characters its span covers, and how many it consumes. A quoted scalar
/// covers and consumes its quotes; a plain one runs up to the next `,`,
/// `]` or `}` and covers what is left of that without trailing white space.
pub open spec fn member_read(rest: Seq<char>) -> Option<(Seq<char>, int, int)> {
    if quote_first(rest) {
        match super::scalar::quoted_spec(rest) {
            Ok((t, k)) => Some((t, k, k)),
            Err(_) => None,
        }
    } else if super::scalar::refused_value_spec(rest).is_some() {
        None
    } else {
        let t = crate::note::body::trim_end_spec(rest.take(flow_plain_end(rest)));
        if t.len() == 0 {
            None
        } else {
            Some((t, t.len() as int, flow_plain_end(rest)))
        }
    }
}

/// The scalars a flow sequence writes from character `i` of `text` on, up
/// to the `]` that closes it: each member's characters and where its span
/// starts and ends in `text`, with where the sequence ends; none when a
/// member is a collection or cannot be read, or members are not separated
/// by `,` and closed by `]`. A `,` may stand before the `]`.
pub open spec fn members(text: Seq<char>, i: int) -> Option<(Seq<(Seq<char>, int, int)>, int)>
    decreases text.len() - i,
{
    if i < 0 || i > text.len() {
        None
    } else {
        let p = i + super::scalar::leading_spaces(text.skip(i));
        if p < i || p >= text.len() {
            None
        } else if text[p] == ']' {
            Some((Seq::empty(), p + 1))
        } else if text[p] == '[' || text[p] == '{' {
            None
        } else {
            match member_read(text.skip(p)) {
                None => None,
                Some((t, e, n)) => if n <= 0 || p + n > text.len() {
                    None
                } else {
                    let q = p + n + super::scalar::leading_spaces(text.skip(p + n));
                    if q < p + n || q >= text.len() {
                        None
                    } else if text[q] == ']' {
                        Some((seq![(t, p, p + e)], q + 1))
                    } else if text[q] == ',' {
                        match members(text, q + 1) {
                            Some((rest, end)) => Some((seq![(t, p, p + e)] + rest, end)),
                            None => None,
                        }
                    } else {
                        None
                    }
                },
            }
        }
    }
}

/// Whether `v` is the scalar member `m` of a flow collection whose text
/// starts at character `at` of the note.
pub open spec fn member_is(v: Value, m: (Seq<char>, int, int), at: int) -> bool {
    &&& v.shape matches Shape::Scalar(s) && s@ == m.0
    &&& v.span.start == at + m.1
    &&& v.span.end == at + m.2
}

/// Whether `items` are the scalar members `ms`, in order.
pub open spec fn members_are(items: Seq<Value>, ms: Seq<(Seq<char>, int, int)>, at: int) -> bool {
    &&& items.len() == ms.len()
    &&& forall|j: int| 0 <= j < items.len() ==> member_is(#[trigger] items[j], ms[j], at)
}

/// A cursor over one line's flow text.
struct Flow {
    text: Vec<char>,
    at: usize,
    index: usize,
}

impl Flow {
    spec fn ok(&self) -> bool {
        &&& self.index <= self.text@.len()
        &&& self.at + self.text@.len() <= usize::MAX
    }

    fn offset(&self) -> (r: usize)
        requires
            self.ok(),
        ensures
            r == self.at + self.index,
    {
        self.at + self.index
    }

    fn end(&self) -> (r: usize)
        requires
            self.ok(),
        ensures
            r == self.at + self.text@.len(),
    {
        self.at + self.text.len()
    }

    fn skip_spaces(&mut self)
        requires
            old(self).ok(),
        ensures
            final(self).ok(),
            final(self).text == old(self).text,
            final(self).at == old(self).at,
            final(self).index == old(self).index + super::scalar::leading_spaces(old(self).text@.skip(old(self).index as int)),
            final(self).index >= old(self).index,
    {
        let rest = self.rest();
        let n = count_spaces(&rest);
        self.index = self.index + n;
    }

    /// Consumes `character` when it is next.
    fn take(&mut self, character: char) -> (b: bool)
        requires
            old(self).ok(),
        ensures
            final(self).ok(),
            final(self).text == old(self).text,
            final(self).at == old(self).at,
            b ==> final(self).index == old(self).index + 1,
            !b ==> final(self).index == old(self).index,
            b == (old(self).index < old(self).text@.len() && old(self).text@[old(self).index as int] == character),
    {
        if self.index < self.text.len() && self.text[self.index] == character {
            self.index = self.index + 1;
            true
        } else {
            false
        }
    }

    fn invalid(&self, message: String) -> (f: Fault)
        requires
            self.ok(),
        ensures
            f.kind == FaultKind::Invalid,
            f.message@ == message@,
    {
        Fault::new(FaultKind::Invalid, message, self.offset()..self.end())
    }

    /// The unread rest of the line.
    fn rest(&self) -> (r: Vec<char>)
        requires
            self.ok(),
        ensures
            r@ == self.text@.skip(self.index as int),
    {
        slice(&self.text, self.index, self.text.len())
    }

    fn value(&mut self, depth: usize) -> (r: Result<Value, Fault>)
        requires
            old(self).ok(),
            depth <= MAX_NESTING + 1,
        ensures
            final(self).ok(),
            final(self).text == old(self).text,
            final(self).at == old(self).at,
            r is Ok ==> final(self).index > old(self).index,
            r matches Ok(v) ==> keys_distinct(v),
            ({
                let rest = old(self).text@.skip(old(self).index as int);
                let k = super::scalar::leading_spaces(rest);
                let after = rest.skip(k);
                if after.len() > 0 && after[0] == '[' {
                    &&& r matches Ok(v) ==> v.shape is Sequence && v.span.start == old(self).at + old(self).index + k
                    &&& depth <= MAX_NESTING && members(old(self).text@, old(self).index + k + 1) is Some ==> ({
                        let (ms, end) = members(old(self).text@, old(self).index + k + 1).unwrap();
                        &&& r matches Ok(v) && v.shape matches Shape::Sequence(items) && members_are(items@, ms, old(self).at as int)
                        &&& final(self).index == end
                    })
                    &&& forall|end: int| depth <= MAX_NESTING && #[trigger] closes_empty(after, '[', ']', end) ==> (r matches Ok(v)
                        && v.shape matches Shape::Sequence(items) && items@.len() == 0 && final(self).index == old(self).index + k + end)
                } else if after.len() > 0 && after[0] == '{' {
                    &&& r matches Ok(v) ==> v.shape is Mapping && v.span.start == old(self).at + old(self).index + k
                    &&& forall|end: int| depth <= MAX_NESTING && #[trigger] closes_empty(after, '{', '}', end) ==> (r matches Ok(v)
                        && v.shape matches Shape::Mapping(entries) && entries@.len() == 0 && final(self).index == old(self).index + k + end)
                } else {
                    flow_scalar(after, old(self).at + old(self).index + k, r, final(self).index - old(self).index - k)
                }
            }),
        decreases MAX_NESTING + 2 - depth, 2nat,
    {
        self.skip_spaces();
        assert(old(self).text@.skip(old(self).index as int).skip(
            super::scalar::leading_spaces(old(self).text@.skip(old(self).index as int)),
        ) =~= self.text@.skip(self.index as int));
        proof {
            if self.index < self.text@.len() {
                assert(self.text@.skip(self.index + 1) =~= self.text@.skip(self.index as int).skip(1));
            }
        }
        if self.index < self.text.len() && self.text[self.index] == '[' {
            self.collection(depth, true)
        } else if self.index < self.text.len() && self.text[self.index] == '{' {
            self.collection(depth, false)
        } else {
            self.scalar()
        }
    }

    /// One flow collection: its members, up to the bracket that closes it.
    #[verifier::spinoff_prover]
    #[verifier::rlimit(80)]
    fn collection(&mut self, depth: usize, sequence: bool) -> (r: Result<Value, Fault>)
        requires
            old(self).ok(),
            depth <= MAX_NESTING + 1,
            old(self).index < old(self).text@.len(),
        ensures
            final(self).ok(),
            final(self).text == old(self).text,
            final(self).at == old(self).at,
            r is Ok ==> final(self).index > old(self).index,
            r matches Ok(v) ==> keys_distinct(v),
            r matches Ok(v) ==> if sequence { v.shape is Sequence } else { v.shape is Mapping },
            r matches Ok(v) ==> v.span.start == old(self).at + old(self).index && v.span.end == final(self).at + final(self).index,
            depth > MAX_NESTING ==> (r matches Err(f) && f.kind == FaultKind::Unsupported && f.message@
                == "the frontmatter nests deeper than the subset reads"@),
            sequence && depth <= MAX_NESTING && members(old(self).text@, old(self).index + 1) is Some ==> ({
                let (ms, end) = members(old(self).text@, old(self).index + 1).unwrap();
                &&& r matches Ok(v) && v.shape matches Shape::Sequence(items) && members_are(items@, ms, old(self).at as int)
                &&& final(self).index == end
            }),
            ({
                let inside = old(self).text@.skip(old(self).index + 1);
                let k = super::scalar::leading_spaces(inside);
                let closing = if sequence { ']' } else { '}' };
                depth <= MAX_NESTING && k < inside.len() && inside[k] == closing ==> {
                    &&& r matches Ok(v) && match v.shape {
                        Shape::Sequence(items) => items@.len() == 0,
                        Shape::Mapping(entries) => entries@.len() == 0,
                        _ => false,
                    }
                    &&& final(self).index == old(self).index + 1 + k + 1
                }
            }),
        decreases MAX_NESTING + 2 - depth, 1nat,
    {
        let start = self.offset();
        if depth > MAX_NESTING {
            return Err(Fault::new(
                FaultKind::Unsupported,
                String::from_str("the frontmatter nests deeper than the subset reads"),
                self.offset()..self.end(),
            ));
        }
        let closing = if sequence { ']' } else { '}' };
        self.index = self.index + 1;
        let mut items: Vec<Value> = Vec::new();
        let mut entries: Vec<Entry> = Vec::new();
        let ghost opened = self.index;
        loop
            invariant_except_break
                ({
                    let inside = old(self).text@.skip(old(self).index + 1);
                    let k = super::scalar::leading_spaces(inside);
                    self.index != opened ==> !(k < inside.len() && inside[k] == closing)
                }),
                sequence && members(self.text@, opened as int) is Some ==> ({
                    let (ms, end) = members(self.text@, opened as int).unwrap();
                    &&& items@.len() <= ms.len()
                    &&& members(self.text@, self.index as int) == Some((ms.skip(items@.len() as int), end))
                    &&& forall|j: int| 0 <= j < items@.len() ==> member_is(#[trigger] items@[j], ms[j], self.at as int)
                }),
            invariant
                self.ok(),
                self.text == old(self).text,
                self.at == old(self).at,
                self.index > old(self).index,
                depth <= MAX_NESTING,
                distinct_keys(entries@),
                opened == old(self).index + 1,
                closing == if sequence { ']' } else { '}' },
                self.index == opened ==> items@.len() == 0 && entries@.len() == 0,
                self.index >= opened,
            ensures
                self.ok(),
                self.text == old(self).text,
                self.at == old(self).at,
                self.index > old(self).index,
                distinct_keys(entries@),
                ({
                    let inside = old(self).text@.skip(old(self).index + 1);
                    let k = super::scalar::leading_spaces(inside);
                    k < inside.len() && inside[k] == closing ==> items@.len() == 0 && entries@.len() == 0
                        && self.index == old(self).index + 1 + k + 1
                }),
                sequence && members(self.text@, opened as int) is Some ==> ({
                    let (ms, end) = members(self.text@, opened as int).unwrap();
                    &&& members_are(items@, ms, self.at as int)
                    &&& self.index == end
                }),
            decreases self.text@.len() - self.index,
        {
            let ghost before = self.index;
            let ghost count: int = items@.len() as int;
            proof {
                lemma_spaces(self.text@.skip(self.index as int));
            }
            self.skip_spaces();
            proof {
                if before == opened {
                    assert(self.text@.skip(opened as int) =~= old(self).text@.skip(old(self).index + 1));
                }
            }
            proof {
                if sequence && members(self.text@, opened as int) is Some {
                    let (ms, end) = members(self.text@, opened as int).unwrap();
                    lemma_member_step(self.text@, before as int, ms.skip(count), end);
                }
            }
            if self.take(closing) {
                break;
            }
            proof {
                let inside = old(self).text@.skip(old(self).index + 1);
                let k = super::scalar::leading_spaces(inside);
                if before == opened {
                    assert(self.index == opened + k);
                    if k < inside.len() {
                        assert(inside[k] == self.text@[self.index as int]);
                    }
                }
                assert(!(k < inside.len() && inside[k] == closing));
            }
            if sequence {
                let ghost p = self.index;
                proof {
                    lemma_spaces(self.text@.skip(p as int));
                    assert(self.text@.skip(p as int).skip(0) =~= self.text@.skip(p as int));
                }
                let item = self.value(depth + 1)?;
                let ghost prior = items@;
                items.push(item);
                proof {
                    if members(self.text@, opened as int) is Some {
                        let (ms, end) = members(self.text@, opened as int).unwrap();
                        let (t, e, n) = member_read(self.text@.skip(p as int)).unwrap();
                        assert(ms[count] == ms.skip(count)[0]);
                        assert(self.index == p + n);
                        assert forall|j: int| 0 <= j < items@.len() implies member_is(#[trigger] items@[j], ms[j], self.at as int) by {
                            if j < count {
                                assert(items@[j] == prior[j]);
                            }
                        }
                    }
                }
            } else {
                let entry = self.entry(depth)?;
                let key = crate::chars::chars_of(entry.key.as_str());
                if key_written(&entries, &key) {
                    return Err(Fault::new(
                        FaultKind::Unsupported,
                        written_twice(entry.key.as_str()),
                        entry.key_span.start..entry.key_span.end,
                    ));
                }
                let ghost before = entries@;
                entries.push(entry);
                assert(entries@ == before.push(entry));
            }
            let ghost after_member = self.index;
            proof {
                lemma_spaces(self.text@.skip(after_member as int));
            }
            let more = self.separated(closing)?;
            proof {
                if sequence && members(self.text@, opened as int) is Some {
                    let (ms, end) = members(self.text@, opened as int).unwrap();
                    assert(ms.skip(count).skip(1) =~= ms.skip(count + 1));
                }
            }
            if !more {
                break;
            }
        }
        let shape = if sequence { Shape::Sequence(items) } else { Shape::Mapping(entries) };
        Ok(Value { span: start..self.offset(), shape })
    }

    /// Whether another member follows: `true` after a comma, `false` after
    /// the closing bracket; a fault when neither does.
    fn separated(&mut self, closing: char) -> (r: Result<bool, Fault>)
        requires
            old(self).ok(),
        ensures
            final(self).ok(),
            final(self).text == old(self).text,
            final(self).at == old(self).at,
            final(self).index >= old(self).index,
            ({
                let rest = old(self).text@.skip(old(self).index as int);
                let k = super::scalar::leading_spaces(rest);
                let next = old(self).index + k;
                if next < old(self).text@.len() && old(self).text@[next] == ',' {
                    r == Ok::<bool, Fault>(true) && final(self).index == next + 1
                } else if next < old(self).text@.len() && old(self).text@[next] == closing {
                    r == Ok::<bool, Fault>(false) && final(self).index == next + 1
                } else {
                    r matches Err(f) && f.kind == FaultKind::Invalid && f.message@ == "expected `,` or `"@ + seq![closing]
                        + "` in the flow collection"@
                }
            }),
    {
        self.skip_spaces();
        if self.take(',') {
            return Ok(true);
        }
        if self.take(closing) {
            return Ok(false);
        }
        let c = [closing];
        let spelled = string_of(&c);
        Err(self.invalid(join3("expected `,` or `", spelled.as_str(), "` in the flow collection")))
    }

    fn entry(&mut self, depth: usize) -> (r: Result<Entry, Fault>)
        requires
            old(self).ok(),
            depth <= MAX_NESTING,
        ensures
            final(self).ok(),
            final(self).text == old(self).text,
            final(self).at == old(self).at,
            r is Ok ==> final(self).index > old(self).index,
        decreases MAX_NESTING + 2 - depth, 0nat,
    {
        let start = self.offset();
        let ghost rest = self.text@.skip(self.index as int);
        let key = self.key()?;
        let key_span = start..self.offset();
        let ghost n = self.index - start + self.at;
        assert(self.text@.skip(self.index as int) =~= rest.skip(self.index - (start - self.at)));
        self.skip_spaces();
        if !self.take(':') {
            return Err(self.invalid(String::from_str("expected `:` after a flow mapping's key")));
        }
        assert(self.text@.skip(self.index as int) =~= rest.skip(n).skip(super::scalar::leading_spaces(rest.skip(n)) + 1));
        let value = self.value(depth + 1)?;
        Ok(Entry { key, key_span, value })
    }

    /// A flow mapping's key: quoted, or the characters up to its `:`.
    fn key(&mut self) -> (r: Result<String, Fault>)
        requires
            old(self).ok(),
        ensures
            final(self).ok(),
            final(self).text == old(self).text,
            final(self).at == old(self).at,
            final(self).index >= old(self).index,
            flow_key(old(self).text@.skip(old(self).index as int), r, final(self).index - old(self).index),
    {
        let rest = self.rest();
        if rest.len() > 0 && (rest[0] == '\'' || rest[0] == '"') {
            return match quoted(&rest) {
                Ok((t, n)) => {
                    self.index = self.index + n;
                    Ok(string_of(&t))
                },
                Err(m) => Err(self.invalid(m)),
            };
        }
        let end = match crate::chars::find_char(&rest, 0, ':') {
            Some(k) => k,
            None => rest.len(),
        };
        proof {
            lemma_key_end(rest@, end as int);
        }
        let key = trim_end(&slice(&rest, 0, end));
        if key.len() == 0 {
            return Err(self.invalid(String::from_str("a flow mapping's key is empty")));
        }
        self.index = self.index + end;
        Ok(string_of(&key))
    }

    fn scalar(&mut self) -> (r: Result<Value, Fault>)
        requires
            old(self).ok(),
        ensures
            final(self).ok(),
            final(self).text == old(self).text,
            final(self).at == old(self).at,
            r is Ok ==> final(self).index > old(self).index,
            r matches Ok(v) ==> v.shape is Scalar,
            flow_scalar(
                old(self).text@.skip(old(self).index as int),
                old(self).at + old(self).index,
                r,
                final(self).index - old(self).index,
            ),
    {
        let start = self.offset();
        let rest = self.rest();
        if rest.len() > 0 && (rest[0] == '\'' || rest[0] == '"') {
            return match quoted(&rest) {
                Ok((t, n)) => {
                    self.index = self.index + n;
                    Ok(Value { span: start..self.offset(), shape: Shape::Scalar(string_of(&t)) })
                },
                Err(m) => Err(self.invalid(m)),
            };
        }
        if let Some(message) = refused_value(&rest) {
            return Err(Fault::new(FaultKind::Unsupported, message, self.offset()..self.end()));
        }
        let mut end: usize = 0;
        assert(rest@.skip(0) =~= rest@);
        while end < rest.len() && rest[end] != ',' && rest[end] != ']' && rest[end] != '}'
            invariant
                end <= rest@.len(),
                flow_plain_end(rest@) == end + flow_plain_end(rest@.skip(end as int)),
            decreases rest.len() - end,
        {
            assert(rest@.skip(end as int).drop_first() =~= rest@.skip(end + 1));
            end = end + 1;
        }
        if end < rest.len() {
            assert(rest@.skip(end as int)[0] == rest@[end as int]);
        }
        assert(flow_plain_end(rest@) == end);
        let text = trim_end(&slice(&rest, 0, end));
        if text.len() == 0 {
            return Err(self.invalid(String::from_str("a flow collection holds an empty value")));
        }
        proof {
            lemma_trim_end_len(rest@.take(end as int));
        }
        self.index = self.index + end;
        Ok(Value { span: start..start + text.len(), shape: Shape::Scalar(string_of(&text)) })
    }
}

/// One step over the members a flow sequence writes from `i`: past the
/// spaces, either the closing `]` or a scalar member, then spaces and a
/// `,` before the rest or the closing `]`.
proof fn lemma_member_step(text: Seq<char>, i: int, tail: Seq<(Seq<char>, int, int)>, end: int)
    requires
        members(text, i) == Some((tail, end)),
    ensures
        ({
            let p = i + super::scalar::leading_spaces(text.skip(i));
            &&& 0 <= i <= p < text.len()
            &&& text[p] == ']' ==> tail.len() == 0 && end == p + 1
            &&& text[p] != ']' ==> {
                &&& text[p] != '[' && text[p] != '{'
                &&& member_read(text.skip(p)) is Some
                &&& ({
                    let (t, e, n) = member_read(text.skip(p)).unwrap();
                    let q = p + n + super::scalar::leading_spaces(text.skip(p + n));
                    &&& n > 0 && p + n <= text.len()
                    &&& tail.len() >= 1 && tail[0] == (t, p, p + e)
                    &&& p + n <= q < text.len()
                    &&& (text[q] == ',' || text[q] == ']')
                    &&& text[q] == ']' ==> tail.len() == 1 && end == q + 1
                    &&& text[q] == ',' ==> members(text, q + 1) == Some((tail.skip(1), end))
                })
            }
        }),
{
    let p = i + super::scalar::leading_spaces(text.skip(i));
    if text[p] != ']' {
        let (t, e, n) = member_read(text.skip(p)).unwrap();
        let q = p + n + super::scalar::leading_spaces(text.skip(p + n));
        if text[q] == ',' {
            let (rest, stop) = members(text, q + 1).unwrap();
            assert(tail =~= seq![(t, p, p + e)] + rest);
            assert(tail.skip(1) =~= rest);
        }
    }
}

/// The spaces a text opens with are all spaces, and what follows them is not
/// one.
proof fn lemma_spaces(s: Seq<char>)
    ensures
        0 <= super::scalar::leading_spaces(s) <= s.len(),
        super::scalar::leading_spaces(s) < s.len() ==> s[super::scalar::leading_spaces(s)] != ' ',
        s.len() > 0 && s[0] != ' ' ==> super::scalar::leading_spaces(s) == 0,
    decreases s.len(),
{
    if s.len() > 0 && s[0] == ' ' {
        lemma_spaces(s.drop_first());
        let k = super::scalar::leading_spaces(s.drop_first());
        assert(super::scalar::leading_spaces(s) == 1 + k);
        if k < s.drop_first().len() {
            assert(s[1 + k] == s.drop_first()[k]);
        }
    }
}

/// The first `:` of `rest`, or its end when it writes none, is where an
/// unquoted key stops.
proof fn lemma_key_end(rest: Seq<char>, end: int)
    requires
        0 <= end <= rest.len(),
        forall|k: int| 0 <= k < end ==> rest[k] != ':',
        end == rest.len() || rest[end] == ':',
    ensures
        flow_key_end(rest) == end,
    decreases end,
{
    if end > 0 {
        lemma_key_end(rest.drop_first(), end - 1);
    }
}

/// Trimming never lengthens.
pub proof fn lemma_trim_end_len(s: Seq<char>)
    ensures
        crate::note::body::trim_end_spec(s).len() <= s.len(),
    decreases s.len(),
{
    if s.len() > 0 && crate::note::body::is_space(s.last()) {
        lemma_trim_end_len(s.drop_last());
    }
}

} // verus!
