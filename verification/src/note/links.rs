//! What a link looks like, in the dialect the contract declares.
//!
//! `[dialect] links` is corpus-wide, valued `wikilink` or `markdown`, and
//! every reference — in frontmatter and in prose alike — is read as that
//! spelling. The declared dialect's delimiters are stripped when a value
//! carries them, and a value carrying none is the reference itself. Inside a
//! wikilink the first `|` splits off a display alias; a markdown link's target
//! is what follows the last `](`. Within the reference part, the first `#`
//! splits the target from a fragment, and an empty target with a nonempty
//! fragment names the note it is written in.

use core::ops::Range;

use vstd::prelude::*;

use crate::chars::{
    byte_len, byte_offsets, chars_of, find_char, find_from, find_last_pattern, first_occurrence,
    last_occurrence, occurs_at, slice, string_of, written_at, ends_with, starts_with, begins, ends,
};
use crate::contract::LinkDialect;

verus! {

/// The delimiter a dialect opens a link with.
pub open spec fn open_of(d: LinkDialect) -> Seq<char> {
    match d {
        LinkDialect::Wikilink => seq!['[', '['],
        LinkDialect::Markdown => seq!['['],
    }
}

/// The delimiter a dialect closes a link with.
pub open spec fn close_of(d: LinkDialect) -> Seq<char> {
    match d {
        LinkDialect::Wikilink => seq![']', ']'],
        LinkDialect::Markdown => seq![')'],
    }
}

/// The first position of `c` in `s`, or `-1`.
pub open spec fn first_char(s: Seq<char>, c: char) -> int {
    first_occurrence(s, 0, seq![c])
}

/// The reference `text` names when the whole of it is one link.
pub open spec fn unwrap_spec(d: LinkDialect, text: Seq<char>) -> Option<Seq<char>> {
    let o = open_of(d);
    let c = close_of(d);
    if begins(text, o) && text.len() >= o.len() + c.len() && ends(text, c) {
        let inside = text.subrange(o.len() as int, text.len() - c.len());
        match d {
            LinkDialect::Wikilink => {
                let bar = first_char(inside, '|');
                Some(if bar >= 0 { inside.take(bar) } else { inside })
            },
            LinkDialect::Markdown => {
                let split = last_occurrence(inside, seq![']', '('], inside.len() as int);
                if split >= 0 {
                    Some(inside.skip(split + 2))
                } else {
                    None
                }
            },
        }
    } else {
        None
    }
}

/// The reference part a value spells: what its delimiters mark, or itself.
pub open spec fn part_spec(d: LinkDialect, written: Seq<char>) -> Seq<char> {
    match unwrap_spec(d, written) {
        Some(p) => p,
        None => written,
    }
}

/// What resolution reads: the reference part before any `#`.
pub open spec fn target_spec(d: LinkDialect, written: Seq<char>) -> Seq<char> {
    let part = part_spec(d, written);
    let hash = first_char(part, '#');
    if hash >= 0 {
        part.take(hash)
    } else {
        part
    }
}

/// What follows the first `#` of the reference part, when one is written.
pub open spec fn fragment_spec(d: LinkDialect, written: Seq<char>) -> Option<Seq<char>> {
    let part = part_spec(d, written);
    let hash = first_char(part, '#');
    if hash >= 0 {
        Some(part.skip(hash + 1))
    } else {
        None
    }
}

/// One link's value, split into the parts resolution reads. The display alias
/// is not carried: it is cosmetic, and nothing downstream may consult it.
#[derive(Clone, Debug, PartialEq, Eq)]
pub struct Reference {
    /// What resolution reads: the reference part before any `#`.
    pub target: String,
    /// What follows the first `#` of the reference part, when one is written.
    pub fragment: Option<String>,
}

impl Reference {
    /// Whether this is `[[#heading]]`: an empty target with a nonempty
    /// fragment, which names the note it is written in and never dangles.
    pub fn names_own_note(&self) -> (b: bool)
        ensures
            b == (self.target@.len() == 0 && (self.fragment matches Some(f) && f@.len() > 0)),
    {
        self.target.as_str().is_empty() && match &self.fragment {
            Some(fragment) => !fragment.as_str().is_empty(),
            None => false,
        }
    }
}

/// The delimiters of a dialect, as characters.
fn delimiters(d: LinkDialect) -> (r: (Vec<char>, Vec<char>))
    ensures
        r.0@ == open_of(d),
        r.1@ == close_of(d),
{
    match d {
        LinkDialect::Wikilink => {
            let o = vec!['[', '['];
            let c = vec![']', ']'];
            assert(o@ =~= open_of(d));
            assert(c@ =~= close_of(d));
            (o, c)
        },
        LinkDialect::Markdown => {
            let o = vec!['['];
            let c = vec![')'];
            assert(o@ =~= open_of(d));
            assert(c@ =~= close_of(d));
            (o, c)
        },
    }
}

/// The first position of `c`, as [`first_char`] says.
fn first_of_char(s: &[char], c: char) -> (r: Option<usize>)
    ensures
        match r {
            Some(i) => first_char(s@, c) == i && i < s@.len(),
            None => first_char(s@, c) == -1,
        },
{
    let pattern = [c];
    assert(pattern@ =~= seq![c]);
    find_from(s, 0, &pattern)
}

/// The reference `text` names, when the whole of it is one link.
pub fn unwrap(d: LinkDialect, text: &[char]) -> (r: Option<Vec<char>>)
    ensures
        match r {
            Some(v) => unwrap_spec(d, text@) == Some(v@),
            None => unwrap_spec(d, text@).is_none(),
        },
{
    let (o, c) = delimiters(d);
    if !(starts_with(text, &o) && text.len() >= o.len() + c.len() && ends_with(text, &c)) {
        return None;
    }
    let inside = slice(text, o.len(), text.len() - c.len());
    match d {
        LinkDialect::Wikilink => match first_of_char(&inside, '|') {
            Some(bar) => Some(slice(&inside, 0, bar)),
            None => Some(inside),
        },
        LinkDialect::Markdown => {
            let split = [']', '('];
            assert(split@ =~= seq![']', '(']);
            match find_last_pattern(&inside, &split) {
                Some(k) => Some(slice(&inside, k + 2, inside.len())),
                None => None,
            }
        },
    }
}

/// The reference a link's value names.
///
/// The whole value is one link or it is none: a scalar that opens with the
/// dialect's opening delimiter and ends with its closing one names what sits
/// between them, and every other scalar is the reference part it spells.
/// Either way, the first `#` of the reference part splits the target from its
/// fragment.
pub fn reference(dialect: LinkDialect, written: &str) -> (r: Reference)
    ensures
        r.target@ == target_spec(dialect, written@),
        match r.fragment {
            Some(f) => fragment_spec(dialect, written@) == Some(f@),
            None => fragment_spec(dialect, written@).is_none(),
        },
{
    let text = chars_of(written);
    let part = match unwrap(dialect, &text) {
        Some(p) => p,
        None => text,
    };
    match first_of_char(&part, '#') {
        Some(hash) => Reference {
            target: {
                let n = part.len();
                assert(hash < n);
                string_of(&slice(&part, 0, hash))
            },
            fragment: Some(string_of(&slice(&part, hash + 1, part.len()))),
        },
        None => Reference { target: string_of(&part), fragment: None },
    }
}

/// The first occurrence is where it is, in bounds.
pub proof fn lemma_occurrence_bounds(s: Seq<char>, from: int, pattern: Seq<char>)
    ensures
        first_occurrence(s, from, pattern) >= 0 ==> {
            let at = first_occurrence(s, from, pattern);
            from <= at && occurs_at(s, at, pattern)
        },
    decreases s.len() + 1 - from,
{
    if 0 <= from <= s.len() && !occurs_at(s, from, pattern) {
        lemma_occurrence_bounds(s, from + 1, pattern);
    }
}

/// The next delimited run at or after `cursor`, delimiters included.
pub open spec fn next_run(d: LinkDialect, s: Seq<char>, cursor: int) -> Option<(int, int)> {
    let start = first_occurrence(s, cursor, open_of(d));
    if start < 0 {
        None
    } else {
        let close = first_occurrence(s, start + open_of(d).len(), close_of(d));
        if close < 0 {
            None
        } else {
            Some((start, close + close_of(d).len()))
        }
    }
}

/// A run ends past where the search started, and inside the text.
pub proof fn lemma_next_run(d: LinkDialect, s: Seq<char>, cursor: int)
    requires
        0 <= cursor,
    ensures
        next_run(d, s, cursor) matches Some((a, b)) ==> cursor <= a < b <= s.len(),
{
    lemma_occurrence_bounds(s, cursor, open_of(d));
    let start = first_occurrence(s, cursor, open_of(d));
    if start >= 0 {
        lemma_occurrence_bounds(s, start + open_of(d).len(), close_of(d));
    }
}

/// Every run found from `cursor` on lies inside the text, after `cursor`,
/// and holds at least one character.
pub proof fn lemma_runs_bounds(d: LinkDialect, s: Seq<char>, cursor: int)
    ensures
        forall|i: int|
            0 <= i < runs(d, s, cursor).len() ==> {
                let (a, b) = #[trigger] runs(d, s, cursor)[i];
                cursor <= a < b <= s.len()
            },
    decreases s.len() - cursor,
{
    if 0 <= cursor <= s.len() {
        lemma_next_run(d, s, cursor);
        match next_run(d, s, cursor) {
            Some((a, b)) => {
                lemma_runs_bounds(d, s, b);
                let rest = runs(d, s, b);
                if unwrap_spec(d, s.subrange(a, b)).is_some() {
                    assert(runs(d, s, cursor) == seq![(a, b)] + rest);
                    assert forall|i: int| 0 <= i < runs(d, s, cursor).len() implies {
                        let (x, y) = #[trigger] runs(d, s, cursor)[i];
                        cursor <= x < y <= s.len()
                    } by {
                        if i > 0 {
                            assert(runs(d, s, cursor)[i] == rest[i - 1]);
                        }
                    }
                }
            },
            None => {},
        }
    }
}

/// Every run from `cursor` on that is one link, in the order it is written,
/// as character ranges.
pub open spec fn runs(d: LinkDialect, s: Seq<char>, cursor: int) -> Seq<(int, int)>
    decreases s.len() - cursor,
{
    if cursor < 0 || cursor > s.len() {
        Seq::empty()
    } else {
        match next_run(d, s, cursor) {
            None => Seq::empty(),
            Some((a, b)) => {
                proof {
                    lemma_next_run(d, s, cursor);
                }
                let rest = runs(d, s, b);
                if unwrap_spec(d, s.subrange(a, b)).is_some() {
                    seq![(a, b)] + rest
                } else {
                    rest
                }
            },
        }
    }
}

/// Every link a body writes, as byte ranges into `text`, in the order it wrote
/// them. The delimiters are inside each range.
pub fn scan(dialect: LinkDialect, text: &str) -> (found: Vec<Range<usize>>)
    ensures
        found@.len() == runs(dialect, text@, 0).len(),
        forall|i: int|
            0 <= i < found@.len() ==> {
                let (a, b) = #[trigger] runs(dialect, text@, 0)[i];
                found@[i].start == byte_len(text@.take(a)) && found@[i].end == byte_len(
                    text@.take(b),
                )
            },
{
    let (s, offsets) = byte_offsets(text);
    let (o, c) = delimiters(dialect);
    let mut found: Vec<Range<usize>> = Vec::new();
    let mut cursor: usize = 0;
    let ghost mut seen: Seq<(int, int)> = Seq::empty();
    loop
        invariant
            s@ == text@,
            o@ == open_of(dialect),
            c@ == close_of(dialect),
            offsets@.len() == s@.len() + 1,
            forall|i: int| 0 <= i <= s@.len() ==> #[trigger] offsets@[i] == byte_len(s@.take(i)),
            cursor <= s@.len(),
            seen + runs(dialect, s@, cursor as int) == runs(dialect, s@, 0),
            found@.len() == seen.len(),
            forall|i: int|
                0 <= i < seen.len() ==> {
                    let (a, b) = #[trigger] seen[i];
                    0 <= a <= b <= s@.len() && found@[i].start == byte_len(s@.take(a))
                        && found@[i].end == byte_len(s@.take(b))
                },
        ensures
            found@.len() == runs(dialect, text@, 0).len(),
            forall|i: int|
                0 <= i < found@.len() ==> {
                    let (a, b) = #[trigger] runs(dialect, text@, 0)[i];
                    found@[i].start == byte_len(text@.take(a)) && found@[i].end == byte_len(
                        text@.take(b),
                    )
                },
        decreases s@.len() - cursor,
    {
        proof {
            lemma_next_run(dialect, s@, cursor as int);
        }
        let start = match find_from(&s, cursor, &o) {
            Some(k) => k,
            None => {
                assert(runs(dialect, s@, cursor as int) =~= Seq::<(int, int)>::empty());
                assert(seen =~= runs(dialect, s@, 0));
                break;
            },
        };
        let total = s.len();
        assert(start + o@.len() <= total);
        let inside = start + o.len();
        let close = match find_from(&s, inside, &c) {
            Some(k) => k,
            None => {
                assert(runs(dialect, s@, cursor as int) =~= Seq::<(int, int)>::empty());
                assert(seen =~= runs(dialect, s@, 0));
                break;
            },
        };
        assert(close + c@.len() <= total);
        let end = close + c.len();
        let run = slice(&s, start, end);
        let one = unwrap(dialect, &run);
        proof {
            if one.is_some() {
                assert(runs(dialect, s@, cursor as int) == seq![(start as int, end as int)] + runs(
                    dialect,
                    s@,
                    end as int,
                ));
                assert(seen.push((start as int, end as int)) + runs(dialect, s@, end as int)
                    =~= seen + runs(dialect, s@, cursor as int));
                seen = seen.push((start as int, end as int));
            } else {
                assert(runs(dialect, s@, cursor as int) == runs(dialect, s@, end as int));
            }
        }
        if one.is_some() {
            found.push(offsets[start]..offsets[end]);
        }
        cursor = end;
    }
    found
}

} // verus!
