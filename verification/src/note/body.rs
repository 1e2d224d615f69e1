//! The one thing a note's body is read for: its title.
//!
//! The title is the first H1, carried as display metadata and never as
//! identity. Finding it needs the smallest amount of CommonMark block structure
//! that gets there: both heading spellings — ATX (`# Title`) and Setext
//! (`Title` over `===`) — and stepping over fenced and indented code blocks. A
//! Setext heading's text is the line immediately above the underline.

use vstd::prelude::*;

use crate::chars::{begins, chars_of, slice, starts_with, string_of};

verus! {

/// How far a line is indented before it is a code block rather than prose.
pub const CODE_INDENT: usize = 4;

/// Whether `c` is Unicode white space (the `White_Space` property).
pub open spec fn is_space(c: char) -> bool {
    let v = c as u32;
    (0x9 <= v && v <= 0xd) || v == 0x20 || v == 0x85 || v == 0xa0 || v == 0x1680 || (0x2000 <= v
        && v <= 0x200a) || v == 0x2028 || v == 0x2029 || v == 0x202f || v == 0x205f || v == 0x3000
}

/// Whether `c` is Unicode white space.
pub fn white(c: char) -> (b: bool)
    ensures
        b == is_space(c),
{
    let v = c as u32;
    (0x9 <= v && v <= 0xd) || v == 0x20 || v == 0x85 || v == 0xa0 || v == 0x1680 || (0x2000 <= v
        && v <= 0x200a) || v == 0x2028 || v == 0x2029 || v == 0x202f || v == 0x205f || v == 0x3000
}

/// `s` without trailing white space.
pub open spec fn trim_end_spec(s: Seq<char>) -> Seq<char>
    decreases s.len(),
{
    if s.len() > 0 && is_space(s.last()) {
        trim_end_spec(s.drop_last())
    } else {
        s
    }
}

/// `s` without leading white space.
pub open spec fn trim_start_spec(s: Seq<char>) -> Seq<char>
    decreases s.len(),
{
    if s.len() > 0 && is_space(s[0]) {
        trim_start_spec(s.drop_first())
    } else {
        s
    }
}

/// `s` without leading occurrences of `c`.
pub open spec fn strip_leading(s: Seq<char>, c: char) -> Seq<char>
    decreases s.len(),
{
    if s.len() > 0 && s[0] == c {
        strip_leading(s.drop_first(), c)
    } else {
        s
    }
}

/// `s` without trailing occurrences of `c`.
pub open spec fn strip_trailing(s: Seq<char>, c: char) -> Seq<char>
    decreases s.len(),
{
    if s.len() > 0 && s.last() == c {
        strip_trailing(s.drop_last(), c)
    } else {
        s
    }
}

/// The lines of `s`: split at each `\n`, a `\r` before it dropped with it, and
/// no empty line after a final `\n`.
pub open spec fn lines_spec(s: Seq<char>) -> Seq<Seq<char>>
    decreases s.len(),
{
    if s.len() == 0 {
        Seq::empty()
    } else {
        let k = first_newline(s);
        if k < 0 {
            seq![s]
        } else {
            let line = s.take(k);
            let line = if line.len() > 0 && line.last() == '\r' { line.drop_last() } else { line };
            proof {
                crate::note::lexical::lemma_first_of_bounds(s, '\n', '\n');
            }
            seq![line] + lines_spec(s.skip(k + 1))
        }
    }
}

/// Where each line of `s` starts, counting from `base`.
pub open spec fn line_starts(s: Seq<char>, base: int) -> Seq<int>
    decreases s.len(),
{
    if s.len() == 0 {
        Seq::empty()
    } else {
        let k = first_newline(s);
        if k < 0 {
            seq![base]
        } else {
            proof {
                crate::note::lexical::lemma_first_of_bounds(s, '\n', '\n');
            }
            seq![base] + line_starts(s.skip(k + 1), base + k + 1)
        }
    }
}

/// There is one start per line.
pub proof fn lemma_line_starts_len(s: Seq<char>, base: int)
    ensures
        line_starts(s, base).len() == lines_spec(s).len(),
    decreases s.len(),
{
    if s.len() > 0 {
        let k = first_newline(s);
        if k >= 0 {
            crate::note::lexical::lemma_first_of_bounds(s, '\n', '\n');
            lemma_line_starts_len(s.skip(k + 1), base + k + 1);
        }
    }
}

/// The first `\n` in `s`, or `-1`.
pub open spec fn first_newline(s: Seq<char>) -> int {
    crate::note::lexical::first_of(s, '\n', '\n')
}

/// The line without its trailing white space or its indentation of spaces.
pub open spec fn content_of(raw: Seq<char>) -> Seq<char> {
    strip_leading(trim_end_spec(raw), ' ')
}

/// How many spaces precede the content.
pub open spec fn indent_of(raw: Seq<char>) -> nat {
    (trim_end_spec(raw).len() - content_of(raw).len()) as nat
}

/// The fence a line opens a code block with, when it opens one.
pub open spec fn opens_spec(content: Seq<char>) -> Option<Seq<char>> {
    if begins(content, seq!['`', '`', '`']) {
        Some(seq!['`', '`', '`'])
    } else if begins(content, seq!['~', '~', '~']) {
        Some(seq!['~', '~', '~'])
    } else {
        None
    }
}

/// A heading's text without CommonMark's optional closing run of `#`.
pub open spec fn closed_spec(text: Seq<char>) -> Seq<char> {
    let stripped = strip_trailing(text, '#');
    if stripped.len() == text.len() {
        text
    } else if stripped.len() == 0 {
        stripped
    } else if stripped.last() == ' ' {
        stripped
    } else {
        text
    }
}

/// An ATX H1's text: one `#`, a space, and the rest without its closing run.
pub open spec fn atx_spec(content: Seq<char>) -> Option<Seq<char>> {
    if content.len() == 0 || content[0] != '#' {
        None
    } else {
        let rest = content.drop_first();
        if rest.len() > 0 && rest[0] != ' ' {
            None
        } else {
            Some(trim_end_spec(closed_spec(trim_start_spec(trim_end_spec(rest)))))
        }
    }
}

/// Whether a line underlines a Setext H1.
pub open spec fn underlines_spec(content: Seq<char>) -> bool {
    content.len() > 0 && forall|i: int| 0 <= i < content.len() ==> content[i] == '='
}

/// The title found from line `i` on, with the code fence being stepped over
/// and the line above that could be a Setext heading's text.
pub open spec fn title_from(
    lines: Seq<Seq<char>>,
    i: int,
    fence: Option<Seq<char>>,
    previous: Option<Seq<char>>,
) -> Option<Seq<char>>
    decreases lines.len() - i,
{
    if i < 0 || i >= lines.len() {
        None
    } else {
        let content = content_of(lines[i]);
        let blank = content.len() == 0;
        match fence {
            Some(f) => if begins(content, f) {
                title_from(lines, i + 1, None, None)
            } else {
                title_from(lines, i + 1, fence, None)
            },
            None => {
                let previous = if blank { None } else { previous };
                if indent_of(lines[i]) >= CODE_INDENT && previous.is_none() {
                    title_from(lines, i + 1, None, previous)
                } else if opens_spec(content).is_some() {
                    title_from(lines, i + 1, opens_spec(content), None)
                } else if atx_spec(content).is_some() {
                    atx_spec(content)
                } else if previous.is_some() && underlines_spec(content) {
                    previous
                } else {
                    title_from(lines, i + 1, None, if blank { None } else { Some(content) })
                }
            },
        }
    }
}

/// A note's title: its first H1, when it has one.
pub open spec fn title_spec(body: Seq<char>) -> Option<Seq<char>> {
    title_from(lines_spec(body), 0, None, None)
}

/// `s` without trailing white space.
pub fn trim_end(s: &[char]) -> (r: Vec<char>)
    ensures
        r@ == trim_end_spec(s@),
{
    let mut n = s.len();
    assert(s@.take(n as int) =~= s@);
    while n > 0 && white(s[n - 1])
        invariant
            n <= s.len(),
            trim_end_spec(s@) == trim_end_spec(s@.take(n as int)),
        decreases n,
    {
        assert(s@.take(n as int).drop_last() =~= s@.take(n - 1));
        n = n - 1;
    }
    slice(s, 0, n)
}

/// `s` without leading white space.
pub fn trim_start(s: &[char]) -> (r: Vec<char>)
    ensures
        r@ == trim_start_spec(s@),
{
    let mut k: usize = 0;
    assert(s@.skip(0) =~= s@);
    while k < s.len() && white(s[k])
        invariant
            k <= s.len(),
            trim_start_spec(s@) == trim_start_spec(s@.skip(k as int)),
        decreases s.len() - k,
    {
        assert(s@.skip(k as int).drop_first() =~= s@.skip(k + 1));
        k = k + 1;
    }
    slice(s, k, s.len())
}

/// `s` without leading occurrences of `c`.
fn strip_start(s: &[char], c: char) -> (r: Vec<char>)
    ensures
        r@ == strip_leading(s@, c),
{
    let mut k: usize = 0;
    assert(s@.skip(0) =~= s@);
    while k < s.len() && s[k] == c
        invariant
            k <= s.len(),
            strip_leading(s@, c) == strip_leading(s@.skip(k as int), c),
        decreases s.len() - k,
    {
        assert(s@.skip(k as int).drop_first() =~= s@.skip(k + 1));
        k = k + 1;
    }
    slice(s, k, s.len())
}

/// `s` without trailing occurrences of `c`.
fn strip_end(s: &[char], c: char) -> (r: Vec<char>)
    ensures
        r@ == strip_trailing(s@, c),
{
    let mut n = s.len();
    assert(s@.take(n as int) =~= s@);
    while n > 0 && s[n - 1] == c
        invariant
            n <= s.len(),
            strip_trailing(s@, c) == strip_trailing(s@.take(n as int), c),
        decreases n,
    {
        assert(s@.take(n as int).drop_last() =~= s@.take(n - 1));
        n = n - 1;
    }
    slice(s, 0, n)
}

/// The lines of a text, as [`lines_spec`] splits them.
pub fn lines(s: &[char]) -> (r: Vec<Vec<char>>)
    ensures
        r@.map_values(|l: Vec<char>| l@) == lines_spec(s@),
{
    let mut out: Vec<Vec<char>> = Vec::new();
    let mut start: usize = 0;
    assert(s@.skip(0) =~= s@);
    while start < s.len()
        invariant
            start <= s.len(),
            out@.map_values(|l: Vec<char>| l@) + lines_spec(s@.skip(start as int)) == lines_spec(s@),
        decreases s.len() - start,
    {
        let rest = slice(s, start, s.len());
        assert(rest@ =~= s@.skip(start as int));
        let ghost before = out@;
        match find_newline(&rest) {
            Some(k) => {
                let mut line = slice(&rest, 0, k);
                if line.len() > 0 && line[line.len() - 1] == '\r' {
                    line = slice(&line, 0, line.len() - 1);
                    assert(line@ =~= rest@.take(k as int).drop_last());
                }
                out.push(line);
                proof {
                    assert(s@.skip(start as int).skip(k + 1) =~= s@.skip(start + k + 1));
                    assert(out@.map_values(|l: Vec<char>| l@) =~= before.map_values(|l: Vec<char>| l@).push(
                        out@.last()@));
                }
                start = start + k + 1;
            },
            None => {
                out.push(rest);
                proof {
                    assert(out@.map_values(|l: Vec<char>| l@) =~= before.map_values(|l: Vec<char>| l@).push(
                        s@.skip(start as int)));
                    assert(s@.skip(s@.len() as int) =~= Seq::<char>::empty());
                }
                start = s.len();
            },
        }
    }
    proof {
        assert(s@.skip(start as int) =~= Seq::<char>::empty());
        assert(out@.map_values(|l: Vec<char>| l@) + Seq::<Seq<char>>::empty() =~= out@.map_values(
            |l: Vec<char>| l@,
        ));
    }
    out
}

/// Where the first `\n` is, if there is one.
pub fn find_newline(s: &[char]) -> (r: Option<usize>)
    ensures
        match r {
            Some(k) => first_newline(s@) == k && k < s@.len(),
            None => first_newline(s@) == -1,
        },
{
    let mut i: usize = 0;
    while i < s.len()
        invariant
            i <= s.len(),
            forall|k: int| 0 <= k < i ==> s@[k] != '\n',
        decreases s.len() - i,
    {
        if s[i] == '\n' {
            proof {
                crate::note::lexical::lemma_first_of(s@, '\n', '\n', i as int);
            }
            return Some(i);
        }
        i = i + 1;
    }
    proof {
        crate::note::lexical::lemma_first_of(s@, '\n', '\n', i as int);
    }
    None
}

/// A line's content and indentation.
pub fn measure(raw: &[char]) -> (r: (Vec<char>, usize))
    ensures
        r.0@ == content_of(raw@),
        r.1 == indent_of(raw@),
        r.1 + r.0@.len() <= raw@.len(),
{
    let trimmed = trim_end(raw);
    let content = strip_start(&trimmed, ' ');
    proof {
        lemma_strip_leading_shorter(trimmed@, ' ');
    }
    let indent = trimmed.len() - content.len();
    proof {
        crate::note::frontmatter::flow::lemma_trim_end_len(raw@);
    }
    (content, indent)
}

proof fn lemma_strip_leading_shorter(s: Seq<char>, c: char)
    ensures
        strip_leading(s, c).len() <= s.len(),
    decreases s.len(),
{
    if s.len() > 0 && s[0] == c {
        lemma_strip_leading_shorter(s.drop_first(), c);
    }
}

/// The fence a line's content opens a code block with, when it opens one.
pub fn opens(content: &[char]) -> (r: Option<Vec<char>>)
    ensures
        match r {
            Some(f) => opens_spec(content@) == Some(f@),
            None => opens_spec(content@).is_none(),
        },
{
    let backticks = vec!['`', '`', '`'];
    let tildes = vec!['~', '~', '~'];
    assert(backticks@ =~= seq!['`', '`', '`']);
    assert(tildes@ =~= seq!['~', '~', '~']);
    if starts_with(content, &backticks) {
        Some(backticks)
    } else if starts_with(content, &tildes) {
        Some(tildes)
    } else {
        None
    }
}

/// An ATX heading's text without its closing run of `#`, when the run is
/// one: alone, or after a space.
pub fn closed(text: &[char]) -> (r: Vec<char>)
    ensures
        r@ == closed_spec(text@),
{
    let stripped = strip_end(text, '#');
    if stripped.len() == text.len() {
        slice(text, 0, text.len())
    } else if stripped.len() == 0 {
        stripped
    } else if stripped[stripped.len() - 1] == ' ' {
        stripped
    } else {
        slice(text, 0, text.len())
    }
}

fn atx(content: &[char]) -> (r: Option<Vec<char>>)
    ensures
        match r {
            Some(t) => atx_spec(content@) == Some(t@),
            None => atx_spec(content@).is_none(),
        },
{
    if content.len() == 0 || content[0] != '#' {
        return None;
    }
    let rest = slice(content, 1, content.len());
    assert(rest@ =~= content@.drop_first());
    if rest.len() > 0 && rest[0] != ' ' {
        return None;
    }
    let trimmed = trim_start(&trim_end(&rest));
    Some(trim_end(&closed(&trimmed)))
}

/// Whether a line's content is a Setext underline of `=`.
pub fn underlines(content: &[char]) -> (r: bool)
    ensures
        r == underlines_spec(content@),
{
    if content.len() == 0 {
        return false;
    }
    let mut i: usize = 0;
    while i < content.len()
        invariant
            i <= content.len(),
            forall|k: int| 0 <= k < i ==> content@[k] == '=',
        decreases content.len() - i,
    {
        if content[i] != '=' {
            return false;
        }
        i = i + 1;
    }
    true
}

/// Whether a raw line is blank: nothing but white space.
pub fn is_blank(raw: &[char]) -> (b: bool)
    ensures
        b == (content_of(raw@).len() == 0),
{
    let (content, _) = measure(raw);
    content.len() == 0
}

/// The note's title: its first H1, when it has one.
pub fn title(body: &str) -> (r: Option<String>)
    ensures
        match r {
            Some(t) => title_spec(body@) == Some(t@),
            None => title_spec(body@).is_none(),
        },
{
    let text = chars_of(body);
    let all = lines(&text);
    let ghost spec_lines = all@.map_values(|l: Vec<char>| l@);
    let mut fence: Option<Vec<char>> = None;
    let mut previous: Option<Vec<char>> = None;
    let mut i: usize = 0;
    while i < all.len()
        invariant
            i <= all.len(),
            spec_lines == lines_spec(body@),
            spec_lines.len() == all@.len(),
            forall|k: int| 0 <= k < all@.len() ==> #[trigger] spec_lines[k] == all@[k]@,
            title_spec(body@) == title_from(
                spec_lines,
                i as int,
                match fence {
                    Some(f) => Some(f@),
                    None => None,
                },
                match previous {
                    Some(p) => Some(p@),
                    None => None,
                },
            ),
        decreases all.len() - i,
    {
        let (content, indent) = measure(&all[i]);
        let blank = content.len() == 0;
        match fence {
            Some(f) => {
                if starts_with(&content, &f) {
                    fence = None;
                } else {
                    fence = Some(f);
                }
                previous = None;
            },
            None => {
                if blank {
                    previous = None;
                }
                if indent >= CODE_INDENT && previous.is_none() {
                    // A code block line: nothing on it is a heading.
                } else {
                    match opens(&content) {
                        Some(f) => {
                            fence = Some(f);
                            previous = None;
                        },
                        None => {
                            match atx(&content) {
                                Some(t) => {
                                    return Some(string_of(&t));
                                },
                                None => {},
                            }
                            if previous.is_some() && underlines(&content) {
                                match previous {
                                    Some(p) => {
                                        return Some(string_of(&p));
                                    },
                                    None => {},
                                }
                            }
                            previous = if blank { None } else { Some(content) };
                        },
                    }
                }
            },
        }
        i = i + 1;
    }
    None
}

} // verus!
