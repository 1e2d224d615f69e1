//! Corpus text on its way into a line-oriented rendering.
//!
//! A value quoted into a diagnostic headline, a `doctor` row or a Markdown
//! table row must stay on one line: a line break would let free text forge a
//! line shaped exactly like a kernel headline. The fold is a space, which
//! keeps the value readable and every span pointing at the same characters.

use vstd::prelude::*;

use crate::chars::{chars_of, string_of};

verus! {

/// Whether `c` is a control character: Unicode general category `Cc`, which
/// is U+0000 to U+001F and U+007F to U+009F.
pub open spec fn is_control(c: char) -> bool {
    (c as u32) <= 0x1f || (0x7f <= (c as u32) && (c as u32) <= 0x9f)
}

/// `c`, folded to a space when it is a control character.
pub open spec fn folded(c: char) -> char {
    if is_control(c) {
        ' '
    } else {
        c
    }
}

/// Whether `c` is a control character.
pub fn control(c: char) -> (b: bool)
    ensures
        b == is_control(c),
{
    let code = c as u32;
    code <= 0x1f || (0x7f <= code && code <= 0x9f)
}

/// `value` as exactly one line, with every control character folded to a
/// space and every other character kept where it was.
pub fn one_line(value: &str) -> (line: String)
    ensures
        line@.len() == value@.len(),
        forall|i: int| 0 <= i < value@.len() ==> #[trigger] line@[i] == folded(value@[i]),
        forall|i: int| 0 <= i < line@.len() ==> !is_control(#[trigger] line@[i]),
{
    let source = chars_of(value);
    let mut out: Vec<char> = Vec::new();
    let mut i: usize = 0;
    while i < source.len()
        invariant
            i <= source.len(),
            source@ == value@,
            out@.len() == i,
            forall|k: int| 0 <= k < i ==> #[trigger] out@[k] == folded(source@[k]),
        decreases source.len() - i,
    {
        let c = source[i];
        if control(c) {
            out.push(' ');
        } else {
            out.push(c);
        }
        i = i + 1;
    }
    string_of(&out)
}

/// `value` with every control character folded to a space.
pub open spec fn fold(value: Seq<char>) -> Seq<char> {
    value.map_values(|c: char| folded(c))
}

/// Appends `value` to `out` as it is.
pub fn append(out: &mut Vec<char>, value: &str)
    ensures
        final(out)@ == old(out)@ + value@,
{
    let source = chars_of(value);
    let ghost start = out@;
    let mut i: usize = 0;
    while i < source.len()
        invariant
            i <= source.len(),
            source@ == value@,
            out@ == start + source@.take(i as int),
        decreases source.len() - i,
    {
        out.push(source[i]);
        i = i + 1;
        assert(out@ =~= start + source@.take(i as int));
    }
    assert(source@.take(source@.len() as int) =~= source@);
}

/// Appends `value` to `out` as one line, every control character folded to a
/// space.
pub fn append_folded(out: &mut Vec<char>, value: &str)
    ensures
        final(out)@ == old(out)@ + fold(value@),
{
    let source = chars_of(value);
    let ghost start = out@;
    let mut i: usize = 0;
    while i < source.len()
        invariant
            i <= source.len(),
            source@ == value@,
            out@ == start + fold(source@.take(i as int)),
        decreases source.len() - i,
    {
        let c = source[i];
        if control(c) {
            out.push(' ');
        } else {
            out.push(c);
        }
        i = i + 1;
        assert(out@ =~= start + fold(source@.take(i as int)));
    }
    assert(source@.take(source@.len() as int) =~= source@);
}

} // verus!
