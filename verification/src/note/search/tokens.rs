//! Words, for matching: lowercase alphanumeric runs.
//!
//! Retrieval matches words, not bytes: a query term meets a text through the
//! words each of them is made of, so `Engine,` in prose and `engine` in a query
//! are one word. A word is a maximal run of alphanumeric characters,
//! lowercased; punctuation separates and never matches, and case never
//! decides. Every token remembers where its bytes are, because a snippet
//! quotes the note's own text around the first match.

use core::ops::Range;

use vstd::prelude::*;

use crate::chars::{byte_len, byte_offsets, slice, string_of};

verus! {

/// Whether `c` is alphanumeric: Unicode's `Alphabetic` or `Numeric`, as std's
/// `char::is_alphanumeric` answers it.
pub uninterp spec fn alphanumeric(c: char) -> bool;

/// `s` lowercased, as std's `str::to_lowercase` maps it.
pub uninterp spec fn lowercase(s: Seq<char>) -> Seq<char>;

/// Whether `c` is alphanumeric.
///
/// Calls `char::is_alphanumeric`; the contract names its answer and says
/// nothing of the Unicode tables behind it.
#[verifier::external_body]
fn is_alphanumeric(c: char) -> (b: bool)
    ensures
        b == alphanumeric(c),
{
    c.is_alphanumeric()
}

/// `s` lowercased.
///
/// Calls `str::to_lowercase`; the contract names its result and says nothing
/// of the case mappings behind it.
#[verifier::external_body]
pub fn to_lowercase(s: &str) -> (r: String)
    ensures
        r@ == lowercase(s@),
{
    s.to_lowercase()
}

/// Where the alphanumeric run that reaches `i` ends.
pub open spec fn run_end(s: Seq<char>, i: int) -> int
    decreases s.len() - i,
{
    if 0 <= i < s.len() && alphanumeric(s[i]) {
        run_end(s, i + 1)
    } else {
        i
    }
}

/// The maximal alphanumeric runs of `s` from `from` on, as character ranges.
pub open spec fn word_runs(s: Seq<char>, from: int) -> Seq<(int, int)>
    decreases s.len() - from,
{
    if from < 0 || from >= s.len() {
        Seq::empty()
    } else if !alphanumeric(s[from]) {
        word_runs(s, from + 1)
    } else {
        proof {
            lemma_run_end(s, from);
        }
        seq![(from, run_end(s, from))] + word_runs(s, run_end(s, from))
    }
}

/// The words of `s`: each run, lowercased.
pub open spec fn words_of(s: Seq<char>) -> Seq<Seq<char>> {
    word_runs(s, 0).map_values(|r: (int, int)| lowercase(s.subrange(r.0, r.1)))
}

/// A run reaching past `i` ends after it, and inside the text.
pub proof fn lemma_run_end(s: Seq<char>, i: int)
    requires
        0 <= i <= s.len(),
    ensures
        i <= run_end(s, i) <= s.len(),
        i < s.len() && alphanumeric(s[i]) ==> run_end(s, i) > i,
    decreases s.len() - i,
{
    if i < s.len() && alphanumeric(s[i]) {
        lemma_run_end(s, i + 1);
    }
}

/// One word of a text, and where its bytes are.
#[derive(Debug)]
pub struct Token {
    /// The word's bytes in the scanned text.
    pub at: Range<usize>,
    /// The word, lowercased.
    pub word: String,
}

/// What a scan of `s` answers: one token per run, in order, each holding
/// the run lowercased and its byte range.
pub open spec fn scanned(tokens: Seq<Token>, s: Seq<char>) -> bool {
    &&& tokens.len() == word_runs(s, 0).len()
    &&& forall|k: int|
        0 <= k < tokens.len() ==> {
            let r = word_runs(s, 0)[k];
            &&& (#[trigger] tokens[k]).word@ == lowercase(s.subrange(r.0, r.1))
            &&& tokens[k].at.start == byte_len(s.take(r.0))
            &&& tokens[k].at.end == byte_len(s.take(r.1))
        }
}

/// Every word of `text`, in order.
pub fn scan(text: &str) -> (r: Vec<Token>)
    ensures
        scanned(r@, text@),
{
    let (chars, offsets) = byte_offsets(text);
    let mut tokens: Vec<Token> = Vec::new();
    let ghost mut done: Seq<(int, int)> = Seq::empty();
    let mut i: usize = 0;
    while i < chars.len()
        invariant
            i <= chars@.len(),
            chars@ == text@,
            offsets@.len() == chars@.len() + 1,
            forall|k: int| 0 <= k <= chars@.len() ==> #[trigger] offsets@[k] == byte_len(chars@.take(k)),
            done + word_runs(chars@, i as int) == word_runs(chars@, 0),
            tokens@.len() == done.len(),
            forall|k: int|
                0 <= k < tokens@.len() ==> {
                    let r = done[k];
                    &&& (#[trigger] tokens@[k]).word@ == lowercase(chars@.subrange(r.0, r.1))
                    &&& tokens@[k].at.start == byte_len(chars@.take(r.0))
                    &&& tokens@[k].at.end == byte_len(chars@.take(r.1))
                },
        decreases chars.len() - i,
    {
        if !is_alphanumeric(chars[i]) {
            i = i + 1;
            continue;
        }
        let mut j: usize = i + 1;
        while j < chars.len() && is_alphanumeric(chars[j])
            invariant
                i < j <= chars@.len(),
                run_end(chars@, i as int) == run_end(chars@, j as int),
            decreases chars.len() - j,
        {
            j = j + 1;
        }
        let word = to_lowercase(string_of(&slice(&chars, i, j)).as_str());
        proof {
            assert(run_end(chars@, j as int) == j);
            assert(word_runs(chars@, i as int) == seq![(i as int, j as int)] + word_runs(chars@, j as int));
            assert(done.push((i as int, j as int)) + word_runs(chars@, j as int) =~= done + word_runs(
                chars@,
                i as int,
            ));
            done = done.push((i as int, j as int));
        }
        tokens.push(Token { at: offsets[i]..offsets[j], word });
        i = j;
    }
    tokens
}

/// The words of `text` alone, for a side of the match that needs no spans.
pub fn words(text: &str) -> (r: Vec<String>)
    ensures
        r@.len() == words_of(text@).len(),
        forall|k: int| 0 <= k < r@.len() ==> (#[trigger] r@[k])@ == words_of(text@)[k],
{
    let tokens = scan(text);
    let mut out: Vec<String> = Vec::new();
    let mut k: usize = 0;
    while k < tokens.len()
        invariant
            k <= tokens@.len(),
            scanned(tokens@, text@),
            out@.len() == k,
            forall|m: int| 0 <= m < k ==> (#[trigger] out@[m])@ == words_of(text@)[m],
        decreases tokens.len() - k,
    {
        out.push(tokens[k].word.clone());
        k = k + 1;
    }
    out
}

} // verus!
