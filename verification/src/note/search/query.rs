//! The query grammar: bare terms OR-combined, `"quoted phrases"` matching
//! adjacent words in order, and a trailing `*` marking the last word of a term
//! or phrase a prefix. A query the grammar cannot read is
//! `search.invalid-query`; it came from a caller rather than a file, so the
//! diagnostic carries no location and names the query in its message.

use core::ops::Range;

use vstd::prelude::*;

use crate::chars::{begins, chars_of, join3, slice, starts_with, str_eq, string_of};
use crate::diagnostic::{Diagnostic, KernelDiagnostic};
use crate::note::body::{is_space, trim_start, trim_start_spec, white};

use super::tokens::{Token, words, words_of};

verus! {

/// One matchable unit: a term or phrase, as the lowercase words it is made of.
#[derive(Debug)]
pub struct Atom {
    /// The words, in order; never none.
    pub words: Vec<String>,
    /// Whether the last word matches as a prefix.
    pub prefix: bool,
}

/// An atom as the grammar reads it: its words, and whether the last is a
/// prefix.
pub type AtomSpec = (Seq<Seq<char>>, bool);

impl Atom {
    /// The words, as character sequences.
    pub open spec fn spelled(&self) -> Seq<Seq<char>> {
        self.words@.map_values(|w: String| w@)
    }

    /// The atom as the grammar reads it.
    pub open spec fn spec_of(&self) -> AtomSpec {
        (self.spelled(), self.prefix)
    }
}

/// Whether an atom's words sit at position `at` of `tokens`, in order: every
/// word but the last exactly, and the last exactly or, for a prefix atom, as a
/// prefix of the token there.
pub open spec fn matches_at(atom: AtomSpec, tokens: Seq<Token>, at: int) -> bool {
    let n = atom.0.len() as int;
    &&& n > 0
    &&& 0 <= at
    &&& at + n <= tokens.len()
    &&& forall|k: int| 0 <= k < n - 1 ==> (#[trigger] tokens[at + k]).word@ == atom.0[k]
    &&& (tokens[at + n - 1].word@ == atom.0[n - 1] || (atom.1 && begins(
        tokens[at + n - 1].word@,
        atom.0[n - 1],
    )))
}

/// How many of the first `upto` positions of `tokens` an atom matches at.
pub open spec fn count_upto(atom: AtomSpec, tokens: Seq<Token>, upto: int) -> nat
    decreases upto,
{
    if upto <= 0 {
        0
    } else {
        count_upto(atom, tokens, upto - 1) + if matches_at(atom, tokens, upto - 1) {
            1nat
        } else {
            0nat
        }
    }
}

/// How many positions of `tokens` an atom matches at.
pub open spec fn count_spec(atom: AtomSpec, tokens: Seq<Token>) -> nat {
    count_upto(atom, tokens, tokens.len() as int)
}

/// The first position of `tokens` an atom matches at, when there is one.
pub open spec fn first_match(atom: AtomSpec, tokens: Seq<Token>) -> Option<int> {
    if exists|at: int| #[trigger] matches_at(atom, tokens, at) && forall|b: int| 0 <= b < at ==> !matches_at(atom, tokens, b) {
        Some(choose|at: int| #[trigger] matches_at(atom, tokens, at) && forall|b: int| 0 <= b < at ==> !matches_at(atom, tokens, b))
    } else {
        None
    }
}

/// The byte range of an atom's first match in `tokens`, from the first
/// matched word's start to the last matched word's end.
pub open spec fn first_span(atom: AtomSpec, tokens: Seq<Token>) -> Option<(int, int)> {
    match first_match(atom, tokens) {
        Some(at) => Some((tokens[at].at.start as int, tokens[at + atom.0.len() - 1].at.end as int)),
        None => None,
    }
}

/// An atom that matches nowhere among the first `upto` positions has a count
/// of nought there, and the other way round.
pub proof fn lemma_count_nought(atom: AtomSpec, tokens: Seq<Token>, upto: int)
    ensures
        count_upto(atom, tokens, upto) == 0 <==> forall|at: int| 0 <= at < upto ==> !#[trigger] matches_at(atom, tokens, at),
    decreases upto,
{
    if upto > 0 {
        lemma_count_nought(atom, tokens, upto - 1);
        if count_upto(atom, tokens, upto) == 0 {
            assert forall|at: int| 0 <= at < upto implies !#[trigger] matches_at(atom, tokens, at) by {
                if at < upto - 1 {
                } else {
                }
            }
        }
    }
}

/// An atom whose count in `tokens` is nought has no first match there.
pub proof fn lemma_no_count_no_span(atom: AtomSpec, tokens: Seq<Token>)
    requires
        count_spec(atom, tokens) == 0,
    ensures
        first_span(atom, tokens).is_none(),
{
    lemma_count_nought(atom, tokens, tokens.len() as int);
    assert forall|at: int| !#[trigger] matches_at(atom, tokens, at) by {
        if matches_at(atom, tokens, at) {
            assert(0 <= at < tokens.len());
        }
    }
}

impl Atom {
    /// The atom `text` spells, or none when it holds no word at all.
    pub fn from(text: &str, prefix: bool) -> (r: Option<Atom>)
        ensures
            match r {
                Some(atom) => words_of(text@).len() > 0 && atom.spec_of() == (words_of(text@), prefix),
                None => words_of(text@).len() == 0,
            },
    {
        let spelled = words(text);
        if spelled.len() == 0 {
            return None;
        }
        let atom = Atom { words: spelled, prefix };
        assert(atom.spelled() =~= words_of(text@));
        Some(atom)
    }

    /// Whether this atom's words sit at position `at` of `tokens`.
    pub fn matches_at(&self, tokens: &[Token], at: usize) -> (b: bool)
        ensures
            b == matches_at(self.spec_of(), tokens@, at as int),
    {
        let n = self.words.len();
        if n == 0 || n > tokens.len() || at > tokens.len() - n {
            return false;
        }
        let mut k: usize = 0;
        assert(tokens@.len() == tokens.len());
        while k + 1 < n
            invariant
                n == self.words@.len(),
                0 < n,
                at + n <= tokens@.len(),
                tokens@.len() == tokens.len(),
                k < n,
                forall|m: int| 0 <= m < k ==> (#[trigger] tokens@[at + m]).word@ == self.spelled()[m],
            decreases n - k,
        {
            if !str_eq(tokens[at + k].word.as_str(), self.words[k].as_str()) {
                return false;
            }
            k = k + 1;
        }
        let tail = tokens[at + n - 1].word.as_str();
        let last = self.words[n - 1].as_str();
        if str_eq(tail, last) {
            return true;
        }
        if !self.prefix {
            return false;
        }
        let tail_chars = chars_of(tail);
        let last_chars = chars_of(last);
        starts_with(&tail_chars, &last_chars)
    }

    /// How many positions of `tokens` this atom matches at.
    pub fn count(&self, tokens: &[Token]) -> (n: usize)
        ensures
            n == count_spec(self.spec_of(), tokens@),
    {
        let mut n: usize = 0;
        let mut at: usize = 0;
        while at < tokens.len()
            invariant
                at <= tokens@.len(),
                n == count_upto(self.spec_of(), tokens@, at as int),
                n <= at,
            decreases tokens.len() - at,
        {
            if self.matches_at(tokens, at) {
                n = n + 1;
            }
            at = at + 1;
        }
        n
    }

    /// The byte range of the first match in `tokens`, when there is one: from
    /// the first matched word's start to the last matched word's end.
    pub fn first(&self, tokens: &[Token]) -> (r: Option<Range<usize>>)
        ensures
            match r {
                Some(span) => first_span(self.spec_of(), tokens@) == Some((span.start as int, span.end as int)),
                None => first_span(self.spec_of(), tokens@).is_none(),
            },
    {
        let mut at: usize = 0;
        while at < tokens.len()
            invariant
                at <= tokens@.len(),
                forall|b: int| 0 <= b < at ==> !matches_at(self.spec_of(), tokens@, b),
            decreases tokens.len() - at,
        {
            if self.matches_at(tokens, at) {
                let ghost atom = self.spec_of();
                assert(matches_at(atom, tokens@, at as int) && forall|b: int| 0 <= b < at ==> !matches_at(atom, tokens@, b));
                let ghost chosen = choose|c: int| #[trigger] matches_at(atom, tokens@, c) && forall|b: int| 0 <= b < c ==> !matches_at(atom, tokens@, b);
                assert(chosen == at) by {
                    if chosen < at {
                        assert(!matches_at(atom, tokens@, chosen));
                    } else if chosen > at {
                        assert(!matches_at(atom, tokens@, at as int));
                    }
                }
                let last = &tokens[at + self.words.len() - 1];
                return Some(tokens[at].at.start..last.at.end);
            }
            at = at + 1;
        }
        assert forall|c: int| #[trigger] matches_at(self.spec_of(), tokens@, c) implies !(forall|b: int| 0 <= b < c ==> !matches_at(self.spec_of(), tokens@, b)) by {
            assert(c < tokens@.len());
        }
        None
    }
}

/// Why a query could not be read.
#[derive(Clone, Copy, Debug, PartialEq, Eq)]
pub enum QueryFault {
    /// A quote never closes, so the phrase it opens never ends.
    UnbalancedQuote,
    /// The query names no word, so there is nothing to match.
    Wordless,
}

impl QueryFault {
    /// The `search.invalid-query` diagnostic this fault is reported as.
    pub fn diagnostic(self, query: &str) -> (d: Diagnostic)
        ensures
            d.id == KernelDiagnostic::SearchInvalidQuery,
            d.location.is_none(),
            d.message@ == match self {
                QueryFault::UnbalancedQuote => "`"@ + query@
                    + "` has an unbalanced quote, so the phrase it opens never closes"@,
                QueryFault::Wordless => "`"@ + query@ + "` names no word to match"@,
            },
            d.help.is_some(),
    {
        match self {
            QueryFault::UnbalancedQuote => {
                let message = join3("`", query, "` has an unbalanced quote, so the phrase it opens never closes");
                Diagnostic::kernel(KernelDiagnostic::SearchInvalidQuery, message).with_help(
                    "close the quote, or drop it to match the words separately",
                )
            },
            QueryFault::Wordless => {
                let message = join3("`", query, "` names no word to match");
                Diagnostic::kernel(KernelDiagnostic::SearchInvalidQuery, message).with_help(
                    "a query is bare words, \"quoted phrases\", and a trailing `*` prefix",
                )
            },
        }
    }
}

/// Where a bare term starting at `i` ends: at white space, a quote, or the
/// end of the text.
pub open spec fn term_end(r: Seq<char>, i: int) -> int
    decreases r.len() - i,
{
    if i < 0 || i >= r.len() || is_space(r[i]) || r[i] == '"' {
        i
    } else {
        term_end(r, i + 1)
    }
}

/// The first `"` at or after `i`, or `-1`.
pub open spec fn quote_from(r: Seq<char>, i: int) -> int
    decreases r.len() - i,
{
    if i < 0 || i >= r.len() {
        -1
    } else if r[i] == '"' {
        i
    } else {
        quote_from(r, i + 1)
    }
}

/// The atom a stretch of text spells, if it spells a word.
pub open spec fn atom_spec(text: Seq<char>, prefix: bool) -> Option<AtomSpec> {
    if words_of(text).len() == 0 {
        None
    } else {
        Some((words_of(text), prefix))
    }
}

/// `atom` in front of what the rest of the query read, when it is an atom.
pub open spec fn prepend(atom: Option<AtomSpec>, rest: Result<Seq<AtomSpec>, QueryFault>) -> Result<
    Seq<AtomSpec>,
    QueryFault,
> {
    match rest {
        Err(fault) => Err(fault),
        Ok(atoms) => match atom {
            Some(a) => Ok(seq![a] + atoms),
            None => Ok(atoms),
        },
    }
}

/// The atoms a query's remaining text reads as, or the fault it stops at.
pub open spec fn parse_rest(rest: Seq<char>) -> Result<Seq<AtomSpec>, QueryFault>
    decreases rest.len(),
{
    let r = trim_start_spec(rest);
    proof {
        lemma_trim_start(rest);
    }
    if r.len() == 0 {
        Ok(Seq::empty())
    } else if r[0] == '"' {
        let opened = r.drop_first();
        let end = quote_from(opened, 0);
        proof {
            lemma_quote_from(opened, 0);
        }
        if end < 0 {
            Err(QueryFault::UnbalancedQuote)
        } else {
            let tail = opened.skip(end + 1);
            let prefix = tail.len() > 0 && tail[0] == '*';
            let next = if prefix {
                tail.drop_first()
            } else {
                tail
            };
            prepend(atom_spec(opened.take(end), prefix), parse_rest(next))
        }
    } else {
        let end = term_end(r, 0);
        proof {
            lemma_term_end(r, 0);
        }
        let term = r.take(end);
        let prefix = term.len() > 0 && term.last() == '*';
        let stem = if prefix {
            term.drop_last()
        } else {
            term
        };
        prepend(atom_spec(stem, prefix), parse_rest(r.skip(end)))
    }
}

/// What the atoms already read, in front of what the rest reads as.
pub open spec fn prepend_all(done: Seq<AtomSpec>, rest: Result<Seq<AtomSpec>, QueryFault>) -> Result<
    Seq<AtomSpec>,
    QueryFault,
> {
    match rest {
        Err(fault) => Err(fault),
        Ok(atoms) => Ok(done + atoms),
    }
}

/// Reading one more atom moves it from the rest to what is already read.
proof fn lemma_prepend(done: Seq<AtomSpec>, found: Option<AtomSpec>, rest: Result<Seq<AtomSpec>, QueryFault>)
    ensures
        prepend_all(done, prepend(found, rest)) == prepend_all(
            match found {
                Some(a) => done.push(a),
                None => done,
            },
            rest,
        ),
{
    match rest {
        Ok(m) => {
            match found {
                Some(a) => {
                    assert(done + (seq![a] + m) =~= done.push(a) + m);
                },
                None => {},
            }
        },
        Err(_) => {},
    }
}

/// The atoms a whole query reads as: at least one, or the fault.
pub open spec fn parse_spec(text: Seq<char>) -> Result<Seq<AtomSpec>, QueryFault> {
    match parse_rest(text) {
        Err(fault) => Err(fault),
        Ok(atoms) => if atoms.len() == 0 {
            Err(QueryFault::Wordless)
        } else {
            Ok(atoms)
        },
    }
}

/// Trimming never lengthens, and leaves no white space in front.
pub proof fn lemma_trim_start(s: Seq<char>)
    ensures
        trim_start_spec(s).len() <= s.len(),
        trim_start_spec(s).len() > 0 ==> !is_space(trim_start_spec(s)[0]),
    decreases s.len(),
{
    if s.len() > 0 && is_space(s[0]) {
        lemma_trim_start(s.drop_first());
    }
}

/// A bare term ends inside the text, after it starts.
pub proof fn lemma_term_end(r: Seq<char>, i: int)
    requires
        0 <= i <= r.len(),
    ensures
        i <= term_end(r, i) <= r.len(),
        i < r.len() && !is_space(r[i]) && r[i] != '"' ==> term_end(r, i) > i,
        forall|k: int| i <= k < term_end(r, i) ==> !is_space(#[trigger] r[k]) && r[k] != '"',
    decreases r.len() - i,
{
    if i < r.len() && !is_space(r[i]) && r[i] != '"' {
        lemma_term_end(r, i + 1);
    }
}

/// A quote found is a quote, inside the text.
pub proof fn lemma_quote_from(r: Seq<char>, i: int)
    requires
        0 <= i <= r.len(),
    ensures
        quote_from(r, i) == -1 || (i <= quote_from(r, i) < r.len() && r[quote_from(r, i)] == '"'),
        quote_from(r, i) == -1 ==> forall|k: int| i <= k < r.len() ==> r[k] != '"',
        quote_from(r, i) >= 0 ==> forall|k: int| i <= k < quote_from(r, i) ==> r[k] != '"',
    decreases r.len() - i,
{
    if i < r.len() && r[i] != '"' {
        lemma_quote_from(r, i + 1);
    }
}

/// A parsed query: the atoms a note must match at least one of.
#[derive(Debug)]
pub struct Query {
    /// The atoms, in the order the query wrote them.
    pub atoms: Vec<Atom>,
}

impl Query {
    /// The atoms, as the grammar reads them.
    pub open spec fn spec_of(&self) -> Seq<AtomSpec> {
        self.atoms@.map_values(|a: Atom| a.spec_of())
    }
}

/// The first `"` in `s`, when there is one.
fn find_quote(s: &[char]) -> (r: Option<usize>)
    ensures
        match r {
            Some(k) => quote_from(s@, 0) == k && k < s@.len(),
            None => quote_from(s@, 0) == -1,
        },
{
    proof {
        lemma_quote_from(s@, 0);
    }
    let mut i: usize = 0;
    while i < s.len()
        invariant
            i <= s@.len(),
            quote_from(s@, 0) == quote_from(s@, i as int),
        decreases s.len() - i,
    {
        if s[i] == '"' {
            return Some(i);
        }
        i = i + 1;
    }
    None
}

/// Where a bare term at the front of `s` ends.
fn find_term_end(s: &[char]) -> (r: usize)
    ensures
        r == term_end(s@, 0),
{
    let mut i: usize = 0;
    while i < s.len() && !white(s[i]) && s[i] != '"'
        invariant
            i <= s@.len(),
            term_end(s@, 0) == term_end(s@, i as int),
        decreases s.len() - i,
    {
        i = i + 1;
    }
    i
}

/// Parses `text` under the query grammar.
///
/// A quote that never closes is `UnbalancedQuote`; a query naming no word at
/// all is `Wordless`: an expression with nothing to match is a fault, where an
/// empty result is a result.
pub fn parse(text: &str) -> (r: Result<Query, QueryFault>)
    ensures
        match r {
            Ok(query) => parse_spec(text@) == Ok::<Seq<AtomSpec>, QueryFault>(query.spec_of()),
            Err(fault) => parse_spec(text@) == Err::<Seq<AtomSpec>, QueryFault>(fault),
        },
{
    let mut rest = chars_of(text);
    let mut atoms: Vec<Atom> = Vec::new();
    assert(atoms@.map_values(|a: Atom| a.spec_of()) =~= Seq::<AtomSpec>::empty());
    assert(Seq::<AtomSpec>::empty() + Seq::<AtomSpec>::empty() =~= Seq::<AtomSpec>::empty());
    loop
        invariant
            parse_rest(text@) == prepend_all(atoms@.map_values(|a: Atom| a.spec_of()), parse_rest(rest@)),
        ensures
            parse_rest(text@) == prepend_all(atoms@.map_values(|a: Atom| a.spec_of()), parse_rest(rest@)),
            parse_rest(rest@) == Ok::<Seq<AtomSpec>, QueryFault>(Seq::empty()),
        decreases rest@.len(),
    {
        let ghost before = rest@;
        let ghost done = atoms@.map_values(|a: Atom| a.spec_of());
        proof {
            lemma_trim_start(before);
        }
        let trimmed = trim_start(&rest);
        if trimmed.len() == 0 {
            break;
        }
        let ghost mut found: Option<AtomSpec> = None;
        if trimmed[0] == '"' {
            let opened = slice(&trimmed, 1, trimmed.len());
            assert(opened@ =~= trimmed@.drop_first());
            let end = match find_quote(&opened) {
                Some(end) => end,
                None => {
                    return Err(QueryFault::UnbalancedQuote);
                },
            };
            let tail = slice(&opened, end + 1, opened.len());
            assert(tail@ =~= opened@.skip(end + 1));
            let prefix = tail.len() > 0 && tail[0] == '*';
            let next = if prefix { slice(&tail, 1, tail.len()) } else { tail };
            assert(prefix ==> next@ =~= tail@.drop_first());
            let phrase = string_of(&slice(&opened, 0, end));
            assert(phrase@ =~= opened@.take(end as int));
            let atom = Atom::from(phrase.as_str(), prefix);
            proof {
                found = atom_spec(opened@.take(end as int), prefix);
            }
            match atom {
                Some(a) => {
                    atoms.push(a);
                    assert(atoms@.map_values(|a: Atom| a.spec_of()) =~= done.push(found->0));
                },
                None => {},
            }
            proof {
                assert(parse_rest(before) == prepend(found, parse_rest(next@)));
            }
            rest = next;
        } else {
            let end = find_term_end(&trimmed);
            proof {
                lemma_term_end(trimmed@, 0);
            }
            let term = slice(&trimmed, 0, end);
            let prefix = term.len() > 0 && term[term.len() - 1] == '*';
            let stem = if prefix { slice(&term, 0, term.len() - 1) } else { term };
            assert(prefix ==> stem@ =~= trimmed@.take(end as int).drop_last());
            assert(!prefix ==> stem@ =~= trimmed@.take(end as int));
            let written = string_of(&stem);
            let atom = Atom::from(written.as_str(), prefix);
            proof {
                found = atom_spec(stem@, prefix);
            }
            match atom {
                Some(a) => {
                    atoms.push(a);
                    assert(atoms@.map_values(|a: Atom| a.spec_of()) =~= done.push(found->0));
                },
                None => {},
            }
            let next = slice(&trimmed, end, trimmed.len());
            assert(next@ =~= trimmed@.skip(end as int));
            proof {
                assert(parse_rest(before) == prepend(found, parse_rest(next@)));
            }
            rest = next;
        }
        proof {
            lemma_prepend(done, found, parse_rest(rest@));
        }
    }
    assert(parse_rest(rest@) == Ok::<Seq<AtomSpec>, QueryFault>(Seq::empty()));
    assert(atoms@.map_values(|a: Atom| a.spec_of()) + Seq::<AtomSpec>::empty() =~= atoms@.map_values(
        |a: Atom| a.spec_of(),
    ));
    if atoms.len() == 0 {
        return Err(QueryFault::Wordless);
    }
    Ok(Query { atoms })
}

} // verus!
