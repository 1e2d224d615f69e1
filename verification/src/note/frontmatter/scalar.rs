//! Reading one scalar, telling a key from a value, and the constructs the
//! subset refuses outright.
//!
//! Nothing here decides what a scalar means. Quoting is undone because it is
//! spelling, and a trailing comment is removed because YAML says it is not
//! part of the value; beyond that the characters are handed on exactly as they
//! were written. The refusals live here because both halves of the grammar
//! need them, and the subset has one answer, not one per style.

use vstd::prelude::*;

use crate::chars::{
    byte_len, char_from_code, chars_of, find_pattern, join, join3, occurs_at, scalar_value,
    slice, string_of,
};
use crate::note::body::{is_space, trim_end_spec};

verus! {

/// Why a value cannot be read, when it opens a construct the subset refuses.
pub open spec fn refused_value_spec(text: Seq<char>) -> Option<Seq<char>> {
    if text.len() == 0 {
        None
    } else {
        match opener_name(text[0]) {
            Some(what) => Some("`"@ + seq![text[0]] + "` writes "@ + what + ", which the subset refuses"@),
            None => None,
        }
    }
}

/// What an opener the subset refuses writes, when `c` is one: `&` and `*` are
/// an anchor and an alias, `!` a tag, and `|` and `>` open block scalars.
pub open spec fn opener_name(c: char) -> Option<Seq<char>> {
    if c == '&' {
        Some("an anchor"@)
    } else if c == '*' {
        Some("an alias"@)
    } else if c == '!' {
        Some("a tag"@)
    } else if c == '|' {
        Some("a block scalar"@)
    } else if c == '>' {
        Some("a folded block scalar"@)
    } else {
        None
    }
}

fn opener(c: char) -> (r: Option<&'static str>)
    ensures
        match r {
            Some(s) => opener_name(c) == Some(s@),
            None => opener_name(c).is_none(),
        },
{
    if c == '&' {
        Some("an anchor")
    } else if c == '*' {
        Some("an alias")
    } else if c == '!' {
        Some("a tag")
    } else if c == '|' {
        Some("a block scalar")
    } else if c == '>' {
        Some("a folded block scalar")
    } else {
        None
    }
}

/// Whether text opens a flow collection.
pub open spec fn opens_flow_spec(text: Seq<char>) -> bool {
    text.len() > 0 && (text[0] == '[' || text[0] == '{')
}

/// Whether text opens a flow collection.
pub fn opens_flow(text: &[char]) -> (b: bool)
    ensures
        b == opens_flow_spec(text@),
{
    text.len() > 0 && (text[0] == '[' || text[0] == '{')
}

/// Why a value cannot be read, when the subset refuses the construct outright.
pub fn refused_value(text: &[char]) -> (r: Option<String>)
    ensures
        match r {
            Some(m) => refused_value_spec(text@) == Some(m@),
            None => refused_value_spec(text@).is_none(),
        },
{
    if text.len() == 0 {
        return None;
    }
    match opener(text[0]) {
        Some(what) => {
            let c = [text[0]];
            assert(c@ =~= seq![text@[0]]);
            let spelled = string_of(&c);
            let head = join3("`", spelled.as_str(), "` writes ");
            Some(join3(head.as_str(), what, ", which the subset refuses"))
        },
        None => None,
    }
}

/// The characters of a single-quoted scalar's body from `i` on, already read
/// as `acc`: the text and the position of the closing quote, or `None` when
/// the line ends first.
pub open spec fn single_spec(rest: Seq<char>, i: int, acc: Seq<char>) -> Option<(Seq<char>, int)>
    decreases rest.len() - i,
{
    if i < 0 || i >= rest.len() {
        None
    } else if rest[i] != '\'' {
        single_spec(rest, i + 1, acc.push(rest[i]))
    } else if i + 1 < rest.len() && rest[i + 1] == '\'' {
        single_spec(rest, i + 2, acc.push('\''))
    } else {
        Some((acc, i))
    }
}

/// The character a one-letter escape stands for, when the subset admits it.
pub open spec fn escape_spec(marker: char) -> Option<char> {
    if marker == '\\' {
        Some('\\')
    } else if marker == '"' {
        Some('"')
    } else if marker == '/' {
        Some('/')
    } else if marker == 'n' {
        Some('\n')
    } else if marker == 't' {
        Some('\t')
    } else if marker == 'r' {
        Some('\r')
    } else if marker == 'b' {
        Some('\u{8}')
    } else if marker == 'f' {
        Some('\u{c}')
    } else if marker == '0' {
        Some('\0')
    } else {
        None
    }
}

/// The value of a hexadecimal digit, when `c` is one.
pub open spec fn hex_value(c: char) -> Option<u32> {
    if '0' <= c && c <= '9' {
        Some(((c as u32) - ('0' as u32)) as u32)
    } else if 'a' <= c && c <= 'f' {
        Some(((c as u32) - ('a' as u32) + 10) as u32)
    } else if 'A' <= c && c <= 'F' {
        Some(((c as u32) - ('A' as u32) + 10) as u32)
    } else {
        None
    }
}

/// The value of one or more hexadecimal digits.
pub open spec fn hex_number(s: Seq<char>) -> Option<u32>
    decreases s.len(),
{
    if s.len() == 0 {
        None
    } else if s.len() == 1 {
        hex_value(s[0])
    } else {
        match (hex_number(s.drop_last()), hex_value(s.last())) {
            (Some(high), Some(low)) => if high < 0x1000000 {
                Some((high * 16 + low) as u32)
            } else {
                None
            },
            _ => None,
        }
    }
}

/// A letter `A` to `F` in lower case; every other character as it is.
pub open spec fn lower_hex(c: char) -> char {
    if 'A' <= c && c <= 'F' {
        ((c as u32) + 32) as char
    } else {
        c
    }
}

/// Every hexadecimal digit has a value below sixteen: `0` to `9` their own,
/// `a` to `f` and `A` to `F` alike ten to fifteen, in alphabet order; no
/// other character is a digit.
pub proof fn law_hex_digits(c: char)
    ensures
        hex_value(c) matches Some(v) ==> v < 16,
        ('0' <= c && c <= '9') ==> hex_value(c) == Some((c as u32 - '0' as u32) as u32),
        ('a' <= c && c <= 'f') ==> hex_value(c) == Some((10 + (c as u32 - 'a' as u32)) as u32),
        ('A' <= c && c <= 'F') ==> hex_value(c) == Some((10 + (c as u32 - 'A' as u32)) as u32),
        hex_value(lower_hex(c)) == hex_value(c),
        hex_value(c).is_some() <==> (('0' <= c && c <= '9') || ('a' <= c && c <= 'f') || ('A' <= c && c <= 'F')),
{
}

/// Hexadecimal reads alike in either case: writing any of `A` to `F` in
/// lower case changes neither whether digits read nor what they read as.
pub proof fn law_hex_case_blind(s: Seq<char>)
    ensures
        hex_number(s.map_values(|c: char| lower_hex(c))) == hex_number(s),
        radix16(s.map_values(|c: char| lower_hex(c))) == radix16(s),
    decreases s.len(),
{
    let t = s.map_values(|c: char| lower_hex(c));
    if s.len() > 1 {
        law_hex_case_blind(s.drop_last());
        assert(t.drop_last() =~= s.drop_last().map_values(|c: char| lower_hex(c)));
        law_hex_digits(s.last());
    } else if s.len() == 1 {
        law_hex_digits(s[0]);
    }
    if s.len() > 0 {
        law_hex_digits(s[0]);
        assert(t.drop_first() =~= s.drop_first().map_values(|c: char| lower_hex(c)));
        law_hex_case_blind(s.drop_first());
    }
}

/// What `u32::from_str_radix(digits, 16)` accepts: an optional `+`, and one or
/// more hexadecimal digits.
pub open spec fn radix16(digits: Seq<char>) -> Option<u32> {
    if digits.len() > 0 && digits[0] == '+' {
        hex_number(digits.drop_first())
    } else {
        hex_number(digits)
    }
}

/// How a double-quoted scalar's body reads from `i` on, already read as
/// `acc`: the text and the position of the closing quote, or why it stops.
pub open spec fn double_spec(rest: Seq<char>, i: int, acc: Seq<char>) -> Result<(Seq<char>, int), Seq<char>>
    decreases rest.len() - i,
{
    if i < 0 || i >= rest.len() {
        Err("the double-quoted scalar is not closed on this line"@)
    } else if rest[i] == '"' {
        Ok((acc, i))
    } else if rest[i] != '\\' {
        double_spec(rest, i + 1, acc.push(rest[i]))
    } else if i + 1 >= rest.len() {
        Err("a `\\` ends the scalar"@)
    } else if rest[i + 1] == 'u' {
        let from = i + 2;
        let to = if from + 4 <= rest.len() { from + 4 } else { rest.len() as int };
        let digits = rest.subrange(from, to);
        match radix16(digits) {
            None => Err("`\\u"@ + digits + "` is not four hexadecimal digits"@),
            Some(code) => if scalar_value(code) {
                double_spec(rest, to, acc.push(code as char))
            } else {
                Err("`\\u"@ + digits + "` is not a Unicode scalar value"@)
            },
        }
    } else {
        match escape_spec(rest[i + 1]) {
            Some(c) => double_spec(rest, i + 2, acc.push(c)),
            None => Err("`\\"@ + seq![rest[i + 1]] + "` is not an escape the subset admits"@),
        }
    }
}

/// A quoted scalar at the front of `text`: its characters, and how many
/// characters it occupied, quotes included.
pub open spec fn quoted_spec(text: Seq<char>) -> Result<(Seq<char>, int), Seq<char>> {
    if text.len() > 0 && text[0] == '\'' {
        match single_spec(text.drop_first(), 0, Seq::empty()) {
            Some((t, close)) => Ok((t, close + 2)),
            None => Err("the single-quoted scalar is not closed on this line"@),
        }
    } else if text.len() > 0 && text[0] == '"' {
        match double_spec(text.drop_first(), 0, Seq::empty()) {
            Ok((t, close)) => Ok((t, close + 2)),
            Err(m) => Err(m),
        }
    } else {
        Err("not a quoted scalar"@)
    }
}

/// The closing position of a quoted body lies inside it.
proof fn lemma_single_bounds(rest: Seq<char>, i: int, acc: Seq<char>)
    ensures
        single_spec(rest, i, acc) matches Some((t, close)) ==> 0 <= i <= close < rest.len(),
    decreases rest.len() - i,
{
    if 0 <= i < rest.len() {
        if rest[i] != '\'' {
            lemma_single_bounds(rest, i + 1, acc.push(rest[i]));
        } else if i + 1 < rest.len() && rest[i + 1] == '\'' {
            lemma_single_bounds(rest, i + 2, acc.push('\''));
        }
    }
}

/// The closing position of a quoted body lies inside it.
proof fn lemma_double_bounds(rest: Seq<char>, i: int, acc: Seq<char>)
    ensures
        double_spec(rest, i, acc) matches Ok((t, close)) ==> 0 <= i <= close < rest.len(),
    decreases rest.len() - i,
{
    if 0 <= i < rest.len() && rest[i] != '"' {
        if rest[i] != '\\' {
            lemma_double_bounds(rest, i + 1, acc.push(rest[i]));
        } else if i + 1 < rest.len() {
            if rest[i + 1] == 'u' {
                let from = i + 2;
                let to = if from + 4 <= rest.len() { from + 4 } else { rest.len() as int };
                lemma_double_bounds(rest, to, acc);
                match radix16(rest.subrange(from, to)) {
                    Some(code) => lemma_double_bounds(rest, to, acc.push(code as char)),
                    None => {},
                }
            } else {
                match escape_spec(rest[i + 1]) {
                    Some(c) => lemma_double_bounds(rest, i + 2, acc.push(c)),
                    None => {},
                }
            }
        }
    }
}

/// The quoted scalar at the front of `text`: its characters, and how many
/// characters of `text` it occupied, quotes included.
pub fn quoted(text: &[char]) -> (r: Result<(Vec<char>, usize), String>)
    ensures
        match r {
            Ok((t, n)) => quoted_spec(text@) == Ok::<(Seq<char>, int), Seq<char>>((t@, n as int))
                && 2 <= n <= text@.len(),
            Err(m) => quoted_spec(text@) == Err::<(Seq<char>, int), Seq<char>>(m@),
        },
{
    if text.len() > 0 && text[0] == '\'' {
        let rest = slice(text, 1, text.len());
        assert(rest@ =~= text@.drop_first());
        proof {
            lemma_single_bounds(rest@, 0, Seq::empty());
        }
        match single(&rest) {
            Some((t, close)) => Ok((t, close + 2)),
            None => Err(String::from_str("the single-quoted scalar is not closed on this line")),
        }
    } else if text.len() > 0 && text[0] == '"' {
        let rest = slice(text, 1, text.len());
        assert(rest@ =~= text@.drop_first());
        proof {
            lemma_double_bounds(rest@, 0, Seq::empty());
        }
        match double(&rest) {
            Ok((t, close)) => Ok((t, close + 2)),
            Err(m) => Err(m),
        }
    } else {
        Err(String::from_str("not a quoted scalar"))
    }
}

fn single(rest: &[char]) -> (r: Option<(Vec<char>, usize)>)
    ensures
        match r {
            Some((t, close)) => single_spec(rest@, 0, Seq::empty()) == Some((t@, close as int)),
            None => single_spec(rest@, 0, Seq::empty()).is_none(),
        },
{
    let mut acc: Vec<char> = Vec::new();
    let mut i: usize = 0;
    while i < rest.len()
        invariant
            i <= rest.len(),
            single_spec(rest@, 0, Seq::empty()) == single_spec(rest@, i as int, acc@),
        decreases rest.len() - i,
    {
        let c = rest[i];
        if c != '\'' {
            acc.push(c);
            i = i + 1;
        } else if i + 1 < rest.len() && rest[i + 1] == '\'' {
            acc.push('\'');
            i = i + 2;
        } else {
            return Some((acc, i));
        }
    }
    None
}

fn escape(marker: char) -> (r: Option<char>)
    ensures
        r == escape_spec(marker),
{
    if marker == '\\' {
        Some('\\')
    } else if marker == '"' {
        Some('"')
    } else if marker == '/' {
        Some('/')
    } else if marker == 'n' {
        Some('\n')
    } else if marker == 't' {
        Some('\t')
    } else if marker == 'r' {
        Some('\r')
    } else if marker == 'b' {
        Some('\u{8}')
    } else if marker == 'f' {
        Some('\u{c}')
    } else if marker == '0' {
        Some('\0')
    } else {
        None
    }
}

fn hex(c: char) -> (r: Option<u32>)
    ensures
        r == hex_value(c),
{
    if '0' <= c && c <= '9' {
        Some((c as u32) - ('0' as u32))
    } else if 'a' <= c && c <= 'f' {
        Some((c as u32) - ('a' as u32) + 10)
    } else if 'A' <= c && c <= 'F' {
        Some((c as u32) - ('A' as u32) + 10)
    } else {
        None
    }
}

fn parse_hex(digits: &[char]) -> (r: Option<u32>)
    ensures
        r == radix16(digits@),
{
    let start: usize = if digits.len() > 0 && digits[0] == '+' { 1 } else { 0 };
    let body = slice(digits, start, digits.len());
    if start == 1 {
        assert(body@ =~= digits@.drop_first());
    } else {
        assert(body@ =~= digits@);
    }
    if body.len() == 0 {
        return None;
    }
    let mut value: u32 = match hex(body[0]) {
        Some(v) => v,
        None => {
            proof {
                lemma_hex_prefix_none(body@, 1);
            }
            return None;
        },
    };
    assert(body@.take(1) =~= seq![body@[0]]);
    let mut i: usize = 1;
    while i < body.len()
        invariant
            1 <= i <= body.len(),
            hex_number(body@.take(i as int)) == Some(value),
            radix16(digits@) == hex_number(body@),
        decreases body.len() - i,
    {
        assert(body@.take(i + 1).drop_last() =~= body@.take(i as int));
        match hex(body[i]) {
            Some(low) => {
                if value >= 0x1000000 {
                    proof {
                        lemma_hex_prefix_none(body@, i + 1);
                    }
                    return None;
                }
                value = value * 16 + low;
            },
            None => {
                proof {
                    lemma_hex_prefix_none(body@, i + 1);
                }
                return None;
            },
        }
        i = i + 1;
    }
    assert(body@.take(body.len() as int) =~= body@);
    Some(value)
}

/// A prefix that does not read as hexadecimal makes no longer run read.
proof fn lemma_hex_prefix_none(s: Seq<char>, n: int)
    requires
        1 <= n <= s.len(),
        hex_number(s.take(n)).is_none(),
    ensures
        hex_number(s).is_none(),
    decreases s.len() - n,
{
    if n < s.len() {
        assert(s.take(n + 1).drop_last() =~= s.take(n));
        lemma_hex_prefix_none(s, n + 1);
    } else {
        assert(s.take(n) =~= s);
    }
}

fn double(rest: &[char]) -> (r: Result<(Vec<char>, usize), String>)
    ensures
        match r {
            Ok((t, close)) => double_spec(rest@, 0, Seq::empty()) == Ok::<(Seq<char>, int), Seq<char>>(
                (t@, close as int),
            ),
            Err(m) => double_spec(rest@, 0, Seq::empty()) == Err::<(Seq<char>, int), Seq<char>>(m@),
        },
{
    let mut acc: Vec<char> = Vec::new();
    let mut i: usize = 0;
    while i < rest.len()
        invariant
            i <= rest.len(),
            double_spec(rest@, 0, Seq::empty()) == double_spec(rest@, i as int, acc@),
        decreases rest.len() - i,
    {
        let c = rest[i];
        if c == '"' {
            return Ok((acc, i));
        }
        if c != '\\' {
            acc.push(c);
            i = i + 1;
            continue;
        }
        if i + 1 >= rest.len() {
            return Err(String::from_str("a `\\` ends the scalar"));
        }
        let marker = rest[i + 1];
        if marker == 'u' {
            let from = i + 2;
            let to = if rest.len() - from >= 4 { from + 4 } else { rest.len() };
            let digits = slice(rest, from, to);
            match parse_hex(&digits) {
                None => {
                    let spelled = string_of(&digits);
                    return Err(join3("`\\u", spelled.as_str(), "` is not four hexadecimal digits"));
                },
                Some(code) => match char_from_code(code) {
                    Some(ch) => {
                        proof {
                            vstd::utf8::char_u32_cast(ch, code);
                        }
                        acc.push(ch);
                        i = to;
                    },
                    None => {
                        let spelled = string_of(&digits);
                        return Err(join3("`\\u", spelled.as_str(), "` is not a Unicode scalar value"));
                    },
                },
            }
        } else {
            match escape(marker) {
                Some(ch) => {
                    acc.push(ch);
                    i = i + 2;
                },
                None => {
                    let m = [marker];
                    assert(m@ =~= seq![marker]);
                    let spelled = string_of(&m);
                    return Err(join3("`\\", spelled.as_str(), "` is not an escape the subset admits"));
                },
            }
        }
    }
    Err(String::from_str("the double-quoted scalar is not closed on this line"))
}


/// The number of spaces `s` begins with.
pub open spec fn leading_spaces(s: Seq<char>) -> int {
    s.len() - crate::note::body::strip_leading(s, ' ').len()
}

/// Where a value begins: past the colon at `after_colon`, and any spaces.
pub open spec fn value_at_spec(rest: Seq<char>, after_colon: int) -> int {
    after_colon + leading_spaces(rest)
}

/// A plain scalar's characters: the text up to a trailing comment, trimmed.
/// A `#` opens a comment at the start of the scalar or after a space.
pub open spec fn plain_spec(text: Seq<char>) -> Seq<char> {
    let end = if text.len() > 0 && text[0] == '#' {
        0
    } else {
        let at = crate::chars::first_occurrence(text, 0, seq![' ', '#']);
        if at >= 0 {
            at
        } else {
            text.len() as int
        }
    };
    trim_end_spec(text.take(end))
}

/// The first `:` at or after `i` that ends a key: one followed by a space, or
/// one ending the text.
pub open spec fn key_colon(s: Seq<char>, i: int) -> int
    decreases s.len() - i,
{
    if i < 0 || i >= s.len() {
        -1
    } else if s[i] == ':' && (i + 1 == s.len() || s[i + 1] == ' ') {
        i
    } else {
        key_colon(s, i + 1)
    }
}

/// `key: value` read from the front of a line: the key's characters, how many
/// characters it occupied, and where the value begins.
pub open spec fn key_spec(text: Seq<char>) -> Option<(Seq<char>, int, int)> {
    if text.len() > 0 && (text[0] == '\'' || text[0] == '"') {
        match quoted_spec(text) {
            Ok((t, n)) => {
                let after = text.skip(n);
                let spaces = leading_spaces(after);
                let rest = after.skip(spaces);
                if rest.len() > 0 && rest[0] == ':' && (rest.len() == 1 || rest[1] == ' ') {
                    Some((t, n, value_at_spec(rest.drop_first(), n + spaces + 1)))
                } else {
                    None
                }
            },
            Err(_) => None,
        }
    } else {
        let colon = key_colon(text, 0);
        if colon < 0 {
            None
        } else {
            let key = trim_end_spec(text.take(colon));
            if key.len() == 0 {
                None
            } else {
                Some((key, key.len() as int, value_at_spec(text.skip(colon + 1), colon + 1)))
            }
        }
    }
}

proof fn lemma_strip_spaces_shorter(s: Seq<char>)
    ensures
        0 <= leading_spaces(s) <= s.len(),
        forall|k: int| 0 <= k < leading_spaces(s) ==> s[k] == ' ',
    decreases s.len(),
{
    if s.len() > 0 && s[0] == ' ' {
        lemma_strip_spaces_shorter(s.drop_first());
        assert forall|k: int| 1 <= k < leading_spaces(s) implies s[k] == ' ' by {
            assert(s[k] == s.drop_first()[k - 1]);
        }
    }
}

proof fn lemma_trim_end_shorter(s: Seq<char>)
    ensures
        trim_end_spec(s).len() <= s.len(),
        trim_end_spec(s) == s.take(trim_end_spec(s).len() as int),
    decreases s.len(),
{
    if s.len() > 0 && is_space(s.last()) {
        lemma_trim_end_shorter(s.drop_last());
        assert(s.drop_last().take(trim_end_spec(s).len() as int) =~= s.take(
            trim_end_spec(s).len() as int,
        ));
    } else {
        assert(s.take(s.len() as int) =~= s);
    }
}

/// How many spaces `s` begins with.
pub fn count_spaces(s: &[char]) -> (n: usize)
    ensures
        n == leading_spaces(s@),
        n <= s@.len(),
{
    let mut k: usize = 0;
    assert(s@.skip(0) =~= s@);
    while k < s.len() && s[k] == ' '
        invariant
            k <= s.len(),
            leading_spaces(s@) == k + leading_spaces(s@.skip(k as int)),
        decreases s.len() - k,
    {
        assert(s@.skip(k as int).drop_first() =~= s@.skip(k + 1));
        k = k + 1;
    }
    k
}

/// `s` without trailing white space.
pub fn trim_end(s: &[char]) -> (r: Vec<char>)
    ensures
        r@ == trim_end_spec(s@),
{
    let mut n = s.len();
    assert(s@.take(n as int) =~= s@);
    while n > 0 && crate::note::body::white(s[n - 1])
        invariant
            n <= s.len(),
            trim_end_spec(s@) == trim_end_spec(s@.take(n as int)),
        decreases n,
    {
        assert(s@.take(n as int).drop_last() =~= s@.take(n - 1));
        n = n - 1;
    }
    slice(s, 0, n)
}

/// A plain scalar's characters: the text up to a trailing comment, trimmed.
pub fn plain(text: &[char]) -> (r: Vec<char>)
    ensures
        r@ == plain_spec(text@),
{
    let end = if text.len() > 0 && text[0] == '#' {
        0
    } else {
        let pattern = [' ', '#'];
        assert(pattern@ =~= seq![' ', '#']);
        match crate::chars::find_from(text, 0, &pattern) {
            Some(at) => at,
            None => text.len(),
        }
    };
    trim_end(&slice(text, 0, end))
}

fn find_key_colon(s: &[char]) -> (r: Option<usize>)
    ensures
        match r {
            Some(i) => key_colon(s@, 0) == i && i < s@.len(),
            None => key_colon(s@, 0) == -1,
        },
{
    let mut i: usize = 0;
    while i < s.len()
        invariant
            i <= s.len(),
            key_colon(s@, 0) == key_colon(s@, i as int),
        decreases s.len() - i,
    {
        if s[i] == ':' && (i + 1 == s.len() || s[i + 1] == ' ') {
            return Some(i);
        }
        i = i + 1;
    }
    None
}

/// `key: value` read from the front of a line, when that is what it is: the
/// key's characters, how many characters it occupied, and where the value
/// begins.
pub fn key(text: &[char]) -> (r: Option<(Vec<char>, usize, usize)>)
    ensures
        match r {
            Some((k, n, at)) => key_spec(text@) == Some((k@, n as int, at as int)) && at
                <= text@.len() && n <= text@.len(),
            None => key_spec(text@).is_none(),
        },
{
    if text.len() > 0 && (text[0] == '\'' || text[0] == '"') {
        match quoted(text) {
            Ok((t, n)) => {
                let after = slice(text, n, text.len());
                assert(after@ =~= text@.skip(n as int));
                let spaces = count_spaces(&after);
                let rest = slice(&after, spaces, after.len());
                assert(rest@ =~= after@.skip(spaces as int));
                if rest.len() > 0 && rest[0] == ':' && (rest.len() == 1 || rest[1] == ' ') {
                    let tail = slice(&rest, 1, rest.len());
                    assert(tail@ =~= rest@.drop_first());
                    let more = count_spaces(&tail);
                    Some((t, n, n + spaces + 1 + more))
                } else {
                    None
                }
            },
            Err(_) => None,
        }
    } else {
        match find_key_colon(text) {
            None => None,
            Some(colon) => {
                let key = trim_end(&slice(text, 0, colon));
                proof {
                    lemma_trim_end_shorter(text@.take(colon as int));
                }
                if key.len() == 0 {
                    None
                } else {
                    let tail = slice(text, colon + 1, text.len());
                    assert(tail@ =~= text@.skip(colon + 1));
                    let more = count_spaces(&tail);
                    let n = key.len();
                    Some((key, n, colon + 1 + more))
                }
            },
        }
    }
}

/// Text read from its front, as the frontmatter grammar reads a key or a
/// scalar. Every length and offset it answers is in bytes.
pub struct Head<'a>(pub &'a str);

/// A scalar read from the front of some text.
#[derive(Debug)]
pub struct Read {
    /// The characters, with quoting undone.
    pub text: String,
    /// How many bytes of the input the scalar occupied.
    pub length: usize,
}

/// A key read from the front of a line, and where its value begins.
#[derive(Debug)]
pub struct Key {
    /// The key's characters, with quoting undone.
    pub text: String,
    /// How many bytes of the line the key occupied, quotes included.
    pub length: usize,
    /// The byte offset within the line where the value begins.
    pub value_at: usize,
}

impl<'a> Head<'a> {
    /// Whether the text opens a quoted scalar.
    pub fn opens_quote(&self) -> (b: bool)
        ensures
            b == (self.0@.len() > 0 && (self.0@[0] == '\'' || self.0@[0] == '"')),
    {
        let text = chars_of(self.0);
        text.len() > 0 && (text[0] == '\'' || text[0] == '"')
    }

    /// Reads the quoted scalar at the front.
    pub fn quoted(&self) -> (r: Result<Read, String>)
        ensures
            match r {
                Ok(read) => quoted_spec(self.0@) matches Ok((t, n)) && read.text@ == t
                    && read.length == byte_len(self.0@.take(n)),
                Err(m) => quoted_spec(self.0@) == Err::<(Seq<char>, int), Seq<char>>(m@),
            },
    {
        let (text, offsets) = crate::chars::byte_offsets(self.0);
        match quoted(&text) {
            Ok((t, n)) => Ok(Read { text: string_of(&t), length: offsets[n] }),
            Err(m) => Err(m),
        }
    }

    /// A plain scalar's characters: the text up to a trailing comment,
    /// trimmed.
    pub fn plain(&self) -> (r: String)
        ensures
            r@ == plain_spec(self.0@),
    {
        let text = chars_of(self.0);
        string_of(&plain(&text))
    }

    /// Reads the text as `key: value`, when that is what it is.
    pub fn key(&self) -> (r: Option<Key>)
        ensures
            match r {
                Some(k) => key_spec(self.0@) matches Some((t, n, at)) && k.text@ == t && k.length
                    == byte_len(self.0@.take(n)) && k.value_at == byte_len(self.0@.take(at)),
                None => key_spec(self.0@).is_none(),
            },
    {
        let (text, offsets) = crate::chars::byte_offsets(self.0);
        match key(&text) {
            Some((k, n, at)) => {
                let length = offsets[n];
                let value_at = offsets[at];
                assert(length == byte_len(self.0@.take(n as int)));
                assert(value_at == byte_len(self.0@.take(at as int)));
                let spelled = string_of(&k);
                assert(key_spec(self.0@) == Some((spelled@, n as int, at as int)));
                Some(Key { text: spelled, length, value_at })
            },
            None => None,
        }
    }
}

} // verus!
