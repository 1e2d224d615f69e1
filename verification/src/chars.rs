//! Characters, strings, and the byte offsets spans are measured in.
//!
//! Text is read as a sequence of `char`s, and every offset a span carries is a
//! byte offset into the UTF-8 the text was written as. [`byte_len`] is the
//! bridge between the two.

use vstd::prelude::*;

verus! {

/// How many bytes a character takes in UTF-8.
pub open spec fn width(c: char) -> nat {
    if (c as u32) < 0x80 {
        1
    } else if (c as u32) < 0x800 {
        2
    } else if (c as u32) < 0x10000 {
        3
    } else {
        4
    }
}

/// How many bytes a character sequence takes in UTF-8.
pub open spec fn byte_len(s: Seq<char>) -> nat
    decreases s.len(),
{
    if s.len() == 0 {
        0
    } else {
        byte_len(s.drop_last()) + width(s.last())
    }
}

/// The byte length of a prefix grows by one character's width.
pub proof fn lemma_byte_len_step(s: Seq<char>, i: int)
    requires
        0 <= i < s.len(),
    ensures
        byte_len(s.take(i + 1)) == byte_len(s.take(i)) + width(s[i]),
{
    assert(s.take(i + 1).drop_last() =~= s.take(i));
}

/// Byte length distributes over concatenation.
pub proof fn lemma_byte_len_concat(a: Seq<char>, b: Seq<char>)
    ensures
        byte_len(a + b) == byte_len(a) + byte_len(b),
    decreases b.len(),
{
    if b.len() == 0 {
        assert(a + b =~= a);
    } else {
        assert((a + b).drop_last() =~= a + b.drop_last());
        lemma_byte_len_concat(a, b.drop_last());
    }
}

/// A prefix never takes more bytes than the whole.
pub proof fn lemma_byte_len_prefix(s: Seq<char>, i: int, j: int)
    requires
        0 <= i <= j <= s.len(),
    ensures
        byte_len(s.take(i)) <= byte_len(s.take(j)),
    decreases j - i,
{
    if i < j {
        lemma_byte_len_step(s, j - 1);
        lemma_byte_len_prefix(s, i, j - 1);
    }
}

/// A longer prefix takes strictly more bytes.
pub proof fn lemma_byte_len_strict(s: Seq<char>, i: int, j: int)
    requires
        0 <= i < j <= s.len(),
    ensures
        byte_len(s.take(i)) < byte_len(s.take(j)),
{
    lemma_byte_len_step(s, j - 1);
    lemma_byte_len_prefix(s, i, j - 1);
}

/// Every character takes at least one byte.
pub proof fn lemma_byte_len_at_least(s: Seq<char>)
    ensures
        byte_len(s) >= s.len(),
    decreases s.len(),
{
    if s.len() > 0 {
        lemma_byte_len_at_least(s.drop_last());
    }
}

/// How many bytes `c` takes in UTF-8.
pub fn char_width(c: char) -> (n: usize)
    ensures
        n == width(c),
        1 <= n <= 4,
{
    let code = c as u32;
    if code < 0x80 {
        1
    } else if code < 0x800 {
        2
    } else if code < 0x10000 {
        3
    } else {
        4
    }
}

/// The characters of `s`, in order.
pub fn chars_of(s: &str) -> (v: Vec<char>)
    ensures
        v@ == s@,
{
    let mut v: Vec<char> = Vec::new();
    for c in it: s.chars()
        invariant
            v@ == it.seq().take(it.index() as int),
            it.seq() == s@,
    {
        v.push(c);
    }
    v
}

/// The string spelled by `v`.
///
/// Calls `FromIterator<char> for String` through `Iterator::collect`; its
/// documentation promises the string holds the characters in the order given.
#[verifier::external_body]
pub fn string_of(v: &[char]) -> (s: String)
    ensures
        s@ == v@,
{
    v.iter().collect()
}

/// The byte length of `s`.
///
/// Calls `str::len`, which std documents as the length of `s` in bytes: the
/// length of the UTF-8 that spells its characters.
#[verifier::external_body]
pub fn utf8_len(s: &str) -> (n: usize)
    ensures
        n == byte_len(s@),
{
    s.len()
}


/// Whether `pattern` is written in `s` at `at`.
pub open spec fn occurs_at(s: Seq<char>, at: int, pattern: Seq<char>) -> bool {
    0 <= at && at + pattern.len() <= s.len() && s.subrange(at, at + pattern.len()) == pattern
}

/// Whether `s` begins with `pattern`.
pub open spec fn begins(s: Seq<char>, pattern: Seq<char>) -> bool {
    occurs_at(s, 0, pattern)
}

/// Whether `s` ends with `pattern`.
pub open spec fn ends(s: Seq<char>, pattern: Seq<char>) -> bool {
    occurs_at(s, s.len() - pattern.len(), pattern)
}

/// Whether `c` occurs in `s`.
pub open spec fn has(s: Seq<char>, c: char) -> bool {
    exists|i: int| 0 <= i < s.len() && s[i] == c
}

/// Whether `a` and `b` hold the same characters.
pub fn same(a: &[char], b: &[char]) -> (r: bool)
    ensures
        r == (a@ == b@),
{
    if a.len() != b.len() {
        return false;
    }
    let mut i: usize = 0;
    while i < a.len()
        invariant
            a.len() == b.len(),
            i <= a.len(),
            forall|k: int| 0 <= k < i ==> a@[k] == b@[k],
        decreases a.len() - i,
    {
        if a[i] != b[i] {
            return false;
        }
        i = i + 1;
    }
    assert(a@ =~= b@);
    true
}

/// Whether `pattern` is written in `s` at `at`.
pub fn written_at(s: &[char], at: usize, pattern: &[char]) -> (r: bool)
    ensures
        r == occurs_at(s@, at as int, pattern@),
{
    if at > s.len() || pattern.len() > s.len() - at {
        return false;
    }
    let mut i: usize = 0;
    while i < pattern.len()
        invariant
            at + pattern.len() <= s.len(),
            i <= pattern.len(),
            forall|k: int| 0 <= k < i ==> s@[at + k] == pattern@[k],
        decreases pattern.len() - i,
    {
        if s[at + i] != pattern[i] {
            assert(s@.subrange(at as int, at + pattern.len())[i as int] != pattern@[i as int]);
            return false;
        }
        i = i + 1;
    }
    assert(s@.subrange(at as int, at + pattern.len()) =~= pattern@);
    true
}

/// Whether `s` begins with `pattern`.
pub fn starts_with(s: &[char], pattern: &[char]) -> (r: bool)
    ensures
        r == begins(s@, pattern@),
{
    written_at(s, 0, pattern)
}

/// Whether `s` ends with `pattern`.
pub fn ends_with(s: &[char], pattern: &[char]) -> (r: bool)
    ensures
        r == ends(s@, pattern@),
{
    if pattern.len() > s.len() {
        return false;
    }
    written_at(s, s.len() - pattern.len(), pattern)
}

/// The first position at or after `from` where `c` is written.
pub fn find_char(s: &[char], from: usize, c: char) -> (r: Option<usize>)
    ensures
        match r {
            Some(i) => from <= i < s.len() && s@[i as int] == c && forall|k: int|
                from <= k < i ==> s@[k] != c,
            None => forall|k: int| from <= k < s.len() ==> s@[k] != c,
        },
{
    let mut i = from;
    while i < s.len()
        invariant
            from <= i || s.len() <= i,
            forall|k: int| from <= k < i && k < s.len() ==> s@[k] != c,
        decreases s.len() - i,
    {
        if s[i] == c {
            return Some(i);
        }
        i = i + 1;
    }
    None
}

/// The first position at or after `from` where `pattern` is written.
pub fn find_pattern(s: &[char], from: usize, pattern: &[char]) -> (r: Option<usize>)
    ensures
        match r {
            Some(i) => from <= i && occurs_at(s@, i as int, pattern@) && forall|k: int|
                from <= k < i ==> !occurs_at(s@, k, pattern@),
            None => forall|k: int| from <= k ==> !occurs_at(s@, k, pattern@),
        },
{
    let mut i = from;
    while i < s.len()
        invariant
            from <= i,
            forall|k: int| from <= k < i ==> !occurs_at(s@, k, pattern@),
        decreases s.len() - i,
    {
        if written_at(s, i, pattern) {
            return Some(i);
        }
        i = i + 1;
    }
    if i == s.len() && written_at(s, i, pattern) {
        return Some(i);
    }
    None
}

/// Whether `c` is written anywhere in `s`.
pub fn contains_char(s: &[char], c: char) -> (r: bool)
    ensures
        r == has(s@, c),
{
    match find_char(s, 0, c) {
        Some(_) => true,
        None => false,
    }
}

/// A copy of `s[from..to]`.
pub fn slice(s: &[char], from: usize, to: usize) -> (r: Vec<char>)
    requires
        from <= to <= s.len(),
    ensures
        r@ == s@.subrange(from as int, to as int),
{
    let mut r: Vec<char> = Vec::new();
    let mut i = from;
    while i < to
        invariant
            from <= i <= to <= s.len(),
            r@ == s@.subrange(from as int, i as int),
        decreases to - i,
    {
        r.push(s[i]);
        i = i + 1;
    }
    r
}

/// The string spelled by `s[from..to]`.
pub fn substring(s: &[char], from: usize, to: usize) -> (r: String)
    requires
        from <= to <= s.len(),
    ensures
        r@ == s@.subrange(from as int, to as int),
{
    let v = slice(s, from, to);
    string_of(&v)
}

/// Whether two strings hold the same characters.
pub fn str_eq(a: &str, b: &str) -> (r: bool)
    ensures
        r == (a@ == b@),
{
    let x = chars_of(a);
    let y = chars_of(b);
    same(&x, &y)
}

/// The string spelled by `a` followed by `b`.
pub fn join(a: &str, b: &str) -> (r: String)
    ensures
        r@ == a@ + b@,
{
    let start = String::from_str(a);
    start.concat(b)
}

/// The string spelled by `a`, `b` and `c` in turn.
pub fn join3(a: &str, b: &str, c: &str) -> (r: String)
    ensures
        r@ == a@ + b@ + c@,
{
    let start = String::from_str(a);
    start.concat(b).concat(c)
}

/// The decimal digits of `n`.
pub open spec fn decimal_spec(n: nat) -> Seq<char>
    decreases n,
{
    if n < 10 {
        seq![digit_char(n)]
    } else {
        decimal_spec(n / 10).push(digit_char(n % 10))
    }
}

/// The character spelling the digit `d`.
pub open spec fn digit_char(d: nat) -> char {
    ((d + 48) as u32) as char
}

/// `n` written in decimal.
pub fn decimal(n: usize) -> (r: String)
    ensures
        r@ == decimal_spec(n as nat),
    decreases n,
{
    let mut digits: Vec<char> = Vec::new();
    if n >= 10 {
        let head = decimal(n / 10);
        digits = chars_of(head.as_str());
    }
    let d = (n % 10) as u32;
    let c = char_from_digit(d);
    digits.push(c);
    string_of(&digits)
}

/// The character spelling the digit `d`.
fn char_from_digit(d: u32) -> (c: char)
    requires
        d < 10,
    ensures
        c == digit_char(d as nat),
{
    let c: char = if d == 0 { '0' } else if d == 1 { '1' } else if d == 2 { '2' } else if d == 3 {
        '3'
    } else if d == 4 { '4' } else if d == 5 { '5' } else if d == 6 { '6' } else if d == 7 {
        '7'
    } else if d == 8 { '8' } else { '9' };
    c
}

/// Whether `a` sorts strictly before `b`, character by character, a prefix
/// first. Over UTF-8 this is byte order, because UTF-8 preserves the order of
/// the code points it encodes.
pub open spec fn precedes(a: Seq<char>, b: Seq<char>) -> bool
    decreases a.len(),
{
    if b.len() == 0 {
        false
    } else if a.len() == 0 {
        true
    } else if a[0] != b[0] {
        (a[0] as u32) < (b[0] as u32)
    } else {
        precedes(a.drop_first(), b.drop_first())
    }
}

/// Whether `a` sorts strictly before `b`.
pub fn sorts_before(a: &[char], b: &[char]) -> (r: bool)
    ensures
        r == precedes(a@, b@),
{
    let mut i: usize = 0;
    assert(a@.skip(0) =~= a@);
    assert(b@.skip(0) =~= b@);
    while i < a.len() && i < b.len()
        invariant
            i <= a.len(),
            i <= b.len(),
            forall|k: int| 0 <= k < i ==> a@[k] == b@[k],
            precedes(a@, b@) == precedes(a@.skip(i as int), b@.skip(i as int)),
        decreases a.len() - i,
    {
        if a[i] != b[i] {
            let x = a[i] as u32;
            let y = b[i] as u32;
            return x < y;
        }
        assert(a@.skip(i as int).drop_first() =~= a@.skip(i + 1));
        assert(b@.skip(i as int).drop_first() =~= b@.skip(i + 1));
        i = i + 1;
    }
    i < b.len()
}


/// The first position at or after `from` where `pattern` is written, or `-1`.
pub open spec fn first_occurrence(s: Seq<char>, from: int, pattern: Seq<char>) -> int
    decreases s.len() + 1 - from,
{
    if from < 0 || from > s.len() {
        -1
    } else if occurs_at(s, from, pattern) {
        from
    } else {
        first_occurrence(s, from + 1, pattern)
    }
}

/// With no occurrence in `from..i`, the first is `i` when there is one at `i`.
pub proof fn lemma_first_occurrence(s: Seq<char>, from: int, pattern: Seq<char>, i: int)
    requires
        0 <= from <= i,
        forall|k: int| from <= k < i ==> !occurs_at(s, k, pattern),
        i > s.len() || occurs_at(s, i, pattern),
    ensures
        first_occurrence(s, from, pattern) == if i > s.len() { -1 } else { i },
    decreases i - from,
{
    if from < i && from <= s.len() {
        lemma_first_occurrence(s, from + 1, pattern, i);
    }
}

/// The first position at or after `from` where `pattern` is written.
pub fn find_from(s: &[char], from: usize, pattern: &[char]) -> (r: Option<usize>)
    ensures
        match r {
            Some(i) => first_occurrence(s@, from as int, pattern@) == i && i + pattern@.len()
                <= s@.len(),
            None => first_occurrence(s@, from as int, pattern@) == -1,
        },
{
    let r = find_pattern(s, from, pattern);
    proof {
        match r {
            Some(i) => lemma_first_occurrence(s@, from as int, pattern@, i as int),
            None => lemma_first_occurrence(s@, from as int, pattern@, s@.len() + 1 + from),
        }
    }
    r
}

/// The last position where `pattern` is written in `s`, or `-1`.
pub open spec fn last_occurrence(s: Seq<char>, pattern: Seq<char>, upto: int) -> int
    decreases upto + 1,
{
    if upto < 0 {
        -1
    } else if occurs_at(s, upto, pattern) {
        upto
    } else {
        last_occurrence(s, pattern, upto - 1)
    }
}

/// The last position where `pattern` is written.
pub fn find_last_pattern(s: &[char], pattern: &[char]) -> (r: Option<usize>)
    ensures
        match r {
            Some(i) => last_occurrence(s@, pattern@, s@.len() as int) == i && i + pattern@.len()
                <= s@.len(),
            None => last_occurrence(s@, pattern@, s@.len() as int) == -1,
        },
{
    let mut i: usize = s.len();
    loop
        invariant
            i <= s.len(),
            last_occurrence(s@, pattern@, s@.len() as int) == last_occurrence(s@, pattern@, i as int),
        decreases i,
    {
        if written_at(s, i, pattern) {
            return Some(i);
        }
        if i == 0 {
            assert(last_occurrence(s@, pattern@, -1) == -1);
            return None;
        }
        i = i - 1;
    }
}

/// The characters of `text`, and the byte offset at each character boundary:
/// `offsets[i]` is where character `i` starts, and the last is the length.
pub fn byte_offsets(text: &str) -> (r: (Vec<char>, Vec<usize>))
    ensures
        r.0@ == text@,
        r.1@.len() == r.0@.len() + 1,
        forall|i: int| 0 <= i <= r.0@.len() ==> #[trigger] r.1@[i] == byte_len(r.0@.take(i)),
{
    let chars = chars_of(text);
    let total = utf8_len(text);
    let mut offsets: Vec<usize> = Vec::new();
    offsets.push(0);
    assert(chars@.take(0) =~= Seq::<char>::empty());
    let mut i: usize = 0;
    let mut at: usize = 0;
    while i < chars.len()
        invariant
            i <= chars.len(),
            chars@ == text@,
            total == byte_len(chars@),
            offsets@.len() == i + 1,
            at == byte_len(chars@.take(i as int)),
            forall|k: int| 0 <= k <= i ==> #[trigger] offsets@[k] == byte_len(chars@.take(k)),
        decreases chars.len() - i,
    {
        proof {
            lemma_byte_len_step(chars@, i as int);
            lemma_byte_len_prefix(chars@, i + 1, chars@.len() as int);
            assert(chars@.take(chars@.len() as int) =~= chars@);
        }
        at = at + char_width(chars[i]);
        offsets.push(at);
        i = i + 1;
    }
    (chars, offsets)
}


/// Whether `code` is a Unicode scalar value: at most U+10FFFF, and not a
/// surrogate.
pub open spec fn scalar_value(code: u32) -> bool {
    code <= 0x10ffff && !(0xd800 <= code && code <= 0xdfff)
}

/// The character whose code point is `code`, when `code` is a Unicode scalar
/// value.
///
/// Calls `char::from_u32`, documented to return `None` exactly when `code` is
/// not a valid `char` — a surrogate or above U+10FFFF — and the character with
/// that code point otherwise.
#[verifier::external_body]
pub fn char_from_code(code: u32) -> (r: Option<char>)
    ensures
        r.is_some() == scalar_value(code),
        r matches Some(c) ==> c as u32 == code,
{
    char::from_u32(code)
}

} // verus!
