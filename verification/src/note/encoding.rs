//! A note's bytes, read as text.
//!
//! A note must be UTF-8; one that is not leaves no text to judge. Two things a
//! note may carry and still be read are reported as warnings, independently:
//! a leading byte order mark, and carriage returns ending its lines.

use vstd::prelude::*;

use crate::chars::{byte_offsets, find_char};

verus! {

/// The UTF-8 encoding of one character.
pub open spec fn utf8_of(c: char) -> Seq<u8> {
    let v = c as u32;
    if v < 0x80 {
        seq![v as u8]
    } else if v < 0x800 {
        seq![(0xc0 | (v >> 6)) as u8, (0x80 | (v & 0x3f)) as u8]
    } else if v < 0x10000 {
        seq![(0xe0 | (v >> 12)) as u8, (0x80 | ((v >> 6) & 0x3f)) as u8, (0x80 | (v & 0x3f)) as u8]
    } else {
        seq![
            (0xf0 | (v >> 18)) as u8,
            (0x80 | ((v >> 12) & 0x3f)) as u8,
            (0x80 | ((v >> 6) & 0x3f)) as u8,
            (0x80 | (v & 0x3f)) as u8,
        ]
    }
}

/// The UTF-8 encoding of a text.
pub open spec fn utf8(s: Seq<char>) -> Seq<u8>
    decreases s.len(),
{
    if s.len() == 0 {
        Seq::empty()
    } else {
        utf8(s.drop_last()) + utf8_of(s.last())
    }
}

/// The text `bytes` encode, when they are UTF-8.
///
/// Calls `core::str::from_utf8`, which std documents as succeeding exactly
/// when the bytes are valid UTF-8, with the string they encode.
#[verifier::external_body]
fn decode(bytes: &[u8]) -> (r: Option<String>)
    ensures
        match r {
            Some(s) => utf8(s@) == bytes@,
            None => forall|s: Seq<char>| utf8(s) != bytes@,
        },
{
    match core::str::from_utf8(bytes) {
        Ok(text) => Some(text.to_owned()),
        Err(_) => None,
    }
}

/// Something a note carries and is read despite.
#[derive(Clone, Copy, Debug, PartialEq, Eq)]
pub enum EncodingFault {
    /// The note begins with a byte order mark.
    ByteOrderMark,
    /// A line ends with a carriage return, first at this byte offset.
    CarriageReturn(usize),
}

impl EncodingFault {
    /// Where the fault is, in bytes.
    pub fn offset(self) -> (n: usize)
        ensures
            n == match self {
                EncodingFault::ByteOrderMark => 0,
                EncodingFault::CarriageReturn(at) => at,
            },
    {
        match self {
            EncodingFault::ByteOrderMark => 0,
            EncodingFault::CarriageReturn(at) => at,
        }
    }

    /// What the fault is, for a reader.
    pub fn describe(self) -> (s: &'static str)
        ensures
            s@ == match self {
                EncodingFault::ByteOrderMark => "the note begins with a byte order mark, which UTF-8 needs no mark for"@,
                EncodingFault::CarriageReturn(_) => "the note ends its lines with a carriage return and a line feed"@,
            },
    {
        match self {
            EncodingFault::ByteOrderMark => "the note begins with a byte order mark, which UTF-8 needs no mark for",
            EncodingFault::CarriageReturn(_) => "the note ends its lines with a carriage return and a line feed",
        }
    }
}

/// A note's bytes, read as text, with what it was read despite.
#[derive(Debug)]
pub struct Reading {
    /// The text.
    pub text: String,
    /// The faults, in the order the note carries them.
    pub faults: Vec<EncodingFault>,
}

/// What a byte order mark at the start of `text` is read despite.
pub open spec fn marks(text: Seq<char>) -> Seq<EncodingFault> {
    if text.len() > 0 && text[0] == '\u{feff}' {
        seq![EncodingFault::ByteOrderMark]
    } else {
        Seq::empty()
    }
}

/// Whether `faults` are exactly what `text` is read despite, in order: a
/// byte order mark where it begins with one, then the first carriage
/// return, at its byte offset, where it carries one.
pub open spec fn warned(text: Seq<char>, faults: Seq<EncodingFault>) -> bool {
    if text.contains('\r') {
        exists|k: int|
            0 <= k < text.len() && text[k] == '\r' && (forall|j: int| 0 <= j < k ==> text[j] != '\r') && faults
                == marks(text).push(EncodingFault::CarriageReturn(#[trigger] crate::chars::byte_len(text.take(k)) as usize))
    } else {
        faults == marks(text)
    }
}

/// Reads a note's bytes as text, or says they are not UTF-8.
pub fn inspect(bytes: &[u8]) -> (r: Option<Reading>)
    ensures
        match r {
            Some(reading) => {
                &&& utf8(reading.text@) == bytes@
                &&& warned(reading.text@, reading.faults@)
                &&& (reading.text@.len() > 0 && reading.text@[0] == '\u{feff}') <==> reading.faults@.contains(
                    EncodingFault::ByteOrderMark,
                )
                &&& reading.text@.contains('\r') <==> (exists|at: usize|
                    #[trigger] reading.faults@.contains(EncodingFault::CarriageReturn(at)))
            },
            None => forall|s: Seq<char>| utf8(s) != bytes@,
        },
{
    let text = match decode(bytes) {
        Some(text) => text,
        None => return None,
    };
    let (chars, offsets) = byte_offsets(text.as_str());
    let mut faults: Vec<EncodingFault> = Vec::new();
    let marked = chars.len() > 0 && chars[0] == '\u{feff}';
    if marked {
        faults.push(EncodingFault::ByteOrderMark);
    }
    match find_char(&chars, 0, '\r') {
        Some(k) => {
            let at = offsets[k];
            faults.push(EncodingFault::CarriageReturn(at));
            assert(faults@[faults@.len() - 1] == EncodingFault::CarriageReturn(at));
            assert(faults@.contains(EncodingFault::CarriageReturn(at)));
            assert(chars@[k as int] == '\r');
            assert(text@.contains('\r'));
            assert(faults@ =~= marks(text@).push(EncodingFault::CarriageReturn(crate::chars::byte_len(text@.take(k as int)) as usize)));
        },
        None => {
            assert(!text@.contains('\r'));
            assert(faults@ =~= marks(text@));
            assert forall|at: usize| !#[trigger] faults@.contains(EncodingFault::CarriageReturn(at)) by {
                if marked {
                    assert(faults@ =~= seq![EncodingFault::ByteOrderMark]);
                } else {
                    assert(faults@ =~= Seq::<EncodingFault>::empty());
                }
            }
        },
    }
    proof {
        if !marked {
            assert(!faults@.contains(EncodingFault::ByteOrderMark)) by {
                if faults@.len() > 0 {
                    assert(faults@[0] is CarriageReturn);
                }
            }
        } else {
            assert(faults@[0] == EncodingFault::ByteOrderMark);
        }
    }
    Some(Reading { text, faults })
}

} // verus!
