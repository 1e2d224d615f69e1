//! Plain-text rendering for corpus summaries.

use vstd::prelude::*;

use crate::chars::string_of;
use crate::note::list::{ListResult, NoteSummary};
use crate::text::{append, append_folded, fold};

verus! {

/// One summary as one tab-separated line: path, type, and the axis value
/// where an axis answers.
pub open spec fn summary_line_spec(note: NoteSummary) -> Seq<char> {
    note.path@ + "\t"@ + match note.bound_type {
        Some(t) => fold(t@),
        None => Seq::empty(),
    } + match note.lifecycle {
        Some(v) => "\t"@ + fold(v@),
        None => Seq::empty(),
    } + "\n"@
}

/// One line per summary, in order.
pub open spec fn summary_lines(notes: Seq<NoteSummary>) -> Seq<char>
    decreases notes.len(),
{
    if notes.len() == 0 {
        Seq::empty()
    } else {
        summary_lines(notes.drop_last()) + summary_line_spec(notes.last())
    }
}

/// Appends one summary's line.
pub fn push_summary_line(out: &mut Vec<char>, note: &NoteSummary)
    ensures
        final(out)@ == old(out)@ + summary_line_spec(*note),
{
    let ghost start = out@;
    append(out, note.path.as_str());
    append(out, "\t");
    match &note.bound_type {
        Some(t) => append_folded(out, t.as_str()),
        None => {},
    }
    match &note.lifecycle {
        Some(v) => {
            append(out, "\t");
            append_folded(out, v.as_str());
        },
        None => {},
    }
    append(out, "\n");
    assert(out@ =~= start + summary_line_spec(*note));
}

/// One summary as one tab-separated line. Shared with `find`, whose one
/// answer is a summary rendered exactly as `list` renders each of its own.
pub fn summary_line(note: &NoteSummary) -> (line: String)
    ensures
        line@ == summary_line_spec(*note),
{
    let mut out: Vec<char> = Vec::new();
    push_summary_line(&mut out, note);
    string_of(&out)
}

/// Renders one tab-separated line per matching note.
pub fn list_text(result: &ListResult) -> (text: String)
    ensures
        text@ == summary_lines(result.notes@),
{
    let notes = &result.notes;
    let mut out: Vec<char> = Vec::new();
    let mut i: usize = 0;
    while i < notes.len()
        invariant
            i <= notes.len(),
            out@ == summary_lines(notes@.take(i as int)),
        decreases notes.len() - i,
    {
        assert(notes@.take(i + 1).drop_last() =~= notes@.take(i as int));
        push_summary_line(&mut out, &notes[i]);
        i = i + 1;
    }
    assert(notes@.take(notes@.len() as int) =~= notes@);
    string_of(&out)
}

} // verus!
