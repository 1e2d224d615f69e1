//! Plain-text rendering for search hits.

use vstd::prelude::*;

use crate::chars::string_of;
use crate::note::search::{SearchHit, SearchResult};
use crate::text::{append, append_folded, fold};

verus! {

/// One hit as one tab-separated line: path, type, and the matched context
/// where the hit has context beyond its path.
pub open spec fn hit_line(hit: SearchHit) -> Seq<char> {
    hit.path@ + "\t"@ + match hit.bound_type {
        Some(t) => fold(t@),
        None => Seq::empty(),
    } + match hit.snippet {
        Some(s) => "\t"@ + fold(s@),
        None => Seq::empty(),
    } + "\n"@
}

/// One line per hit, in order.
pub open spec fn hit_lines(hits: Seq<SearchHit>) -> Seq<char>
    decreases hits.len(),
{
    if hits.len() == 0 {
        Seq::empty()
    } else {
        hit_lines(hits.drop_last()) + hit_line(hits.last())
    }
}

/// Renders one tab-separated line per hit: path, type, matched context. The
/// snippet column appears only where a hit has context beyond its path,
/// exactly as `list`'s lifecycle column appears only where an axis answers.
pub fn search_text(result: &SearchResult) -> (text: String)
    ensures
        text@ == hit_lines(result.hits@),
{
    let hits = &result.hits;
    let mut out: Vec<char> = Vec::new();
    let mut i: usize = 0;
    while i < hits.len()
        invariant
            i <= hits.len(),
            out@ == hit_lines(hits@.take(i as int)),
        decreases hits.len() - i,
    {
        assert(hits@.take(i + 1).drop_last() =~= hits@.take(i as int));
        let ghost before = out@;
        let hit = &hits[i];
        append(&mut out, hit.path.as_str());
        append(&mut out, "\t");
        match &hit.bound_type {
            Some(t) => append_folded(&mut out, t.as_str()),
            None => {},
        }
        match &hit.snippet {
            Some(s) => {
                append(&mut out, "\t");
                append_folded(&mut out, s.as_str());
            },
            None => {},
        }
        append(&mut out, "\n");
        assert(out@ =~= before + hit_line(*hit));
        i = i + 1;
    }
    assert(hits@.take(hits@.len() as int) =~= hits@);
    string_of(&out)
}

} // verus!
