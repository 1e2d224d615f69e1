//! Plain-text rendering for entity lookup.

use vstd::prelude::*;

use crate::note::find::FindResult;
use crate::report::list::{summary_line, summary_line_spec};

verus! {

/// Renders the one found note as the tab-separated summary line `list`
/// uses. A refusal (an ambiguous name, a name nothing bears) has no summary
/// to render and produces an empty string, exactly as `show`'s text does;
/// the candidates live in the diagnostic's related evidence.
pub fn find_text(result: &FindResult) -> (text: String)
    ensures
        text@ == match result.note {
            Some(n) => summary_line_spec(n),
            None => Seq::empty(),
        },
{
    match &result.note {
        Some(n) => summary_line(n),
        None => String::new(),
    }
}

} // verus!
