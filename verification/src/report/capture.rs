//! Plain-text rendering for a write's result.
//!
//! Three lines at most, and every one of them is something a caller acts on:
//! what the act did, where the note is, and how to undo it. The findings
//! themselves are diagnostics and travel on the diagnostic stream, exactly as
//! `check`'s do; this rendering is the result.

use vstd::prelude::*;

use crate::chars::string_of;
use crate::diagnostic::VaultPath;
use crate::text::{append, append_folded, fold};

verus! {

/// What a write did.
#[derive(Clone, Debug, PartialEq, Eq)]
pub enum Outcome {
    /// Nothing was written: the caller asked what would be.
    Previewed,
    /// The note was created and committed.
    Committed {
        /// The note's vault-relative path.
        path: VaultPath,
        /// The commit that recorded it.
        commit: String,
    },
    /// The note was created, and nothing was committed.
    Created {
        /// The note's vault-relative path.
        path: VaultPath,
    },
    /// The write was refused, and nothing was written.
    Refused,
}

/// The one instruction that undoes what landed.
#[derive(Clone, Debug, PartialEq, Eq)]
pub enum Recovery {
    /// Revert the commit that recorded the note.
    Revert {
        /// The commit to revert.
        commit: String,
    },
    /// Delete the note that was created.
    Delete {
        /// The note to delete.
        path: VaultPath,
    },
}

/// A write's result, as its rendering reads it: what happened, and every
/// note the write planned to create.
#[derive(Clone, Debug, PartialEq, Eq)]
pub struct WriteResult {
    /// What the write did.
    pub outcome: Outcome,
    /// Every note the write planned to create, in order.
    pub scope: Vec<VaultPath>,
}

/// How what landed is undone: a commit by reverting it, an uncommitted note
/// by deleting it. A preview and a refusal landed nothing.
pub open spec fn recovery_of(outcome: Outcome) -> Option<Recovery> {
    match outcome {
        Outcome::Committed { commit, .. } => Some(Recovery::Revert { commit }),
        Outcome::Created { path } => Some(Recovery::Delete { path }),
        Outcome::Previewed | Outcome::Refused => None,
    }
}

impl WriteResult {
    /// What the write did.
    pub fn outcome(&self) -> (r: &Outcome)
        ensures
            *r == self.outcome,
    {
        &self.outcome
    }

    /// Every note the write planned to create, in order.
    pub fn scope(&self) -> (r: &[VaultPath])
        ensures
            r@ == self.scope@,
    {
        self.scope.as_slice()
    }

    /// How to undo what landed, when anything did.
    pub fn recovery(&self) -> (r: Option<Recovery>)
        ensures
            match (r, recovery_of(self.outcome)) {
                (Some(Recovery::Revert { commit: a }), Some(Recovery::Revert { commit: b })) => a@ == b@,
                (Some(Recovery::Delete { path: a }), Some(Recovery::Delete { path: b })) => a@ == b@,
                (None, None) => true,
                _ => false,
            },
    {
        match &self.outcome {
            Outcome::Committed { commit, .. } => Some(Recovery::Revert { commit: commit.clone() }),
            Outcome::Created { path } => Some(Recovery::Delete { path: path.copy() }),
            Outcome::Previewed | Outcome::Refused => None,
        }
    }
}

/// One line per note a preview would have created.
pub open spec fn intended_lines(scope: Seq<VaultPath>) -> Seq<char>
    decreases scope.len(),
{
    if scope.len() == 0 {
        Seq::empty()
    } else {
        intended_lines(scope.drop_last()) + "would create   "@ + scope.last()@ + "\n"@
    }
}

/// The instruction a recovery is rendered as.
pub open spec fn recovered(recovery: Recovery) -> Seq<char> {
    match recovery {
        Recovery::Revert { commit } => "reverting "@ + fold(commit@),
        Recovery::Delete { path } => "deleting "@ + path@,
    }
}

/// What a write did, as plain text.
pub open spec fn capture_text_spec(result: WriteResult) -> Seq<char> {
    let done = match result.outcome {
        Outcome::Previewed => "preview: nothing written\n"@ + intended_lines(result.scope@),
        Outcome::Committed { path, commit } => "captured      "@ + path@ + "\n"@ + "committed     "@ + fold(
            commit@,
        ) + "\n"@,
        Outcome::Created { path } => "captured      "@ + path@ + "\n"@ + "committed     no\n"@,
        Outcome::Refused => "refused: nothing written\n"@,
    };
    done + match recovery_of(result.outcome) {
        Some(r) => "recover by    "@ + recovered(r) + "\n"@,
        None => Seq::empty(),
    }
}

/// Renders what a write did as plain text. A preview says what it would
/// have created rather than what it created, and it is the one outcome that
/// landed something with no recovery line, because nothing happened to
/// recover from.
pub fn capture_text(result: &WriteResult) -> (text: String)
    ensures
        text@ == capture_text_spec(*result),
{
    let mut out: Vec<char> = Vec::new();
    match &result.outcome {
        Outcome::Previewed => {
            append(&mut out, "preview: nothing written\n");
            let scope = &result.scope;
            let ghost head = out@;
            let mut i: usize = 0;
            while i < scope.len()
                invariant
                    i <= scope.len(),
                    out@ == head + intended_lines(scope@.take(i as int)),
                decreases scope.len() - i,
            {
                assert(scope@.take(i + 1).drop_last() =~= scope@.take(i as int));
                append(&mut out, "would create   ");
                append(&mut out, scope[i].as_str());
                append(&mut out, "\n");
                i = i + 1;
                assert(out@ =~= head + intended_lines(scope@.take(i as int)));
            }
            assert(scope@.take(scope@.len() as int) =~= scope@);
        },
        Outcome::Committed { path, commit } => {
            append(&mut out, "captured      ");
            append(&mut out, path.as_str());
            append(&mut out, "\n");
            append(&mut out, "committed     ");
            append_folded(&mut out, commit.as_str());
            append(&mut out, "\n");
        },
        Outcome::Created { path } => {
            append(&mut out, "captured      ");
            append(&mut out, path.as_str());
            append(&mut out, "\n");
            append(&mut out, "committed     no\n");
        },
        Outcome::Refused => append(&mut out, "refused: nothing written\n"),
    }
    let ghost body = out@;
    match &result.outcome {
        Outcome::Committed { commit, .. } => {
            append(&mut out, "recover by    ");
            append(&mut out, "reverting ");
            append_folded(&mut out, commit.as_str());
            append(&mut out, "\n");
        },
        Outcome::Created { path } => {
            append(&mut out, "recover by    ");
            append(&mut out, "deleting ");
            append(&mut out, path.as_str());
            append(&mut out, "\n");
        },
        Outcome::Previewed | Outcome::Refused => {},
    }
    assert(out@ =~= capture_text_spec(*result));
    string_of(&out)
}

} // verus!
