//! The four shapes a frontmatter value may take.
//!
//! The subset admits values "nested at most one level below the top", and that
//! is a shape rule rather than a depth count: a scalar; a sequence of scalars;
//! a mapping of scalars, which is a record value; and a sequence of mappings of
//! scalars, which is a list of records. Everything else is refused.

use vstd::prelude::*;

use crate::chars::{join, join3};

use super::{Entry, Fault, FaultKind, Shape, Value};

verus! {

/// Whether every entry of a mapping carries a scalar.
pub open spec fn all_scalars(entries: Seq<Entry>) -> bool {
    forall|i: int| 0 <= i < entries.len() ==> (#[trigger] entries[i]).value.shape is Scalar
}

/// Whether a sequence's element is a scalar or a mapping of scalars.
pub open spec fn element_admitted(item: Value) -> bool {
    match item.shape {
        Shape::Scalar(_) => true,
        Shape::Mapping(fields) => all_scalars(fields@),
        Shape::Sequence(_) => false,
    }
}

/// Whether a top-level value takes one of the four shapes.
pub open spec fn value_admitted(value: Value) -> bool {
    match value.shape {
        Shape::Scalar(_) => true,
        Shape::Sequence(items) => forall|j: int| 0 <= j < items@.len() ==> element_admitted(#[trigger] items@[j]),
        Shape::Mapping(fields) => all_scalars(fields@),
    }
}

/// Whether every top-level value of a block takes one of the four shapes.
pub open spec fn admitted(entries: Seq<Entry>) -> bool {
    forall|i: int| 0 <= i < entries.len() ==> value_admitted(#[trigger] entries[i].value)
}

/// What `faults` may gain from the shape rule: refusals of the construct, and
/// nothing taken away.
pub open spec fn extends(before: Seq<Fault>, after: Seq<Fault>) -> bool {
    &&& after.len() >= before.len()
    &&& forall|i: int| 0 <= i < before.len() ==> (#[trigger] after[i]) == before[i]
    &&& forall|i: int| before.len() <= i < after.len() ==> (#[trigger] after[i]).kind == FaultKind::Unsupported
}

/// Refuses every value outside the four shapes: `faults` gains a refusal
/// exactly when some value is outside them.
pub fn check(entries: &[Entry], faults: &mut Vec<Fault>)
    ensures
        extends(old(faults)@, final(faults)@),
        final(faults)@.len() == old(faults)@.len() <==> admitted(entries@),
{
    let mut i: usize = 0;
    while i < entries.len()
        invariant
            i <= entries@.len(),
            extends(old(faults)@, faults@),
            faults@.len() == old(faults)@.len() <==> (forall|k: int| 0 <= k < i ==> value_admitted(#[trigger] entries@[k].value)),
        decreases entries.len() - i,
    {
        let entry = &entries[i];
        let before = faults.len();
        match &entry.value.shape {
            Shape::Scalar(_) => {},
            Shape::Sequence(items) => {
                let mut j: usize = 0;
                while j < items.len()
                    invariant
                        j <= items@.len(),
                        faults@.len() >= before,
                        extends(old(faults)@, faults@),
                        before >= old(faults)@.len(),
                        faults@.len() == before <==> (forall|m: int| 0 <= m < j ==> element_admitted(#[trigger] items@[m])),
                    decreases items.len() - j,
                {
                    element(&items[j], entry.key.as_str(), faults);
                    j = j + 1;
                }
            },
            Shape::Mapping(fields) => scalars(fields, faults),
        }
        proof {
            if faults@.len() == old(faults)@.len() {
                assert forall|k: int| 0 <= k < i + 1 implies value_admitted(#[trigger] entries@[k].value) by {
                    if k == i {
                        assert(faults@.len() == before);
                    }
                }
            }
        }
        i = i + 1;
    }
}

/// One element of a sequence: a scalar, or a mapping of scalars.
fn element(item: &Value, key: &str, faults: &mut Vec<Fault>)
    ensures
        extends(old(faults)@, final(faults)@),
        final(faults)@.len() == old(faults)@.len() <==> element_admitted(*item),
{
    match &item.shape {
        Shape::Scalar(_) => {},
        Shape::Mapping(fields) => scalars(fields, faults),
        Shape::Sequence(_) => {
            let what = join3("`", key, "` holds a sequence inside a sequence");
            faults.push(refusal(item, what));
        },
    }
}

/// Every entry of a mapping carries a scalar, and nothing deeper.
fn scalars(entries: &[Entry], faults: &mut Vec<Fault>)
    ensures
        extends(old(faults)@, final(faults)@),
        final(faults)@.len() == old(faults)@.len() <==> all_scalars(entries@),
{
    let mut i: usize = 0;
    while i < entries.len()
        invariant
            i <= entries@.len(),
            extends(old(faults)@, faults@),
            faults@.len() == old(faults)@.len() <==> (forall|k: int| 0 <= k < i ==> (#[trigger] entries@[k]).value.shape is Scalar),
        decreases entries.len() - i,
    {
        let entry = &entries[i];
        let is_scalar = match &entry.value.shape {
            Shape::Scalar(_) => true,
            _ => false,
        };
        if !is_scalar {
            let named = join3("the field `", entry.key.as_str(), "` holds ");
            let what = join(named.as_str(), entry.value.describe());
            faults.push(refusal(&entry.value, what));
        }
        i = i + 1;
    }
}

/// The refusal of a value outside the four shapes, naming them.
fn refusal(value: &Value, what: String) -> (f: Fault)
    ensures
        f.kind == FaultKind::Unsupported,
        f.span == value.span,
{
    let message = join(
        what.as_str(),
        ": frontmatter admits a scalar, a sequence of scalars, a mapping of scalars, or a sequence of mappings of scalars",
    );
    Fault::new(FaultKind::Unsupported, message, value.span.start..value.span.end)
}

} // verus!
