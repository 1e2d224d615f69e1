//! The `check` report: one corpus's aggregate health, shared by both
//! renderings.
//!
//! `check` walks the corpus under the shared read path. This module owns the
//! aggregate that walk produces — the diagnostic list in the total order plus
//! summary counts per severity and per identifier — and its plain-text
//! rendering. It writes nothing; the severity-to-exit mapping stays with the
//! consumer.

use vstd::prelude::*;

use crate::chars::{chars_of, decimal, decimal_spec, precedes, same, sorts_before, string_of};
use crate::diagnostic::{
    Diagnostic, SeverityCounts, counted, is_sorted, lemma_precedes_asymmetric,
    lemma_precedes_total, lemma_precedes_transitive, sorted,
};
use crate::note::Corpus;
use crate::text::append;

verus! {

/// How many of `list`'s diagnostics carry the identifier spelled `id`.
pub open spec fn tally(list: Seq<Diagnostic>, id: Seq<char>) -> nat
    decreases list.len(),
{
    if list.len() == 0 {
        0
    } else {
        tally(list.drop_last(), id) + if list.last().id.spelling() == id {
            1nat
        } else {
            0nat
        }
    }
}

/// A tally never exceeds the list it counts.
pub proof fn lemma_tally_bounded(list: Seq<Diagnostic>, id: Seq<char>)
    ensures
        tally(list, id) <= list.len(),
    decreases list.len(),
{
    if list.len() > 0 {
        lemma_tally_bounded(list.drop_last(), id);
    }
}

/// An identifier that tallies at all is carried by some diagnostic.
pub proof fn lemma_tally_positive(list: Seq<Diagnostic>, id: Seq<char>)
    requires
        tally(list, id) > 0,
    ensures
        exists|k: int| 0 <= k < list.len() && (#[trigger] list[k]).id.spelling() == id,
    decreases list.len(),
{
    if list.last().id.spelling() != id {
        lemma_tally_positive(list.drop_last(), id);
        let k = choose|k: int| 0 <= k < list.drop_last().len() && (#[trigger] list.drop_last()[k]).id.spelling() == id;
        assert(list[k] == list.drop_last()[k]);
    } else {
        assert(list[list.len() - 1] == list.last());
    }
}

/// Whether `by` is `list`'s per-identifier tally: one entry per identifier
/// `list` carries, strictly in identifier order, each with its count.
pub open spec fn tallies(list: Seq<Diagnostic>, by: Seq<(String, usize)>) -> bool {
    &&& forall|i: int, j: int| 0 <= i < j < by.len() ==> precedes((#[trigger] by[i]).0@, (#[trigger] by[j]).0@)
    &&& forall|i: int| 0 <= i < by.len() ==> (#[trigger] by[i]).1 == tally(list, by[i].0@) && by[i].1 > 0
    &&& forall|k: int| 0 <= k < list.len() ==> exists|i: int| 0 <= i < by.len() && (#[trigger] by[i]).0@ == (#[trigger] list[k]).id.spelling()
}

/// Two sequences, neither equal to nor preceding the other, the other way round.
proof fn lemma_precedes_other_way(a: Seq<char>, b: Seq<char>)
    requires
        !precedes(a, b),
        a != b,
    ensures
        precedes(b, a),
{
    if !precedes(b, a) {
        lemma_precedes_total(a, b);
    }
}

/// The per-identifier tally of `list`, in identifier order.
pub fn tally_identifiers(list: &[Diagnostic]) -> (by: Vec<(String, usize)>)
    ensures
        tallies(list@, by@),
{
    let mut by: Vec<(String, usize)> = Vec::new();
    let mut n: usize = 0;
    while n < list.len()
        invariant
            n <= list.len(),
            tallies(list@.take(n as int), by@),
        decreases list.len() - n,
    {
        let ghost seen = list@.take(n as int);
        let ghost next = list@.take(n + 1);
        let ghost old_by = by@;
        let name = chars_of(list[n].id.as_str());
        proof {
            assert(next.drop_last() =~= seen);
            assert(next.last() == list@[n as int]);
            lemma_tally_bounded(seen, name@);
        }
        let mut k: usize = 0;
        while k < by.len() && sorts_before(&chars_of(by[k].0.as_str()), &name)
            invariant
                k <= by.len(),
                by@ == old_by,
                forall|j: int| 0 <= j < k ==> precedes((#[trigger] by@[j]).0@, name@),
            decreases by.len() - k,
        {
            k = k + 1;
        }
        let found = k < by.len() && same(&chars_of(by[k].0.as_str()), &name);
        if found {
            let count = by[k].1;
            by.set(k, (string_of(&name), count + 1));
            proof {
                assert forall|i: int| 0 <= i < by@.len() && i != k implies (#[trigger] by@[i]).0@ != name@ by {
                    assert(by@[i] == old_by[i]);
                    if i < k {
                        lemma_precedes_asymmetric(old_by[i].0@, old_by[k as int].0@);
                    } else {
                        lemma_precedes_asymmetric(old_by[k as int].0@, old_by[i].0@);
                    }
                }
                assert forall|i: int, j: int| 0 <= i < j < by@.len() implies precedes(
                    (#[trigger] by@[i]).0@,
                    (#[trigger] by@[j]).0@,
                ) by {
                    assert(old_by[i].0@ == by@[i].0@ && old_by[j].0@ == by@[j].0@);
                }
                assert forall|k2: int| 0 <= k2 < next.len() implies exists|i: int|
                    0 <= i < by@.len() && (#[trigger] by@[i]).0@ == (#[trigger] next[k2]).id.spelling() by {
                    if k2 < n {
                        assert(next[k2] == seen[k2]);
                        let i = choose|i: int| 0 <= i < old_by.len() && (#[trigger] old_by[i]).0@ == seen[k2].id.spelling();
                        assert(by@[i].0@ == old_by[i].0@);
                    } else {
                        assert(by@[k as int].0@ == next[k2].id.spelling());
                    }
                }
            }
        } else {
            by.insert(k, (string_of(&name), 1));
            proof {
                if k < old_by.len() {
                    lemma_precedes_other_way(old_by[k as int].0@, name@);
                }
                assert forall|i: int| 0 <= i < old_by.len() implies (#[trigger] old_by[i]).0@ != name@ by {
                    if i < k {
                        lemma_precedes_asymmetric(old_by[i].0@, name@);
                    } else if i > k {
                        lemma_precedes_transitive(name@, old_by[k as int].0@, old_by[i].0@);
                        lemma_precedes_asymmetric(name@, old_by[i].0@);
                    }
                }
                if tally(seen, name@) > 0 {
                    lemma_tally_positive(seen, name@);
                    let k2 = choose|k2: int| 0 <= k2 < seen.len() && (#[trigger] seen[k2]).id.spelling() == name@;
                    let i = choose|i: int| 0 <= i < old_by.len() && (#[trigger] old_by[i]).0@ == seen[k2].id.spelling();
                    assert(old_by[i].0@ != name@);
                }
                assert forall|i: int, j: int| 0 <= i < j < by@.len() implies precedes(
                    (#[trigger] by@[i]).0@,
                    (#[trigger] by@[j]).0@,
                ) by {
                    if j < k {
                        assert(by@[i] == old_by[i] && by@[j] == old_by[j]);
                    } else if i > k {
                        assert(by@[i] == old_by[i - 1] && by@[j] == old_by[j - 1]);
                    } else if i == k {
                        assert(by@[j] == old_by[j - 1]);
                        if j - 1 > k {
                            lemma_precedes_transitive(name@, old_by[k as int].0@, old_by[j - 1].0@);
                        }
                    } else if j == k {
                        assert(by@[i] == old_by[i]);
                    } else {
                        assert(by@[i] == old_by[i] && by@[j] == old_by[j - 1]);
                        lemma_precedes_transitive(old_by[i].0@, name@, old_by[k as int].0@);
                        if j - 1 > k {
                            lemma_precedes_transitive(old_by[i].0@, old_by[k as int].0@, old_by[j - 1].0@);
                        }
                    }
                }
                assert forall|i: int| 0 <= i < by@.len() implies (#[trigger] by@[i]).1 == tally(next, by@[i].0@)
                    && by@[i].1 > 0 by {
                    if i < k {
                        assert(by@[i] == old_by[i]);
                    } else if i > k {
                        assert(by@[i] == old_by[i - 1]);
                    }
                }
                assert forall|k2: int| 0 <= k2 < next.len() implies exists|i: int|
                    0 <= i < by@.len() && (#[trigger] by@[i]).0@ == (#[trigger] next[k2]).id.spelling() by {
                    if k2 < n {
                        assert(next[k2] == seen[k2]);
                        let i = choose|i: int| 0 <= i < old_by.len() && (#[trigger] old_by[i]).0@ == seen[k2].id.spelling();
                        if i < k {
                            assert(by@[i] == old_by[i]);
                        } else {
                            assert(by@[i + 1] == old_by[i]);
                        }
                    } else {
                        assert(by@[k as int].0@ == next[k2].id.spelling());
                    }
                }
            }
        }
        n = n + 1;
    }
    assert(list@.take(list@.len() as int) =~= list@);
    by
}

/// The aggregate corpus-health report behind `check`'s renderings.
#[derive(Clone, Debug, PartialEq, Eq)]
pub struct CheckReport {
    /// Every finding, in the diagnostic total order.
    pub diagnostics: Vec<Diagnostic>,
    /// Summary counts per severity.
    pub counts: SeverityCounts,
    /// Summary counts per identifier, in identifier order.
    pub by_identifier: Vec<(String, usize)>,
}

impl CheckReport {
    /// Every finding, in the diagnostic total order.
    pub fn diagnostics(&self) -> (r: &[Diagnostic])
        ensures
            r@ == self.diagnostics@,
    {
        self.diagnostics.as_slice()
    }

    /// Summary counts per severity.
    pub fn counts(&self) -> (r: SeverityCounts)
        ensures
            r == self.counts,
    {
        self.counts
    }

    /// Summary counts per identifier, in identifier order.
    pub fn by_identifier(&self) -> (r: &[(String, usize)])
        ensures
            r@ == self.by_identifier@,
    {
        self.by_identifier.as_slice()
    }
}

/// Whether `report` is the aggregate of `all`: the same diagnostics in the
/// total order, their counts per severity, and their tally per identifier.
pub open spec fn aggregates(report: CheckReport, all: Seq<Diagnostic>) -> bool {
    &&& report.diagnostics@.to_multiset() == all.to_multiset()
    &&& is_sorted(report.diagnostics@)
    &&& counted(report.counts, all)
    &&& tallies(all, report.by_identifier@)
}

/// Aggregates one corpus walk into the report both renderings share.
///
/// `extra` carries the loading path's diagnostics, so the report is the whole
/// run's answer: selection, opening and corpus in one list, exactly the
/// diagnostics the exit code weighs. The report takes both lists over rather
/// than copying them.
pub fn check_report(corpus: Corpus, extra: Vec<Diagnostic>) -> (r: CheckReport)
    ensures
        aggregates(r, extra@ + corpus.diagnostics@),
{
    let mut all = extra;
    let mut found = corpus.diagnostics;
    all.append(&mut found);
    let counts = SeverityCounts::of(&all);
    let by_identifier = tally_identifiers(&all);
    let diagnostics = sorted(all);
    CheckReport { diagnostics, counts, by_identifier }
}

/// The widest identifier a tally carries, in characters.
pub open spec fn widest(by: Seq<(String, usize)>) -> nat
    decreases by.len(),
{
    if by.len() == 0 {
        0
    } else {
        let rest = widest(by.drop_last());
        if by.last().0@.len() > rest {
            by.last().0@.len()
        } else {
            rest
        }
    }
}

/// No identifier is wider than the widest.
proof fn lemma_widest(by: Seq<(String, usize)>, i: int)
    requires
        0 <= i < by.len(),
    ensures
        by[i].0@.len() <= widest(by),
    decreases by.len(),
{
    if i < by.len() - 1 {
        lemma_widest(by.drop_last(), i);
        assert(by.drop_last()[i] == by[i]);
    }
}

/// `n` spaces.
pub open spec fn spaces(n: nat) -> Seq<char> {
    Seq::new(n, |i: int| ' ')
}

/// One identifier's row: the identifier padded to `width`, then its count.
pub open spec fn tally_row(entry: (String, usize), width: nat) -> Seq<char> {
    "  "@ + entry.0@ + spaces((width - entry.0@.len()) as nat) + "  "@ + decimal_spec(entry.1 as nat) + "\n"@
}

/// The rows of a tally, each padded to `width`.
pub open spec fn tally_rows(by: Seq<(String, usize)>, width: nat) -> Seq<char>
    decreases by.len(),
{
    if by.len() == 0 {
        Seq::empty()
    } else {
        tally_rows(by.drop_last(), width) + tally_row(by.last(), width)
    }
}

/// `check`'s plain-text summary of `report`.
pub open spec fn check_text_spec(report: CheckReport) -> Seq<char> {
    if report.diagnostics@.len() == 0 {
        "no findings\n"@
    } else {
        "findings: "@ + decimal_spec(report.counts.error as nat) + " error(s), "@ + decimal_spec(
            report.counts.warning as nat,
        ) + " warning(s), "@ + decimal_spec(report.counts.info as nat) + " info\n"@ + tally_rows(
            report.by_identifier@,
            widest(report.by_identifier@),
        )
    }
}

/// Renders the aggregate summary as plain text.
///
/// The findings themselves are diagnostics and travel on the diagnostic
/// stream; this rendering is the result: the counts a reader scans before
/// deciding whether to read them.
pub fn check_text(report: &CheckReport) -> (text: String)
    ensures
        text@ == check_text_spec(*report),
{
    proof {
        reveal_strlit("no findings\n");
        reveal_strlit("findings: ");
        reveal_strlit(" error(s), ");
        reveal_strlit(" warning(s), ");
        reveal_strlit(" info\n");
        reveal_strlit("  ");
        reveal_strlit("\n");
    }
    if report.diagnostics.len() == 0 {
        return String::from_str("no findings\n");
    }
    let mut out: Vec<char> = Vec::new();
    append(&mut out, "findings: ");
    append(&mut out, decimal(report.counts.error).as_str());
    append(&mut out, " error(s), ");
    append(&mut out, decimal(report.counts.warning).as_str());
    append(&mut out, " warning(s), ");
    append(&mut out, decimal(report.counts.info).as_str());
    append(&mut out, " info\n");
    let by = &report.by_identifier;
    let mut width: usize = 0;
    let mut i: usize = 0;
    while i < by.len()
        invariant
            i <= by.len(),
            width == widest(by@.take(i as int)),
        decreases by.len() - i,
    {
        assert(by@.take(i + 1).drop_last() =~= by@.take(i as int));
        let len = chars_of(by[i].0.as_str()).len();
        if len > width {
            width = len;
        }
        i = i + 1;
    }
    assert(by@.take(by@.len() as int) =~= by@);
    let ghost head = out@;
    let mut j: usize = 0;
    while j < by.len()
        invariant
            j <= by.len(),
            width == widest(by@),
            out@ == head + tally_rows(by@.take(j as int), width as nat),
        decreases by.len() - j,
    {
        proof {
            assert(by@.take(j + 1).drop_last() =~= by@.take(j as int));
            lemma_widest(by@, j as int);
        }
        let ghost before = out@;
        append(&mut out, "  ");
        let name = chars_of(by[j].0.as_str());
        append(&mut out, by[j].0.as_str());
        let mut pad: usize = name.len();
        let ghost padded = out@;
        while pad < width
            invariant
                name.len() <= pad <= width,
                out@ == padded + spaces((pad - name.len()) as nat),
            decreases width - pad,
        {
            out.push(' ');
            pad = pad + 1;
            assert(out@ =~= padded + spaces((pad - name.len()) as nat));
        }
        append(&mut out, "  ");
        append(&mut out, decimal(by[j].1).as_str());
        append(&mut out, "\n");
        assert(out@ =~= before + tally_row(by@[j as int], width as nat));
        j = j + 1;
    }
    assert(by@.take(by@.len() as int) =~= by@);
    string_of(&out)
}

} // verus!
