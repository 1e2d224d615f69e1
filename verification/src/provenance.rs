//! Where each resolved value came from.
//!
//! Provenance is recorded **per leaf value**, addressed by a stable dotted key
//! path, because the question worth answering mechanically is whether a value
//! is what it is because someone wrote it or because nobody said. There are
//! three sources and no more, and a format default is attributed to the
//! contract version that defines it.

use vstd::prelude::*;

use crate::chars::{chars_of, precedes, sorts_before};
use crate::diagnostic::{Location, lemma_precedes_asymmetric, lemma_precedes_total, lemma_precedes_transitive};

verus! {

/// Where a resolved value came from.
#[derive(Clone, Copy, Debug, PartialEq, Eq)]
pub enum Source {
    /// Written explicitly in the committed vault contract.
    Contract,
    /// Written explicitly in the local installation record.
    Installation,
    /// Omitted, and filled from the declaring version's default table.
    Default {
        /// The contract version whose format defines the default.
        contract_version: u32,
    },
}

impl Source {
    /// The lowercase wire spelling.
    pub open spec fn spelling(self) -> Seq<char> {
        match self {
            Source::Contract => "contract"@,
            Source::Installation => "installation"@,
            Source::Default { .. } => "default"@,
        }
    }

    /// The lowercase wire spelling, used by every structured format.
    pub fn as_str(self) -> (s: &'static str)
        ensures
            s@ == self.spelling(),
    {
        match self {
            Source::Contract => "contract",
            Source::Installation => "installation",
            Source::Default { .. } => "default",
        }
    }
}

/// One resolved leaf value's provenance.
#[derive(Clone, Debug, PartialEq, Eq)]
pub struct ProvenanceEntry {
    /// The stable dotted key path, for example
    /// `type.person.property.full_name.required`.
    pub key: String,
    /// Where the value came from.
    pub source: Source,
    /// Where it is written, when it is written anywhere. A default carries no
    /// location, because there is no file to point at.
    pub location: Option<Location>,
}

impl ProvenanceEntry {
    /// An entry for a value written in a file.
    pub fn written(key: &str, source: Source, location: Location) -> (e: ProvenanceEntry)
        ensures
            e.key@ == key@,
            e.source == source,
            e.location == Some(location),
    {
        ProvenanceEntry { key: String::from_str(key), source, location: Some(location) }
    }

    /// An entry for a value the declaring version's format default supplied.
    pub fn defaulted(key: &str, contract_version: u32) -> (e: ProvenanceEntry)
        ensures
            e.key@ == key@,
            e.source == (Source::Default { contract_version }),
            e.location.is_none(),
    {
        ProvenanceEntry {
            key: String::from_str(key),
            source: Source::Default { contract_version },
            location: None,
        }
    }
}

/// Whether the entries run in strictly increasing key order, which also says
/// that no key is held twice.
pub open spec fn key_ordered(s: Seq<ProvenanceEntry>) -> bool {
    forall|i: int, j: int| 0 <= i < j < s.len() ==> precedes(#[trigger] s[i].key@, #[trigger] s[j].key@)
}

/// Whether some entry of `s` is held for `key`.
pub open spec fn holds(s: Seq<ProvenanceEntry>, key: Seq<char>) -> bool {
    exists|i: int| 0 <= i < s.len() && #[trigger] s[i].key@ == key
}

/// The entry `s` holds for `key`, when it holds one.
pub open spec fn entry_for(s: Seq<ProvenanceEntry>, key: Seq<char>) -> ProvenanceEntry
    recommends
        holds(s, key),
{
    s[choose|i: int| 0 <= i < s.len() && #[trigger] s[i].key@ == key]
}

/// Every resolved leaf value's provenance, in key order.
#[derive(Clone, Debug, PartialEq, Eq)]
pub struct Provenance {
    entries: Vec<ProvenanceEntry>,
}

impl View for Provenance {
    type V = Seq<ProvenanceEntry>;

    closed spec fn view(&self) -> Seq<ProvenanceEntry> {
        self.entries@
    }
}

/// In a key-ordered sequence, the entry at `i` is the one held for its key.
pub proof fn lemma_entry_for(s: Seq<ProvenanceEntry>, i: int)
    requires
        key_ordered(s),
        0 <= i < s.len(),
    ensures
        holds(s, s[i].key@),
        entry_for(s, s[i].key@) == s[i],
{
    let j = choose|j: int| 0 <= j < s.len() && #[trigger] s[j].key@ == s[i].key@;
    if j < i {
        lemma_precedes_asymmetric(s[j].key@, s[i].key@);
    } else if i < j {
        lemma_precedes_asymmetric(s[i].key@, s[j].key@);
    }
}

impl Provenance {
    /// Whether the provenance holds its entries in strictly increasing key
    /// order, which every constructor establishes and every method keeps.
    pub open spec fn wf(&self) -> bool {
        key_ordered(self@)
    }

    /// Empty provenance.
    pub fn new() -> (p: Provenance)
        ensures
            p.wf(),
            p@.len() == 0,
    {
        Provenance { entries: Vec::new() }
    }

    /// Records an entry, replacing any entry already held for its key.
    pub fn insert(&mut self, entry: ProvenanceEntry)
        requires
            old(self).wf(),
        ensures
            final(self).wf(),
            holds(final(self)@, entry.key@),
            entry_for(final(self)@, entry.key@) == entry,
            forall|k: Seq<char>|
                k != entry.key@ ==> (holds(final(self)@, k) == holds(old(self)@, k)),
            forall|k: Seq<char>|
                k != entry.key@ && holds(old(self)@, k) ==> entry_for(final(self)@, k)
                    == entry_for(old(self)@, k),
            final(self)@.len() == old(self)@.len() + if holds(old(self)@, entry.key@) {
                0int
            } else {
                1int
            },
    {
        let key = chars_of(entry.key.as_str());
        let ghost old_s = self.entries@;
        let mut k: usize = 0;
        while k < self.entries.len()
            invariant
                k <= self.entries.len(),
                self.entries@ == old_s,
                key@ == entry.key@,
                key_ordered(old_s),
                forall|j: int| 0 <= j < k ==> precedes(#[trigger] old_s[j].key@, key@),
            ensures
                k <= self.entries.len(),
                self.entries@ == old_s,
                forall|j: int| 0 <= j < k ==> precedes(#[trigger] old_s[j].key@, key@),
                k < self.entries.len() ==> !precedes(old_s[k as int].key@, key@),
            decreases self.entries.len() - k,
        {
            let here = chars_of(self.entries[k].key.as_str());
            if !sorts_before(&here, &key) {
                break;
            }
            k = k + 1;
        }
        let replace = k < self.entries.len() && {
            let here = chars_of(self.entries[k].key.as_str());
            crate::chars::same(&here, &key)
        };
        if replace {
            self.entries.set(k, entry);
            proof {
                let s = self.entries@;
                assert forall|i: int, j: int| 0 <= i < j < s.len() implies precedes(
                    #[trigger] s[i].key@,
                    #[trigger] s[j].key@,
                ) by {
                    assert(precedes(old_s[i].key@, old_s[j].key@));
                }
                lemma_entry_for(s, k as int);
                assert(holds(old_s, key@)) by {
                    assert(old_s[k as int].key@ == key@);
                }
                assert forall|q: Seq<char>| q != key@ implies holds(s, q) == holds(old_s, q) by {
                    if holds(s, q) {
                        let i = choose|i: int| 0 <= i < s.len() && #[trigger] s[i].key@ == q;
                        assert(old_s[i].key@ == q);
                    }
                    if holds(old_s, q) {
                        let i = choose|i: int| 0 <= i < old_s.len() && #[trigger] old_s[i].key@ == q;
                        assert(s[i].key@ == q);
                    }
                }
                assert forall|q: Seq<char>| q != key@ && holds(old_s, q) implies entry_for(s, q)
                    == entry_for(old_s, q) by {
                    let i = choose|i: int| 0 <= i < old_s.len() && #[trigger] old_s[i].key@ == q;
                    lemma_entry_for(old_s, i);
                    lemma_entry_for(s, i);
                }
            }
        } else {
            self.entries.insert(k, entry);
            proof {
                let s = self.entries@;
                if k < old_s.len() {
                    let here = old_s[k as int].key@;
                    assert(!precedes(here, key@));
                    if !precedes(key@, here) {
                        lemma_precedes_total(here, key@);
                    }
                }
                assert forall|i: int, j: int| 0 <= i < j < s.len() implies precedes(
                    #[trigger] s[i].key@,
                    #[trigger] s[j].key@,
                ) by {
                    if j < k {
                        assert(s[i] == old_s[i] && s[j] == old_s[j]);
                    } else if i > k {
                        assert(s[i] == old_s[i - 1] && s[j] == old_s[j - 1]);
                    } else if i == k {
                        assert(s[j] == old_s[j - 1]);
                        if j - 1 > k {
                            lemma_precedes_transitive(key@, old_s[k as int].key@, old_s[j - 1].key@);
                        }
                    } else if j == k {
                        assert(s[i] == old_s[i]);
                    } else {
                        assert(s[i] == old_s[i] && s[j] == old_s[j - 1]);
                        lemma_precedes_transitive(old_s[i].key@, key@, old_s[k as int].key@);
                        if j - 1 > k {
                            lemma_precedes_transitive(old_s[i].key@, old_s[k as int].key@, old_s[j - 1].key@);
                        }
                    }
                }
                assert(s[k as int] == entry);
                lemma_entry_for(s, k as int);
                assert(!holds(old_s, key@)) by {
                    if holds(old_s, key@) {
                        let i = choose|i: int| 0 <= i < old_s.len() && #[trigger] old_s[i].key@ == key@;
                        if i < k {
                            lemma_precedes_asymmetric(old_s[i].key@, key@);
                        } else if i > k {
                            lemma_precedes_transitive(key@, old_s[k as int].key@, old_s[i].key@);
                            lemma_precedes_asymmetric(key@, old_s[i].key@);
                        }
                    }
                }
                assert forall|q: Seq<char>| q != key@ implies holds(s, q) == holds(old_s, q) by {
                    if holds(s, q) {
                        let i = choose|i: int| 0 <= i < s.len() && #[trigger] s[i].key@ == q;
                        if i < k {
                            assert(old_s[i].key@ == q);
                        } else if i > k {
                            assert(old_s[i - 1].key@ == q);
                        }
                    }
                    if holds(old_s, q) {
                        let i = choose|i: int| 0 <= i < old_s.len() && #[trigger] old_s[i].key@ == q;
                        if i < k {
                            assert(s[i].key@ == q);
                        } else {
                            assert(s[i + 1].key@ == q);
                        }
                    }
                }
                assert forall|q: Seq<char>| q != key@ && holds(old_s, q) implies entry_for(s, q)
                    == entry_for(old_s, q) by {
                    let i = choose|i: int| 0 <= i < old_s.len() && #[trigger] old_s[i].key@ == q;
                    lemma_entry_for(old_s, i);
                    if i < k {
                        lemma_entry_for(s, i);
                    } else {
                        lemma_entry_for(s, i + 1);
                    }
                }
            }
        }
    }

    /// The entry for a key path.
    pub fn get(&self, key: &str) -> (r: Option<&ProvenanceEntry>)
        requires
            self.wf(),
        ensures
            r.is_some() == holds(self@, key@),
            r matches Some(e) ==> *e == entry_for(self@, key@),
    {
        let wanted = chars_of(key);
        let mut i: usize = 0;
        while i < self.entries.len()
            invariant
                i <= self.entries.len(),
                self.wf(),
                wanted@ == key@,
                forall|j: int| 0 <= j < i ==> #[trigger] self.entries@[j].key@ != key@,
            decreases self.entries.len() - i,
        {
            let here = chars_of(self.entries[i].key.as_str());
            if crate::chars::same(&here, &wanted) {
                proof {
                    lemma_entry_for(self.entries@, i as int);
                }
                return Some(&self.entries[i]);
            }
            i = i + 1;
        }
        None
    }

    /// Every entry, in key order.
    pub fn entries(&self) -> (r: &[ProvenanceEntry])
        ensures
            r@ == self@,
    {
        self.entries.as_slice()
    }

    /// How many entries are recorded.
    pub fn len(&self) -> (n: usize)
        ensures
            n == self@.len(),
    {
        self.entries.len()
    }

    /// Whether anything is recorded.
    pub fn is_empty(&self) -> (b: bool)
        ensures
            b == (self@.len() == 0),
    {
        self.entries.len() == 0
    }

    /// Absorbs another provenance, so an opened vault can report the
    /// contract's and the installation record's together, still in key order.
    /// Where both hold a key, the absorbed entry is the one kept.
    pub fn merge(&mut self, other: Provenance)
        requires
            old(self).wf(),
            other.wf(),
        ensures
            final(self).wf(),
            forall|k: Seq<char>| holds(final(self)@, k) == (holds(old(self)@, k) || holds(other@, k)),
            forall|k: Seq<char>| holds(other@, k) ==> entry_for(final(self)@, k) == entry_for(other@, k),
            forall|k: Seq<char>|
                holds(old(self)@, k) && !holds(other@, k) ==> entry_for(final(self)@, k)
                    == entry_for(old(self)@, k),
    {
        let ghost first = self.entries@;
        let ghost second = other.entries@;
        let total = other.entries.len();
        let mut rest = other.entries;
        let mut taken: usize = 0;
        proof {
            assert(second.skip(0) =~= second);
            assert forall|k: Seq<char>| !holds(second.take(0), k) by {}
        }
        while rest.len() > 0
            invariant
                self.wf(),
                taken + rest@.len() == second.len(),
                total == second.len(),
                rest@ == second.skip(taken as int),
                key_ordered(second),
                forall|k: Seq<char>| #[trigger] holds(self@, k) == (holds(first, k) || holds(second.take(taken as int), k)),
                forall|k: Seq<char>| holds(second.take(taken as int), k) ==> entry_for(self@, k) == entry_for(second, k),
                forall|k: Seq<char>| holds(first, k) && !holds(second.take(taken as int), k) ==> entry_for(self@, k) == entry_for(first, k),
            decreases rest.len(),
        {
            let entry = rest.remove(0);
            proof {
                assert(entry == second[taken as int]);
            }
            let ghost before = self@;
            self.insert(entry);
            proof {
                let t1 = second.take(taken + 1);
                let t0 = second.take(taken as int);
                lemma_entry_for(second, taken as int);
                assert forall|k: Seq<char>| holds(t1, k) == (holds(t0, k) || k == entry.key@) by {
                    if holds(t1, k) {
                        let i = choose|i: int| 0 <= i < t1.len() && #[trigger] t1[i].key@ == k;
                        if i < taken {
                            assert(t0[i].key@ == k);
                        }
                    }
                    if holds(t0, k) {
                        let i = choose|i: int| 0 <= i < t0.len() && #[trigger] t0[i].key@ == k;
                        assert(t1[i].key@ == k);
                    }
                    if k == entry.key@ {
                        assert(t1[taken as int].key@ == k);
                    }
                }
                assert forall|k: Seq<char>| #[trigger] holds(self@, k) == (holds(first, k) || holds(t1, k)) by {
                    if k != entry.key@ {
                        assert(holds(self@, k) == holds(before, k));
                        assert(holds(before, k) == (holds(first, k) || holds(t0, k)));
                    }
                }
                assert forall|k: Seq<char>| holds(t1, k) implies entry_for(self@, k) == entry_for(second, k) by {
                    if k != entry.key@ {
                        assert(holds(t0, k));
                        assert(holds(before, k) == (holds(first, k) || holds(t0, k)));
                        assert(holds(before, k));
                        assert(entry_for(before, k) == entry_for(second, k));
                    }
                }
                assert forall|k: Seq<char>| holds(first, k) && !holds(t1, k) implies entry_for(self@, k) == entry_for(first, k) by {
                    assert(k != entry.key@);
                    assert(!holds(t0, k));
                    assert(holds(before, k) == (holds(first, k) || holds(t0, k)));
                    assert(holds(before, k));
                    assert(entry_for(before, k) == entry_for(first, k));
                }
            }
            taken = taken + 1;
            proof {
                assert(rest@ =~= second.skip(taken as int));
            }
        }
        proof {
            assert(second.take(taken as int) =~= second);
        }
    }
}

} // verus!
