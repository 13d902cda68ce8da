//! Per-process usage gathered between two flushes to the database.
use vstd::prelude::*;
use crate::keyed::{assoc_distinct, assoc_has, assoc_map, lemma_assoc_lookup_index, lemma_assoc_lookup_some, lemma_assoc_push, lemma_assoc_update};
use crate::text::text_equals;

verus! {

/// Bytes and screen time gathered for one process since the last flush.
#[derive(Clone, Copy, Debug, PartialEq, Eq)]
pub struct AccTotals {
    pub bytes_downloaded: u64,
    pub bytes_uploaded: u64,
    pub screen_time_seconds: u32,
}

/// One process and what was gathered for it.
#[derive(Clone, Debug)]
pub struct AccEntry {
    pub name: String,
    pub totals: AccTotals,
}

pub open spec fn zero_totals() -> AccTotals {
    AccTotals { bytes_downloaded: 0, bytes_uploaded: 0, screen_time_seconds: 0 }
}

/// The entries as (name, totals) pairs.
pub open spec fn acc_pairs(s: Seq<AccEntry>) -> Seq<(Seq<char>, AccTotals)> {
    s.map_values(|e: AccEntry| (e.name@, e.totals))
}

/// The totals recorded under `name` in `m`, zero where there are none.
pub open spec fn totals_or_zero(m: Map<Seq<char>, AccTotals>, name: Seq<char>) -> AccTotals {
    if m.dom().contains(name) {
        m[name]
    } else {
        zero_totals()
    }
}

/// `m` with `rx` and `tx` bytes added to the totals of `name`.
pub open spec fn credit_bytes_spec(
    m: Map<Seq<char>, AccTotals>,
    name: Seq<char>,
    rx: u64,
    tx: u64,
) -> Map<Seq<char>, AccTotals> {
    let t = totals_or_zero(m, name);
    m.insert(
        name,
        AccTotals {
            bytes_downloaded: (t.bytes_downloaded + rx) as u64,
            bytes_uploaded: (t.bytes_uploaded + tx) as u64,
            screen_time_seconds: t.screen_time_seconds,
        },
    )
}

/// `m` with `secs` seconds of screen time added to the totals of `name`.
pub open spec fn credit_screen_spec(
    m: Map<Seq<char>, AccTotals>,
    name: Seq<char>,
    secs: u32,
) -> Map<Seq<char>, AccTotals> {
    let t = totals_or_zero(m, name);
    m.insert(
        name,
        AccTotals {
            bytes_downloaded: t.bytes_downloaded,
            bytes_uploaded: t.bytes_uploaded,
            screen_time_seconds: (t.screen_time_seconds + secs) as u32,
        },
    )
}

/// Downloaded bytes over all entries.
pub open spec fn downloaded_sum(s: Seq<AccEntry>) -> int
    decreases s.len(),
{
    if s.len() == 0 {
        0
    } else {
        downloaded_sum(s.drop_last()) + s.last().totals.bytes_downloaded
    }
}

/// Uploaded bytes over all entries.
pub open spec fn uploaded_sum(s: Seq<AccEntry>) -> int
    decreases s.len(),
{
    if s.len() == 0 {
        0
    } else {
        uploaded_sum(s.drop_last()) + s.last().totals.bytes_uploaded
    }
}

proof fn lemma_byte_sums_update(s: Seq<AccEntry>, i: int, e: AccEntry)
    requires
        0 <= i < s.len(),
    ensures
        downloaded_sum(s.update(i, e)) == downloaded_sum(s) - s[i].totals.bytes_downloaded
            + e.totals.bytes_downloaded,
        uploaded_sum(s.update(i, e)) == uploaded_sum(s) - s[i].totals.bytes_uploaded
            + e.totals.bytes_uploaded,
    decreases s.len(),
{
    let u = s.update(i, e);
    if i == s.len() - 1 {
        assert(u.drop_last() =~= s.drop_last());
    } else {
        assert(u.drop_last() =~= s.drop_last().update(i, e));
        lemma_byte_sums_update(s.drop_last(), i, e);
    }
}

/// Usage per process name, gathered until the next flush.
pub struct Accumulator {
    entries: Vec<AccEntry>,
}

impl View for Accumulator {
    type V = Map<Seq<char>, AccTotals>;

    closed spec fn view(&self) -> Map<Seq<char>, AccTotals> {
        assoc_map(acc_pairs(self.entries@))
    }
}

impl Accumulator {
    /// Downloaded bytes gathered over all processes.
    pub closed spec fn downloaded_total(&self) -> int {
        downloaded_sum(self.entries@)
    }

    /// Uploaded bytes gathered over all processes.
    pub closed spec fn uploaded_total(&self) -> int {
        uploaded_sum(self.entries@)
    }

    #[verifier::type_invariant]
    closed spec fn names_distinct(self) -> bool {
        assoc_distinct(acc_pairs(self.entries@))
    }

    /// An accumulator with nothing gathered.
    pub fn new() -> (r: Accumulator)
        ensures
            r@ == Map::<Seq<char>, AccTotals>::empty(),
            r.downloaded_total() == 0,
            r.uploaded_total() == 0,
    {
        let r = Accumulator { entries: Vec::new() };
        assert(r@ =~= Map::<Seq<char>, AccTotals>::empty());
        r
    }

    /// Number of processes with an entry.
    pub fn len(&self) -> (n: usize)
        ensures
            n == self@.dom().len(),
    {
        proof {
            use_type_invariant(self);
            self.lemma_dom_len();
        }
        self.entries.len()
    }

    proof fn lemma_dom_len(&self)
        requires
            assoc_distinct(acc_pairs(self.entries@)),
        ensures
            self@.dom().len() == self.entries.len(),
            self@.dom().finite(),
        decreases self.entries.len(),
    {
        let p = acc_pairs(self.entries@);
        assert(self@.dom() =~= p.map_values(|e: (Seq<char>, AccTotals)| e.0).to_set()) by {
            assert forall|k: Seq<char>| self@.dom().contains(k) <==> p.map_values(
                |e: (Seq<char>, AccTotals)| e.0,
            ).to_set().contains(k) by {
                lemma_assoc_lookup_some(p, k);
                if assoc_has(p, k) {
                    let i = choose|i: int| 0 <= i < p.len() && p[i].0 == k;
                    assert(p.map_values(|e: (Seq<char>, AccTotals)| e.0)[i] == k);
                }
                if p.map_values(|e: (Seq<char>, AccTotals)| e.0).to_set().contains(k) {
                    let keys = p.map_values(|e: (Seq<char>, AccTotals)| e.0);
                    assert(keys.contains(k));
                    let i = choose|i: int| 0 <= i < keys.len() && keys[i] == k;
                    assert(p[i].0 == k);
                }
            }
        }
        let keys = p.map_values(|e: (Seq<char>, AccTotals)| e.0);
        assert(keys.no_duplicates()) by {
            assert forall|a: int, b: int| 0 <= a < keys.len() && 0 <= b < keys.len() && a != b
                implies keys[a] != keys[b] by {
                if a < b {
                    assert(p[a].0 != p[b].0);
                } else {
                    assert(p[b].0 != p[a].0);
                }
            }
        }
        keys.unique_seq_to_set();
    }

    /// Index of the entry of `name`, if there is one.
    fn find(&self, name: &str) -> (r: Option<usize>)
        ensures
            r matches Some(i) ==> i < self.entries.len() && self.entries@[i as int].name@ == name@,
            r is None ==> !assoc_has(acc_pairs(self.entries@), name@),
    {
        let mut i: usize = 0;
        while i < self.entries.len()
            invariant
                i <= self.entries.len(),
                forall|j: int| 0 <= j < i ==> self.entries@[j].name@ != name@,
            decreases self.entries.len() - i,
        {
            if text_equals(self.entries[i].name.as_str(), name) {
                return Some(i);
            }
            i = i + 1;
        }
        proof {
            let p = acc_pairs(self.entries@);
            if assoc_has(p, name@) {
                let j = choose|j: int| 0 <= j < p.len() && p[j].0 == name@;
                assert(self.entries@[j].name@ == name@);
            }
        }
        None
    }

    /// Sets the totals of `name`, adding an entry where there is none.
    fn store(&mut self, name: &str, totals: AccTotals)
        ensures
            final(self)@ == old(self)@.insert(name@, totals),
            final(self).downloaded_total() == old(self).downloaded_total() - totals_or_zero(
                old(self)@,
                name@,
            ).bytes_downloaded + totals.bytes_downloaded,
            final(self).uploaded_total() == old(self).uploaded_total() - totals_or_zero(
                old(self)@,
                name@,
            ).bytes_uploaded + totals.bytes_uploaded,
    {
        proof {
            use_type_invariant(&*self);
        }
        let ghost p = acc_pairs(self.entries@);
        match self.find(name) {
            Some(i) => {
                let entry_name = self.entries[i].name.clone();
                let mut entries: Vec<AccEntry> = Vec::new();
                std::mem::swap(&mut entries, &mut self.entries);
                let ghost before = entries@;
                entries.set(i, AccEntry { name: entry_name, totals });
                proof {
                    lemma_assoc_lookup_index(p, i as int);
                    assert(entries@ =~= before.update(i as int, entries@[i as int]));
                    lemma_byte_sums_update(before, i as int, entries@[i as int]);
                    assert(acc_pairs(entries@) =~= p.update(i as int, (p[i as int].0, totals)));
                    lemma_assoc_update(p, i as int, totals);
                }
                self.entries = entries;
            },
            None => {
                let mut entries: Vec<AccEntry> = Vec::new();
                std::mem::swap(&mut entries, &mut self.entries);
                let ghost before = entries@;
                entries.push(AccEntry { name: String::from_str(name), totals });
                proof {
                    lemma_assoc_lookup_some(p, name@);
                    assert(entries@.drop_last() =~= before);
                    assert(acc_pairs(entries@) =~= p.push((name@, totals)));
                    lemma_assoc_push(p, name@, totals);
                }
                self.entries = entries;
            },
        }
    }

    /// The totals of `name`, zero where there are none.
    pub fn totals_of(&self, name: &str) -> (t: AccTotals)
        ensures
            t == totals_or_zero(self@, name@),
    {
        proof {
            use_type_invariant(self);
        }
        match self.find(name) {
            Some(i) => {
                proof {
                    lemma_assoc_lookup_index(acc_pairs(self.entries@), i as int);
                }
                self.entries[i].totals
            },
            None => {
                proof {
                    lemma_assoc_lookup_some(acc_pairs(self.entries@), name@);
                }
                AccTotals { bytes_downloaded: 0, bytes_uploaded: 0, screen_time_seconds: 0 }
            },
        }
    }

    /// Adds transferred bytes to the totals of `name`.
    pub fn credit_bytes(&mut self, name: &str, rx: u64, tx: u64)
        requires
            totals_or_zero(old(self)@, name@).bytes_downloaded + rx <= u64::MAX,
            totals_or_zero(old(self)@, name@).bytes_uploaded + tx <= u64::MAX,
        ensures
            final(self)@ == credit_bytes_spec(old(self)@, name@, rx, tx),
            final(self).downloaded_total() == old(self).downloaded_total() + rx,
            final(self).uploaded_total() == old(self).uploaded_total() + tx,
    {
        let t = self.totals_of(name);
        self.store(
            name,
            AccTotals {
                bytes_downloaded: t.bytes_downloaded + rx,
                bytes_uploaded: t.bytes_uploaded + tx,
                screen_time_seconds: t.screen_time_seconds,
            },
        );
    }

    /// Adds screen time to the totals of `name`; an entry is made even for 0 seconds.
    pub fn credit_screen_time(&mut self, name: &str, secs: u32)
        requires
            totals_or_zero(old(self)@, name@).screen_time_seconds + secs <= u32::MAX,
        ensures
            final(self)@ == credit_screen_spec(old(self)@, name@, secs),
            final(self).downloaded_total() == old(self).downloaded_total(),
            final(self).uploaded_total() == old(self).uploaded_total(),
    {
        let t = self.totals_of(name);
        self.store(
            name,
            AccTotals {
                bytes_downloaded: t.bytes_downloaded,
                bytes_uploaded: t.bytes_uploaded,
                screen_time_seconds: t.screen_time_seconds + secs,
            },
        );
    }

    /// Hands out everything gathered and starts over empty.
    pub fn drain(&mut self) -> (out: Vec<AccEntry>)
        ensures
            final(self)@ == Map::<Seq<char>, AccTotals>::empty(),
            assoc_distinct(acc_pairs(out@)),
            assoc_map(acc_pairs(out@)) == old(self)@,
            downloaded_sum(out@) == old(self).downloaded_total(),
            uploaded_sum(out@) == old(self).uploaded_total(),
            final(self).downloaded_total() == 0,
            final(self).uploaded_total() == 0,
    {
        proof {
            use_type_invariant(&*self);
        }
        let mut out: Vec<AccEntry> = Vec::new();
        std::mem::swap(&mut out, &mut self.entries);
        assert(self@ =~= Map::<Seq<char>, AccTotals>::empty());
        out
    }
}

} // verus!
