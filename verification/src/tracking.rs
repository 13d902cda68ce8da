//! State the telemetry loop keeps between ticks: process names already looked
//! up, and connections whose statistics collection has been switched on.
use vstd::prelude::*;
use std::collections::{HashMap, HashSet};
use crate::keyed::{assoc_has, lemma_assoc_lookup_some};
use crate::traffic::{
    conn_pairs, key_code, key_code_spec, lemma_key_code_injective, row_for, ConnTable, TcpConnKey,
    MAX_TRACKED_CONNECTIONS,
};

verus! {

/// Process names by process id, so that the operating system is asked once per
/// process; cleared at every flush, since ids are reused.
pub struct NameCache {
    names: HashMap<u32, String>,
}

impl View for NameCache {
    type V = Map<u32, Seq<char>>;

    closed spec fn view(&self) -> Map<u32, Seq<char>> {
        self.names@.map_values(|n: String| n@)
    }
}

impl NameCache {
    /// A cache that knows no names.
    pub fn new() -> (c: NameCache)
        ensures
            c@ == Map::<u32, Seq<char>>::empty(),
    {
        let c = NameCache { names: HashMap::new() };
        assert(c@ =~= Map::<u32, Seq<char>>::empty());
        c
    }

    /// The name remembered for `pid`.
    pub fn lookup(&self, pid: u32) -> (r: Option<String>)
        ensures
            r is Some <==> self@.dom().contains(pid),
            r matches Some(n) ==> n@ == self@[pid],
    {
        broadcast use vstd::std_specs::hash::group_hash_axioms;

        match self.names.get(&pid) {
            Some(n) => Some(n.clone()),
            None => None,
        }
    }

    /// Remembers `name` for `pid`.
    pub fn remember(&mut self, pid: u32, name: String)
        ensures
            final(self)@ == old(self)@.insert(pid, name@),
    {
        broadcast use vstd::std_specs::hash::group_hash_axioms;

        let ghost before = self.names@;
        let ghost nv = name@;
        self.names.insert(pid, name);
        assert(self@ =~= before.map_values(|n: String| n@).insert(pid, nv));
    }

    /// Forgets every name.
    pub fn clear(&mut self)
        ensures
            final(self)@ == Map::<u32, Seq<char>>::empty(),
    {
        self.names.clear();
        assert(self@ =~= Map::<u32, Seq<char>>::empty());
    }
}

/// Connections whose per-connection statistics collection has been switched on;
/// a connection is switched on once, before its counters are first read. The
/// connections are kept by their integer codes.
pub struct EstatsTracker {
    armed: HashSet<u128>,
}

impl View for EstatsTracker {
    type V = Set<TcpConnKey>;

    closed spec fn view(&self) -> Set<TcpConnKey> {
        Set::new(|k: TcpConnKey| self.armed@.contains(key_code_spec(k)))
    }
}

impl EstatsTracker {
    /// A tracker with no connection switched on.
    pub fn new() -> (t: EstatsTracker)
        ensures
            t@ == Set::<TcpConnKey>::empty(),
    {
        let t = EstatsTracker { armed: HashSet::new() };
        assert(t@ =~= Set::<TcpConnKey>::empty());
        t
    }

    /// Whether statistics collection still has to be switched on for `key`.
    pub fn needs_arming(&self, key: TcpConnKey) -> (r: bool)
        ensures
            r == !self@.contains(key),
    {
        broadcast use vstd::std_specs::hash::group_hash_axioms;

        !self.armed.contains(&key_code(key))
    }

    /// Records that collection has been switched on for `key`.
    pub fn mark_armed(&mut self, key: TcpConnKey)
        ensures
            final(self)@ == old(self)@.insert(key),
    {
        broadcast use vstd::std_specs::hash::group_hash_axioms;

        self.armed.insert(key_code(key));
        assert forall|k: TcpConnKey| #[trigger] self@.contains(k) <==> old(self)@.insert(key).contains(k) by {
            lemma_key_code_injective(k, key);
        }
        assert(self@ =~= old(self)@.insert(key));
    }

    /// Keeps only the connections present in `live`.
    pub fn retain_live(&mut self, live: &ConnTable)
        ensures
            final(self)@ == old(self)@.filter(|k: TcpConnKey| row_for(live@, k) is Some),
    {
        broadcast use vstd::std_specs::hash::group_hash_axioms;

        let mut kept: HashSet<u128> = HashSet::new();
        let n = live.len();
        let mut i: usize = 0;
        let ghost rows = live@;
        while i < n
            invariant
                n == rows.len(),
                rows == live@,
                i <= n,
                forall|c: u128| #[trigger] kept@.contains(c) <==> (self.armed@.contains(c) && exists|
                    j: int,
                | 0 <= j < i && key_code_spec(rows[j].key) == c),
            decreases n - i,
        {
            let row = live.row(i);
            let c = key_code(row.key);
            if self.armed.contains(&c) {
                kept.insert(c);
            }
            assert forall|d: u128| #[trigger] kept@.contains(d) <==> (self.armed@.contains(d) && exists|
                j: int,
            | 0 <= j < i + 1 && key_code_spec(rows[j].key) == d) by {
                if exists|j: int| 0 <= j < i + 1 && key_code_spec(rows[j].key) == d {
                    let j = choose|j: int| 0 <= j < i + 1 && key_code_spec(rows[j].key) == d;
                    if j < i {
                        assert(exists|j2: int| 0 <= j2 < i && key_code_spec(rows[j2].key) == d);
                    }
                }
                if exists|j: int| 0 <= j < i && key_code_spec(rows[j].key) == d {
                    let j = choose|j: int| 0 <= j < i && key_code_spec(rows[j].key) == d;
                    assert(0 <= j < i + 1 && key_code_spec(rows[j].key) == d);
                }
                if d == c {
                    assert(key_code_spec(rows[i as int].key) == d);
                }
            }
            i = i + 1;
        }
        let ghost before = self@;
        self.armed = kept;
        assert forall|k: TcpConnKey| #[trigger] self@.contains(k) <==> before.filter(
            |k: TcpConnKey| row_for(live@, k) is Some,
        ).contains(k) by {
            lemma_assoc_lookup_some(conn_pairs(rows), k);
            if exists|j: int| 0 <= j < n && key_code_spec(rows[j].key) == key_code_spec(k) {
                let j = choose|j: int| 0 <= j < n && key_code_spec(rows[j].key) == key_code_spec(k);
                lemma_key_code_injective(rows[j].key, k);
                assert(conn_pairs(rows)[j].0 == k);
            }
            if assoc_has(conn_pairs(rows), k) {
                let j = choose|j: int| 0 <= j < conn_pairs(rows).len() && conn_pairs(rows)[j].0 == k;
                assert(rows[j].key == k);
                assert(0 <= j < n && key_code_spec(rows[j].key) == key_code_spec(k));
            }
        }
        assert(self@ =~= before.filter(|k: TcpConnKey| row_for(live@, k) is Some));
    }

    /// Forgets every connection.
    pub fn clear(&mut self)
        ensures
            final(self)@ == Set::<TcpConnKey>::empty(),
    {
        self.armed.clear();
        assert(self@ =~= Set::<TcpConnKey>::empty());
    }
}

/// Whether a connection table that reports `n` entries is believed: at least
/// one, and no more than `MAX_TRACKED_CONNECTIONS`.
pub fn plausible_entry_count(n: u32) -> (r: bool)
    ensures
        r == (n > 0 && n <= MAX_TRACKED_CONNECTIONS),
{
    n > 0 && n <= 65_536
}

} // verus!
