//! Per-process attribution of network traffic from TCP connection counters.
use vstd::prelude::*;
use std::collections::HashMap;
use crate::keyed::{
    assoc_distinct, assoc_has, assoc_lookup, assoc_map, lemma_assoc_lookup_index,
    lemma_assoc_lookup_some, lemma_assoc_push, lemma_assoc_update,
};

verus! {

/// Largest realistic transfer rate, 1.5 GB/s (12 Gbps): a faster reading is a
/// counter artifact and is discarded or capped.
pub const MAX_REALISTIC_BPS: u64 = 1_500_000_000;

/// Largest number of connections a snapshot holds; a connection table reporting
/// more entries is treated as corrupt.
pub const MAX_TRACKED_CONNECTIONS: usize = 65_536;

/// The four-tuple that identifies an IPv4 TCP connection; ports keep the raw
/// representation that the operating system reports.
#[derive(Clone, Copy, Debug, PartialEq, Eq, Structural)]
pub struct TcpConnKey {
    pub local_addr: u32,
    pub local_port: u32,
    pub remote_addr: u32,
    pub remote_port: u32,
}

/// A connection's four-tuple packed into one integer, 32 bits per field, local
/// address highest: distinct connections get distinct codes.
pub open spec fn key_code_spec(k: TcpConnKey) -> u128 {
    ((k.local_addr as u128) << 96u128) | ((k.local_port as u128) << 64u128) | ((
    k.remote_addr as u128) << 32u128) | (k.remote_port as u128)
}

/// The integer code of a connection's four-tuple, by which tables look it up.
pub fn key_code(k: TcpConnKey) -> (c: u128)
    ensures
        c == key_code_spec(k),
{
    ((k.local_addr as u128) << 96u128) | ((k.local_port as u128) << 64u128) | ((
    k.remote_addr as u128) << 32u128) | (k.remote_port as u128)
}

/// Two connections with one code are one connection.
pub proof fn lemma_key_code_injective(a: TcpConnKey, b: TcpConnKey)
    ensures
        key_code_spec(a) == key_code_spec(b) ==> a == b,
{
    let (a0, a1, a2, a3) = (a.local_addr, a.local_port, a.remote_addr, a.remote_port);
    let (b0, b1, b2, b3) = (b.local_addr, b.local_port, b.remote_addr, b.remote_port);
    assert(((a0 as u128) << 96u128) | ((a1 as u128) << 64u128) | ((a2 as u128) << 32u128) | (
    a3 as u128) == ((b0 as u128) << 96u128) | ((b1 as u128) << 64u128) | ((b2 as u128) << 32u128)
        | (b3 as u128) ==> a0 == b0 && a1 == b1 && a2 == b2 && a3 == b3) by (bit_vector);
}

/// Cumulative payload counters of one connection at one moment, with its owning process.
#[derive(Clone, Copy, Debug)]
pub struct TcpConnSnapshot {
    pub key: TcpConnKey,
    pub pid: u32,
    pub bytes_in: u64,
    pub bytes_out: u64,
}

/// Bytes moved by one process during one tick.
#[derive(Clone, Copy, Debug, PartialEq, Eq)]
pub struct PidDelta {
    pub pid: u32,
    pub rx: u64,
    pub tx: u64,
}

/// The rows as (key, row) pairs.
pub open spec fn conn_pairs(s: Seq<TcpConnSnapshot>) -> Seq<(TcpConnKey, TcpConnSnapshot)> {
    s.map_values(|e: TcpConnSnapshot| (e.key, e))
}

/// The connections of one snapshot, one row per connection, with the position
/// of each connection's row kept by its integer code.
pub struct ConnTable {
    rows: Vec<TcpConnSnapshot>,
    index: HashMap<u128, usize>,
}

impl View for ConnTable {
    type V = Seq<TcpConnSnapshot>;

    closed spec fn view(&self) -> Seq<TcpConnSnapshot> {
        self.rows@
    }
}

/// The row stored for `key` in a sequence of rows: the last one with that key.
pub open spec fn row_for(s: Seq<TcpConnSnapshot>, key: TcpConnKey) -> Option<TcpConnSnapshot> {
    assoc_lookup(conn_pairs(s), key)
}

/// `index` gives, for the code of each row's connection, that row's position,
/// and holds nothing else.
spec fn indexes_rows(index: Map<u128, usize>, rows: Seq<TcpConnSnapshot>) -> bool {
    &&& forall|c: u128| #[trigger]
        index.contains_key(c) ==> index[c] < rows.len() && key_code_spec(rows[index[c] as int].key)
            == c
    &&& forall|i: int| 0 <= i < rows.len() ==> #[trigger] index.contains_key(
        key_code_spec(rows[i].key),
    )
}

/// Where `index` indexes `rows`, a position it gives for `key`'s code holds
/// `key`, and where it gives none, no row holds `key`.
proof fn lemma_index_lookup(index: Map<u128, usize>, rows: Seq<TcpConnSnapshot>, key: TcpConnKey)
    requires
        indexes_rows(index, rows),
    ensures
        index.contains_key(key_code_spec(key)) ==> rows[index[key_code_spec(key)] as int].key == key,
        !index.contains_key(key_code_spec(key)) ==> !assoc_has(conn_pairs(rows), key),
{
    let c = key_code_spec(key);
    if index.contains_key(c) {
        lemma_key_code_injective(rows[index[c] as int].key, key);
    } else if assoc_has(conn_pairs(rows), key) {
        let a = choose|a: int| 0 <= a < conn_pairs(rows).len() && conn_pairs(rows)[a].0 == key;
        assert(rows[a].key == key);
        assert(index.contains_key(key_code_spec(rows[a].key)));
    }
}

impl ConnTable {
    #[verifier::type_invariant]
    closed spec fn well_formed(self) -> bool {
        &&& assoc_distinct(conn_pairs(self.rows@))
        &&& self.rows.len() <= MAX_TRACKED_CONNECTIONS
        &&& indexes_rows(self.index@, self.rows@)
    }

    /// A table with no connections.
    pub fn new() -> (t: ConnTable)
        ensures
            t@ == Seq::<TcpConnSnapshot>::empty(),
    {
        let t = ConnTable { rows: Vec::new(), index: HashMap::new() };
        assert(conn_pairs(t.rows@) =~= Seq::empty());
        t
    }

    /// Builds a table from rows as they were read, a later row for a key
    /// replacing an earlier one.
    pub fn from_rows(rows: Vec<TcpConnSnapshot>) -> (t: ConnTable)
        requires
            rows.len() <= MAX_TRACKED_CONNECTIONS,
        ensures
            forall|k: TcpConnKey| #[trigger] row_for(t@, k) == row_for(rows@, k),
    {
        broadcast use vstd::std_specs::hash::group_hash_axioms;

        let mut out: Vec<TcpConnSnapshot> = Vec::new();
        let mut index: HashMap<u128, usize> = HashMap::new();
        let mut i: usize = 0;
        assert(conn_pairs(out@) =~= Seq::empty());
        assert(conn_pairs(rows@.take(0)) =~= Seq::empty());
        while i < rows.len()
            invariant
                i <= rows.len() <= MAX_TRACKED_CONNECTIONS,
                out.len() <= i,
                assoc_distinct(conn_pairs(out@)),
                assoc_map(conn_pairs(out@)) == assoc_map(conn_pairs(rows@.take(i as int))),
                indexes_rows(index@, out@),
            decreases rows.len() - i,
        {
            let row = rows[i];
            let c = key_code(row.key);
            let ghost p = conn_pairs(out@);
            let ghost q = conn_pairs(rows@.take(i as int));
            let ghost before = out@;
            let ghost index_before = index@;
            assert(conn_pairs(rows@.take(i + 1)) =~= q.push((row.key, row)));
            proof {
                // the map of pairs with one more pair on the end
                let q2 = q.push((row.key, row));
                assert(q2.drop_last() =~= q);
                assert(assoc_map(q2) =~= assoc_map(q).insert(row.key, row));
                lemma_index_lookup(index@, out@, row.key);
            }
            match index.get(&c) {
                Some(j) => {
                    let j = *j;
                    out.set(j, row);
                    proof {
                        assert(conn_pairs(out@) =~= p.update(j as int, (p[j as int].0, row)));
                        lemma_assoc_update(p, j as int, row);
                        assert forall|d: u128| #[trigger]
                            index@.contains_key(d) implies index@[d] < out@.len() && key_code_spec(
                            out@[index@[d] as int].key,
                        ) == d by {
                            assert(index_before.contains_key(d));
                        }
                        assert forall|a: int| 0 <= a < out@.len() implies #[trigger] index@.contains_key(
                            key_code_spec(out@[a].key),
                        ) by {
                            assert(index_before.contains_key(key_code_spec(before[a].key)));
                        }
                    }
                },
                None => {
                    index.insert(c, out.len());
                    out.push(row);
                    proof {
                        assert(conn_pairs(out@) =~= p.push((row.key, row)));
                        lemma_assoc_push(p, row.key, row);
                        assert forall|d: u128| #[trigger]
                            index@.contains_key(d) implies index@[d] < out@.len() && key_code_spec(
                            out@[index@[d] as int].key,
                        ) == d by {
                            if d != c {
                                assert(index_before.contains_key(d));
                            }
                        }
                        assert forall|a: int| 0 <= a < out@.len() implies #[trigger] index@.contains_key(
                            key_code_spec(out@[a].key),
                        ) by {
                            if a < before.len() {
                                assert(index_before.contains_key(key_code_spec(before[a].key)));
                            }
                        }
                    }
                },
            }
            i = i + 1;
        }
        assert(rows@.take(rows.len() as int) =~= rows@);
        let t = ConnTable { rows: out, index };
        proof {
            assert forall|k: TcpConnKey| #[trigger] row_for(t@, k) == row_for(rows@, k) by {
                let a = conn_pairs(t@);
                let b = conn_pairs(rows@);
                assert(assoc_map(a).dom().contains(k) == (assoc_lookup(a, k) is Some));
                assert(assoc_map(b).dom().contains(k) == (assoc_lookup(b, k) is Some));
                if assoc_lookup(a, k) is Some {
                    assert(assoc_map(a)[k] == assoc_lookup(a, k)->0);
                    assert(assoc_map(b)[k] == assoc_lookup(b, k)->0);
                }
            }
        }
        t
    }

    /// The row of connection `key`, if the table holds one.
    pub fn find(&self, key: TcpConnKey) -> (r: Option<TcpConnSnapshot>)
        ensures
            r == row_for(self@, key),
    {
        broadcast use vstd::std_specs::hash::group_hash_axioms;

        proof {
            use_type_invariant(self);
            lemma_index_lookup(self.index@, self.rows@, key);
        }
        match self.index.get(&key_code(key)) {
            Some(j) => {
                proof {
                    lemma_assoc_lookup_index(conn_pairs(self.rows@), *j as int);
                }
                Some(self.rows[*j])
            },
            None => {
                proof {
                    lemma_assoc_lookup_some(conn_pairs(self.rows@), key);
                }
                None
            },
        }
    }

    /// Whether the table holds connection `key`.
    pub fn contains(&self, key: TcpConnKey) -> (r: bool)
        ensures
            r == (row_for(self@, key) is Some),
    {
        self.find(key).is_some()
    }

    /// Number of connections.
    pub fn len(&self) -> (n: usize)
        ensures
            n == self@.len(),
    {
        self.rows.len()
    }

    /// The row at position `i`.
    pub fn row(&self, i: usize) -> (r: TcpConnSnapshot)
        requires
            i < self@.len(),
        ensures
            r == self@[i as int],
    {
        self.rows[i]
    }
}

/// Growth of a cumulative counter between two readings, 0 where it went
/// backwards, capped at `MAX_REALISTIC_BPS`.
pub open spec fn capped_growth(now: u64, before: u64) -> int {
    let d = if now >= before { now - before } else { 0 };
    if d > MAX_REALISTIC_BPS { MAX_REALISTIC_BPS as int } else { d }
}

/// Bytes received on connection `s` since the previous snapshot; 0 for a new connection.
pub open spec fn conn_rx(prev: Seq<TcpConnSnapshot>, s: TcpConnSnapshot) -> int {
    match row_for(prev, s.key) {
        Some(p) => capped_growth(s.bytes_in, p.bytes_in),
        None => 0,
    }
}

/// Bytes sent on connection `s` since the previous snapshot; 0 for a new connection.
pub open spec fn conn_tx(prev: Seq<TcpConnSnapshot>, s: TcpConnSnapshot) -> int {
    match row_for(prev, s.key) {
        Some(p) => capped_growth(s.bytes_out, p.bytes_out),
        None => 0,
    }
}

/// Bytes received by process `pid` over the connections in `cur`.
pub open spec fn pid_rx(prev: Seq<TcpConnSnapshot>, cur: Seq<TcpConnSnapshot>, pid: u32) -> int
    decreases cur.len(),
{
    if cur.len() == 0 {
        0
    } else {
        pid_rx(prev, cur.drop_last(), pid) + if cur.last().pid == pid {
            conn_rx(prev, cur.last())
        } else {
            0
        }
    }
}

/// Bytes sent by process `pid` over the connections in `cur`.
pub open spec fn pid_tx(prev: Seq<TcpConnSnapshot>, cur: Seq<TcpConnSnapshot>, pid: u32) -> int
    decreases cur.len(),
{
    if cur.len() == 0 {
        0
    } else {
        pid_tx(prev, cur.drop_last(), pid) + if cur.last().pid == pid {
            conn_tx(prev, cur.last())
        } else {
            0
        }
    }
}

/// Bytes received over all connections in `cur`.
pub open spec fn all_rx(prev: Seq<TcpConnSnapshot>, cur: Seq<TcpConnSnapshot>) -> int
    decreases cur.len(),
{
    if cur.len() == 0 {
        0
    } else {
        all_rx(prev, cur.drop_last()) + conn_rx(prev, cur.last())
    }
}

/// Bytes sent over all connections in `cur`.
pub open spec fn all_tx(prev: Seq<TcpConnSnapshot>, cur: Seq<TcpConnSnapshot>) -> int
    decreases cur.len(),
{
    if cur.len() == 0 {
        0
    } else {
        all_tx(prev, cur.drop_last()) + conn_tx(prev, cur.last())
    }
}

/// Sum of the received bytes of a list of processes.
pub open spec fn rx_sum(s: Seq<PidDelta>) -> int
    decreases s.len(),
{
    if s.len() == 0 {
        0
    } else {
        rx_sum(s.drop_last()) + s.last().rx
    }
}

/// Sum of the sent bytes of a list of processes.
pub open spec fn tx_sum(s: Seq<PidDelta>) -> int
    decreases s.len(),
{
    if s.len() == 0 {
        0
    } else {
        tx_sum(s.drop_last()) + s.last().tx
    }
}

/// No process occurs twice.
pub open spec fn pids_distinct(s: Seq<PidDelta>) -> bool {
    forall|i: int, j: int| 0 <= i < j < s.len() ==> s[i].pid != s[j].pid
}

/// Traffic of one tick, per process, as TCP connection counters report it.
pub struct PidTraffic {
    /// One entry per process that moved at least one byte, in the order in
    /// which the processes first appear among the connections.
    pub entries: Vec<PidDelta>,
    /// Received bytes over all connections.
    pub total_rx: u64,
    /// Sent bytes over all connections.
    pub total_tx: u64,
}

/// What `tcp_traffic` reports between snapshots `prev` and `cur`: one entry per
/// process that moved a byte, with its bytes, and the totals over all connections.
pub open spec fn is_tcp_traffic(prev: Seq<TcpConnSnapshot>, cur: Seq<TcpConnSnapshot>, r: PidTraffic) -> bool {
    &&& pids_distinct(r.entries@)
    &&& forall|i: int|
        #![trigger r.entries@[i]]
        0 <= i < r.entries.len() ==> {
            &&& r.entries@[i].rx == pid_rx(prev, cur, r.entries@[i].pid)
            &&& r.entries@[i].tx == pid_tx(prev, cur, r.entries@[i].pid)
            &&& (r.entries@[i].rx > 0 || r.entries@[i].tx > 0)
        }
    &&& forall|pid: u32|
        #![trigger pid_rx(prev, cur, pid)]
        #![trigger pid_tx(prev, cur, pid)]
        pid_rx(prev, cur, pid) > 0 || pid_tx(prev, cur, pid) > 0 ==> exists|i: int|
            0 <= i < r.entries.len() && r.entries@[i].pid == pid
    &&& r.total_rx == all_rx(prev, cur)
    &&& r.total_tx == all_tx(prev, cur)
    &&& rx_sum(r.entries@) == r.total_rx
    &&& tx_sum(r.entries@) == r.total_tx
}

proof fn lemma_pid_sums_nonneg(prev: Seq<TcpConnSnapshot>, cur: Seq<TcpConnSnapshot>, pid: u32)
    ensures
        pid_rx(prev, cur, pid) >= 0,
        pid_tx(prev, cur, pid) >= 0,
    decreases cur.len(),
{
    if cur.len() > 0 {
        lemma_pid_sums_nonneg(prev, cur.drop_last(), pid);
    }
}

proof fn lemma_sum_update(s: Seq<PidDelta>, j: int, e: PidDelta)
    requires
        0 <= j < s.len(),
    ensures
        rx_sum(s.update(j, e)) == rx_sum(s) - s[j].rx + e.rx,
        tx_sum(s.update(j, e)) == tx_sum(s) - s[j].tx + e.tx,
    decreases s.len(),
{
    let u = s.update(j, e);
    if j == s.len() - 1 {
        assert(u.drop_last() =~= s.drop_last());
    } else {
        assert(u.drop_last() =~= s.drop_last().update(j, e));
        lemma_sum_update(s.drop_last(), j, e);
    }
}

proof fn lemma_sum_push(s: Seq<PidDelta>, e: PidDelta)
    ensures
        rx_sum(s.push(e)) == rx_sum(s) + e.rx,
        tx_sum(s.push(e)) == tx_sum(s) + e.tx,
{
    assert(s.push(e).drop_last() =~= s);
}

/// `index` gives, for each process among `entries`, the position of its entry,
/// and holds nothing else.
spec fn pids_indexed(index: Map<u32, usize>, entries: Seq<PidDelta>) -> bool {
    &&& forall|p: u32| #[trigger]
        index.contains_key(p) ==> index[p] < entries.len() && entries[index[p] as int].pid == p
    &&& forall|a: int| 0 <= a < entries.len() ==> #[trigger] index.contains_key(entries[a].pid)
}

/// Position of the entry of process `pid`, looked up by process id.
fn pid_position(index: &HashMap<u32, usize>, entries: &Vec<PidDelta>, pid: u32) -> (r: Option<usize>)
    requires
        pids_indexed(index@, entries@),
    ensures
        r matches Some(j) ==> j < entries.len() && entries@[j as int].pid == pid,
        r is None ==> forall|j: int| 0 <= j < entries.len() ==> entries@[j].pid != pid,
{
    broadcast use vstd::std_specs::hash::group_hash_axioms;

    match index.get(&pid) {
        Some(j) => Some(*j),
        None => {
            assert forall|j: int| 0 <= j < entries.len() implies entries@[j].pid != pid by {
                assert(index@.contains_key(entries@[j].pid));
            }
            None
        },
    }
}

/// Growth of a cumulative counter, as the telemetry loop measures it.
fn counter_growth(now: u64, before: u64) -> (d: u64)
    ensures
        d == capped_growth(now, before),
{
    let d = now.saturating_sub(before);
    if d < MAX_REALISTIC_BPS {
        d
    } else {
        MAX_REALISTIC_BPS
    }
}

/// Per-process traffic between two snapshots of the TCP connections. A
/// connection only counts where it is present in both; counters that went
/// backwards count 0, and each connection's growth is capped at
/// `MAX_REALISTIC_BPS`.
pub fn tcp_traffic(prev: &ConnTable, cur: &ConnTable) -> (r: PidTraffic)
    ensures
        is_tcp_traffic(prev@, cur@, r),
{
    proof {
        use_type_invariant(cur);
    }
    let n = cur.len();
    let mut entries: Vec<PidDelta> = Vec::new();
    let mut positions: HashMap<u32, usize> = HashMap::new();
    let mut total_rx: u64 = 0;
    let mut total_tx: u64 = 0;
    let mut i: usize = 0;
    assert(cur@.take(0) =~= Seq::<TcpConnSnapshot>::empty());
    while i < n
        invariant
            n == cur@.len(),
            n <= MAX_TRACKED_CONNECTIONS,
            i <= n,
            pids_distinct(entries@),
            pids_indexed(positions@, entries@),
            forall|j: int|
                #![trigger entries@[j]]
                0 <= j < entries.len() ==> {
                    &&& entries@[j].rx == pid_rx(prev@, cur@.take(i as int), entries@[j].pid)
                    &&& entries@[j].tx == pid_tx(prev@, cur@.take(i as int), entries@[j].pid)
                    &&& (entries@[j].rx > 0 || entries@[j].tx > 0)
                    &&& entries@[j].rx <= total_rx
                    &&& entries@[j].tx <= total_tx
                },
            forall|pid: u32|
                #![trigger pid_rx(prev@, cur@.take(i as int), pid)]
                #![trigger pid_tx(prev@, cur@.take(i as int), pid)]
                pid_rx(prev@, cur@.take(i as int), pid) > 0 || pid_tx(
                    prev@,
                    cur@.take(i as int),
                    pid,
                ) > 0 ==> exists|j: int| 0 <= j < entries.len() && entries@[j].pid == pid,
            total_rx == all_rx(prev@, cur@.take(i as int)),
            total_tx == all_tx(prev@, cur@.take(i as int)),
            total_rx <= i * MAX_REALISTIC_BPS,
            total_tx <= i * MAX_REALISTIC_BPS,
            rx_sum(entries@) == total_rx,
            tx_sum(entries@) == total_tx,
        decreases n - i,
    {
        let s = cur.row(i);
        let ghost c = cur@.take(i as int);
        let ghost c2 = cur@.take(i + 1);
        assert(c2.drop_last() =~= c);
        assert(c2.last() == s);
        let (rd, td) = match prev.find(s.key) {
            Some(p) => (counter_growth(s.bytes_in, p.bytes_in), counter_growth(s.bytes_out, p.bytes_out)),
            None => (0u64, 0u64),
        };
        assert(rd == conn_rx(prev@, s) && td == conn_tx(prev@, s));
        if rd > 0 || td > 0 {
            let ghost old_entries = entries@;
            let ghost old_positions = positions@;
            match pid_position(&positions, &entries, s.pid) {
                Some(j) => {
                    let e = entries[j];
                    let e2 = PidDelta { pid: e.pid, rx: e.rx.saturating_add(rd), tx: e.tx.saturating_add(td) };
                    entries.set(j, e2);
                    proof {
                        assert forall|p: u32| #[trigger]
                            positions@.contains_key(p) implies positions@[p] < entries.len()
                            && entries@[positions@[p] as int].pid == p by {}
                        assert forall|a: int| 0 <= a < entries.len() implies #[trigger] positions@.contains_key(
                            entries@[a].pid,
                        ) by {
                            assert(positions@.contains_key(old_entries[a].pid));
                        }
                        lemma_sum_update(old_entries, j as int, e2);
                        assert forall|a: int|
                            #![trigger entries@[a]]
                            0 <= a < entries.len() implies {
                                &&& entries@[a].rx == pid_rx(prev@, c2, entries@[a].pid)
                                &&& entries@[a].tx == pid_tx(prev@, c2, entries@[a].pid)
                                &&& (entries@[a].rx > 0 || entries@[a].tx > 0)
                                &&& entries@[a].rx <= total_rx + rd
                                &&& entries@[a].tx <= total_tx + td
                            } by {
                            if a != j {
                                assert(old_entries[a].pid != s.pid);
                            }
                        }
                        assert forall|pid: u32|
                            pid_rx(prev@, c2, pid) > 0 || pid_tx(prev@, c2, pid) > 0 implies exists|a: int|
                                0 <= a < entries.len() && entries@[a].pid == pid by {
                            if pid == s.pid {
                                assert(entries@[j as int].pid == pid);
                            } else {
                                assert(pid_rx(prev@, c, pid) > 0 || pid_tx(prev@, c, pid) > 0);
                                let a = choose|a: int| 0 <= a < old_entries.len() && old_entries[a].pid == pid;
                                assert(entries@[a].pid == pid);
                            }
                        }
                    }
                },
                None => {
                    let e2 = PidDelta { pid: s.pid, rx: rd, tx: td };
                    positions.insert(s.pid, entries.len());
                    entries.push(e2);
                    proof {
                        assert forall|p: u32| #[trigger]
                            positions@.contains_key(p) implies positions@[p] < entries.len()
                            && entries@[positions@[p] as int].pid == p by {
                            if p != s.pid {
                                assert(old_positions.contains_key(p));
                            }
                        }
                        assert forall|a: int| 0 <= a < entries.len() implies #[trigger] positions@.contains_key(
                            entries@[a].pid,
                        ) by {
                            if a < old_entries.len() {
                                assert(old_positions.contains_key(old_entries[a].pid));
                            }
                        }
                        lemma_sum_push(old_entries, e2);
                        lemma_pid_sums_nonneg(prev@, c, s.pid);
                        if pid_rx(prev@, c, s.pid) > 0 || pid_tx(prev@, c, s.pid) > 0 {
                            let a = choose|a: int| 0 <= a < old_entries.len() && old_entries[a].pid == s.pid;
                            assert(false);
                        }
                        assert forall|a: int|
                            #![trigger entries@[a]]
                            0 <= a < entries.len() implies {
                                &&& entries@[a].rx == pid_rx(prev@, c2, entries@[a].pid)
                                &&& entries@[a].tx == pid_tx(prev@, c2, entries@[a].pid)
                                &&& (entries@[a].rx > 0 || entries@[a].tx > 0)
                                &&& entries@[a].rx <= total_rx + rd
                                &&& entries@[a].tx <= total_tx + td
                            } by {
                            if a < old_entries.len() {
                                assert(old_entries[a].pid != s.pid);
                                assert(entries@[a] == old_entries[a]);
                            }
                        }
                        assert forall|pid: u32|
                            pid_rx(prev@, c2, pid) > 0 || pid_tx(prev@, c2, pid) > 0 implies exists|a: int|
                                0 <= a < entries.len() && entries@[a].pid == pid by {
                            if pid == s.pid {
                                assert(entries@[old_entries.len() as int].pid == pid);
                            } else {
                                assert(pid_rx(prev@, c, pid) > 0 || pid_tx(prev@, c, pid) > 0);
                                let a = choose|a: int| 0 <= a < old_entries.len() && old_entries[a].pid == pid;
                                assert(entries@[a].pid == pid);
                            }
                        }
                        assert(pids_distinct(entries@)) by {
                            assert forall|a: int, b: int| 0 <= a < b < entries.len() implies entries@[a].pid
                                != entries@[b].pid by {
                                if b == old_entries.len() {
                                    assert(entries@[a] == old_entries[a]);
                                }
                            }
                        }
                    }
                },
            }
            total_rx = total_rx.saturating_add(rd);
            total_tx = total_tx.saturating_add(td);
        } else {
            proof {
                assert forall|pid: u32|
                    pid_rx(prev@, c2, pid) > 0 || pid_tx(prev@, c2, pid) > 0 implies exists|a: int|
                        0 <= a < entries.len() && entries@[a].pid == pid by {
                    assert(pid_rx(prev@, c, pid) > 0 || pid_tx(prev@, c, pid) > 0);
                }
            }
        }
        i = i + 1;
    }
    assert(cur@.take(n as int) =~= cur@);
    PidTraffic { entries, total_rx, total_tx }
}

/// Shortest interval that a rate is computed over: 1 ms.
pub const MIN_RATE_INTERVAL_NANOS: u64 = 1_000_000;

/// Bytes per second for `bytes` moved in `elapsed_nanos` nanoseconds (at least
/// 1 ms), rounded down and capped at `u64::MAX`.
pub open spec fn rate_spec(bytes: int, elapsed_nanos: int) -> int {
    let nanos = if elapsed_nanos < 1_000_000 { 1_000_000 } else { elapsed_nanos };
    let r = bytes * 1_000_000_000 / nanos;
    if r > u64::MAX { u64::MAX as int } else { r }
}

/// Bytes per second for `bytes` moved in `elapsed_nanos` nanoseconds.
pub fn bytes_per_second(bytes: u64, elapsed_nanos: u64) -> (r: u64)
    ensures
        r == rate_spec(bytes as int, elapsed_nanos as int),
{
    let nanos: u128 = if elapsed_nanos < MIN_RATE_INTERVAL_NANOS {
        MIN_RATE_INTERVAL_NANOS as u128
    } else {
        elapsed_nanos as u128
    };
    let b = bytes as u128;
    assert(b * 1_000_000_000 <= u128::MAX) by (nonlinear_arith)
        requires
            b <= u64::MAX,
    ;
    let r = (b * 1_000_000_000) / nanos;
    if r > u64::MAX as u128 {
        u64::MAX
    } else {
        r as u64
    }
}

/// A process's share of the adapter's byte count: where the connections report
/// more than the adapter counted, every process is scaled down in proportion.
pub open spec fn nic_share(raw: int, nic: int, tcp_total: int) -> int {
    if tcp_total > nic && tcp_total > 0 {
        raw * nic / tcp_total
    } else {
        raw
    }
}

/// The processes' traffic scaled to the adapter's count, without those left with nothing.
pub open spec fn scaled_traffic(
    s: Seq<PidDelta>,
    rx_nic: int,
    tx_nic: int,
    rx_total: int,
    tx_total: int,
) -> Seq<PidDelta>
    decreases s.len(),
{
    if s.len() == 0 {
        Seq::empty()
    } else {
        let rest = scaled_traffic(s.drop_last(), rx_nic, tx_nic, rx_total, tx_total);
        let e = s.last();
        let rx = nic_share(e.rx as int, rx_nic, rx_total);
        let tx = nic_share(e.tx as int, tx_nic, tx_total);
        if rx == 0 && tx == 0 {
            rest
        } else {
            rest.push(PidDelta { pid: e.pid, rx: rx as u64, tx: tx as u64 })
        }
    }
}

proof fn lemma_share_bounds(raw: int, nic: int, total: int)
    requires
        raw >= 0,
        nic >= 0,
        total >= 0,
    ensures
        0 <= nic_share(raw, nic, total) <= raw,
        total > nic && total > 0 ==> nic_share(raw, nic, total) * total <= raw * nic,
{
    if total > nic && total > 0 {
        assert(0 <= raw * nic / total <= raw) by (nonlinear_arith)
            requires
                raw >= 0,
                nic >= 0,
                total > nic,
        {
            assert(raw * nic <= raw * total);
        }
        assert((raw * nic / total) * total <= raw * nic) by (nonlinear_arith)
            requires
                raw >= 0,
                nic >= 0,
                total > 0,
        ;
    }
}

fn share_of(raw: u64, nic: u64, total: u64) -> (r: u64)
    ensures
        r == nic_share(raw as int, nic as int, total as int),
{
    proof {
        lemma_share_bounds(raw as int, nic as int, total as int);
    }
    if total > nic && total > 0 {
        assert((raw as u128) * (nic as u128) <= u128::MAX) by (nonlinear_arith)
            requires
                raw <= u64::MAX,
                nic <= u64::MAX,
        ;
        let p = (raw as u128) * (nic as u128);
        (p / (total as u128)) as u64
    } else {
        raw
    }
}

/// Scales each process's traffic down in proportion where the connections
/// report more than the adapter counted (retransmissions, timing jitter), and
/// drops the processes left with nothing.
pub fn scale_to_nic(traffic: &PidTraffic, rx_nic: u64, tx_nic: u64) -> (r: Vec<PidDelta>)
    ensures
        r@ == scaled_traffic(
            traffic.entries@,
            rx_nic as int,
            tx_nic as int,
            traffic.total_rx as int,
            traffic.total_tx as int,
        ),
{
    let mut out: Vec<PidDelta> = Vec::new();
    let mut i: usize = 0;
    let ghost s = traffic.entries@;
    assert(s.take(0) =~= Seq::<PidDelta>::empty());
    while i < traffic.entries.len()
        invariant
            s == traffic.entries@,
            i <= s.len(),
            out@ == scaled_traffic(
                s.take(i as int),
                rx_nic as int,
                tx_nic as int,
                traffic.total_rx as int,
                traffic.total_tx as int,
            ),
        decreases s.len() - i,
    {
        let e = traffic.entries[i];
        assert(s.take(i + 1).drop_last() =~= s.take(i as int));
        let rx = share_of(e.rx, rx_nic, traffic.total_rx);
        let tx = share_of(e.tx, tx_nic, traffic.total_tx);
        if rx != 0 || tx != 0 {
            out.push(PidDelta { pid: e.pid, rx, tx });
        }
        i = i + 1;
    }
    assert(s.take(s.len() as int) =~= s);
    out
}

/// Scaling keeps the sums within bounds: unscaled sums are unchanged, and
/// scaled ones shrink in proportion.
proof fn lemma_scaled_sums(
    s: Seq<PidDelta>,
    rx_nic: int,
    tx_nic: int,
    rx_total: int,
    tx_total: int,
)
    requires
        rx_nic >= 0,
        tx_nic >= 0,
        rx_total >= 0,
        tx_total >= 0,
    ensures
        !(rx_total > rx_nic && rx_total > 0) ==> rx_sum(
            scaled_traffic(s, rx_nic, tx_nic, rx_total, tx_total),
        ) == rx_sum(s),
        rx_total > rx_nic && rx_total > 0 ==> rx_sum(
            scaled_traffic(s, rx_nic, tx_nic, rx_total, tx_total),
        ) * rx_total <= rx_sum(s) * rx_nic,
        !(tx_total > tx_nic && tx_total > 0) ==> tx_sum(
            scaled_traffic(s, rx_nic, tx_nic, rx_total, tx_total),
        ) == tx_sum(s),
        tx_total > tx_nic && tx_total > 0 ==> tx_sum(
            scaled_traffic(s, rx_nic, tx_nic, rx_total, tx_total),
        ) * tx_total <= tx_sum(s) * tx_nic,
        rx_sum(scaled_traffic(s, rx_nic, tx_nic, rx_total, tx_total)) <= rx_sum(s),
        tx_sum(scaled_traffic(s, rx_nic, tx_nic, rx_total, tx_total)) <= tx_sum(s),
    decreases s.len(),
{
    if s.len() > 0 {
        let rest = s.drop_last();
        let e = s.last();
        lemma_scaled_sums(rest, rx_nic, tx_nic, rx_total, tx_total);
        lemma_share_bounds(e.rx as int, rx_nic, rx_total);
        lemma_share_bounds(e.tx as int, tx_nic, tx_total);
        let sr = scaled_traffic(rest, rx_nic, tx_nic, rx_total, tx_total);
        let rx = nic_share(e.rx as int, rx_nic, rx_total);
        let tx = nic_share(e.tx as int, tx_nic, tx_total);
        if !(rx == 0 && tx == 0) {
            let x = PidDelta { pid: e.pid, rx: rx as u64, tx: tx as u64 };
            assert(sr.push(x).drop_last() =~= sr);
        }
        if rx_total > rx_nic && rx_total > 0 {
            assert(rx_sum(scaled_traffic(s, rx_nic, tx_nic, rx_total, tx_total)) * rx_total <= rx_sum(
                sr,
            ) * rx_total + rx * rx_total) by (nonlinear_arith)
                requires
                    rx_sum(scaled_traffic(s, rx_nic, tx_nic, rx_total, tx_total)) <= rx_sum(sr) + rx,
                    rx_total > 0,
            ;
            assert(rx_sum(s) * rx_nic == rx_sum(rest) * rx_nic + e.rx * rx_nic) by (nonlinear_arith)
                requires
                    rx_sum(s) == rx_sum(rest) + e.rx,
            ;
        }
        if tx_total > tx_nic && tx_total > 0 {
            assert(tx_sum(scaled_traffic(s, rx_nic, tx_nic, rx_total, tx_total)) * tx_total <= tx_sum(
                sr,
            ) * tx_total + tx * tx_total) by (nonlinear_arith)
                requires
                    tx_sum(scaled_traffic(s, rx_nic, tx_nic, rx_total, tx_total)) <= tx_sum(sr) + tx,
                    tx_total > 0,
            ;
            assert(tx_sum(s) * tx_nic == tx_sum(rest) * tx_nic + e.tx * tx_nic) by (nonlinear_arith)
                requires
                    tx_sum(s) == tx_sum(rest) + e.tx,
            ;
        }
    }
}

/// No more bytes are attributed to processes than the network adapter counted:
/// after scaling, the processes' received and sent bytes sum to at most the
/// adapter's received and sent bytes.
pub proof fn lemma_attribution_within_nic(t: PidTraffic, rx_nic: u64, tx_nic: u64)
    requires
        rx_sum(t.entries@) == t.total_rx,
        tx_sum(t.entries@) == t.total_tx,
    ensures
        rx_sum(scaled_traffic(t.entries@, rx_nic as int, tx_nic as int, t.total_rx as int, t.total_tx as int))
            <= rx_nic,
        tx_sum(scaled_traffic(t.entries@, rx_nic as int, tx_nic as int, t.total_rx as int, t.total_tx as int))
            <= tx_nic,
{
    let sc = scaled_traffic(t.entries@, rx_nic as int, tx_nic as int, t.total_rx as int, t.total_tx as int);
    lemma_scaled_sums(t.entries@, rx_nic as int, tx_nic as int, t.total_rx as int, t.total_tx as int);
    if t.total_rx > rx_nic {
        assert(rx_sum(sc) <= rx_nic) by (nonlinear_arith)
            requires
                rx_sum(sc) * t.total_rx <= t.total_rx * rx_nic,
                t.total_rx > 0,
        ;
    }
    if t.total_tx > tx_nic {
        assert(tx_sum(sc) <= tx_nic) by (nonlinear_arith)
            requires
                tx_sum(sc) * t.total_tx <= t.total_tx * tx_nic,
                t.total_tx > 0,
        ;
    }
}

} // verus!
