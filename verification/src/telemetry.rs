//! The telemetry tick: adapter counters to transfer rates, per-process
//! attribution, screen time, and the schedules of pings and flushes.
use vstd::prelude::*;
use crate::accumulator::{credit_bytes_spec, totals_or_zero, AccTotals, Accumulator};
use crate::text::text_equals;
use crate::traffic::{
    bytes_per_second, lemma_attribution_within_nic, rate_spec, rx_sum, scaled_traffic, tx_sum, PidDelta,
    PidTraffic, MAX_REALISTIC_BPS,
};

verus! {

/// Current transfer rates of one process, in bytes per second.
#[derive(Clone, Debug, PartialEq, Eq)]
pub struct ProcessSpeed {
    pub name: String,
    pub download_speed: u64,
    pub upload_speed: u64,
}

/// One tick of real-time statistics.
#[derive(Clone, Debug, PartialEq, Eq)]
pub struct RealtimeStats {
    /// Bytes per second received by the network adapter.
    pub download_speed: u64,
    /// Bytes per second sent by the network adapter.
    pub upload_speed: u64,
    pub battery_percentage: u8,
    pub is_charging: bool,
    /// Executable name of the foreground process.
    pub active_app: String,
    /// TCP round-trip time in milliseconds; 0 when offline.
    pub ping_ms: u32,
    pub process_speeds: Vec<ProcessSpeed>,
}

impl RealtimeStats {
    /// The statistics shown before the first tick.
    pub fn initial() -> (s: RealtimeStats)
        ensures
            s.download_speed == 0,
            s.upload_speed == 0,
            s.battery_percentage == 100,
            s.is_charging,
            s.active_app@ == "System"@,
            s.ping_ms == 0,
            s.process_speeds@.len() == 0,
    {
        RealtimeStats {
            download_speed: 0,
            upload_speed: 0,
            battery_percentage: 100,
            is_charging: true,
            active_app: String::from_str("System"),
            ping_ms: 0,
            process_speeds: Vec::new(),
        }
    }
}

/// The views of a list of names.
pub open spec fn name_views(names: Seq<String>) -> Seq<Seq<char>> {
    names.map_values(|s: String| s@)
}

/// `m` with each process's bytes added under its name, in order.
pub open spec fn credit_shares(
    m: Map<Seq<char>, AccTotals>,
    names: Seq<Seq<char>>,
    shares: Seq<PidDelta>,
) -> Map<Seq<char>, AccTotals>
    decreases shares.len(),
{
    if shares.len() == 0 || names.len() == 0 {
        m
    } else {
        credit_bytes_spec(
            credit_shares(m, names.drop_last(), shares.drop_last()),
            names.last(),
            shares.last().rx,
            shares.last().tx,
        )
    }
}

/// Bytes the adapter counted beyond those credited to processes: they go to
/// `System` (UDP, ICMP, connections whose counters could not be read).
pub open spec fn remainder(nic: int, attributed: int) -> int {
    if nic > saturate(attributed) {
        nic - saturate(attributed)
    } else {
        0
    }
}

/// Whether `System` gets a row among the rates shown: its bytes amount to a
/// rate above zero.
pub open spec fn system_shown(rem_rx: int, rem_tx: int, elapsed_nanos: int) -> bool {
    (rem_rx > 0 || rem_tx > 0) && (rate_spec(rem_rx, elapsed_nanos) > 0 || rate_spec(
        rem_tx,
        elapsed_nanos,
    ) > 0)
}

proof fn lemma_prefix_sums(s: Seq<PidDelta>, i: int)
    requires
        0 <= i < s.len(),
    ensures
        rx_sum(s.take(i + 1)) == rx_sum(s.take(i)) + s[i].rx,
        tx_sum(s.take(i + 1)) == tx_sum(s.take(i)) + s[i].tx,
{
    assert(s.take(i + 1).drop_last() =~= s.take(i));
}

proof fn lemma_sum_nonneg(s: Seq<PidDelta>)
    ensures
        rx_sum(s) >= 0,
        tx_sum(s) >= 0,
    decreases s.len(),
{
    if s.len() > 0 {
        lemma_sum_nonneg(s.drop_last());
    }
}

/// `x` capped at `u64::MAX`, as a saturating addition leaves it.
pub open spec fn saturate(x: int) -> int {
    if x > u64::MAX { u64::MAX as int } else { x }
}

/// Whether adding `rx` and `tx` bytes to the totals of `name` stays within `u64`.
pub open spec fn credit_fits(
    m: Map<Seq<char>, AccTotals>,
    name: Seq<char>,
    rx: u64,
    tx: u64,
) -> bool {
    &&& totals_or_zero(m, name).bytes_downloaded + rx <= u64::MAX
    &&& totals_or_zero(m, name).bytes_uploaded + tx <= u64::MAX
}

/// Whether crediting the processes one after the other stays within `u64` throughout.
pub open spec fn shares_fit(m: Map<Seq<char>, AccTotals>, names: Seq<Seq<char>>, shares: Seq<PidDelta>) -> bool
    decreases shares.len(),
{
    if shares.len() == 0 || names.len() == 0 {
        true
    } else {
        &&& shares_fit(m, names.drop_last(), shares.drop_last())
        &&& credit_fits(
            credit_shares(m, names.drop_last(), shares.drop_last()),
            names.last(),
            shares.last().rx,
            shares.last().tx,
        )
    }
}

/// The gathered usage once a tick's shares are credited to their names, in
/// order, and what the adapter counted beyond them to `System`.
pub open spec fn traffic_credited(
    m: Map<Seq<char>, AccTotals>,
    names: Seq<Seq<char>>,
    shares: Seq<PidDelta>,
    rx_nic: int,
    tx_nic: int,
) -> Map<Seq<char>, AccTotals> {
    let rem_rx = remainder(rx_nic, rx_sum(shares));
    let rem_tx = remainder(tx_nic, tx_sum(shares));
    let credited = credit_shares(m, names, shares);
    if rem_rx > 0 || rem_tx > 0 {
        credit_bytes_spec(credited, "System"@, rem_rx as u64, rem_tx as u64)
    } else {
        credited
    }
}

/// Whether crediting a tick as `traffic_credited` does keeps every total within `u64`.
pub open spec fn traffic_fits(
    m: Map<Seq<char>, AccTotals>,
    names: Seq<Seq<char>>,
    shares: Seq<PidDelta>,
    rx_nic: int,
    tx_nic: int,
) -> bool {
    let rem_rx = remainder(rx_nic, rx_sum(shares));
    let rem_tx = remainder(tx_nic, tx_sum(shares));
    &&& shares_fit(m, names, shares)
    &&& (rem_rx > 0 || rem_tx > 0) ==> credit_fits(
        credit_shares(m, names, shares),
        "System"@,
        rem_rx as u64,
        rem_tx as u64,
    )
}

/// The rates shown for a tick: one row per process share, in order, and a last
/// `System` row where the remainder amounts to a rate above zero.
pub open spec fn speeds_reported(
    speeds: Seq<ProcessSpeed>,
    names: Seq<String>,
    shares: Seq<PidDelta>,
    rx_nic: int,
    tx_nic: int,
    elapsed_nanos: int,
) -> bool {
    let rem_rx = remainder(rx_nic, rx_sum(shares));
    let rem_tx = remainder(tx_nic, tx_sum(shares));
    &&& forall|i: int|
        #![trigger speeds[i]]
        0 <= i < shares.len() ==> {
            &&& speeds[i].name@ == names[i]@
            &&& speeds[i].download_speed == rate_spec(shares[i].rx as int, elapsed_nanos)
            &&& speeds[i].upload_speed == rate_spec(shares[i].tx as int, elapsed_nanos)
        }
    &&& system_shown(rem_rx, rem_tx, elapsed_nanos) ==> {
        &&& speeds.len() == shares.len() + 1
        &&& speeds.last().name@ == "System"@
        &&& speeds.last().download_speed == rate_spec(rem_rx, elapsed_nanos)
        &&& speeds.last().upload_speed == rate_spec(rem_tx, elapsed_nanos)
    }
    &&& !system_shown(rem_rx, rem_tx, elapsed_nanos) ==> speeds.len() == shares.len()
}

proof fn lemma_shares_fit_prefix(
    m: Map<Seq<char>, AccTotals>,
    names: Seq<Seq<char>>,
    shares: Seq<PidDelta>,
    k: int,
)
    requires
        names.len() == shares.len(),
        0 <= k <= shares.len(),
        shares_fit(m, names, shares),
    ensures
        shares_fit(m, names.take(k), shares.take(k)),
    decreases shares.len() - k,
{
    if k == shares.len() {
        assert(names.take(k) =~= names);
        assert(shares.take(k) =~= shares);
    } else {
        lemma_shares_fit_prefix(m, names, shares, k + 1);
        assert(names.take(k + 1).drop_last() =~= names.take(k));
        assert(shares.take(k + 1).drop_last() =~= shares.take(k));
    }
}

/// Credits one tick of traffic: each process's bytes go to its name, and what
/// the adapter counted beyond them goes to `System` (UDP, ICMP, connections
/// whose counters could not be read), so that every counted byte is kept.
/// Returns the rates to show: the processes in order, and `System` last where
/// its bytes amount to a rate above zero; `None` where a total would overflow.
pub fn credit_traffic(
    acc: &mut Accumulator,
    shares: &Vec<PidDelta>,
    names: &Vec<String>,
    rx_nic: u64,
    tx_nic: u64,
    elapsed_nanos: u64,
) -> (r: Option<Vec<ProcessSpeed>>)
    requires
        names.len() == shares.len(),
    ensures
        r is Some <==> traffic_fits(old(acc)@, name_views(names@), shares@, rx_nic as int, tx_nic as int),
        r matches Some(speeds) ==> {
            &&& speeds_reported(speeds@, names@, shares@, rx_nic as int, tx_nic as int, elapsed_nanos as int)
            &&& final(acc)@ == traffic_credited(
                old(acc)@,
                name_views(names@),
                shares@,
                rx_nic as int,
                tx_nic as int,
            )
            &&& final(acc).downloaded_total() == old(acc).downloaded_total() + rx_sum(shares@)
                + remainder(rx_nic as int, rx_sum(shares@))
            &&& final(acc).uploaded_total() == old(acc).uploaded_total() + tx_sum(shares@)
                + remainder(tx_nic as int, tx_sum(shares@))
            &&& rx_sum(shares@) <= rx_nic ==> final(acc).downloaded_total()
                == old(acc).downloaded_total() + rx_nic
            &&& tx_sum(shares@) <= tx_nic ==> final(acc).uploaded_total()
                == old(acc).uploaded_total() + tx_nic
        },
{
    let mut speeds: Vec<ProcessSpeed> = Vec::new();
    let mut attributed_rx: u64 = 0;
    let mut attributed_tx: u64 = 0;
    let ghost base = old(acc)@;
    let ghost nv = name_views(names@);
    let mut i: usize = 0;
    assert(shares@.take(0) =~= Seq::<PidDelta>::empty());
    assert(nv.take(0) =~= Seq::<Seq<char>>::empty());
    while i < shares.len()
        invariant
            names.len() == shares.len(),
            nv == name_views(names@),
            base == old(acc)@,
            acc.downloaded_total() == old(acc).downloaded_total() + rx_sum(shares@.take(i as int)),
            acc.uploaded_total() == old(acc).uploaded_total() + tx_sum(shares@.take(i as int)),
            i <= shares.len(),
            acc@ == credit_shares(base, nv.take(i as int), shares@.take(i as int)),
            shares_fit(base, nv.take(i as int), shares@.take(i as int)),
            attributed_rx == saturate(rx_sum(shares@.take(i as int))),
            attributed_tx == saturate(tx_sum(shares@.take(i as int))),
            speeds.len() == i,
            forall|j: int|
                #![trigger speeds@[j]]
                0 <= j < i ==> {
                    &&& speeds@[j].name@ == names@[j]@
                    &&& speeds@[j].download_speed == rate_spec(shares@[j].rx as int, elapsed_nanos as int)
                    &&& speeds@[j].upload_speed == rate_spec(shares@[j].tx as int, elapsed_nanos as int)
                },
        decreases shares.len() - i,
    {
        let share = shares[i];
        let name = &names[i];
        proof {
            lemma_prefix_sums(shares@, i as int);
            lemma_sum_nonneg(shares@.take(i as int));
            assert(shares@.take(i + 1).drop_last() =~= shares@.take(i as int));
            assert(nv.take(i + 1).drop_last() =~= nv.take(i as int));
            assert(nv.take(i + 1).last() == name@);
            assert(shares@.take(i + 1).last() == share);
        }
        let t = acc.totals_of(name.as_str());
        if t.bytes_downloaded > u64::MAX - share.rx || t.bytes_uploaded > u64::MAX - share.tx {
            proof {
                if shares_fit(base, nv, shares@) {
                    lemma_shares_fit_prefix(base, nv, shares@, i + 1);
                    let n2 = nv.take(i + 1);
                    let s2 = shares@.take(i + 1);
                    assert(shares_fit(base, n2, s2));
                    assert(credit_fits(credit_shares(base, n2.drop_last(), s2.drop_last()), n2.last(), s2.last().rx, s2.last().tx));
                    assert(credit_fits(acc@, name@, share.rx, share.tx));
                    assert(false);
                }
            }
            return None;
        }
        acc.credit_bytes(name.as_str(), share.rx, share.tx);
        attributed_rx = attributed_rx.saturating_add(share.rx);
        attributed_tx = attributed_tx.saturating_add(share.tx);
        speeds.push(
            ProcessSpeed {
                name: name.clone(),
                download_speed: bytes_per_second(share.rx, elapsed_nanos),
                upload_speed: bytes_per_second(share.tx, elapsed_nanos),
            },
        );
        i = i + 1;
    }
    assert(shares@.take(shares.len() as int) =~= shares@);
    assert(nv.take(shares.len() as int) =~= nv);
    let remainder_rx = rx_nic.saturating_sub(attributed_rx);
    let remainder_tx = tx_nic.saturating_sub(attributed_tx);
    if remainder_rx > 0 || remainder_tx > 0 {
        proof {
            reveal_strlit("System");
        }
        let t = acc.totals_of("System");
        if t.bytes_downloaded > u64::MAX - remainder_rx || t.bytes_uploaded > u64::MAX - remainder_tx {
            return None;
        }
        acc.credit_bytes("System", remainder_rx, remainder_tx);
        let sys_down = bytes_per_second(remainder_rx, elapsed_nanos);
        let sys_up = bytes_per_second(remainder_tx, elapsed_nanos);
        if sys_down > 0 || sys_up > 0 {
            speeds.push(
                ProcessSpeed {
                    name: String::from_str("System"),
                    download_speed: sys_down,
                    upload_speed: sys_up,
                },
            );
        }
    }
    Some(speeds)
}

/// Every byte the adapter counted in a tick is credited exactly once: the
/// processes' scaled shares plus the `System` remainder add up to the adapter's
/// received and sent bytes. With `credit_traffic` (whose totals grow by the
/// shares plus the remainder) and `Accumulator::drain`, the bytes a tick adds
/// to what is flushed are exactly the adapter's count, none lost.
pub proof fn lemma_tick_counts_every_byte(t: PidTraffic, rx_nic: u64, tx_nic: u64)
    requires
        rx_sum(t.entries@) == t.total_rx,
        tx_sum(t.entries@) == t.total_tx,
    ensures
        ({
            let shares = scaled_traffic(
                t.entries@,
                rx_nic as int,
                tx_nic as int,
                t.total_rx as int,
                t.total_tx as int,
            );
            &&& rx_sum(shares) + remainder(rx_nic as int, rx_sum(shares)) == rx_nic
            &&& tx_sum(shares) + remainder(tx_nic as int, tx_sum(shares)) == tx_nic
        }),
{
    let shares = scaled_traffic(t.entries@, rx_nic as int, tx_nic as int, t.total_rx as int, t.total_tx as int);
    lemma_attribution_within_nic(t, rx_nic, tx_nic);
    lemma_sum_nonneg(shares);
}

/// What one reading of the adapter's cumulative byte counters shows.
#[derive(Clone, Copy, Debug, PartialEq, Eq)]
pub enum NicReading {
    /// A counter went backwards (the adapter reconnected or restarted): the
    /// tick is skipped and connection tracking starts over.
    CounterReset,
    /// A rate above `MAX_REALISTIC_BPS`: a measurement artifact, the tick is skipped.
    Spike,
    /// Bytes moved since the previous reading, and the rates they make.
    Traffic { rx_bytes: u64, tx_bytes: u64, download_speed: u64, upload_speed: u64 },
}

/// The adapter's counters as last read.
pub struct NicMeter {
    pub last_rx: u64,
    pub last_tx: u64,
}

/// What a reading of `rx` and `tx`, `elapsed_nanos` after one of `last_rx` and
/// `last_tx`, shows.
pub open spec fn nic_reading_spec(
    last_rx: u64,
    last_tx: u64,
    rx: u64,
    tx: u64,
    elapsed_nanos: u64,
) -> NicReading {
    if rx < last_rx || tx < last_tx {
        NicReading::CounterReset
    } else {
        let down = rate_spec(rx - last_rx, elapsed_nanos as int);
        let up = rate_spec(tx - last_tx, elapsed_nanos as int);
        if down > MAX_REALISTIC_BPS || up > MAX_REALISTIC_BPS {
            NicReading::Spike
        } else {
            NicReading::Traffic {
                rx_bytes: (rx - last_rx) as u64,
                tx_bytes: (tx - last_tx) as u64,
                download_speed: down as u64,
                upload_speed: up as u64,
            }
        }
    }
}

impl NicMeter {
    /// A meter whose first reading is `rx` and `tx`.
    pub fn new(rx: u64, tx: u64) -> (m: NicMeter)
        ensures
            m.last_rx == rx,
            m.last_tx == tx,
    {
        NicMeter { last_rx: rx, last_tx: tx }
    }

    /// Takes a new reading of the counters, `elapsed_nanos` after the last one;
    /// the reading is kept whatever it shows.
    pub fn observe(&mut self, rx: u64, tx: u64, elapsed_nanos: u64) -> (r: NicReading)
        ensures
            final(self).last_rx == rx,
            final(self).last_tx == tx,
            r == nic_reading_spec(old(self).last_rx, old(self).last_tx, rx, tx, elapsed_nanos),
    {
        if rx < self.last_rx || tx < self.last_tx {
            self.last_rx = rx;
            self.last_tx = tx;
            return NicReading::CounterReset;
        }
        let rx_bytes = rx - self.last_rx;
        let tx_bytes = tx - self.last_tx;
        self.last_rx = rx;
        self.last_tx = tx;
        let download_speed = bytes_per_second(rx_bytes, elapsed_nanos);
        let upload_speed = bytes_per_second(tx_bytes, elapsed_nanos);
        if download_speed > MAX_REALISTIC_BPS || upload_speed > MAX_REALISTIC_BPS {
            NicReading::Spike
        } else {
            NicReading::Traffic { rx_bytes, tx_bytes, download_speed, upload_speed }
        }
    }
}

/// Input idle for longer than this (5 minutes) counts as away from the screen.
pub const IDLE_THRESHOLD_MS: u64 = 300_000;

/// Seconds of screen time one tick earns the foreground process: none while the
/// user is idle or no window is in front, one otherwise.
pub open spec fn screen_seconds_spec(active_app: Seq<char>, idle_ms: int) -> u32 {
    if idle_ms > 300_000 || active_app == "Idle"@ {
        0
    } else {
        1
    }
}

/// Seconds of screen time one tick earns the foreground process.
pub fn screen_seconds(active_app: &str, idle_ms: u64) -> (s: u32)
    ensures
        s == screen_seconds_spec(active_app@, idle_ms as int),
{
    if idle_ms > IDLE_THRESHOLD_MS || text_equals(active_app, "Idle") {
        0
    } else {
        1
    }
}

/// A ping is measured on the first tick and on every fifth tick after it.
pub open spec fn ping_due_spec(tick: u32) -> bool {
    tick % 5 == 1
}

/// Advances the tick counter (wrapping around at `u32::MAX`) and says whether
/// the new tick measures a ping.
pub fn advance_tick(tick_count: u32) -> (r: (u32, bool))
    ensures
        r.0 == (if tick_count == u32::MAX { 0 } else { tick_count + 1 }),
        r.1 == ping_due_spec(r.0),
{
    let next = tick_count.wrapping_add(1);
    (next, next % 5 == 1)
}

/// Gathered usage is written to the database once a minute.
pub const FLUSH_INTERVAL_NANOS: u64 = 60_000_000_000;

/// Whether gathered usage is due to be written, `nanos_since_flush` after the last write.
pub fn flush_due(nanos_since_flush: u64) -> (r: bool)
    ensures
        r == (nanos_since_flush >= FLUSH_INTERVAL_NANOS),
{
    nanos_since_flush >= FLUSH_INTERVAL_NANOS
}

/// One row of the operating system's network interface table.
#[derive(Clone, Copy, Debug)]
pub struct InterfaceRow {
    pub index: u32,
    /// Operational status; 1 is up.
    pub oper_status: i32,
    /// Interface type: 6 Ethernet, 23 PPP, 71 Wi-Fi, 244 mobile broadband.
    pub if_type: u32,
    pub in_octets: u64,
    pub out_octets: u64,
}

/// Whether a row's counters are counted: the interface that routes to the
/// internet where it is known, otherwise every physical interface that is up.
pub open spec fn counts_interface(row: InterfaceRow, route: Option<u32>) -> bool {
    match route {
        Some(idx) => row.index == idx,
        None => row.oper_status == 1 && (row.if_type == 6 || row.if_type == 71 || row.if_type == 244
            || row.if_type == 23),
    }
}

/// Received octets over the counted rows.
pub open spec fn in_octets_sum(rows: Seq<InterfaceRow>, route: Option<u32>) -> int
    decreases rows.len(),
{
    if rows.len() == 0 {
        0
    } else {
        in_octets_sum(rows.drop_last(), route) + if counts_interface(rows.last(), route) {
            rows.last().in_octets as int
        } else {
            0
        }
    }
}

/// Sent octets over the counted rows.
pub open spec fn out_octets_sum(rows: Seq<InterfaceRow>, route: Option<u32>) -> int
    decreases rows.len(),
{
    if rows.len() == 0 {
        0
    } else {
        out_octets_sum(rows.drop_last(), route) + if counts_interface(rows.last(), route) {
            rows.last().out_octets as int
        } else {
            0
        }
    }
}

proof fn lemma_octet_sums_monotone(rows: Seq<InterfaceRow>, route: Option<u32>, i: int)
    requires
        0 <= i <= rows.len(),
    ensures
        in_octets_sum(rows.take(i), route) <= in_octets_sum(rows, route),
        out_octets_sum(rows.take(i), route) <= out_octets_sum(rows, route),
    decreases rows.len() - i,
{
    if i < rows.len() {
        lemma_octet_sums_monotone(rows, route, i + 1);
        assert(rows.take(i + 1).drop_last() =~= rows.take(i));
    } else {
        assert(rows.take(i) =~= rows);
    }
}

/// Cumulative received and sent bytes of the counted interfaces; `None` where
/// a sum does not fit in a `u64`.
pub fn interface_octets(rows: &Vec<InterfaceRow>, route: Option<u32>) -> (r: Option<(u64, u64)>)
    ensures
        r is Some <==> (in_octets_sum(rows@, route) <= u64::MAX && out_octets_sum(rows@, route)
            <= u64::MAX),
        r matches Some(p) ==> p.0 == in_octets_sum(rows@, route) && p.1 == out_octets_sum(rows@, route),
{
    let mut rx: u64 = 0;
    let mut tx: u64 = 0;
    let mut i: usize = 0;
    assert(rows@.take(0) =~= Seq::<InterfaceRow>::empty());
    while i < rows.len()
        invariant
            i <= rows.len(),
            rx == in_octets_sum(rows@.take(i as int), route),
            tx == out_octets_sum(rows@.take(i as int), route),
        decreases rows.len() - i,
    {
        let row = rows[i];
        assert(rows@.take(i + 1).drop_last() =~= rows@.take(i as int));
        let counted = match route {
            Some(idx) => row.index == idx,
            None => row.oper_status == 1 && (row.if_type == 6 || row.if_type == 71 || row.if_type
                == 244 || row.if_type == 23),
        };
        if counted {
            match rx.checked_add(row.in_octets) {
                Some(v) => {
                    rx = v;
                },
                None => {
                    proof {
                        lemma_octet_sums_monotone(rows@, route, i + 1);
                    }
                    return None;
                },
            }
            match tx.checked_add(row.out_octets) {
                Some(v) => {
                    tx = v;
                },
                None => {
                    proof {
                        lemma_octet_sums_monotone(rows@, route, i + 1);
                    }
                    return None;
                },
            }
        }
        i = i + 1;
    }
    assert(rows@.take(rows.len() as int) =~= rows@);
    Some((rx, tx))
}

/// Power status as the operating system reports it.
#[derive(Clone, Copy, Debug)]
pub struct PowerStatus {
    /// 1 when on AC power.
    pub ac_line_status: u8,
    /// Bit 8 set while charging.
    pub battery_flag: u8,
    /// Percentage of charge left; 255 when unknown.
    pub battery_life_percent: u8,
}

/// Battery percentage and whether it is charging. An unknown percentage reads
/// as 100; the battery counts as charging when its flag says so or AC power is
/// on; where no status could be read, a full battery on charge is assumed.
pub fn battery_reading(status: Option<PowerStatus>) -> (r: (u8, bool))
    ensures
        match status {
            None => r == (100u8, true),
            Some(s) => {
                &&& r.0 == (if s.battery_life_percent == 255 { 100 } else { s.battery_life_percent })
                &&& r.1 == ((s.battery_flag & 8) != 0 || s.ac_line_status == 1)
            },
        },
{
    match status {
        None => (100, true),
        Some(s) => {
            let percent = if s.battery_life_percent == 255 {
                100
            } else {
                s.battery_life_percent
            };
            (percent, (s.battery_flag & 8) != 0 || s.ac_line_status == 1)
        },
    }
}

} // verus!
