//! One second of the telemetry loop: what each reading does to the state that
//! the loop carries from tick to tick, and what the loop is asked to do next.
use vstd::prelude::*;
use crate::accumulator::{
    acc_pairs, credit_screen_spec, downloaded_sum, totals_or_zero, uploaded_sum, AccEntry,
    AccTotals, Accumulator,
};
use crate::keyed::assoc_map;
use crate::telemetry::{
    advance_tick, credit_traffic, flush_due, name_views, nic_reading_spec, ping_due_spec,
    screen_seconds, screen_seconds_spec, speeds_reported, traffic_credited, traffic_fits, NicMeter,
    NicReading, ProcessSpeed, FLUSH_INTERVAL_NANOS,
};
use crate::traffic::{
    is_tcp_traffic, lemma_attribution_within_nic, rx_sum, scale_to_nic, scaled_traffic,
    tcp_traffic, tx_sum, ConnTable, PidDelta, PidTraffic, TcpConnKey, TcpConnSnapshot,
};
use crate::tracking::{EstatsTracker, NameCache};

verus! {

/// What the loop carries from one tick to the next.
pub struct TickState {
    /// The adapter's counters as last read.
    pub meter: NicMeter,
    /// The TCP connections as last seen.
    pub last_tcp: ConnTable,
    /// Connections whose statistics collection is switched on.
    pub estats: EstatsTracker,
    /// Process names already looked up.
    pub names: NameCache,
    /// Usage gathered since the last flush.
    pub accumulator: Accumulator,
    /// Ticks so far, wrapping around.
    pub tick_count: u32,
}

/// What the loop does at the end of a tick.
pub struct TickEnd {
    /// Whether a ping is measured this tick.
    pub ping_due: bool,
    /// Whether the gathered usage is due to be written to the database.
    pub flush_due: bool,
}

/// The shares of a tick's bytes that `traffic` gives the processes, scaled to
/// what the adapter counted.
pub open spec fn shares_of(traffic: PidTraffic, rx_nic: u64, tx_nic: u64) -> Seq<PidDelta> {
    scaled_traffic(
        traffic.entries@,
        rx_nic as int,
        tx_nic as int,
        traffic.total_rx as int,
        traffic.total_tx as int,
    )
}

impl TickState {
    /// The state before the first tick, with the adapter's counters read as `rx` and `tx`.
    pub fn new(rx: u64, tx: u64) -> (s: TickState)
        ensures
            s.meter.last_rx == rx,
            s.meter.last_tx == tx,
            s.last_tcp@ == Seq::<TcpConnSnapshot>::empty(),
            s.estats@ == Set::<TcpConnKey>::empty(),
            s.names@ == Map::<u32, Seq<char>>::empty(),
            s.accumulator@ == Map::<Seq<char>, AccTotals>::empty(),
            s.accumulator.downloaded_total() == 0,
            s.accumulator.uploaded_total() == 0,
            s.tick_count == 0,
    {
        TickState {
            meter: NicMeter::new(rx, tx),
            last_tcp: ConnTable::new(),
            estats: EstatsTracker::new(),
            names: NameCache::new(),
            accumulator: Accumulator::new(),
            tick_count: 0,
        }
    }

    /// Reads the adapter's counters, `elapsed_nanos` after the last reading. A
    /// counter that went backwards drops the connection state, and the tick is
    /// skipped; so is a spike. Nothing is gathered here.
    pub fn read_adapter(&mut self, rx: u64, tx: u64, elapsed_nanos: u64) -> (r: NicReading)
        ensures
            r == nic_reading_spec(old(self).meter.last_rx, old(self).meter.last_tx, rx, tx, elapsed_nanos),
            final(self).meter.last_rx == rx,
            final(self).meter.last_tx == tx,
            r is CounterReset ==> final(self).last_tcp@ == Seq::<TcpConnSnapshot>::empty()
                && final(self).estats@ == Set::<TcpConnKey>::empty(),
            !(r is CounterReset) ==> final(self).last_tcp@ == old(self).last_tcp@
                && final(self).estats@ == old(self).estats@,
            final(self).names@ == old(self).names@,
            final(self).accumulator@ == old(self).accumulator@,
            final(self).accumulator.downloaded_total() == old(self).accumulator.downloaded_total(),
            final(self).accumulator.uploaded_total() == old(self).accumulator.uploaded_total(),
            final(self).tick_count == old(self).tick_count,
    {
        let r = self.meter.observe(rx, tx, elapsed_nanos);
        if let NicReading::CounterReset = r {
            self.forget_connections();
        }
        r
    }

    /// The connection snapshot could not be taken: connection tracking starts over.
    pub fn forget_connections(&mut self)
        ensures
            final(self).last_tcp@ == Seq::<TcpConnSnapshot>::empty(),
            final(self).estats@ == Set::<TcpConnKey>::empty(),
            final(self).meter == old(self).meter,
            final(self).names@ == old(self).names@,
            final(self).accumulator@ == old(self).accumulator@,
            final(self).accumulator.downloaded_total() == old(self).accumulator.downloaded_total(),
            final(self).accumulator.uploaded_total() == old(self).accumulator.uploaded_total(),
            final(self).tick_count == old(self).tick_count,
    {
        self.last_tcp = ConnTable::new();
        self.estats.clear();
    }

    /// Splits the adapter's `rx_nic` and `tx_nic` bytes of this tick among the
    /// processes by the growth of their TCP connections since the last snapshot;
    /// `current` becomes the last snapshot. The shares never add up to more
    /// than the adapter counted.
    pub fn attribute(&mut self, current: ConnTable, rx_nic: u64, tx_nic: u64) -> (shares: Vec<
        PidDelta,
    >)
        ensures
            exists|t: PidTraffic|
                is_tcp_traffic(old(self).last_tcp@, current@, t) && shares@ == shares_of(
                    t,
                    rx_nic,
                    tx_nic,
                ),
            rx_sum(shares@) <= rx_nic,
            tx_sum(shares@) <= tx_nic,
            final(self).last_tcp@ == current@,
            final(self).meter == old(self).meter,
            final(self).estats@ == old(self).estats@,
            final(self).names@ == old(self).names@,
            final(self).accumulator@ == old(self).accumulator@,
            final(self).accumulator.downloaded_total() == old(self).accumulator.downloaded_total(),
            final(self).accumulator.uploaded_total() == old(self).accumulator.uploaded_total(),
            final(self).tick_count == old(self).tick_count,
    {
        let ghost prev = self.last_tcp@;
        let ghost cur = current@;
        let traffic = tcp_traffic(&self.last_tcp, &current);
        self.last_tcp = current;
        let shares = scale_to_nic(&traffic, rx_nic, tx_nic);
        proof {
            lemma_attribution_within_nic(traffic, rx_nic, tx_nic);
            assert(is_tcp_traffic(prev, cur, traffic) && shares@ == shares_of(traffic, rx_nic, tx_nic));
        }
        shares
    }

    /// Gathers the tick: each share under its process's name, what the adapter
    /// counted beyond the shares under `System`, and a second of screen time for
    /// `active_app` unless the user is idle. Every byte the adapter counted is
    /// gathered. Returns the rates to show; `None` where a total would overflow.
    pub fn gather(
        &mut self,
        shares: &Vec<PidDelta>,
        names: &Vec<String>,
        rx_nic: u64,
        tx_nic: u64,
        elapsed_nanos: u64,
        active_app: &str,
        idle_ms: u64,
    ) -> (r: Option<Vec<ProcessSpeed>>)
        requires
            names.len() == shares.len(),
            rx_sum(shares@) <= rx_nic,
            tx_sum(shares@) <= tx_nic,
        ensures
            ({
                let credited = traffic_credited(
                    old(self).accumulator@,
                    name_views(names@),
                    shares@,
                    rx_nic as int,
                    tx_nic as int,
                );
                let secs = screen_seconds_spec(active_app@, idle_ms as int);
                &&& r is Some <==> traffic_fits(
                    old(self).accumulator@,
                    name_views(names@),
                    shares@,
                    rx_nic as int,
                    tx_nic as int,
                ) && totals_or_zero(credited, active_app@).screen_time_seconds + secs <= u32::MAX
                &&& r matches Some(speeds) ==> {
                    &&& speeds_reported(
                        speeds@,
                        names@,
                        shares@,
                        rx_nic as int,
                        tx_nic as int,
                        elapsed_nanos as int,
                    )
                    &&& final(self).accumulator@ == credit_screen_spec(credited, active_app@, secs)
                    &&& final(self).accumulator.downloaded_total()
                        == old(self).accumulator.downloaded_total() + rx_nic
                    &&& final(self).accumulator.uploaded_total()
                        == old(self).accumulator.uploaded_total() + tx_nic
                }
            }),
            final(self).meter == old(self).meter,
            final(self).last_tcp@ == old(self).last_tcp@,
            final(self).estats@ == old(self).estats@,
            final(self).names@ == old(self).names@,
            final(self).tick_count == old(self).tick_count,
    {
        let speeds = match credit_traffic(
            &mut self.accumulator,
            shares,
            names,
            rx_nic,
            tx_nic,
            elapsed_nanos,
        ) {
            Some(v) => v,
            None => {
                return None;
            },
        };
        let secs = screen_seconds(active_app, idle_ms);
        let t = self.accumulator.totals_of(active_app);
        if t.screen_time_seconds > u32::MAX - secs {
            return None;
        }
        self.accumulator.credit_screen_time(active_app, secs);
        Some(speeds)
    }

    /// Ends the tick `nanos_since_flush` after the last flush: advances the tick
    /// counter, says whether a ping is due and whether a flush is, and where one
    /// is, forgets the looked-up names (process ids are reused).
    pub fn end_tick(&mut self, nanos_since_flush: u64) -> (r: TickEnd)
        ensures
            final(self).tick_count == (if old(self).tick_count == u32::MAX {
                0
            } else {
                old(self).tick_count + 1
            }),
            r.ping_due == ping_due_spec(final(self).tick_count),
            r.flush_due == (nanos_since_flush >= FLUSH_INTERVAL_NANOS),
            r.flush_due ==> final(self).names@ == Map::<u32, Seq<char>>::empty(),
            !r.flush_due ==> final(self).names@ == old(self).names@,
            final(self).accumulator@ == old(self).accumulator@,
            final(self).accumulator.downloaded_total() == old(self).accumulator.downloaded_total(),
            final(self).accumulator.uploaded_total() == old(self).accumulator.uploaded_total(),
            final(self).meter == old(self).meter,
            final(self).last_tcp@ == old(self).last_tcp@,
            final(self).estats@ == old(self).estats@,
    {
        let (next, ping_due) = advance_tick(self.tick_count);
        self.tick_count = next;
        let due = flush_due(nanos_since_flush);
        if due {
            self.names.clear();
        }
        TickEnd { ping_due, flush_due: due }
    }

    /// Hands out the usage gathered since the last flush, to be written, and
    /// starts gathering afresh.
    pub fn take_gathered(&mut self) -> (out: Vec<AccEntry>)
        ensures
            assoc_map(acc_pairs(out@)) == old(self).accumulator@,
            downloaded_sum(out@) == old(self).accumulator.downloaded_total(),
            uploaded_sum(out@) == old(self).accumulator.uploaded_total(),
            final(self).accumulator@ == Map::<Seq<char>, AccTotals>::empty(),
            final(self).accumulator.downloaded_total() == 0,
            final(self).accumulator.uploaded_total() == 0,
            final(self).meter == old(self).meter,
            final(self).last_tcp@ == old(self).last_tcp@,
            final(self).estats@ == old(self).estats@,
            final(self).names@ == old(self).names@,
            final(self).tick_count == old(self).tick_count,
    {
        self.accumulator.drain()
    }
}

} // verus!
