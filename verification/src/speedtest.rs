//! The speed test: DNS latency probes, throughput sampling, and the progress
//! records reported at each stage.
use vstd::prelude::*;
use crate::decimal::{decimal_text, format_u64};
use crate::stats::{
    calculate_trimmed_mean, checked_sum, lemma_trimmed_mean_between_extremes,
    lemma_seq_sum_nonneg, lemma_trimmed_mean_within_bounds, seq_max, seq_min, seq_sum,
    trimmed_mean_spec,
    trimmed_sum_fits, trimmed_sum_fits_check,
};

verus! {

/// Latency of one DNS server.
#[derive(Clone, Debug, PartialEq, Eq)]
pub struct DnsPingResult {
    pub name: String,
    pub ip: String,
    /// Mean TCP connect time in milliseconds; `OFFLINE_LATENCY_MS` when unreachable.
    pub latency_ms: u32,
}

/// Progress of a speed test, reported at every stage and tick.
#[derive(Clone, Debug, PartialEq, Eq)]
pub struct SpeedTestProgress {
    /// `ping`, `download`, `upload` or `complete`.
    pub stage: String,
    /// Bytes per second at this moment.
    pub current_speed: u64,
    /// 0 to 100.
    pub progress_percent: u32,
    pub pings: Vec<DnsPingResult>,
    /// Final download result, bytes per second.
    pub download_speed: u64,
    /// Final upload result, bytes per second.
    pub upload_speed: u64,
    pub average_ping: u32,
    pub message: String,
}

/// A DNS server probed for latency.
#[derive(Clone, Debug, PartialEq, Eq)]
pub struct DnsTarget {
    pub name: String,
    pub ip: String,
    pub port: u16,
}

/// Latency reported for a server that never answered.
pub const OFFLINE_LATENCY_MS: u32 = 999;

/// Number of DNS servers probed.
pub const DNS_TARGET_COUNT: usize = 4;

/// The DNS servers probed, in order: Cloudflare, Google, Quad9 and OpenDNS, each on port 53.
pub fn dns_targets() -> (t: Vec<DnsTarget>)
    ensures
        t.len() == DNS_TARGET_COUNT,
        t@[0].name@ == "Cloudflare"@ && t@[0].ip@ == "1.1.1.1"@,
        t@[1].name@ == "Google DNS"@ && t@[1].ip@ == "8.8.8.8"@,
        t@[2].name@ == "Quad9 DNS"@ && t@[2].ip@ == "9.9.9.9"@,
        t@[3].name@ == "OpenDNS"@ && t@[3].ip@ == "208.67.222.222"@,
        forall|i: int| 0 <= i < 4 ==> #[trigger] t@[i].port == 53,
{
    let mut t: Vec<DnsTarget> = Vec::new();
    t.push(DnsTarget { name: String::from_str("Cloudflare"), ip: String::from_str("1.1.1.1"), port: 53 });
    t.push(DnsTarget { name: String::from_str("Google DNS"), ip: String::from_str("8.8.8.8"), port: 53 });
    t.push(DnsTarget { name: String::from_str("Quad9 DNS"), ip: String::from_str("9.9.9.9"), port: 53 });
    t.push(
        DnsTarget { name: String::from_str("OpenDNS"), ip: String::from_str("208.67.222.222"), port: 53 },
    );
    t
}

/// Mean connect time over the successful attempts, `OFFLINE_LATENCY_MS` when none succeeded.
pub open spec fn average_latency_spec(elapsed_ms: Seq<u64>) -> u32 {
    if elapsed_ms.len() == 0 {
        OFFLINE_LATENCY_MS
    } else {
        (seq_sum(elapsed_ms) / elapsed_ms.len() as int) as u32
    }
}

/// Latency of a server from the connect times (milliseconds) of the attempts that succeeded.
pub fn average_latency(elapsed_ms: &Vec<u64>) -> (r: u32)
    requires
        seq_sum(elapsed_ms@) <= u64::MAX,
    ensures
        r == average_latency_spec(elapsed_ms@),
{
    if elapsed_ms.len() == 0 {
        return OFFLINE_LATENCY_MS;
    }
    match checked_sum(elapsed_ms) {
        Some(total) => (total / (elapsed_ms.len() as u64)) as u32,
        None => OFFLINE_LATENCY_MS,
    }
}

/// A server's latency is the mean of all its successful connect times, rounded
/// down: the latency times their count is at most their sum, and one more
/// millisecond each would exceed it (where the mean fits in a `u32`).
pub proof fn lemma_latency_is_mean(elapsed_ms: Seq<u64>)
    requires
        elapsed_ms.len() > 0,
        seq_sum(elapsed_ms) / elapsed_ms.len() as int <= u32::MAX,
    ensures
        average_latency_spec(elapsed_ms) * elapsed_ms.len() <= seq_sum(elapsed_ms),
        seq_sum(elapsed_ms) < (average_latency_spec(elapsed_ms) + 1) * elapsed_ms.len(),
{
    let n = elapsed_ms.len() as int;
    let t = seq_sum(elapsed_ms);
    lemma_seq_sum_nonneg(elapsed_ms);
    let q = t / n;
    assert(q * n <= t < (q + 1) * n) by (nonlinear_arith)
        requires
            n > 0,
            q == t / n,
    {
        assert(t == n * (t / n) + t % n);
    }
    assert(q >= 0) by (nonlinear_arith)
        requires
            n > 0,
            t >= 0,
            q == t / n,
    ;
    assert(average_latency_spec(elapsed_ms) == q);
}

/// Sum and count of the latencies of the servers that answered.
pub open spec fn answered_sum(l: Seq<u32>) -> int
    decreases l.len(),
{
    if l.len() == 0 {
        0
    } else {
        answered_sum(l.drop_last()) + if l.last() < OFFLINE_LATENCY_MS { l.last() as int } else { 0 }
    }
}

pub open spec fn answered_count(l: Seq<u32>) -> int
    decreases l.len(),
{
    if l.len() == 0 {
        0
    } else {
        answered_count(l.drop_last()) + if l.last() < OFFLINE_LATENCY_MS { 1int } else { 0 }
    }
}

/// Mean latency of the servers that answered; 0 when none did.
pub open spec fn average_ping_spec(l: Seq<u32>) -> int {
    if answered_count(l) == 0 {
        0
    } else {
        answered_sum(l) / answered_count(l)
    }
}

proof fn lemma_answered_bounds(l: Seq<u32>)
    ensures
        0 <= answered_count(l) <= l.len(),
        0 <= answered_sum(l) <= answered_count(l) * 998,
    decreases l.len(),
{
    if l.len() > 0 {
        lemma_answered_bounds(l.drop_last());
    }
}

/// The per-server results and the mean latency of those that answered, from
/// the latencies measured for `dns_targets()`, in the same order.
pub fn summarize_dns_pings(latencies: &Vec<u32>) -> (r: (Vec<DnsPingResult>, u32))
    requires
        latencies.len() == DNS_TARGET_COUNT,
    ensures
        r.0.len() == DNS_TARGET_COUNT,
        r.0@[0].name@ == "Cloudflare"@ && r.0@[0].ip@ == "1.1.1.1"@,
        r.0@[1].name@ == "Google DNS"@ && r.0@[1].ip@ == "8.8.8.8"@,
        r.0@[2].name@ == "Quad9 DNS"@ && r.0@[2].ip@ == "9.9.9.9"@,
        r.0@[3].name@ == "OpenDNS"@ && r.0@[3].ip@ == "208.67.222.222"@,
        forall|i: int| 0 <= i < 4 ==> #[trigger] r.0@[i].latency_ms == latencies@[i],
        r.1 == average_ping_spec(latencies@),
{
    let targets = dns_targets();
    let mut results: Vec<DnsPingResult> = Vec::new();
    let mut sum: u32 = 0;
    let mut count: u32 = 0;
    let mut i: usize = 0;
    assert(latencies@.take(0) =~= Seq::<u32>::empty());
    while i < DNS_TARGET_COUNT
        invariant
            i <= DNS_TARGET_COUNT,
            latencies.len() == DNS_TARGET_COUNT,
            targets.len() == DNS_TARGET_COUNT,
            targets@[0].name@ == "Cloudflare"@ && targets@[0].ip@ == "1.1.1.1"@,
            targets@[1].name@ == "Google DNS"@ && targets@[1].ip@ == "8.8.8.8"@,
            targets@[2].name@ == "Quad9 DNS"@ && targets@[2].ip@ == "9.9.9.9"@,
            targets@[3].name@ == "OpenDNS"@ && targets@[3].ip@ == "208.67.222.222"@,
            results.len() == i,
            forall|j: int|
                0 <= j < i ==> #[trigger] results@[j].name@ == targets@[j].name@ && results@[j].ip@
                    == targets@[j].ip@ && results@[j].latency_ms == latencies@[j],
            sum == answered_sum(latencies@.take(i as int)),
            count == answered_count(latencies@.take(i as int)),
            count <= i,
            sum <= count * 998,
        decreases DNS_TARGET_COUNT - i,
    {
        let latency = latencies[i];
        assert(latencies@.take(i + 1).drop_last() =~= latencies@.take(i as int));
        results.push(
            DnsPingResult {
                name: targets[i].name.clone(),
                ip: targets[i].ip.clone(),
                latency_ms: latency,
            },
        );
        if latency < OFFLINE_LATENCY_MS {
            sum = sum + latency;
            count = count + 1;
        }
        i = i + 1;
    }
    assert(latencies@.take(4) =~= latencies@);
    let avg = if count > 0 {
        sum / count
    } else {
        0
    };
    (results, avg)
}

/// Overall progress while downloading: the download's own 0 to 100 mapped onto 20 to 60.
pub fn download_progress_percent(pct: u32) -> (r: u32)
    requires
        pct <= 100,
    ensures
        r == 20 + pct * 40 / 100,
{
    20 + pct * 40 / 100
}

/// Overall progress while uploading: the upload's own 0 to 100 mapped onto 60 to 95.
pub fn upload_progress_percent(pct: u32) -> (r: u32)
    requires
        pct <= 100,
    ensures
        r == 60 + pct * 35 / 100,
{
    60 + pct * 35 / 100
}

/// The answer to a request for a speed test while one is already running.
pub fn speed_test_gate(already_running: bool) -> (r: Result<(), String>)
    ensures
        already_running <==> r is Err,
        r matches Err(m) ==> m@ == "Speed test is already running"@,
{
    if already_running {
        Err(String::from_str("Speed test is already running"))
    } else {
        Ok(())
    }
}

/// The speeds kept for the final score from a sequence of offered readings
/// (smoothed speed, whether the warm-up was over), in order: those offered
/// after the warm-up, and above 0.
pub open spec fn kept_speeds(offered: Seq<(u64, bool)>) -> Seq<u64>
    decreases offered.len(),
{
    if offered.len() == 0 {
        Seq::empty()
    } else {
        let rest = kept_speeds(offered.drop_last());
        let (speed, warmed_up) = offered.last();
        if warmed_up && speed > 0 {
            rest.push(speed)
        } else {
            rest
        }
    }
}

/// Throughput samples gathered during a transfer test.
pub struct ThroughputSampler {
    last_total: u64,
    samples: Vec<u64>,
    offered: Ghost<Seq<(u64, bool)>>,
}

impl ThroughputSampler {
    #[verifier::type_invariant]
    closed spec fn samples_are_kept_speeds(self) -> bool {
        self.samples@ == kept_speeds(self.offered@)
    }

    /// Counter value at the last sample.
    pub closed spec fn last_total(&self) -> u64 {
        self.last_total
    }

    /// Every reading offered to `record` so far, in order.
    pub closed spec fn offered(&self) -> Seq<(u64, bool)> {
        self.offered@
    }

    /// Smoothed speeds kept for the final score, in order.
    pub open spec fn samples(&self) -> Seq<u64> {
        kept_speeds(self.offered())
    }

    /// A sampler that has seen no bytes.
    pub fn new() -> (s: ThroughputSampler)
        ensures
            s.last_total() == 0,
            s.offered() == Seq::<(u64, bool)>::empty(),
    {
        ThroughputSampler { last_total: 0, samples: Vec::new(), offered: Ghost(Seq::empty()) }
    }

    /// Bytes moved since the last sample, given the running byte counter; a
    /// counter that went backwards gives 0.
    pub fn take_sample(&mut self, current_total: u64) -> (bytes: u64)
        ensures
            bytes == (if current_total >= old(self).last_total() {
                current_total - old(self).last_total()
            } else {
                0
            }),
            final(self).last_total() == current_total,
            final(self).offered() == old(self).offered(),
    {
        proof {
            use_type_invariant(&*self);
        }
        let bytes = current_total.saturating_sub(self.last_total);
        self.last_total = current_total;
        bytes
    }

    /// Offers a smoothed speed for the final score: it is kept once the
    /// warm-up is over and if it is above 0.
    pub fn record(&mut self, smooth_speed: u64, warmed_up: bool)
        ensures
            final(self).last_total() == old(self).last_total(),
            final(self).offered() == old(self).offered().push((smooth_speed, warmed_up)),
            warmed_up && smooth_speed > 0 ==> final(self).samples() == old(self).samples().push(
                smooth_speed,
            ),
            !(warmed_up && smooth_speed > 0) ==> final(self).samples() == old(self).samples(),
    {
        proof {
            use_type_invariant(&*self);
        }
        let ghost before = self.offered@;
        let ghost after = before.push((smooth_speed, warmed_up));
        assert(after.drop_last() =~= before);
        let mut current = ThroughputSampler::new();
        std::mem::swap(self, &mut current);
        let ThroughputSampler { last_total, mut samples, offered: _ } = current;
        if warmed_up && smooth_speed > 0 {
            samples.push(smooth_speed);
        }
        *self = ThroughputSampler { last_total, samples, offered: Ghost(after) };
    }

    /// The test's result: the trimmed mean of the kept speeds; `None` where the
    /// sum it divides does not fit in a `u64`.
    pub fn final_speed(&self) -> (r: Option<u64>)
        ensures
            r is Some <==> trimmed_sum_fits(self.samples()),
            r matches Some(v) ==> v == trimmed_mean_spec(self.samples()),
    {
        proof {
            use_type_invariant(self);
        }
        if trimmed_sum_fits_check(&self.samples) {
            Some(calculate_trimmed_mean(self.samples.clone()))
        } else {
            None
        }
    }
}

/// The readings that count toward a score are exactly those offered after the
/// warm-up and above 0, in the order offered, however many there are.
pub open spec fn counts_toward_score(reading: (u64, bool)) -> bool {
    reading.1 && reading.0 > 0
}

/// The kept speeds are the offered readings that count toward the score, in
/// order, with nothing else and nothing left out.
pub proof fn lemma_kept_speeds_are_counted_readings(offered: Seq<(u64, bool)>)
    ensures
        kept_speeds(offered) == offered.filter(|r: (u64, bool)| counts_toward_score(r)).map_values(
            |r: (u64, bool)| r.0,
        ),
    decreases offered.len(),
{
    reveal(Seq::filter);
    let pred = |r: (u64, bool)| counts_toward_score(r);
    let fst = |r: (u64, bool)| r.0;
    if offered.len() > 0 {
        lemma_kept_speeds_are_counted_readings(offered.drop_last());
        let rest = offered.drop_last().filter(pred);
        if pred(offered.last()) {
            assert(rest.push(offered.last()).map_values(fst) =~= rest.map_values(fst).push(
                offered.last().0,
            ));
        }
    } else {
        assert(offered.filter(pred).map_values(fst) =~= Seq::<u64>::empty());
    }
}

/// Offering one more reading keeps every earlier kept speed and appends the
/// new one exactly when it counts (after the warm-up and above 0), whatever
/// number of speeds were kept before.
pub proof fn lemma_kept_speeds_append(offered: Seq<(u64, bool)>, speed: u64, warmed_up: bool)
    ensures
        warmed_up && speed > 0 ==> kept_speeds(offered.push((speed, warmed_up))) == kept_speeds(
            offered,
        ).push(speed),
        !(warmed_up && speed > 0) ==> kept_speeds(offered.push((speed, warmed_up))) == kept_speeds(
            offered,
        ),
        kept_speeds(offered).len() <= offered.len(),
{
    let pred = |r: (u64, bool)| counts_toward_score(r);
    let fst = |r: (u64, bool)| r.0;
    let o2 = offered.push((speed, warmed_up));
    lemma_kept_speeds_are_counted_readings(offered);
    lemma_kept_speeds_are_counted_readings(o2);
    reveal(Seq::filter);
    assert(o2.drop_last() =~= offered);
    if warmed_up && speed > 0 {
        assert(offered.filter(pred).push((speed, warmed_up)).map_values(fst) =~= offered.filter(
            pred,
        ).map_values(fst).push(speed));
    }
    offered.filter_lemma(pred);
}

proof fn lemma_kept_speeds_positive(offered: Seq<(u64, bool)>)
    ensures
        forall|i: int| 0 <= i < kept_speeds(offered).len() ==> #[trigger] kept_speeds(offered)[i] > 0,
    decreases offered.len(),
{
    if offered.len() > 0 {
        let rest = kept_speeds(offered.drop_last());
        lemma_kept_speeds_positive(offered.drop_last());
        let (speed, warmed_up) = offered.last();
        if warmed_up && speed > 0 {
            assert forall|i: int| 0 <= i < rest.push(speed).len() implies #[trigger] rest.push(
                speed,
            )[i] > 0 by {
                if i < rest.len() {
                    assert(rest.push(speed)[i] == rest[i]);
                }
            }
        }
    }
}

/// The score of a whole transfer test is the trimmed mean of the speeds offered
/// after the warm-up and above 0, in the order offered: it is 0 exactly when
/// none was kept, and otherwise lies between the slowest and the fastest kept
/// speed (and between any bounds of all of them), so warm-up readings never count.
pub proof fn lemma_test_score(offered: Seq<(u64, bool)>, lo: int, hi: int)
    ensures
        (trimmed_mean_spec(kept_speeds(offered)) == 0) <==> kept_speeds(offered).len() == 0,
        kept_speeds(offered).len() > 0 ==> seq_min(kept_speeds(offered)) <= trimmed_mean_spec(
            kept_speeds(offered),
        ) <= seq_max(kept_speeds(offered)),
        kept_speeds(offered).len() > 0 && (forall|i: int|
            0 <= i < kept_speeds(offered).len() ==> lo <= #[trigger] kept_speeds(offered)[i] <= hi)
            ==> lo <= trimmed_mean_spec(kept_speeds(offered)) <= hi,
{
    let k = kept_speeds(offered);
    lemma_kept_speeds_positive(offered);
    if k.len() > 0 {
        lemma_trimmed_mean_within_bounds(k, 1, u64::MAX as int);
        lemma_trimmed_mean_between_extremes(k);
        if forall|i: int| 0 <= i < k.len() ==> lo <= #[trigger] k[i] <= hi {
            lemma_trimmed_mean_within_bounds(k, lo, hi);
        }
    }
}

/// Whether a progress record carries the measured DNS latencies and their average.
pub open spec fn carries_measurement(p: SpeedTestProgress, pings: Seq<DnsPingResult>, average_ping: u32) -> bool {
    p.pings@ == pings && p.average_ping == average_ping
}

/// A copy of the latency results, entry for entry.
fn copy_pings(pings: &Vec<DnsPingResult>) -> (r: Vec<DnsPingResult>)
    ensures
        r@ == pings@,
{
    let mut r: Vec<DnsPingResult> = Vec::new();
    let mut i: usize = 0;
    while i < pings.len()
        invariant
            i <= pings.len(),
            r@ == pings@.take(i as int),
        decreases pings.len() - i,
    {
        let e = &pings[i];
        r.push(DnsPingResult { name: e.name.clone(), ip: e.ip.clone(), latency_ms: e.latency_ms });
        assert(pings@.take(i + 1) =~= pings@.take(i as int).push(pings@[i as int]));
        i = i + 1;
    }
    assert(pings@.take(pings.len() as int) =~= pings@);
    r
}

impl SpeedTestProgress {
    /// The first report: the ping stage has begun.
    pub fn starting() -> (p: SpeedTestProgress)
        ensures
            p.stage@ == "ping"@,
            p.current_speed == 0,
            p.progress_percent == 5,
            p.pings@.len() == 0,
            p.download_speed == 0,
            p.upload_speed == 0,
            p.average_ping == 0,
            p.message@ == "Testing DNS latency..."@,
    {
        SpeedTestProgress {
            stage: String::from_str("ping"),
            current_speed: 0,
            progress_percent: 5,
            pings: Vec::new(),
            download_speed: 0,
            upload_speed: 0,
            average_ping: 0,
            message: String::from_str("Testing DNS latency..."),
        }
    }

    /// The DNS latencies are in; the download test comes next.
    pub fn pings_measured(&mut self, pings: Vec<DnsPingResult>, average_ping: u32)
        ensures
            final(self).pings == pings,
            final(self).average_ping == average_ping,
            carries_measurement(*final(self), pings@, average_ping),
            final(self).progress_percent == 20,
            final(self).message@ == "DNS Latency: "@ + decimal_text(average_ping as nat)
                + " ms. Starting Download Speed Test..."@,
            final(self).stage == old(self).stage,
            final(self).current_speed == old(self).current_speed,
            final(self).download_speed == old(self).download_speed,
            final(self).upload_speed == old(self).upload_speed,
    {
        let mut message = String::from_str("DNS Latency: ");
        let digits = format_u64(average_ping as u64);
        message.append(digits.as_str());
        message.append(" ms. Starting Download Speed Test...");
        self.pings = pings;
        self.average_ping = average_ping;
        self.progress_percent = 20;
        self.message = message;
    }

    /// Enters the download stage.
    pub fn begin_download(&mut self)
        ensures
            final(self).stage@ == "download"@,
            final(self).current_speed == old(self).current_speed,
            final(self).progress_percent == old(self).progress_percent,
            final(self).pings == old(self).pings,
            final(self).download_speed == old(self).download_speed,
            final(self).upload_speed == old(self).upload_speed,
            final(self).average_ping == old(self).average_ping,
            final(self).message == old(self).message,
            forall|pings: Seq<DnsPingResult>, avg: u32|
                carries_measurement(*old(self), pings, avg) ==> #[trigger] carries_measurement(
                    *final(self),
                    pings,
                    avg,
                ),
    {
        self.stage = String::from_str("download");
    }

    /// A report during the download test, at `speed` bytes per second and
    /// `pct` percent of its duration; it carries the measured pings and average.
    pub fn download_tick(&self, speed: u64, pct: u32) -> (p: SpeedTestProgress)
        requires
            pct <= 100,
        ensures
            p.stage@ == "download"@,
            p.current_speed == speed,
            p.progress_percent == 20 + pct * 40 / 100,
            p.pings@ == self.pings@,
            p.download_speed == speed,
            p.upload_speed == 0,
            p.average_ping == self.average_ping,
            p.message@ == "Testing Download Speed..."@,
            forall|pings: Seq<DnsPingResult>, avg: u32|
                carries_measurement(*self, pings, avg) ==> #[trigger] carries_measurement(p, pings, avg),
    {
        SpeedTestProgress {
            stage: String::from_str("download"),
            current_speed: speed,
            progress_percent: download_progress_percent(pct),
            pings: copy_pings(&self.pings),
            download_speed: speed,
            upload_speed: 0,
            average_ping: self.average_ping,
            message: String::from_str("Testing Download Speed..."),
        }
    }

    /// The download result is in; the upload test comes next.
    pub fn download_finished(&mut self, download_speed: u64)
        ensures
            final(self).download_speed == download_speed,
            final(self).progress_percent == 60,
            final(self).message@ == "Download Test Complete. Starting Upload Speed Test..."@,
            final(self).stage == old(self).stage,
            final(self).current_speed == old(self).current_speed,
            final(self).pings == old(self).pings,
            final(self).upload_speed == old(self).upload_speed,
            final(self).average_ping == old(self).average_ping,
            forall|pings: Seq<DnsPingResult>, avg: u32|
                carries_measurement(*old(self), pings, avg) ==> #[trigger] carries_measurement(
                    *final(self),
                    pings,
                    avg,
                ),
    {
        self.download_speed = download_speed;
        self.progress_percent = 60;
        self.message = String::from_str("Download Test Complete. Starting Upload Speed Test...");
    }

    /// Enters the upload stage.
    pub fn begin_upload(&mut self)
        ensures
            final(self).stage@ == "upload"@,
            final(self).current_speed == old(self).current_speed,
            final(self).progress_percent == old(self).progress_percent,
            final(self).pings == old(self).pings,
            final(self).download_speed == old(self).download_speed,
            final(self).upload_speed == old(self).upload_speed,
            final(self).average_ping == old(self).average_ping,
            final(self).message == old(self).message,
            forall|pings: Seq<DnsPingResult>, avg: u32|
                carries_measurement(*old(self), pings, avg) ==> #[trigger] carries_measurement(
                    *final(self),
                    pings,
                    avg,
                ),
    {
        self.stage = String::from_str("upload");
    }

    /// A report during the upload test, at `speed` bytes per second and `pct`
    /// percent of its duration; it carries the measured pings, average and
    /// download result.
    pub fn upload_tick(&self, speed: u64, pct: u32) -> (p: SpeedTestProgress)
        requires
            pct <= 100,
        ensures
            p.stage@ == "upload"@,
            p.current_speed == speed,
            p.progress_percent == 60 + pct * 35 / 100,
            p.pings@ == self.pings@,
            p.download_speed == self.download_speed,
            p.upload_speed == speed,
            p.average_ping == self.average_ping,
            p.message@ == "Testing Upload Speed..."@,
            forall|pings: Seq<DnsPingResult>, avg: u32|
                carries_measurement(*self, pings, avg) ==> #[trigger] carries_measurement(p, pings, avg),
    {
        SpeedTestProgress {
            stage: String::from_str("upload"),
            current_speed: speed,
            progress_percent: upload_progress_percent(pct),
            pings: copy_pings(&self.pings),
            download_speed: self.download_speed,
            upload_speed: speed,
            average_ping: self.average_ping,
            message: String::from_str("Testing Upload Speed..."),
        }
    }

    /// The upload result is in and the test is complete.
    pub fn complete(&mut self, upload_speed: u64)
        ensures
            final(self).upload_speed == upload_speed,
            final(self).stage@ == "complete"@,
            final(self).current_speed == 0,
            final(self).progress_percent == 100,
            final(self).message@ == "Speed Test Completed Successfully!"@,
            final(self).pings == old(self).pings,
            final(self).download_speed == old(self).download_speed,
            final(self).average_ping == old(self).average_ping,
            forall|pings: Seq<DnsPingResult>, avg: u32|
                carries_measurement(*old(self), pings, avg) ==> #[trigger] carries_measurement(
                    *final(self),
                    pings,
                    avg,
                ),
    {
        self.upload_speed = upload_speed;
        self.stage = String::from_str("complete");
        self.current_speed = 0;
        self.progress_percent = 100;
        self.message = String::from_str("Speed Test Completed Successfully!");
    }
}

/// Progress never leaves its stage's band and never goes back within a stage:
/// download reports lie between 20 and 60 percent, upload reports between 60
/// and 95, each rising with the elapsed share of its test.
pub proof fn lemma_progress_bands(pct1: u32, pct2: u32)
    requires
        pct1 <= pct2 <= 100,
    ensures
        20 <= 20 + pct1 * 40 / 100 <= 20 + pct2 * 40 / 100 <= 60,
        60 <= 60 + pct1 * 35 / 100 <= 60 + pct2 * 35 / 100 <= 95,
{
    assert(pct1 * 40 / 100 <= pct2 * 40 / 100) by (nonlinear_arith)
        requires
            pct1 <= pct2,
    ;
    assert(pct1 * 35 / 100 <= pct2 * 35 / 100) by (nonlinear_arith)
        requires
            pct1 <= pct2,
    ;
    assert(pct2 * 40 / 100 <= 40 && pct2 * 35 / 100 <= 35) by (nonlinear_arith)
        requires
            pct2 <= 100,
    ;
}

/// The average ping is that of the servers that answered, so it is always
/// below the latency that marks a server as unreachable.
pub proof fn lemma_average_ping_below_offline(l: Seq<u32>)
    ensures
        0 <= average_ping_spec(l) < OFFLINE_LATENCY_MS,
{
    lemma_answered_bounds(l);
    if answered_count(l) > 0 {
        let c = answered_count(l);
        let s = answered_sum(l);
        assert(s / c <= 998) by (nonlinear_arith)
            requires
                c > 0,
                0 <= s <= c * 998,
        {
            assert((c * 998) / c == 998);
        }
        assert(s / c >= 0) by (nonlinear_arith)
            requires
                c > 0,
                s >= 0,
        ;
    }
}

} // verus!
