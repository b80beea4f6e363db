//! Download bookkeeping: the state of each track being fetched, the overall
//! progress, transfer rates, time estimates, and the decisions taken after
//! each attempt.
//!
//! Times are nanoseconds on a monotonic clock chosen by the caller; byte
//! rates are kept as exact ratios of bytes over nanoseconds.
use vstd::prelude::*;
use indexmap::IndexMap;
use vstd::arithmetic::power2::{pow2, lemma2_to64, lemma2_to64_rest, lemma_pow2_unfold};
use crate::text::{round_half_even, div_round_half_even};
use crate::collections::{
    key_index, value_of, stored, lemma_key_index_bounds, host_results_new, host_results_get,
    host_results_insert, host_result_entries,
};

verus! {

/// Where a download stands.
#[derive(Debug, Clone, Copy, PartialEq, Eq, Structural)]
pub enum DownloadStatus {
    Pending,
    Resolving,
    Downloading,
    Complete,
    Failed,
    Skipped,
    Retrying,
}

/// A track chosen for download, with the link it will be fetched from.
#[derive(Debug, Clone)]
pub struct DownloadTrack {
    pub id: usize,
    pub name: String,
    pub era_name: String,
    pub original_url: String,
    pub playable_url: String,
    pub host: String,
}

/// The progress of one download.
#[derive(Debug, Clone)]
pub struct ActiveDownload {
    pub id: usize,
    pub name: String,
    pub era_name: String,
    pub host: String,
    pub url: String,
    pub downloaded: u64,
    pub total: Option<u64>,
    pub status: DownloadStatus,
    /// When the transfer began (nanoseconds).
    pub started_at: Option<u64>,
    /// (time in nanoseconds, bytes received so far), oldest first.
    pub speed_samples: Vec<(u64, u64)>,
    pub retries: usize,
    pub error: Option<String>,
}

/// The progress of a whole batch of downloads.
#[derive(Debug, Clone)]
pub struct DownloadState {
    pub downloads: Vec<ActiveDownload>,
    pub completed: usize,
    pub failed: usize,
    pub skipped: usize,
    pub total: usize,
    pub total_bytes_downloaded: u64,
    /// When the batch began (nanoseconds).
    pub started_at: Option<u64>,
}

/// A transfer rate of `bytes` per `nanos` nanoseconds; a rate with no
/// elapsed time is zero.
#[derive(Debug, Clone, Copy, PartialEq, Eq, Structural)]
pub struct Rate {
    pub bytes: u64,
    pub nanos: u64,
}

/// The number of speed samples kept per download.
pub const MAX_SPEED_SAMPLES: usize = 50;

/// The number of most recent samples a download's current speed looks at.
pub const SPEED_WINDOW: usize = 10;

// ---------------------------------------------------------------------------
// Rates and times
// ---------------------------------------------------------------------------

/// The rate is zero.
pub open spec fn rate_is_zero(r: Rate) -> bool {
    r.bytes == 0 || r.nanos == 0
}

/// The position of the oldest sample that the current speed looks at.
pub open spec fn window_start(n: int) -> int {
    if n > SPEED_WINDOW {
        n - SPEED_WINDOW
    } else {
        0
    }
}

/// The current speed over the last ten samples: the bytes received between
/// the oldest and the newest of them over the time between them; zero with
/// fewer than two samples or no time between them.
pub open spec fn speed_of(samples: Seq<(u64, u64)>) -> Rate {
    let n = samples.len() as int;
    if n < 2 {
        Rate { bytes: 0, nanos: 0 }
    } else {
        let newest = samples[n - 1];
        let oldest = samples[window_start(n)];
        if newest.0 > oldest.0 {
            Rate { bytes: (newest.1 - oldest.1) as u64, nanos: (newest.0 - oldest.0) as u64 }
        } else {
            Rate { bytes: 0, nanos: 0 }
        }
    }
}

/// The bytes received never go down across the samples a speed looks at.
pub open spec fn samples_ordered(samples: Seq<(u64, u64)>) -> bool {
    samples.len() >= 2 ==> samples[window_start(samples.len() as int)].1 <= samples[samples.len()
        - 1].1
}

/// The bytes still to come: the expected size (zero when unknown) less
/// what has arrived, never below zero.
pub open spec fn remaining_bytes(total: Option<u64>, downloaded: u64) -> nat {
    let t: int = match total {
        Some(t) => t as int,
        None => 0,
    };
    if t > downloaded {
        (t - downloaded) as nat
    } else {
        0
    }
}

/// The time (nanoseconds) to fetch `remaining` bytes at rate `r`.
pub open spec fn eta_of(remaining: nat, r: Rate) -> Option<nat> {
    if rate_is_zero(r) {
        None
    } else {
        Some((remaining * (r.nanos as nat) / (r.bytes as nat)) as nat)
    }
}

/// The time since `start` (nanoseconds), never below zero.
pub open spec fn since(start: u64, now: u64) -> nat {
    if now > start {
        (now - start) as nat
    } else {
        0
    }
}

impl ActiveDownload {
    /// The current transfer rate, over the most recent ten samples.
    pub fn current_speed(&self) -> (r: Rate)
        requires
            samples_ordered(self.speed_samples@),
        ensures
            r == speed_of(self.speed_samples@),
    {
        let n = self.speed_samples.len();
        if n < 2 {
            return Rate { bytes: 0, nanos: 0 };
        }
        let start = if n > SPEED_WINDOW {
            n - SPEED_WINDOW
        } else {
            0
        };
        let (newest_time, newest_bytes) = self.speed_samples[n - 1];
        let (oldest_time, oldest_bytes) = self.speed_samples[start];
        if newest_time > oldest_time {
            Rate { bytes: newest_bytes - oldest_bytes, nanos: newest_time - oldest_time }
        } else {
            Rate { bytes: 0, nanos: 0 }
        }
    }

    /// The estimated time left (nanoseconds) at the current speed; none
    /// when the speed is zero.
    pub fn eta(&self) -> (r: Option<u128>)
        requires
            samples_ordered(self.speed_samples@),
        ensures
            match r {
                Some(t) => eta_of(remaining_bytes(self.total, self.downloaded), speed_of(
                    self.speed_samples@,
                )) == Some(t as nat),
                None => eta_of(
                    remaining_bytes(self.total, self.downloaded),
                    speed_of(self.speed_samples@),
                ) is None,
            },
    {
        let speed = self.current_speed();
        if speed.bytes == 0 || speed.nanos == 0 {
            return None;
        }
        let expected: u64 = match self.total {
            Some(t) => t,
            None => 0,
        };
        let remaining: u64 = expected.saturating_sub(self.downloaded);
        proof {
            assert((remaining as u128) * (speed.nanos as u128) <= (u64::MAX as u128) * (
            u64::MAX as u128)) by (nonlinear_arith)
                requires
                    remaining <= u64::MAX,
                    speed.nanos <= u64::MAX,
            ;
        }
        let num: u128 = (remaining as u128) * (speed.nanos as u128);
        Some(num / (speed.bytes as u128))
    }

    /// How much of the expected size has arrived, in whole percent (see
    /// `percent_of`); zero while the size is unknown or zero.
    pub fn percent_done(&self) -> (r: u16)
        ensures
            r == (match self.total {
                Some(t) => if t > 0 {
                    percent_of(self.downloaded as int, t as int)
                } else {
                    0
                },
                None => 0,
            }),
    {
        match self.total {
            Some(t) => if t > 0 {
                percent_u16(self.downloaded as u128, t as u128)
            } else {
                0
            },
            None => 0,
        }
    }

    /// The time since the transfer began (nanoseconds), if it has.
    pub fn elapsed(&self, now: u64) -> (r: Option<u64>)
        ensures
            match self.started_at {
                Some(s) => r == Some(since(s, now) as u64),
                None => r is None,
            },
    {
        match self.started_at {
            Some(s) => Some(now.saturating_sub(s)),
            None => None,
        }
    }
}

// ---------------------------------------------------------------------------
// The batch
// ---------------------------------------------------------------------------

/// A download that is under way: resolving, transferring or waiting to retry.
pub open spec fn is_active(d: ActiveDownload) -> bool {
    d.status == DownloadStatus::Downloading || d.status == DownloadStatus::Resolving
        || d.status == DownloadStatus::Retrying
}

/// The downloads that are under way, in order.
pub open spec fn active_of(ds: Seq<ActiveDownload>) -> Seq<ActiveDownload> {
    ds.filter(|d: ActiveDownload| is_active(d))
}

/// The number of downloads that have finished one way or another.
pub open spec fn finished_count(s: DownloadState) -> int {
    s.completed + s.failed + s.skipped
}

/// The shift `s` (searched upwards from `from`) that brings `k / 100` into
/// the 53-bit significand range: the first with `k * 2^s >= 100 * 2^52`.
pub open spec fn mantissa_shift(k: nat, from: nat) -> nat
    decreases 64 - from,
{
    if from >= 64 || k * pow2(from) >= 100 * pow2(52) {
        from
    } else {
        mantissa_shift(k, from + 1)
    }
}

/// The number of low bits (searched upwards from `from`) that `n` has
/// beyond 53 significant bits: the first `t` with `n < 2^(53 + t)`.
pub open spec fn excess_bits(n: nat, from: nat) -> nat
    decreases 64 - from,
{
    if from >= 64 || n < pow2(53 + from) {
        from
    } else {
        excess_bits(n, from + 1)
    }
}

/// Whether the floating-point product `(k / 100.0) * 100.0` lands below
/// `k` (as for 29, 57, 58, 113, ...): `k / 100` rounded to a double is
/// `m / 2^s`, and `100 * m` rounded to 53 significant bits is compared
/// with `k * 2^s`; both roundings are to nearest, ties to even.
pub open spec fn falls_short(k: nat) -> bool {
    let s = mantissa_shift(k, 0);
    let m = round_half_even(k * pow2(s), 100);
    let n = 100 * m;
    let t = excess_bits(n, 0);
    round_half_even(n, pow2(t)) * pow2(t) < k * pow2(s)
}

/// The share `done` of `total` in whole percent as the floating-point
/// computation `(done as f64 / total as f64 * 100.0) as u16` gives it
/// (zero for a zero total, capped at the largest `u16`): rounded down, and
/// one less when the share is a whole percentage `k` whose floating-point
/// product falls short of `k`.
pub open spec fn percent_of(done: int, total: int) -> int {
    if total == 0 {
        0
    } else {
        let v = done * 100 / total;
        let p = if (done * 100) % total == 0 && 1 <= v <= u16::MAX && falls_short(v as nat) {
            v - 1
        } else {
            v
        };
        if p > u16::MAX {
            u16::MAX as int
        } else {
            p
        }
    }
}

/// Computes `falls_short` for a percentage that fits in a `u16`.
fn falls_short_exec(k: u128) -> (r: bool)
    requires
        1 <= k <= 65535,
    ensures
        r == falls_short(k as nat),
{
    proof {
        lemma2_to64();
        lemma2_to64_rest();
    }
    let limit: u128 = 100 * 0x10_0000_0000_0000;
    let mut s: u128 = 0;
    let mut p2: u128 = 1;
    while s < 64 && k * p2 < limit
        invariant
            1 <= k <= 65535,
            limit == 100 * pow2(52),
            pow2(52) == 0x10_0000_0000_0000,
            s <= 64,
            p2 == pow2(s as nat),
            k * p2 <= 2 * limit,
            mantissa_shift(k as nat, 0) == mantissa_shift(k as nat, s as nat),
        decreases 64 - s,
    {
        proof {
            lemma_pow2_unfold((s + 1) as nat);
            assert(p2 <= k * p2 && k * (p2 * 2) == 2 * (k * p2)) by (nonlinear_arith)
                requires
                    k >= 1,
            ;
        }
        p2 = p2 * 2;
        s = s + 1;
    }
    let ghost sn: nat = s as nat;
    assert(mantissa_shift(k as nat, sn) == sn);
    let m = div_round_half_even(k * p2, 100);
    assert(m <= 0x20_0000_0000_0001) by {
        assert(k * p2 / 100 <= 0x20_0000_0000_0000);
    }
    let n: u128 = 100 * m;
    let mut t: u128 = 0;
    let mut q2: u128 = 1;
    let mut big: u128 = 0x20_0000_0000_0000;
    while t < 64 && n >= big
        invariant
            n == 100 * m,
            m <= 0x20_0000_0000_0001,
            t <= 64,
            q2 == pow2(t as nat),
            big == pow2((53 + t) as nat),
            big == q2 * 0x20_0000_0000_0000,
            big <= 0x1000_0000_0000_0000_0,
            excess_bits(n as nat, 0) == excess_bits(n as nat, t as nat),
        decreases 64 - t,
    {
        proof {
            lemma_pow2_unfold((t + 1) as nat);
            lemma_pow2_unfold((53 + t + 1) as nat);
        }
        q2 = q2 * 2;
        big = big * 2;
        t = t + 1;
    }
    assert(excess_bits(n as nat, t as nat) == t as nat);
    let r = div_round_half_even(n, q2);
    assert(r * q2 <= n + q2) by (nonlinear_arith)
        requires
            r <= n / q2 + 1,
            q2 > 0,
    ;
    r * q2 < k * p2
}

proof fn lemma_shift_of_hundred(s: nat)
    requires
        s <= 52,
    ensures
        mantissa_shift(100, s) == 52,
    decreases 52 - s,
{
    if s < 52 {
        vstd::arithmetic::power2::lemma_pow2_strictly_increases(s, 52);
        lemma_shift_of_hundred(s + 1);
    }
}

/// A whole 100 percent comes out as 100: `(1.0 * 100.0)` is exact.
proof fn lemma_hundred_is_exact()
    ensures
        !falls_short(100),
{
    lemma2_to64();
    lemma2_to64_rest();
    lemma_shift_of_hundred(0);
    let n: nat = 100 * pow2(52);
    assert(round_half_even(100 * pow2(52), 100) == pow2(52));
    assert(excess_bits(n, 6) == 6);
    assert(excess_bits(n, 5) == 6);
    assert(excess_bits(n, 4) == 6);
    assert(excess_bits(n, 3) == 6);
    assert(excess_bits(n, 2) == 6);
    assert(excess_bits(n, 1) == 6);
    assert(excess_bits(n, 0) == 6);
    assert(round_half_even(n, pow2(6)) * pow2(6) == n);
}

/// Computes `percent_of` for a non-zero total.
fn percent_u16(done: u128, total: u128) -> (r: u16)
    requires
        total > 0,
        done * 100 <= u128::MAX,
    ensures
        r == percent_of(done as int, total as int),
{
    let v: u128 = done * 100 / total;
    let p: u128 = if (done * 100) % total == 0 && 1 <= v && v <= 65535 && falls_short_exec(v) {
        v - 1
    } else {
        v
    };
    if p > u16::MAX as u128 {
        u16::MAX
    } else {
        p as u16
    }
}

/// The (completed, failed, skipped) counts after adding a download with
/// this status.
pub open spec fn add_result(c: (nat, nat, nat), s: DownloadStatus) -> (nat, nat, nat) {
    match s {
        DownloadStatus::Complete => (c.0 + 1, c.1, c.2),
        DownloadStatus::Failed => (c.0, c.1 + 1, c.2),
        DownloadStatus::Skipped => (c.0, c.1, c.2 + 1),
        _ => c,
    }
}

/// The results per host, hosts in order of first appearance.
pub open spec fn host_results(ds: Seq<ActiveDownload>) -> Seq<(Seq<char>, (nat, nat, nat))>
    decreases ds.len(),
{
    if ds.len() == 0 {
        Seq::empty()
    } else {
        let prev = host_results(ds.drop_last());
        let d = ds.last();
        let cur: (nat, nat, nat) = match value_of(prev, d.host@) {
            Some(c) => c,
            None => (0, 0, 0),
        };
        stored(prev, d.host@, add_result(cur, d.status))
    }
}

/// Per-host results as natural numbers.
pub open spec fn results_view(e: Seq<(Seq<char>, (usize, usize, usize))>) -> Seq<
    (Seq<char>, (nat, nat, nat)),
> {
    e.map_values(
        |p: (Seq<char>, (usize, usize, usize))| (p.0, (p.1.0 as nat, p.1.1 as nat, p.1.2 as nat)),
    )
}

/// The number of downloads with the given status.
pub open spec fn status_count(ds: Seq<ActiveDownload>, s: DownloadStatus) -> nat
    decreases ds.len(),
{
    if ds.len() == 0 {
        0
    } else {
        status_count(ds.drop_last(), s) + if ds.last().status == s {
            1nat
        } else {
            0nat
        }
    }
}

/// A status that ends a download: complete, failed or skipped.
pub open spec fn is_final_status(s: DownloadStatus) -> bool {
    s == DownloadStatus::Complete || s == DownloadStatus::Failed || s == DownloadStatus::Skipped
}

/// The counters of a batch match the statuses of its downloads.
pub open spec fn counts_match(st: DownloadState) -> bool {
    &&& st.completed == status_count(st.downloads@, DownloadStatus::Complete)
    &&& st.failed == status_count(st.downloads@, DownloadStatus::Failed)
    &&& st.skipped == status_count(st.downloads@, DownloadStatus::Skipped)
}

/// The completed counts of a per-host table added up.
pub open spec fn completed_total(e: Seq<(Seq<char>, (nat, nat, nat))>) -> nat
    decreases e.len(),
{
    if e.len() == 0 {
        0
    } else {
        completed_total(e.drop_last()) + e.last().1.0
    }
}

/// The failed counts of a per-host table added up.
pub open spec fn failed_total(e: Seq<(Seq<char>, (nat, nat, nat))>) -> nat
    decreases e.len(),
{
    if e.len() == 0 {
        0
    } else {
        failed_total(e.drop_last()) + e.last().1.1
    }
}

/// The skipped counts of a per-host table added up.
pub open spec fn skipped_total(e: Seq<(Seq<char>, (nat, nat, nat))>) -> nat
    decreases e.len(),
{
    if e.len() == 0 {
        0
    } else {
        skipped_total(e.drop_last()) + e.last().1.2
    }
}

proof fn lemma_results_key_index(e: Seq<(Seq<char>, (usize, usize, usize))>, k: Seq<char>)
    ensures
        key_index(results_view(e), k) == key_index(e, k),
    decreases e.len(),
{
    if e.len() > 0 {
        assert(results_view(e).drop_last() == results_view(e.drop_last()));
        lemma_results_key_index(e.drop_last(), k);
    }
}

proof fn lemma_results_stored(
    e: Seq<(Seq<char>, (usize, usize, usize))>,
    k: Seq<char>,
    v: (usize, usize, usize),
)
    ensures
        results_view(stored(e, k, v)) == stored(
            results_view(e),
            k,
            (v.0 as nat, v.1 as nat, v.2 as nat),
        ),
        value_of(results_view(e), k) == (match value_of(e, k) {
            Some(c) => Some((c.0 as nat, c.1 as nat, c.2 as nat)),
            None => None,
        }),
{
    lemma_results_key_index(e, k);
    lemma_key_index_bounds(e, k);
    let i = key_index(e, k);
    if i >= 0 {
        assert(results_view(e.update(i, (k, v))) =~= results_view(e).update(
            i,
            (k, (v.0 as nat, v.1 as nat, v.2 as nat)),
        ));
    } else {
        assert(results_view(e.push((k, v))) =~= results_view(e).push(
            (k, (v.0 as nat, v.1 as nat, v.2 as nat)),
        ));
    }
}

proof fn lemma_value_of_stored3(
    e: Seq<(Seq<char>, (nat, nat, nat))>,
    k: Seq<char>,
    v: (nat, nat, nat),
    q: Seq<char>,
)
    ensures
        value_of(stored(e, k, v), q) == (if q == k {
            Some(v)
        } else {
            value_of(e, q)
        }),
{
    crate::tracker::lemma_value_of_stored(e, k, v, q);
}

/// Every count in the per-host table is at most the number of downloads.
proof fn lemma_host_results_bounded(ds: Seq<ActiveDownload>, q: Seq<char>)
    ensures
        match value_of(host_results(ds), q) {
            Some(c) => c.0 <= ds.len() && c.1 <= ds.len() && c.2 <= ds.len(),
            None => true,
        },
    decreases ds.len(),
{
    if ds.len() > 0 {
        let prev = host_results(ds.drop_last());
        let d = ds.last();
        let cur: (nat, nat, nat) = match value_of(prev, d.host@) {
            Some(c) => c,
            None => (0, 0, 0),
        };
        lemma_host_results_bounded(ds.drop_last(), q);
        lemma_host_results_bounded(ds.drop_last(), d.host@);
        lemma_value_of_stored3(prev, d.host@, add_result(cur, d.status), q);
    }
}

impl DownloadState {
    /// The downloads that are under way.
    pub fn active_downloads(&self) -> (r: Vec<&ActiveDownload>)
        ensures
            r@.len() == active_of(self.downloads@).len(),
            forall|i: int| 0 <= i < r@.len() ==> *(#[trigger] r@[i]) == active_of(self.downloads@)[i],
    {
        let mut r: Vec<&ActiveDownload> = Vec::new();
        let n = self.downloads.len();
        for i in 0..n
            invariant
                n == self.downloads@.len(),
                r@.len() == active_of(self.downloads@.take(i as int)).len(),
                forall|j: int|
                    0 <= j < r@.len() ==> *(#[trigger] r@[j]) == active_of(
                        self.downloads@.take(i as int),
                    )[j],
        {
            let d = &self.downloads[i];
            proof {
                assert(self.downloads@.take(i + 1).drop_last() == self.downloads@.take(i as int));
                reveal(Seq::filter);
            }
            if d.status == DownloadStatus::Downloading || d.status == DownloadStatus::Resolving
                || d.status == DownloadStatus::Retrying {
                r.push(d);
            }
        }
        proof {
            assert(self.downloads@.take(n as int) == self.downloads@);
        }
        r
    }

    /// The share of downloads finished, in whole percent.
    pub fn progress_percent(&self) -> (r: u16)
        ensures
            r == percent_of(finished_count(*self), self.total as int),
    {
        if self.total == 0 {
            return 0;
        }
        let done: u128 = self.completed as u128 + self.failed as u128 + self.skipped as u128;
        percent_u16(done, self.total as u128)
    }

    /// The average rate since the batch began.
    pub fn overall_speed(&self, now: u64) -> (r: Rate)
        ensures
            r == (match self.started_at {
                Some(s) => if since(s, now) > 0 {
                    Rate { bytes: self.total_bytes_downloaded, nanos: since(s, now) as u64 }
                } else {
                    Rate { bytes: 0, nanos: 0 }
                },
                None => Rate { bytes: 0, nanos: 0 },
            }),
    {
        match self.started_at {
            Some(s) => {
                let elapsed = now.saturating_sub(s);
                if elapsed > 0 {
                    Rate { bytes: self.total_bytes_downloaded, nanos: elapsed }
                } else {
                    Rate { bytes: 0, nanos: 0 }
                }
            },
            None => Rate { bytes: 0, nanos: 0 },
        }
    }

    /// The time since the batch began (nanoseconds), if it has.
    pub fn elapsed(&self, now: u64) -> (r: Option<u64>)
        ensures
            match self.started_at {
                Some(s) => r == Some(since(s, now) as u64),
                None => r is None,
            },
    {
        match self.started_at {
            Some(s) => Some(now.saturating_sub(s)),
            None => None,
        }
    }

    /// How many downloads of each host completed, failed and were skipped;
    /// every host of the batch appears, in order of first appearance.
    pub fn hosts_summary(&self) -> (r: IndexMap<String, (usize, usize, usize)>)
        ensures
            results_view(host_result_entries(r)) == host_results(self.downloads@),
    {
        let mut m = host_results_new();
        let n = self.downloads.len();
        proof {
            assert(results_view(host_result_entries(m)) =~= Seq::<
                (Seq<char>, (nat, nat, nat)),
            >::empty());
            assert(self.downloads@.take(0) == Seq::<ActiveDownload>::empty());
        }
        for i in 0..n
            invariant
                n == self.downloads@.len(),
                results_view(host_result_entries(m)) == host_results(
                    self.downloads@.take(i as int),
                ),
        {
            let d = &self.downloads[i];
            let ghost ds = self.downloads@.take(i as int);
            let ghost e = host_result_entries(m);
            proof {
                assert(self.downloads@.take(i + 1).drop_last() == ds);
                assert(self.downloads@.take(i + 1).last() == *d);
                lemma_results_stored(e, d.host@, (0, 0, 0));
                lemma_host_results_bounded(ds, d.host@);
            }
            let cur = match host_results_get(&m, d.host.as_str()) {
                Some(c) => c,
                None => (0, 0, 0),
            };
            let next = match d.status {
                DownloadStatus::Complete => (cur.0 + 1, cur.1, cur.2),
                DownloadStatus::Failed => (cur.0, cur.1 + 1, cur.2),
                DownloadStatus::Skipped => (cur.0, cur.1, cur.2 + 1),
                _ => cur,
            };
            proof {
                lemma_results_stored(e, d.host@, next);
            }
            host_results_insert(&mut m, d.host.clone(), next);
        }
        proof {
            assert(self.downloads@.take(n as int) == self.downloads@);
        }
        m
    }
}


// ---------------------------------------------------------------------------
// Starting a batch and recording progress
// ---------------------------------------------------------------------------

/// The position of the first download with this id, or -1.
pub open spec fn find_download(ds: Seq<ActiveDownload>, id: usize) -> int
    decreases ds.len(),
{
    if ds.len() == 0 {
        -1
    } else {
        let j = find_download(ds.drop_last(), id);
        if j >= 0 {
            j
        } else if ds.last().id == id {
            ds.len() - 1
        } else {
            -1
        }
    }
}

proof fn lemma_find_download(ds: Seq<ActiveDownload>, id: usize)
    ensures
        -1 <= find_download(ds, id) < ds.len(),
        find_download(ds, id) >= 0 ==> ds[find_download(ds, id)].id == id,
        find_download(ds, id) == -1 ==> forall|i: int| 0 <= i < ds.len() ==> (#[trigger] ds[i]).id
            != id,
        forall|i: int| 0 <= i < find_download(ds, id) ==> (#[trigger] ds[i]).id != id,
    decreases ds.len(),
{
    if ds.len() > 0 {
        let d = ds.drop_last();
        lemma_find_download(d, id);
        assert forall|i: int| 0 <= i < ds.len() - 1 implies #[trigger] ds[i] == d[i] by {}
        if find_download(d, id) >= 0 {
            assert forall|i: int| 0 <= i < find_download(ds, id) implies (#[trigger] ds[i]).id
                != id by {
                assert(ds[i] == d[i]);
            }
        } else if ds.last().id == id {
            assert forall|i: int| 0 <= i < find_download(ds, id) implies (#[trigger] ds[i]).id
                != id by {
                assert(ds[i] == d[i]);
            }
        } else {
            assert forall|i: int| 0 <= i < ds.len() implies (#[trigger] ds[i]).id != id by {
                if i < ds.len() - 1 {
                    assert(ds[i] == d[i]);
                }
            }
        }
    }
}

/// `d` is the not-yet-started download of track `t`.
pub open spec fn fresh_download(d: ActiveDownload, t: DownloadTrack) -> bool {
    &&& d.id == t.id
    &&& d.name@ == t.name@
    &&& d.era_name@ == t.era_name@
    &&& d.host@ == t.host@
    &&& d.url@ == t.playable_url@
    &&& d.downloaded == 0
    &&& d.total is None
    &&& d.status == DownloadStatus::Pending
    &&& d.started_at is None
    &&& d.speed_samples@.len() == 0
    &&& d.retries == 0
    &&& d.error is None
}

/// The samples after adding one, oldest dropped beyond the limit.
pub open spec fn with_sample(samples: Seq<(u64, u64)>, sample: (u64, u64)) -> Seq<(u64, u64)> {
    let s = samples.push(sample);
    if s.len() > MAX_SPEED_SAMPLES {
        s.remove(0)
    } else {
        s
    }
}

/// What an attempt to fetch a track came to.
pub enum AttemptResult {
    /// The file was written.
    Saved,
    /// The file was left alone (it exists, or its size is out of bounds).
    Skipped,
    /// The attempt failed with this message.
    Error(String),
}

/// What to do after an attempt.
pub enum AttemptStep {
    /// Mark the download complete.
    Complete,
    /// Mark the download skipped.
    Skip,
    /// Mark the download failed with this error; no attempts are left.
    Fail(String),
    /// Mark the download as retrying after `attempts` failed attempts and
    /// wait `wait_secs` seconds before the next one.
    Retry { attempts: usize, wait_secs: u64 },
}

/// The wait before retry number `attempts`: 2 to the power `attempts`
/// seconds (exponential backoff).
pub open spec fn backoff_secs(attempts: nat) -> nat {
    vstd::arithmetic::power2::pow2(attempts)
}

/// The seconds to wait before retry number `attempts`.
pub fn backoff_delay(attempts: usize) -> (secs: u64)
    requires
        attempts < 64,
    ensures
        secs == backoff_secs(attempts as nat),
{
    let mut r: u64 = 1;
    proof {
        vstd::arithmetic::power2::lemma2_to64();
        vstd::arithmetic::power2::lemma2_to64_rest();
    }
    for i in 0..attempts
        invariant
            attempts < 64,
            r == vstd::arithmetic::power2::pow2(i as nat),
            vstd::arithmetic::power2::pow2(63) == 0x8000_0000_0000_0000,
    {
        proof {
            vstd::arithmetic::power2::lemma_pow2_unfold((i + 1) as nat);
            if i + 1 < 63 {
                vstd::arithmetic::power2::lemma_pow2_strictly_increases((i + 1) as nat, 63);
            }
        }
        r = r * 2;
    }
    r
}

/// The decision after an attempt, given how many attempts had failed
/// before it and how many retries are allowed: a saved file completes the
/// download, a skipped one skips it, and a failure is retried after an
/// exponential wait until more failures than allowed retries have occurred.
pub fn after_attempt(attempts: usize, max_retries: usize, result: AttemptResult) -> (r: AttemptStep)
    requires
        result is Error ==> attempts < usize::MAX,
        result is Error && attempts + 1 <= max_retries ==> attempts + 1 < 64,
    ensures
        match result {
            AttemptResult::Saved => r is Complete,
            AttemptResult::Skipped => r is Skip,
            AttemptResult::Error(e) => if attempts + 1 > max_retries {
                r matches AttemptStep::Fail(f) && f@ == e@
            } else {
                r matches AttemptStep::Retry { attempts: a, wait_secs: w } && a == attempts + 1
                    && w == backoff_secs((attempts + 1) as nat)
            },
        },
{
    match result {
        AttemptResult::Saved => AttemptStep::Complete,
        AttemptResult::Skipped => AttemptStep::Skip,
        AttemptResult::Error(e) => {
            let a = attempts + 1;
            if a > max_retries {
                AttemptStep::Fail(e)
            } else {
                AttemptStep::Retry { attempts: a, wait_secs: backoff_delay(a) }
            }
        },
    }
}

/// The batch state after recording a step for the download `id`: the
/// first download with that id takes the new status (and, for a failure,
/// the error; for a retry, the attempt count), and the matching counter
/// goes up by one. Without such a download nothing changes.
pub open spec fn stepped(old: DownloadState, new: DownloadState, id: usize, step: AttemptStep) -> bool {
    let i = find_download(old.downloads@, id);
    &&& new.total == old.total
    &&& new.total_bytes_downloaded == old.total_bytes_downloaded
    &&& new.started_at == old.started_at
    &&& new.downloads@.len() == old.downloads@.len()
    &&& if i < 0 {
        &&& new.downloads@ == old.downloads@
        &&& new.completed == old.completed
        &&& new.failed == old.failed
        &&& new.skipped == old.skipped
    } else {
        let d = old.downloads@[i];
        let nd = new.downloads@[i];
        &&& forall|j: int| 0 <= j < old.downloads@.len() && j != i ==> new.downloads@[j]
            == old.downloads@[j]
        &&& nd.id == d.id && nd.name == d.name && nd.era_name == d.era_name && nd.host == d.host
        &&& nd.url == d.url && nd.downloaded == d.downloaded && nd.total == d.total
        &&& nd.started_at == d.started_at && nd.speed_samples == d.speed_samples
        &&& match step {
            AttemptStep::Complete => {
                &&& nd.status == DownloadStatus::Complete && nd.retries == d.retries
                &&& nd.error == d.error
                &&& new.completed == old.completed + 1 && new.failed == old.failed
                &&& new.skipped == old.skipped
            },
            AttemptStep::Skip => {
                &&& nd.status == DownloadStatus::Skipped && nd.retries == d.retries
                &&& nd.error == d.error
                &&& new.completed == old.completed && new.failed == old.failed
                &&& new.skipped == old.skipped + 1
            },
            AttemptStep::Fail(e) => {
                &&& nd.status == DownloadStatus::Failed && nd.retries == d.retries
                &&& opt_text(nd.error) == Some(e@)
                &&& new.completed == old.completed && new.failed == old.failed + 1
                &&& new.skipped == old.skipped
            },
            AttemptStep::Retry { attempts, wait_secs } => {
                &&& nd.status == DownloadStatus::Retrying && nd.retries == attempts
                &&& nd.error == d.error
                &&& new.completed == old.completed && new.failed == old.failed
                &&& new.skipped == old.skipped
            },
        }
    }
}

pub open spec fn opt_text(o: Option<String>) -> Option<Seq<char>> {
    match o {
        Some(s) => Some(s@),
        None => None,
    }
}

impl DownloadState {
    /// A batch that starts now with the given tracks, all pending.
    pub fn begin(tracks: &Vec<DownloadTrack>, now: u64) -> (s: DownloadState)
        ensures
            s.downloads@.len() == tracks@.len(),
            forall|i: int| 0 <= i < tracks@.len() ==> fresh_download(#[trigger] s.downloads@[i], tracks@[i]),
            s.total == tracks@.len(),
            s.completed == 0 && s.failed == 0 && s.skipped == 0,
            s.total_bytes_downloaded == 0,
            s.started_at == Some(now),
            counts_match(s),
    {
        let mut downloads: Vec<ActiveDownload> = Vec::new();
        let n = tracks.len();
        for i in 0..n
            invariant
                n == tracks@.len(),
                downloads@.len() == i,
                forall|j: int| 0 <= j < i ==> fresh_download(#[trigger] downloads@[j], tracks@[j]),
        {
            let t = &tracks[i];
            downloads.push(
                ActiveDownload {
                    id: t.id,
                    name: t.name.clone(),
                    era_name: t.era_name.clone(),
                    host: t.host.clone(),
                    url: t.playable_url.clone(),
                    downloaded: 0,
                    total: None,
                    status: DownloadStatus::Pending,
                    started_at: None,
                    speed_samples: Vec::new(),
                    retries: 0,
                    error: None,
                },
            );
        }
        proof {
            lemma_pending_counts(downloads@);
        }
        DownloadState {
            downloads,
            completed: 0,
            failed: 0,
            skipped: 0,
            total: n,
            total_bytes_downloaded: 0,
            started_at: Some(now),
        }
    }

    /// The position of the first download with this id.
    pub fn find(&self, id: usize) -> (r: Option<usize>)
        ensures
            match r {
                Some(i) => find_download(self.downloads@, id) == i && i < self.downloads@.len(),
                None => find_download(self.downloads@, id) == -1,
            },
    {
        let n = self.downloads.len();
        proof {
            lemma_find_download(self.downloads@, id);
        }
        for i in 0..n
            invariant
                n == self.downloads@.len(),
                forall|j: int| 0 <= j < i ==> (#[trigger] self.downloads@[j]).id != id,
                -1 <= find_download(self.downloads@, id) < n,
                find_download(self.downloads@, id) >= 0 ==> self.downloads@[find_download(
                    self.downloads@,
                    id,
                )].id == id,
                find_download(self.downloads@, id) == -1 ==> forall|j: int|
                    0 <= j < n ==> (#[trigger] self.downloads@[j]).id != id,
                forall|j: int|
                    0 <= j < find_download(self.downloads@, id) ==> (#[trigger] self.downloads@[j]).id
                        != id,
        {
            if self.downloads[i].id == id {
                return Some(i);
            }
        }
        None
    }

    /// The download `id` starts transferring now.
    pub fn mark_downloading(&mut self, id: usize, now: u64)
        ensures
            final(self).completed == old(self).completed,
            final(self).failed == old(self).failed,
            final(self).skipped == old(self).skipped,
            final(self).total == old(self).total,
            final(self).total_bytes_downloaded == old(self).total_bytes_downloaded,
            final(self).started_at == old(self).started_at,
            ({
                let i = find_download(old(self).downloads@, id);
                if i < 0 {
                    final(self).downloads@ == old(self).downloads@
                } else {
                    final(self).downloads@ == old(self).downloads@.update(
                        i,
                        ActiveDownload {
                            status: DownloadStatus::Downloading,
                            started_at: Some(now),
                            ..old(self).downloads@[i]
                        },
                    )
                }
            }),
    {
        if let Some(i) = self.find(id) {
            let d = &mut self.downloads[i];
            d.status = DownloadStatus::Downloading;
            d.started_at = Some(now);
        }
    }

    /// The expected size of download `id` becomes known (or stays unknown).
    pub fn set_expected_size(&mut self, id: usize, size: Option<u64>)
        ensures
            final(self).completed == old(self).completed,
            final(self).failed == old(self).failed,
            final(self).skipped == old(self).skipped,
            final(self).total == old(self).total,
            final(self).total_bytes_downloaded == old(self).total_bytes_downloaded,
            final(self).started_at == old(self).started_at,
            ({
                let i = find_download(old(self).downloads@, id);
                if i < 0 {
                    final(self).downloads@ == old(self).downloads@
                } else {
                    final(self).downloads@ == old(self).downloads@.update(
                        i,
                        ActiveDownload { total: size, ..old(self).downloads@[i] },
                    )
                }
            }),
    {
        if let Some(i) = self.find(id) {
            let d = &mut self.downloads[i];
            d.total = size;
        }
    }

    /// A chunk of `chunk_len` bytes of download `id` arrived at `now`,
    /// bringing it to `downloaded` bytes: the batch's byte count grows, and
    /// the download records its new size and a speed sample (keeping the
    /// most recent fifty).
    pub fn record_chunk(&mut self, id: usize, chunk_len: u64, downloaded: u64, now: u64)
        requires
            old(self).total_bytes_downloaded + chunk_len <= u64::MAX,
        ensures
            final(self).completed == old(self).completed,
            final(self).failed == old(self).failed,
            final(self).skipped == old(self).skipped,
            final(self).total == old(self).total,
            final(self).total_bytes_downloaded == old(self).total_bytes_downloaded + chunk_len,
            final(self).started_at == old(self).started_at,
            final(self).downloads@.len() == old(self).downloads@.len(),
            ({
                let i = find_download(old(self).downloads@, id);
                if i < 0 {
                    final(self).downloads@ == old(self).downloads@
                } else {
                    let d = old(self).downloads@[i];
                    let nd = final(self).downloads@[i];
                    &&& forall|j: int|
                        0 <= j < old(self).downloads@.len() && j != i ==> final(self).downloads@[j]
                            == old(self).downloads@[j]
                    &&& nd.id == d.id && nd.name == d.name && nd.era_name == d.era_name
                    &&& nd.host == d.host && nd.url == d.url && nd.total == d.total
                    &&& nd.status == d.status && nd.started_at == d.started_at
                    &&& nd.retries == d.retries && nd.error == d.error
                    &&& nd.downloaded == downloaded
                    &&& nd.speed_samples@ == with_sample(d.speed_samples@, (now, downloaded))
                }
            }),
    {
        self.total_bytes_downloaded = self.total_bytes_downloaded + chunk_len;
        if let Some(i) = self.find(id) {
            let d = &mut self.downloads[i];
            d.downloaded = downloaded;
            d.speed_samples.push((now, downloaded));
            if d.speed_samples.len() > MAX_SPEED_SAMPLES {
                d.speed_samples.remove(0);
            }
        }
    }

    /// Records the decision taken after an attempt at download `id`.
    pub fn record_step(&mut self, id: usize, step: AttemptStep)
        requires
            step is Complete ==> old(self).completed < usize::MAX,
            step is Skip ==> old(self).skipped < usize::MAX,
            step is Fail ==> old(self).failed < usize::MAX,
        ensures
            stepped(*old(self), *final(self), id, step),
    {
        let ghost step_copy = step;
        if let Some(i) = self.find(id) {
            match step {
                AttemptStep::Complete => {
                    let d = &mut self.downloads[i];
                    d.status = DownloadStatus::Complete;
                    self.completed = self.completed + 1;
                },
                AttemptStep::Skip => {
                    let d = &mut self.downloads[i];
                    d.status = DownloadStatus::Skipped;
                    self.skipped = self.skipped + 1;
                },
                AttemptStep::Fail(e) => {
                    let d = &mut self.downloads[i];
                    d.status = DownloadStatus::Failed;
                    d.error = Some(e);
                    self.failed = self.failed + 1;
                },
                AttemptStep::Retry { attempts, wait_secs } => {
                    let d = &mut self.downloads[i];
                    d.status = DownloadStatus::Retrying;
                    d.retries = attempts;
                },
            }
        }
    }

    /// Whether every download of a non-empty batch has finished.
    pub fn all_finished(&self) -> (r: bool)
        ensures
            r == (finished_count(*self) >= self.total && self.total > 0),
    {
        let done: u128 = self.completed as u128 + self.failed as u128 + self.skipped as u128;
        done >= self.total as u128 && self.total > 0
    }
}


// ---------------------------------------------------------------------------
// Laws
// ---------------------------------------------------------------------------

/// The per-host table accounts for every finished download: its completed,
/// failed and skipped counts add up to the number of downloads with that
/// status.
pub proof fn lemma_host_results_totals(ds: Seq<ActiveDownload>)
    ensures
        completed_total(host_results(ds)) == status_count(ds, DownloadStatus::Complete),
        failed_total(host_results(ds)) == status_count(ds, DownloadStatus::Failed),
        skipped_total(host_results(ds)) == status_count(ds, DownloadStatus::Skipped),
    decreases ds.len(),
{
    if ds.len() > 0 {
        let prev = host_results(ds.drop_last());
        let d = ds.last();
        lemma_host_results_totals(ds.drop_last());
        lemma_key_index_bounds(prev, d.host@);
        let i = key_index(prev, d.host@);
        let cur: (nat, nat, nat) = match value_of(prev, d.host@) {
            Some(c) => c,
            None => (0, 0, 0),
        };
        let nv = add_result(cur, d.status);
        if i >= 0 {
            lemma_totals_update(prev, i, (d.host@, nv));
        } else {
            assert(prev.push((d.host@, nv)).drop_last() == prev);
        }
    }
}

proof fn lemma_totals_update(e: Seq<(Seq<char>, (nat, nat, nat))>, i: int, kv: (Seq<char>, (nat, nat, nat)))
    requires
        0 <= i < e.len(),
    ensures
        completed_total(e.update(i, kv)) + e[i].1.0 == completed_total(e) + kv.1.0,
        failed_total(e.update(i, kv)) + e[i].1.1 == failed_total(e) + kv.1.1,
        skipped_total(e.update(i, kv)) + e[i].1.2 == skipped_total(e) + kv.1.2,
    decreases e.len(),
{
    if i < e.len() - 1 {
        assert(e.update(i, kv).drop_last() == e.drop_last().update(i, kv));
        lemma_totals_update(e.drop_last(), i, kv);
    } else {
        assert(e.update(i, kv).drop_last() == e.drop_last());
    }
}

proof fn lemma_pending_counts(ds: Seq<ActiveDownload>)
    requires
        forall|j: int| 0 <= j < ds.len() ==> (#[trigger] ds[j]).status == DownloadStatus::Pending,
    ensures
        status_count(ds, DownloadStatus::Complete) == 0,
        status_count(ds, DownloadStatus::Failed) == 0,
        status_count(ds, DownloadStatus::Skipped) == 0,
    decreases ds.len(),
{
    if ds.len() > 0 {
        assert(ds.last() == ds[ds.len() - 1]);
        lemma_pending_counts(ds.drop_last());
    }
}

proof fn lemma_status_count_update(ds: Seq<ActiveDownload>, i: int, x: ActiveDownload, st: DownloadStatus)
    requires
        0 <= i < ds.len(),
    ensures
        status_count(ds.update(i, x), st) + (if ds[i].status == st {
            1int
        } else {
            0int
        }) == status_count(ds, st) + (if x.status == st {
            1int
        } else {
            0int
        }),
    decreases ds.len(),
{
    if i < ds.len() - 1 {
        assert(ds.update(i, x).drop_last() == ds.drop_last().update(i, x));
        lemma_status_count_update(ds.drop_last(), i, x, st);
    } else {
        assert(ds.update(i, x).drop_last() == ds.drop_last());
    }
}

proof fn lemma_final_counts(ds: Seq<ActiveDownload>)
    requires
        forall|j: int| 0 <= j < ds.len() ==> is_final_status(#[trigger] ds[j].status),
    ensures
        status_count(ds, DownloadStatus::Complete) + status_count(ds, DownloadStatus::Failed)
            + status_count(ds, DownloadStatus::Skipped) == ds.len(),
    decreases ds.len(),
{
    if ds.len() > 0 {
        assert(is_final_status(ds[ds.len() - 1].status));
        lemma_final_counts(ds.drop_last());
    }
}

/// Recording a step on a download that has not finished keeps the counters
/// of the batch equal to the numbers of completed, failed and skipped
/// downloads (a batch starts that way: see `begin`).
pub proof fn lemma_step_keeps_counts(old: DownloadState, new: DownloadState, id: usize, step: AttemptStep)
    requires
        counts_match(old),
        stepped(old, new, id, step),
        find_download(old.downloads@, id) >= 0 ==> !is_final_status(
            old.downloads@[find_download(old.downloads@, id)].status,
        ),
    ensures
        counts_match(new),
{
    let i = find_download(old.downloads@, id);
    if i >= 0 {
        lemma_find_download(old.downloads@, id);
        let nd = new.downloads@[i];
        assert(new.downloads@ =~= old.downloads@.update(i, nd));
        lemma_status_count_update(old.downloads@, i, nd, DownloadStatus::Complete);
        lemma_status_count_update(old.downloads@, i, nd, DownloadStatus::Failed);
        lemma_status_count_update(old.downloads@, i, nd, DownloadStatus::Skipped);
    }
}

/// Over any run of recorded steps, each on a download that had not finished
/// yet, a batch that started with matching counters (as `begin` makes it)
/// keeps them matching.
pub proof fn lemma_steps_keep_counts(states: Seq<DownloadState>, ids: Seq<usize>, steps: Seq<AttemptStep>)
    requires
        states.len() == ids.len() + 1,
        steps.len() == ids.len(),
        counts_match(states[0]),
        forall|k: int|
            0 <= k < ids.len() ==> stepped(states[k], #[trigger] states[k + 1], ids[k], steps[k]),
        forall|k: int|
            0 <= k < ids.len() ==> (find_download(#[trigger] states[k].downloads@, ids[k]) >= 0
                ==> !is_final_status(
                states[k].downloads@[find_download(states[k].downloads@, ids[k])].status,
            )),
    ensures
        counts_match(states.last()),
    decreases ids.len(),
{
    if ids.len() > 0 {
        let n = ids.len() - 1;
        let front = states.drop_last();
        assert forall|k: int| 0 <= k < ids.drop_last().len() implies stepped(
            front[k],
            #[trigger] front[k + 1],
            ids.drop_last()[k],
            steps.drop_last()[k],
        ) by {
            assert(front[k + 1] == states[k + 1]);
        }
        assert forall|k: int| 0 <= k < ids.drop_last().len() implies (find_download(
            #[trigger] front[k].downloads@,
            ids.drop_last()[k],
        ) >= 0 ==> !is_final_status(
            front[k].downloads@[find_download(front[k].downloads@, ids.drop_last()[k])].status,
        )) by {
            assert(front[k] == states[k]);
        }
        lemma_steps_keep_counts(front, ids.drop_last(), steps.drop_last());
        assert(front.last() == states[n]);
        assert(stepped(states[n], states[n + 1], ids[n], steps[n]));
        assert(find_download(states[n].downloads@, ids[n]) >= 0 ==> !is_final_status(
            states[n].downloads@[find_download(states[n].downloads@, ids[n])].status,
        ));
        lemma_step_keeps_counts(states[n], states[n + 1], ids[n], steps[n]);
    }
}

/// The active downloads are those being resolved, transferred or retried:
/// each of them has one of these three statuses (so a pending, complete,
/// failed or skipped download is never active), and every download with one
/// of them is among them.
pub proof fn lemma_active_are_under_way(ds: Seq<ActiveDownload>)
    ensures
        forall|j: int|
            0 <= j < active_of(ds).len() ==> {
                let st = (#[trigger] active_of(ds)[j]).status;
                st == DownloadStatus::Downloading || st == DownloadStatus::Resolving || st
                    == DownloadStatus::Retrying
            },
        forall|j: int|
            0 <= j < active_of(ds).len() ==> {
                let st = (#[trigger] active_of(ds)[j]).status;
                st != DownloadStatus::Pending && st != DownloadStatus::Complete && st
                    != DownloadStatus::Failed && st != DownloadStatus::Skipped
            },
        forall|i: int|
            0 <= i < ds.len() && (ds[i].status == DownloadStatus::Downloading || ds[i].status
                == DownloadStatus::Resolving || ds[i].status == DownloadStatus::Retrying)
                ==> #[trigger] active_of(ds).contains(ds[i]),
        active_of(ds).len() <= ds.len(),
{
    #[allow(deprecated)]
    ds.filter_lemma(|d: ActiveDownload| is_active(d));
    assert forall|j: int| 0 <= j < active_of(ds).len() implies {
        let st = (#[trigger] active_of(ds)[j]).status;
        st == DownloadStatus::Downloading || st == DownloadStatus::Resolving || st
            == DownloadStatus::Retrying
    } by {
        assert(is_active(active_of(ds)[j]));
    }
}

/// Changing one download without finishing it, or without changing its
/// status (as marking it downloading, setting its size or recording a chunk
/// do), keeps the counters matching the statuses.
pub proof fn lemma_update_keeps_counts(old: DownloadState, new: DownloadState, i: int, x: ActiveDownload)
    requires
        counts_match(old),
        new.completed == old.completed && new.failed == old.failed && new.skipped == old.skipped,
        0 <= i < old.downloads@.len(),
        new.downloads@ == old.downloads@.update(i, x),
        x.status == old.downloads@[i].status || (!is_final_status(x.status) && !is_final_status(
            old.downloads@[i].status,
        )),
    ensures
        counts_match(new),
{
    lemma_status_count_update(old.downloads@, i, x, DownloadStatus::Complete);
    lemma_status_count_update(old.downloads@, i, x, DownloadStatus::Failed);
    lemma_status_count_update(old.downloads@, i, x, DownloadStatus::Skipped);
}

/// Once every download of a batch whose counters match its statuses has
/// finished, the counters add up to the batch size and progress is 100
/// percent.
pub proof fn lemma_batch_done(s: DownloadState)
    requires
        counts_match(s),
        s.total == s.downloads@.len(),
        s.total > 0,
        forall|j: int| 0 <= j < s.downloads@.len() ==> is_final_status(#[trigger] s.downloads@[j].status),
    ensures
        finished_count(s) == s.total,
        percent_of(finished_count(s), s.total as int) == 100,
{
    lemma_final_counts(s.downloads@);
    lemma_hundred_is_exact();
    let t: int = s.total as int;
    assert(t * 100 / t == 100) by (nonlinear_arith)
        requires t > 0;
}

/// A whole batch run: starting from matching counters (as `begin` makes
/// them) and recording steps only on downloads that have not finished, once
/// every download of a non-empty batch has finished the counters add up to
/// the batch size and progress is 100 percent.
pub proof fn lemma_batch_run_done(states: Seq<DownloadState>, ids: Seq<usize>, steps: Seq<AttemptStep>)
    requires
        states.len() == ids.len() + 1,
        steps.len() == ids.len(),
        counts_match(states[0]),
        forall|k: int|
            0 <= k < ids.len() ==> stepped(states[k], #[trigger] states[k + 1], ids[k], steps[k]),
        forall|k: int|
            0 <= k < ids.len() ==> (find_download(#[trigger] states[k].downloads@, ids[k]) >= 0
                ==> !is_final_status(
                states[k].downloads@[find_download(states[k].downloads@, ids[k])].status,
            )),
        states.last().total == states.last().downloads@.len(),
        states.last().total > 0,
        forall|j: int|
            0 <= j < states.last().downloads@.len() ==> is_final_status(
                #[trigger] states.last().downloads@[j].status,
            ),
    ensures
        finished_count(states.last()) == states.last().total,
        percent_of(finished_count(states.last()), states.last().total as int) == 100,
{
    lemma_steps_keep_counts(states, ids, steps);
    lemma_batch_done(states.last());
}

/// While no more downloads have finished than there are, progress is at
/// most 100 percent.
pub proof fn lemma_percent_bounded(done: int, total: int)
    requires
        0 <= done <= total,
    ensures
        0 <= percent_of(done, total) <= 100,
{
    if total > 0 {
        assert(done * 100 <= total * 100) by (nonlinear_arith)
            requires done <= total;
        assert(done * 100 / total <= 100) by (nonlinear_arith)
            requires done * 100 <= total * 100, total > 0, done >= 0;
        assert(done * 100 / total >= 0) by (nonlinear_arith)
            requires done >= 0, total > 0;
    }
}

/// A download never keeps more than fifty speed samples, and the newest
/// sample is always the one just taken.
pub proof fn lemma_samples_bounded(samples: Seq<(u64, u64)>, sample: (u64, u64))
    requires
        samples.len() <= MAX_SPEED_SAMPLES,
    ensures
        with_sample(samples, sample).len() <= MAX_SPEED_SAMPLES,
        with_sample(samples, sample).last() == sample,
{
    let s = samples.push(sample);
    if s.len() > MAX_SPEED_SAMPLES {
        assert(s.remove(0).last() == s.last());
    }
}

/// Each retry waits twice as long as the one before.
pub proof fn lemma_backoff_doubles(attempts: nat)
    ensures
        backoff_secs(attempts + 1) == 2 * backoff_secs(attempts),
{
    vstd::arithmetic::power2::lemma_pow2_unfold(attempts + 1);
}

/// There is an estimate exactly when the current speed is not zero.
pub proof fn lemma_eta_iff_moving(remaining: nat, r: Rate)
    ensures
        eta_of(remaining, r) is Some <==> (r.bytes > 0 && r.nanos > 0),
{
}

} // verus!
