//! Progress accounting for a download: a byte counter with derived
//! percentage and estimated time remaining, extrapolated linearly from the
//! average throughput since the start.

use vstd::prelude::*;
use vstd::arithmetic::div_mod::lemma_div_is_ordered;

verus! {

/// `std::time::Instant` carried opaquely: the tracker only ever hands it
/// back to the clock to ask how much time has passed.
#[verifier::external_type_specification]
#[verifier::external_body]
pub struct ExInstant(std::time::Instant);

/// Relies on `std::time::Instant::now`: a reading of a monotonic clock.
/// Nothing can be promised of its value.
pub assume_specification[ std::time::Instant::now ]() -> std::time::Instant;

/// Relies on `std::time::Instant::elapsed`: the time since `start`, as an
/// opaque `Duration`. Nothing can be promised of its value.
pub assume_specification[ std::time::Instant::elapsed ](start: &std::time::Instant) -> (r:
    core::time::Duration);

/// Relies on `core::time::Duration::as_millis`: the duration's whole
/// milliseconds. The `Duration` is opaque here, so nothing can be promised
/// of the value.
pub assume_specification[ core::time::Duration::as_millis ](d: &core::time::Duration) -> (r: u128);

/// Accumulates the bytes a download has transferred so far and derives
/// progress figures from them and from elapsed wall-clock time.
pub struct ProgressTracker {
    /// The expected byte count of the whole download; zero when unknown.
    pub total_bytes: u64,
    /// Bytes recorded so far: only ever grows.
    pub downloaded_bytes: u64,
    /// When accounting began.
    pub start_time: std::time::Instant,
}

/// The estimated remaining time in milliseconds, extrapolated linearly from
/// average throughput: `remaining * elapsed / downloaded`, saturated at
/// `u64::MAX`; nothing when no byte has been recorded yet or no byte
/// remains.
pub open spec fn eta_millis_spec(total: u64, downloaded: u64, elapsed_ms: u64) -> Option<u64> {
    if downloaded == 0 || total <= downloaded {
        Option::None
    } else {
        let q = (total - downloaded) * elapsed_ms / (downloaded as int);
        Option::Some(
            if q > u64::MAX {
                u64::MAX
            } else {
                q as u64
            },
        )
    }
}

impl ProgressTracker {
    /// A fresh tracker for a download of `total_bytes` bytes, with nothing
    /// recorded and the clock started now.
    pub fn new(total_bytes: u64) -> (r: Self)
        ensures
            r.total_bytes == total_bytes,
            r.downloaded_bytes == 0,
    {
        ProgressTracker {
            total_bytes,
            downloaded_bytes: 0,
            start_time: std::time::Instant::now(),
        }
    }

    /// Records `bytes` more transferred bytes: the counter grows by exactly
    /// that amount and nothing else changes.
    pub fn add_progress(&mut self, bytes: u64)
        requires
            old(self).downloaded_bytes + bytes <= u64::MAX,
        ensures
            final(self).downloaded_bytes == old(self).downloaded_bytes + bytes,
            final(self).total_bytes == old(self).total_bytes,
            final(self).start_time == old(self).start_time,
    {
        self.downloaded_bytes = self.downloaded_bytes + bytes;
    }

    /// The estimated remaining time for a given elapsed time, exactly as
    /// `eta_millis_spec` states it.
    pub fn eta_from_elapsed(&self, elapsed_ms: u64) -> (r: Option<u64>)
        ensures
            r == eta_millis_spec(self.total_bytes, self.downloaded_bytes, elapsed_ms),
    {
        if self.downloaded_bytes == 0 || self.total_bytes <= self.downloaded_bytes {
            return Option::None;
        }
        let remaining = self.total_bytes - self.downloaded_bytes;
        proof {
            assert((remaining as int) * (elapsed_ms as int) <= u64::MAX * u64::MAX)
                by (nonlinear_arith)
                requires
                    remaining <= u64::MAX,
                    elapsed_ms <= u64::MAX,
            ;
        }
        let q: u128 = (remaining as u128) * (elapsed_ms as u128) / (self.downloaded_bytes as u128);
        if q > u64::MAX as u128 {
            Option::Some(u64::MAX)
        } else {
            Option::Some(q as u64)
        }
    }

    /// The estimated remaining time from the tracker's own clock. The value
    /// depends on when it is asked; what holds of every outcome is stated:
    /// there is an estimate exactly when at least one byte has been recorded
    /// and at least one byte remains.
    pub fn get_eta(&self) -> (r: Option<u64>)
        ensures
            r is Some <==> (self.downloaded_bytes > 0 && self.downloaded_bytes < self.total_bytes),
    {
        let elapsed = self.start_time.elapsed();
        let ms128 = elapsed.as_millis();
        let ms: u64 = if ms128 > u64::MAX as u128 {
            u64::MAX
        } else {
            ms128 as u64
        };
        self.eta_from_elapsed(ms)
    }
}

/// The percentage complete, scaled to whole percent by integer division;
/// zero when the total is unknown or zero.
pub open spec fn percent_spec(downloaded: u64, total: u64) -> int {
    if total == 0 {
        0
    } else {
        100 * downloaded / total as int
    }
}

/// The sum of a sequence of recorded byte counts.
pub open spec fn sum_of(bs: Seq<u64>) -> int
    decreases bs.len(),
{
    if bs.len() == 0 {
        0
    } else {
        sum_of(bs.drop_last()) + bs.last()
    }
}

/// The counter after a sequence of `add_progress` calls, each adding the
/// next recorded byte count.
pub open spec fn downloaded_after(d0: int, bs: Seq<u64>) -> int
    decreases bs.len(),
{
    if bs.len() == 0 {
        d0
    } else {
        downloaded_after(d0, bs.drop_last()) + bs.last()
    }
}

/// For any sequence of recorded byte counts, the counter after all of them
/// equals its starting value plus their sum: recording accumulates exactly
/// the bytes handed to it.
pub proof fn lemma_downloaded_is_sum(d0: int, bs: Seq<u64>)
    ensures
        downloaded_after(d0, bs) == d0 + sum_of(bs),
    decreases bs.len(),
{
    if bs.len() > 0 {
        lemma_downloaded_is_sum(d0, bs.drop_last());
    }
}

/// The percentage complete never decreases as the downloaded byte counter
/// grows.
pub proof fn lemma_percent_monotone(d1: u64, d2: u64, total: u64)
    requires
        d1 <= d2,
    ensures
        percent_spec(d1, total) <= percent_spec(d2, total),
{
    if total > 0 {
        lemma_div_is_ordered(100 * d1, 100 * d2, total as int);
    }
}

} // verus!
