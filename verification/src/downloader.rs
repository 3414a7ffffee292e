//! Strategy selection and byte-range partitioning for multi-part downloads.

use vstd::prelude::*;
use vstd::arithmetic::div_mod::lemma_fundamental_div_mod;
use vstd::arithmetic::div_mod::lemma_fundamental_div_mod_converse;
use vstd::arithmetic::mul::lemma_mul_inequality;

verus! {

/// Files at least this large (in bytes) are eligible for multi-stream download.
pub const MULTI_STREAM_THRESHOLD: u64 = 1024 * 1024;

/// How a download is to be performed: one plain GET, or several ranged GETs.
#[derive(Clone, Copy, Debug, PartialEq, Eq, Structural)]
pub enum DownloadStrategy {
    SingleStream,
    MultiStream,
}

/// Picks the download strategy from what the probe learned: multi-stream
/// exactly when the server supports byte ranges and the file is at least
/// `MULTI_STREAM_THRESHOLD` bytes.
pub fn select_strategy(supports_ranges: bool, total_size: u64) -> (r: DownloadStrategy)
    ensures
        r == DownloadStrategy::MultiStream <==> (supports_ranges && total_size
            >= MULTI_STREAM_THRESHOLD),
{
    if !supports_ranges || total_size < MULTI_STREAM_THRESHOLD {
        DownloadStrategy::SingleStream
    } else {
        DownloadStrategy::MultiStream
    }
}

/// One contiguous slice of the resource's byte offsets, with `end` inclusive.
/// A range with `end < start` holds no bytes; partitioning a small file over
/// many connections produces such degenerate ranges, which workers skip.
#[derive(Clone, Copy, Debug, PartialEq, Eq, Structural)]
pub struct ByteRange {
    pub start: u64,
    pub end: u64,
}

/// The common chunk length: `total` divided by `conns`, rounded up.
pub open spec fn chunk_size_spec(total: u64, conns: usize) -> int
    recommends
        conns >= 1,
{
    total as int / conns as int + if total as int % conns as int == 0 {
        0int
    } else {
        1int
    }
}

/// Where the `i`-th chunk begins.
pub open spec fn range_start_spec(total: u64, conns: usize, i: int) -> int {
    i * chunk_size_spec(total, conns)
}

/// Where the `i`-th chunk ends (inclusive): one chunk length on, clamped to
/// the last byte of the resource.
pub open spec fn range_end_spec(total: u64, conns: usize, i: int) -> int {
    let e = range_start_spec(total, conns, i) + chunk_size_spec(total, conns) - 1;
    if e <= total - 1 {
        e
    } else {
        total - 1
    }
}

/// Whether byte offset `b` falls inside the `i`-th chunk.
pub open spec fn range_covers(total: u64, conns: usize, i: int, b: int) -> bool {
    range_start_spec(total, conns, i) <= b <= range_end_spec(total, conns, i)
}

/// Whether `ranges` is the partition of `[0, total)` into `conns` chunks:
/// one range per connection, each at its computed start and clamped end.
pub open spec fn ranges_match_partition(total: u64, conns: usize, ranges: Seq<ByteRange>) -> bool {
    &&& ranges.len() == conns
    &&& forall|i: int|
        0 <= i < ranges.len() ==> (#[trigger] ranges[i]).start == range_start_spec(total, conns, i)
            && ranges[i].end == range_end_spec(total, conns, i)
}

/// Whether byte offset `b` falls inside `ranges[i]`.
pub open spec fn range_holds(ranges: Seq<ByteRange>, i: int, b: int) -> bool {
    0 <= i < ranges.len() && ranges[i].start <= b <= ranges[i].end
}

/// Whether some range of `ranges` holds byte offset `b`.
pub open spec fn some_range_holds(ranges: Seq<ByteRange>, b: int) -> bool {
    exists|i: int| #[trigger] range_holds(ranges, i, b)
}

/// The rounded-up chunk length is at least 1 and `conns` chunks of it cover
/// the whole size without reaching a full extra chunk past it.
proof fn lemma_chunk_size_bounds(total: u64, conns: usize)
    requires
        conns >= 1,
        total >= 1,
    ensures
        1 <= chunk_size_spec(total, conns),
        total <= conns * chunk_size_spec(total, conns) <= total + conns - 1,
{
    let t = total as int;
    let c = conns as int;
    let q = t / c;
    let r = t % c;
    lemma_fundamental_div_mod(t, c);
    assert(t == q * c + r);
    if r == 0 {
        assert(conns * chunk_size_spec(total, conns) == c * q);
        assert(c * q == q * c) by (nonlinear_arith);
        assert(q >= 1) by {
            if q <= 0 {
                assert(q * c <= 0) by (nonlinear_arith)
                    requires
                        q <= 0,
                        c >= 1,
                ;
            }
        }
    } else {
        assert(conns * chunk_size_spec(total, conns) == c * (q + 1));
        assert(c * (q + 1) == q * c + c) by (nonlinear_arith);
        assert(q >= 0) by {
            if q < 0 {
                assert(q * c <= -c) by (nonlinear_arith)
                    requires
                        q <= -1,
                        c >= 1,
                ;
            }
        }
    }
}

/// Whether byte offset `b` falls inside at least one of the partition ranges.
pub open spec fn covered_by_some_range(total: u64, conns: usize, b: int) -> bool {
    exists|i: int| 0 <= i < conns && #[trigger] range_covers(total, conns, i, b)
}

/// Every byte offset of `[0, total_size)` falls inside exactly one of the
/// `connections` partition ranges, and no range reaches outside
/// `[0, total_size)`: the ranges are pairwise disjoint and their union is
/// exactly the resource, for every size and connection count, however small
/// the size is relative to the count.
pub proof fn lemma_partition_covers(total: u64, conns: usize)
    requires
        conns >= 1,
        total >= 1,
    ensures
        forall|b: int| 0 <= b < total ==> #[trigger] covered_by_some_range(total, conns, b),
        forall|i: int, j: int, b: int|
            0 <= i < conns && 0 <= j < conns && #[trigger] range_covers(total, conns, i, b)
                && #[trigger] range_covers(total, conns, j, b) ==> i == j,
        forall|i: int, b: int|
            0 <= i < conns && #[trigger] range_covers(total, conns, i, b) ==> 0 <= b < total,
{
    lemma_chunk_size_bounds(total, conns);
    let cs = chunk_size_spec(total, conns);
    assert forall|b: int| 0 <= b < total implies #[trigger] covered_by_some_range(
        total,
        conns,
        b,
    ) by {
        let i = b / cs;
        lemma_fundamental_div_mod(b, cs);
        assert(b == i * cs + b % cs);
        assert(i >= 0) by {
            if i < 0 {
                assert(i * cs <= -cs) by (nonlinear_arith)
                    requires
                        i <= -1,
                        cs >= 1,
                ;
            }
        }
        assert(i < conns) by {
            if i >= conns {
                lemma_mul_inequality(conns as int, i, cs);
                assert(conns as int * cs <= i * cs);
            }
        }
        assert(range_covers(total, conns, i, b));
    }
    assert forall|i: int, j: int, b: int|
        0 <= i < conns && 0 <= j < conns && #[trigger] range_covers(total, conns, i, b)
            && #[trigger] range_covers(total, conns, j, b) implies i == j by {
        lemma_range_index_unique(total, conns, i, b);
        lemma_range_index_unique(total, conns, j, b);
    }
    assert forall|i: int, b: int|
        0 <= i < conns && #[trigger] range_covers(total, conns, i, b) implies 0 <= b < total by {
        assert(range_start_spec(total, conns, i) >= 0) by {
            assert(i * cs >= 0) by (nonlinear_arith)
                requires
                    i >= 0,
                    cs >= 1,
            ;
        }
    }
}

/// A byte offset inside the `i`-th range determines `i`: it is the quotient
/// of the offset by the chunk length.
proof fn lemma_range_index_unique(total: u64, conns: usize, i: int, b: int)
    requires
        conns >= 1,
        total >= 1,
        0 <= i < conns,
        range_covers(total, conns, i, b),
    ensures
        i == b / chunk_size_spec(total, conns),
{
    lemma_chunk_size_bounds(total, conns);
    let cs = chunk_size_spec(total, conns);
    let r = b - i * cs;
    assert(0 <= r < cs);
    lemma_fundamental_div_mod_converse(b, cs, i, r);
}

/// A produced partition is exact: every byte offset of `[0, total)` lies in
/// at least one of its ranges, no offset lies in two distinct ranges, and no
/// range holds an offset outside the resource — the ranges are pairwise
/// disjoint and their union is exactly `[0, total)`, for every size and
/// connection count.
pub proof fn lemma_partition_is_exact(total: u64, conns: usize, ranges: Seq<ByteRange>)
    requires
        conns >= 1,
        total >= 1,
        ranges_match_partition(total, conns, ranges),
    ensures
        forall|b: int| 0 <= b < total ==> #[trigger] some_range_holds(ranges, b),
        forall|i: int, j: int, b: int|
            #[trigger] range_holds(ranges, i, b) && #[trigger] range_holds(ranges, j, b) ==> i
                == j,
        forall|i: int, b: int| #[trigger] range_holds(ranges, i, b) ==> 0 <= b < total,
{
    lemma_partition_covers(total, conns);
    assert forall|b: int| 0 <= b < total implies #[trigger] some_range_holds(ranges, b) by {
        assert(covered_by_some_range(total, conns, b));
        let i = choose|i: int| 0 <= i < conns && #[trigger] range_covers(total, conns, i, b);
        assert(range_holds(ranges, i, b));
    }
    assert forall|i: int, j: int, b: int|
        #[trigger] range_holds(ranges, i, b) && #[trigger] range_holds(ranges, j, b) implies i
        == j by {
        assert(range_covers(total, conns, i, b));
        assert(range_covers(total, conns, j, b));
    }
    assert forall|i: int, b: int| #[trigger] range_holds(ranges, i, b) implies 0 <= b < total by {
        assert(range_covers(total, conns, i, b));
    }
}

/// When every range starts within the resource — which holds whenever the
/// size is at least the connection count and the rounded-up chunk length does
/// not overshoot — every range holds at least one byte: `end >= start` for
/// each of them.
pub proof fn lemma_partition_nonempty(total: u64, conns: usize, ranges: Seq<ByteRange>)
    requires
        conns >= 1,
        total >= conns,
        (conns - 1) * chunk_size_spec(total, conns) <= total - 1,
        ranges_match_partition(total, conns, ranges),
    ensures
        forall|i: int| 0 <= i < ranges.len() ==> (#[trigger] ranges[i]).start <= ranges[i].end,
{
    lemma_chunk_size_bounds(total, conns);
    let cs = chunk_size_spec(total, conns);
    assert forall|i: int| 0 <= i < ranges.len() implies (#[trigger] ranges[i]).start
        <= ranges[i].end by {
        lemma_mul_inequality(i, conns as int - 1, cs);
    }
}

/// Partitions `[0, total_size)` into exactly `connections` contiguous ranges
/// of the rounded-up common chunk length, the last clamped to end at
/// `total_size - 1`.
pub fn compute_ranges(total_size: u64, connections: usize) -> (r: Vec<ByteRange>)
    requires
        connections >= 1,
        total_size >= 1,
        total_size + connections - 1 <= u64::MAX,
    ensures
        ranges_match_partition(total_size, connections, r@),
{
    proof {
        lemma_chunk_size_bounds(total_size, connections);
    }
    let conns_u64 = connections as u64;
    let cs: u64 = total_size / conns_u64 + (if total_size % conns_u64 == 0 {
        0
    } else {
        1
    });
    assert(cs == chunk_size_spec(total_size, connections));
    let mut ranges: Vec<ByteRange> = Vec::new();
    let mut i: usize = 0;
    while i < connections
        invariant
            i <= connections,
            cs == chunk_size_spec(total_size, connections),
            1 <= cs,
            total_size >= 1,
            connections >= 1,
            connections * cs as int <= total_size + connections - 1,
            total_size + connections - 1 <= u64::MAX,
            ranges@.len() == i,
            forall|j: int|
                0 <= j < i ==> (#[trigger] ranges@[j]).start == range_start_spec(
                    total_size,
                    connections,
                    j,
                ) && ranges@[j].end == range_end_spec(total_size, connections, j),
        decreases connections - i,
    {
        proof {
            lemma_mul_inequality(i as int + 1, connections as int, cs as int);
            assert((i as int) * (cs as int) + cs == (i as int + 1) * (cs as int))
                by (nonlinear_arith);
            assert((i as int) * (cs as int) >= 0) by (nonlinear_arith)
                requires
                    i >= 0,
                    cs >= 1,
            ;
        }
        let start: u64 = (i as u64) * cs;
        let unclamped: u64 = start + cs - 1;
        let end: u64 = if unclamped <= total_size - 1 {
            unclamped
        } else {
            total_size - 1
        };
        ranges.push(ByteRange { start, end });
        i = i + 1;
    }
    ranges
}

/// One download's immutable description: where to fetch from, where to
/// write, how many connections to use, and an accepted-but-unenforced speed
/// limit in KB/s.
#[derive(Clone, Debug, PartialEq, Eq)]
pub struct MultiPartDownloader {
    pub url: String,
    pub output_path: String,
    pub connections: usize,
    pub speed_limit_kbps: Option<u64>,
}

/// How one download is to be executed: a single plain GET streamed in order,
/// or one ranged GET per partition range, fetched concurrently.
#[derive(Clone, Debug, PartialEq, Eq)]
pub enum DownloadPlan {
    SingleStream,
    MultiStream { ranges: Vec<ByteRange> },
}

/// Whether a probe outcome selects the multi-stream path: range support
/// announced and at least `MULTI_STREAM_THRESHOLD` bytes to fetch.
pub open spec fn multi_stream_selected(probe: crate::probe::ProbeResult) -> bool {
    probe.supports_ranges && probe.total_size >= MULTI_STREAM_THRESHOLD
}

impl MultiPartDownloader {
    /// Builds a download description. Never fails; the `Result` mirrors the
    /// entry point's shape.
    pub fn new(
        url: String,
        output_path: String,
        connections: usize,
        speed_limit_kbps: Option<u64>,
    ) -> (r: Result<Self, crate::error::DownloadError>)
        ensures
            r is Ok,
            r->Ok_0.url == url,
            r->Ok_0.output_path == output_path,
            r->Ok_0.connections == connections,
            r->Ok_0.speed_limit_kbps == speed_limit_kbps,
    {
        Result::Ok(
            MultiPartDownloader { url, output_path, connections, speed_limit_kbps },
        )
    }

    /// Decides how this download proceeds from what the probe learned:
    /// single-stream unless the server supports ranges and the file is at
    /// least the threshold size, else one partition range per connection.
    pub fn plan(&self, probe: &crate::probe::ProbeResult) -> (r: DownloadPlan)
        requires
            multi_stream_selected(*probe) ==> self.connections >= 1 && probe.total_size
                + self.connections - 1 <= u64::MAX,
        ensures
            r is SingleStream <==> !multi_stream_selected(*probe),
            r is MultiStream ==> ranges_match_partition(
                probe.total_size,
                self.connections,
                r->MultiStream_ranges@,
            ),
    {
        let strategy = select_strategy(probe.supports_ranges, probe.total_size);
        match strategy {
            DownloadStrategy::SingleStream => DownloadPlan::SingleStream,
            DownloadStrategy::MultiStream => {
                let ranges = compute_ranges(probe.total_size, self.connections);
                DownloadPlan::MultiStream { ranges }
            },
        }
    }
}

/// Folds the per-chunk outcomes into the download's outcome: success only
/// when every chunk succeeded, else the first error in chunk order. Chunks
/// already written stay written; nothing is rolled back.
pub fn collect_chunk_results(results: Vec<Result<(), crate::error::DownloadError>>) -> (r: Result<
    (),
    crate::error::DownloadError,
>)
    ensures
        r is Ok <==> (forall|i: int| 0 <= i < results@.len() ==> (#[trigger] results@[i]) is Ok),
        r is Err ==> exists|i: int|
            0 <= i < results@.len() && (#[trigger] results@[i]) is Err && r->Err_0
                == results@[i]->Err_0 && (forall|j: int| 0 <= j < i ==> results@[j] is Ok),
{
    let ghost orig = results@;
    let mut v = results;
    let n = v.len();
    proof {
        assert(orig.len() == n);
    }
    let mut k: usize = 0;
    while v.len() > 0
        invariant
            orig == results@,
            orig.len() <= usize::MAX,
            v@ =~= orig.subrange(k as int, orig.len() as int),
            k <= orig.len(),
            forall|j: int| 0 <= j < k ==> (#[trigger] orig[j]) is Ok,
        decreases v@.len(),
    {
        let x = v.remove(0);
        proof {
            assert(x == orig[k as int]);
            assert(v@ =~= orig.subrange(k as int + 1, orig.len() as int));
        }
        match x {
            Result::Ok(_) => {
                k = k + 1;
            },
            Result::Err(e) => {
                proof {
                    assert(orig[k as int] is Err);
                }
                return Result::Err(e);
            },
        }
    }
    Result::Ok(())
}

/// The ASCII character for the decimal digit `d`.
pub open spec fn dec_digit_char(d: int) -> char
    recommends
        0 <= d <= 9,
{
    if d == 0 {
        '0'
    } else if d == 1 {
        '1'
    } else if d == 2 {
        '2'
    } else if d == 3 {
        '3'
    } else if d == 4 {
        '4'
    } else if d == 5 {
        '5'
    } else if d == 6 {
        '6'
    } else if d == 7 {
        '7'
    } else if d == 8 {
        '8'
    } else {
        '9'
    }
}

/// The decimal numeral for `n`, most significant digit first, with no
/// leading zeros (a single `0` for zero).
pub open spec fn dec_str(n: int) -> Seq<char>
    recommends
        n >= 0,
    decreases n,
{
    if n < 10 {
        seq![dec_digit_char(n)]
    } else {
        dec_str(n / 10).push(dec_digit_char(n % 10))
    }
}

/// The HTTP Range header value asking for the inclusive byte range
/// `start` to `end`: `bytes=<start>-<end>`.
pub open spec fn range_header_spec(start: u64, end: u64) -> Seq<char> {
    "bytes="@ + dec_str(start as int) + "-"@ + dec_str(end as int)
}

/// The one-character string for the decimal digit `n % 10`.
fn last_digit_str(n: u64) -> (r: &'static str)
    ensures
        r@ == seq![dec_digit_char(n as int % 10)],
{
    let d = n % 10;
    if d == 0 {
        proof {
            reveal_strlit("0");
        }
        let r = "0";
        assert(r@ =~= seq![dec_digit_char(n as int % 10)]);
        r
    } else if d == 1 {
        proof {
            reveal_strlit("1");
        }
        let r = "1";
        assert(r@ =~= seq![dec_digit_char(n as int % 10)]);
        r
    } else if d == 2 {
        proof {
            reveal_strlit("2");
        }
        let r = "2";
        assert(r@ =~= seq![dec_digit_char(n as int % 10)]);
        r
    } else if d == 3 {
        proof {
            reveal_strlit("3");
        }
        let r = "3";
        assert(r@ =~= seq![dec_digit_char(n as int % 10)]);
        r
    } else if d == 4 {
        proof {
            reveal_strlit("4");
        }
        let r = "4";
        assert(r@ =~= seq![dec_digit_char(n as int % 10)]);
        r
    } else if d == 5 {
        proof {
            reveal_strlit("5");
        }
        let r = "5";
        assert(r@ =~= seq![dec_digit_char(n as int % 10)]);
        r
    } else if d == 6 {
        proof {
            reveal_strlit("6");
        }
        let r = "6";
        assert(r@ =~= seq![dec_digit_char(n as int % 10)]);
        r
    } else if d == 7 {
        proof {
            reveal_strlit("7");
        }
        let r = "7";
        assert(r@ =~= seq![dec_digit_char(n as int % 10)]);
        r
    } else if d == 8 {
        proof {
            reveal_strlit("8");
        }
        let r = "8";
        assert(r@ =~= seq![dec_digit_char(n as int % 10)]);
        r
    } else {
        proof {
            reveal_strlit("9");
        }
        let r = "9";
        assert(r@ =~= seq![dec_digit_char(n as int % 10)]);
        r
    }
}

/// Renders `n` as its decimal numeral.
pub fn u64_to_decimal(n: u64) -> (r: String)
    ensures
        r@ == dec_str(n as int),
    decreases n,
{
    let digit = last_digit_str(n);
    if n < 10 {
        assert(n as int % 10 == n as int);
        digit.to_owned()
    } else {
        let mut prefix = u64_to_decimal(n / 10);
        prefix.append(digit);
        assert(prefix@ =~= dec_str(n as int));
        prefix
    }
}

/// Builds the Range header value a chunk fetch sends:
/// `bytes=<start>-<end>`, both bounds inclusive.
pub fn range_header_value(range: &ByteRange) -> (r: String)
    ensures
        r@ == range_header_spec(range.start, range.end),
{
    let mut r = String::from_str("bytes=");
    let start_str = u64_to_decimal(range.start);
    r.append(start_str.as_str());
    r.append("-");
    let end_str = u64_to_decimal(range.end);
    r.append(end_str.as_str());
    assert(r@ =~= range_header_spec(range.start, range.end));
    r
}

/// The connection count used when the caller names none.
pub const DEFAULT_CONNECTIONS: usize = 16;

/// The connection count a download runs with: the caller's choice, or the
/// default of 16.
pub fn resolve_connections(requested: Option<usize>) -> (r: usize)
    ensures
        requested is Some ==> r == requested->0,
        requested is None ==> r == DEFAULT_CONNECTIONS,
{
    match requested {
        Option::Some(n) => n,
        Option::None => DEFAULT_CONNECTIONS,
    }
}

} // verus!
