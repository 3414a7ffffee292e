use fasttube_downloader::batch::collect_batch_results;
use fasttube_downloader::batch::filename_from_url;
use fasttube_downloader::batch::join_output_path;
use fasttube_downloader::batch::resolve_max_concurrent;
use fasttube_downloader::downloader::collect_chunk_results;
use fasttube_downloader::downloader::compute_ranges;
use fasttube_downloader::downloader::range_header_value;
use fasttube_downloader::downloader::resolve_connections;
use fasttube_downloader::downloader::select_strategy;
use fasttube_downloader::downloader::u64_to_decimal;
use fasttube_downloader::downloader::ByteRange;
use fasttube_downloader::downloader::DownloadPlan;
use fasttube_downloader::downloader::DownloadStrategy;
use fasttube_downloader::downloader::MultiPartDownloader;
use fasttube_downloader::downloader::MULTI_STREAM_THRESHOLD;
use fasttube_downloader::error::DownloadError;
use fasttube_downloader::probe::interpret_probe;
use fasttube_downloader::probe::parse_content_length;
use fasttube_downloader::probe::header_is_bytes;
use fasttube_downloader::probe::size_or_zero;
use fasttube_downloader::probe::ProbeResult;

fn assert_partition(total: u64, ranges: &[ByteRange]) {
    // Every byte of [0, total) is covered by exactly one range, and no range
    // reaches outside the resource.
    let mut next: u64 = 0;
    for r in ranges {
        if r.start <= r.end {
            assert_eq!(r.start, next, "gap or overlap at offset {}", next);
            assert!(r.end < total);
            next = r.end + 1;
        }
    }
    assert_eq!(next, total, "partition does not reach the end");
}

#[test]
fn partition_even_split() {
    let ranges = compute_ranges(10, 4);
    assert_eq!(ranges.len(), 4);
    assert_eq!(ranges[0], ByteRange { start: 0, end: 2 });
    assert_eq!(ranges[1], ByteRange { start: 3, end: 5 });
    assert_eq!(ranges[2], ByteRange { start: 6, end: 8 });
    assert_eq!(ranges[3], ByteRange { start: 9, end: 9 });
    assert_partition(10, &ranges);
}

#[test]
fn partition_size_below_connection_count() {
    let ranges = compute_ranges(3, 5);
    assert_eq!(ranges.len(), 5);
    assert_eq!(ranges[0], ByteRange { start: 0, end: 0 });
    assert_eq!(ranges[1], ByteRange { start: 1, end: 1 });
    assert_eq!(ranges[2], ByteRange { start: 2, end: 2 });
    // The remaining ranges are degenerate: they hold no bytes.
    assert!(ranges[3].end < ranges[3].start);
    assert!(ranges[4].end < ranges[4].start);
    assert_partition(3, &ranges);
}

#[test]
fn partition_degenerate_even_when_size_exceeds_count() {
    // 5 bytes over 4 connections: the rounded-up chunk length 2 uses up the
    // resource after three ranges, so the last one is degenerate.
    let ranges = compute_ranges(5, 4);
    assert_eq!(ranges.len(), 4);
    assert_eq!(ranges[0], ByteRange { start: 0, end: 1 });
    assert_eq!(ranges[1], ByteRange { start: 2, end: 3 });
    assert_eq!(ranges[2], ByteRange { start: 4, end: 4 });
    assert!(ranges[3].end < ranges[3].start);
    assert_partition(5, &ranges);
}

#[test]
fn partition_single_connection() {
    let ranges = compute_ranges(100, 1);
    assert_eq!(ranges.len(), 1);
    assert_eq!(ranges[0], ByteRange { start: 0, end: 99 });
    assert_partition(100, &ranges);
}

#[test]
fn partition_ten_mib_over_four() {
    let ranges = compute_ranges(10 * 1024 * 1024, 4);
    assert_eq!(ranges.len(), 4);
    assert_eq!(ranges[0], ByteRange { start: 0, end: 2621439 });
    assert_eq!(ranges[1], ByteRange { start: 2621440, end: 5242879 });
    assert_eq!(ranges[2], ByteRange { start: 5242880, end: 7864319 });
    assert_eq!(ranges[3], ByteRange { start: 7864320, end: 10485759 });
    assert_partition(10 * 1024 * 1024, &ranges);
}

#[test]
fn strategy_selection() {
    assert_eq!(MULTI_STREAM_THRESHOLD, 1024 * 1024);
    assert_eq!(select_strategy(true, 1024 * 1024), DownloadStrategy::MultiStream);
    assert_eq!(select_strategy(true, 1024 * 1024 - 1), DownloadStrategy::SingleStream);
    assert_eq!(select_strategy(true, 512000), DownloadStrategy::SingleStream);
    assert_eq!(select_strategy(false, 50 * 1024 * 1024), DownloadStrategy::SingleStream);
    assert_eq!(select_strategy(false, 0), DownloadStrategy::SingleStream);
}

#[test]
fn plan_multi_stream_ten_mib() {
    let d = MultiPartDownloader::new(
        String::from("http://example.com/big.bin"),
        String::from("/tmp/big.bin"),
        4,
        None,
    )
    .unwrap();
    let probe = ProbeResult { total_size: 10 * 1024 * 1024, supports_ranges: true };
    match d.plan(&probe) {
        DownloadPlan::MultiStream { ranges } => {
            assert_eq!(ranges.len(), 4);
            assert_eq!(ranges[0], ByteRange { start: 0, end: 2621439 });
            assert_eq!(ranges[3], ByteRange { start: 7864320, end: 10485759 });
        }
        DownloadPlan::SingleStream => panic!("expected the multi-stream path"),
    }
}

#[test]
fn plan_single_stream_below_threshold() {
    // 500 KiB is below the threshold: one unranged GET regardless of the
    // requested connection count.
    let d = MultiPartDownloader::new(
        String::from("http://example.com/small.bin"),
        String::from("/tmp/small.bin"),
        16,
        None,
    )
    .unwrap();
    let probe = ProbeResult { total_size: 500 * 1024, supports_ranges: true };
    assert_eq!(d.plan(&probe), DownloadPlan::SingleStream);
}

#[test]
fn plan_single_stream_without_range_support() {
    // No accept-ranges support: single-stream even at 50 MiB.
    let d = MultiPartDownloader::new(
        String::from("http://example.com/noranges.bin"),
        String::from("/tmp/noranges.bin"),
        8,
        None,
    )
    .unwrap();
    let probe = ProbeResult { total_size: 50 * 1024 * 1024, supports_ranges: false };
    assert_eq!(d.plan(&probe), DownloadPlan::SingleStream);
}

#[test]
fn speed_limit_is_stored_but_does_not_change_the_plan() {
    let probe = ProbeResult { total_size: 10 * 1024 * 1024, supports_ranges: true };
    let plain = MultiPartDownloader::new(
        String::from("http://example.com/f"),
        String::from("/tmp/f"),
        4,
        None,
    )
    .unwrap();
    let limited = MultiPartDownloader::new(
        String::from("http://example.com/f"),
        String::from("/tmp/f"),
        4,
        Some(500),
    )
    .unwrap();
    assert_eq!(limited.speed_limit_kbps, Some(500));
    assert_eq!(plain.plan(&probe), limited.plan(&probe));
}

#[test]
fn range_header_rendering() {
    let h = range_header_value(&ByteRange { start: 0, end: 2621439 });
    assert_eq!(h, "bytes=0-2621439");
    let h2 = range_header_value(&ByteRange { start: 7864320, end: 10485759 });
    assert_eq!(h2, "bytes=7864320-10485759");
}

#[test]
fn decimal_rendering() {
    assert_eq!(u64_to_decimal(0), "0");
    assert_eq!(u64_to_decimal(7), "7");
    assert_eq!(u64_to_decimal(1048576), "1048576");
    assert_eq!(u64_to_decimal(u64::MAX), "18446744073709551615");
}

#[test]
fn content_length_parsing() {
    assert_eq!(parse_content_length("0"), Some(0));
    assert_eq!(parse_content_length("10485760"), Some(10485760));
    assert_eq!(parse_content_length("+7"), Some(7));
    assert_eq!(parse_content_length("18446744073709551615"), Some(u64::MAX));
    assert_eq!(parse_content_length("18446744073709551616"), None);
    assert_eq!(parse_content_length(""), None);
    assert_eq!(parse_content_length("+"), None);
    assert_eq!(parse_content_length("12a"), None);
    assert_eq!(parse_content_length("-5"), None);
}

#[test]
fn accept_ranges_literal() {
    assert!(header_is_bytes("bytes"));
    assert!(!header_is_bytes("Bytes"));
    assert!(!header_is_bytes("none"));
    assert!(!header_is_bytes(""));
    assert!(!header_is_bytes("bytes "));
}

#[test]
fn probe_interpretation() {
    let ok = interpret_probe(Some("1048576"), Some("bytes")).unwrap();
    assert_eq!(ok, ProbeResult { total_size: 1048576, supports_ranges: true });
    let no_ranges = interpret_probe(Some("1048576"), None).unwrap();
    assert_eq!(no_ranges, ProbeResult { total_size: 1048576, supports_ranges: false });
    let other_token = interpret_probe(Some("1048576"), Some("none")).unwrap();
    assert!(!other_token.supports_ranges);
    assert_eq!(
        interpret_probe(None, Some("bytes")),
        Err(DownloadError::MissingContentLength)
    );
    assert_eq!(
        interpret_probe(Some("not-a-number"), Some("bytes")),
        Err(DownloadError::MissingContentLength)
    );
}

#[test]
fn size_probe_defaults_to_zero() {
    assert_eq!(size_or_zero(Some("12345")), 12345);
    assert_eq!(size_or_zero(Some("junk")), 0);
    assert_eq!(size_or_zero(None), 0);
}

#[test]
fn chunk_failure_surfaces_first_error() {
    // One of 8 chunk fetches fails: the download's outcome is that error;
    // the other chunks' outcomes (their writes) are unaffected.
    let mut results: Vec<Result<(), DownloadError>> = Vec::new();
    for i in 0..8 {
        if i == 3 {
            results.push(Err(DownloadError::Transport(String::from("connection reset"))));
        } else {
            results.push(Ok(()));
        }
    }
    assert_eq!(
        collect_chunk_results(results),
        Err(DownloadError::Transport(String::from("connection reset")))
    );
}

#[test]
fn chunk_success_when_all_succeed() {
    let results: Vec<Result<(), DownloadError>> = vec![Ok(()), Ok(()), Ok(())];
    assert_eq!(collect_chunk_results(results), Ok(()));
}

#[test]
fn chunk_failure_reports_first_of_several() {
    let results: Vec<Result<(), DownloadError>> = vec![
        Ok(()),
        Err(DownloadError::Io(String::from("seek failed"))),
        Err(DownloadError::Transport(String::from("timed out"))),
    ];
    assert_eq!(
        collect_chunk_results(results),
        Err(DownloadError::Io(String::from("seek failed")))
    );
}

#[test]
fn batch_reports_only_successful_paths() {
    let outcomes: Vec<Result<String, DownloadError>> = vec![
        Ok(String::from("/tmp/a.bin")),
        Ok(String::from("/tmp/b.bin")),
        Ok(String::from("/tmp/c.bin")),
    ];
    assert_eq!(
        collect_batch_results(outcomes),
        Ok(vec![
            String::from("/tmp/a.bin"),
            String::from("/tmp/b.bin"),
            String::from("/tmp/c.bin"),
        ])
    );
}

#[test]
fn batch_failure_hides_sibling_successes() {
    // A batch of 3 with one failure fails as a whole; the files already
    // written for the 2 successes stay on disk but are not reported.
    let outcomes: Vec<Result<String, DownloadError>> = vec![
        Ok(String::from("/tmp/a.bin")),
        Err(DownloadError::Transport(String::from("dns failure"))),
        Ok(String::from("/tmp/c.bin")),
    ];
    assert_eq!(
        collect_batch_results(outcomes),
        Err(DownloadError::Transport(String::from("dns failure")))
    );
}

#[test]
fn filename_derivation() {
    assert_eq!(filename_from_url("http://example.com/dir/file.bin"), "file.bin");
    assert_eq!(filename_from_url("file.bin"), "file.bin");
    assert_eq!(filename_from_url("http://example.com/dir/"), "");
    assert_eq!(filename_from_url(""), "");
}

#[test]
fn output_path_joining() {
    assert_eq!(join_output_path("/tmp/out", "f.bin"), "/tmp/out/f.bin");
    assert_eq!(join_output_path("/tmp/out/", "f.bin"), "/tmp/out/f.bin");
    assert_eq!(join_output_path("", "f.bin"), "f.bin");
}

#[test]
fn connection_defaults() {
    assert_eq!(resolve_connections(None), 16);
    assert_eq!(resolve_connections(Some(4)), 4);
    assert_eq!(resolve_max_concurrent(None), 3);
    assert_eq!(resolve_max_concurrent(Some(2)), 2);
}

#[test]
fn error_messages() {
    assert_eq!(
        DownloadError::MissingContentLength.message(),
        "Failed to get content length"
    );
    assert_eq!(
        DownloadError::Transport(String::from("timed out")).message(),
        "timed out"
    );
    assert_eq!(DownloadError::Io(String::from("disk full")).message(), "disk full");
}
