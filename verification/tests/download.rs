//! Downloader decision tests: segment splitting, `Content-Range` parsing,
//! parallelisation and retry backoff.

use wanted::engine::download::{backoff_millis, use_parallel, Segment, PARALLEL_MIN_BYTES};
use wanted::engine::{RealDownloader, Url};

#[test]
fn segment_ranges_covers_whole_file_in_worker_ranges() {
    assert_eq!(
        RealDownloader::segment_ranges(100, 4),
        vec![(0, 24), (25, 49), (50, 74), (75, 99)]
    );
}

#[test]
fn segment_ranges_drops_empty_tail_for_small_files() {
    assert_eq!(
        RealDownloader::segment_ranges(10, 4),
        vec![(0, 2), (3, 5), (6, 8), (9, 9)]
    );
}

#[test]
fn content_range_total_parses_tail_segment() {
    assert_eq!(
        RealDownloader::content_range_total(Some("bytes 0-0/135468")),
        Some(135468)
    );
    assert_eq!(RealDownloader::content_range_total(Some("bytes 0-1/*")), None);
    assert_eq!(RealDownloader::content_range_total(None), None);
}

#[test]
fn segment_ranges_single_worker_takes_everything() {
    assert_eq!(RealDownloader::segment_ranges(7, 1), vec![(0, 6)]);
    assert_eq!(RealDownloader::segment_ranges(3, 8), vec![(0, 0), (1, 1), (2, 2)]);
}

#[test]
fn content_range_total_trims_and_rejects_overflow() {
    assert_eq!(RealDownloader::content_range_total(Some("bytes 0-0/ 42 ")), Some(42));
    assert_eq!(RealDownloader::content_range_total(Some("+7")), Some(7));
    assert_eq!(
        RealDownloader::content_range_total(Some("bytes 0-0/18446744073709551616")),
        None
    );
}

#[test]
fn with_workers_keeps_at_least_one() {
    assert_eq!(RealDownloader::with_workers(0).workers(), 1);
    assert_eq!(RealDownloader::with_workers(6).workers(), 6);
    assert_eq!(RealDownloader::default().workers(), 4);
}

#[test]
fn backoff_doubles_and_caps() {
    assert_eq!(backoff_millis(1), 200);
    assert_eq!(backoff_millis(2), 400);
    assert_eq!(backoff_millis(3), 800);
    assert_eq!(backoff_millis(4), 1600);
    assert_eq!(backoff_millis(9), 2000);
}

#[test]
fn only_large_ranged_downloads_go_parallel() {
    assert!(use_parallel(Some(PARALLEL_MIN_BYTES)));
    assert!(!use_parallel(Some(PARALLEL_MIN_BYTES - 1)));
    assert!(!use_parallel(None));
}

#[test]
fn segment_range_header_and_take_length() {
    let s = Segment::new(Url::new("https://ex/a".to_string()), 10, 19);
    assert_eq!(s.range(), "bytes=10-19");
    assert_eq!(s.len(), 10);
    assert_eq!(s.take_length(64, 4), 6);
    assert_eq!(s.take_length(3, 4), 3);
}

#[test]
fn segment_ranges_split_the_largest_size() {
    let r = RealDownloader::segment_ranges(u64::MAX, 4);
    assert_eq!(r.len(), 4);
    assert_eq!(r[0], (0, 4611686018427387903));
    assert_eq!(r[1].0, 4611686018427387904);
    assert_eq!(r[3], (13835058055282163712, u64::MAX - 1));
}
