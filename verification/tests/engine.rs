//! The transfer strategies' accounting and the manager's submission rules.
use segfetch::manager::{DownloadError, DownloadManager, Job};
use segfetch::meta::{partition, Location};
use segfetch::schema::{schema_of, Schema};
use segfetch::transfer::{buffered_copy, spliced_copy, SpliceLoop, PIPE_BUF};

fn location_with_scheme(scheme: &str) -> Location {
    Location {
        scheme: scheme.as_bytes().to_vec(),
        host: b"example.com".to_vec(),
        port: None,
        path: b"/file.bin".to_vec(),
        query: None,
        fragment: None,
    }
}

fn body(n: usize) -> Vec<u8> {
    (0..n).map(|i| (i % 251) as u8).collect()
}

#[test]
fn buffered_copy_delivers_body_and_counts() {
    let input = body(10_000);
    let mut segs = partition(10_000, 10_000);
    let out = buffered_copy(&input, 4096, &mut segs[0]);
    assert_eq!(out, input);
    assert_eq!(segs[0].downloaded, 10_000);
}

#[test]
fn spliced_copy_delivers_prefill_then_rest() {
    let input = body(10_000);
    let mut segs = partition(10_000, 10_000);
    let prefill = input[..700].to_vec();
    let rest = input[700..].to_vec();
    let out = spliced_copy(&prefill, &rest, &mut segs[0]);
    assert_eq!(out, input);
    assert_eq!(segs[0].downloaded, 10_000);
}

#[test]
fn transfer_paths_write_identical_bytes() {
    let input = body(33_000);
    for split in [0, 1, 700, 4096, 32_999, 33_000] {
        let mut a = partition(33_000, 33_000);
        let buffered = buffered_copy(&input, 1024, &mut a[0]);
        let mut b = partition(33_000, 33_000);
        let spliced = spliced_copy(
            &input[..split].to_vec(),
            &input[split..].to_vec(),
            &mut b[0],
        );
        assert_eq!(buffered, spliced);
        assert_eq!(a[0].downloaded, b[0].downloaded);
    }
}

#[test]
fn splice_loop_budgets_and_totals() {
    let mut s = SpliceLoop::new(10_000);
    assert_eq!(s.inbound_budget(), PIPE_BUF);
    s.record_pulled(PIPE_BUF);
    assert_eq!(s.inbound_budget(), 0);
    assert_eq!(s.outbound_budget(), PIPE_BUF);
    s.record_pushed(100);
    assert_eq!(s.inbound_budget(), 100);
    assert!(!s.done());
    s.record_pushed(PIPE_BUF - 100);
    s.record_pulled(100);
    let mut moved = PIPE_BUF + 100;
    while moved < 10_000 {
        let t = s.inbound_budget();
        s.record_pulled(t);
        s.record_pushed(t);
        moved += t;
    }
    s.record_pushed(s.outbound_budget());
    assert!(s.done());
    assert_eq!(s.pushed, 10_000);
    assert_eq!(s.pulled, 10_000);
}

#[test]
fn scheme_registry_knows_only_http() {
    assert_eq!(schema_of(&b"http".to_vec()), Some(Schema::Http));
    assert_eq!(schema_of(&b"https".to_vec()), None);
    assert_eq!(schema_of(&b"ftp".to_vec()), None);
    assert_eq!(schema_of(&b"".to_vec()), None);
}

#[test]
fn unknown_scheme_is_rejected_cleanly() {
    let mut dm = DownloadManager::new();
    let r = dm.download(
        location_with_scheme("ftp"),
        String::from("file.bin"),
        false,
        None,
    );
    assert_eq!(r, Err(DownloadError::UnsupportedScheme));
    assert_eq!(dm.files.len(), 0);
}

#[test]
fn failed_file_creation_is_reported() {
    let mut dm = DownloadManager::new();
    let r = dm.download(
        location_with_scheme("http"),
        String::from("file.bin"),
        false,
        Some(100),
    );
    assert_eq!(r, Err(DownloadError::FileCreateFailed));
    assert_eq!(dm.files.len(), 0);
}

#[test]
fn scenario_probe_failure_registers_nothing() {
    let mut dm = DownloadManager::new();
    let r = dm.download(
        location_with_scheme("http"),
        String::from("file.bin"),
        true,
        None,
    );
    assert_eq!(r, Err(DownloadError::ProbeFailed));
    assert_eq!(dm.files.len(), 0);
}

#[test]
fn scenario_two_downloads_share_the_pool_independently() {
    let mut dm = DownloadManager::new();
    let (id_a, jobs_a) = dm
        .download(
            location_with_scheme("http"),
            String::from("a.bin"),
            true,
            Some(3_000_000),
        )
        .unwrap();
    let (id_b, jobs_b) = dm
        .download(
            location_with_scheme("http"),
            String::from("b.bin"),
            true,
            Some(1_000_000),
        )
        .unwrap();
    assert_eq!(id_a, 0);
    assert_eq!(id_b, 1);
    assert_eq!(jobs_a.len(), 3);
    assert_eq!(jobs_b.len(), 1);
    assert_eq!(jobs_a.len() + jobs_b.len(), 4);
    assert_eq!(jobs_a[2], Job { download: 0, segment: 2 });
    assert_eq!(jobs_b[0], Job { download: 1, segment: 0 });

    let sizes_b: Vec<usize> = dm.files[1].segments.iter().map(|s| s.size).collect();
    for (i, n) in sizes_b.into_iter().enumerate() {
        dm.files[1].segments[i].advance(n);
    }
    assert!(dm.get_info(id_b).is_complete());
    assert!(!dm.get_info(id_a).is_complete());

    let sizes_a: Vec<usize> = dm.files[0].segments.iter().map(|s| s.size).collect();
    for (i, n) in sizes_a.into_iter().enumerate() {
        dm.files[0].segments[i].advance(n);
    }
    assert!(dm.get_info(id_a).is_complete());
    assert!(dm.get_info(id_b).is_complete());
}

#[test]
fn accepted_download_partitions_by_default_chunk() {
    let mut dm = DownloadManager::new();
    let (id, jobs) = dm
        .download(
            location_with_scheme("http"),
            String::from("big.bin"),
            true,
            Some(2_500_000),
        )
        .unwrap();
    assert_eq!(jobs.len(), 3);
    let info = dm.get_info(id);
    assert_eq!(info.header.size, 2_500_000);
    assert_eq!(info.segments.len(), 3);
    assert_eq!(info.segments[0].offset, 0);
    assert_eq!(info.segments[1].offset, 1_048_576);
    assert_eq!(
        info.segments[2].size,
        2_500_000 - 2 * 1_048_576
    );
}
