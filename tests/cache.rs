use offline_cache::accounting::UsageSummary;
use offline_cache::download::{is_success_status, Action, Download, Event, Stage};
use offline_cache::error::CacheError;
use offline_cache::inflight::InFlight;
use offline_cache::manifest::{delete_outcome, Manifest};
use offline_cache::record::AssetRecord;
use offline_cache::sanitize::{join_path, local_path_for, partial_path_for, sanitize_key};

fn rec(key: &str, size: u64, at: &str) -> AssetRecord {
    AssetRecord::new(
        key.to_string(),
        "Course".to_string(),
        format!("/data/offline_videos/{}", sanitize_key(key)),
        at.to_string(),
        size,
    )
}

fn run_download(d: &mut Download, manifest: &mut Manifest, size: u64) -> AssetRecord {
    assert!(matches!(d.step(Event::Fetched { status: 200, size }), Action::Write));
    let record = match d.step(Event::Written) {
        Action::Commit { record } => record,
        _ => panic!("expected a commit"),
    };
    manifest.insert(record);
    match d.step(Event::Committed) {
        Action::Finish { result: Ok(r) } => r,
        _ => panic!("expected success"),
    }
}

#[test]
fn sanitize_replaces_both_separators() {
    assert_eq!(sanitize_key("course/lesson1.mp4"), "course_lesson1.mp4");
    assert_eq!(sanitize_key("a\\b/c"), "a_b_c");
    assert_eq!(sanitize_key("plain.mp4"), "plain.mp4");
    assert_eq!(sanitize_key(""), "");
    assert_eq!(sanitize_key("é/ü"), "é_ü");
}

#[test]
fn paths_are_joined_with_one_separator() {
    assert_eq!(join_path("/data", "x.mp4"), "/data/x.mp4");
    assert_eq!(join_path("/data/", "x.mp4"), "/data/x.mp4");
    assert_eq!(join_path("", "x.mp4"), "x.mp4");
    assert_eq!(
        local_path_for("/data/offline_videos", "course/lesson1.mp4"),
        "/data/offline_videos/course_lesson1.mp4"
    );
    assert_eq!(partial_path_for("/d/a.mp4"), "/d/a.mp4.part");
}

#[test]
fn success_status_is_the_2xx_range() {
    assert!(is_success_status(200));
    assert!(is_success_status(204));
    assert!(is_success_status(299));
    assert!(!is_success_status(199));
    assert!(!is_success_status(300));
    assert!(!is_success_status(404));
    assert!(!is_success_status(500));
}

#[test]
fn manifest_insert_get_remove() {
    let mut m = Manifest::new();
    assert_eq!(m.len(), 0);
    assert!(m.get("a/b").is_none());
    assert!(m.insert(rec("a/b", 10, "t1")).is_none());
    assert!(m.insert(rec("c", 20, "t1")).is_none());
    assert_eq!(m.len(), 2);
    assert_eq!(m.get("a/b").unwrap().size_bytes, 10);
    assert_eq!(m.get("c").unwrap().size_bytes, 20);
    let removed = m.remove("a/b").unwrap();
    assert_eq!(removed.size_bytes, 10);
    assert!(m.remove("a/b").is_none());
    assert_eq!(m.len(), 1);
    assert!(m.get("a/b").is_none());
}

#[test]
fn redownload_leaves_one_record_with_new_metadata() {
    let mut m = Manifest::new();
    m.insert(rec("k", 100, "2024-01-01T00:00:00+00:00"));
    let prev = m.insert(rec("k", 250, "2024-02-01T00:00:00+00:00")).unwrap();
    assert_eq!(prev.size_bytes, 100);
    assert_eq!(m.len(), 1);
    assert_eq!(m.records().len(), 1);
    let r = m.get("k").unwrap();
    assert_eq!(r.size_bytes, 250);
    assert_eq!(r.downloaded_at, "2024-02-01T00:00:00+00:00");
}

#[test]
fn redownload_through_the_coordinator_supersedes() {
    let mut m = Manifest::new();
    let mut first = Download::new("/data/offline_videos", "k".to_string(), "G".to_string());
    run_download(&mut first, &mut m, 5);
    let mut second = Download::new("/data/offline_videos", "k".to_string(), "G".to_string());
    let r = run_download(&mut second, &mut m, 7);
    assert_eq!(r.size_bytes, 7);
    assert_eq!(m.len(), 1);
    assert_eq!(m.get("k").unwrap().size_bytes, 7);
}

#[test]
fn delete_makes_key_unavailable() {
    let mut m = Manifest::new();
    m.insert(rec("k", 3, "t"));
    assert!(m.is_available("k", &vec![true]));
    assert!(m.remove("k").is_some());
    let present: Vec<bool> = vec![];
    assert!(!m.is_available("k", &present));
    assert_eq!(m.resolve_path("k", &present), Err(CacheError::NotAvailable));
}

#[test]
fn missing_file_is_excluded_without_delete() {
    let mut m = Manifest::new();
    m.insert(rec("a", 100, "t"));
    m.insert(rec("b", 30, "t"));
    let all = vec![true, true];
    assert_eq!(m.usage_summary(&all), UsageSummary { count: 2, total_bytes: 130 });
    let b_missing: Vec<bool> = m.records().iter().map(|r| r.key != "b").collect();
    assert!(!m.is_available("b", &b_missing));
    assert!(m.is_available("a", &b_missing));
    assert_eq!(m.usage_summary(&b_missing), UsageSummary { count: 1, total_bytes: 100 });
    let listed = m.list_available(&b_missing);
    assert_eq!(listed.len(), 1);
    assert_eq!(listed[0].key, "a");
    assert_eq!(m.len(), 2);
    assert!(m.get("b").is_some());
}

#[test]
fn resolve_path_reports_the_local_path() {
    let mut m = Manifest::new();
    m.insert(rec("x/y.mp4", 1, "t"));
    assert_eq!(
        m.resolve_path("x/y.mp4", &vec![true]),
        Ok("/data/offline_videos/x_y.mp4".to_string())
    );
    assert_eq!(m.resolve_path("x/y.mp4", &vec![false]), Err(CacheError::NotAvailable));
    assert_eq!(m.resolve_path("other", &vec![true]), Err(CacheError::NotAvailable));
}

#[test]
fn distinct_keys_all_committed() {
    let n: u64 = 20;
    let mut flight = InFlight::new();
    let mut downloads = Vec::new();
    for i in 0..n {
        let key = format!("course/lesson{}.mp4", i);
        assert!(flight.begin(&key));
        downloads.push(Download::new("/data/offline_videos", key, "C".to_string()));
    }
    let mut m = Manifest::new();
    for (i, d) in downloads.iter_mut().enumerate().rev() {
        run_download(d, &mut m, i as u64 + 1);
        flight.finish(&d.key.clone());
    }
    assert_eq!(m.len(), n as usize);
    for i in 0..n {
        let key = format!("course/lesson{}.mp4", i);
        assert_eq!(m.get(&key).unwrap().size_bytes, i + 1);
        assert!(!flight.contains(&key));
    }
    let all = vec![true; n as usize];
    assert_eq!(m.usage_summary(&all).count, n as usize);
    assert_eq!(m.usage_summary(&all).total_bytes, (n * (n + 1) / 2) as u128);
}

#[test]
fn same_key_is_not_fetched_twice_at_once() {
    let mut flight = InFlight::new();
    assert!(flight.begin("k"));
    assert!(!flight.begin("k"));
    assert!(flight.contains("k"));
    flight.finish("k");
    assert!(!flight.contains("k"));
    assert!(flight.begin("k"));
}

#[test]
fn example_scenario_lesson_download() {
    let mut m = Manifest::new();
    let mut d = Download::new(
        "/app/data/offline_videos",
        "course/lesson1.mp4".to_string(),
        "Course".to_string(),
    );
    assert_eq!(d.partial_path, "/app/data/offline_videos/course_lesson1.mp4.part");
    let r = run_download(&mut d, &mut m, 1024);
    assert_eq!(r.local_path, "/app/data/offline_videos/course_lesson1.mp4");
    assert_eq!(r.size_bytes, 1024);
    assert_eq!(r.key, "course/lesson1.mp4");
    assert!(matches!(d.stage, Stage::Finished));
    assert_eq!(m.usage_summary(&vec![true]), UsageSummary { count: 1, total_bytes: 1024 });
    assert!(m.remove("course/lesson1.mp4").is_some());
    assert_eq!(m.usage_summary(&vec![]), UsageSummary { count: 0, total_bytes: 0 });
}

#[test]
fn record_timestamp_is_rfc3339() {
    let mut m = Manifest::new();
    let mut d = Download::new("/d", "k".to_string(), "G".to_string());
    let r = run_download(&mut d, &mut m, 1);
    assert!(r.downloaded_at.len() >= 25);
    assert!(r.downloaded_at.contains('T'));
    let explicit = d.record("2024-05-01T10:00:00+00:00".to_string(), 9);
    assert_eq!(explicit.downloaded_at, "2024-05-01T10:00:00+00:00");
    assert_eq!(explicit.local_path, "/d/k");
    assert_eq!(explicit.size_bytes, 9);
}

#[test]
fn fetch_failures_end_without_write() {
    let mut d = Download::new("/d", "k".to_string(), "G".to_string());
    assert!(matches!(
        d.step(Event::FetchFailed),
        Action::Finish { result: Err(CacheError::DownloadFailed) }
    ));
    assert!(matches!(d.stage, Stage::Finished));
    let mut d = Download::new("/d", "k".to_string(), "G".to_string());
    assert!(matches!(
        d.step(Event::Fetched { status: 404, size: 12 }),
        Action::Finish { result: Err(CacheError::DownloadFailed) }
    ));
    assert!(matches!(d.step(Event::Written), Action::Ignore));
}

#[test]
fn write_and_commit_failures_are_reported() {
    let mut d = Download::new("/d", "k".to_string(), "G".to_string());
    assert!(matches!(d.step(Event::Fetched { status: 200, size: 4 }), Action::Write));
    assert!(matches!(d.stage, Stage::Writing { size: 4 }));
    assert!(matches!(
        d.step(Event::WriteFailed),
        Action::Finish { result: Err(CacheError::IoError) }
    ));
    let mut d = Download::new("/d", "k".to_string(), "G".to_string());
    d.step(Event::Fetched { status: 201, size: 4 });
    assert!(matches!(d.step(Event::Written), Action::Commit { .. }));
    assert!(matches!(
        d.step(Event::CommitFailed { error: CacheError::CorruptManifest }),
        Action::Finish { result: Err(CacheError::CorruptManifest) }
    ));
}

#[test]
fn out_of_order_events_are_ignored() {
    let mut d = Download::new("/d", "k".to_string(), "G".to_string());
    assert!(matches!(d.step(Event::Committed), Action::Ignore));
    assert!(matches!(d.step(Event::Written), Action::Ignore));
    assert!(matches!(d.stage, Stage::Fetching));
    d.step(Event::Fetched { status: 200, size: 1 });
    assert!(matches!(d.step(Event::Fetched { status: 200, size: 1 }), Action::Ignore));
    assert!(matches!(d.stage, Stage::Writing { size: 1 }));
}

#[test]
fn manifest_round_trips_through_entries() {
    let mut m = Manifest::new();
    m.insert(rec("a/1", 1, "t1"));
    m.insert(rec("b/2", 2, "t2"));
    m.insert(rec("c/3", 3, "t3"));
    let entries = m.to_entries();
    assert_eq!(entries.len(), 3);
    let back = Manifest::from_entries(entries).unwrap();
    assert_eq!(back.len(), 3);
    for k in ["a/1", "b/2", "c/3"] {
        let x = m.get(k).unwrap();
        let y = back.get(k).unwrap();
        assert_eq!(x.key, y.key);
        assert_eq!(x.group_label, y.group_label);
        assert_eq!(x.local_path, y.local_path);
        assert_eq!(x.downloaded_at, y.downloaded_at);
        assert_eq!(x.size_bytes, y.size_bytes);
    }
}

#[test]
fn inconsistent_entries_are_a_corrupt_manifest() {
    let ok = vec![("a".to_string(), rec("a", 1, "t"))];
    assert!(Manifest::from_entries(ok).is_ok());
    let mismatched = vec![("a".to_string(), rec("b", 1, "t"))];
    assert_eq!(Manifest::from_entries(mismatched).err(), Some(CacheError::CorruptManifest));
    let duplicated = vec![
        ("a".to_string(), rec("a", 1, "t")),
        ("a".to_string(), rec("a", 2, "t")),
    ];
    assert_eq!(Manifest::from_entries(duplicated).err(), Some(CacheError::CorruptManifest));
    let empty: Vec<(String, AssetRecord)> = vec![];
    assert_eq!(Manifest::from_entries(empty).unwrap().len(), 0);
}

#[test]
fn delete_outcome_reports_existence_and_failures() {
    assert_eq!(delete_outcome(false, true, true), Ok(false));
    assert_eq!(delete_outcome(false, false, false), Ok(false));
    assert_eq!(delete_outcome(true, true, true), Ok(true));
    assert_eq!(delete_outcome(true, false, true), Err(CacheError::IoError));
    assert_eq!(delete_outcome(true, true, false), Err(CacheError::IoError));
}

#[test]
fn deleting_a_stale_record_keeps_usage() {
    let mut m = Manifest::new();
    m.insert(rec("a", 100, "t"));
    m.insert(rec("stale", 40, "t"));
    m.insert(rec("c", 7, "t"));
    let present: Vec<bool> = m.records().iter().map(|r| r.key != "stale").collect();
    let before = m.usage_summary(&present);
    assert_eq!(before, UsageSummary { count: 2, total_bytes: 107 });
    assert!(m.remove("stale").is_some());
    let present_after: Vec<bool> = m.records().iter().map(|_| true).collect();
    assert_eq!(m.usage_summary(&present_after), before);
    assert_eq!(m.list_available(&present_after).len(), 2);
}
