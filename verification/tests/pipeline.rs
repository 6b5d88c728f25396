//! Tests for the discovery filter, the scan lifecycle and the shared state.

use drlogseeker::discovery::is_log_file;
use drlogseeker::record::{metric_text, pending_result, render_rows, row_text, DRResult};
use drlogseeker::scan::{pending_batch, plan_scan, ScanCollector, ScanPlan};
use drlogseeker::state::AppState;

fn rec(metric: Option<u8>, path: &str, scanned: bool) -> DRResult {
    DRResult {
        dr_value: metric,
        filename: path.rsplit('/').next().unwrap_or("").to_string(),
        path: path.to_string(),
        scanned,
    }
}

#[test]
fn log_and_txt_extensions_are_kept() {
    assert!(is_log_file("/music/album/report.log"));
    assert!(is_log_file("notes.txt"));
    assert!(is_log_file("/a/b.c/deep.file.log"));
}

#[test]
fn other_names_are_filtered_out() {
    assert!(!is_log_file("/music/song.flac"));
    assert!(!is_log_file("archive.tar.gz"));
    assert!(!is_log_file("noextension"));
    assert!(!is_log_file("/dir/.log"));
    assert!(!is_log_file("report.LOG"));
    assert!(!is_log_file("report.txtx"));
    assert!(!is_log_file(""));
}

#[test]
fn failed_discovery_finishes_at_once() {
    match plan_scan(None) {
        ScanPlan::Finish(p) => {
            assert_eq!(p.completed, 0);
            assert_eq!(p.total, 0);
        },
        ScanPlan::Run(_) => panic!("a failed discovery must not start workers"),
    }
}

#[test]
fn empty_discovery_finishes_with_terminal_progress() {
    match plan_scan(Some(Vec::new())) {
        ScanPlan::Finish(p) => {
            assert_eq!(p.completed, 0);
            assert_eq!(p.total, 0);
        },
        ScanPlan::Run(_) => panic!("an empty discovery must not start workers"),
    }
}

#[test]
fn discovered_files_become_jobs() {
    let files = vec!["a.log".to_string(), "b.log".to_string()];
    match plan_scan(Some(files.clone())) {
        ScanPlan::Finish(_) => panic!("files were discovered"),
        ScanPlan::Run(jobs) => assert_eq!(jobs, files),
    }
}

#[test]
fn collector_counts_every_arrival() {
    let mut c = ScanCollector::new(3);
    assert!(c.expects_more());
    let p1 = c.on_result(rec(Some(5), "a.log", true));
    assert_eq!((p1.completed, p1.total), (1, 3));
    let p2 = c.on_result(rec(None, "b.log", true));
    assert_eq!((p2.completed, p2.total), (2, 3));
    let p3 = c.on_result(rec(Some(7), "c.log", true));
    assert_eq!((p3.completed, p3.total), (3, 3));
    assert!(!c.expects_more());
    let batch = c.into_results();
    assert_eq!(batch.len(), 3);
}

#[test]
fn early_channel_close_keeps_partial_batch() {
    let mut c = ScanCollector::new(2);
    c.on_result(rec(Some(4), "a.log", true));
    assert!(c.expects_more());
    c.on_closed();
    assert!(!c.expects_more());
    let batch = c.into_results();
    assert_eq!(batch.len(), 1);
}

#[test]
fn zero_total_is_done_at_once() {
    let c = ScanCollector::new(0);
    assert!(!c.expects_more());
    assert!(c.into_results().is_empty());
}

#[test]
fn pending_batch_builds_placeholders() {
    let paths = vec!["/r/one.log".to_string(), "/r/two.txt".to_string()];
    let batch = pending_batch(&paths);
    assert_eq!(batch.len(), 2);
    for (r, p) in batch.iter().zip(paths.iter()) {
        assert_eq!(r.dr_value, None);
        assert!(!r.scanned);
        assert_eq!(&r.path, p);
    }
    assert_eq!(batch[0].filename, "one.log");
    assert_eq!(batch[1].filename, "two.txt");
}

#[test]
fn pending_placeholder_has_no_metric() {
    let r = pending_result("/r/x.log");
    assert_eq!(r.dr_value, None);
    assert!(!r.scanned);
    assert_eq!(r.filename, "x.log");
}

#[test]
fn metric_text_renders_each_state() {
    assert_eq!(metric_text(&rec(Some(0), "a", true)), "0");
    assert_eq!(metric_text(&rec(Some(7), "a", true)), "7");
    assert_eq!(metric_text(&rec(Some(12), "a", true)), "12");
    assert_eq!(metric_text(&rec(Some(120), "a", true)), "120");
    assert_eq!(metric_text(&rec(Some(255), "a", true)), "255");
    assert_eq!(metric_text(&rec(Some(205), "a", true)), "205");
    assert_eq!(metric_text(&rec(None, "a", true)), "ERR");
    assert_eq!(metric_text(&rec(None, "a", false)), "PENDING");
}

#[test]
fn row_text_is_tab_separated() {
    let r = rec(Some(14), "/m/disc.log", true);
    assert_eq!(row_text(&r), "disc.log\t/m/disc.log\t14");
}

#[test]
fn render_rows_keeps_order_and_shape() {
    let batch = vec![rec(Some(14), "/m/a.log", true), rec(None, "/m/b.log", false)];
    let rows = render_rows(&batch);
    assert_eq!(rows, vec!["a.log\t/m/a.log\t14", "b.log\t/m/b.log\tPENDING"]);
}

#[test]
fn state_starts_empty_with_safe_settings() {
    let s = AppState::new();
    assert!(!s.delete_files);
    assert!(!s.delete_folders);
    assert!(s.results.is_empty());
}

#[test]
fn folder_deletion_needs_file_deletion() {
    let mut s = AppState::new();
    s.set_delete_folders(true);
    assert!(!s.delete_folders);
    s.set_delete_files(true);
    s.set_delete_folders(true);
    assert!(s.delete_folders);
    s.set_delete_files(false);
    assert!(!s.delete_files);
    assert!(!s.delete_folders);
}

#[test]
fn results_are_replaced_and_cleared_wholesale() {
    let mut s = AppState::new();
    s.set_results(vec![rec(Some(3), "a.log", true), rec(None, "b.log", false)]);
    assert_eq!(s.results.len(), 2);
    s.clear_results();
    assert!(s.results.is_empty());
}

#[test]
fn remove_paths_prunes_by_path_and_keeps_order() {
    let mut s = AppState::new();
    s.set_results(vec![
        rec(Some(3), "/d/a.log", true),
        rec(Some(9), "/d/b.log", true),
        rec(None, "/d/c.log", true),
    ]);
    s.remove_paths(&vec!["/d/b.log".to_string(), "/d/missing.log".to_string()]);
    let paths: Vec<&str> = s.results.iter().map(|r| r.path.as_str()).collect();
    assert_eq!(paths, vec!["/d/a.log", "/d/c.log"]);
}
