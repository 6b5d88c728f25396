//! Tests for the record ordering and the sort.

use drlogseeker::order::sort_results;
use drlogseeker::record::DRResult;

fn rec(metric: Option<u8>, path: &str, scanned: bool) -> DRResult {
    DRResult {
        dr_value: metric,
        filename: path.rsplit('/').next().unwrap_or("").to_string(),
        path: path.to_string(),
        scanned,
    }
}

#[test]
fn equal_metrics_break_ties_by_path() {
    // Metrics [12, 12, 5] on paths b.log, a.log, c.log sort to
    // a.log(12), b.log(12), c.log(5).
    let records = vec![
        rec(Some(12), "b.log", true),
        rec(Some(12), "a.log", true),
        rec(Some(5), "c.log", true),
    ];
    let sorted = sort_results(records);
    let paths: Vec<&str> = sorted.iter().map(|r| r.path.as_str()).collect();
    assert_eq!(paths, vec!["a.log", "b.log", "c.log"]);
    assert_eq!(sorted[0].dr_value, Some(12));
    assert_eq!(sorted[1].dr_value, Some(12));
    assert_eq!(sorted[2].dr_value, Some(5));
}

#[test]
fn err_sorts_before_pending_regardless_of_path() {
    let records = vec![rec(None, "a.log", false), rec(None, "z.log", true)];
    let sorted = sort_results(records);
    assert_eq!(sorted[0].path, "z.log");
    assert!(sorted[0].scanned);
    assert_eq!(sorted[1].path, "a.log");
    assert!(!sorted[1].scanned);
}

#[test]
fn full_grouping_order() {
    // Numeric results best-to-worst, then errors alphabetical, then
    // pending alphabetical.
    let records = vec![
        rec(None, "p2.log", false),
        rec(None, "e2.log", true),
        rec(Some(3), "low.log", true),
        rec(None, "e1.log", true),
        rec(Some(14), "high.log", true),
        rec(None, "p1.log", false),
    ];
    let sorted = sort_results(records);
    let paths: Vec<&str> = sorted.iter().map(|r| r.path.as_str()).collect();
    assert_eq!(
        paths,
        vec!["high.log", "low.log", "e1.log", "e2.log", "p1.log", "p2.log"]
    );
}

#[test]
fn sorting_is_idempotent() {
    let records = vec![
        rec(Some(9), "b.log", true),
        rec(None, "a.log", true),
        rec(Some(11), "c.log", true),
    ];
    let once = sort_results(records);
    let twice = sort_results(once.clone());
    assert_eq!(once, twice);
}

#[test]
fn sorted_output_ignores_arrival_order() {
    // The same records, permuted as if workers finished in another order,
    // sort to the same batch.
    let a = vec![
        rec(Some(7), "x.log", true),
        rec(None, "y.log", true),
        rec(None, "z.log", false),
        rec(Some(13), "w.log", true),
    ];
    let b = vec![a[3].clone(), a[1].clone(), a[0].clone(), a[2].clone()];
    assert_eq!(sort_results(a), sort_results(b));
}

#[test]
fn empty_batch_sorts_to_empty() {
    let sorted = sort_results(Vec::new());
    assert!(sorted.is_empty());
}
