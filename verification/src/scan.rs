//! The scan lifecycle: the dispatcher's decisions and the result collector.
//!
//! A scan runs outside the crate as threads and channels: discovery walks
//! the tree, a fixed pool of workers analyzes files from a shared queue,
//! and results arrive on a channel in completion order.  The decisions of
//! that pipeline are here: what a discovery outcome means for the scan
//! (`plan_scan`), and how arriving results and progress are accounted for
//! (`ScanCollector`).  The collector delivers exactly one record per
//! discovered file, unless the result source closed early, in which case
//! whatever was already collected is delivered.

use vstd::prelude::*;

use crate::record::{base_name, pending_result, DRResult};

verus! {

/// One progress report: how many results have arrived, of how many
/// expected.  The total is fixed for the scan's duration.
#[derive(Clone, Copy, Debug, PartialEq, Eq)]
pub struct ProgressUpdate {
    pub completed: usize,
    pub total: usize,
}

/// What a discovery outcome means for the scan.
pub enum ScanPlan {
    /// Discovery failed or found nothing: deliver an empty batch and this
    /// terminal progress report, which is always `(0, 0)`.
    Finish(ProgressUpdate),
    /// Discovery found files: run the worker pool over these jobs.
    Run(Vec<String>),
}

/// Decides the scan from the discovery outcome: `None` (a directory could
/// not be read: no partial list is returned) and an empty list both end the
/// scan at once with an empty batch and the terminal progress `(0, 0)`; a
/// non-empty list becomes the job list, one job per discovered file.
pub fn plan_scan(discovered: Option<Vec<String>>) -> (p: ScanPlan)
    ensures
        match discovered {
            None => p matches ScanPlan::Finish(u) && u.completed == 0 && u.total == 0,
            Some(files) => if files@.len() == 0 {
                p matches ScanPlan::Finish(u) && u.completed == 0 && u.total == 0
            } else {
                p matches ScanPlan::Run(jobs) && jobs@ == files@
            },
        },
{
    match discovered {
        None => ScanPlan::Finish(ProgressUpdate { completed: 0, total: 0 }),
        Some(files) => {
            if files.len() == 0 {
                ScanPlan::Finish(ProgressUpdate { completed: 0, total: 0 })
            } else {
                ScanPlan::Run(files)
            }
        },
    }
}

/// The placeholder records shown after a directory is opened: one pending
/// record per discovered file, in discovery order.
pub fn pending_batch(paths: &Vec<String>) -> (r: Vec<DRResult>)
    ensures
        r@.len() == paths@.len(),
        forall|i: int|
            0 <= i < r@.len() ==> {
                &&& (#[trigger] r@[i]).dr_value is None
                &&& !r@[i].scanned
                &&& r@[i].path@ == paths@[i]@
                &&& r@[i].filename@ == base_name(paths@[i]@)
                &&& r@[i].wf()
            },
{
    let n = paths.len();
    let mut out: Vec<DRResult> = Vec::new();
    let mut i: usize = 0;
    while i < n
        invariant
            i <= n,
            n == paths@.len(),
            out@.len() == i,
            forall|k: int|
                0 <= k < i ==> {
                    &&& (#[trigger] out@[k]).dr_value is None
                    &&& !out@[k].scanned
                    &&& out@[k].path@ == paths@[k]@
                    &&& out@[k].filename@ == base_name(paths@[k]@)
                    &&& out@[k].wf()
                },
        decreases n - i,
    {
        let r = pending_result(paths[i].as_str());
        out.push(r);
        i += 1;
    }
    out
}

/// Accounts for the results of one running scan: how many are expected,
/// what has arrived, and whether the result source closed early.
pub struct ScanCollector {
    total: usize,
    results: Vec<DRResult>,
    aborted: bool,
}

impl ScanCollector {
    /// How many results the scan owes: the number of discovered files.
    pub closed spec fn total_count(self) -> int {
        self.total as int
    }

    /// The results that have arrived so far, in arrival order.
    pub closed spec fn collected(self) -> Seq<DRResult> {
        self.results@
    }

    /// Whether the result source closed before all results arrived.
    pub closed spec fn is_aborted(self) -> bool {
        self.aborted
    }

    /// Never more results than expected.
    pub open spec fn wf(self) -> bool {
        self.collected().len() <= self.total_count()
    }

    /// The scan is over: everything arrived, or the source closed early.
    pub open spec fn done(self) -> bool {
        self.is_aborted() || self.collected().len() == self.total_count()
    }

    /// A collector awaiting `total` results.
    pub fn new(total: usize) -> (c: Self)
        ensures
            c.total_count() == total,
            c.collected() == Seq::<DRResult>::empty(),
            !c.is_aborted(),
            c.wf(),
    {
        ScanCollector { total, results: Vec::new(), aborted: false }
    }

    /// Whether the dispatcher must keep waiting on the result channel.
    pub fn expects_more(&self) -> (b: bool)
        requires
            self.wf(),
        ensures
            b == !self.done(),
    {
        !self.aborted && self.results.len() < self.total
    }

    /// Accounts for one arriving result.  The returned progress report
    /// counts this arrival: the completed count grows by exactly one and
    /// never exceeds the fixed total.
    pub fn on_result(&mut self, r: DRResult) -> (p: ProgressUpdate)
        requires
            old(self).wf(),
            !old(self).done(),
        ensures
            final(self).collected() == old(self).collected().push(r),
            final(self).total_count() == old(self).total_count(),
            !final(self).is_aborted(),
            final(self).wf(),
            p.completed as int == final(self).collected().len(),
            p.total as int == final(self).total_count(),
    {
        self.results.push(r);
        ProgressUpdate { completed: self.results.len(), total: self.total }
    }

    /// The result channel closed before every result arrived: the scan is
    /// aborted; what was collected stays.
    pub fn on_closed(&mut self)
        ensures
            final(self).is_aborted(),
            final(self).collected() == old(self).collected(),
            final(self).total_count() == old(self).total_count(),
            old(self).wf() ==> final(self).wf(),
    {
        self.aborted = true;
    }

    /// The final unordered batch.  Complete — exactly one record per
    /// discovered file — unless the scan was aborted, in which case it
    /// holds exactly what had arrived.
    pub fn into_results(self) -> (v: Vec<DRResult>)
        requires
            self.done(),
        ensures
            v@ == self.collected(),
            !self.is_aborted() ==> v@.len() == self.total_count(),
    {
        let ScanCollector { total: _, results, aborted: _ } = self;
        results
    }
}

} // verus!
