//! The shared application state: settings and the current result set.
//!
//! One `AppState` value is the single source of truth for the current
//! records.  Callers that share it across threads put it behind one
//! exclusive lock and perform each update below as a whole while holding
//! the lock.  The deletion settings are coupled: folders may only be
//! deleted when file deletion itself is enabled.

use vstd::prelude::*;

use crate::record::DRResult;

verus! {

/// A path multiset membership test over string views.
pub open spec fn has_path(ps: Seq<Seq<char>>, p: Seq<char>) -> bool {
    exists|i: int| 0 <= i < ps.len() && ps[i] == p
}

/// Holds the application's overall state: settings and scan results.
pub struct AppState {
    /// If `true`, records removed from the list also delete the file.
    pub delete_files: bool,
    /// If `true`, an emptied parent folder is deleted along with the file.
    /// Only meaningful while `delete_files` is set.
    pub delete_folders: bool,
    /// The records of the current session.
    pub results: Vec<DRResult>,
}

impl AppState {
    /// The settings coupling, and every record's own invariant.
    pub open spec fn wf(self) -> bool {
        &&& self.delete_folders ==> self.delete_files
        &&& forall|i: int| 0 <= i < self.results@.len() ==> (#[trigger] self.results@[i]).wf()
    }

    /// The state at application start: default settings, no records.
    pub fn new() -> (s: Self)
        ensures
            !s.delete_files,
            !s.delete_folders,
            s.results@ == Seq::<DRResult>::empty(),
            s.wf(),
    {
        AppState { delete_files: false, delete_folders: false, results: Vec::new() }
    }

    /// Clears the result list (the explicit reset), leaving settings alone.
    pub fn clear_results(&mut self)
        ensures
            final(self).results@ == Seq::<DRResult>::empty(),
            final(self).delete_files == old(self).delete_files,
            final(self).delete_folders == old(self).delete_folders,
            old(self).wf() ==> final(self).wf(),
    {
        self.results.clear();
    }

    /// Replaces the result set wholesale: with pending placeholders when a
    /// directory is opened, with the final batch when a scan completes.
    pub fn set_results(&mut self, results: Vec<DRResult>)
        ensures
            final(self).results@ == results@,
            final(self).delete_files == old(self).delete_files,
            final(self).delete_folders == old(self).delete_folders,
            old(self).wf() && (forall|i: int|
                0 <= i < results@.len() ==> (#[trigger] results@[i]).wf()) ==> final(self).wf(),
    {
        self.results = results;
    }

    /// Turns file deletion on or off.  Turning it off also turns folder
    /// deletion off, keeping the settings coupled.
    pub fn set_delete_files(&mut self, on: bool)
        ensures
            final(self).delete_files == on,
            final(self).delete_folders == (on && old(self).delete_folders),
            final(self).results@ == old(self).results@,
            old(self).wf() ==> final(self).wf(),
    {
        self.delete_files = on;
        if !on {
            self.delete_folders = false;
        }
    }

    /// Turns folder deletion on or off.  The switch only takes effect while
    /// file deletion is enabled.
    pub fn set_delete_folders(&mut self, on: bool)
        ensures
            final(self).delete_files == old(self).delete_files,
            final(self).delete_folders == (if old(self).delete_files {
                on
            } else {
                old(self).delete_folders
            }),
            final(self).results@ == old(self).results@,
            old(self).wf() ==> final(self).wf(),
    {
        if self.delete_files {
            self.delete_folders = on;
        }
    }

    /// Removes every record whose path is among `paths`, keeping the rest
    /// in their current order.
    pub fn remove_paths(&mut self, paths: &Vec<String>)
        ensures
            final(self).results@ == old(self).results@.filter(
                |r: DRResult| !has_path(paths.deep_view(), r.path@),
            ),
            final(self).delete_files == old(self).delete_files,
            final(self).delete_folders == old(self).delete_folders,
            old(self).wf() ==> final(self).wf(),
    {
        let ghost pred = |r: DRResult| !has_path(paths.deep_view(), r.path@);
        let mut rest: Vec<DRResult> = Vec::new();
        core::mem::swap(&mut self.results, &mut rest);
        let ghost orig = rest@;
        let mut kept: Vec<DRResult> = Vec::new();
        let ghost mut done: int = 0;
        proof {
            reveal(Seq::filter);
            assert(orig.take(0) =~= Seq::<DRResult>::empty());
            assert(orig.skip(0) =~= orig);
            assert(kept@ =~= orig.take(0).filter(pred));
        }
        while rest.len() > 0
            invariant
                0 <= done <= orig.len(),
                pred == (|r: DRResult| !has_path(paths.deep_view(), r.path@)),
                rest@ == orig.skip(done),
                kept@ == orig.take(done).filter(pred),
                (forall|q: int| 0 <= q < orig.len() ==> (#[trigger] orig[q]).wf()) ==> (forall|
                    q: int,
                |
                    0 <= q < kept@.len() ==> (#[trigger] kept@[q]).wf()),
            decreases rest@.len(),
        {
            let r = rest.remove(0);
            proof {
                assert(r == orig[done]);
                assert(rest@ =~= orig.skip(done + 1));
            }
            let keep = !contains_string(paths, &r.path);
            proof {
                assert(keep == pred(r));
                assert(orig.take(done + 1).drop_last() =~= orig.take(done));
                assert(orig.take(done + 1).last() == orig[done]);
            }
            if keep {
                kept.push(r);
            }
            proof {
                reveal(Seq::filter);
                assert(kept@ =~= orig.take(done + 1).filter(pred));
                done = done + 1;
            }
        }
        proof {
            assert(orig.take(done) =~= orig);
        }
        self.results = kept;
    }
}

/// Whether `p` equals one of the strings in `paths`.
fn contains_string(paths: &Vec<String>, p: &String) -> (r: bool)
    ensures
        r == has_path(paths.deep_view(), p@),
{
    let n = paths.len();
    let mut i: usize = 0;
    while i < n
        invariant
            i <= n,
            n == paths@.len(),
            forall|k: int| 0 <= k < i ==> paths.deep_view()[k] != p@,
        decreases n - i,
    {
        if paths[i].eq(p) {
            proof {
                assert(paths.deep_view()[i as int] == paths@[i as int]@);
            }
            return true;
        }
        proof {
            assert(paths.deep_view()[i as int] == paths@[i as int]@);
        }
        i += 1;
    }
    false
}

} // verus!
