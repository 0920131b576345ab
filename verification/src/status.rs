//! Read-only status aggregation: capacity figures, drift summary and
//! policy, folded into a point-in-time snapshot.
//!
//! The snapshot is best-effort: a failed capacity query degrades the
//! capacity fields instead of failing the report, and a failed per-mapping
//! comparison is excluded from the aggregate instead of aborting it.

use vstd::prelude::*;
use vstd::string::*;

use crate::config::ResolvedConfig;
use crate::config::SyncOnExit;
use crate::syncer::DiffSummary;
use crate::util::FsStatus;
use crate::util::format_bytes;
use crate::util::format_bytes_spec;

verus! {

/// A point-in-time, non-persisted view of the workspace.
#[derive(Debug, Clone)]
pub struct StatusReport {
    pub workspace_exists: bool,
    pub workspace_root: String,
    pub fs_type: Option<String>,
    pub total: Option<String>,
    pub available: Option<String>,
    pub used: Option<String>,
    pub diff_changed: usize,
    pub diff_added: usize,
    pub diff_deleted: usize,
    pub sync_policy: SyncOnExit,
    pub config_path: String,
}

/// The per-category totals of the comparisons that succeeded; a mapping
/// whose comparison failed contributes nothing.
pub open spec fn diff_totals(diffs: Seq<Option<DiffSummary>>) -> (int, int, int)
    decreases diffs.len(),
{
    if diffs.len() == 0 {
        (0int, 0int, 0int)
    } else {
        let (c, a, d) = diff_totals(diffs.drop_last());
        match diffs.last() {
            Some(s) => (c + s.changed, a + s.added, d + s.deleted),
            None => (c, a, d),
        }
    }
}

proof fn lemma_diff_totals_nonneg(diffs: Seq<Option<DiffSummary>>)
    ensures
        diff_totals(diffs).0 >= 0,
        diff_totals(diffs).1 >= 0,
        diff_totals(diffs).2 >= 0,
    decreases diffs.len(),
{
    if diffs.len() > 0 {
        lemma_diff_totals_nonneg(diffs.drop_last());
    }
}

proof fn lemma_diff_totals_prefix(diffs: Seq<Option<DiffSummary>>, i: int)
    requires
        0 <= i <= diffs.len(),
    ensures
        diff_totals(diffs.take(i)).0 <= diff_totals(diffs).0,
        diff_totals(diffs.take(i)).1 <= diff_totals(diffs).1,
        diff_totals(diffs.take(i)).2 <= diff_totals(diffs).2,
    decreases diffs.len() - i,
{
    if i == diffs.len() {
        assert(diffs.take(i) =~= diffs);
    } else {
        lemma_diff_totals_prefix(diffs, i + 1);
        assert(diffs.take(i + 1).drop_last() =~= diffs.take(i));
        match diffs.take(i + 1).last() {
            Some(s) => {
            },
            None => {
            },
        }
    }
}

/// Builds the status snapshot from what was observed: whether the
/// workspace root exists, the capacity query's result if one succeeded,
/// and the per-mapping comparison results (a failed comparison is `None`).
/// An absent workspace yields `workspace_exists == false` with the
/// capacity fields unset and every drift count zero, whatever else was
/// passed in; a missing capacity result leaves the capacity fields unset
/// without failing the snapshot.
pub fn collect_status(
    cfg: &ResolvedConfig,
    exists: bool,
    capacity: Option<FsStatus>,
    diffs: &Vec<Option<DiffSummary>>,
) -> (r: StatusReport)
    requires
        diff_totals(diffs@).0 <= usize::MAX,
        diff_totals(diffs@).1 <= usize::MAX,
        diff_totals(diffs@).2 <= usize::MAX,
    ensures
        r.workspace_exists == exists,
        r.workspace_root@ == cfg.workspace_root@,
        r.config_path@ == cfg.config_path@,
        r.sync_policy == cfg.raw.sync.on_exit,
        !exists ==> r.fs_type is None && r.total is None && r.available is None && r.used is None
            && r.diff_changed == 0 && r.diff_added == 0 && r.diff_deleted == 0,
        exists && capacity is None ==> r.fs_type is None && r.total is None && r.available is None
            && r.used is None,
        exists ==> (capacity matches Some(st) ==> (r.fs_type matches Some(t) && t@ == st.fs_type@)
            && (r.total matches Some(t) && t@ == format_bytes_spec(st.total)) && (
        r.available matches Some(t)
            && t@ == format_bytes_spec(st.available)) && (r.used matches Some(t) && t@
            == format_bytes_spec(st.used))),
        exists ==> r.diff_changed == diff_totals(diffs@).0 && r.diff_added == diff_totals(
            diffs@,
        ).1 && r.diff_deleted == diff_totals(diffs@).2,
{
    let mut fs_type: Option<String> = None;
    let mut total: Option<String> = None;
    let mut available: Option<String> = None;
    let mut used: Option<String> = None;
    if exists {
        match capacity {
            Some(st) => {
                fs_type = Some(st.fs_type);
                total = Some(format_bytes(st.total));
                available = Some(format_bytes(st.available));
                used = Some(format_bytes(st.used));
            },
            None => {
            },
        }
    }
    let mut diff_changed: usize = 0;
    let mut diff_added: usize = 0;
    let mut diff_deleted: usize = 0;
    if exists {
        let n = diffs.len();
        let mut i: usize = 0;
        proof {
            assert(diffs@.take(0) =~= Seq::<Option<DiffSummary>>::empty());
        }
        while i < n
            invariant
                i <= n,
                n == diffs@.len(),
                diff_totals(diffs@).0 <= usize::MAX,
                diff_totals(diffs@).1 <= usize::MAX,
                diff_totals(diffs@).2 <= usize::MAX,
                diff_changed == diff_totals(diffs@.take(i as int)).0,
                diff_added == diff_totals(diffs@.take(i as int)).1,
                diff_deleted == diff_totals(diffs@.take(i as int)).2,
            decreases n - i,
        {
            proof {
                lemma_diff_totals_prefix(diffs@, i + 1);
                lemma_diff_totals_nonneg(diffs@.take(i as int));
                assert(diffs@.take(i + 1).drop_last() =~= diffs@.take(i as int));
                assert(diffs@.take(i + 1).last() == diffs@[i as int]);
            }
            match &diffs[i] {
                Some(s) => {
                    diff_changed = diff_changed + s.changed;
                    diff_added = diff_added + s.added;
                    diff_deleted = diff_deleted + s.deleted;
                },
                None => {
                },
            }
            i += 1;
        }
        proof {
            assert(diffs@.take(n as int) =~= diffs@);
        }
    }
    StatusReport {
        workspace_exists: exists,
        workspace_root: cfg.workspace_root.clone(),
        fs_type,
        total,
        available,
        used,
        diff_changed,
        diff_added,
        diff_deleted,
        sync_policy: cfg.raw.sync.on_exit,
        config_path: cfg.config_path.clone(),
    }
}

} // verus!
