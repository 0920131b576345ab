//! A mathematical model of the mirrored trees, and the laws of the
//! synchronization protocol.
//!
//! A tree is the map from the relative paths of the files under one
//! mapping's subtree to their contents; mappings are independent, so each
//! law speaks of one mapping's trees. One mirror invocation makes the
//! selected part of the destination agree with the source. The selection
//! function stands for the external process's filter handling: the laws
//! hold for every selection, and the unfiltered mirrors of refresh and
//! write-back use the total selection.

use vstd::prelude::*;

verus! {

/// The files of one subtree: relative path to content.
pub type Tree = Map<Seq<char>, Seq<char>>;

/// The destination tree after one mirror: on selected paths the source's
/// files, a destination-only entry surviving exactly when the delete
/// policy is off; on unselected paths the destination unchanged.
pub open spec fn mirror_tree(
    src: Tree,
    dst: Tree,
    delete: bool,
    sel: spec_fn(Seq<char>) -> bool,
) -> Tree {
    Map::new(
        |p: Seq<char>|
            if sel(p) {
                src.dom().contains(p) || (!delete && dst.dom().contains(p))
            } else {
                dst.dom().contains(p)
            },
        |p: Seq<char>|
            if sel(p) && src.dom().contains(p) {
                src[p]
            } else {
                dst[p]
            },
    )
}

/// The selection of an unfiltered mirror: every path.
pub open spec fn select_all() -> spec_fn(Seq<char>) -> bool {
    |p: Seq<char>| true
}

/// `a` and `b` agree on every selected path: the same files with the same
/// contents. A correct dry-run comparison of two such trees reports no
/// added, changed or deleted entry, so its itemization classifies to an
/// all-zero diff summary.
pub open spec fn trees_agree(a: Tree, b: Tree, sel: spec_fn(Seq<char>) -> bool) -> bool {
    forall|p: Seq<char>|
        sel(p) ==> ((a.dom().contains(p) <==> b.dom().contains(p)) && (a.dom().contains(p)
            ==> a[p] == b[p]))
}

/// Mirroring is idempotent: a second identical mirror with an unchanged
/// source leaves the destination exactly as the first left it.
pub proof fn lemma_mirror_idempotent(
    src: Tree,
    dst: Tree,
    delete: bool,
    sel: spec_fn(Seq<char>) -> bool,
)
    ensures
        mirror_tree(src, mirror_tree(src, dst, delete, sel), delete, sel) == mirror_tree(
            src,
            dst,
            delete,
            sel,
        ),
{
    let m1 = mirror_tree(src, dst, delete, sel);
    let m2 = mirror_tree(src, m1, delete, sel);
    assert(m2 =~= m1);
}

/// A delete-policy mirror leaves destination and source in agreement on
/// every selected path.
pub proof fn lemma_mirror_syncs(src: Tree, dst: Tree, sel: spec_fn(Seq<char>) -> bool)
    ensures
        trees_agree(mirror_tree(src, dst, true, sel), src, sel),
{
}

/// The three trees that one mapping's write-back touches.
pub struct SyncState {
    pub ws: Tree,
    pub stage: Tree,
    pub orig: Tree,
}

/// Phase one of the write-back: the staging copy is recreated empty.
pub open spec fn stage_reset(s: SyncState) -> SyncState {
    SyncState { ws: s.ws, stage: Map::empty(), orig: s.orig }
}

/// Phase two of the write-back: the workspace subtree is mirrored onto the
/// staging copy.
pub open spec fn stage_fill(s: SyncState, delete: bool) -> SyncState {
    SyncState { ws: s.ws, stage: mirror_tree(s.ws, s.stage, delete, select_all()), orig: s.orig }
}

/// Phase three of the write-back: the staged snapshot is mirrored onto the
/// origin subtree.
pub open spec fn origin_update(s: SyncState, delete: bool) -> SyncState {
    SyncState { ws: s.ws, stage: s.stage, orig: mirror_tree(s.stage, s.orig, delete, select_all()) }
}

/// A refresh: the origin subtree is mirrored onto the workspace.
pub open spec fn workspace_refresh(s: SyncState, delete: bool) -> SyncState {
    SyncState { ws: mirror_tree(s.orig, s.ws, delete, select_all()), stage: s.stage, orig: s.orig }
}

/// Provisioning: the origin subtree is mirrored onto the workspace under
/// one mapping's filters.
pub open spec fn workspace_provision(
    s: SyncState,
    delete: bool,
    sel: spec_fn(Seq<char>) -> bool,
) -> SyncState {
    SyncState { ws: mirror_tree(s.orig, s.ws, delete, sel), stage: s.stage, orig: s.orig }
}

/// Provisioning is idempotent: provisioning again, with the origin
/// unchanged in between, yields an identical workspace tree. Under the
/// delete policy the freshly provisioned workspace also agrees with its
/// origin on every selected path, so the drift a dry-run comparison
/// reports against origin is zero. (Without the delete policy a stale
/// workspace-only file survives provisioning, and the second claim does
/// not hold of it.)
pub proof fn lemma_provision_idempotent(
    s: SyncState,
    delete: bool,
    sel: spec_fn(Seq<char>) -> bool,
)
    ensures
        workspace_provision(workspace_provision(s, delete, sel), delete, sel).ws
            == workspace_provision(s, delete, sel).ws,
        delete ==> trees_agree(workspace_provision(s, delete, sel).ws, s.orig, sel),
{
    lemma_mirror_idempotent(s.orig, s.ws, delete, sel);
    if delete {
        lemma_mirror_syncs(s.orig, s.ws, sel);
    }
}

/// Crash safety of the staged write-back: after the staging phases and
/// before the origin update, the origin subtree is untouched and the
/// staging directory holds the complete pending snapshot — exactly the
/// workspace's files. Interruption there loses nothing but the disposable
/// staging tree.
pub proof fn lemma_syncback_crash_window(s: SyncState, delete: bool)
    ensures
        ({
            let mid = stage_fill(stage_reset(s), delete);
            mid.orig == s.orig && mid.ws == s.ws && mid.stage == s.ws
        }),
{
    let mid = stage_fill(stage_reset(s), delete);
    assert(mid.stage =~= s.ws);
}

/// Round trip: writing the workspace back (staged) and then refreshing
/// from origin preserves every workspace file with its content, for any
/// delete policy; under the delete policy the workspace tree afterwards is
/// exactly what it was, and the origin subtree is exactly the workspace's
/// snapshot.
pub proof fn lemma_syncback_refresh_round_trip(s: SyncState, delete: bool)
    ensures
        ({
            let done = workspace_refresh(
                origin_update(stage_fill(stage_reset(s), delete), delete),
                delete,
            );
            (forall|p: Seq<char>|
                s.ws.dom().contains(p) ==> done.ws.dom().contains(p) && done.ws[p] == s.ws[p])
                && (delete ==> done.ws == s.ws && done.orig == s.ws)
        }),
{
    let mid = stage_fill(stage_reset(s), delete);
    assert(mid.stage =~= s.ws);
    let s3 = origin_update(mid, delete);
    let done = workspace_refresh(s3, delete);
    assert forall|p: Seq<char>|
        s.ws.dom().contains(p) implies done.ws.dom().contains(p) && done.ws[p] == s.ws[p] by {
        assert(select_all()(p));
        assert(s3.orig.dom().contains(p));
        assert(s3.orig[p] == s.ws[p]);
    }
    if delete {
        assert(s3.orig =~= s.ws);
        assert(done.ws =~= s.ws);
    }
}

} // verus!
