//! Command-level decisions: configuration discovery, what a shell exit
//! does about pending changes, and the guard in front of workspace
//! destruction.
//!
//! Each function here decides; the surrounding binary observes (runs the
//! dry-run comparisons, prompts the operator) and then acts on the
//! decision.

use vstd::prelude::*;
use vstd::string::*;

use crate::config::BuildDirSpec;
use crate::config::BuildDirType;
use crate::config::ResolvedConfig;
use crate::config::SourceSpec;
use crate::config::SyncOnExit;
use crate::syncer::DiffSummary;
use crate::syncer::SyncStep;
use crate::syncer::confirm_if_needed;
use crate::syncer::refresh_from_orig;
use crate::syncer::refresh_plan;
use crate::syncer::steps_view;
use crate::syncer::string_views;
use crate::syncer::sync_back;
use crate::syncer::sync_back_plan;
use crate::util::contains_string;
use crate::util::join_path;
use crate::util::join_path_spec;
use crate::util::lemma_lex_refl;
use crate::util::lemma_lex_total;
use crate::util::lemma_lex_trans;
use crate::util::lemma_parent_shorter;
use crate::util::lex_le;
use crate::util::parent_path;
use crate::util::parent_path_spec;
use crate::util::str_eq;
use crate::util::str_lex_le;
use crate::workspace::collect_paths_by_role;
use crate::workspace::paths_by_role_spec;

verus! {

/// The configuration file found by a walk up from `p`: the file name
/// joined onto the nearest of `p` and its ancestors where it exists
/// (`present` lists exactly the paths that exist), if any.
pub open spec fn discover_config_spec(p: Seq<char>, present: Seq<Seq<char>>) -> Option<Seq<char>>
    decreases p.len(),
{
    let cand = join_path_spec(p, ".ramws.yml"@);
    if present.contains(cand) {
        Some(cand)
    } else {
        match parent_path_spec(p) {
            None => None,
            Some(q) => if q.len() < p.len() {
                discover_config_spec(q, present)
            } else {
                None
            },
        }
    }
}

/// Searches `root` and its ancestors for the settings file; `present`
/// lists exactly the candidate paths that exist on disk. `None` means no
/// settings file was found anywhere up to the filesystem root.
pub fn discover_config(root: &str, present: &Vec<String>) -> (r: Option<String>)
    requires
        root@.len() > 0,
        root@[0] == '/',
    ensures
        match r {
            Some(p) => discover_config_spec(root@, present@.map_values(|s: String| s@)) == Some(
                p@,
            ),
            None => discover_config_spec(root@, present@.map_values(|s: String| s@)) is None,
        },
{
    let ghost ps = present@.map_values(|s: String| s@);
    let mut current = root.to_owned();
    loop
        invariant
            current@.len() > 0,
            current@[0] == '/',
            ps == present@.map_values(|s: String| s@),
            discover_config_spec(current@, ps) == discover_config_spec(root@, ps),
        decreases current@.len(),
    {
        let cand = join_path(current.as_str(), ".ramws.yml");
        let found = contains_string(present, cand.as_str());
        proof {
            if found {
                let i = choose|i: int| 0 <= i < present@.len() && present@[i]@ == cand@;
                assert(ps[i] == cand@);
            } else {
                if ps.contains(cand@) {
                    let i = choose|i: int| 0 <= i < ps.len() && ps[i] == cand@;
                    assert(present@[i]@ == cand@);
                }
            }
        }
        if found {
            return Some(cand);
        }
        proof {
            lemma_parent_shorter(current@);
        }
        match parent_path(current.as_str()) {
            None => {
                return None;
            },
            Some(q) => {
                current = q;
            },
        }
    }
}

/// What a shell exit does about pending workspace changes.
#[derive(Debug, Clone, Copy, PartialEq, Eq, Structural)]
pub enum OnExitAction {
    DoNothing,
    SyncBack,
}

/// Some mapping's comparison recorded at least one pending change.
pub open spec fn any_pending(diffs: Seq<DiffSummary>) -> bool {
    exists|i: int| 0 <= i < diffs.len() && diffs[i].total_spec() > 0
}

/// Whether any of the per-mapping comparisons recorded a pending change.
pub fn any_pending_exec(diffs: &Vec<DiffSummary>) -> (r: bool)
    ensures
        r == any_pending(diffs@),
{
    let n = diffs.len();
    let mut i: usize = 0;
    while i < n
        invariant
            i <= n,
            n == diffs@.len(),
            forall|j: int| 0 <= j < i ==> diffs@[j].total_spec() == 0,
        decreases n - i,
    {
        if !diffs[i].is_zero() {
            assert(diffs@[i as int].total_spec() > 0);
            return true;
        }
        i += 1;
    }
    false
}

/// Whether handling a shell exit will need an operator prompt: only the
/// Ask policy prompts, only when changes are pending, and never in
/// noninteractive mode.
pub fn on_exit_needs_prompt(
    policy: SyncOnExit,
    diffs: &Vec<DiffSummary>,
    noninteractive: bool,
) -> (r: bool)
    ensures
        r == (policy == SyncOnExit::Ask && any_pending(diffs@) && !noninteractive),
{
    match policy {
        SyncOnExit::Ask => !noninteractive && any_pending_exec(diffs),
        _ => false,
    }
}

/// Decides what a shell exit does about pending changes. Under `Never`,
/// nothing happens, whatever is pending. Under `Auto`, the write-back
/// always runs, without prompting, even with no pending changes. Under
/// `Ask`, pending changes put the question to the operator — auto-yes when
/// noninteractive, default yes on an empty answer — and no pending changes
/// mean nothing happens.
pub fn handle_on_exit(
    policy: SyncOnExit,
    diffs: &Vec<DiffSummary>,
    noninteractive: bool,
    answer: Option<bool>,
) -> (r: OnExitAction)
    ensures
        policy == SyncOnExit::Never ==> r == OnExitAction::DoNothing,
        policy == SyncOnExit::Auto ==> r == OnExitAction::SyncBack,
        policy == SyncOnExit::Ask && !any_pending(diffs@) ==> r == OnExitAction::DoNothing,
        policy == SyncOnExit::Ask && any_pending(diffs@) ==> (r == OnExitAction::SyncBack <==> (
        noninteractive || (match answer {
            None => true,
            Some(b) => b,
        }))),
{
    match policy {
        SyncOnExit::Never => OnExitAction::DoNothing,
        SyncOnExit::Auto => OnExitAction::SyncBack,
        SyncOnExit::Ask => {
            if any_pending_exec(diffs) {
                if confirm_if_needed(noninteractive, answer) {
                    OnExitAction::SyncBack
                } else {
                    OnExitAction::DoNothing
                }
            } else {
                OnExitAction::DoNothing
            }
        },
    }
}

/// Whether a destroy request proceeds. An absent workspace leaves nothing
/// to do. `force` skips the safety check. Otherwise pending changes
/// require the operator's consent — auto-yes when noninteractive, default
/// yes on an empty answer — and with no pending changes the removal
/// proceeds unasked.
pub fn destroy_decision(
    exists: bool,
    force: bool,
    pending: &DiffSummary,
    noninteractive: bool,
    answer: Option<bool>,
) -> (r: bool)
    ensures
        !exists ==> !r,
        exists && force ==> r,
        exists && !force && pending.total_spec() == 0 ==> r,
        exists && !force && pending.total_spec() > 0 ==> (r <==> (noninteractive || (
        match answer {
            None => true,
            Some(b) => b,
        }))),
{
    if !exists {
        false
    } else if force {
        true
    } else if pending.is_zero() {
        true
    } else {
        confirm_if_needed(noninteractive, answer)
    }
}

/// Pairwise ascending and duplicate-free.
pub open spec fn sorted_distinct(s: Seq<Seq<char>>) -> bool {
    forall|i: int, j: int|
        #![trigger s[i], s[j]]
        0 <= i < j < s.len() ==> lex_le(s[i], s[j]) && s[i] != s[j]
}

/// Some element of `s` spells `q`.
pub open spec fn has_view(s: Seq<Seq<char>>, q: Seq<char>) -> bool {
    exists|i: int| 0 <= i < s.len() && s[i] == q
}

/// Finds where `x` belongs in the sorted duplicate-free list `r`: either
/// it is already there, or the position in front of the first larger
/// element.
fn scan_insert_pos(r: &Vec<String>, x: &str) -> (res: (bool, usize))
    ensures
        res.0 ==> has_view(string_views(r@), x@),
        !res.0 ==> res.1 <= r@.len() && (forall|j: int|
            0 <= j < res.1 ==> lex_le(string_views(r@)[j], x@) && string_views(r@)[j] != x@) && (
        res.1 < r@.len() ==> !lex_le(string_views(r@)[res.1 as int], x@)),
{
    let n = r.len();
    let mut p: usize = 0;
    while p < n
        invariant
            p <= n,
            n == r@.len(),
            forall|j: int|
                0 <= j < p ==> lex_le(string_views(r@)[j], x@) && string_views(r@)[j] != x@,
        decreases n - p,
    {
        if str_eq(r[p].as_str(), x) {
            proof {
                assert(string_views(r@)[p as int] == x@);
            }
            return (true, p);
        }
        if !str_lex_le(r[p].as_str(), x) {
            return (false, p);
        }
        p += 1;
    }
    (false, p)
}

/// Inserts a path into a sorted duplicate-free list, keeping it sorted
/// and duplicate-free; a path already present is left alone.
fn insert_sorted_unique(r: &mut Vec<String>, x: String)
    requires
        sorted_distinct(string_views(old(r)@)),
    ensures
        sorted_distinct(string_views(final (r)@)),
        forall|q: Seq<char>|
            has_view(string_views(final (r)@), q) <==> (has_view(string_views(old(r)@), q) || q
                == x@),
{
    let ghost s0 = string_views(r@);
    let ghost xv = x@;
    let (found, p) = scan_insert_pos(r, x.as_str());
    if found {
        return ;
    }
    r.insert(p, x);
    proof {
        let s1 = string_views(r@);
        assert(s1.len() == s0.len() + 1);
        assert(forall|i: int| 0 <= i < p ==> s1[i] == s0[i]);
        assert(s1[p as int] == xv);
        assert(forall|i: int| p < i < s1.len() ==> s1[i] == s0[i - 1]);
        if (p as int) < s0.len() {
            lemma_lex_total(s0[p as int], xv);
            if s0[p as int] == xv {
                lemma_lex_refl(xv);
                assert(false);
            }
        }
        assert forall|i: int, j: int| 0 <= i < j < s1.len() implies lex_le(s1[i], s1[j]) && s1[i]
            != s1[j] by {
            if j < p {
            } else if i < p && j == p {
            } else if i < p && j > p {
                assert(s1[i] == s0[i] && s1[j] == s0[j - 1]);
            } else if i == p {
                if j - 1 > p {
                    assert(lex_le(s0[p as int], s0[j - 1]) && s0[p as int] != s0[j - 1]);
                    lemma_lex_trans(xv, s0[p as int], s0[j - 1]);
                    if xv == s0[j - 1] {
                        assert(lex_le(s0[p as int], xv));
                        assert(false);
                    }
                }
            } else {
                assert(s1[i] == s0[i - 1] && s1[j] == s0[j - 1]);
            }
        }
        assert forall|q: Seq<char>| has_view(s1, q) implies (has_view(s0, q) || q == xv) by {
            let i = choose|i: int| 0 <= i < s1.len() && s1[i] == q;
            if i < p {
                assert(s0[i] == q);
            } else if i > p {
                assert(s0[i - 1] == q);
            }
        }
        assert forall|q: Seq<char>| has_view(s0, q) implies has_view(s1, q) by {
            let i = choose|i: int| 0 <= i < s0.len() && s0[i] == q;
            if i < p {
                assert(s1[i] == q);
            } else {
                assert(s1[i + 1] == q);
            }
        }
        assert(s1[p as int] == xv);
    }
}

/// The paths sorted ascending by code point and with duplicates removed.
fn sort_dedup_paths(v: &Vec<String>) -> (r: Vec<String>)
    ensures
        sorted_distinct(string_views(r@)),
        forall|q: Seq<char>| has_view(string_views(r@), q) <==> has_view(string_views(v@), q),
{
    let n = v.len();
    let mut r: Vec<String> = Vec::new();
    let mut i: usize = 0;
    while i < n
        invariant
            i <= n,
            n == v@.len(),
            sorted_distinct(string_views(r@)),
            forall|q: Seq<char>|
                has_view(string_views(r@), q) <==> has_view(string_views(v@).take(i as int), q),
        decreases n - i,
    {
        insert_sorted_unique(&mut r, v[i].clone());
        proof {
            let sv = string_views(v@);
            assert forall|q: Seq<char>|
                has_view(string_views(r@), q) <==> has_view(sv.take(i + 1), q) by {
                if has_view(sv.take(i + 1), q) {
                    let k = choose|k: int| 0 <= k < i + 1 && #[trigger] sv.take(i + 1)[k] == q;
                    if k < i {
                        assert(sv.take(i as int)[k] == q);
                    } else {
                        assert(q == v@[i as int]@);
                    }
                }
                if has_view(sv.take(i as int), q) {
                    let k = choose|k: int| 0 <= k < i && sv.take(i as int)[k] == q;
                    assert(sv.take(i + 1)[k] == q);
                }
                if q == v@[i as int]@ {
                    assert(sv.take(i + 1)[i as int] == q);
                }
            }
        }
        i += 1;
    }
    proof {
        assert(string_views(v@).take(n as int) =~= string_views(v@));
    }
    r
}

/// The role selector of an explicit sync invocation.
#[derive(Debug, Clone, Copy, PartialEq, Eq, Structural)]
pub enum Role {
    Source,
    Cache,
    Scratch,
}

/// Membership of a role selector in a selector list.
pub fn roles_have(roles: &Vec<Role>, t: Role) -> (r: bool)
    ensures
        r == roles@.contains(t),
{
    let n = roles.len();
    let mut i: usize = 0;
    while i < n
        invariant
            i <= n,
            n == roles@.len(),
            forall|j: int| 0 <= j < i ==> roles@[j] != t,
        decreases n - i,
    {
        if roles[i] == t {
            assert(roles@.contains(t));
            return true;
        }
        i += 1;
    }
    false
}

/// The raw pool of an explicit sync invocation before ordering: the
/// source mappings when no role is named or the source role is, then the
/// cache-tagged and the scratch-tagged build directories when their roles
/// are.
pub open spec fn role_pool(
    sources: Seq<SourceSpec>,
    build_dirs: Seq<BuildDirSpec>,
    roles: Seq<Role>,
) -> Seq<Seq<char>> {
    (if roles.len() == 0 || roles.contains(Role::Source) {
        sources.map_values(|s: SourceSpec| s.path@)
    } else {
        Seq::<Seq<char>>::empty()
    }) + (if roles.contains(Role::Cache) {
        paths_by_role_spec(build_dirs, BuildDirType::Cache)
    } else {
        Seq::<Seq<char>>::empty()
    }) + (if roles.contains(Role::Scratch) {
        paths_by_role_spec(build_dirs, BuildDirType::Scratch)
    } else {
        Seq::<Seq<char>>::empty()
    })
}

/// The selection an explicit sync invocation acts on. Explicitly named
/// paths are taken as given, in their order. Otherwise the role pool is
/// sorted ascending with duplicates removed; when that leaves nothing,
/// every source mapping is selected instead.
pub open spec fn sync_selection_ok(
    sources: Seq<SourceSpec>,
    build_dirs: Seq<BuildDirSpec>,
    roles: Seq<Role>,
    only: Seq<Seq<char>>,
    sel: Seq<Seq<char>>,
) -> bool {
    if only.len() > 0 {
        sel == only
    } else {
        let pool = role_pool(sources, build_dirs, roles);
        if pool.len() == 0 {
            sel == sources.map_values(|s: SourceSpec| s.path@)
        } else {
            sorted_distinct(sel) && (forall|q: Seq<char>| has_view(sel, q) <==> has_view(pool, q))
        }
    }
}

/// Computes the selection and the plan of one explicit sync invocation:
/// the paths it covers, and the staged write-back plan (`back`) or the
/// refresh plan over exactly those paths.
pub fn sync_command(cfg: &ResolvedConfig, back: bool, only: Vec<String>, roles: Vec<Role>) -> (r: (
    Vec<String>,
    Vec<SyncStep>,
))
    requires
        cfg.wf(),
    ensures
        sync_selection_ok(
            cfg.raw.sources@,
            cfg.raw.build_dirs@,
            roles@,
            string_views(only@),
            string_views(r.0@),
        ),
        back ==> steps_view(r.1@) == sync_back_plan(
            cfg.orig_root@,
            cfg.workspace_root@,
            cfg.raw.sync.delete,
            string_views(r.0@),
        ),
        !back ==> steps_view(r.1@) == refresh_plan(
            cfg.orig_root@,
            cfg.workspace_root@,
            cfg.raw.sync.delete,
            string_views(r.0@),
        ),
{
    let ghost pool_spec = role_pool(cfg.raw.sources@, cfg.raw.build_dirs@, roles@);
    let selected: Vec<String> = if only.len() > 0 {
        only
    } else {
        let mut pool: Vec<String> = Vec::new();
        if roles.len() == 0 || roles_have(&roles, Role::Source) {
            let ns = cfg.raw.sources.len();
            let mut i: usize = 0;
            while i < ns
                invariant
                    i <= ns,
                    ns == cfg.raw.sources@.len(),
                    pool@.len() == i,
                    forall|j: int| 0 <= j < i ==> pool@[j]@ == cfg.raw.sources@[j].path@,
                decreases ns - i,
            {
                pool.push(cfg.raw.sources[i].path.clone());
                i += 1;
            }
            proof {
                assert(string_views(pool@) =~= cfg.raw.sources@.map_values(
                    |s: SourceSpec| s.path@,
                ));
            }
        }
        let ghost part1 = string_views(pool@);
        proof {
            assert(part1 == (if roles@.len() == 0 || roles@.contains(Role::Source) {
                cfg.raw.sources@.map_values(|s: SourceSpec| s.path@)
            } else {
                Seq::<Seq<char>>::empty()
            })) by {
                if !(roles@.len() == 0 || roles@.contains(Role::Source)) {
                    assert(string_views(pool@) =~= Seq::<Seq<char>>::empty());
                }
            }
        }
        if roles_have(&roles, Role::Cache) {
            let part = collect_paths_by_role(&cfg.raw.build_dirs, BuildDirType::Cache);
            let np = part.len();
            let mut k: usize = 0;
            while k < np
                invariant
                    k <= np,
                    np == part@.len(),
                    pool@.len() == part1.len() + k,
                    forall|j: int| 0 <= j < part1.len() ==> pool@[j]@ == part1[j],
                    forall|j: int| 0 <= j < k ==> pool@[part1.len() + j]@ == part@[j]@,
                decreases np - k,
            {
                pool.push(part[k].clone());
                k += 1;
            }
            proof {
                assert(string_views(pool@) =~= part1 + string_views(part@));
            }
        }
        let ghost part2 = string_views(pool@);
        proof {
            assert(part2 == part1 + (if roles@.contains(Role::Cache) {
                paths_by_role_spec(cfg.raw.build_dirs@, BuildDirType::Cache)
            } else {
                Seq::<Seq<char>>::empty()
            })) by {
                if !roles@.contains(Role::Cache) {
                    assert(part2 =~= part1 + Seq::<Seq<char>>::empty());
                }
            }
        }
        if roles_have(&roles, Role::Scratch) {
            let part = collect_paths_by_role(&cfg.raw.build_dirs, BuildDirType::Scratch);
            let np = part.len();
            let mut k: usize = 0;
            while k < np
                invariant
                    k <= np,
                    np == part@.len(),
                    pool@.len() == part2.len() + k,
                    forall|j: int| 0 <= j < part2.len() ==> pool@[j]@ == part2[j],
                    forall|j: int| 0 <= j < k ==> pool@[part2.len() + j]@ == part@[j]@,
                decreases np - k,
            {
                pool.push(part[k].clone());
                k += 1;
            }
            proof {
                assert(string_views(pool@) =~= part2 + string_views(part@));
            }
        }
        proof {
            assert(string_views(pool@) == pool_spec) by {
                if !roles@.contains(Role::Scratch) {
                    assert(string_views(pool@) =~= part2 + Seq::<Seq<char>>::empty());
                }
            }
        }
        let sorted = sort_dedup_paths(&pool);
        if sorted.len() == 0 {
            proof {
                if pool_spec.len() > 0 {
                    assert(has_view(pool_spec, pool_spec[0]));
                    assert(has_view(string_views(sorted@), pool_spec[0]));
                }
            }
            let ns = cfg.raw.sources.len();
            let mut sel: Vec<String> = Vec::new();
            let mut i: usize = 0;
            while i < ns
                invariant
                    i <= ns,
                    ns == cfg.raw.sources@.len(),
                    sel@.len() == i,
                    forall|j: int| 0 <= j < i ==> sel@[j]@ == cfg.raw.sources@[j].path@,
                decreases ns - i,
            {
                sel.push(cfg.raw.sources[i].path.clone());
                i += 1;
            }
            proof {
                assert(string_views(sel@) =~= cfg.raw.sources@.map_values(
                    |s: SourceSpec| s.path@,
                ));
            }
            sel
        } else {
            proof {
                if pool_spec.len() == 0 {
                    assert(has_view(string_views(sorted@), string_views(sorted@)[0]));
                }
            }
            sorted
        }
    };
    let plan: Vec<SyncStep> = if back {
        sync_back(cfg, &selected)
    } else {
        refresh_from_orig(cfg, &selected)
    };
    (selected, plan)
}

} // verus!
