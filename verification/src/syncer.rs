//! The one-directional tree-mirroring primitive, the diff engine built on
//! its dry-run itemization, and the staged write-back orchestration.
//!
//! The mirroring itself is an external process. This module plans its
//! invocations — every command line is pinned down exactly — and
//! classifies what the process reports; the surrounding binary runs the
//! planned steps in order and feeds outcomes back.

use vstd::prelude::*;
use vstd::string::*;

use crate::SyncError;
use crate::config::BuildDirSpec;
use crate::config::BuildDirType;
use crate::config::ResolvedConfig;
use crate::config::SourceSpec;
use crate::util::join_path;
use crate::util::join_path_spec;
use crate::util::lemma_parent_shorter;
use crate::util::parent_path;
use crate::util::parent_path_spec;
use crate::util::path_with_trailing_slash;
use crate::util::seq_starts_with;
use crate::util::str_starts_with;
use crate::util::with_trailing_slash;

verus! {

/// Direction of one mirror invocation.
#[derive(Debug, Clone, Copy, PartialEq, Eq, Structural)]
pub enum SyncDirection {
    OrigToWorkspace,
    WorkspaceToOrig,
}

/// Options of one mirror invocation: whether destination-only entries are
/// removed, the ordered filter pattern lists, and the dry-run/itemize
/// switches.
#[derive(Debug, Clone)]
pub struct SyncOptions {
    pub delete: bool,
    pub include_patterns: Vec<String>,
    pub exclude_patterns: Vec<String>,
    pub itemize: bool,
    pub dry_run: bool,
}

/// Ghost description of mirror options.
pub struct SyncOptionsModel {
    pub delete: bool,
    pub include_patterns: Seq<Seq<char>>,
    pub exclude_patterns: Seq<Seq<char>>,
    pub itemize: bool,
    pub dry_run: bool,
}

impl View for SyncOptions {
    type V = SyncOptionsModel;

    open spec fn view(&self) -> SyncOptionsModel {
        SyncOptionsModel {
            delete: self.delete,
            include_patterns: self.include_patterns@.map_values(|p: String| p@),
            exclude_patterns: self.exclude_patterns@.map_values(|p: String| p@),
            itemize: self.itemize,
            dry_run: self.dry_run,
        }
    }
}

/// `{added, changed, deleted}` counts for one path-pair comparison;
/// summable across mappings.
#[derive(Debug, Clone, PartialEq, Eq, Structural)]
pub struct DiffSummary {
    pub changed: usize,
    pub added: usize,
    pub deleted: usize,
}

impl Default for DiffSummary {
    fn default() -> (r: Self)
        ensures
            r.changed == 0,
            r.added == 0,
            r.deleted == 0,
    {
        DiffSummary { changed: 0, added: 0, deleted: 0 }
    }
}

impl DiffSummary {
    /// The combined number of recorded changes.
    pub open spec fn total_spec(&self) -> int {
        self.changed + self.added + self.deleted
    }

    /// True when no change of any category was recorded.
    pub fn is_zero(&self) -> (r: bool)
        ensures
            r == (self.total_spec() == 0),
    {
        self.changed == 0 && self.added == 0 && self.deleted == 0
    }
}

/// Classification of one itemization line.
#[derive(Debug, Clone, Copy, PartialEq, Eq, Structural)]
pub enum LineClass {
    Added,
    Changed,
    Deleted,
    Ignored,
}

/// What one itemization line of the external mirroring process denotes:
/// the eleven-character all-attributes-differ file prefix marks a
/// brand-new file; the other file-transfer, metadata-change or
/// directory-change prefixes mark a changed entry; the deletion keyword
/// marks a removed destination entry; every other line is ignored.
pub open spec fn classify_line_spec(l: Seq<char>) -> LineClass {
    if seq_starts_with(l, ">f+++++++++"@) {
        LineClass::Added
    } else if seq_starts_with(l, ">f"@) || seq_starts_with(l, ".f"@) || seq_starts_with(l, "cD"@) {
        LineClass::Changed
    } else if seq_starts_with(l, "*deleting"@) {
        LineClass::Deleted
    } else {
        LineClass::Ignored
    }
}

/// Classifies one itemization line.
pub fn classify_line(line: &str) -> (r: LineClass)
    ensures
        r == classify_line_spec(line@),
{
    if str_starts_with(line, ">f+++++++++") {
        LineClass::Added
    } else if str_starts_with(line, ">f") || str_starts_with(line, ".f") || str_starts_with(
        line,
        "cD",
    ) {
        LineClass::Changed
    } else if str_starts_with(line, "*deleting") {
        LineClass::Deleted
    } else {
        LineClass::Ignored
    }
}

/// The views of a list of strings.
pub open spec fn string_views(v: Seq<String>) -> Seq<Seq<char>> {
    v.map_values(|s: String| s@)
}

proof fn lemma_string_views_push(v: Seq<String>, s: String)
    ensures
        string_views(v.push(s)) == string_views(v).push(s@),
{
    assert(string_views(v.push(s)) =~= string_views(v).push(s@));
}

/// Count of the lines of one class among `lines`.
pub open spec fn count_class(lines: Seq<Seq<char>>, c: LineClass) -> nat
    decreases lines.len(),
{
    if lines.len() == 0 {
        0
    } else {
        count_class(lines.drop_last(), c) + (if classify_line_spec(lines.last()) == c {
            1nat
        } else {
            0nat
        })
    }
}

proof fn lemma_count_class_le(lines: Seq<Seq<char>>, c: LineClass)
    ensures
        count_class(lines, c) <= lines.len(),
    decreases lines.len(),
{
    if lines.len() > 0 {
        lemma_count_class_le(lines.drop_last(), c);
    }
}

/// Aggregates the dry-run itemization of one path-pair comparison into
/// per-category change counts. Never mutates either tree: it only reads
/// what the dry run reported.
pub fn diff_path(itemized: &Vec<String>) -> (r: DiffSummary)
    ensures
        r.added == count_class(string_views(itemized@), LineClass::Added),
        r.changed == count_class(string_views(itemized@), LineClass::Changed),
        r.deleted == count_class(string_views(itemized@), LineClass::Deleted),
{
    let ghost all = string_views(itemized@);
    let n = itemized.len();
    let mut added: usize = 0;
    let mut changed: usize = 0;
    let mut deleted: usize = 0;
    let mut i: usize = 0;
    proof {
        assert(all.take(0) =~= Seq::<Seq<char>>::empty());
    }
    while i < n
        invariant
            i <= n,
            n == itemized@.len(),
            all == string_views(itemized@),
            added == count_class(all.take(i as int), LineClass::Added),
            changed == count_class(all.take(i as int), LineClass::Changed),
            deleted == count_class(all.take(i as int), LineClass::Deleted),
        decreases n - i,
    {
        proof {
            lemma_count_class_le(all.take(i as int), LineClass::Added);
            lemma_count_class_le(all.take(i as int), LineClass::Changed);
            lemma_count_class_le(all.take(i as int), LineClass::Deleted);
            assert(all.take(i + 1).drop_last() =~= all.take(i as int));
            assert(all.take(i + 1).last() == itemized@[i as int]@);
        }
        match classify_line(itemized[i].as_str()) {
            LineClass::Added => {
                added += 1;
            },
            LineClass::Changed => {
                changed += 1;
            },
            LineClass::Deleted => {
                deleted += 1;
            },
            LineClass::Ignored => {
            },
        }
        i += 1;
    }
    proof {
        assert(all.take(n as int) =~= all);
    }
    DiffSummary { changed, added, deleted }
}

/// One include-filter argument.
pub open spec fn include_arg(p: Seq<char>) -> Seq<char> {
    "--include="@ + p
}

/// One exclude-filter argument.
pub open spec fn exclude_arg(p: Seq<char>) -> Seq<char> {
    "--exclude="@ + p
}

/// The include-filter arguments for a pattern list, in order.
pub open spec fn include_args(ps: Seq<Seq<char>>) -> Seq<Seq<char>> {
    ps.map_values(|p: Seq<char>| include_arg(p))
}

/// The exclude-filter arguments for a pattern list, in order.
pub open spec fn exclude_args(ps: Seq<Seq<char>>) -> Seq<Seq<char>> {
    ps.map_values(|p: Seq<char>| exclude_arg(p))
}

/// The argument vector of one invocation of the external mirroring
/// process: archive mode always; the delete, dry-run and itemize flags
/// exactly when requested; the filter patterns in caller-supplied order,
/// includes before excludes; then the source rendered with a trailing
/// separator (meaning "contents of") and the destination.
pub open spec fn rsync_argv(source: Seq<char>, dest: Seq<char>, opts: SyncOptionsModel) -> Seq<
    Seq<char>,
> {
    seq!["rsync"@, "-a"@] + (if opts.delete {
        seq!["--delete"@]
    } else {
        Seq::<Seq<char>>::empty()
    }) + (if opts.dry_run {
        seq!["--dry-run"@]
    } else {
        Seq::<Seq<char>>::empty()
    }) + (if opts.itemize {
        seq!["--itemize-changes"@]
    } else {
        Seq::<Seq<char>>::empty()
    }) + include_args(opts.include_patterns) + exclude_args(opts.exclude_patterns) + seq![
        with_trailing_slash(source),
        dest,
    ]
}

/// Builds the exact command line of one mirror invocation. The direction
/// parameter names the roles of the two trees; either way the source tree's
/// contents are mirrored onto the destination, so it does not change the
/// arguments.
pub fn build_rsync_command(
    source: &str,
    dest: &str,
    direction: SyncDirection,
    opts: &SyncOptions,
) -> (r: Vec<String>)
    ensures
        string_views(r@) == rsync_argv(source@, dest@, opts@),
{
    let ghost goal = rsync_argv(source@, dest@, opts@);
    let mut r: Vec<String> = Vec::new();
    r.push(String::from_str("rsync"));
    r.push(String::from_str("-a"));
    if opts.delete {
        r.push(String::from_str("--delete"));
    }
    if opts.dry_run {
        r.push(String::from_str("--dry-run"));
    }
    if opts.itemize {
        r.push(String::from_str("--itemize-changes"));
    }
    let ghost base = string_views(r@);
    proof {
        assert(goal =~= base + include_args(opts@.include_patterns) + exclude_args(
            opts@.exclude_patterns,
        ) + seq![with_trailing_slash(source@), dest@]);
    }
    let ni = opts.include_patterns.len();
    let mut i: usize = 0;
    proof {
        assert(string_views(r@) =~= base + include_args(opts@.include_patterns.take(0)));
    }
    while i < ni
        invariant
            i <= ni,
            ni == opts.include_patterns@.len(),
            string_views(r@) == base + include_args(opts@.include_patterns.take(i as int)),
        decreases ni - i,
    {
        let arg = String::from_str("--include=").concat(opts.include_patterns[i].as_str());
        let ghost prev = r@;
        let ghost argview = arg@;
        r.push(arg);
        proof {
            lemma_string_views_push(prev, r@[r@.len() - 1]);
            assert(include_args(opts@.include_patterns.take(i + 1)) =~= include_args(
                opts@.include_patterns.take(i as int),
            ).push(include_arg(opts.include_patterns@[i as int]@)));
            assert(argview == include_arg(opts.include_patterns@[i as int]@));
            assert((base + include_args(opts@.include_patterns.take(i as int))).push(argview)
                =~= base + include_args(opts@.include_patterns.take(i + 1)));
        }
        i += 1;
    }
    proof {
        assert(opts@.include_patterns.take(ni as int) =~= opts@.include_patterns);
    }
    let ghost base2 = string_views(r@);
    let ne = opts.exclude_patterns.len();
    let mut j: usize = 0;
    proof {
        assert(string_views(r@) =~= base2 + exclude_args(opts@.exclude_patterns.take(0)));
    }
    while j < ne
        invariant
            j <= ne,
            ne == opts.exclude_patterns@.len(),
            base2 == base + include_args(opts@.include_patterns),
            string_views(r@) == base2 + exclude_args(opts@.exclude_patterns.take(j as int)),
        decreases ne - j,
    {
        let arg = String::from_str("--exclude=").concat(opts.exclude_patterns[j].as_str());
        let ghost prev = r@;
        let ghost argview = arg@;
        r.push(arg);
        proof {
            lemma_string_views_push(prev, r@[r@.len() - 1]);
            assert(exclude_args(opts@.exclude_patterns.take(j + 1)) =~= exclude_args(
                opts@.exclude_patterns.take(j as int),
            ).push(exclude_arg(opts.exclude_patterns@[j as int]@)));
            assert(argview == exclude_arg(opts.exclude_patterns@[j as int]@));
            assert((base2 + exclude_args(opts@.exclude_patterns.take(j as int))).push(argview)
                =~= base2 + exclude_args(opts@.exclude_patterns.take(j + 1)));
        }
        j += 1;
    }
    proof {
        assert(opts@.exclude_patterns.take(ne as int) =~= opts@.exclude_patterns);
    }
    let ghost prev1 = r@;
    r.push(path_with_trailing_slash(source));
    proof {
        lemma_string_views_push(prev1, r@[r@.len() - 1]);
    }
    let ghost prev2 = r@;
    r.push(dest.to_owned());
    proof {
        lemma_string_views_push(prev2, r@[r@.len() - 1]);
        assert(string_views(r@) =~= goal);
    }
    r
}

/// One requested invocation of the external mirroring process. The
/// surrounding binary runs the command line and reports the outcome back
/// through `mirror_outcome`.
#[derive(Debug, Clone)]
pub struct MirrorRequest {
    pub source: String,
    pub dest: String,
    pub direction: SyncDirection,
    pub opts: SyncOptions,
}

/// Ghost description of one mirror invocation.
pub struct MirrorModel {
    pub source: Seq<char>,
    pub dest: Seq<char>,
    pub direction: SyncDirection,
    pub opts: SyncOptionsModel,
}

impl View for MirrorRequest {
    type V = MirrorModel;

    open spec fn view(&self) -> MirrorModel {
        MirrorModel {
            source: self.source@,
            dest: self.dest@,
            direction: self.direction,
            opts: self.opts@,
        }
    }
}

impl MirrorRequest {
    /// The exact command line of this request.
    pub fn argv(&self) -> (r: Vec<String>)
        ensures
            string_views(r@) == rsync_argv(self.source@, self.dest@, self.opts@),
    {
        build_rsync_command(self.source.as_str(), self.dest.as_str(), self.direction, &self.opts)
    }
}

/// Builds the single mirror request for one source/destination pair.
pub fn sync_path(source: &str, dest: &str, direction: SyncDirection, opts: SyncOptions) -> (r:
    MirrorRequest)
    ensures
        r@ == (MirrorModel { source: source@, dest: dest@, direction, opts: opts@ }),
{
    MirrorRequest { source: source.to_owned(), dest: dest.to_owned(), direction, opts }
}

/// Folds the exit status of one mirror invocation into the error taxonomy:
/// an unsuccessful exit becomes `MirrorFailed`, carrying the diagnostic
/// text of the external process.
pub fn mirror_outcome(exit_success: bool, diagnostic: String) -> (r: Result<(), SyncError>)
    ensures
        exit_success <==> r is Ok,
        !exit_success ==> (r matches Err(SyncError::MirrorFailed(d)) && d@ == diagnostic@),
{
    if exit_success {
        Ok(())
    } else {
        Err(SyncError::MirrorFailed(diagnostic))
    }
}

/// One step of a synchronization plan, in execution order.
#[derive(Debug, Clone)]
pub enum SyncStep {
    /// Create the directory, and its missing ancestors, if absent.
    EnsureDir(String),
    /// Recursively remove the directory if present; absence is no error.
    RemoveDirAll(String),
    /// Run the external mirroring process as requested.
    Mirror(MirrorRequest),
}

/// Ghost description of one plan step.
pub enum StepModel {
    EnsureDir(Seq<char>),
    RemoveDirAll(Seq<char>),
    Mirror(MirrorModel),
}

impl View for SyncStep {
    type V = StepModel;

    open spec fn view(&self) -> StepModel {
        match self {
            SyncStep::EnsureDir(p) => StepModel::EnsureDir(p@),
            SyncStep::RemoveDirAll(p) => StepModel::RemoveDirAll(p@),
            SyncStep::Mirror(m) => StepModel::Mirror(m@),
        }
    }
}

/// The ghost descriptions of a step list, in order.
pub open spec fn steps_view(v: Seq<SyncStep>) -> Seq<StepModel> {
    v.map_values(|s: SyncStep| s@)
}

proof fn lemma_steps_view_push(v: Seq<SyncStep>, s: SyncStep)
    ensures
        steps_view(v.push(s)) == steps_view(v).push(s@),
{
    assert(steps_view(v.push(s)) =~= steps_view(v).push(s@));
}

/// The mirror options used during refresh and write-back: the delete
/// policy, no filters, no itemization, a real run.
pub open spec fn plain_opts_model(delete: bool) -> SyncOptionsModel {
    SyncOptionsModel {
        delete,
        include_patterns: Seq::<Seq<char>>::empty(),
        exclude_patterns: Seq::<Seq<char>>::empty(),
        itemize: false,
        dry_run: false,
    }
}

fn plain_opts(delete: bool) -> (r: SyncOptions)
    ensures
        r@ == plain_opts_model(delete),
{
    let r = SyncOptions {
        delete,
        include_patterns: Vec::new(),
        exclude_patterns: Vec::new(),
        itemize: false,
        dry_run: false,
    };
    proof {
        assert(r@.include_patterns =~= Seq::<Seq<char>>::empty());
        assert(r@.exclude_patterns =~= Seq::<Seq<char>>::empty());
    }
    r
}

/// The parent directory of `p`, or `p` itself at the filesystem root.
pub open spec fn parent_or_self(p: Seq<char>) -> Seq<char> {
    match parent_path_spec(p) {
        Some(q) => q,
        None => p,
    }
}

/// The staging directory of the write-back protocol, directly under the
/// project root.
pub open spec fn staging_dir_spec(orig_root: Seq<char>) -> Seq<char> {
    join_path_spec(orig_root, ".ramws-staging"@)
}

/// Phase-two steps: for each mapping, ensure the staging parent directory
/// exists, then mirror the workspace subtree onto its staging copy.
pub open spec fn stage_fill_steps(
    ws: Seq<char>,
    staging: Seq<char>,
    delete: bool,
    paths: Seq<Seq<char>>,
) -> Seq<StepModel>
    decreases paths.len(),
{
    if paths.len() == 0 {
        Seq::<StepModel>::empty()
    } else {
        stage_fill_steps(ws, staging, delete, paths.drop_last()) + seq![
            StepModel::EnsureDir(parent_or_self(join_path_spec(staging, paths.last()))),
            StepModel::Mirror(
                MirrorModel {
                    source: join_path_spec(ws, paths.last()),
                    dest: join_path_spec(staging, paths.last()),
                    direction: SyncDirection::WorkspaceToOrig,
                    opts: plain_opts_model(delete),
                },
            ),
        ]
    }
}

/// Phase-three steps: mirror each staged subtree onto its real origin
/// destination.
pub open spec fn origin_update_steps(
    staging: Seq<char>,
    orig: Seq<char>,
    delete: bool,
    paths: Seq<Seq<char>>,
) -> Seq<StepModel>
    decreases paths.len(),
{
    if paths.len() == 0 {
        Seq::<StepModel>::empty()
    } else {
        origin_update_steps(staging, orig, delete, paths.drop_last()) + seq![
            StepModel::Mirror(
                MirrorModel {
                    source: join_path_spec(staging, paths.last()),
                    dest: join_path_spec(orig, paths.last()),
                    direction: SyncDirection::OrigToWorkspace,
                    opts: plain_opts_model(delete),
                },
            ),
        ]
    }
}

/// The staged write-back plan: recreate a fresh staging directory under
/// the project root, copy every mapping's workspace subtree into it, only
/// then mirror each staged subtree onto its origin destination, and clear
/// the staging directory. The staging copy is complete before the real
/// origin path is ever touched, which bounds a mid-copy failure during the
/// staging phase to the disposable staging tree; the origin update itself
/// remains a direct mirror, not an atomic swap.
pub open spec fn sync_back_plan(
    orig: Seq<char>,
    ws: Seq<char>,
    delete: bool,
    paths: Seq<Seq<char>>,
) -> Seq<StepModel> {
    let staging = staging_dir_spec(orig);
    seq![StepModel::RemoveDirAll(staging), StepModel::EnsureDir(staging)] + stage_fill_steps(
        ws,
        staging,
        delete,
        paths,
    ) + origin_update_steps(staging, orig, delete, paths) + seq![StepModel::RemoveDirAll(staging)]
}

/// Computes the staged write-back plan for the given relative mapping
/// paths, honouring the global delete policy. The steps are executed
/// strictly in order; a mirror failure aborts the remaining steps and
/// already completed mappings are not rolled back.
pub fn sync_back(cfg: &ResolvedConfig, paths: &Vec<String>) -> (r: Vec<SyncStep>)
    requires
        cfg.wf(),
    ensures
        steps_view(r@) == sync_back_plan(
            cfg.orig_root@,
            cfg.workspace_root@,
            cfg.raw.sync.delete,
            paths@.map_values(|p: String| p@),
        ),
{
    let ghost pview = paths@.map_values(|p: String| p@);
    let delete = cfg.raw.sync.delete;
    let staging = join_path(cfg.orig_root.as_str(), ".ramws-staging");
    let ghost stg = staging@;
    proof {
        crate::util::lemma_join_absolute(cfg.orig_root@, ".ramws-staging"@);
    }
    let mut r: Vec<SyncStep> = Vec::new();
    let ghost prev0 = r@;
    r.push(SyncStep::RemoveDirAll(staging.clone()));
    proof {
        lemma_steps_view_push(prev0, r@[r@.len() - 1]);
    }
    let ghost prev1 = r@;
    r.push(SyncStep::EnsureDir(staging.clone()));
    proof {
        lemma_steps_view_push(prev1, r@[r@.len() - 1]);
        assert(steps_view(r@) =~= seq![
            StepModel::RemoveDirAll(stg),
            StepModel::EnsureDir(stg),
        ] + stage_fill_steps(cfg.workspace_root@, stg, delete, pview.take(0)));
    }
    let ghost head = seq![StepModel::RemoveDirAll(stg), StepModel::EnsureDir(stg)];
    let n = paths.len();
    let mut i: usize = 0;
    while i < n
        invariant
            i <= n,
            n == paths@.len(),
            pview == paths@.map_values(|p: String| p@),
            stg == staging@,
            staging@.len() > 0,
            staging@[0] == '/',
            cfg.wf(),
            delete == cfg.raw.sync.delete,
            head == seq![StepModel::RemoveDirAll(stg), StepModel::EnsureDir(stg)],
            steps_view(r@) == head + stage_fill_steps(
                cfg.workspace_root@,
                stg,
                delete,
                pview.take(i as int),
            ),
        decreases n - i,
    {
        let sp = join_path(staging.as_str(), paths[i].as_str());
        proof {
            crate::util::lemma_join_absolute(staging@, paths@[i as int]@);
        }
        let par = match parent_path(sp.as_str()) {
            Some(q) => q,
            None => sp.clone(),
        };
        let ghost preva = r@;
        r.push(SyncStep::EnsureDir(par));
        proof {
            lemma_steps_view_push(preva, r@[r@.len() - 1]);
        }
        let req = MirrorRequest {
            source: join_path(cfg.workspace_root.as_str(), paths[i].as_str()),
            dest: sp,
            direction: SyncDirection::WorkspaceToOrig,
            opts: plain_opts(delete),
        };
        let ghost prevb = r@;
        r.push(SyncStep::Mirror(req));
        proof {
            lemma_steps_view_push(prevb, r@[r@.len() - 1]);
            assert(pview.take(i + 1).drop_last() =~= pview.take(i as int));
            assert(pview.take(i + 1).last() == paths@[i as int]@);
            assert(steps_view(r@) =~= head + stage_fill_steps(
                cfg.workspace_root@,
                stg,
                delete,
                pview.take(i + 1),
            ));
        }
        i += 1;
    }
    proof {
        assert(pview.take(n as int) =~= pview);
    }
    let ghost mid = steps_view(r@);
    let mut j: usize = 0;
    proof {
        assert(steps_view(r@) =~= mid + origin_update_steps(stg, cfg.orig_root@, delete,
            pview.take(0)));
    }
    while j < n
        invariant
            j <= n,
            n == paths@.len(),
            pview == paths@.map_values(|p: String| p@),
            stg == staging@,
            cfg.wf(),
            delete == cfg.raw.sync.delete,
            mid == head + stage_fill_steps(cfg.workspace_root@, stg, delete, pview),
            head == seq![StepModel::RemoveDirAll(stg), StepModel::EnsureDir(stg)],
            steps_view(r@) == mid + origin_update_steps(
                stg,
                cfg.orig_root@,
                delete,
                pview.take(j as int),
            ),
        decreases n - j,
    {
        let req = MirrorRequest {
            source: join_path(staging.as_str(), paths[j].as_str()),
            dest: join_path(cfg.orig_root.as_str(), paths[j].as_str()),
            direction: SyncDirection::OrigToWorkspace,
            opts: plain_opts(delete),
        };
        let ghost prevc = r@;
        r.push(SyncStep::Mirror(req));
        proof {
            lemma_steps_view_push(prevc, r@[r@.len() - 1]);
            assert(pview.take(j + 1).drop_last() =~= pview.take(j as int));
            assert(pview.take(j + 1).last() == paths@[j as int]@);
            assert(steps_view(r@) =~= mid + origin_update_steps(stg, cfg.orig_root@, delete,
                pview.take(j + 1)));
        }
        j += 1;
    }
    let ghost prevd = r@;
    r.push(SyncStep::RemoveDirAll(staging));
    proof {
        lemma_steps_view_push(prevd, r@[r@.len() - 1]);
        assert(pview.take(n as int) =~= pview);
        assert(steps_view(r@) =~= sync_back_plan(cfg.orig_root@, cfg.workspace_root@, delete,
            pview));
    }
    r
}

/// Refresh steps: one origin-to-workspace mirror per mapping, overwriting
/// workspace state with origin state without touching origin.
pub open spec fn refresh_plan(
    orig: Seq<char>,
    ws: Seq<char>,
    delete: bool,
    paths: Seq<Seq<char>>,
) -> Seq<StepModel>
    decreases paths.len(),
{
    if paths.len() == 0 {
        Seq::<StepModel>::empty()
    } else {
        refresh_plan(orig, ws, delete, paths.drop_last()) + seq![
            StepModel::Mirror(
                MirrorModel {
                    source: join_path_spec(orig, paths.last()),
                    dest: join_path_spec(ws, paths.last()),
                    direction: SyncDirection::OrigToWorkspace,
                    opts: plain_opts_model(delete),
                },
            ),
        ]
    }
}

/// Computes the refresh plan that pulls upstream changes into the
/// workspace for the given relative mapping paths.
pub fn refresh_from_orig(cfg: &ResolvedConfig, paths: &Vec<String>) -> (r: Vec<SyncStep>)
    ensures
        steps_view(r@) == refresh_plan(
            cfg.orig_root@,
            cfg.workspace_root@,
            cfg.raw.sync.delete,
            paths@.map_values(|p: String| p@),
        ),
{
    let ghost pview = paths@.map_values(|p: String| p@);
    let delete = cfg.raw.sync.delete;
    let mut r: Vec<SyncStep> = Vec::new();
    let n = paths.len();
    let mut i: usize = 0;
    proof {
        assert(steps_view(r@) =~= refresh_plan(cfg.orig_root@, cfg.workspace_root@, delete,
            pview.take(0)));
    }
    while i < n
        invariant
            i <= n,
            n == paths@.len(),
            pview == paths@.map_values(|p: String| p@),
            delete == cfg.raw.sync.delete,
            steps_view(r@) == refresh_plan(
                cfg.orig_root@,
                cfg.workspace_root@,
                delete,
                pview.take(i as int),
            ),
        decreases n - i,
    {
        let req = MirrorRequest {
            source: join_path(cfg.orig_root.as_str(), paths[i].as_str()),
            dest: join_path(cfg.workspace_root.as_str(), paths[i].as_str()),
            direction: SyncDirection::OrigToWorkspace,
            opts: plain_opts(delete),
        };
        let ghost prev = r@;
        r.push(SyncStep::Mirror(req));
        proof {
            lemma_steps_view_push(prev, r@[r@.len() - 1]);
            assert(pview.take(i + 1).drop_last() =~= pview.take(i as int));
            assert(pview.take(i + 1).last() == paths@[i as int]@);
            assert(steps_view(r@) =~= refresh_plan(cfg.orig_root@, cfg.workspace_root@, delete,
                pview.take(i + 1)));
        }
        i += 1;
    }
    proof {
        assert(pview.take(n as int) =~= pview);
    }
    r
}

/// The build-directory paths whose role tag is among `roles`, in input
/// order.
pub open spec fn selected_build_paths(
    build_dirs: Seq<BuildDirSpec>,
    roles: Seq<BuildDirType>,
) -> Seq<Seq<char>>
    decreases build_dirs.len(),
{
    if build_dirs.len() == 0 {
        Seq::<Seq<char>>::empty()
    } else {
        let init = selected_build_paths(build_dirs.drop_last(), roles);
        if roles.contains(build_dirs.last().dir_type) {
            init.push(build_dirs.last().path@)
        } else {
            init
        }
    }
}

/// Membership of a role tag in a role list.
pub fn roles_contain(roles: &Vec<BuildDirType>, t: BuildDirType) -> (r: bool)
    ensures
        r == roles@.contains(t),
{
    let n = roles.len();
    let mut i: usize = 0;
    while i < n
        invariant
            i <= n,
            n == roles@.len(),
            forall|j: int| 0 <= j < i ==> roles@[j] != t,
        decreases n - i,
    {
        if roles[i] == t {
            assert(roles@.contains(t));
            return true;
        }
        i += 1;
    }
    false
}

/// The relative paths taking part in a sync invocation: every source
/// mapping — whenever no role is named, and also when any build role is,
/// since sources always accompany build-directory syncs — then the build
/// directories whose role tag was named, in input order.
pub open spec fn paths_from_roles_spec(
    sources: Seq<SourceSpec>,
    build_dirs: Seq<BuildDirSpec>,
    roles: Seq<BuildDirType>,
) -> Seq<Seq<char>> {
    (if roles.len() == 0 || roles.contains(BuildDirType::Scratch) || roles.contains(
        BuildDirType::Cache,
    ) {
        sources.map_values(|s: SourceSpec| s.path@)
    } else {
        Seq::<Seq<char>>::empty()
    }) + selected_build_paths(build_dirs, roles)
}

/// Selects the relative paths that a sync invocation covers from the
/// configured mappings and the requested role tags.
pub fn paths_from_roles(cfg: &ResolvedConfig, roles: &Vec<BuildDirType>) -> (r: Vec<String>)
    ensures
        r@.map_values(|p: String| p@) == paths_from_roles_spec(
            cfg.raw.sources@,
            cfg.raw.build_dirs@,
            roles@,
        ),
{
    let mut r: Vec<String> = Vec::new();
    let ghost src_part = if roles@.len() == 0 || roles@.contains(BuildDirType::Scratch)
        || roles@.contains(BuildDirType::Cache) {
        cfg.raw.sources@.map_values(|s: SourceSpec| s.path@)
    } else {
        Seq::<Seq<char>>::empty()
    };
    if roles.len() == 0 || roles_contain(roles, BuildDirType::Scratch) || roles_contain(
        roles,
        BuildDirType::Cache,
    ) {
        let ns = cfg.raw.sources.len();
        let mut i: usize = 0;
        while i < ns
            invariant
                i <= ns,
                ns == cfg.raw.sources@.len(),
                r@.len() == i,
                forall|j: int| 0 <= j < i ==> r@[j]@ == cfg.raw.sources@[j].path@,
            decreases ns - i,
        {
            r.push(cfg.raw.sources[i].path.clone());
            i += 1;
        }
        proof {
            assert(r@.map_values(|p: String| p@) =~= src_part);
        }
    } else {
        proof {
            assert(r@.map_values(|p: String| p@) =~= src_part);
        }
    }
    let ghost base = r@.map_values(|p: String| p@);
    let nb = cfg.raw.build_dirs.len();
    let mut k: usize = 0;
    proof {
        assert(base + selected_build_paths(cfg.raw.build_dirs@.take(0), roles@) =~= base);
    }
    while k < nb
        invariant
            k <= nb,
            nb == cfg.raw.build_dirs@.len(),
            base == src_part,
            r@.map_values(|p: String| p@) == base + selected_build_paths(
                cfg.raw.build_dirs@.take(k as int),
                roles@,
            ),
        decreases nb - k,
    {
        proof {
            assert(cfg.raw.build_dirs@.take(k + 1).drop_last() =~= cfg.raw.build_dirs@.take(
                k as int,
            ));
            assert(cfg.raw.build_dirs@.take(k + 1).last() == cfg.raw.build_dirs@[k as int]);
        }
        let selected = roles_contain(roles, cfg.raw.build_dirs[k].dir_type);
        if selected {
            let ghost prev = r@;
            r.push(cfg.raw.build_dirs[k].path.clone());
            proof {
                assert(r@.map_values(|p: String| p@) =~= prev.map_values(|p: String| p@).push(
                    cfg.raw.build_dirs@[k as int].path@,
                ));
            }
        }
        proof {
            assert(r@.map_values(|p: String| p@) =~= base + selected_build_paths(
                cfg.raw.build_dirs@.take(k + 1),
                roles@,
            ));
        }
        k += 1;
    }
    proof {
        assert(cfg.raw.build_dirs@.take(nb as int) =~= cfg.raw.build_dirs@);
    }
    r
}

/// Destructive-action guard: a noninteractive invocation proceeds without a
/// prompt; an interactive one follows the operator's answer, an empty
/// answer defaulting to yes.
pub fn confirm_if_needed(noninteractive: bool, answer: Option<bool>) -> (r: bool)
    ensures
        noninteractive ==> r,
        !noninteractive ==> r == (match answer {
            None => true,
            Some(b) => b,
        }),
{
    if noninteractive {
        true
    } else {
        match answer {
            None => true,
            Some(b) => b,
        }
    }
}

} // verus!
