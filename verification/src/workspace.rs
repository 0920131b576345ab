//! Workspace lifecycle: provisioning, initial population, and the
//! role-based selection of build directories.
//!
//! A workspace is either absent or provisioned; destroying it returns it
//! to absent. Provisioning is planned here and carried out by the
//! surrounding binary, which also performs the existence check and the
//! recursive removal (both pure filesystem effects).

use vstd::prelude::*;
use vstd::string::*;

use crate::config::BuildDirSpec;
use crate::config::BuildDirType;
use crate::config::ResolvedConfig;
use crate::config::SourceSpec;
use crate::syncer::MirrorModel;
use crate::syncer::MirrorRequest;
use crate::syncer::StepModel;
use crate::syncer::SyncDirection;
use crate::syncer::SyncOptions;
use crate::syncer::SyncOptionsModel;
use crate::syncer::SyncStep;
use crate::syncer::steps_view;
use crate::util::clone_strings;
use crate::util::join_path;
use crate::util::join_path_spec;

verus! {

/// The ephemeral working copy of a project, as configured.
pub struct Workspace {
    pub config: ResolvedConfig,
}

/// Directory-creation steps for the configured build directories, in
/// input order.
pub open spec fn build_dir_steps(ws: Seq<char>, build_dirs: Seq<BuildDirSpec>) -> Seq<StepModel>
    decreases build_dirs.len(),
{
    if build_dirs.len() == 0 {
        Seq::<StepModel>::empty()
    } else {
        build_dir_steps(ws, build_dirs.drop_last()) + seq![
            StepModel::EnsureDir(join_path_spec(ws, build_dirs.last().path@)),
        ]
    }
}

/// The mirror options of one source mapping's initial population: that
/// mapping's filters and the global delete policy, a real run.
pub open spec fn source_opts_model(s: SourceSpec, delete: bool) -> SyncOptionsModel {
    SyncOptionsModel {
        delete,
        include_patterns: s.include_patterns@.map_values(|p: String| p@),
        exclude_patterns: s.exclude_patterns@.map_values(|p: String| p@),
        itemize: false,
        dry_run: false,
    }
}

/// Population steps for the configured source mappings, in input order:
/// ensure each destination subdirectory, then mirror the origin subtree
/// onto it.
pub open spec fn source_steps(
    orig: Seq<char>,
    ws: Seq<char>,
    delete: bool,
    sources: Seq<SourceSpec>,
) -> Seq<StepModel>
    decreases sources.len(),
{
    if sources.len() == 0 {
        Seq::<StepModel>::empty()
    } else {
        source_steps(orig, ws, delete, sources.drop_last()) + seq![
            StepModel::EnsureDir(join_path_spec(ws, sources.last().path@)),
            StepModel::Mirror(
                MirrorModel {
                    source: join_path_spec(orig, sources.last().path@),
                    dest: join_path_spec(ws, sources.last().path@),
                    direction: SyncDirection::OrigToWorkspace,
                    opts: source_opts_model(sources.last(), delete),
                },
            ),
        ]
    }
}

/// The provisioning plan: create the workspace root, create every build
/// directory (unless only the sources are being refreshed), then populate
/// every source mapping. No step fails on an already existing directory,
/// so re-running the plan on a provisioned workspace simply re-syncs it.
pub open spec fn ensure_plan(
    orig: Seq<char>,
    ws: Seq<char>,
    delete: bool,
    build_dirs: Seq<BuildDirSpec>,
    sources: Seq<SourceSpec>,
    refresh_sources_only: bool,
) -> Seq<StepModel> {
    seq![StepModel::EnsureDir(ws)] + (if refresh_sources_only {
        Seq::<StepModel>::empty()
    } else {
        build_dir_steps(ws, build_dirs)
    }) + source_steps(orig, ws, delete, sources)
}

/// The build-directory paths carrying one role tag, in input order.
pub open spec fn paths_by_role_spec(build_dirs: Seq<BuildDirSpec>, role: BuildDirType) -> Seq<
    Seq<char>,
>
    decreases build_dirs.len(),
{
    if build_dirs.len() == 0 {
        Seq::<Seq<char>>::empty()
    } else {
        let init = paths_by_role_spec(build_dirs.drop_last(), role);
        if build_dirs.last().dir_type == role {
            init.push(build_dirs.last().path@)
        } else {
            init
        }
    }
}

impl Workspace {
    /// Wraps resolved settings as the workspace they describe.
    pub fn new(config: ResolvedConfig) -> (r: Self)
        ensures
            r.config == config,
    {
        Workspace { config }
    }

    /// Computes the provisioning plan for this workspace. Repeated
    /// provisioning with an unchanged origin re-syncs without error.
    pub fn ensure(&self, refresh_sources_only: bool) -> (r: Vec<SyncStep>)
        ensures
            steps_view(r@) == ensure_plan(
                self.config.orig_root@,
                self.config.workspace_root@,
                self.config.raw.sync.delete,
                self.config.raw.build_dirs@,
                self.config.raw.sources@,
                refresh_sources_only,
            ),
    {
        let ws = &self.config.workspace_root;
        let orig = &self.config.orig_root;
        let delete = self.config.raw.sync.delete;
        let mut r: Vec<SyncStep> = Vec::new();
        r.push(SyncStep::EnsureDir(ws.clone()));
        let ghost head = seq![StepModel::EnsureDir(ws@)];
        proof {
            assert(steps_view(r@) =~= head);
        }
        if !refresh_sources_only {
            let nb = self.config.raw.build_dirs.len();
            let mut k: usize = 0;
            proof {
                assert(steps_view(r@) =~= head + build_dir_steps(
                    ws@,
                    self.config.raw.build_dirs@.take(0),
                ));
            }
            while k < nb
                invariant
                    k <= nb,
                    nb == self.config.raw.build_dirs@.len(),
                    head == seq![StepModel::EnsureDir(self.config.workspace_root@)],
                    ws@ == self.config.workspace_root@,
                    steps_view(r@) == head + build_dir_steps(
                        ws@,
                        self.config.raw.build_dirs@.take(k as int),
                    ),
                decreases nb - k,
            {
                let p = join_path(ws.as_str(), self.config.raw.build_dirs[k].path.as_str());
                let ghost prev = r@;
                r.push(SyncStep::EnsureDir(p));
                proof {
                    assert(steps_view(prev.push(r@[r@.len() - 1])) =~= steps_view(prev).push(
                        r@[r@.len() - 1]@,
                    ));
                    assert(self.config.raw.build_dirs@.take(k + 1).drop_last()
                        =~= self.config.raw.build_dirs@.take(k as int));
                    assert(self.config.raw.build_dirs@.take(k + 1).last()
                        == self.config.raw.build_dirs@[k as int]);
                    assert(steps_view(r@) =~= head + build_dir_steps(
                        ws@,
                        self.config.raw.build_dirs@.take(k + 1),
                    ));
                }
                k += 1;
            }
            proof {
                assert(self.config.raw.build_dirs@.take(nb as int)
                    =~= self.config.raw.build_dirs@);
            }
        }
        let ghost mid = steps_view(r@);
        let ns = self.config.raw.sources.len();
        let mut i: usize = 0;
        proof {
            assert(steps_view(r@) =~= mid + source_steps(
                orig@,
                ws@,
                delete,
                self.config.raw.sources@.take(0),
            ));
        }
        while i < ns
            invariant
                i <= ns,
                ns == self.config.raw.sources@.len(),
                ws@ == self.config.workspace_root@,
                orig@ == self.config.orig_root@,
                delete == self.config.raw.sync.delete,
                mid == seq![StepModel::EnsureDir(ws@)] + (if refresh_sources_only {
                    Seq::<StepModel>::empty()
                } else {
                    build_dir_steps(ws@, self.config.raw.build_dirs@)
                }),
                steps_view(r@) == mid + source_steps(
                    orig@,
                    ws@,
                    delete,
                    self.config.raw.sources@.take(i as int),
                ),
            decreases ns - i,
        {
            let source = &self.config.raw.sources[i];
            let dest_path = join_path(ws.as_str(), source.path.as_str());
            let ghost preva = r@;
            r.push(SyncStep::EnsureDir(dest_path.clone()));
            proof {
                assert(steps_view(preva.push(r@[r@.len() - 1])) =~= steps_view(preva).push(
                    r@[r@.len() - 1]@,
                ));
            }
            let opts = SyncOptions {
                delete,
                include_patterns: clone_strings(&source.include_patterns),
                exclude_patterns: clone_strings(&source.exclude_patterns),
                itemize: false,
                dry_run: false,
            };
            let req = MirrorRequest {
                source: join_path(orig.as_str(), source.path.as_str()),
                dest: dest_path,
                direction: SyncDirection::OrigToWorkspace,
                opts,
            };
            let ghost prevb = r@;
            r.push(SyncStep::Mirror(req));
            proof {
                assert(steps_view(prevb.push(r@[r@.len() - 1])) =~= steps_view(prevb).push(
                    r@[r@.len() - 1]@,
                ));
                assert(self.config.raw.sources@.take(i + 1).drop_last()
                    =~= self.config.raw.sources@.take(i as int));
                assert(self.config.raw.sources@.take(i + 1).last()
                    == self.config.raw.sources@[i as int]);
                assert(req@.opts == source_opts_model(self.config.raw.sources@[i as int], delete));
                assert(steps_view(r@) =~= mid + source_steps(
                    orig@,
                    ws@,
                    delete,
                    self.config.raw.sources@.take(i + 1),
                ));
            }
            i += 1;
        }
        proof {
            assert(self.config.raw.sources@.take(ns as int) =~= self.config.raw.sources@);
        }
        r
    }

    /// The configured build-directory paths carrying `role`, in input
    /// order.
    pub fn build_paths_by_role(&self, role: BuildDirType) -> (r: Vec<String>)
        ensures
            r@.map_values(|p: String| p@) == paths_by_role_spec(self.config.raw.build_dirs@, role),
    {
        collect_paths_by_role(&self.config.raw.build_dirs, role)
    }
}

/// The paths of the build directories carrying one role tag, in input
/// order.
pub fn collect_paths_by_role(build_dirs: &Vec<BuildDirSpec>, role: BuildDirType) -> (r: Vec<
    String,
>)
    ensures
        r@.map_values(|p: String| p@) == paths_by_role_spec(build_dirs@, role),
{
    let nb = build_dirs.len();
    let mut r: Vec<String> = Vec::new();
    let mut k: usize = 0;
    proof {
        assert(r@.map_values(|p: String| p@) =~= paths_by_role_spec(build_dirs@.take(0), role));
    }
    while k < nb
        invariant
            k <= nb,
            nb == build_dirs@.len(),
            r@.map_values(|p: String| p@) == paths_by_role_spec(build_dirs@.take(k as int), role),
        decreases nb - k,
    {
        proof {
            assert(build_dirs@.take(k + 1).drop_last() =~= build_dirs@.take(k as int));
            assert(build_dirs@.take(k + 1).last() == build_dirs@[k as int]);
        }
        if build_dirs[k].dir_type == role {
            let ghost prev = r@;
            r.push(build_dirs[k].path.clone());
            proof {
                assert(r@.map_values(|p: String| p@) =~= prev.map_values(|p: String| p@).push(
                    build_dirs@[k as int].path@,
                ));
            }
        }
        proof {
            assert(r@.map_values(|p: String| p@) =~= paths_by_role_spec(
                build_dirs@.take(k + 1),
                role,
            ));
        }
        k += 1;
    }
    proof {
        assert(build_dirs@.take(nb as int) =~= build_dirs@);
    }
    r
}

} // verus!
