//! Exercises of the synchronization core on concrete values.

use ramws::commands::{
    any_pending_exec, destroy_decision, discover_config, handle_on_exit, on_exit_needs_prompt,
    sync_command, OnExitAction, Role,
};
use ramws::config::{
    BuildDirSpec, BuildDirType, Config, GitConfig, ResolvedConfig, SourceSpec, SyncConfig,
    SyncOnExit, WorkspaceSection,
};
use ramws::syncer::{
    build_rsync_command, classify_line, confirm_if_needed, diff_path, mirror_outcome,
    paths_from_roles, sync_back, sync_path, DiffSummary, LineClass, MirrorRequest, SyncDirection,
    SyncOptions, SyncStep,
};
use ramws::util::{
    contains_string, ensure_within_root, find_last_slash, find_project_root, join_path,
    parent_path, path_with_trailing_slash, project_slug, replace_all, str_eq, str_lex_le,
    str_starts_with,
};
use ramws::SyncError;

fn plain_opts(delete: bool) -> SyncOptions {
    SyncOptions {
        delete,
        include_patterns: vec![],
        exclude_patterns: vec![],
        itemize: false,
        dry_run: false,
    }
}

fn test_config(orig: &str, ws: &str) -> ResolvedConfig {
    ResolvedConfig {
        config_path: format!("{}/.ramws.yml", orig),
        orig_root: orig.to_string(),
        workspace_root: ws.to_string(),
        project_slug: "proj-0000000".to_string(),
        raw: Config {
            workspace: WorkspaceSection { root: None },
            sources: vec![SourceSpec {
                path: "src".to_string(),
                include_patterns: vec![],
                exclude_patterns: vec![],
            }],
            build_dirs: vec![
                BuildDirSpec {
                    path: "target".to_string(),
                    dir_type: BuildDirType::Scratch,
                },
                BuildDirSpec {
                    path: "cache".to_string(),
                    dir_type: BuildDirType::Cache,
                },
            ],
            sync: SyncConfig {
                on_exit: SyncOnExit::Ask,
                delete: true,
            },
            git: GitConfig {
                require_clean: false,
                auto_stage_synced: false,
            },
        },
    }
}

#[test]
fn classification_of_itemized_lines() {
    assert!(matches!(classify_line(">f+++++++++ new.txt"), LineClass::Added));
    assert!(matches!(classify_line(">fcstpog foo.txt"), LineClass::Changed));
    assert!(matches!(classify_line("*deleting old.txt"), LineClass::Deleted));
    assert!(matches!(classify_line(".f..t...... touched.txt"), LineClass::Changed));
    assert!(matches!(classify_line("cD+++++++++ dir/"), LineClass::Changed));
    assert!(matches!(classify_line("sending incremental file list"), LineClass::Ignored));
    assert!(matches!(classify_line(""), LineClass::Ignored));
}

#[test]
fn diff_counts_one_of_each() {
    let lines = vec![
        ">f+++++++++ new.txt".to_string(),
        ">fcstpog foo.txt".to_string(),
        "*deleting old.txt".to_string(),
    ];
    let summary = diff_path(&lines);
    assert_eq!(summary.added, 1);
    assert_eq!(summary.changed, 1);
    assert_eq!(summary.deleted, 1);
}

#[test]
fn diff_of_empty_itemization_is_zero() {
    let summary = diff_path(&vec![]);
    assert_eq!(summary.added, 0);
    assert_eq!(summary.changed, 0);
    assert_eq!(summary.deleted, 0);
    assert!(summary.is_zero());
}

#[test]
fn rsync_command_line_is_exact() {
    let opts = SyncOptions {
        delete: true,
        include_patterns: vec!["*.rs".to_string()],
        exclude_patterns: vec![".git/**".to_string(), "target/**".to_string()],
        itemize: true,
        dry_run: true,
    };
    let argv = build_rsync_command("/a/src", "/b/src", SyncDirection::WorkspaceToOrig, &opts);
    let expected = vec![
        "rsync",
        "-a",
        "--delete",
        "--dry-run",
        "--itemize-changes",
        "--include=*.rs",
        "--exclude=.git/**",
        "--exclude=target/**",
        "/a/src/",
        "/b/src",
    ];
    let got: Vec<&str> = argv.iter().map(|s| s.as_str()).collect();
    assert_eq!(got, expected);
}

#[test]
fn rsync_command_line_minimal() {
    let argv = build_rsync_command("/a", "/b", SyncDirection::OrigToWorkspace, &plain_opts(false));
    let got: Vec<&str> = argv.iter().map(|s| s.as_str()).collect();
    assert_eq!(got, vec!["rsync", "-a", "/a/", "/b"]);
}

#[test]
fn mirror_request_argv_matches_builder() {
    let req = sync_path("/x", "/y", SyncDirection::OrigToWorkspace, plain_opts(true));
    let argv = req.argv();
    let got: Vec<&str> = argv.iter().map(|s| s.as_str()).collect::<Vec<_>>();
    assert_eq!(got, vec!["rsync", "-a", "--delete", "/x/", "/y"]);
}

#[test]
fn mirror_outcome_carries_diagnostic() {
    assert!(mirror_outcome(true, String::new()).is_ok());
    match mirror_outcome(false, "rsync: no such dir".to_string()) {
        Err(SyncError::MirrorFailed(d)) => assert_eq!(d, "rsync: no such dir"),
        _ => panic!("expected MirrorFailed"),
    }
}

#[test]
fn boundary_check_rejects_escape_before_any_mirror() {
    match ensure_within_root("/home/me/proj", "/home/other") {
        Err(SyncError::PathEscape { path, root }) => {
            assert_eq!(path, "/home/other");
            assert_eq!(root, "/home/me/proj");
        }
        _ => panic!("expected PathEscape"),
    }
    assert!(ensure_within_root("/home/me/proj", "/home/me/proj/src").is_ok());
    assert!(ensure_within_root("/home/me/proj", "/home/me/proj").is_ok());
    assert!(ensure_within_root("/home/me/proj", "/home/me/project").is_err());
    assert!(ensure_within_root("/", "/anything").is_ok());
}

#[test]
fn sync_back_plan_stages_before_touching_origin() {
    let cfg = test_config("/home/me/proj", "/dev/shm/ws");
    let paths = vec!["src".to_string(), "docs".to_string()];
    let plan = sync_back(&cfg, &paths);
    // fresh staging directory first
    match &plan[0] {
        SyncStep::RemoveDirAll(p) => assert_eq!(p, "/home/me/proj/.ramws-staging"),
        _ => panic!("expected staging removal first"),
    }
    match &plan[1] {
        SyncStep::EnsureDir(p) => assert_eq!(p, "/home/me/proj/.ramws-staging"),
        _ => panic!("expected staging creation second"),
    }
    // every workspace->staging mirror comes before any staging->origin mirror
    let mut first_origin_mirror = None;
    let mut last_staging_mirror = None;
    for (i, step) in plan.iter().enumerate() {
        if let SyncStep::Mirror(m) = step {
            if m.dest.starts_with("/home/me/proj/.ramws-staging") {
                last_staging_mirror = Some(i);
            } else {
                if first_origin_mirror.is_none() {
                    first_origin_mirror = Some(i);
                }
                assert!(m.source.starts_with("/home/me/proj/.ramws-staging"));
            }
        }
    }
    assert!(last_staging_mirror.unwrap() < first_origin_mirror.unwrap());
    // staging cleared at the end
    match plan.last().unwrap() {
        SyncStep::RemoveDirAll(p) => assert_eq!(p, "/home/me/proj/.ramws-staging"),
        _ => panic!("expected staging removal last"),
    }
    assert_eq!(plan.len(), 2 * paths.len() + 2 + paths.len() + 1);
}

#[test]
fn sync_back_mirrors_each_mapping_in_order() {
    let cfg = test_config("/o", "/w");
    let plan = sync_back(&cfg, &vec!["a".to_string()]);
    let mirrors: Vec<&MirrorRequest> = plan
        .iter()
        .filter_map(|s| match s {
            SyncStep::Mirror(m) => Some(m),
            _ => None,
        })
        .collect();
    assert_eq!(mirrors.len(), 2);
    assert_eq!(mirrors[0].source, "/w/a");
    assert_eq!(mirrors[0].dest, "/o/.ramws-staging/a");
    assert_eq!(mirrors[1].source, "/o/.ramws-staging/a");
    assert_eq!(mirrors[1].dest, "/o/a");
    assert!(mirrors.iter().all(|m| m.opts.delete));
    assert!(mirrors.iter().all(|m| !m.opts.dry_run && !m.opts.itemize));
}

#[test]
fn refresh_pulls_origin_over_workspace() {
    let cfg = test_config("/o", "/w");
    let plan = ramws::syncer::refresh_from_orig(&cfg, &vec!["src".to_string()]);
    assert_eq!(plan.len(), 1);
    match &plan[0] {
        SyncStep::Mirror(m) => {
            assert_eq!(m.source, "/o/src");
            assert_eq!(m.dest, "/w/src");
        }
        _ => panic!("expected a mirror step"),
    }
}

#[test]
fn ensure_plan_provisions_and_populates() {
    let cfg = test_config("/o", "/w");
    let ws = ramws::workspace::Workspace::new(cfg);
    let plan = ws.ensure(false);
    // workspace root, two build dirs, source dir + mirror
    match &plan[0] {
        SyncStep::EnsureDir(p) => assert_eq!(p, "/w"),
        _ => panic!("expected workspace root creation first"),
    }
    match &plan[1] {
        SyncStep::EnsureDir(p) => assert_eq!(p, "/w/target"),
        _ => panic!("expected build dir"),
    }
    match &plan[2] {
        SyncStep::EnsureDir(p) => assert_eq!(p, "/w/cache"),
        _ => panic!("expected build dir"),
    }
    match &plan[3] {
        SyncStep::EnsureDir(p) => assert_eq!(p, "/w/src"),
        _ => panic!("expected source destination"),
    }
    match &plan[4] {
        SyncStep::Mirror(m) => {
            assert_eq!(m.source, "/o/src");
            assert_eq!(m.dest, "/w/src");
            assert!(m.opts.delete);
        }
        _ => panic!("expected population mirror"),
    }
    assert_eq!(plan.len(), 5);
    // idempotence of planning: an unchanged configuration plans identically
    let plan2 = ws.ensure(false);
    assert_eq!(plan.len(), plan2.len());
    // refreshing sources only skips the build directories
    let plan3 = ws.ensure(true);
    assert_eq!(plan3.len(), 3);
}

#[test]
fn workspace_absent_status_is_empty() {
    let cfg = test_config("/o", "/w");
    let report = ramws::status::collect_status(
        &cfg,
        false,
        None,
        &vec![Some(DiffSummary { changed: 3, added: 1, deleted: 2 })],
    );
    assert!(!report.workspace_exists);
    assert!(report.fs_type.is_none());
    assert!(report.total.is_none());
    assert!(report.available.is_none());
    assert!(report.used.is_none());
    assert_eq!(report.diff_changed, 0);
    assert_eq!(report.diff_added, 0);
    assert_eq!(report.diff_deleted, 0);
    assert_eq!(report.workspace_root, "/w");
}

#[test]
fn status_sums_diffs_and_skips_failures() {
    let cfg = test_config("/o", "/w");
    let report = ramws::status::collect_status(
        &cfg,
        true,
        None,
        &vec![
            Some(DiffSummary { changed: 2, added: 1, deleted: 0 }),
            None,
            Some(DiffSummary { changed: 1, added: 0, deleted: 4 }),
        ],
    );
    assert!(report.workspace_exists);
    assert!(report.fs_type.is_none());
    assert_eq!(report.diff_changed, 3);
    assert_eq!(report.diff_added, 1);
    assert_eq!(report.diff_deleted, 4);
}

#[test]
fn status_reports_capacity_when_known() {
    let cfg = test_config("/o", "/w");
    let st = ramws::util::fs_status(4096, 1024, 512, 256, 0x01021994);
    let report = ramws::status::collect_status(&cfg, true, Some(st), &vec![]);
    assert_eq!(report.fs_type.as_deref(), Some("tmpfs"));
    assert_eq!(report.total.as_deref(), Some("4.00 MiB"));
    assert_eq!(report.available.as_deref(), Some("1.00 MiB"));
    assert_eq!(report.used.as_deref(), Some("2.00 MiB"));
}

#[test]
fn on_exit_never_does_nothing_despite_pending_diffs() {
    let pending = vec![DiffSummary { changed: 5, added: 2, deleted: 1 }];
    let action = handle_on_exit(SyncOnExit::Never, &pending, false, Some(true));
    assert!(matches!(action, OnExitAction::DoNothing));
    assert!(!on_exit_needs_prompt(SyncOnExit::Never, &pending, false));
}

#[test]
fn on_exit_auto_syncs_even_with_zero_diffs() {
    let none_pending = vec![DiffSummary { changed: 0, added: 0, deleted: 0 }];
    let action = handle_on_exit(SyncOnExit::Auto, &none_pending, false, None);
    assert!(matches!(action, OnExitAction::SyncBack));
    assert!(!on_exit_needs_prompt(SyncOnExit::Auto, &none_pending, false));
}

#[test]
fn on_exit_ask_follows_the_answer() {
    let pending = vec![DiffSummary { changed: 1, added: 0, deleted: 0 }];
    let clean = vec![DiffSummary { changed: 0, added: 0, deleted: 0 }];
    assert!(matches!(
        handle_on_exit(SyncOnExit::Ask, &clean, false, Some(false)),
        OnExitAction::DoNothing
    ));
    assert!(matches!(
        handle_on_exit(SyncOnExit::Ask, &pending, false, Some(false)),
        OnExitAction::DoNothing
    ));
    assert!(matches!(
        handle_on_exit(SyncOnExit::Ask, &pending, false, Some(true)),
        OnExitAction::SyncBack
    ));
    // empty answer defaults to yes
    assert!(matches!(
        handle_on_exit(SyncOnExit::Ask, &pending, false, None),
        OnExitAction::SyncBack
    ));
    // noninteractive auto-yes
    assert!(matches!(
        handle_on_exit(SyncOnExit::Ask, &pending, true, Some(false)),
        OnExitAction::SyncBack
    ));
    assert!(on_exit_needs_prompt(SyncOnExit::Ask, &pending, false));
    assert!(!on_exit_needs_prompt(SyncOnExit::Ask, &pending, true));
    assert!(!on_exit_needs_prompt(SyncOnExit::Ask, &clean, false));
    assert!(any_pending_exec(&pending));
    assert!(!any_pending_exec(&clean));
}

#[test]
fn confirmation_guard() {
    assert!(confirm_if_needed(true, Some(false)));
    assert!(confirm_if_needed(false, None));
    assert!(confirm_if_needed(false, Some(true)));
    assert!(!confirm_if_needed(false, Some(false)));
}

#[test]
fn destroy_guard() {
    let zero = DiffSummary { changed: 0, added: 0, deleted: 0 };
    let dirty = DiffSummary { changed: 1, added: 0, deleted: 0 };
    assert!(!destroy_decision(false, true, &dirty, false, Some(true)));
    assert!(destroy_decision(true, true, &dirty, false, Some(false)));
    assert!(destroy_decision(true, false, &zero, false, Some(false)));
    assert!(!destroy_decision(true, false, &dirty, false, Some(false)));
    assert!(destroy_decision(true, false, &dirty, false, None));
    assert!(destroy_decision(true, false, &dirty, true, Some(false)));
}

#[test]
fn role_selection_includes_sources_with_any_role() {
    let cfg = test_config("/o", "/w");
    let all = paths_from_roles(&cfg, &vec![]);
    assert_eq!(all, vec!["src".to_string()]);
    let scratch = paths_from_roles(&cfg, &vec![BuildDirType::Scratch]);
    assert_eq!(scratch, vec!["src".to_string(), "target".to_string()]);
    let both = paths_from_roles(&cfg, &vec![BuildDirType::Cache, BuildDirType::Scratch]);
    assert_eq!(
        both,
        vec!["src".to_string(), "target".to_string(), "cache".to_string()]
    );
}

#[test]
fn build_paths_by_role_filters() {
    let cfg = test_config("/o", "/w");
    let ws = ramws::workspace::Workspace::new(cfg);
    assert_eq!(ws.build_paths_by_role(BuildDirType::Scratch), vec!["target".to_string()]);
    assert_eq!(ws.build_paths_by_role(BuildDirType::Cache), vec!["cache".to_string()]);
}

#[test]
fn sync_command_selection_sorts_and_dedups() {
    let mut cfg = test_config("/o", "/w");
    cfg.raw.sources = vec![
        SourceSpec {
            path: "src".to_string(),
            include_patterns: vec![],
            exclude_patterns: vec![],
        },
        SourceSpec {
            path: "cache".to_string(),
            include_patterns: vec![],
            exclude_patterns: vec![],
        },
    ];
    let (selected, plan) =
        sync_command(&cfg, false, vec![], vec![Role::Source, Role::Cache, Role::Cache]);
    // "cache" appears as a source and as a cache build dir: kept once, sorted
    assert_eq!(selected, vec!["cache".to_string(), "src".to_string()]);
    assert_eq!(plan.len(), 2);
    // explicitly named paths are taken as given
    let (only_sel, only_plan) = sync_command(&cfg, true, vec!["docs".to_string()], vec![]);
    assert_eq!(only_sel, vec!["docs".to_string()]);
    assert!(only_plan.len() > 0);
    // an empty role selection falls back to every source mapping
    let mut no_dirs = test_config("/o", "/w");
    no_dirs.raw.build_dirs.clear();
    let (fallback, _) = sync_command(&no_dirs, false, vec![], vec![Role::Cache]);
    assert_eq!(fallback, vec!["src".to_string()]);
}

#[test]
fn path_helpers() {
    assert_eq!(path_with_trailing_slash("/a/b"), "/a/b/");
    assert_eq!(path_with_trailing_slash("/a/b/"), "/a/b/");
    assert_eq!(join_path("/a", "b/c"), "/a/b/c");
    assert_eq!(join_path("/a/", "b"), "/a/b");
    assert_eq!(join_path("/a", "/abs"), "/abs");
    assert_eq!(parent_path("/a/b").as_deref(), Some("/a"));
    assert_eq!(parent_path("/a").as_deref(), Some("/"));
    assert_eq!(parent_path("/"), None);
    assert_eq!(find_last_slash("abc"), None);
    assert_eq!(find_last_slash("/a/bc"), Some(2));
    assert!(str_starts_with("hello", "he"));
    assert!(!str_starts_with("he", "hello"));
    assert!(str_eq("same", "same"));
    assert!(!str_eq("same", "sama"));
    assert!(str_lex_le("a/b", "a/c"));
    assert!(!str_lex_le("b", "a"));
    assert!(str_lex_le("abc", "abc"));
}

#[test]
fn project_root_walk() {
    let markers = vec!["/home/me/proj".to_string()];
    assert_eq!(find_project_root("/home/me/proj/src/deep", &markers), "/home/me/proj");
    assert_eq!(find_project_root("/home/me/proj", &markers), "/home/me/proj");
    // no marker anywhere: the start itself
    assert_eq!(find_project_root("/tmp/x", &vec![]), "/tmp/x");
    assert!(contains_string(&markers, "/home/me/proj"));
    assert!(!contains_string(&markers, "/home/me"));
}

#[test]
fn config_discovery_walks_up() {
    let present = vec!["/home/me/.ramws.yml".to_string()];
    assert_eq!(
        discover_config("/home/me/proj", &present).as_deref(),
        Some("/home/me/.ramws.yml")
    );
    assert_eq!(discover_config("/other", &present), None);
}

#[test]
fn placeholder_expansion() {
    assert_eq!(replace_all("a${X}b${X}", "${X}", "1"), "a1b1");
    assert_eq!(replace_all("abc", "", "z"), "abc");
    let expanded = ramws::util::expand_placeholders(
        "/dev/shm/ramws-${USER}/${PROJECT}",
        "proj-1234567",
        Some("alice"),
    );
    assert_eq!(expanded, "/dev/shm/ramws-alice/proj-1234567");
    let no_user = ramws::util::expand_placeholders("${USER}/${PROJECT}", "p", None);
    assert_eq!(no_user, "${USER}/p");
}

#[test]
fn slug_is_name_plus_digest_prefix() {
    // sha1("/tmp/proj") begins ac4bf77
    assert_eq!(project_slug("/tmp/proj"), "proj-ac4bf77");
    // sha1("/work/demo") begins 653749f
    assert_eq!(project_slug("/work/demo"), "demo-653749f");
    // the root has no name of its own
    assert!(project_slug("/").starts_with("project-"));
}

#[test]
fn config_resolution_derives_workspace_root() {
    let cfg = Config::default();
    let resolved = cfg.resolve(
        "/tmp/proj/.ramws.yml".to_string(),
        "/tmp/proj".to_string(),
        "/tmp/proj",
        Some("alice"),
    );
    assert_eq!(resolved.project_slug, "proj-ac4bf77");
    assert_eq!(resolved.workspace_root, "/dev/shm/ramws-alice/proj-ac4bf77");
    assert_eq!(resolved.orig_root, "/tmp/proj");
    // an explicit template wins
    let mut cfg2 = Config::default();
    cfg2.workspace = WorkspaceSection { root: Some("/mnt/fast/${PROJECT}".to_string()) };
    let resolved2 = cfg2.resolve(
        "/tmp/proj/.ramws.yml".to_string(),
        "/tmp/proj".to_string(),
        "/tmp/proj",
        Some("alice"),
    );
    assert_eq!(resolved2.workspace_root, "/mnt/fast/proj-ac4bf77");
}

#[test]
fn default_config_shape() {
    let cfg = Config::default();
    assert!(cfg.workspace.root.is_none());
    assert_eq!(cfg.sources.len(), 1);
    assert_eq!(cfg.sources[0].path, ".");
    assert_eq!(
        cfg.sources[0].exclude_patterns,
        vec![".git/**", "build/**", "target/**", "node_modules/**"]
    );
    assert!(cfg.build_dirs.is_empty());
    assert!(matches!(cfg.sync.on_exit, SyncOnExit::Ask));
    assert!(cfg.sync.delete);
}
