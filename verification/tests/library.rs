use dev_prune_core::config::{
    common_dir, default_schema_url, exclude_append, git_dir, undo_summary,
};
use dev_prune_core::config::{
    expand_tilde, file_uri, join_path, loose_path_eq, Adoption, ConfigLayer, ConfigSource,
    DeclaredDir, PerRepoConfig, Prunable, PrunedDir, Registry, RepoConfigLayers, RepoEntry,
    Settings, PRUNE_HISTORY_LIMIT,
};
use dev_prune_core::declared::{
    check, command_words, excludes, first_word, key, label_of, make_gap, make_invocation,
    make_targets, relative_parts, resolve, split_relative, tool_name, Declaration, Observation,
};
use dev_prune_core::engine::{
    clamp_scan_threads, compute_display_name, file_name, is_mount_point, owning_project,
    parent_of, scan_thread_count, take_top, AdapterFilter, PruneOptions, PruneResult,
    PruneStatus, SkipReason, STATUS_SCAN_MAX_THREADS,
};
use dev_prune_core::history::{append_record, PassRecord, Trigger};
use dev_prune_core::i18n::{catalogue_line, choices, language, merge, resolve_language, t, tf, Meta};

fn a_pruned_dir(label: &str) -> PrunedDir {
    PrunedDir {
        repo_path: "/repo".to_string(),
        bloat_dir: label.to_string(),
        adapter: "npm".to_string(),
        size_freed: 42,
        runtime: None,
    }
}

#[test]
fn a_local_schema_uri_has_exactly_three_slashes_on_either_platform() {
    assert_eq!(
        file_uri("/home/dev/.config/dev-prune/bin/devprune.schema.json"),
        "file:///home/dev/.config/dev-prune/bin/devprune.schema.json"
    );
    assert_eq!(
        file_uri("C:/Users/dev/AppData/Roaming/dev-prune/bin/devprune.schema.json"),
        "file:///C:/Users/dev/AppData/Roaming/dev-prune/bin/devprune.schema.json"
    );
}

#[test]
fn a_pass_is_counted_once_however_much_it_deleted() {
    let mut registry = Registry::new();
    registry.add_repo("/repo", 0);
    registry.mark_pruned("/repo", 1024, 1);
    registry.mark_pruned("/repo", 1024, 2);
    registry.record_prune_progress(10, vec![a_pruned_dir("node_modules"), a_pruned_dir("frontend/node_modules")]);
    assert_eq!(registry.total_pruned_count, 1);
    registry.record_prune_progress(10, vec![a_pruned_dir("node_modules")]);
    assert_eq!(registry.total_pruned_count, 1);
    registry.record_prune_progress(20, vec![a_pruned_dir("target")]);
    assert_eq!(registry.total_pruned_count, 2);
    registry.record_prune_progress(30, Vec::new());
    assert_eq!(registry.total_pruned_count, 2);
    assert_eq!(registry.last_prune.as_ref().unwrap().dirs[0].bloat_dir, "target");
}

#[test]
fn the_prune_history_summarises_the_pass() {
    let mut registry = Registry::new();
    registry.record_prune_progress(5, vec![a_pruned_dir("node_modules"), a_pruned_dir("frontend/node_modules")]);
    let summary = registry.prune_history.last().expect("pass summarised");
    assert_eq!(summary.bytes_freed, 84);
    assert_eq!(summary.dirs_removed, 2);
    assert_eq!(summary.repos_touched, 1);
}

#[test]
fn the_prune_history_is_capped_and_drops_the_oldest() {
    let mut registry = Registry::new();
    for at in 0..(PRUNE_HISTORY_LIMIT as i64 + 5) {
        registry.record_prune_progress(at, vec![a_pruned_dir("node_modules")]);
    }
    assert_eq!(registry.prune_history.len(), PRUNE_HISTORY_LIMIT);
    assert_eq!(registry.prune_history.first().unwrap().at, 5);
    assert!(registry.prune_history.first().unwrap().at <= registry.prune_history.last().unwrap().at);
}

#[test]
fn cache_clears_accumulate_separately_from_prunes() {
    let mut registry = Registry::new();
    registry.add_repo("/repo", 0);
    registry.mark_pruned("/repo", 42, 1);
    registry.record_cache_clear(6_000_000_000);
    registry.record_cache_clear(2_000_000_000);
    assert_eq!(registry.total_cache_freed_bytes, 8_000_000_000);
    assert_eq!(registry.total_freed_bytes, 42);
}

#[test]
fn each_repository_accumulates_its_own_total() {
    let mut registry = Registry::new();
    assert!(registry.add_repo("/test/repo", 0));
    assert!(!registry.add_repo("/test/repo", 1));
    registry.add_repo("/test/other", 0);
    registry.mark_pruned("/test/repo", 1024, 5);
    registry.mark_pruned("/test/repo", 2048, 6);
    registry.mark_pruned("/test/other", 512, 7);
    assert_eq!(registry.repositories[0].1.total_freed_bytes, 3072);
    assert_eq!(registry.repositories[0].1.last_pruned_at, Some(6));
    assert_eq!(registry.repositories[1].1.total_freed_bytes, 512);
    assert_eq!(registry.total_freed_bytes, 3584);
    assert_eq!(registry.total_pruned_count, 0);
    assert_eq!(registry.repo_count(), 2);
}

#[test]
fn a_deleted_repository_still_unlinks_by_its_lexical_spelling() {
    let mut registry = Registry::new();
    registry.add_repo("\\\\?\\C:\\Code\\App", 0);
    registry.last_added_repos.push("\\\\?\\C:\\Code\\App".to_string());
    assert!(registry.remove_repo("C:\\code\\app", "C:\\code\\app\\", true));
    assert_eq!(registry.repo_count(), 0);
    assert!(registry.last_added_repos.is_empty());
    assert!(!registry.remove_repo("C:\\code\\app", "C:\\code\\app", true));
    assert!(loose_path_eq("/a/b/", "/a/b", false));
    assert!(!loose_path_eq("/A/b", "/a/b", false));
}

#[test]
fn adopt_moved_entry_transfers_history() {
    let mut registry = Registry::new();
    registry.add_repo("/old", 1);
    registry.repositories[0].1.identity = Some("root-commit".to_string());
    registry.mark_pruned("/old", 500, 2);
    registry.add_repo("/new", 3);
    let gone = vec!["/old".to_string()];
    match registry.adopt_moved_entry("/new", Some("root-commit"), &gone) {
        Adoption::Moved(p) => assert_eq!(p, "/old"),
        _ => panic!("expected a move"),
    }
    assert_eq!(registry.repo_count(), 1);
    assert_eq!(registry.repositories[0].0, "/new");
    assert_eq!(registry.repositories[0].1.total_freed_bytes, 500);
    assert_eq!(registry.repositories[0].1.added_at, 1);
    assert_eq!(registry.repositories[0].1.identity.as_deref(), Some("root-commit"));
    assert!(!registry.needs_identity("/new"));
}

#[test]
fn adopt_moved_entry_refuses_to_guess_between_two() {
    let mut registry = Registry::new();
    for (i, p) in ["/a", "/b"].iter().enumerate() {
        registry.add_repo(p, 0);
        registry.repositories[i].1.identity = Some("same".to_string());
    }
    registry.add_repo("/c", 0);
    let gone = vec!["/a".to_string(), "/b".to_string()];
    assert!(matches!(registry.adopt_moved_entry("/c", Some("same"), &gone), Adoption::Ambiguous));
    assert_eq!(registry.repo_count(), 3);
    assert!(matches!(registry.adopt_moved_entry("/c", None, &gone), Adoption::Nothing));
}

#[test]
fn a_move_forgets_the_old_path_and_a_clone_keeps_every_row() {
    let mut registry = Registry::new();
    registry.add_repo("/old", 7);
    registry.repositories[0].1.identity = Some("r".to_string());
    registry.add_repo("/new", 9);
    assert!(matches!(registry.adopt_moved_entry("/new", Some("r"), &vec!["/old".to_string()]), Adoption::Moved(_)));
    assert!(!registry.last_added_repos.iter().any(|p| p == "/old"));
    assert_eq!(registry.repositories[0].1.added_at, 7);

    let mut clones = Registry::new();
    for p in ["/x", "/y", "/z"] {
        clones.add_repo(p, 0);
    }
    clones.repositories[0].1.identity = Some("r".to_string());
    clones.repositories[1].1.identity = Some("r".to_string());
    let before = clones.last_added_repos.clone();
    let gone = vec!["/x".to_string(), "/y".to_string()];
    assert!(matches!(clones.adopt_moved_entry("/z", Some("r"), &gone), Adoption::Ambiguous));
    let names: Vec<&str> = clones.repositories.iter().map(|(k, _)| k.as_str()).collect();
    assert_eq!(names, vec!["/x", "/y", "/z"]);
    assert_eq!(clones.last_added_repos, before);
    assert_eq!(clones.repositories[2].1.identity.as_deref(), Some("r"));
}

#[test]
fn a_restore_too_quick_to_be_real_teaches_nothing() {
    let mut registry = Registry::new();
    registry.record_restore("npm", 1000, 100);
    assert!(registry.restore_rates.is_empty());
    registry.record_restore("npm", 1000, 1000);
    registry.record_restore("npm", 3000, 1000);
    assert_eq!(registry.restore_rates.len(), 1);
    assert_eq!(registry.restore_rates[0].1.samples, 2);
    assert_eq!(registry.restore_rates[0].1.bytes, 4000);
}

fn layer(json_keys: &[&str], cfg: PerRepoConfig) -> ConfigLayer {
    ConfigLayer { config: cfg, keys: json_keys.iter().map(|k| k.to_string()).collect() }
}

#[test]
fn the_project_file_wins_the_keys_it_names_and_no_others() {
    let mut project = PerRepoConfig::with_defaults("s");
    project.ignore = true;
    let mut personal = PerRepoConfig::with_defaults("s");
    personal.scan_depth = Some(12);
    personal.project_name = Some("mine".into());
    let layers = RepoConfigLayers {
        project: Some(layer(&["ignore"], project)),
        personal: Some(layer(&["ignore", "scan_depth", "project_name"], personal)),
    };
    let cfg = layers.effective("s").unwrap();
    assert!(cfg.ignore);
    assert_eq!(cfg.scan_depth, Some(12));
    assert_eq!(cfg.project_name.as_deref(), Some("mine"));
    assert_eq!(layers.source_of("ignore"), ConfigSource::Project);
    assert_eq!(layers.source_of("scan_depth"), ConfigSource::Personal);
    assert_eq!(layers.source_of("min_size_mb"), ConfigSource::Default);
    assert_eq!(ConfigSource::Default.label(), "global setting");
    let rows = layers.rows("s");
    assert_eq!(rows[1], ("ignore", "true".to_string(), ConfigSource::Project));
    assert_eq!(rows[6], ("scan_depth", "12".to_string(), ConfigSource::Personal));
    assert_eq!(rows[5], ("min_size_mb", "not set".to_string(), ConfigSource::Default));
}

#[test]
fn declarations_from_both_files_add_up_rather_than_one_silencing_the_other() {
    let d = |p: &str, r: &str| DeclaredDir { path: p.into(), rebuild: r.into(), why: None };
    let mut project = PerRepoConfig::with_defaults("s");
    project.prunable = Some(Prunable { directories: vec![d("dist", "npm run build")], exclude: vec![] });
    let mut personal = PerRepoConfig::with_defaults("s");
    personal.prunable = Some(Prunable {
        directories: vec![d("dist", "old script"), d("scratch", "echo not needed")],
        exclude: vec!["vendor".into()],
    });
    let layers = RepoConfigLayers { project: Some(layer(&[], project)), personal: Some(layer(&[], personal)) };
    let merged = layers.effective("s").unwrap().prunable.unwrap();
    let paths: Vec<&str> = merged.directories.iter().map(|d| d.path.as_str()).collect();
    assert_eq!(paths, ["dist", "scratch"]);
    assert_eq!(merged.directories[0].rebuild, "npm run build");
    assert_eq!(merged.exclude, ["vendor"]);
    assert!(RepoConfigLayers { project: None, personal: None }.effective("s").is_none());
}

#[test]
fn a_leading_tilde_becomes_the_home_directory() {
    assert_eq!(expand_tilde("~", Some("/home/u"), false), "/home/u");
    assert_eq!(expand_tilde("~/Code", Some("/home/u"), false), "/home/u/Code");
    assert_eq!(expand_tilde("~\\Code", Some("C:\\Users\\u"), true), "C:\\Users\\u\\Code");
    assert_eq!(expand_tilde("~/Code", None, false), "~/Code");
}

#[test]
fn a_tilde_that_is_not_a_home_reference_is_left_alone() {
    for raw in ["~alice/Code", "~backup", "./~tmp", "Code~", "", "."] {
        assert_eq!(expand_tilde(raw, Some("/home/u"), false), raw, "{raw} must survive untouched");
    }
}

#[test]
fn declared_paths_that_could_point_outside_the_repository_never_get_that_far() {
    for (raw, expected) in [
        ("../secrets", "climbs out of the repository"),
        ("/etc", "absolute path"),
        ("C:/Windows", "names a drive"),
        (".git/objects", "inside `.git`"),
        (".", "the repository root itself"),
    ] {
        let err = split_relative(raw).unwrap_err();
        assert!(err.contains(expected), "{raw}: {err}");
    }
}

#[test]
fn mod_paths_that_could_point_outside_the_repository_never_get_that_far() {
    for (raw, expected) in [
        ("../secrets", "climbs out of the repository"),
        ("/etc", "absolute path"),
        ("C:/Windows", "names a drive"),
        (".git/objects", "inside `.git`"),
        (".", "the repository root itself"),
    ] {
        let err = split_relative(raw).unwrap_err();
        assert!(err.contains(expected), "{raw}: {err}");
    }
}

#[test]
fn declared_a_backslash_declaration_reads_the_same_as_a_forward_slash_one() {
    assert_eq!(split_relative(r"build\fixtures").unwrap(), split_relative("build/fixtures").unwrap());
}

#[test]
fn mod_a_backslash_declaration_reads_the_same_as_a_forward_slash_one() {
    assert_eq!(split_relative(r"build\fixtures").unwrap(), split_relative("build/fixtures").unwrap());
}

#[test]
fn an_exclusion_takes_a_declaration_out_of_play_however_it_is_spelled() {
    for spelling in ["scratch", "scratch/", "./scratch", r"scratch\"] {
        assert_eq!(key(spelling), "scratch");
        let prunable = Prunable {
            directories: vec![DeclaredDir { path: "scratch".into(), rebuild: "echo not needed".into(), why: None }],
            exclude: vec![spelling.to_string()],
        };
        assert!(excludes(&prunable, "scratch"));
        assert!(resolve(&prunable, &vec![observed(true)]).is_empty(), "`{spelling}` did not exclude");
    }
}

fn observed(exists: bool) -> Observation {
    Observation {
        path: "/repo/x".into(),
        exists,
        is_dir: true,
        resolved: Some(None),
        in_git: Ok(None),
        tool_on_path: false,
        gap: None,
        size_bytes: 7,
    }
}

#[test]
fn a_declaration_that_holds_up_is_prunable_and_the_rest_are_refused_in_order() {
    let d = |p: &str, r: &str| DeclaredDir { path: p.into(), rebuild: r.into(), why: Some("cache".into()) };
    let prunable = Prunable {
        directories: vec![
            d("scratch/", "echo not needed"),
            d("gone", "echo not needed"),
            d("vendor", "cd docs && npm run build"),
            d("build", "   "),
            d("out", "ninja"),
        ],
        exclude: vec![],
    };
    let obs = vec![observed(true), observed(false), observed(true), observed(true), observed(true)];
    let out = resolve(&prunable, &obs);
    assert_eq!(out.len(), 4);
    match &out[0] {
        Declaration::Prunable(t) => {
            assert_eq!(t.label, "scratch");
            assert_eq!(t.path, "/repo/x");
            assert_eq!(t.rebuild, "echo not needed");
            assert_eq!(t.size_bytes, 7);
            assert_eq!(t.why.as_deref(), Some("cache"));
        }
        Declaration::Refused { reason, .. } => panic!("refused: {reason}"),
    }
    let reasons: Vec<String> = out[1..]
        .iter()
        .map(|d| match d {
            Declaration::Refused { reason, .. } => reason.clone(),
            Declaration::Prunable(_) => panic!("should be refused"),
        })
        .collect();
    assert!(reasons[0].contains("is a shell builtin"), "{}", reasons[0]);
    assert!(reasons[1].contains("echo not needed"), "{}", reasons[1]);
    assert!(reasons[2].contains("`ninja` is not on this machine"), "{}", reasons[2]);
}

#[test]
fn a_git_tracked_or_escaping_directory_is_refused() {
    let entry = DeclaredDir { path: "src".into(), rebuild: "echo not needed".into(), why: None };
    let mut o = observed(true);
    o.in_git = Ok(Some("src/main.rs".into()));
    assert!(check(&entry, &o).unwrap_err().contains("Git is tracking `src/main.rs`"));
    let mut o = observed(true);
    o.resolved = Some(Some("/elsewhere".into()));
    assert!(check(&entry, &o).unwrap_err().contains("resolves to `/elsewhere`, outside"));
    let mut o = observed(true);
    o.is_dir = false;
    assert!(check(&entry, &o).unwrap_err().contains("is a file, not a directory"));
}

#[test]
fn a_rebuild_command_is_read_a_word_at_a_time() {
    assert_eq!(first_word("  \"npm\" run build"), "npm");
    assert_eq!(first_word(""), "");
    assert_eq!(command_words("npm run 'build:prod'"), Some(vec!["npm".into(), "run".into(), "build:prod".into()]));
    assert_eq!(command_words("npm run build && rm -rf /"), None);
    assert_eq!(tool_name("npm.cmd"), "npm");
    assert_eq!(tool_name("./scripts/gen.exe"), "./scripts/gen.exe");
    assert_eq!(relative_parts(Some(" . ")), Some(vec![]));
    assert_eq!(relative_parts(Some("docs/site")), Some(vec!["docs".into(), "site".into()]));
    assert_eq!(relative_parts(Some("../x")), None);
    assert_eq!(label_of(&vec!["docs".into(), "site".into()], "Makefile"), "docs/site/Makefile");
    assert_eq!(label_of(&vec![], "Makefile"), "Makefile");
}

#[test]
fn a_make_target_the_makefile_does_not_define_is_refused() {
    let makefile = "build:\n\tcc main.c\n.PHONY: test\nCC := gcc\n";
    assert_eq!(make_targets(makefile), Some(vec!["build".to_string(), ".PHONY".to_string(), "test".to_string()]));
    assert_eq!(make_targets("include common.mk\nbuild:\n"), None);
    assert_eq!(make_targets("%.o: %.c\n"), None);
    let gap = make_gap("Makefile", makefile, "dist").unwrap();
    assert_eq!(gap.0, "`Makefile` defines no `dist` target");
    assert_eq!(make_gap("Makefile", makefile, "build"), None);
    let args: Vec<String> = ["-C", "docs", "CC=clang", "site"].iter().map(|s| s.to_string()).collect();
    assert_eq!(make_invocation(&args), Some((Some("docs".into()), None, "site".into())));
    assert_eq!(make_invocation(&vec![]), None);
    assert_eq!(make_invocation(&vec!["--a-flag-this-does-not-model".into()]), None);
}

#[test]
fn a_filesystem_root_is_not_reported_as_a_mount_point() {
    let root = std::path::MAIN_SEPARATOR_STR;
    assert!(!is_mount_point(parent_of(root).as_deref(), Some(1), Some(2)));
    assert!(is_mount_point(parent_of("/mnt/data").as_deref(), Some(1), Some(2)));
    assert!(!is_mount_point(parent_of("/mnt/data").as_deref(), Some(1), Some(1)));
}

#[test]
fn a_bloat_label_names_the_project_that_owns_it() {
    assert_eq!(owning_project("node_modules"), ".");
    assert_eq!(owning_project("frontend/node_modules"), "frontend");
    assert_eq!(owning_project("packages/@scope/app/.venv"), "packages/@scope/app");
}

#[test]
fn test_prune_status_display() {
    assert_eq!(PruneStatus::Pruned.text(), "Pruned");
    assert_eq!(PruneStatus::SkippedActive.text(), "Skipped (active)");
    assert_eq!(PruneStatus::SkippedDryRun.text(), "Skipped (dry run)");
    assert_eq!(PruneStatus::DeleteError("denied".into()).text(), "Delete error: denied");
    assert_eq!(SkipReason::Active.text(), "Active (not idle)");
    assert_eq!(SkipReason::PathMissing.rank(), 2);
}

#[test]
fn the_scan_never_starts_more_threads_than_there_is_work() {
    assert_eq!(clamp_scan_threads(32, 3), 3);
    assert_eq!(clamp_scan_threads(0, 0), 1);
    assert_eq!(clamp_scan_threads(0, 50), 1);
}

#[test]
fn an_absurd_thread_request_is_clamped_rather_than_honoured() {
    assert_eq!(clamp_scan_threads(9_999, 500), STATUS_SCAN_MAX_THREADS);
}

#[test]
fn a_registry_of_one_repository_is_scanned_on_the_calling_thread_alone() {
    assert_eq!(clamp_scan_threads(16, 1), 1);
}

#[test]
fn the_thread_override_wins_when_it_is_a_positive_number() {
    assert_eq!(scan_thread_count(Some(" 3 "), Some(8), 100), 3);
    assert_eq!(scan_thread_count(Some("0"), Some(8), 100), 16);
    assert_eq!(scan_thread_count(None, None, 100), 8);
}

#[test]
fn take_top_selects_by_size_but_keeps_the_dashboard_order() {
    let names = ["small", "big", "mid"];
    let picked: Vec<&str> = take_top(&vec![10, 300, 200], Some(2)).into_iter().map(|i| names[i]).collect();
    assert_eq!(picked, vec!["big", "mid"]);
    let sizes = vec![10, 300, 20, 300, 5];
    assert_eq!(take_top(&sizes, Some(2)), vec![1, 3]);
    assert_eq!(take_top(&sizes, Some(3)), vec![1, 2, 3]);
    assert_eq!(take_top(&sizes, None), vec![0, 1, 2, 3, 4]);
    assert_eq!(take_top(&sizes, Some(99)), vec![0, 1, 2, 3, 4]);
}

#[test]
fn a_filter_refuses_what_it_cannot_honour() {
    let known: Vec<String> = ["npm", "uv", "cargo"].iter().map(|s| s.to_string()).collect();
    let f = AdapterFilter::new(Some("NPM, uv,npm"), Some("cargo"), &known).unwrap();
    assert!(f.allows("npm"));
    assert!(!f.allows("cargo"));
    assert!(!f.is_unrestricted());
    assert_eq!(f.describe().as_deref(), Some("only npm, uv; skipping cargo"));
    let err = AdapterFilter::new(Some("pmpm"), None, &known).err().unwrap();
    assert_eq!(err, "`--only pmpm` names no known package manager. Available: npm, uv, cargo.");
    assert!(AdapterFilter::new(Some(" , "), None, &known).is_err());
    assert!(AdapterFilter::new(Some("npm"), Some("npm"), &known).err().unwrap().contains("in both"));
    assert!(AdapterFilter::unrestricted().describe().is_none());
    let opts = PruneOptions::new(15, true, false);
    assert!(opts.adapters.is_unrestricted() && opts.scan_depth == 6);
}

#[test]
fn a_fix_command_runs_from_the_project_that_owns_the_directory() {
    let r = PruneResult {
        repo_path: "/repo".into(),
        adapter_name: "uv".into(),
        bloat_dir: "backend/.venv".into(),
        size_freed: 0,
        shared_bytes: 0,
        runtime: None,
        status: PruneStatus::NoBloat,
    };
    assert_eq!(r.project_dir(false), "/repo/backend");
}

#[test]
fn a_shared_folder_name_is_told_apart_by_its_parent() {
    let all: Vec<String> = vec!["/work/api".into(), "/home/api".into(), "/home/web".into()];
    assert_eq!(compute_display_name("/work/api", &all, None, "/work/api"), "work/api");
    assert_eq!(compute_display_name("/home/web", &all, None, "/home/web"), "web");
    assert_eq!(compute_display_name("/home/web", &all, Some("Site"), "/home/web"), "Site");
    assert_eq!(compute_display_name("/home/web", &all, Some("  "), "/home/web"), "web");
    assert_eq!(file_name("/a/b/"), Some("b".into()));
    assert_eq!(file_name("/"), None);
}

#[test]
fn a_trailing_dot_component_is_ignored_as_path_components_ignore_it() {
    assert_eq!(file_name("foo.txt/."), Some("foo.txt".into()));
    assert_eq!(file_name("a/./"), Some("a".into()));
    assert_eq!(file_name("."), None);
    assert_eq!(file_name("/."), None);
    assert_eq!(file_name("a/.."), None);
    assert_eq!(parent_of("a/b/."), Some("a".into()));
    assert_eq!(parent_of("a/./b"), Some("a".into()));
    assert_eq!(parent_of("./a"), Some(".".into()));
    assert_eq!(parent_of("."), Some("".into()));
    assert_eq!(parent_of("/./a"), Some("/".into()));
    assert_eq!(parent_of("/."), None);
    let all: Vec<String> = vec!["a/.".into()];
    assert_eq!(compute_display_name("a/.", &all, None, "a/."), "a");
    let twins: Vec<String> = vec!["/x/api/.".into(), "/y/api".into()];
    assert_eq!(compute_display_name("/x/api/.", &twins, None, "/x/api"), "x/api");
}

#[test]
fn the_scheduler_is_the_only_thing_that_records_a_scheduled_pass() {
    assert_eq!(Trigger::for_run(true), Trigger::Scheduled);
    assert_eq!(Trigger::for_run(false), Trigger::Manual);
}

fn record_at(at: i64, argv: &[&str]) -> PassRecord {
    PassRecord {
        at,
        trigger: Trigger::Manual,
        argv: argv.iter().map(|s| s.to_string()).collect(),
        version: "1.17.0".into(),
        dirs: vec![a_pruned_dir("node_modules")],
    }
}

#[test]
fn a_pass_that_saves_after_every_repository_is_one_entry_not_five() {
    let mut log: Vec<PassRecord> = Vec::new();
    append_record(&mut log, record_at(1, &["run"]), 3);
    append_record(&mut log, record_at(1, &["run", "--yes"]), 3);
    assert_eq!(log.len(), 1);
    assert_eq!(log[0].argv.len(), 2);
    for at in 2..6 {
        append_record(&mut log, record_at(at, &["run"]), 3);
    }
    assert_eq!(log.iter().map(|r| r.at).collect::<Vec<_>>(), vec![3, 4, 5]);
    assert_eq!(log[0].bytes_freed(), 42);
    assert_eq!(log[0].repos_touched(), 1);
}

#[test]
fn a_path_with_a_space_is_quoted_in_the_command_line() {
    assert_eq!(record_at(0, &["run", "C:\\My Code\\app"]).command_line(), "devp run \"C:\\My Code\\app\"");
    assert_eq!(record_at(0, &[]).command_line(), "devp");
    assert_eq!(Trigger::Dashboard.label(), "dashboard");
    assert_eq!(Trigger::all(), [Trigger::Manual, Trigger::Scheduled, Trigger::Dashboard]);
}

fn meta(code: &str, native: &str) -> Meta {
    Meta { code: code.into(), english_name: code.into(), native_name: native.into(), reviewed: true }
}

#[test]
fn a_translation_falls_back_to_english_key_by_key() {
    let english: Vec<(String, String)> = vec![("a".into(), "Apple".into()), ("b".into(), "Ball {n}".into())];
    let hindi: Vec<(String, String)> = vec![("a".into(), "सेब".into()), ("b".into(), "  ".into())];
    let merged = merge(&english, Some(&hindi));
    assert_eq!(t(&merged, "a"), "सेब");
    assert_eq!(t(&merged, "b"), "Ball {n}");
    assert_eq!(t(&merged, "missing.key"), "missing.key");
    assert_eq!(tf(&merged, "b", &[("n", "7")]), "Ball 7");
    let metas = vec![meta("en", "English"), meta("hi", "हिन्दी")];
    assert_eq!(language(&metas, "hi"), Some(1));
    assert_eq!(language(&metas, "EN"), None);
    assert_eq!(catalogue_line(&metas), "en English · hi हिन्दी");
    assert_eq!(resolve_language(Some(" hi "), Some("en"), &metas), "hi");
    assert_eq!(resolve_language(Some(""), Some("xx"), &metas), "en");
    assert_eq!(resolve_language(None, None, &metas), "en");
}

#[test]
fn the_picker_lists_each_language_by_its_own_name() {
    let metas = vec![meta("en", "English"), meta("te", "తెలుగు")];
    assert_eq!(
        choices(&metas),
        vec![("en".to_string(), "English".to_string()), ("te".to_string(), "తెలుగు".to_string())]
    );
    assert!(choices(&Vec::new()).is_empty());
}

#[test]
fn test_default_settings() {
    let settings = Settings::default();
    assert_eq!(settings.idle_days, 15);
    assert_eq!(settings.check_interval_days, 2);
    assert!(settings.auto_daemon);
    assert!(settings.auto_hooks);
    assert!(settings.auto_setup);
}

#[test]
fn test_default_registry() {
    let registry = Registry::default();
    assert_eq!(registry.version, "1.0");
    assert_eq!(registry.settings, Settings::default());
    assert!(registry.repositories.is_empty());
}

#[test]
fn test_repo_entry_new() {
    let entry = RepoEntry::new(1_700_000_000);
    assert!(entry.enabled);
    assert!(entry.last_pruned_at.is_none());
    assert!(entry.override_idle_days.is_none());
}

#[test]
fn test_add_repo_returns_true_for_new() {
    let mut registry = Registry::default();
    assert!(registry.add_repo("/test/repo", 0));
}

#[test]
fn test_add_repo_returns_false_for_duplicate() {
    let mut registry = Registry::default();
    registry.add_repo("/test/repo", 0);
    assert!(!registry.add_repo("/test/repo", 0));
}

#[test]
fn test_remove_repo() {
    let mut registry = Registry::default();
    registry.add_repo("/test/repo", 0);
    assert!(registry.remove_repo("/test/repo", "/test/repo", false));
    assert!(!registry.remove_repo("/test/repo", "/test/repo", false));
    assert_eq!(registry.repo_count(), 0);
}

#[test]
fn test_mark_pruned() {
    let mut registry = Registry::default();
    registry.add_repo("/test/repo", 0);
    assert!(registry.repositories[0].1.last_pruned_at.is_none());
    registry.mark_pruned("/test/repo", 1024, 5);
    assert!(registry.repositories[0].1.last_pruned_at.is_some());
    assert_eq!(registry.total_freed_bytes, 1024);
    assert_eq!(registry.total_pruned_count, 0);
}

#[test]
fn test_repo_count() {
    let mut registry = Registry::default();
    assert_eq!(registry.repo_count(), 0);
    registry.add_repo("/a", 0);
    registry.add_repo("/b", 0);
    assert_eq!(registry.repo_count(), 2);
}

#[test]
fn a_prune_that_deleted_nothing_does_not_erase_the_last_one() {
    let mut registry = Registry::default();
    registry.record_prune_progress(1, vec![a_pruned_dir("node_modules")]);
    let recorded = registry.last_prune.as_ref().expect("first pass recorded").dirs[0].bloat_dir.clone();

    registry.record_prune_progress(2, Vec::new());

    let last = registry.last_prune.as_ref().expect("still recorded");
    assert_eq!(last.at, 1);
    assert_eq!(last.dirs.len(), 1);
    assert_eq!(last.dirs[0].bloat_dir, recorded);
}

#[test]
fn a_later_prune_replaces_the_record() {
    let mut registry = Registry::default();
    registry.record_prune_progress(1, vec![a_pruned_dir("node_modules")]);
    registry.record_prune_progress(2, vec![a_pruned_dir("frontend/node_modules")]);

    let dirs = &registry.last_prune.as_ref().unwrap().dirs;
    assert_eq!(dirs.len(), 1);
    assert_eq!(dirs[0].bloat_dir, "frontend/node_modules");
}

#[test]
fn take_top_without_a_limit_or_with_an_oversized_one_returns_everything() {
    let sizes = vec![1, 2];
    assert_eq!(take_top(&sizes, None).len(), 2);
    assert_eq!(take_top(&sizes, Some(10)).len(), 2);
    assert_eq!(take_top(&sizes, Some(0)).len(), 0);
}

#[test]
fn a_relative_name_is_joined_with_one_separator() {
    assert_eq!(join_path("/a", "b", false), "/a/b");
    assert_eq!(join_path("/a/", "b", false), "/a/b");
    assert_eq!(join_path("C:\\x", "y", true), "C:\\x\\y");
    assert_eq!(join_path("", "y", false), "y");
}

#[test]
fn exclude_entry_is_appended_once_and_preserves_existing_lines() {
    let first = exclude_append(Some("# git ls-files --others\n*.log"), ".devprune.json").unwrap();
    assert_eq!(first, "\n.devprune.json\n");
    let after = format!("# git ls-files --others\n*.log{first}");
    assert_eq!(exclude_append(Some(&after), ".devprune.json"), None);
    assert_eq!(exclude_append(Some("a\n"), "b").as_deref(), Some("b\n"));
    assert_eq!(exclude_append(Some(""), "b").as_deref(), Some("b\n"));
    assert_eq!(exclude_append(Some("  b  \r\n"), "b"), None);
    assert_eq!(exclude_append(None, ".devprune.json").as_deref(), Some(".devprune.json\n"));
}

#[test]
fn exclude_follows_a_gitdir_pointer_file() {
    assert_eq!(git_dir("/r", true, None).as_deref(), Some("/r/.git"));
    assert_eq!(
        git_dir("/r", false, Some("gitdir: /main/.git/worktrees/r\n")).as_deref(),
        Some("/main/.git/worktrees/r")
    );
    assert_eq!(git_dir("/r", false, Some("gitdir: ../m/.git")).as_deref(), Some("/r/../m/.git"));
    assert_eq!(git_dir("/r", false, Some("not a pointer")), None);
    assert_eq!(git_dir("/r", false, None), None);
    assert_eq!(common_dir("/main/.git/worktrees/r", Some("../..\n")), "/main/.git/worktrees/r/../..");
    assert_eq!(common_dir("/w/.git", Some("/main/.git")), "/main/.git");
    assert_eq!(common_dir("/r/.git", None), "/r/.git");
}

#[test]
fn a_new_config_links_the_local_schema_when_there_is_one() {
    assert_eq!(
        default_schema_url(Some("/home/dev/.config/dev-prune/bin/devprune.schema.json")),
        "file:///home/dev/.config/dev-prune/bin/devprune.schema.json"
    );
    assert_eq!(
        default_schema_url(None),
        "https://devprune.vkrishna04.me/schemas/v1/devprune.schema.json"
    );
}

#[test]
fn undo_unregisters_what_the_last_link_added_and_empties_the_list() {
    let mut registry = Registry::new();
    registry.add_repo("/code/a", 1);
    registry.add_repo("/code/b", 1);
    registry.last_added_repos = vec!["/code/a".to_string(), "/code/gone".to_string()];
    let undone = registry.undo_additions(false);
    assert_eq!(undone, vec!["/code/a".to_string()]);
    assert!(registry.last_added_repos.is_empty());
    assert_eq!(registry.repositories.len(), 1);
    assert_eq!(registry.repositories[0].0, "/code/b");
}

#[test]
fn an_undo_that_found_nothing_does_not_claim_success() {
    assert_eq!(undo_summary(0), "Those repositories were already unregistered; nothing to undo.");
    assert_eq!(undo_summary(1), "Unregistered 1 repository.");
    assert_eq!(undo_summary(3), "Unregistered 3 repositories.");
}

#[test]
fn default_prune_options_restrict_nothing_and_rewrite_nothing() {
    let o = PruneOptions::default();
    assert_eq!(o.idle_days, 0);
    assert!(!o.dry_run && !o.force && !o.allow_manifest_rewrite);
    assert!(o.only_dirs.is_none());
    assert!(o.adapters.is_unrestricted());
    assert_eq!(o.min_size_bytes, 0);
    assert_eq!(o.scan_depth, Settings::default().scan_depth);
    assert_eq!(o.command_timeout_secs, Settings::default().command_timeout_secs);
    assert_eq!(o.build_idle_days, Settings::default().build_idle_days);
}

/// A sample English table and a partial translation standing in for the catalogues.
fn sample_tables() -> (Vec<(String, String)>, Vec<(String, String)>) {
    let english = vec![
        ("run.freed".to_string(), "Freed {size} from {count} directories".to_string()),
        ("run.none".to_string(), "Nothing to prune".to_string()),
    ];
    let telugu = vec![
        ("run.freed".to_string(), "{count} డైరెక్టరీల నుండి {size} ఖాళీ చేయబడింది".to_string()),
        ("run.none".to_string(), " ".to_string()),
    ];
    (english, telugu)
}

#[test]
fn unknown_language_is_not_supported() {
    let metas = vec![meta("en", "English"), meta("te", "తెలుగు")];
    assert!(language(&metas, "en").is_some());
    assert!(language(&metas, "te").is_some());
    assert!(language(&metas, "xx").is_none());
    assert!(language(&metas, "EN").is_none());
}

#[test]
fn placeholders_are_filled_by_name() {
    let (english, telugu) = sample_tables();
    for table in [merge(&english, None), merge(&english, Some(&telugu))] {
        let filled = tf(&table, "run.freed", &[("size", "1.2 GB"), ("count", "7")]);
        assert!(filled.contains("1.2 GB"), "{filled}");
        assert!(filled.contains('7'), "{filled}");
        assert!(!filled.contains('{'), "{filled}");
    }
}

#[test]
fn an_untranslated_key_falls_back_to_english() {
    let (english, telugu) = sample_tables();
    let merged = merge(&english, Some(&telugu));
    for (key, value) in &merged {
        assert!(!value.trim().is_empty(), "empty `{key}`");
        assert!(english.iter().any(|(k, _)| k == key), "invented `{key}`");
    }
    assert_eq!(t(&merged, "run.none"), "Nothing to prune");
}
