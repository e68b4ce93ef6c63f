use dev_prune_core::config::{
    ConfigKeys, LastPrune, PerRepoConfig, PruneRunSummary, PrunedDir, Registry, RepoEntry, Settings,
};
use dev_prune_core::history::{merged, Pass, PassRecord, Trigger};
use dev_prune_core::declared::{makefile_candidates, manifest_name};
use dev_prune_core::engine::{PruneOptions, PruneResult, PruneStatus, SkipReason};
use dev_prune_core::order::{compare_paths, sort_by_table};
use dev_prune_core::pass::{
    activity_gate, build_idle_threshold, close_repo, delete_result, dir_name, dry_run_result,
    failed_pass, lockfile_failures, pass_limits, pass_order, pruned_bytes, refusal, repo_gate,
    repo_idle_days, restore_label, restore_step, select_bloat, tally, whole_repo, Candidate,
    DeleteOutcome, FoundProject, RestoreStep,
};
use dev_prune_core::pass::{repo_report, restore_deleted, restore_project_to_depth};
use dev_prune_core::config::{read_layer, unknown_keys_in, RepoConfigLayers, JSON_SCHEMA_URL};
use dev_prune_core::flow::{pass_step, PassAction, PassEvent, PassPhase, PassState};
use dev_prune_core::scan::{dashboard_order, measured, reclaimable, status_step, StatusStep};
use dev_prune_core::status::{
    drift_line, drift_report_order, hook_row, hook_status_line, min_size_line, record_line,
    showing_line, timeout_line, tracked_line, HookState, ProjectDrift,
};

fn config_with(ignore: bool, idle: Option<u64>, mb: Option<u64>, depth: Option<usize>) -> PerRepoConfig {
    let mut c = PerRepoConfig::with_defaults("schema");
    c.ignore = ignore;
    c.override_idle_days = idle;
    c.min_size_mb = mb;
    c.scan_depth = depth;
    c
}

fn status_of(r: &PruneResult) -> String {
    r.status.text()
}

#[test]
fn a_repository_is_gated_before_any_bloat_is_looked_for() {
    let ok: Result<Option<PerRepoConfig>, String> = Ok(None);
    let gone = repo_gate("/r", false, false, false, &ok).unwrap();
    assert!(matches!(gone.status, PruneStatus::PathMissing));
    assert_eq!(gone.adapter_name, "-");
    assert_eq!(gone.bloat_dir, "-");

    let not_git = repo_gate("/r", true, false, false, &ok).unwrap();
    match &not_git.status {
        PruneStatus::ActivityCheckError(m) => assert_eq!(
            m,
            "`/r` is no longer a git repository — nothing was touched. `devp unlink` removes it from the registry."
        ),
        _ => panic!("a path without .git is reported"),
    }

    let opted_out = repo_gate("/r", true, true, true, &ok).unwrap();
    assert!(matches!(opted_out.status, PruneStatus::SkippedIgnored));

    let broken: Result<Option<PerRepoConfig>, String> = Err("expected value at line 1".to_string());
    let refused = repo_gate("/r", true, true, false, &broken).unwrap();
    assert_eq!(status_of(&refused), "Unreadable .devprune.json: expected value at line 1");

    let ignored: Result<Option<PerRepoConfig>, String> = Ok(Some(config_with(true, None, None, None)));
    assert!(matches!(repo_gate("/r", true, true, false, &ignored).unwrap().status, PruneStatus::SkippedIgnored));

    let fine: Result<Option<PerRepoConfig>, String> = Ok(Some(config_with(false, None, None, None)));
    assert!(repo_gate("/r", true, true, false, &fine).is_none());
}

#[test]
fn a_repository_sets_its_own_window_and_floor_unless_the_caller_chose() {
    let mut opts = PruneOptions::new(15, false, false);
    opts.min_size_bytes = 5;
    assert_eq!(pass_limits(&opts, &None), (15, 5));
    assert_eq!(pass_limits(&opts, &Some(config_with(false, Some(3), Some(2), None))), (3, 2 * 1048576));
    assert_eq!(pass_limits(&opts, &Some(config_with(false, None, Some(0), None))), (15, 0));
    assert_eq!(pass_limits(&opts, &Some(config_with(false, None, Some(u64::MAX), None))), (15, u64::MAX));
    opts.only_dirs = Some(vec!["node_modules".to_string()]);
    assert_eq!(pass_limits(&opts, &Some(config_with(false, None, Some(2), None))), (15, 0));
}

#[test]
fn the_idle_check_is_bypassed_only_by_force() {
    assert!(activity_gate("/r", true, Ok(false)).is_none());
    assert!(activity_gate("/r", false, Ok(true)).is_none());
    assert!(matches!(activity_gate("/r", false, Ok(false)).unwrap().status, PruneStatus::SkippedActive));
    assert_eq!(
        status_of(&activity_gate("/r", false, Err("no commits".to_string())).unwrap()),
        "Activity check failed: no commits"
    );
    assert_eq!(build_idle_threshold(45, 15), 45);
    assert_eq!(build_idle_threshold(10, 15), 15);
}

fn cand(label: &str, path: &str, size: u64) -> Candidate {
    Candidate { label: label.to_string(), path: path.to_string(), size_bytes: size }
}

#[test]
fn a_directory_two_adapters_claim_is_offered_once_and_the_floor_comes_first() {
    let mut claimed: Vec<String> = Vec::new();
    let first = select_bloat(
        &vec![cand("target", "/r/target", 10), cand("node_modules", "/r/node_modules", 500)],
        &None,
        100,
        &mut claimed,
    );
    assert_eq!(first, vec![1]);
    assert_eq!(claimed, vec!["/r/node_modules".to_string()]);
    let second = select_bloat(
        &vec![cand("node_modules", "/r/node_modules", 500), cand("target", "/r/target", 200)],
        &None,
        100,
        &mut claimed,
    );
    assert_eq!(second, vec![1]);
    let only = select_bloat(
        &vec![cand("a/node_modules", "/r/a/node_modules", 1), cand("b/node_modules", "/r/b/node_modules", 1)],
        &Some(vec!["b/node_modules".to_string()]),
        0,
        &mut claimed,
    );
    assert_eq!(only, vec![1]);
}

#[test]
fn storage_the_repository_does_not_own_is_refused_by_name() {
    let s = refusal("/r", "npm", "node_modules", "/r/node_modules", true, false, None).unwrap();
    assert_eq!(
        status_of(&s),
        "Skipped (symlink): `/r/node_modules` is a symlink to storage dev-prune does not own — left alone. Remove the link yourself if you really want it gone."
    );
    let m = refusal("/r", "npm", "node_modules", "/r/node_modules", false, true, None).unwrap();
    assert!(status_of(&m).contains("is a mount point"));
    let n = refusal("/r", "npm", "node_modules", "/r/node_modules", false, false, Some("/r/node_modules/x/.git")).unwrap();
    assert_eq!(
        status_of(&n),
        "Delete error: `/r/node_modules` contains a git repository at `/r/node_modules/x/.git` — refusing to delete it. Move or remove that checkout yourself if it holds nothing you need."
    );
    assert!(refusal("/r", "npm", "node_modules", "/r/node_modules", false, false, None).is_none());
}

#[test]
fn every_outcome_reports_what_it_did() {
    let fails = lockfile_failures("/r", "npm", &vec!["a".to_string(), "b".to_string()], "lockfile is stale");
    assert_eq!(fails.len(), 2);
    assert_eq!(fails[1].bloat_dir, "b");
    assert_eq!(status_of(&fails[0]), "Lockfile error: lockfile is stale");

    let dry = dry_run_result("/r", "npm", "node_modules", 100, 7);
    assert_eq!((dry.size_freed, dry.shared_bytes), (100, 7));
    assert!(matches!(dry.status, PruneStatus::SkippedDryRun));

    let done = delete_result("/r", "npm", "node_modules", "/r/node_modules", 100, 7, Some("node 20".to_string()), DeleteOutcome::Done, "", "");
    assert_eq!((done.size_freed, done.shared_bytes), (100, 7));
    assert_eq!(done.runtime.as_deref(), Some("node 20"));
    let again = delete_result("/r", "npm", "node_modules", "/p", 100, 7, None, DeleteOutcome::GoneAnyway, "", "");
    assert!(matches!(again.status, PruneStatus::Pruned));

    let half = delete_result(
        "/r", "npm", "node_modules", "/r/node_modules", 100, 7, None,
        DeleteOutcome::Failed { error: "access denied".to_string(), remaining: 40 },
        "40 B", "100 B",
    );
    assert_eq!(half.size_freed, 60);
    assert_eq!(half.shared_bytes, 0);
    assert_eq!(
        status_of(&half),
        "Delete error: access denied — `/r/node_modules` was partially deleted (40 B of 100 B remains) and is no longer usable. Close whatever holds it open, then run `devp restore` to rebuild it."
    );
    let none = delete_result(
        "/r", "npm", "node_modules", "/p", 100, 0, None,
        DeleteOutcome::Failed { error: "busy".to_string(), remaining: 100 },
        "", "",
    );
    assert_eq!(status_of(&none), "Delete error: busy");

    let mut results: Vec<PruneResult> = Vec::new();
    close_repo(&mut results, "/r");
    assert_eq!(results.len(), 1);
    assert!(matches!(results[0].status, PruneStatus::NoBloat));
    close_repo(&mut results, "/r");
    assert_eq!(results.len(), 1);
}

#[test]
fn a_pass_adds_up_its_deletions_and_its_failures() {
    let results = vec![
        delete_result("/a", "npm", "node_modules", "/a/node_modules", 100, 0, None, DeleteOutcome::Done, "", ""),
        delete_result("/a", "uv", ".venv", "/a/.venv", 50, 0, None,
            DeleteOutcome::Failed { error: "busy".to_string(), remaining: 20 }, "20 B", "50 B"),
        lockfile_failures("/b", "npm", &vec!["node_modules".to_string()], "stale").remove(0),
        whole_repo("/c", PruneStatus::SkippedActive),
        delete_result("/d", "npm", "node_modules", "/d/node_modules", 25, 0, None, DeleteOutcome::Done, "", ""),
    ];
    assert_eq!(pruned_bytes(&results), 125);
    let t = tally(&results);
    assert_eq!(t.total_freed, 125);
    assert_eq!(t.pruned_count, 2);
    assert_eq!(t.error_count, 2);
    assert_eq!(t.pruned_dirs.len(), 3);
    assert_eq!(t.pruned_dirs[1].size_freed, 30);
    assert_eq!(failed_pass(t.error_count).as_deref(), Some("2 directories could not be pruned."));
    assert_eq!(failed_pass(0), None);

    let mut entry = RepoEntry::new(0);
    let settings = Settings::default();
    assert_eq!(repo_idle_days(&entry, &settings), 15);
    entry.override_idle_days = Some(3);
    assert_eq!(repo_idle_days(&entry, &settings), 3);
}

#[test]
fn a_pass_visits_repositories_in_path_order() {
    let paths = vec!["/b".to_string(), "/a-b".to_string(), "/a/b".to_string(), "/a".to_string()];
    let order = pass_order(&paths);
    let listed: Vec<&str> = order.iter().map(|&i| paths[i].as_str()).collect();
    // Component order, not character order: `/a/b` sorts before `/a-b` because `a`
    // is a prefix of `a-b`.
    assert_eq!(listed, vec!["/a", "/a/b", "/a-b", "/b"]);
}

#[test]
fn paths_compare_component_by_component() {
    assert_eq!(compare_paths("/a/b", "/a//b/"), 0);
    assert_eq!(compare_paths("/a/./b", "/a/b"), 0);
    assert_eq!(compare_paths("./a", "a"), -1);
    assert_eq!(compare_paths("/z", "a"), -1);
    assert_eq!(compare_paths("/a/..", "/a/b"), -1);
    assert_eq!(compare_paths("/a/b", "/a"), 1);
    let mut expected = vec!["/a", "/a/b", "/a-b", "/b", "a"];
    expected.sort_by(|x, y| std::path::Path::new(x).cmp(std::path::Path::new(y)));
    assert_eq!(expected, vec!["/a", "/a/b", "/a-b", "/b", "a"]);
}

#[test]
fn a_table_sort_is_stable() {
    let t = vec![vec![0, 1, 0], vec![-1, 0, -1], vec![0, 1, 0]];
    assert_eq!(sort_by_table(&t), vec![1, 0, 2]);
    assert!(sort_by_table(&Vec::new()).is_empty());
}

#[test]
fn the_dashboard_lists_candidates_then_the_rest_then_the_gone() {
    let reasons = vec![
        SkipReason::PathMissing,
        SkipReason::Active,
        SkipReason::Candidate,
        SkipReason::NoBloat,
        SkipReason::Candidate,
    ];
    let paths = vec!["/a".to_string(), "/z".to_string(), "/y".to_string(), "/b".to_string(), "/c".to_string()];
    let order = dashboard_order(&reasons, &paths);
    let listed: Vec<&str> = order.iter().map(|&i| paths[i].as_str()).collect();
    assert_eq!(listed, vec!["/c", "/y", "/b", "/z", "/a"]);
}

#[test]
fn the_status_scan_settles_what_it_can_before_measuring() {
    let settings = Settings::default();
    let entry = RepoEntry::new(0);
    let ok: Result<Option<PerRepoConfig>, String> = Ok(None);
    assert!(matches!(status_step(&entry, &settings, false, false, &ok), StatusStep::Settled(SkipReason::PathMissing, 15)));
    let broken: Result<Option<PerRepoConfig>, String> = Err("bad".to_string());
    match status_step(&entry, &settings, true, false, &broken) {
        StatusStep::Settled(SkipReason::ConfigError(e), 15) => assert_eq!(e, "bad"),
        _ => panic!("a broken config is settled as such"),
    }
    let own: Result<Option<PerRepoConfig>, String> = Ok(Some(config_with(false, Some(4), Some(1), Some(9))));
    match status_step(&entry, &settings, true, false, &own) {
        StatusStep::Measure { idle_days, min_size_bytes, depth } => {
            assert_eq!((idle_days, min_size_bytes, depth), (4, 1048576, 9));
        },
        _ => panic!("a healthy repository is measured"),
    }
    assert!(matches!(status_step(&entry, &settings, true, true, &own), StatusStep::Settled(SkipReason::Ignored, 4)));
    let mut disabled = RepoEntry::new(0);
    disabled.enabled = false;
    assert!(matches!(status_step(&disabled, &settings, true, false, &ok), StatusStep::Settled(SkipReason::Ignored, 15)));
    assert!(matches!(measured(false, 3), SkipReason::Active));
    assert!(matches!(measured(true, 0), SkipReason::NoBloat));
    assert!(matches!(measured(true, 2), SkipReason::Candidate));
    assert_eq!(reclaimable(&vec![1, 2, 3]), 6);
}

fn drift(repo: &str, project: &str, adapter: &str, dir: &str, n: usize) -> ProjectDrift {
    ProjectDrift {
        repository: repo.to_string(),
        project: project.to_string(),
        adapter: adapter.to_string(),
        directory: dir.to_string(),
        unrecorded: (0..n).map(|i| format!("pkg{i}")).collect(),
        record_command: "npm install --save".to_string(),
    }
}

#[test]
fn the_drift_report_reads_the_same_on_every_run() {
    let findings = vec![
        drift("/b", ".", "npm", "node_modules", 1),
        drift("/a", "web", "npm", "node_modules", 2),
        drift("/a", ".", "uv", ".venv", 1),
        drift("/a", ".", "npm", "node_modules", 1),
    ];
    let order = drift_report_order(&findings);
    assert_eq!(order, vec![3, 2, 1, 0]);
    assert_eq!(
        drift_line(&findings[1]),
        "    web/node_modules (npm): 2 unrecorded packages — pkg0, pkg1"
    );
    assert_eq!(drift_line(&findings[2]), "    .venv (uv): 1 unrecorded package — pkg0");
    assert_eq!(
        drift_line(&drift("/a", ".", "npm", "node_modules", 12)),
        "    node_modules (npm): 12 unrecorded packages — pkg0, pkg1, pkg2, pkg3, pkg4, pkg5, pkg6, pkg7, pkg8, pkg9, … and 2 more"
    );
    assert_eq!(record_line(&findings[0]), "      record them: npm install --save");
}

#[test]
fn the_hook_lines_name_both_halves_of_the_installation() {
    assert_eq!(
        hook_status_line(Ok(HookState::Active)),
        "Active (post-commit, post-checkout, post-merge)"
    );
    assert_eq!(
        hook_status_line(Ok(HookState::Chained { previous: "husky".to_string(), drifted: vec![] })),
        "Active, chained to husky"
    );
    assert_eq!(
        hook_status_line(Ok(HookState::Chained {
            previous: "husky".to_string(),
            drifted: vec!["pre-push".to_string(), "commit-msg".to_string()],
        })),
        "Active, chained to husky (2 hook(s) not forwarded)"
    );
    assert_eq!(
        hook_status_line(Ok(HookState::Foreign(".husky".to_string()))),
        "Inactive (core.hooksPath belongs to .husky)"
    );
    assert_eq!(hook_status_line(Ok(HookState::Absent)), "Inactive");
    assert_eq!(hook_status_line(Err("git failed".to_string())), "Inactive");
    assert_eq!(hook_row(false, Ok(HookState::Active)), "Not installed — git is not on PATH");
    assert_eq!(
        hook_row(true, Ok(HookState::Chained { previous: "lefthook".to_string(), drifted: vec![] })),
        "Installed, chained to `lefthook`"
    );
    assert_eq!(hook_row(true, Err("denied".to_string())), "Unknown (denied)");
}

#[test]
fn the_dashboard_header_derives_its_numbers() {
    assert_eq!(timeout_line(600), "Global Command Timeout: 600s (10m)");
    assert_eq!(min_size_line(0), None);
    assert_eq!(
        min_size_line(50).as_deref(),
        Some("Minimum Directory Size: 50 MiB (smaller ones are left alone)")
    );
    assert_eq!(tracked_line(3), "Tracked Repositories:   3");
    assert_eq!(
        showing_line(Some(1)).as_deref(),
        Some("Showing:                the 1 repository with the most reclaimable space")
    );
    assert_eq!(
        showing_line(Some(5)).as_deref(),
        Some("Showing:                the 5 repositories with the most reclaimable space")
    );
    assert_eq!(showing_line(None), None);
}

#[test]
fn make_reads_the_named_file_or_its_three_default_names() {
    let named = makefile_candidates(Some("sub"), Some("build.mk")).unwrap();
    assert_eq!(named, vec![vec!["sub".to_string(), "build.mk".to_string()]]);
    let defaults = makefile_candidates(None, None).unwrap();
    assert_eq!(
        defaults,
        vec![vec!["Makefile".to_string()], vec!["makefile".to_string()], vec!["GNUmakefile".to_string()]]
    );
    assert!(makefile_candidates(Some("../elsewhere"), None).is_none());
    assert!(makefile_candidates(None, Some("/etc/Makefile")).is_none());
    assert_eq!(manifest_name(&named[0]), "sub/build.mk");
}

#[test]
fn a_typo_key_is_named_with_its_file() {
    let files = vec![
        (
            "project.devprune.json",
            Some(ConfigKeys {
                top: vec!["ignore".to_string(), "idle_days".to_string()],
                prunable: Some((
                    vec!["directories".to_string(), "excludes".to_string()],
                    vec![vec!["path".to_string(), "rebuld".to_string()]],
                )),
            }),
        ),
        (".devprune.json", None),
    ];
    let found = PerRepoConfig::unknown_keys(&files);
    assert_eq!(
        found,
        vec![
            ("project.devprune.json", "idle_days".to_string()),
            ("project.devprune.json", "prunable.excludes".to_string()),
            ("project.devprune.json", "prunable.directories[].rebuld".to_string()),
        ]
    );
}

fn pruned(label: &str, adapter: &str) -> PrunedDir {
    PrunedDir {
        repo_path: "/r".to_string(),
        bloat_dir: label.to_string(),
        adapter: adapter.to_string(),
        size_freed: 1,
        runtime: None,
    }
}

#[test]
fn a_restore_rebuilds_only_what_the_pass_emptied() {
    let projects = vec![
        FoundProject { relative: ".".to_string(), path: "/r".to_string(), adapters: vec!["npm".to_string()] },
        FoundProject { relative: "api".to_string(), path: "/r/api".to_string(), adapters: vec!["uv".to_string()] },
    ];
    assert!(matches!(restore_step("/r", &pruned("api/.venv", "uv"), &projects, true, true, false), RestoreStep::Found(1)));
    match restore_step("/r", &pruned("web/.venv", "venv"), &projects, true, true, false) {
        RestoreStep::Recorded(d) => assert_eq!(d, "/r/web"),
        _ => panic!("the record is trusted while its directory exists"),
    }
    match restore_step("/r", &pruned("web/.venv", "venv"), &projects, true, false, false) {
        RestoreStep::Gone(m) => assert_eq!(
            m,
            "`web` in /r is no longer a venv project — it may have been moved or removed since the prune. Restore it by hand if it still exists."
        ),
        _ => panic!("a vanished project is reported"),
    }
    assert_eq!(restore_label(&pruned("api/.venv", "uv")), "uv (api/.venv)");
    assert_eq!(dir_name("api/.venv"), ".venv");
    assert_eq!(dir_name("node_modules"), "node_modules");
}

fn dir(repo: &str, name: &str, bytes: u64) -> PrunedDir {
    PrunedDir {
        repo_path: repo.to_string(),
        bloat_dir: name.to_string(),
        adapter: "npm".to_string(),
        size_freed: bytes,
        runtime: None,
    }
}

fn record_at(at: i64, dirs: Vec<PrunedDir>) -> PassRecord {
    PassRecord {
        at,
        trigger: Trigger::Manual,
        argv: vec!["run".to_string()],
        version: "1.17.0".to_string(),
        dirs,
    }
}

#[test]
fn passes_recorded_before_the_log_existed_still_appear() {
    let mut registry = Registry::default();
    let old = 1_000;
    let newest = 2_000;
    registry.prune_history = vec![
        PruneRunSummary { at: old, bytes_freed: 500, dirs_removed: 2, repos_touched: 1 },
        PruneRunSummary { at: newest, bytes_freed: 900, dirs_removed: 3, repos_touched: 2 },
    ];
    registry.last_prune = Some(LastPrune { at: newest, dirs: vec![dir("/a", "node_modules", 900)] });

    let passes = merged(Vec::new(), &registry);
    assert_eq!(passes.len(), 2);
    assert_eq!(passes[0].at(), newest);
    assert!(passes[0].dirs().is_some());
    assert!(passes[1].dirs().is_none());
    assert_eq!(passes[1].bytes_freed(), 500);
}

#[test]
fn the_log_supersedes_the_registry_summary_of_the_same_pass() {
    let mut registry = Registry::default();
    let at = 5_000;
    registry.prune_history = vec![PruneRunSummary { at, bytes_freed: 300, dirs_removed: 2, repos_touched: 2 }];
    let passes = merged(
        vec![record_at(at, vec![dir("/a", "node_modules", 100), dir("/b", "node_modules", 200)])],
        &registry,
    );
    assert_eq!(passes.len(), 1);
    assert!(matches!(passes[0], Pass::Detailed(_)));
    assert_eq!(passes[0].bytes_freed(), 300);
    assert_eq!(passes[0].repos_touched(), 2);
    assert_eq!(passes[0].trigger(), Some(Trigger::Manual));
}

#[test]
fn every_pass_is_listed_newest_first() {
    let mut registry = Registry::default();
    registry.prune_history = vec![
        PruneRunSummary { at: 10, bytes_freed: 1, dirs_removed: 1, repos_touched: 1 },
        PruneRunSummary { at: 30, bytes_freed: 3, dirs_removed: 1, repos_touched: 1 },
    ];
    let passes = merged(vec![record_at(20, vec![]), record_at(40, vec![])], &registry);
    let ats: Vec<i64> = passes.iter().map(|p| p.at()).collect();
    assert_eq!(ats, vec![40, 30, 20, 10]);
    assert_eq!(passes[1].trigger(), None);
    assert_eq!(passes[1].dirs_removed(), 1);
}

#[test]
fn a_whole_tree_restore_names_each_adapter_of_each_project() {
    let projects = vec![
        FoundProject {
            relative: ".".to_string(),
            path: "/r".to_string(),
            adapters: vec!["npm".to_string(), "uv".to_string()],
        },
        FoundProject { relative: "api".to_string(), path: "/r/api".to_string(), adapters: vec!["cargo".to_string()] },
    ];
    assert_eq!(
        restore_project_to_depth("/r", &projects).unwrap(),
        vec![
            ("npm".to_string(), 0, 0),
            ("uv".to_string(), 0, 1),
            ("cargo (api)".to_string(), 1, 0),
        ]
    );
    assert_eq!(
        restore_project_to_depth("/empty", &Vec::new()).unwrap_err(),
        "No recognized package manager found in /empty"
    );
}

#[test]
fn a_restore_reports_every_record_and_drops_none() {
    let projects = vec![FoundProject {
        relative: "api".to_string(),
        path: "/r/api".to_string(),
        adapters: vec!["uv".to_string()],
    }];
    let deleted = vec![pruned("api/.venv", "uv"), pruned("web/node_modules", "npm")];
    let plan = restore_deleted("/r", &deleted, &projects, &vec![true, true], &vec![true, false], false);
    assert_eq!(plan.len(), 2);
    assert_eq!(plan[0].0, "uv (api/.venv)");
    assert!(matches!(plan[0].1, RestoreStep::Found(0)));
    assert_eq!(plan[1].0, "npm (web/node_modules)");
    assert!(matches!(plan[1].1, RestoreStep::Gone(_)));
}

/// Drives an adapter's pass with the given answers and returns the actions it asked for,
/// in a printable form.
fn drive(dry_run: bool, refused: &[bool], lockfile_ok: bool) -> Vec<String> {
    let mut state = PassState::new(dry_run, refused.len());
    let mut event = PassEvent::Proceed;
    let mut asked = Vec::new();
    loop {
        let (next, action) = pass_step(&state, event);
        state = next;
        event = match action {
            PassAction::Check(i) => {
                asked.push(format!("check {i}"));
                PassEvent::Checked { refused: refused[i] }
            }
            PassAction::Enforce => {
                asked.push("enforce".to_string());
                PassEvent::Enforced { ok: lockfile_ok }
            }
            PassAction::Delete(i) => {
                asked.push(format!("delete {i}"));
                PassEvent::Deleted
            }
            PassAction::ReportDryRun(v) => {
                asked.push(format!("dry run {v:?}"));
                PassEvent::Proceed
            }
            PassAction::ReportLockfileFailure(v) => {
                asked.push(format!("lockfile failed {v:?}"));
                PassEvent::Proceed
            }
            PassAction::Continue => PassEvent::Proceed,
            PassAction::Done => break,
        };
    }
    assert_eq!(state.phase(), PassPhase::Finished);
    asked
}

#[test]
fn refusals_come_first_then_the_lockfile_then_each_surviving_delete() {
    assert_eq!(
        drive(false, &[false, true, false], true),
        vec!["check 0", "check 1", "check 2", "enforce", "delete 0", "delete 2"]
    );
}

#[test]
fn a_dry_run_neither_enforces_nor_deletes() {
    assert_eq!(drive(true, &[false, true], true), vec!["check 0", "check 1", "dry run [0]"]);
}

#[test]
fn a_lockfile_that_does_not_hold_deletes_nothing() {
    assert_eq!(
        drive(false, &[false, false], false),
        vec!["check 0", "check 1", "enforce", "lockfile failed [0, 1]"]
    );
}

#[test]
fn nothing_is_enforced_when_every_directory_was_refused() {
    assert_eq!(drive(false, &[true, true], true), vec!["check 0", "check 1"]);
    assert_eq!(drive(false, &[], true), Vec::<String>::new());
}

#[test]
fn a_typo_key_is_reported_from_the_file_text_but_never_refused() {
    let files = vec![
        (".devprune.json", Some(r#"{ "ignore": true, "idle_days": 30, "prunable": { "directores": [] } }"#.to_string())),
        ("project.devprune.json", Some("not json".to_string())),
        ("other.json", None),
    ];
    let unknown: Vec<String> = unknown_keys_in(&files).into_iter().map(|(_, k)| k).collect();
    assert_eq!(unknown, vec!["idle_days", "prunable.directores"]);
    let entries = vec![(
        ".devprune.json",
        Some(r#"{ "prunable": { "directories": [ { "path": "x", "rebuild": "y", "note": 1 }, 3 ] } }"#.to_string()),
    )];
    assert_eq!(unknown_keys_in(&entries), vec![(".devprune.json", "prunable.directories[].note".to_string())]);
}

#[test]
fn a_broken_per_repo_config_is_an_error_rather_than_an_absent_one() {
    // Absent: no layer, and so no configuration at all.
    assert!(read_layer(".devprune.json", Ok(None)).unwrap().is_none());
    let none = RepoConfigLayers::from_files("project.devprune.json", Ok(None), ".devprune.json", Ok(None));
    assert!(PerRepoConfig::load_with_diagnostics(&none, JSON_SCHEMA_URL).unwrap().is_none());
    // Does not parse: refused, naming the file.
    let broken = r#"{ "ignore": true, }"#;
    let err = read_layer("/r/.devprune.json", Ok(Some((broken, Err("trailing comma at line 1 column 19".to_string())))))
        .err()
        .unwrap();
    assert!(err.contains("Syntax error") && err.contains("/r/.devprune.json"), "{err}");
    let layers = RepoConfigLayers::from_files(
        "/r/project.devprune.json",
        Ok(None),
        "/r/.devprune.json",
        Ok(Some((broken, Err("trailing comma".to_string())))),
    );
    assert!(PerRepoConfig::load_with_diagnostics(&layers, JSON_SCHEMA_URL).err().unwrap().contains("Syntax error"));
    // Parses: the keys come from the text itself.
    let mut cfg = PerRepoConfig::with_defaults(JSON_SCHEMA_URL);
    cfg.ignore = true;
    let layer = read_layer("/r/.devprune.json", Ok(Some((r#"{ "ignore": true }"#, Ok(cfg))))).unwrap().unwrap();
    assert_eq!(layer.keys, vec!["ignore".to_string()]);
    assert!(layer.config.ignore);
    assert!(read_layer("/r/.devprune.json", Err("permission denied".to_string())).err().unwrap().contains("permission denied"));
}

#[test]
fn a_repository_spelled_with_a_trailing_slash_is_counted_once() {
    let r = record_at(1, vec![dir("/a", "node_modules", 1), dir("/a/", "web/node_modules", 2), dir("/b", "x", 3)]);
    assert_eq!(r.repos_touched(), 2);
    assert_eq!(r.bytes_freed(), 6);
}

#[test]
fn a_repository_always_gets_a_line_and_the_first_stop_wins() {
    let missing = repo_report("/gone", repo_gate("/gone", false, false, false, &Ok(None)), None, vec![]);
    assert_eq!(missing.len(), 1);
    assert!(matches!(missing[0].status, PruneStatus::PathMissing));
    let active = repo_report("/r", None, activity_gate("/r", false, Ok(false)), vec![dry_run_result("/r", "npm", "node_modules", 1, 0)]);
    assert_eq!(active.len(), 1);
    assert!(matches!(active[0].status, PruneStatus::SkippedActive));
    let empty = repo_report("/r", None, None, vec![]);
    assert!(matches!(empty[0].status, PruneStatus::NoBloat));
    let lines = repo_report("/r", None, None, vec![dry_run_result("/r", "npm", "node_modules", 1, 0)]);
    assert!(matches!(lines[0].status, PruneStatus::SkippedDryRun));
}
