use dev_prune_core::status::format_duration;
use dev_prune_core::config::Registry;
use dev_prune_core::daemon::DaemonStatus;
use dev_prune_core::trust::{
    annotate_alias, build, git_path_value, guarantees, opt_in_adapters, scheduler_state,
    widened_summary, BinaryIdentity, TrustReport, TrustRow, Verdict, EARLIER_RELEASE_NOTE,
    SAME_BYTES_NOTE, VIRUSTOTAL_FILE_BASE,
};
use dev_prune_core::uninstall::{
    add_manager_hint, aside_name, bin_dir_goes_to_helper, binary_candidates, canon_key,
    completion_line, deep_warning, drop_pending, exe_name, forget_manager_hint, foreign_line,
    found_strays_line, group_by_channel, is_dev_build, is_in_use_error, left_behind_message,
    note_manager_hints, reinstall_hint, removed_strays_line, stray_plan, sweep_names,
    unfinished_line, StrayCopy, StrayPlan,
};
use dev_prune_core::trust::{
    fix_done, fix_explanation, is_dubious_ownership, refused_heading, safe_directories,
    safe_directory_additions,
};
use dev_prune_core::update::{
    companion_copies, install_gate, install_step, InstallStep,
};
use dev_prune_core::update::{
    auto_update_step, check_download, compare_versions, is_check_due, latest_release_version,
    locked_notice, outdated_notice, parse_sha256_sidecar, record_release_check,
    release_asset_name, release_check_due, sha256_hex, version_from_tag, AutoUpdateStep, VERSION,
};
use dev_prune_core::update::{release_comparison, Standing};
use dev_prune_core::uninstall::{dirs_to_sweep, manual_removal_command, manual_removal_heading};
use std::cmp::Ordering;

#[test]
fn the_timeout_is_described_in_whatever_unit_fits_it() {
    assert_eq!(format_duration(600), "10m");
    assert_eq!(format_duration(3600), "1h");
    assert_eq!(format_duration(90), "90s");
    assert_eq!(format_duration(0), "0s");
}

fn pair(managed: Option<&str>, alias: Option<&str>) -> Vec<BinaryIdentity> {
    let row = |role: &'static str, sha: Option<&str>| BinaryIdentity {
        role,
        name: String::new(),
        path: String::new(),
        sha256: sha.map(str::to_string),
        running: false,
        note: None,
    };
    vec![row("managed", managed), row("alias", alias)]
}

fn alias_note(rows: &[BinaryIdentity]) -> Option<&'static str> {
    rows.iter().find(|r| r.role == "alias").unwrap().note
}

#[test]
fn the_alias_note_follows_the_digests_and_not_the_expectation() {
    let mut same = pair(Some("aa"), Some("aa"));
    annotate_alias(&mut same);
    assert!(alias_note(&same).is_some_and(|n| n.contains("The same bytes")));

    let mut stale = pair(Some("aa"), Some("bb"));
    annotate_alias(&mut stale);
    assert!(alias_note(&stale).is_some_and(|n| n.contains("An earlier release")));

    let mut unreadable = pair(Some("aa"), None);
    annotate_alias(&mut unreadable);
    assert!(alias_note(&unreadable).is_none());
}

#[test]
fn the_notes_are_the_two_sentences_and_a_lone_row_is_left_alone() {
    let mut same = pair(Some("aa"), Some("aa"));
    annotate_alias(&mut same);
    assert_eq!(alias_note(&same), Some(SAME_BYTES_NOTE));
    let mut stale = pair(Some("aa"), Some("bb"));
    annotate_alias(&mut stale);
    assert_eq!(alias_note(&stale), Some(EARLIER_RELEASE_NOTE));
    let mut only_managed = pair(Some("aa"), Some("aa"));
    only_managed.truncate(1);
    annotate_alias(&mut only_managed);
    assert!(only_managed[0].note.is_none());
}

#[test]
fn safe_directory_values_use_the_spelling_git_compares_against() {
    assert_eq!(git_path_value("V:\\Code\\Project"), "V:/Code/Project");
}

#[test]
fn a_scan_report_is_offered_only_for_a_hashed_file() {
    let mut rows = pair(Some("ab12"), None);
    assert_eq!(rows[0].scan_url(), Some(format!("{VIRUSTOTAL_FILE_BASE}/ab12")));
    assert_eq!(rows.remove(1).scan_url(), None);
}

#[test]
fn only_widening_rows_are_named() {
    let report = TrustReport {
        guarantees: vec![],
        machine: vec![
            TrustRow::new("confirm", "Confirmation", "off".into(), Verdict::Widened),
            TrustRow::new("config", "Config", "here".into(), Verdict::Neutral),
            TrustRow::new("adapters", "Opt-in adapters", "gradle".into(), Verdict::Widened),
        ],
        binaries: vec![],
    };
    assert_eq!(report.widened(), vec!["Confirmation", "Opt-in adapters"]);
    assert_eq!(report.machine[1].verdict_key(), "neutral");
    assert_eq!(Verdict::Widened.mark(), "!");
    assert_eq!(Verdict::Guaranteed.key(), "guaranteed");
}

#[test]
fn opt_in_adapters_are_listed_in_a_stable_order() {
    let mut registry = Registry::default();
    registry.settings.enable_swift = true;
    registry.settings.enable_gradle = true;
    assert_eq!(opt_in_adapters(&registry), vec!["gradle", "swift"]);
    assert!(opt_in_adapters(&Registry::default()).is_empty());
}

fn report_for(registry: &Registry) -> TrustReport {
    build(
        registry,
        "Installed — prunes on its own".to_string(),
        "Installed — new repositories register themselves".to_string(),
        "/home/dev/.config/dev-prune/bin/dev-prune".to_string(),
    )
}

#[test]
fn the_default_machine_widens_nothing() {
    let registry = Registry::default();
    let report = report_for(&registry);
    assert!(
        report.widened().is_empty(),
        "a fresh install reports {:?} as widened",
        report.widened()
    );
}

#[test]
fn every_widening_setting_shows_up_by_name() {
    let mut registry = Registry::default();
    registry.settings.require_confirmation = false;
    registry.settings.allow_manifest_rewrite = true;
    registry.settings.enable_gradle = true;

    let report = report_for(&registry);
    let widened = report.widened();
    assert_eq!(widened.len(), 3, "got {widened:?}");
    assert!(widened.contains(&"Opt-in adapters"));
}

#[test]
fn build_never_hashes_anything() {
    assert!(report_for(&Registry::default()).binaries.is_empty());
}

#[test]
fn every_row_key_is_unique() {
    let report = report_for(&Registry::default());
    let mut keys: Vec<&str> = report
        .guarantees
        .iter()
        .chain(report.machine.iter())
        .map(|r| r.key)
        .collect();
    let total = keys.len();
    keys.sort_unstable();
    keys.dedup();
    assert_eq!(keys.len(), total);
}

#[test]
fn guarantees_never_depend_on_settings() {
    let mut registry = Registry::default();
    registry.settings.allow_manifest_rewrite = true;
    registry.settings.auto_update = true;
    let with = report_for(&registry);
    let without = report_for(&Registry::default());

    let states = |r: &TrustReport| -> Vec<String> {
        r.guarantees.iter().map(|g| g.state.clone()).collect()
    };
    assert_eq!(states(&with), states(&without));
}

#[test]
fn the_guarantees_are_ten_and_all_structural() {
    let rows = guarantees();
    assert_eq!(rows.len(), 10);
    assert!(rows.iter().all(|r| r.verdict == Verdict::Guaranteed));
    assert_eq!(rows[2].subject, "Symlinks and junctions");
    assert_eq!(rows[2].state, "Refused");
}

#[test]
fn the_machine_rows_read_back_the_settings() {
    let mut registry = Registry::default();
    registry.add_repo("/a", 0);
    registry.add_repo("/b", 0);
    registry.settings.build_idle_days = 10;
    registry.settings.idle_days = 20;
    let report = report_for(&registry);
    let row = |key: &str| report.machine.iter().find(|r| r.key == key).unwrap().state.clone();
    assert_eq!(row("network"), "Release check against GitHub, every 7 days");
    assert_eq!(
        row("auto_update"),
        "On (the default) — a newer release installs itself after a pass"
    );
    assert_eq!(row("repositories"), "2 — nothing outside them is ever read or written");
    assert_eq!(
        row("idle_window"),
        "20 days of no commits and no file changes (20 for build trees, before any per-adapter window)"
    );
    assert_eq!(row("scheduler"), "Installed — prunes on its own");
    assert_eq!(row("binary"), "/home/dev/.config/dev-prune/bin/dev-prune");

    registry.settings.update_check = false;
    registry.settings.version_lock = true;
    registry.settings.enable_cargo = true;
    registry.settings.enable_vcpkg = true;
    let report = report_for(&registry);
    let row = |key: &str| report.machine.iter().find(|r| r.key == key).unwrap();
    assert_eq!(row("network").state, "None — the release check is off");
    assert_eq!(
        row("auto_update").state,
        "Off — `version_lock` pins this copy to the version it is"
    );
    assert_eq!(row("auto_update").verdict, Verdict::Safe);
    assert_eq!(
        row("opt_in_adapters").state,
        "cargo, vcpkg — build trees are deletable too"
    );
}

#[test]
fn the_scheduler_row_says_what_runs_on_its_own() {
    assert_eq!(
        scheduler_state(Ok(DaemonStatus::Installed)),
        "Installed — prunes on its own"
    );
    assert_eq!(
        scheduler_state(Ok(DaemonStatus::NotInstalled)),
        "Not installed — nothing runs unless you run it"
    );
    assert_eq!(
        scheduler_state(Ok(DaemonStatus::Unknown("no systemd".to_string()))),
        "Unknown (no systemd)"
    );
    assert_eq!(scheduler_state(Err("denied".to_string())), "Unknown (denied)");
}

#[test]
fn the_closing_line_names_what_widens_and_counts_it() {
    assert_eq!(
        widened_summary(&vec![]),
        "Nothing on this machine widens what dev-prune may do without asking."
    );
    assert_eq!(
        widened_summary(&vec!["Lockfile rewriting"]),
        "1 setting widens what dev-prune may do without asking: Lockfile rewriting. Each was switched on deliberately; `devp config show` has them."
    );
    assert_eq!(
        widened_summary(&vec!["Confirmation before deleting", "Opt-in adapters"]),
        "2 settings widen what dev-prune may do without asking: Confirmation before deleting, Opt-in adapters. Each was switched on deliberately; `devp config show` has them."
    );
}

#[test]
fn the_check_is_on_unless_the_user_turns_it_off() {
    assert!(Registry::default().settings.update_check);
}

#[test]
fn a_disabled_check_touches_neither_the_network_nor_the_registry() {
    let mut registry = Registry::default();
    registry.settings.update_check = false;
    assert!(!release_check_due(&registry, 1_700_000_000));
    assert!(registry.last_update_check.is_none());
}

#[test]
fn auto_update_is_on_by_default_and_silent_with_nothing_to_install() {
    let registry = Registry::default();
    assert!(registry.settings.auto_update);
    assert!(registry.latest_known_version.is_none());
    assert!(matches!(auto_update_step(&registry, false, false), AutoUpdateStep::Stay));
}

#[test]
fn the_pin_is_off_until_somebody_asks_for_it() {
    assert!(!Registry::default().settings.version_lock);
}

#[test]
fn a_newer_release_installs_unless_pinned_offline_or_held_off() {
    let mut registry = Registry::default();
    registry.latest_known_version = Some("99.0.0".to_string());
    match auto_update_step(&registry, false, false) {
        AutoUpdateStep::Install(v) => assert_eq!(v, "99.0.0"),
        _ => panic!("a newer release should install"),
    }
    assert!(matches!(auto_update_step(&registry, true, false), AutoUpdateStep::Stay));
    assert!(matches!(auto_update_step(&registry, false, true), AutoUpdateStep::Stay));
    registry.settings.version_lock = true;
    match auto_update_step(&registry, false, false) {
        AutoUpdateStep::Locked(n) => assert_eq!(n, locked_notice(Some("99.0.0"))),
        _ => panic!("the pin should hold"),
    }
    registry.latest_known_version = Some(VERSION.to_string());
    assert!(matches!(auto_update_step(&registry, false, false), AutoUpdateStep::Stay));
}

#[test]
fn a_release_check_records_its_time_even_when_it_fails() {
    let mut registry = Registry::default();
    assert!(release_check_due(&registry, 1_000));
    record_release_check(&mut registry, 1_000, Err("offline".to_string()));
    assert_eq!(registry.last_update_check, Some(1_000));
    assert!(registry.latest_known_version.is_none());
    assert!(!release_check_due(&registry, 1_000 + 86_400));
    assert!(release_check_due(&registry, 1_000 + 7 * 86_400));
    record_release_check(&mut registry, 2_000, Ok("2.0.0".to_string()));
    assert_eq!(registry.latest_known_version.as_deref(), Some("2.0.0"));
    record_release_check(&mut registry, 3_000, Err("offline".to_string()));
    assert_eq!(registry.latest_known_version.as_deref(), Some("2.0.0"));
    assert_eq!(registry.last_update_check, Some(3_000));
}

fn stray(path: &str, channel: &str, owns: bool) -> StrayCopy {
    StrayCopy {
        path: path.to_string(),
        channel: channel.to_string(),
        owns_its_files: owns,
    }
}

#[test]
fn one_manager_is_told_once_however_many_of_its_files_turned_up() {
    let groups = group_by_channel(vec![
        stray("/home/u/.cargo/bin/dev-prune", "cargo", true),
        stray("/usr/local/bin/devp", "unmanaged", false),
        stray("/home/u/.cargo/bin/devp", "cargo", true),
    ]);
    assert_eq!(groups.len(), 2);
    assert_eq!(groups[0].0, "cargo");
    assert_eq!(
        groups[0].1,
        vec!["/home/u/.cargo/bin/dev-prune".to_string(), "/home/u/.cargo/bin/devp".to_string()]
    );
    assert_eq!(groups[1].0, "unmanaged");
    assert_eq!(groups[1].1, vec!["/usr/local/bin/devp".to_string()]);
    assert!(group_by_channel(vec![]).is_empty());
}

#[test]
fn each_channel_gets_the_plan_its_ownership_allows() {
    assert_eq!(stray_plan(false, true, false, false, false), StrayPlan::DeleteFiles);
    assert_eq!(stray_plan(false, false, true, true, true), StrayPlan::LeaveForeign);
    assert_eq!(stray_plan(true, false, false, false, false), StrayPlan::ManagerMissing);
    assert_eq!(stray_plan(true, false, true, true, true), StrayPlan::Schedule);
    assert_eq!(stray_plan(true, false, true, false, true), StrayPlan::RunManager);
    assert_eq!(stray_plan(true, false, true, true, false), StrayPlan::RunManager);
}

#[test]
fn a_copy_already_queued_for_the_helper_is_not_listed_again() {
    let left = drop_pending(
        vec![
            stray("C:\\Tools\\devp.exe", "unmanaged", false),
            stray("C:\\Other\\devp.exe", "unmanaged", false),
        ],
        &vec!["c:/tools/DEVP.EXE".to_string()],
        true,
    );
    assert_eq!(left.len(), 1);
    assert_eq!(left[0].path, "C:\\Other\\devp.exe");
    let kept = drop_pending(vec![stray("/a/devp", "x", false)], &vec!["/A/devp".to_string()], false);
    assert_eq!(kept.len(), 1);
}

#[test]
fn manager_reminders_are_kept_once_each_and_dropped_when_done() {
    let mut hints: Vec<String> = vec!["scoop".to_string()];
    note_manager_hints(
        &mut hints,
        &vec![
            stray("/x/devp", "cargo", true),
            stray("/y/devp", "unmanaged", false),
            stray("/x/dev-prune", "cargo", true),
            stray("/z/devp", "scoop", true),
        ],
    );
    assert_eq!(hints, vec!["scoop".to_string(), "cargo".to_string()]);
    add_manager_hint(&mut hints, "cargo".to_string());
    add_manager_hint(&mut hints, "npm".to_string());
    assert_eq!(hints, vec!["scoop".to_string(), "cargo".to_string(), "npm".to_string()]);
    forget_manager_hint(&mut hints, "cargo");
    assert_eq!(hints, vec!["scoop".to_string(), "npm".to_string()]);
}

#[test]
fn the_binaries_removed_are_the_managed_pair_and_the_pair_beside_the_running_one() {
    let c = binary_candidates(
        Some("/home/u/.config/dev-prune/bin"),
        Some(("/usr/local/bin/devp", "/usr/local/bin")),
        false,
        false,
    );
    assert!(!c.dev_build);
    assert_eq!(
        c.paths,
        vec![
            "/home/u/.config/dev-prune/bin/dev-prune".to_string(),
            "/home/u/.config/dev-prune/bin/devp".to_string(),
            "/usr/local/bin/dev-prune".to_string(),
            "/usr/local/bin/devp".to_string(),
        ]
    );
    let same_dir = binary_candidates(
        Some("/home/u/.config/dev-prune/bin"),
        Some(("/home/u/.config/dev-prune/bin/devp", "/home/u/.config/dev-prune/bin")),
        false,
        false,
    );
    assert_eq!(same_dir.paths.len(), 2);
    let dev = binary_candidates(None, Some(("/src/target/debug/dev-prune", "/src/target/debug")), false, false);
    assert!(dev.dev_build);
    assert!(dev.paths.is_empty());
    let owned = binary_candidates(None, Some(("/opt/homebrew/bin/devp", "/opt/homebrew/bin")), true, false);
    assert!(owned.paths.is_empty());
    let win = binary_candidates(Some("C:\\dp\\bin"), None, false, true);
    assert_eq!(
        win.paths,
        vec![
            "C:\\dp\\bin\\dev-prune.exe".to_string(),
            "C:\\dp\\bin\\devp.exe".to_string(),
            "C:\\dp\\bin\\devpw.exe".to_string(),
        ]
    );
    assert!(bin_dir_goes_to_helper(false, true, true, 1));
    assert!(!bin_dir_goes_to_helper(true, true, true, 1));
    assert!(!bin_dir_goes_to_helper(false, true, true, 0));
}

#[test]
fn the_uninstall_messages_count_and_name_what_they_mean() {
    assert_eq!(
        found_strays_line(1),
        "Found 1 more copy of dev-prune, from other install channels:"
    );
    assert_eq!(
        found_strays_line(3),
        "Found 3 more copies of dev-prune, from other install channels:"
    );
    assert_eq!(removed_strays_line(1), "Removed 1 stray copy.");
    assert_eq!(removed_strays_line(2), "Removed 2 stray copies.");
    assert_eq!(
        foreign_line("conda", 2),
        "conda installed 2 of the copies above, and dev-prune does not know conda's uninstall command. Left in place: deleting the file would leave conda listing a binary that is gone."
    );
    assert_eq!(
        unfinished_line("WinGet", "winget uninstall dev-prune"),
        "WinGet still lists dev-prune as installed — finish with `winget uninstall dev-prune` to clear its records."
    );
    assert!(completion_line(true).starts_with("Deep uninstall complete"));
    assert!(completion_line(false).starts_with("Uninstall complete"));
    assert_eq!(left_behind_message(&vec![]), None);
    assert_eq!(
        left_behind_message(&vec!["the binaries".to_string(), "the PATH entry".to_string()]),
        Some("Uninstall finished, but the binaries and the PATH entry is still installed.".to_string())
    );
    assert_eq!(
        deep_warning(4),
        "This deletes the global config directory (including prune history) and removes `.devprune.json` from 4 registered repositories."
    );
}

#[test]
fn the_sweep_looks_for_the_file_an_update_renames_aside() {
    let names = sweep_names(true);
    assert!(names.contains(&"devp.exe.old".to_string()), "{names:?}");
    assert!(names.contains(&"dev-prune.exe.old".to_string()), "{names:?}");
}

#[test]
fn elsewhere_the_sweep_is_the_stems_and_their_staging_names() {
    assert_eq!(
        sweep_names(false),
        ["dev-prune", "dev-prune.new", "devp", "devp.new", "devpw", "devpw.new"]
    );
}

#[test]
fn the_name_a_locked_binary_is_renamed_to_is_one_the_sweep_looks_for() {
    let aside = aside_name(r"C:\bin\devp.exe");
    assert_eq!(aside, r"C:\bin\devp.exe.old");
    assert!(aside.ends_with("\\devp.exe.old"));
    assert!(sweep_names(true).contains(&"devp.exe.old".to_string()));
    assert_eq!(aside_name(r"C:\bin\devp"), r"C:\bin\devp.old");
}

#[test]
fn paths_compare_once_however_they_are_spelt() {
    assert_eq!(canon_key("C:\\X\\Bin\\", true), canon_key("c:/x/bin", true));
    assert_eq!(canon_key("/usr/local/bin/", false), "/usr/local/bin");
    assert_ne!(canon_key("/A", false), canon_key("/a", false));
}

#[test]
fn binaries_are_named_for_their_platform() {
    assert_eq!(exe_name("devp", true), "devp.exe");
    assert_eq!(exe_name("devp", false), "devp");
    assert!(is_in_use_error(Some(5)));
    assert!(is_in_use_error(Some(32)));
    assert!(!is_in_use_error(Some(2)));
    assert!(!is_in_use_error(None));
    assert!(is_dev_build("C:\\src\\dev-prune\\target\\debug\\devp.exe"));
    assert!(!is_dev_build("/usr/local/bin/devp"));
    assert!(reinstall_hint(true).starts_with("iwr -useb "));
    assert!(reinstall_hint(false).ends_with(" | sh"));
}

#[test]
fn orders_by_component_not_lexically() {
    assert_eq!(compare_versions("1.9.0", "1.10.0"), Some(Ordering::Less));
    assert_eq!(compare_versions("1.0.0", "1.0.0"), Some(Ordering::Equal));
    assert_eq!(compare_versions("2.0.0", "1.99.99"), Some(Ordering::Greater));
}

#[test]
fn pre_release_suffixes_compare_by_their_core() {
    assert_eq!(compare_versions("1.0.0", "1.0.0-rc.1"), Some(Ordering::Equal));
    assert_eq!(compare_versions("1.0.0+build7", "1.0.1"), Some(Ordering::Less));
}

#[test]
fn unparseable_versions_report_no_answer_rather_than_a_wrong_one() {
    assert_eq!(compare_versions("1.0", "1.0.0"), None);
    assert_eq!(compare_versions("1.0.0.1", "1.0.0"), None);
    assert_eq!(compare_versions("nightly", "1.0.0"), None);
}

#[test]
fn the_refusal_names_the_version_it_is_holding_and_the_way_out() {
    let notice = locked_notice(None);
    assert!(notice.contains(VERSION), "{notice}");
    assert!(notice.contains("devp config set version_lock false"), "{notice}");
    assert!(!notice.contains("is out"), "{notice}");
}

#[test]
fn a_known_release_is_named_in_the_refusal_that_withholds_it() {
    let notice = locked_notice(Some("2.0.0"));
    assert!(notice.contains("v2.0.0 is out"), "{notice}");
    assert!(notice.contains(VERSION), "{notice}");
}

#[test]
fn a_reminder_is_printed_only_for_a_newer_release() {
    assert_eq!(outdated_notice(Some("1.16.0"), false), None);
    assert_eq!(outdated_notice(None, false), None);
    let reminder = outdated_notice(Some("99.0.0"), false).unwrap();
    assert!(reminder.starts_with("dev-prune v99.0.0 is out (you have v"), "{reminder}");
    assert_eq!(outdated_notice(Some("99.0.0"), true), Some(locked_notice(Some("99.0.0"))));
}

#[test]
fn a_recent_check_is_not_repeated() {
    let day = 86_400;
    assert!(is_check_due(None, 0, 7));
    assert!(!is_check_due(Some(0), 6 * day, 7));
    assert!(is_check_due(Some(0), 7 * day, 7));
    assert!(!is_check_due(Some(0), 7 * day - 1, 7));
}

#[test]
fn the_asset_name_matches_what_the_release_workflow_builds() {
    assert_eq!(
        release_asset_name("1.4.0", "windows", "x86_64").as_deref(),
        Some("dev-prune-v1.4.0-windows-x64.exe")
    );
    assert_eq!(
        release_asset_name("1.4.0", "windows", "x86").as_deref(),
        Some("dev-prune-v1.4.0-windows-x86.exe")
    );
    assert_eq!(release_asset_name("1.4.0", "linux", "aarch64").as_deref(), Some("dev-prune-v1.4.0-linux-arm64"));
    assert_eq!(release_asset_name("1.4.0", "macos", "x86_64").as_deref(), Some("dev-prune-v1.4.0-darwin-x64"));
    assert_eq!(release_asset_name("1.4.0", "linux", "x86"), None);
    assert_eq!(release_asset_name("1.4.0", "freebsd", "x86_64"), None);
}

#[test]
fn a_sidecar_is_read_as_the_first_field_of_sha256sum_format() {
    let digest = "a".repeat(64);
    assert_eq!(
        parse_sha256_sidecar(&format!("{digest}  dev-prune-v1.4.0-linux-x64\n")).unwrap(),
        digest
    );
    assert_eq!(parse_sha256_sidecar(&format!("{digest}  asset.exe")).unwrap(), digest);
    assert_eq!(
        parse_sha256_sidecar(&format!("{}  asset\r\n", digest.to_uppercase())).unwrap(),
        digest,
        "an upper-case digest must compare equal to the one we compute"
    );
}

#[test]
fn anything_that_is_not_a_digest_is_refused_before_it_is_compared() {
    for bad in [
        "",
        "   ",
        "<!DOCTYPE html>",
        "not-a-hash  asset",
        &"a".repeat(63),
        &"a".repeat(65),
        &format!("{}g  asset", "a".repeat(63)),
    ] {
        assert!(parse_sha256_sidecar(bad).is_err(), "{bad:?} must not be accepted as a digest");
    }
}

#[test]
fn the_digest_of_a_download_is_the_published_sha256() {
    let empty = "e3b0c44298fc1c149afbf4c8996fb92427ae41e4649b934ca495991b7852b855";
    assert_eq!(sha256_hex(b""), empty);
    assert_eq!(
        sha256_hex(b"abc"),
        "ba7816bf8f01cfea414140de5dae2223b00361a396177a9cb410ff61f20015ad"
    );
    assert_eq!(check_download(b"", empty, "asset"), Ok(()));
    let refused = check_download(b"tampered", empty, "asset").unwrap_err();
    assert!(refused.starts_with("checksum mismatch for asset\n  expected e3b0"), "{refused}");
    assert!(refused.ends_with("nothing was installed."), "{refused}");
}

#[test]
fn the_latest_release_is_the_tag_without_its_v() {
    assert_eq!(latest_release_version(r#"{"tag_name":"v1.18.0"}"#), Ok(String::from("1.18.0")));
    assert_eq!(
        latest_release_version(r#"{"name":"x"}"#),
        Err(String::from("the response carried no tag_name"))
    );
    assert_eq!(latest_release_version("<html>"), Err(String::from("the response was not JSON")));
    assert_eq!(version_from_tag(Some(Some("vv2.0.0"))), Ok(String::from("2.0.0")));
}

#[test]
fn an_update_reaches_the_twin_beside_the_copy_the_user_typed() {
    let primary = "/m/dev-prune";
    let exe = "/cargo/devp";
    let files = vec![exe.to_string(), "/cargo/dev-prune".to_string()];
    let also = companion_copies(primary, Some("/m"), true, exe, Some("/cargo"), true, &files, false);
    assert!(also.contains(&"/m/devp".to_string()));
    assert!(also.contains(&exe.to_string()));
    assert!(also.contains(&"/cargo/dev-prune".to_string()));
    assert!(!also.contains(&primary.to_string()));
}

#[test]
fn a_name_that_does_not_exist_outside_the_managed_directory_is_not_invented() {
    let files = vec!["/solo/devp".to_string()];
    let also = companion_copies("/m/dev-prune", Some("/m"), true, "/solo/devp", Some("/solo"), true, &files, false);
    assert!(also.contains(&"/m/devp".to_string()));
    assert!(also.contains(&"/solo/devp".to_string()));
    assert!(!also.contains(&"/solo/dev-prune".to_string()));
}

#[test]
fn a_manager_owned_directory_is_left_exactly_as_the_manager_wrote_it() {
    let files = vec!["/store/devp".to_string(), "/store/dev-prune".to_string()];
    let also = companion_copies("/m/dev-prune", Some("/m"), true, "/store/devp", Some("/store"), false, &files, false);
    assert_eq!(also, vec!["/m/devp".to_string()]);
}

#[test]
fn without_a_managed_copy_only_existing_files_beside_the_binary_are_replaced() {
    let primary = "/d/devp";
    assert!(companion_copies(primary, Some("/d"), false, primary, Some("/d"), false, &vec![primary.to_string()], false).is_empty());
    let files = vec![primary.to_string(), "/d/dev-prune".to_string()];
    assert_eq!(
        companion_copies(primary, Some("/d"), false, primary, Some("/d"), false, &files, false),
        vec!["/d/dev-prune".to_string()]
    );
}

#[test]
fn an_install_refuses_under_the_pin_and_offline_before_the_network() {
    let mut registry = Registry::default();
    assert_eq!(install_gate(&registry, false), Ok(()));
    assert_eq!(
        install_gate(&registry, true),
        Err("DEV_PRUNE_OFFLINE is set — an install needs the network by definition.".to_string())
    );
    registry.settings.version_lock = true;
    assert_eq!(install_gate(&registry, true), Err(locked_notice(None)));
    match install_step("99.0.0") {
        InstallStep::Upgrade(m) => assert_eq!(m, format!("Upgrading v{VERSION} -> v99.0.0 …")),
        _ => panic!("a newer release is installed"),
    }
    match install_step(VERSION) {
        InstallStep::UpToDate(m) => {
            assert_eq!(m, format!("v{VERSION} is already the latest release — nothing to install."))
        },
        _ => panic!("the same release is not reinstalled"),
    }
    assert!(matches!(install_step("garbage"), InstallStep::UpToDate(_)));
}

#[test]
fn the_ownership_fix_adds_each_value_once_in_gits_spelling() {
    assert!(is_dubious_ownership(b"fatal: detected dubious ownership in repository at 'V:/Code/x'"));
    assert!(is_dubious_ownership(b"FATAL: DETECTED DUBIOUS OWNERSHIP"));
    assert!(!is_dubious_ownership(b"fatal: not a git repository"));
    let existing = safe_directories(Some(b"V:/Code/a\n  \n /home/dev/b \r\n"));
    assert_eq!(existing, vec!["V:/Code/a".to_string(), "/home/dev/b".to_string()]);
    assert!(safe_directories(None).is_empty());
    let add = safe_directory_additions(
        &vec!["V:\\Code\\a".to_string(), "V:\\Code\\c".to_string(), "/home/dev/b".to_string()],
        &existing,
    );
    assert_eq!(add, vec!["V:/Code/c".to_string()]);
    assert_eq!(refused_heading(1), "1 repository Git will not read");
    assert_eq!(refused_heading(2), "2 repositories Git will not read");
    assert!(fix_explanation(1).starts_with("This adds this path to git's global `safe.directory` list, which tells Git to open it despite"));
    assert!(fix_explanation(3).starts_with("This adds these paths to git's global `safe.directory` list, which tells Git to open them despite"));
    assert_eq!(fix_done(1), "Added 1 entry. Run `devp run --dry-run` to see what is now examinable.");
    assert_eq!(fix_done(0), "Added 0 entries. Run `devp run --dry-run` to see what is now examinable.");
}

#[test]
fn the_latest_release_is_reported_against_this_build_in_all_four_standings() {
    assert_eq!(
        release_comparison("99.0.0"),
        (Standing::Behind, String::from("Latest release:    v99.0.0 — an upgrade is available."))
    );
    assert_eq!(
        release_comparison(VERSION),
        (Standing::Current, format!("Latest release:    v{VERSION} — you are up to date."))
    );
    assert_eq!(
        release_comparison("0.0.1"),
        (
            Standing::Ahead,
            String::from("Latest release:    v0.0.1 — your build is newer than the last published one.")
        )
    );
    assert_eq!(
        release_comparison("next"),
        (
            Standing::Incomparable,
            format!("Latest release:    vnext (could not compare it to v{VERSION}).")
        )
    );
}

#[test]
fn a_left_over_path_is_quoted_so_it_pastes_verbatim() {
    assert_eq!(
        manual_removal_command(r"C:\Users\o'neil\100%\devp.exe"),
        r"Remove-Item -LiteralPath 'C:\Users\o''neil\100%\devp.exe' -Recurse -Force"
    );
    assert!(manual_removal_heading(2).starts_with("2 item(s) were open in this process"));
}

#[test]
fn each_directory_is_swept_once_and_never_the_managed_one() {
    let dirs = vec![
        r"C:\Tools\Bin".to_string(),
        r"C:\Users\me\.dev-prune\bin".to_string(),
        r"c:\tools\bin\".to_string(),
        r"C:\Other".to_string(),
    ];
    assert_eq!(
        dirs_to_sweep(&dirs, Some(r"C:\Users\me\.dev-prune\bin"), true),
        vec![r"C:\Tools\Bin".to_string(), r"C:\Other".to_string()]
    );
    let unix = vec!["/usr/bin".to_string(), "/usr/bin/".to_string(), "/USR/bin".to_string()];
    assert_eq!(
        dirs_to_sweep(&unix, None, false),
        vec!["/usr/bin".to_string(), "/USR/bin".to_string()]
    );
}
