use dev_prune_core::daemon::linux::{
    classify_is_active, generate_service_unit, generate_timer_unit, parse_exec_start,
    NO_SYSTEMD_HELP,
};
use dev_prune_core::daemon::macos::{generate_plist_content, parse_program_path};
use dev_prune_core::daemon::windows::{
    build_install_command, build_install_command_windowless, classify_query, current_account,
    decode_schtasks_xml, is_refusal_marker_name, parse_is_interactive, parse_registered_command,
    registered_exe_path, status, wants_windowless_upgrade, windowless_twin_path, REFUSED_MARKER,
};
use dev_prune_core::daemon::{self, install_daemon, scheduler_for, DaemonStatus, Scheduler};

#[test]
fn test_generate_service_unit() {
    let content = generate_service_unit("/usr/bin/dev-prune");
    assert!(content.contains("ExecStart=\"/usr/bin/dev-prune\" run --yes --daemon"));
}

#[test]
fn test_generate_service_unit_quotes_spaced_path() {
    let content = generate_service_unit("/home/a b/dev-prune");
    assert!(content.contains("ExecStart=\"/home/a b/dev-prune\" run --yes --daemon"));
}

#[test]
fn test_generate_timer_unit() {
    let content = generate_timer_unit(2);
    assert!(content.contains("OnUnitActiveSec=2d"));
    assert!(!content.contains("OnCalendar"));
}

#[test]
fn test_generate_timer_unit_honours_interval() {
    assert!(generate_timer_unit(7).contains("OnUnitActiveSec=7d"));
    assert!(generate_timer_unit(0).contains("OnUnitActiveSec=1d"));
}

#[test]
fn a_running_timer_is_installed() {
    assert!(matches!(classify_is_active("active\n", ""), DaemonStatus::Installed));
}

#[test]
fn a_stopped_or_dead_timer_reads_as_absent_so_setup_can_replace_it() {
    for answer in ["inactive\n", "failed\n", "unknown\n"] {
        assert!(
            matches!(classify_is_active(answer, ""), DaemonStatus::NotInstalled),
            "{answer:?} should be replaceable"
        );
    }
}

#[test]
fn a_session_without_a_user_bus_explains_itself() {
    let status = classify_is_active("", "Failed to connect to bus: No such file or directory");
    match status {
        DaemonStatus::Unknown(why) => assert!(why.contains("Failed to connect to bus")),
        other => panic!("expected Unknown, got {}", other.text()),
    }
}

#[test]
fn a_wordless_failure_falls_back_to_the_help_text() {
    match classify_is_active("", "") {
        DaemonStatus::Unknown(why) => assert_eq!(why, NO_SYSTEMD_HELP),
        other => panic!("expected Unknown, got {}", other.text()),
    }
}

#[test]
fn linux_the_registered_binary_is_read_back_out_of_what_we_wrote() {
    let unit = generate_service_unit("/usr/bin/dev-prune");
    assert_eq!(parse_exec_start(&unit), Some(String::from("/usr/bin/dev-prune")));
}

#[test]
fn a_quoted_path_with_spaces_is_not_truncated() {
    let unit = generate_service_unit("/home/a b/dev-prune");
    assert_eq!(parse_exec_start(&unit), Some(String::from("/home/a b/dev-prune")));
}

#[test]
fn an_unquoted_hand_edited_unit_is_still_readable() {
    let unit = "[Service]\nExecStart=/usr/bin/dev-prune run --yes\n";
    assert_eq!(parse_exec_start(unit), Some(String::from("/usr/bin/dev-prune")));
}

#[test]
fn a_unit_without_an_exec_start_answers_nothing() {
    assert!(parse_exec_start("[Unit]\nDescription=x\n").is_none());
    assert!(parse_exec_start("ExecStart=\n").is_none());
}

#[test]
fn the_help_text_names_an_alternative_the_user_can_act_on() {
    assert!(NO_SYSTEMD_HELP.contains("cron"));
    assert!(NO_SYSTEMD_HELP.contains("devp run"));
}

#[test]
fn test_generate_plist_content() {
    let content = generate_plist_content("/usr/local/bin/dev-prune", 2);
    assert!(content.contains("<string>com.devprune.daemon</string>"));
    assert!(content.contains("<string>/usr/local/bin/dev-prune</string>"));
    assert!(content.contains("<string>run</string>"));
    assert!(content.contains("<string>--yes</string>"));
    assert!(content.contains("<string>--daemon</string>"));
    assert!(content.contains("<integer>172800</integer>"));
}

#[test]
fn test_generate_plist_honours_interval() {
    assert!(generate_plist_content("/x", 7).contains("<integer>604800</integer>"));
    assert!(generate_plist_content("/x", 0).contains("<integer>86400</integer>"));
}

#[test]
fn test_generate_plist_escapes_xml() {
    let content = generate_plist_content("/home/a&b/dev-prune", 2);
    assert!(content.contains("<string>/home/a&amp;b/dev-prune</string>"));
}

#[test]
fn macos_the_registered_binary_is_read_back_out_of_what_we_wrote() {
    let plist = generate_plist_content("/usr/local/bin/dev-prune", 2);
    assert_eq!(parse_program_path(&plist), Some(String::from("/usr/local/bin/dev-prune")));
}

#[test]
fn the_label_is_not_mistaken_for_the_program() {
    let path = parse_program_path(&generate_plist_content("/x/dev-prune", 2)).unwrap();
    assert_eq!(path, "/x/dev-prune");
}

#[test]
fn an_escaped_path_round_trips() {
    let plist = generate_plist_content("/home/a&b/dev-prune", 2);
    assert_eq!(parse_program_path(&plist), Some(String::from("/home/a&b/dev-prune")));
}

#[test]
fn a_plist_that_is_not_ours_answers_nothing() {
    assert!(parse_program_path("<plist><dict /></plist>").is_none());
}

#[test]
fn an_interval_that_would_overflow_saturates() {
    assert!(generate_plist_content("/x", u64::MAX).contains("<integer>18446744073709551615</integer>"));
}

#[test]
fn every_xml_entity_survives_the_round_trip() {
    let path = "/a<b>\"c\"&'d'/dev-prune";
    let plist = generate_plist_content(path, 1);
    assert!(plist.contains("&lt;b&gt;&quot;c&quot;&amp;&apos;d&apos;"));
    assert_eq!(parse_program_path(&plist), Some(String::from(path)));
}

#[test]
fn a_path_of_entities_and_inner_spaces_reads_back_from_both_files() {
    let path = "/&amp; x\t<y>/dev prune";
    assert_eq!(parse_exec_start(&generate_service_unit(path)), Some(String::from(path)));
    assert_eq!(parse_program_path(&generate_plist_content(path, 0)), Some(String::from(path)));
}

#[test]
fn unescaping_undoes_escaping_even_of_entity_text() {
    let text: Vec<char> = "&lt;&amp;&&&apos;<>'\"".chars().collect();
    let escaped = daemon::xml_escape(&text);
    assert_eq!(daemon::xml_unescape(&escaped), text);
}

#[test]
fn test_daemon_status_display() {
    assert_eq!(DaemonStatus::Installed.text(), "Installed");
    assert_eq!(DaemonStatus::NotInstalled.text(), "Not Installed");
    assert_eq!(DaemonStatus::Unknown("error".into()).text(), "Unknown: error");
}

#[test]
fn each_platform_has_its_own_scheduler_and_the_rest_none() {
    assert_eq!(scheduler_for("windows"), Some(Scheduler::TaskScheduler));
    assert_eq!(scheduler_for("macos"), Some(Scheduler::LaunchAgent));
    assert_eq!(scheduler_for("linux"), Some(Scheduler::SystemdTimer));
    assert_eq!(scheduler_for("freebsd"), None);
}

#[test]
fn installing_never_registers_an_interval_under_a_day() {
    assert_eq!(install_daemon(0, "linux"), Ok((Scheduler::SystemdTimer, 1)));
    assert_eq!(install_daemon(9, "macos"), Ok((Scheduler::LaunchAgent, 9)));
    assert_eq!(
        install_daemon(3, "haiku"),
        Err(String::from("Unsupported operating system for daemon installation"))
    );
}

#[test]
fn test_build_install_command() {
    let cmd = build_install_command("C:\\test\\dev-prune.exe", 2);
    assert_eq!(
        cmd,
        vec![
            "/Create",
            "/SC",
            "DAILY",
            "/MO",
            "2",
            "/TN",
            "DevPrune",
            "/TR",
            "\"C:\\test\\dev-prune.exe\" run --yes --daemon",
            "/F"
        ]
    );
}

#[test]
fn test_build_install_command_honours_interval() {
    let cmd = build_install_command("dev-prune.exe", 7);
    assert_eq!(cmd[4], "7");
}

#[test]
fn the_windowless_command_adds_the_password_less_run_as_and_nothing_else() {
    let visible = build_install_command("dev-prune.exe", 2);
    let windowless = build_install_command_windowless("dev-prune.exe", 2, "PC\\krish");
    assert_eq!(windowless[..visible.len()], visible[..]);
    assert_eq!(windowless[visible.len()..], ["/RU", "PC\\krish", "/NP"]);
}

#[test]
fn the_interactive_logon_is_recognised_and_the_s4u_one_is_not() {
    assert_eq!(parse_is_interactive("<LogonType>InteractiveToken</LogonType>"), Some(true));
    assert_eq!(parse_is_interactive("<LogonType>S4U</LogonType>"), Some(false));
    assert_eq!(parse_is_interactive("<Task></Task>"), None);
}

#[test]
fn an_interval_schtasks_would_reject_is_clamped_into_range() {
    assert_eq!(build_install_command("dev-prune.exe", 0)[4], "1");
    assert_eq!(build_install_command("dev-prune.exe", 400)[4], "365");
}

fn row(name: &str) -> String {
    format!("\"{name}\",\"14/02/2026 09:00:00\",\"Ready\"\n")
}

#[test]
fn the_task_is_found_by_name_in_the_listing() {
    let listing = format!("{}{}", row("\\SomeOtherTask"), row("\\DevPrune"));
    assert!(matches!(classify_query(true, &listing, ""), DaemonStatus::Installed));
}

#[test]
fn an_absent_task_reads_as_not_installed_not_unknown() {
    let listing = row("\\SomeOtherTask");
    assert!(matches!(classify_query(true, &listing, ""), DaemonStatus::NotInstalled));
}

#[test]
fn a_localised_scheduler_still_answers_correctly() {
    let listing = "\"\\DevPrune\",\"14.02.2026 09:00:00\",\"Bereit\"\n";
    assert!(matches!(classify_query(true, listing, ""), DaemonStatus::Installed));
}

#[test]
fn a_similarly_named_task_is_not_mistaken_for_ours() {
    let listing = format!("{}{}", row("\\DevPruneOld"), row("\\Foo\\DevPrune"));
    assert!(matches!(classify_query(true, &listing, ""), DaemonStatus::NotInstalled));
}

#[test]
fn a_failed_query_is_unknown_rather_than_absent() {
    let status = classify_query(false, "", "ERROR: Access is denied.");
    match status {
        DaemonStatus::Unknown(why) => assert!(why.contains("Access is denied")),
        other => panic!("expected Unknown, got {}", other.text()),
    }
}

#[test]
fn a_silent_failure_still_explains_itself() {
    match classify_query(false, "", "   ") {
        DaemonStatus::Unknown(why) => assert!(!why.is_empty()),
        other => panic!("expected Unknown, got {}", other.text()),
    }
}

#[test]
fn the_task_name_matches_without_regard_to_case() {
    assert!(matches!(status(true, &row("\\devprune"), ""), DaemonStatus::Installed));
}

const TASK_XML: &str = r#"<?xml version="1.0" encoding="UTF-16"?>
<Task version="1.2" xmlns="http://schemas.microsoft.com/windows/2004/02/mit/task">
  <Actions Context="Author">
    <Exec>
      <Command>"C:\Users\a\AppData\Roaming\dev-prune\bin\dev-prune.exe"</Command>
      <Arguments>run --yes --daemon</Arguments>
    </Exec>
  </Actions>
</Task>"#;

#[test]
fn the_registered_binary_is_read_out_of_the_task_definition() {
    assert_eq!(
        parse_registered_command(TASK_XML),
        Some(String::from("C:\\Users\\a\\AppData\\Roaming\\dev-prune\\bin\\dev-prune.exe"))
    );
}

#[test]
fn the_arguments_are_not_mistaken_for_part_of_the_path() {
    let path = parse_registered_command(TASK_XML).unwrap();
    assert!(!path.contains("--daemon"));
}

#[test]
fn an_escaped_ampersand_in_the_path_survives() {
    let xml = "<Command>\"C:\\a &amp; b\\dev-prune.exe\"</Command>";
    assert_eq!(parse_registered_command(xml), Some(String::from("C:\\a & b\\dev-prune.exe")));
}

#[test]
fn a_document_without_an_exec_action_answers_nothing() {
    assert!(parse_registered_command("<Task><Actions /></Task>").is_none());
    assert!(parse_registered_command("<Command></Command>").is_none());
}

#[test]
fn utf16_output_is_decoded_rather_than_read_as_nul_separated_bytes() {
    let mut bytes = vec![0xFF, 0xFE];
    for unit in "<Command>\"C:\\x.exe\"</Command>".encode_utf16() {
        bytes.extend_from_slice(&unit.to_le_bytes());
    }
    let decoded = decode_schtasks_xml(&bytes);
    assert!(!decoded.contains('\0'));
    assert_eq!(parse_registered_command(&decoded), Some(String::from("C:\\x.exe")));
}

#[test]
fn output_without_a_bom_is_still_readable() {
    assert_eq!(decode_schtasks_xml(b"<Command>x</Command>"), "<Command>x</Command>");
}

#[test]
fn an_odd_trailing_byte_after_the_mark_is_dropped() {
    assert_eq!(decode_schtasks_xml(&[0xFF, 0xFE, b'x', 0, b'y']), "x");
}

#[test]
fn the_twin_lives_beside_the_managed_binary_under_the_reserved_name() {
    let twin = windowless_twin_path(r"C:\cfg\bin\dev-prune.exe");
    assert_eq!(twin, r"C:\cfg\bin\devpw.exe");
}

#[test]
fn the_upgrade_predicate_stops_once_the_task_names_the_twin() {
    let xml = "<Command>\"C:\\cfg\\bin\\devpw.exe\"</Command>";
    let registered = parse_registered_command(xml).unwrap();
    assert!(registered.to_ascii_lowercase().ends_with("\\devpw.exe"));
    let with_logon = format!("{xml}<LogonType>InteractiveToken</LogonType>");
    assert!(!wants_windowless_upgrade(Some(&with_logon), false));
}

#[test]
fn an_interactive_console_task_is_upgraded_unless_the_machine_refused() {
    let xml = "<Command>\"C:\\cfg\\bin\\dev-prune.exe\"</Command><LogonType>InteractiveToken</LogonType>";
    assert!(wants_windowless_upgrade(Some(xml), false));
    assert!(!wants_windowless_upgrade(Some(xml), true));
    assert!(!wants_windowless_upgrade(None, false));
    assert!(daemon::wants_windowless_upgrade("windows", Some(xml), false));
    assert!(!daemon::wants_windowless_upgrade("linux", Some(xml), false));
}

#[test]
fn the_account_carries_its_domain_when_there_is_one() {
    assert_eq!(current_account(Some("krish"), Some("PC")), Some(String::from("PC\\krish")));
    assert_eq!(current_account(Some("krish"), Some("")), Some(String::from("krish")));
    assert_eq!(current_account(Some(""), Some("PC")), None);
    assert_eq!(current_account(None, None), None);
}

#[test]
fn every_spelling_of_the_refusal_marker_is_recognised() {
    assert!(is_refusal_marker_name(REFUSED_MARKER));
    assert!(is_refusal_marker_name("scheduler-hidden-refused"));
    assert!(!is_refusal_marker_name("repos.json"));
}

#[test]
fn no_readable_definition_has_no_registered_binary() {
    assert_eq!(registered_exe_path(None), None);
    assert_eq!(registered_exe_path(Some(TASK_XML)).map(|p| p.ends_with("dev-prune.exe")), Some(true));
}
