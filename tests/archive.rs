use unimozer_next::archive::{
    archive_root_name_from_path, build_archive_backup_path, build_archive_temp_path,
    is_stale_workspace_session, packed_workspace_name, parse_session_start_ms,
    remap_archive_entry_name, sanitize_project_name, should_skip_packed_relative, stable_hash,
    WorkspaceSessionState, WORKSPACE_SESSION_RETENTION_HOURS,
};
use unimozer_next::platform::HostOs;

#[test]
fn sanitize_project_name_normalizes_invalid_chars() {
    assert_eq!(sanitize_project_name("My Project"), "My_Project");
    assert_eq!(sanitize_project_name("A-B_C"), "A-B_C");
    assert_eq!(sanitize_project_name("   "), "project");
}

#[test]
fn remap_archive_entry_name_uses_archive_root_name() {
    let relative = "UnsavedProject/src/Main.java";
    assert_eq!(
        remap_archive_entry_name(relative, "NumberPuzzle"),
        "NumberPuzzle/src/Main.java"
    );
    assert_eq!(
        remap_archive_entry_name("UnsavedProject", "NumberPuzzle"),
        "NumberPuzzle"
    );
}

#[test]
fn should_skip_packed_relative_skips_build_artifacts_but_not_root() {
    assert!(should_skip_packed_relative("Project/target/classes"));
    assert!(!should_skip_packed_relative("Project/src/Main.java"));
    assert!(!should_skip_packed_relative("target/src/Main.java"));
}

#[test]
fn parse_session_start_ms_accepts_valid_session_id() {
    assert_eq!(
        parse_session_start_ms("session-1234-1700000000000"),
        Some(1_700_000_000_000)
    );
}

#[test]
fn parse_session_start_ms_rejects_invalid_format() {
    assert_eq!(parse_session_start_ms("session-1234"), None);
    assert_eq!(parse_session_start_ms("legacy-session"), None);
}

#[test]
fn is_stale_workspace_session_respects_retention_window() {
    let retention_ms = (WORKSPACE_SESSION_RETENTION_HOURS as u128) * 60 * 60 * 1000;
    let now_ms = 2_000_000_000_000u128;
    let stale_session = format!("session-42-{}", now_ms.saturating_sub(retention_ms + 1));
    let fresh_session = format!("session-42-{}", now_ms.saturating_sub(retention_ms - 1));
    assert!(is_stale_workspace_session(&stale_session, now_ms));
    assert!(!is_stale_workspace_session(&fresh_session, now_ms));
}

#[test]
fn session_ids_round_trip_and_reject_noise() {
    let state = WorkspaceSessionState::new(1234, 1_700_000_000_000);
    assert_eq!(state.id(), "session-1234-1700000000000");
    assert_eq!(parse_session_start_ms(state.id()), Some(1_700_000_000_000));
    assert_eq!(parse_session_start_ms("session-1-2-3"), None);
    assert_eq!(parse_session_start_ms("session-1-x"), None);
    assert_eq!(parse_session_start_ms("session-1-+7"), Some(7));
    assert_eq!(
        parse_session_start_ms("session-1-340282366920938463463374607431768211456"),
        None
    );
    assert!(!is_stale_workspace_session("legacy-session", u128::MAX));
}

#[test]
fn skipped_components_ignore_case_and_root() {
    assert!(should_skip_packed_relative("Project/NODE_MODULES/x"));
    assert!(should_skip_packed_relative("/target/x"));
    assert!(should_skip_packed_relative("./target"));
    assert!(!should_skip_packed_relative("Project"));
    assert!(!should_skip_packed_relative("Project/targets"));
}

#[test]
fn fnv_hash_matches_reference_values() {
    assert_eq!(stable_hash(""), 0xcbf29ce484222325);
    assert_eq!(stable_hash("a"), 0xaf63dc4c8601ec8c);
    assert_eq!(stable_hash("foobar"), 0x85944171f73967e8);
}

#[test]
fn archive_names_follow_the_stem() {
    assert_eq!(archive_root_name_from_path("/tmp/My Course.umz", HostOs::Linux), "My_Course");
    assert_eq!(archive_root_name_from_path("/tmp/.hidden", HostOs::Linux), "hidden");
    assert_eq!(archive_root_name_from_path("/", HostOs::Linux), "project");
    assert_eq!(build_archive_temp_path("/tmp/a.umz"), "/tmp/a.umz.tmp");
    assert_eq!(build_archive_backup_path("/tmp/a.umz"), "/tmp/a.umz.bak");
    let name = packed_workspace_name("/tmp/My Course.umz", HostOs::Linux);
    assert_eq!(
        name,
        format!("My_Course-{:016x}", stable_hash("/tmp/My Course.umz"))
    );
}
