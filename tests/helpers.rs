use unimozer_next::archive::{stable_hash, update_fnv64, FNV_OFFSET_BASIS};
use unimozer_next::classpath::{join_classpath, split_classpath};
use unimozer_next::crash_log::{needs_rotation, normalize_lines, CRASH_LOG_MAX_BYTES};
use unimozer_next::links::is_allowed_url;
use unimozer_next::platform::HostOs;

#[test]
fn classpath_splits_on_both_separators_but_not_drive_colons() {
    assert_eq!(
        split_classpath(" lib/a.jar ; lib/b.jar:C:\\x.jar"),
        vec!["lib/a.jar".to_string(), "lib/b.jar".to_string(), "C".to_string(), "\\x.jar".to_string()]
    );
    assert_eq!(
        split_classpath("C:\\libs\\a.jar;D:/b.jar"),
        vec!["C:\\libs\\a.jar".to_string(), "D".to_string(), "/b.jar".to_string()]
    );
    assert!(split_classpath(" ;: ").is_empty());
}

#[test]
fn classpath_joins_with_host_separator() {
    let entries = vec!["a".to_string(), "b".to_string(), "c".to_string()];
    assert_eq!(join_classpath(&entries, HostOs::Windows), "a;b;c");
    assert_eq!(join_classpath(&entries, HostOs::Linux), "a:b:c");
    assert_eq!(join_classpath(&Vec::new(), HostOs::Linux), "");
}

#[test]
fn only_web_and_mail_links_open() {
    assert!(is_allowed_url("HTTPS://example.org"));
    assert!(is_allowed_url("http://x"));
    assert!(is_allowed_url("mailto:a@b"));
    assert!(!is_allowed_url("file:///etc/passwd"));
    assert!(!is_allowed_url("javascript:alert(1)"));
    assert!(!is_allowed_url("http:/x"));
}

#[test]
fn crash_lines_are_split_and_clipped() {
    let long = "x".repeat(4005);
    let lines = vec!["a\r\nb\n".to_string(), String::new(), long, "\n".to_string()];
    let out = normalize_lines(&lines);
    assert_eq!(out.len(), 4);
    assert_eq!(out[0], "a");
    assert_eq!(out[1], "b");
    assert_eq!(out[2].chars().count(), 4000);
    assert_eq!(out[3], "");
    assert!(needs_rotation(Some(CRASH_LOG_MAX_BYTES)));
    assert!(!needs_rotation(Some(CRASH_LOG_MAX_BYTES - 1)));
    assert!(!needs_rotation(None));
}

#[test]
fn fnv_updates_compose() {
    let mut hash = FNV_OFFSET_BASIS;
    update_fnv64(&mut hash, b"foo");
    update_fnv64(&mut hash, b"bar");
    assert_eq!(hash, stable_hash("foobar"));
}

#[test]
fn tool_output_is_decoded_lossily() {
    assert_eq!(unimozer_next::text::decode_process_output(b"ok\n".to_vec()), "ok\n");
    assert_eq!(unimozer_next::text::decode_process_output(vec![0x61, 0xff, 0x62]), "a\u{fffd}b");
}

#[test]
fn tree_skips_tool_directories() {
    assert!(unimozer_next::tree::should_skip_dir("/p/Node_Modules", HostOs::Linux));
    assert!(unimozer_next::tree::should_skip_dir("/p/.unimozer-next/", HostOs::Linux));
    assert!(unimozer_next::tree::should_skip_dir("C:\\p\\BIN", HostOs::Windows));
    assert!(!unimozer_next::tree::should_skip_dir("C:\\p\\BIN", HostOs::Linux));
    assert!(!unimozer_next::tree::should_skip_dir("/p/src", HostOs::Linux));
    assert!(!unimozer_next::tree::should_skip_dir("/", HostOs::Linux));
}
