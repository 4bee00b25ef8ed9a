use unimozer_next::launch_args::{
    collect_umz_paths_from_args, parse_file_uri_path, parse_launch_umz_arg, percent_decode,
    LaunchOpenState, StartupLogState,
};
use unimozer_next::platform::HostOs;

#[test]
fn parse_launch_arg_accepts_plain_umz_path() {
    let parsed = parse_launch_umz_arg(r#"C:\Users\Student\A.umz"#, HostOs::Linux);
    assert!(parsed.is_some());
    let value = parsed.expect("expected umz path");
    assert!(value.to_ascii_lowercase().ends_with(".umz"));
}

#[test]
fn parse_launch_arg_accepts_quoted_umz_path() {
    let parsed = parse_launch_umz_arg(r#""C:\Users\Student\A.umz""#, HostOs::Linux);
    assert!(parsed.is_some());
    let value = parsed.expect("expected quoted umz path");
    assert!(value.to_ascii_lowercase().ends_with(".umz"));
}

#[test]
fn parse_launch_arg_accepts_file_uri_umz_path() {
    let parsed = parse_launch_umz_arg("file:///C:/Users/Student/A%20B.umz", HostOs::Linux);
    assert!(parsed.is_some());
    let value = parsed.expect("expected file uri umz path");
    assert!(value.contains("A B.umz"));
    assert!(value.to_ascii_lowercase().ends_with(".umz"));
}

#[test]
fn parse_launch_arg_rejects_flags_and_non_umz() {
    assert!(parse_launch_umz_arg("--inspect", HostOs::Linux).is_none());
    assert!(parse_launch_umz_arg("C:\\Users\\Student\\A.java", HostOs::Linux).is_none());
    assert!(parse_launch_umz_arg("", HostOs::Linux).is_none());
}

#[test]
fn collect_umz_paths_filters_invalid_entries() {
    let paths = collect_umz_paths_from_args(
        &vec![
            "--flag".to_string(),
            "C:\\Users\\Student\\A.umz".to_string(),
            "C:\\Users\\Student\\B.java".to_string(),
            "file:///C:/Users/Student/C%20D.umz".to_string(),
        ],
        HostOs::Linux,
    );
    assert_eq!(paths.len(), 2);
    assert!(paths.iter().all(|item| item.to_ascii_lowercase().ends_with(".umz")));
}

#[test]
fn launch_arg_values_are_exact() {
    assert_eq!(
        parse_launch_umz_arg("  \"/home/a/Course.UMZ\"\n", HostOs::Linux),
        Some("/home/a/Course.UMZ".to_string())
    );
    assert_eq!(
        parse_launch_umz_arg("file://localhost/home/a/My%20Course.umz", HostOs::Linux),
        Some("home/a/My Course.umz".to_string())
    );
    assert_eq!(
        parse_launch_umz_arg("file:///C:/Users/Student/A%20B.umz", HostOs::Windows),
        Some("C:\\Users\\Student\\A B.umz".to_string())
    );
    assert_eq!(
        parse_launch_umz_arg("C:\\Users\\Student\\A.umz", HostOs::Windows),
        Some("C:\\Users\\Student\\A.umz".to_string())
    );
    assert_eq!(parse_launch_umz_arg("/home/a/.umz", HostOs::Linux), None);
    assert_eq!(parse_launch_umz_arg("/home/a/b.umz/..", HostOs::Linux), None);
    assert_eq!(
        parse_launch_umz_arg("/home/a/b.umz/.", HostOs::Linux),
        Some("/home/a/b.umz/.".to_string())
    );
}

#[test]
fn file_uri_parsing_and_escapes() {
    assert_eq!(parse_file_uri_path("FILE:///tmp/x", HostOs::Linux), Some("/tmp/x".to_string()));
    assert_eq!(parse_file_uri_path("file://", HostOs::Linux), None);
    assert_eq!(parse_file_uri_path("http://x", HostOs::Linux), None);
    assert_eq!(
        parse_file_uri_path("file://server/share/a.umz", HostOs::Windows),
        Some("\\\\server\\share\\a.umz".to_string())
    );
    assert_eq!(percent_decode(b"a%20b%zz%2", 0), "a b%zz%2");
    assert_eq!(percent_decode(b"%C3%A9", 0), "\u{e9}");
}

#[test]
fn startup_queues_hand_over_once() {
    let mut logs = StartupLogState::new();
    logs.append(vec!["one".to_string()]);
    logs.append(vec!["two".to_string()]);
    assert_eq!(logs.take(), vec!["one".to_string(), "two".to_string()]);
    assert!(logs.take().is_empty());

    let mut open = LaunchOpenState::new();
    assert!(!open.queue(Vec::new()));
    assert!(open.queue(vec!["/a.umz".to_string()]));
    assert_eq!(open.take(), vec!["/a.umz".to_string()]);
    assert!(open.take().is_empty());
}
