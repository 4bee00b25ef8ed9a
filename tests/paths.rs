use unimozer_next::launcher::{
    pick_launcher_jar, private_config_dir, sanitize_name, server_arguments, workspace_dir,
};
use unimozer_next::platform::{
    config_dir_name, java_executable_name, javac_executable_name, jdtls_config_relative_dir,
    HostArch, HostOs,
};
use unimozer_next::uri::{path_to_uri, uri_to_path};

#[test]
fn uris_of_paths() {
    assert_eq!(path_to_uri("/home/a b/Main.java"), "file:///home/a%20b/Main.java");
    assert_eq!(path_to_uri("C:\\Users\\x"), "file:///C:/Users/x");
    assert_eq!(path_to_uri("//server/share"), "file://///server/share");
    assert_eq!(path_to_uri("/\u{e9}"), "file:///%C3%A9");
}

#[test]
fn paths_of_uris() {
    assert_eq!(uri_to_path("file:///home/a%20b/Main.java"), "/home/a b/Main.java");
    assert_eq!(uri_to_path("file:///C:/Users/x"), "C:/Users/x");
    assert_eq!(uri_to_path("file://file:///x"), "/x");
    assert_eq!(uri_to_path("/plain%2"), "/plain ");
    assert_eq!(uri_to_path("%zz"), "%zz");
}

#[test]
fn bundle_names_by_platform() {
    assert_eq!(config_dir_name(HostOs::Windows, HostArch::Aarch64), "config_win");
    assert_eq!(config_dir_name(HostOs::MacOs, HostArch::Aarch64), "config_mac_arm");
    assert_eq!(config_dir_name(HostOs::Linux, HostArch::X64), "config_linux");
    assert_eq!(jdtls_config_relative_dir(HostOs::MacOs, HostArch::X64), "jdtls/config_mac");
    assert_eq!(java_executable_name(HostOs::Windows, HostArch::X64), "jdk/win-x64/bin/java.exe");
    assert_eq!(java_executable_name(HostOs::Linux, HostArch::Aarch64), "jdk/linux-arm64/bin/java");
    assert_eq!(javac_executable_name(HostOs::MacOs, HostArch::Aarch64), "jdk/mac-arm64/bin/javac");
}

#[test]
fn server_state_directories() {
    assert_eq!(sanitize_name("org.eclipse_1.2"), "org_eclipse_1_2");
    assert_eq!(
        private_config_dir("/data/", "launcher_1.jar", "config_linux"),
        "/data/jdtls-config/launcher_1_jar/config_linux"
    );
    let ws = workspace_dir("/data", "/proj");
    assert!(ws.starts_with("/data/jdtls-workspaces/"));
    assert_eq!(ws, workspace_dir("/data", "/proj"));
    assert_ne!(ws, workspace_dir("/data", "/other"));
}

#[test]
fn launcher_jar_is_the_last_match() {
    let names = vec![
        "org.eclipse.equinox.launcher_1.6.400.jar".to_string(),
        "other.jar".to_string(),
        "org.eclipse.equinox.launcher_1.6.900.jar".to_string(),
        "org.eclipse.equinox.launcher_1.6.500.txt".to_string(),
    ];
    assert_eq!(pick_launcher_jar(&names), Some(2));
    assert_eq!(pick_launcher_jar(&vec!["x.jar".to_string()]), None);
}

#[test]
fn server_arguments_are_fixed() {
    let args = server_arguments("/l.log", "/j.jar", "/c", "/w");
    assert_eq!(args.len(), 17);
    assert_eq!(args[4], "-Dorg.eclipse.jdt.ls.log.file=/l.log");
    assert_eq!(args[12], "/j.jar");
    assert_eq!(args[14], "/c");
    assert_eq!(args[16], "/w");
}
