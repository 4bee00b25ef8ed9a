use unimozer_next::project_meta::{
    classpath_file_contents, needs_classpath_update, project_classpath_entries,
    project_file_contents, resolve_value,
    source_and_output_dirs, ExistingClasspath, Properties,
};

fn chars(s: &str) -> Vec<char> {
    s.chars().collect()
}

fn text(v: &[char]) -> String {
    v.iter().collect()
}

#[test]
fn properties_parse_like_the_file_format() {
    let props = Properties::parse(
        "# comment\n! also\n src.dir = source \r\nempty=\n=novalue\nurl:http://x\nsrc.dir=app\nlonely\n",
    );
    assert_eq!(props.get("src.dir").as_deref(), Some("app"));
    assert_eq!(props.get("empty").as_deref(), Some(""));
    assert_eq!(props.get("url").as_deref(), Some("http://x"));
    assert_eq!(props.get("lonely"), None);
    assert_eq!(props.get(""), None);
}

#[test]
fn references_expand_with_bounded_depth() {
    let props = Properties::parse("a=${b}/x\nb=base\nloop=${loop}!\n");
    assert_eq!(text(&resolve_value(&chars("${a}-${missing}-${b"), &props, 0, false)), "base/x--${b");
    let expanded = text(&resolve_value(&chars("${loop}"), &props, 0, false));
    assert_eq!(expanded, "${loop}!!!!!");
}

#[test]
fn metadata_defaults_and_files() {
    let props = Properties::parse("build.dir=out\nbuild.classes.dir=${build.dir}/classes\n");
    let (src, out) = source_and_output_dirs(&props);
    assert_eq!(src, "src");
    assert_eq!(out, "out/classes");
    let project = project_file_contents("Demo");
    assert!(project.contains("<name>Demo</name>"));
    assert!(project.ends_with("</projectDescription>\n"));
    let cp = classpath_file_contents("src", "out/classes");
    assert!(cp.contains("kind=\"src\" path=\"src\""));
    assert!(cp.contains("kind=\"output\" path=\"out/classes\""));
    assert!(needs_classpath_update(&ExistingClasspath::Missing));
    assert!(!needs_classpath_update(&ExistingClasspath::Unreadable));
    assert!(needs_classpath_update(&ExistingClasspath::Text("path=\"${src.dir}\"".to_string())));
    assert!(!needs_classpath_update(&ExistingClasspath::Text("path=\"src\"".to_string())));
}

#[test]
fn continued_lines_join_and_unescape() {
    let text = "# header\njavac.classpath=\\\n    ${libs.dir}/a.jar:\\\n    ${ libs.dir }/b.jar\nlibs.dir=lib\npath=C:\\\\x\\\\y\ndangling=a\\";
    let props = Properties::parse_with_continuations(text);
    assert_eq!(props.get("javac.classpath").as_deref(), Some("${libs.dir}/a.jar:${ libs.dir }/b.jar"));
    assert_eq!(props.get("path").as_deref(), Some("C:\\x\\y"));
    assert_eq!(props.get("dangling").as_deref(), Some("a"));
    assert_eq!(
        project_classpath_entries(text, "javac.classpath"),
        vec!["lib/a.jar".to_string(), "lib/b.jar".to_string()]
    );
    assert!(project_classpath_entries(text, "missing").is_empty());
}
