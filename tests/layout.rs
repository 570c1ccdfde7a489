use idlx::config::RendererConfig;
use idlx::context::{FileContext, FileDescriptor, MessageDescriptor};
use idlx::layout::{group_by_package, mirrored_output, package_output, plan_outputs, plan_packages, sort_by_path, str_lt, LayoutError, OutputFile};

fn file(path: &str, package: &[&str], messages: &[&str]) -> FileContext {
    let desc = FileDescriptor {
        path: path.to_string(),
        package: package.iter().map(|s| s.to_string()).collect(),
        messages: messages
            .iter()
            .map(|m| MessageDescriptor { name: Some(m.to_string()), fields: vec![] })
            .collect(),
        imports: vec![],
    };
    FileContext::build(&desc, &RendererConfig::default()).unwrap()
}

fn summary(outputs: &[OutputFile]) -> Vec<(String, Vec<String>)> {
    outputs
        .iter()
        .map(|o| (o.path.clone(), o.messages.iter().map(|m| m.name.clone()).collect()))
        .collect()
}

fn pair(path: &str, names: &[&str]) -> (String, Vec<String>) {
    (path.to_string(), names.iter().map(|s| s.to_string()).collect())
}

#[test]
fn lexicographic_order() {
    assert!(str_lt("a", "b"));
    assert!(str_lt("a", "ab"));
    assert!(!str_lt("ab", "a"));
    assert!(!str_lt("x", "x"));
    assert!(str_lt("", "a"));
    assert!(str_lt("Z", "a"));
}

#[test]
fn sort_orders_by_path() {
    let files = vec![file("c.proto", &[], &[]), file("a/z.proto", &[], &[]), file("b.proto", &[], &[])];
    let sorted = sort_by_path(files);
    let paths: Vec<&str> = sorted.iter().map(|f| f.path.as_str()).collect();
    assert_eq!(paths, vec!["a/z.proto", "b.proto", "c.proto"]);
}

#[test]
fn package_output_names() {
    let mut config = RendererConfig::default();
    assert_eq!(package_output(&vec!["a".to_string(), "b".to_string()], &config), "a.b");
    assert_eq!(package_output(&Vec::new(), &config), "_");
    config.file_extension = "rs".to_string();
    config.default_package_file_name = "root".to_string();
    assert_eq!(package_output(&vec!["a".to_string(), "b".to_string()], &config), "a.b.rs");
    assert_eq!(package_output(&Vec::new(), &config), "root.rs");
}

#[test]
fn mirrored_output_paths() {
    let mut config = RendererConfig::default();
    config.file_extension = "cs".to_string();
    assert_eq!(mirrored_output(&"a/b/foo.proto".to_string(), &config), "a/b/foo.cs");
    assert_eq!(mirrored_output(&"foo.proto".to_string(), &config), "foo.cs");
    config.file_extension = String::new();
    assert_eq!(mirrored_output(&"dir/foo.proto".to_string(), &config), "dir/foo");
}

#[test]
fn same_package_merges_in_path_order() {
    let config = RendererConfig::default();
    let files = vec![file("z.proto", &["a", "b"], &["Z1", "Z2"]), file("m.proto", &["a", "b"], &["M1"])];
    let (out, failed) = plan_packages(files, &config);
    assert!(failed.is_empty());
    assert_eq!(summary(&out), vec![pair("a.b", &["M1", "Z1", "Z2"])]);
}

#[test]
fn no_package_goes_to_default_file() {
    let mut config = RendererConfig::default();
    config.file_extension = "txt".to_string();
    let files = vec![file("b.proto", &[], &["B"]), file("a.proto", &["p"], &["A"]), file("c.proto", &[], &["C"])];
    let (out, failed) = plan_packages(files, &config);
    assert!(failed.is_empty());
    assert_eq!(summary(&out), vec![pair("p.txt", &["A"]), pair("_.txt", &["B", "C"])]);
}

#[test]
fn merged_name_collision_fails_only_its_file() {
    let config = RendererConfig::default();
    let files = vec![
        file("a.proto", &["x"], &["Ok"]),
        file("b.proto", &["y"], &["M"]),
        file("c.proto", &["y"], &["M"]),
        file("d.proto", &["z"], &["Z"]),
    ];
    let (out, failed) = plan_packages(files, &config);
    assert_eq!(summary(&out), vec![pair("x", &["Ok"]), pair("z", &["Z"])]);
    assert_eq!(failed, vec![("y".to_string(), LayoutError::NamingCollision)]);
}

#[test]
fn group_keeps_given_order() {
    let config = RendererConfig::default();
    let files = vec![file("b.proto", &["q"], &["B"]), file("a.proto", &["q"], &["A"])];
    let out = group_by_package(files, &config);
    assert_eq!(summary(&out), vec![pair("q", &["B", "A"])]);
}

#[test]
fn end_to_end_layout_modes() {
    let mut config = RendererConfig::default();
    config.file_extension = "out".to_string();
    let inputs = || vec![file("x/one.proto", &["a", "b"], &["A", "B"]), file("x/two.proto", &["a", "b"], &["C"])];
    let (mirrored, failed) = plan_outputs(inputs(), &config);
    assert!(failed.is_empty());
    assert_eq!(summary(&mirrored), vec![pair("x/one.out", &["A", "B"]), pair("x/two.out", &["C"])]);
    config.one_file_per_package = true;
    let (merged, failed) = plan_outputs(inputs(), &config);
    assert!(failed.is_empty());
    assert_eq!(summary(&merged), vec![pair("a.b.out", &["A", "B", "C"])]);
}
