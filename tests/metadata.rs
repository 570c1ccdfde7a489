use idlx::metadata::{ancestors_of, directory_metadata, plan_metadata, MetadataContext, MetadataError};

#[test]
fn direct_child() {
    let mut context = MetadataContext::with_relative_dir("root");
    context.push_file("root/file.txt").unwrap();
    assert_eq!(context.file_names().get(0), Some(&"file".to_string()));
}

#[test]
fn not_direct_child() {
    let mut context = MetadataContext::with_relative_dir("root");
    context.push_file("root/sub/file.txt").unwrap();
    assert!(context.file_names().is_empty());
}

#[test]
fn also_adds_no_ext_file_name() {
    let mut context = MetadataContext::with_relative_dir("root");
    context.push_file("root/file.txt").unwrap();
    assert_eq!(context.file_names().get(0), Some(&"file".to_string()));
    assert_eq!(context.file_names_with_ext().get(0), Some(&"file.txt".to_string()));
}

#[test]
fn metadata_direct_child() {
    let mut context = MetadataContext::with_relative_dir("root");
    context.push_subdirectory("root/sub").unwrap();
    assert_eq!(context.subdirectories().get(0), Some(&"sub".to_string()));
}

#[test]
fn metadata_not_direct_child() {
    let mut context = MetadataContext::with_relative_dir("root");
    context.push_subdirectory("root/sub/other").unwrap();
    assert!(context.subdirectories().is_empty());
}

#[test]
fn valid() {
    let context = MetadataContext::with_relative_dir("root");
    assert!(context.is_direct_child("root/anything"));
}

#[test]
fn invalid_too_deep() {
    let context = MetadataContext::with_relative_dir("root");
    assert!(!context.is_direct_child("root/sub/other"));
}

#[test]
fn invalid_too_high() {
    let context = MetadataContext::with_relative_dir("root/sub");
    assert!(!context.is_direct_child("root"));
}

#[test]
fn invalid_different_root() {
    let context = MetadataContext::with_relative_dir("root/sub");
    assert!(!context.is_direct_child("anything"));
}

#[test]
fn relative_dir_is_kept() {
    let context = MetadataContext::with_relative_dir("a/b");
    assert_eq!(context.relative_dir(), "a/b");
}

#[test]
fn top_level_entries_belong_to_empty_dir() {
    let mut context = MetadataContext::with_relative_dir("");
    context.push_file("top.rs").unwrap();
    context.push_file("").unwrap();
    assert_eq!(context.file_names(), &vec!["top".to_string()]);
    assert!(!context.is_direct_child(""));
}

#[test]
fn stem_keeps_leading_dot_and_inner_dots() {
    let mut context = MetadataContext::with_relative_dir("d");
    context.push_file("d/.hidden").unwrap();
    context.push_file("d/a.tar.gz").unwrap();
    assert_eq!(context.file_names(), &vec![".hidden".to_string(), "a.tar".to_string()]);
    assert_eq!(context.file_names_with_ext(), &vec![".hidden".to_string(), "a.tar.gz".to_string()]);
}

#[test]
fn dot_dot_child_is_rejected() {
    let mut context = MetadataContext::with_relative_dir("root");
    assert_eq!(context.push_file("root/.."), Err(MetadataError::InvalidFileName));
    assert_eq!(context.push_subdirectory("root/."), Err(MetadataError::InvalidFileName));
    assert!(context.file_names().is_empty());
    assert!(context.subdirectories().is_empty());
}

#[test]
fn directory_metadata_lists_direct_children_only() {
    let files = vec!["x/one.out".to_string(), "x/deep/two.out".to_string(), "y/three.out".to_string(), "x/four.txt".to_string()];
    let dirs = vec!["x/deep".to_string(), "x/deep/er".to_string(), "x".to_string()];
    let m = directory_metadata("x", &files, &dirs).unwrap();
    assert_eq!(m.relative_dir(), "x");
    assert_eq!(m.file_names_with_ext(), &vec!["one.out".to_string(), "four.txt".to_string()]);
    assert_eq!(m.file_names(), &vec!["one".to_string(), "four".to_string()]);
    assert_eq!(m.subdirectories(), &vec!["deep".to_string()]);
    let root = directory_metadata("", &files, &dirs).unwrap();
    assert!(root.file_names().is_empty());
    assert_eq!(root.subdirectories(), &vec!["x".to_string()]);
}

#[test]
fn directory_metadata_rejects_unnamed_child() {
    let files = vec!["x/a.out".to_string(), "x/..".to_string()];
    assert_eq!(directory_metadata("x", &files, &Vec::new()).err(), Some(MetadataError::InvalidFileName));
    let dirs = vec!["x/.".to_string()];
    assert_eq!(directory_metadata("x", &Vec::new(), &dirs).err(), Some(MetadataError::InvalidFileName));
}

#[test]
fn root_path_has_no_parent() {
    let mut context = MetadataContext::with_relative_dir("");
    assert!(!context.is_direct_child("/"));
    assert_eq!(context.push_file("/"), Ok(()));
    assert!(context.file_names().is_empty());
    let mut root = MetadataContext::with_relative_dir("/");
    assert!(root.is_direct_child("/x"));
    assert!(!context.is_direct_child("/x"));
    root.push_subdirectory("/x").unwrap();
    assert_eq!(root.subdirectories(), &vec!["x".to_string()]);
}

#[test]
fn ancestors_nearest_first() {
    assert_eq!(ancestors_of("a/b/c.out"), vec!["a/b".to_string(), "a".to_string(), "".to_string()]);
    assert_eq!(ancestors_of("/x/y"), vec!["/x".to_string(), "/".to_string()]);
    assert!(ancestors_of("").is_empty());
}

#[test]
fn plan_metadata_one_context_per_directory() {
    let paths = vec!["a/one.out".to_string(), "a/two.out".to_string(), "a/b/three.out".to_string(), "top.out".to_string()];
    let (dirs, metas) = plan_metadata(&paths);
    assert_eq!(dirs, vec!["a".to_string(), "".to_string(), "a/b".to_string()]);
    let a = metas[0].as_ref().unwrap();
    assert_eq!(a.relative_dir(), "a");
    assert_eq!(a.file_names_with_ext(), &vec!["one.out".to_string(), "two.out".to_string()]);
    assert_eq!(a.subdirectories(), &vec!["b".to_string()]);
    let root = metas[1].as_ref().unwrap();
    assert_eq!(root.file_names(), &vec!["top".to_string()]);
    assert_eq!(root.subdirectories(), &vec!["a".to_string()]);
    let ab = metas[2].as_ref().unwrap();
    assert_eq!(ab.file_names(), &vec!["three".to_string()]);
    assert!(ab.subdirectories().is_empty());
}
