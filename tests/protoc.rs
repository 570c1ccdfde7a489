use idlx::protoc::{all_quoted_check, arg_with_value, collect_extra_protoc_args, proto_path_arg, unquote_arg, Protoc};

fn quote_arg(arg: &str) -> String {
    ["\"", arg, "\""].concat()
}

#[test]
fn passes_extra_protoc_args() {
    let mut extra: Vec<String> = Vec::new();
    let extra_protoc_args = vec!["--test1", "--test2=hello"];
    for extra_arg in &extra_protoc_args {
        extra.push(quote_arg(extra_arg));
    }
    let args = collect_extra_protoc_args(&extra);
    assert_eq!(extra_protoc_args, args);
}

#[test]
fn arg_with_value_formats_flag() {
    assert_eq!(arg_with_value("proto_path", "in/dir"), "--proto_path=in/dir");
    assert_eq!(arg_with_value("", ""), "--=");
}

#[test]
fn proto_path_arg_names_input_root() {
    assert_eq!(proto_path_arg("/work/protos"), "--proto_path=/work/protos");
}

#[test]
fn unquote_drops_first_and_last() {
    assert_eq!(unquote_arg("\"--x\""), "--x");
    assert_eq!(unquote_arg("''"), "");
}

#[test]
fn new_protoc_orders_args_and_waits() {
    let extra = vec![quote_arg("--a"), quote_arg("--b=1")];
    let protoc = Protoc::new("root", &extra);
    assert_eq!(protoc.args(), &vec!["--proto_path=root".to_string(), "--a".to_string(), "--b=1".to_string()]);
    assert!(protoc.input_files().is_empty());
    assert!(protoc.execution_args().is_none());
}

#[test]
fn execution_args_put_input_files_last() {
    let mut protoc = Protoc::new("root", &Vec::new());
    let mut more = vec!["--c".to_string()];
    protoc.add_args(&mut more);
    assert!(more.is_empty());
    let mut files = vec!["a.proto".to_string(), "b.proto".to_string()];
    protoc.add_input_files(&mut files);
    assert!(files.is_empty());
    assert_eq!(protoc.input_files(), &vec!["a.proto".to_string(), "b.proto".to_string()]);
    protoc.flag_for_execution();
    assert_eq!(
        protoc.execution_args(),
        Some(vec![
            "--proto_path=root".to_string(),
            "--c".to_string(),
            "a.proto".to_string(),
            "b.proto".to_string()
        ])
    );
}

#[test]
fn quoted_check() {
    assert!(all_quoted_check(&vec![quote_arg("a"), quote_arg("")]));
    assert!(!all_quoted_check(&vec![quote_arg("a"), "x".to_string()]));
    assert!(all_quoted_check(&Vec::new()));
}
