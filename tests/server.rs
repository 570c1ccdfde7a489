use idlx::server::{run, supported_languages, Lang, ServerError};

#[test]
fn no_server_languages_supported() {
    assert!(supported_languages().is_empty());
}

#[test]
fn run_without_languages_succeeds() {
    assert_eq!(run(&Vec::new(), &vec!["a.proto".to_string()]), Ok(()));
}

#[test]
fn run_rejects_first_unsupported_language() {
    let langs = vec![Lang { name: "rust".to_string() }, Lang { name: "go".to_string() }];
    assert_eq!(run(&langs, &Vec::new()), Err(ServerError::UnsupportedLanguage(0)));
}
