use license_retriever::sources::{
    corpus_files, is_license_name, is_repo_not_found, license_identifiers, normalize_repo_url,
    repo_candidates,
};

#[test]
fn license_names_match_without_case() {
    assert!(is_license_name("LICENSE-MIT"));
    assert!(is_license_name("Licence.txt"));
    assert!(is_license_name("COPYRIGHT"));
    assert!(is_license_name("copying"));
    assert!(is_license_name("licenses"));
    assert!(!is_license_name("README.md"));
    assert!(!is_license_name("src"));
    assert!(!is_license_name(""));
}

#[test]
fn repo_url_loses_trailing_slash_and_tree_suffix() {
    assert_eq!(
        normalize_repo_url("https://github.com/o/r/"),
        "https://github.com/o/r"
    );
    assert_eq!(
        normalize_repo_url("https://github.com/o/r/tree/main/crates/x"),
        "https://github.com/o/r"
    );
    assert_eq!(
        normalize_repo_url("https://github.com/o/r/tree/main/"),
        "https://github.com/o/r"
    );
    assert_eq!(normalize_repo_url("https://gitlab.com/o/r"), "https://gitlab.com/o/r");
    assert_eq!(normalize_repo_url(""), "");
}

#[test]
fn clone_not_found_is_recognized_by_message() {
    assert!(is_repo_not_found("unexpected http status code: 404"));
    assert!(!is_repo_not_found("unexpected http status code: 500"));
    assert!(!is_repo_not_found(""));
}

#[test]
fn license_expression_splits_into_identifiers() {
    assert_eq!(
        license_identifiers("MIT OR Apache-2.0"),
        vec!["MIT".to_string(), "Apache-2.0".to_string()]
    );
    assert_eq!(
        license_identifiers("(MIT OR Apache-2.0) AND Unicode-DFS-2016"),
        vec!["MIT", "Apache-2.0", "Unicode-DFS-2016"]
    );
    assert_eq!(
        license_identifiers("Apache-2.0 WITH LLVM-exception"),
        vec!["Apache-2.0", "LLVM-exception"]
    );
    assert_eq!(license_identifiers("MIT/Apache-2.0"), vec!["MIT", "Apache-2.0"]);
    assert_eq!(license_identifiers("MIT OR MIT"), vec!["MIT", "MIT"]);
    assert!(license_identifiers("").is_empty());
    assert!(license_identifiers(" ( ) ").is_empty());
    assert_eq!(license_identifiers("A(B)"), vec!["AB"]);
    assert_eq!(license_identifiers("(MIT)"), vec!["MIT"]);
}

#[test]
fn corpus_files_follow_identifiers() {
    assert_eq!(
        corpus_files("out/repo/@spdx", "MIT OR Apache-2.0"),
        vec!["out/repo/@spdx/text/MIT.txt", "out/repo/@spdx/text/Apache-2.0.txt"]
    );
}

#[test]
fn repo_candidates_in_order() {
    assert_eq!(
        repo_candidates("out/repo/x", "foo"),
        vec!["out/repo/x", "out/repo/x/foo", "out/repo/x/crates/foo"]
    );
}
