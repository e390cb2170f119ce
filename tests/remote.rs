use license_retriever::remote::{
    found_documents, hosting_license_links, index_license_links, is_license_link, join_url,
    raw_url, wants_code_block, Anchor,
};
use license_retriever::Error;

fn anchor(href: &str, class: &str, text: &str) -> Anchor {
    Anchor {
        href: href.to_string(),
        class: class.to_string(),
        text: text.to_string(),
    }
}

#[test]
fn license_links_by_name() {
    assert!(is_license_link("LICENSE-APACHE"));
    assert!(is_license_link("/x/Licence"));
    assert!(!is_license_link("COPYRIGHT"));
    assert!(!is_license_link("Cargo.toml"));
}

#[test]
fn urls_are_joined_against_the_page() {
    let base = "https://docs.rs/crate/foo/1.2.3/source/";
    assert_eq!(join_url(base, "LICENSE"), "https://docs.rs/crate/foo/1.2.3/source/LICENSE");
    assert_eq!(join_url(base, "/x/LICENSE"), "https://docs.rs/x/LICENSE");
    assert_eq!(join_url(base, "https://a.b/LICENSE"), "https://a.b/LICENSE");
    assert_eq!(join_url("https://github.com", "/o/r"), "https://github.com/o/r");
    assert_eq!(join_url("https://a.b/dir/page", "f"), "https://a.b/dir/f");
}

#[test]
fn listing_keeps_license_links_in_order() {
    let base = "https://docs.rs/crate/foo/1.2.3/source/";
    let links = index_license_links(
        base,
        Some(vec![
            "LICENSE-MIT".to_string(),
            "README.md".to_string(),
            "/crate/foo/1.2.3/source/LICENSE-APACHE".to_string(),
        ]),
    );
    assert_eq!(
        links,
        vec![
            "https://docs.rs/crate/foo/1.2.3/source/LICENSE-MIT",
            "https://docs.rs/crate/foo/1.2.3/source/LICENSE-APACHE"
        ]
    );
}

#[test]
fn listing_not_found_is_empty() {
    assert!(index_license_links("https://docs.rs/crate/foo/9.9.9/source/", None).is_empty());
    assert!(index_license_links("https://docs.rs/crate/foo/9.9.9/source/", Some(vec![])).is_empty());
}

#[test]
fn source_view_needs_code_block() {
    assert!(wants_code_block("https://docs.rs/crate/foo/1.2.3/source/LICENSE"));
    assert!(!wants_code_block("https://raw.githubusercontent.com/o/r/main/LICENSE"));
}

#[test]
fn blob_url_becomes_raw_url() {
    assert_eq!(
        raw_url("https://github.com/o/r/blob/main/LICENSE"),
        "https://raw.githubusercontent.com/o/r/main/LICENSE"
    );
    assert_eq!(raw_url("https://example.org/x"), "https://example.org/x");
}

#[test]
fn hosting_page_gives_raw_license_links() {
    let row = "js-navigation-open Link--primary";
    let r = hosting_license_links(
        "https://github.com/o/r",
        Some(vec![
            anchor("/o/r/blob/main/LICENSE-MIT", row, "LICENSE-MIT"),
            anchor("/o/r/blob/main/README.md", row, "README.md"),
            anchor("/o/r/blob/main/LICENSE", "other", "LICENSE"),
        ]),
    );
    assert_eq!(
        r.unwrap(),
        vec!["https://raw.githubusercontent.com/o/r/main/LICENSE-MIT"]
    );
}

#[test]
fn recognized_hosting_page_without_license_is_empty() {
    let row = "js-navigation-open Link--primary";
    let r = hosting_license_links(
        "https://github.com/o/r",
        Some(vec![anchor("/o/r/blob/main/README.md", row, "README.md")]),
    );
    assert!(r.unwrap().is_empty());
}

#[test]
fn malformed_hosting_page_is_an_error() {
    let r = hosting_license_links(
        "https://example.org/o/r",
        Some(vec![anchor("/LICENSE", "plain", "LICENSE")]),
    );
    match r {
        Err(Error::NotAHostingPage(p)) => assert_eq!(p, "https://example.org/o/r"),
        other => panic!("unexpected {:?}", other),
    }
    assert!(matches!(
        hosting_license_links("https://example.org/o/r", Some(vec![])),
        Err(Error::NotAHostingPage(_))
    ));
}

#[test]
fn hosting_page_not_found_is_empty() {
    assert!(hosting_license_links("https://github.com/o/r", None).unwrap().is_empty());
}

#[test]
fn not_found_documents_are_dropped() {
    let r = found_documents(vec![Some("a".to_string()), None, Some("b".to_string())]);
    assert_eq!(r, vec!["a", "b"]);
}
