use license_retriever::chain::{first_step, next_step, Step};
use license_retriever::html::{first_code_block, page_anchors};
use license_retriever::remote::{found_documents, index_license_links, listing_url, wants_code_block};
use license_retriever::{Config, LicenseRetriever, Package};

fn foo() -> Package {
    Package {
        id: "foo 1.2.3".to_string(),
        name: "foo".to_string(),
        version: "1.2.3".to_string(),
        manifest_path: "/src/foo/Cargo.toml".to_string(),
        ..Package::default()
    }
}

#[test]
fn override_ends_the_chain() {
    let mut config = Config::default();
    config.overrides.push(("foo".to_string(), vec!["text".to_string()]));
    let p = foo();
    assert_eq!(first_step(&p, &config), Step::Override);
    assert_eq!(next_step(Step::Override, false, &p, &config), Step::Finished);
    assert_eq!(next_step(Step::Override, true, &p, &config), Step::Finished);
}

#[test]
fn empty_override_ends_the_chain_too() {
    let mut config = Config::default();
    config.overrides.push(("foo".to_string(), vec![]));
    let p = foo();
    assert_eq!(first_step(&p, &config), Step::Override);
    assert_eq!(next_step(Step::Override, false, &p, &config), Step::Finished);
}

#[test]
fn url_override_ends_the_chain() {
    let mut config = Config::default();
    config
        .override_urls
        .push(("foo".to_string(), vec!["https://example.org/LICENSE".to_string()]));
    let p = foo();
    assert_eq!(first_step(&p, &config), Step::Override);
    assert_eq!(next_step(Step::Override, false, &p, &config), Step::Finished);
}

#[test]
fn declared_license_file_ends_the_chain() {
    let config = Config::default();
    let mut p = foo();
    p.license_file = Some("LICENSE.txt".to_string());
    assert_eq!(first_step(&p, &config), Step::LicenseFile);
    assert_eq!(next_step(Step::LicenseFile, false, &p, &config), Step::Finished);
}

#[test]
fn full_chain_when_nothing_is_found() {
    let config = Config::default();
    let mut p = foo();
    p.repository = Some("https://github.com/o/foo".to_string());
    p.license = Some("MIT".to_string());
    let mut s = first_step(&p, &config);
    let mut seen = vec![s];
    while s != Step::Finished {
        s = next_step(s, false, &p, &config);
        seen.push(s);
    }
    assert_eq!(
        seen,
        vec![
            Step::PackageDir,
            Step::Repository,
            Step::IndexExact,
            Step::IndexLatest,
            Step::Hosting,
            Step::Corpus,
            Step::Finished
        ]
    );
}

#[test]
fn steps_without_their_inputs_are_skipped() {
    let config = Config::default();
    let p = foo();
    assert_eq!(first_step(&p, &config), Step::PackageDir);
    assert_eq!(next_step(Step::PackageDir, false, &p, &config), Step::IndexExact);
    assert_eq!(next_step(Step::IndexLatest, false, &p, &config), Step::Finished);
}

#[test]
fn exact_version_found_skips_latest() {
    // foo 1.2.3: nothing local, the exact listing has one LICENSE-MIT link.
    let config = Config::default();
    let p = foo();
    let mut requested = Vec::new();
    let mut s = first_step(&p, &config);
    assert_eq!(s, Step::PackageDir);
    s = next_step(s, false, &p, &config);
    assert_eq!(s, Step::IndexExact);
    let url = listing_url(&p.name, Some(&p.version));
    requested.push(url.clone());
    assert_eq!(url, "https://docs.rs/crate/foo/1.2.3/source/");
    let links = index_license_links(
        &url,
        Some(vec!["../".to_string(), "LICENSE-MIT".to_string(), "src/".to_string()]),
    );
    assert_eq!(links, vec!["https://docs.rs/crate/foo/1.2.3/source/LICENSE-MIT"]);
    let texts = vec!["MIT License text".to_string()];
    s = next_step(s, !texts.is_empty(), &p, &config);
    assert_eq!(s, Step::Finished);
    assert!(!requested.iter().any(|u| u.contains("latest")));
}

#[test]
fn missing_listing_falls_back_to_latest() {
    let config = Config::default();
    let p = foo();
    let url = listing_url(&p.name, Some(&p.version));
    let links = index_license_links(&url, None);
    assert!(links.is_empty());
    assert_eq!(next_step(Step::IndexExact, false, &p, &config), Step::IndexLatest);
    assert_eq!(
        listing_url(&p.name, None),
        "https://docs.rs/crate/foo/latest/source/"
    );
}

#[test]
fn index_scenario_end_to_end() {
    // foo 1.2.3 with nothing local: the exact listing page links LICENSE-MIT,
    // whose source view holds the text in a code block.
    let config = Config::default();
    let p = foo();
    let mut requested = Vec::new();
    let mut step = first_step(&p, &config);
    let mut found = Vec::new();
    while step != Step::Finished {
        found = match step {
            Step::IndexExact | Step::IndexLatest => {
                let version = if step == Step::IndexExact { Some(p.version.as_str()) } else { None };
                let url = listing_url(&p.name, version);
                requested.push(url.clone());
                let listing = r#"<a href="../">..</a><a href="LICENSE-MIT" class="pure-menu-link">LICENSE-MIT</a><a href="src/">src</a>"#;
                let targets = page_anchors(listing).into_iter().map(|a| a.href).collect();
                let links = index_license_links(&url, Some(targets));
                let fetched = links
                    .iter()
                    .map(|l| {
                        assert!(wants_code_block(l));
                        first_code_block("<pre><code><span>MIT License</span>\nCopyright &amp; more</code></pre>")
                    })
                    .collect();
                found_documents(fetched)
            }
            _ => vec![],
        };
        step = next_step(step, !found.is_empty(), &p, &config);
    }
    assert_eq!(requested, vec!["https://docs.rs/crate/foo/1.2.3/source/"]);
    let lr = LicenseRetriever::from_resolved(vec![(p.clone(), found)], &config).unwrap();
    assert_eq!(
        lr.into_iter(),
        vec![(p, vec!["MIT License\nCopyright & more".to_string()])]
    );
}
