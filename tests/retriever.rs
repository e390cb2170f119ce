use license_retriever::codec::{fits_records, Record};
use license_retriever::{Config, Error, LicenseRetriever, Package};

fn pkg(name: &str, version: &str) -> Package {
    Package {
        id: format!("{name} {version}"),
        name: name.to_string(),
        version: version.to_string(),
        license: Some("MIT".to_string()),
        license_file: None,
        repository: Some(format!("https://github.com/o/{name}")),
        manifest_path: format!("/src/{name}/Cargo.toml"),
    }
}

fn texts(t: &[&str]) -> Vec<String> {
    t.iter().map(|s| s.to_string()).collect()
}

#[test]
fn copy_rule_copies_source_texts() {
    let mut config = Config::default();
    config.copies.push(("a".to_string(), "b".to_string()));
    let lr = LicenseRetriever::from_resolved(
        vec![(pkg("a", "1.0.0"), texts(&["one", "two"])), (pkg("b", "2.0.0"), vec![])],
        &config,
    )
    .unwrap();
    let e = lr.iter();
    assert_eq!(e[1].1, texts(&["one", "two"]));
    assert_eq!(e[0].1, texts(&["one", "two"]));
    assert_eq!(e[1].0, pkg("b", "2.0.0"));
}

#[test]
fn copy_rule_takes_richest_source_entry() {
    let mut config = Config::default();
    config.copies.push(("a".to_string(), "b".to_string()));
    let lr = LicenseRetriever::from_resolved(
        vec![
            (pkg("a", "0.1.0"), texts(&["old"])),
            (pkg("a", "1.0.0"), texts(&["x", "y"])),
            (pkg("a", "2.0.0"), texts(&["p", "q"])),
            (pkg("b", "2.0.0"), vec![]),
        ],
        &config,
    )
    .unwrap();
    assert_eq!(lr.iter()[3].1, texts(&["x", "y"]));
}

#[test]
fn copy_from_missing_package_fails() {
    let mut config = Config::default();
    config.copies.push(("nope".to_string(), "b".to_string()));
    let r = LicenseRetriever::from_resolved(vec![(pkg("b", "1.0.0"), vec![])], &config);
    match r {
        Err(Error::CopiedCrateNotFound(n)) => assert_eq!(n, "nope"),
        other => panic!("unexpected {:?}", other),
    }
}

#[test]
fn copy_to_missing_package_fails() {
    let mut config = Config::default();
    config.copies.push(("a".to_string(), "nope".to_string()));
    let r = LicenseRetriever::from_resolved(vec![(pkg("a", "1.0.0"), texts(&["t"]))], &config);
    match r {
        Err(Error::CopyTargetNotFound(n)) => assert_eq!(n, "nope"),
        other => panic!("unexpected {:?}", other),
    }
}

#[test]
fn ignored_package_is_not_reported() {
    let mut config = Config::default();
    config.error_for_no_license = true;
    config.ignored_crates.push("b".to_string());
    let lr = LicenseRetriever::from_resolved(
        vec![(pkg("a", "1.0.0"), texts(&["t"])), (pkg("b", "2.0.0"), vec![])],
        &config,
    )
    .unwrap();
    assert_eq!(lr.unresolved_report(&config), "");
    assert_eq!(lr.len(), 2);
}

#[test]
fn unignored_package_is_reported_in_strict_mode() {
    let mut config = Config::default();
    config.error_for_no_license = true;
    let r = LicenseRetriever::from_resolved(
        vec![
            (pkg("a", "1.0.0"), vec![]),
            (pkg("b", "2.0.0"), texts(&["t"])),
            (pkg("c", "3.0.0"), vec![]),
        ],
        &config,
    );
    match r {
        Err(Error::NoLicensesFound(m)) => assert_eq!(m, "a 1.0.0, c 3.0.0"),
        other => panic!("unexpected {:?}", other),
    }
}

#[test]
fn unresolved_package_is_only_reported_by_default() {
    let config = Config::default();
    let lr = LicenseRetriever::from_resolved(vec![(pkg("a", "1.0.0"), vec![])], &config).unwrap();
    assert_eq!(lr.unresolved_report(&config), "a 1.0.0");
    let err = LicenseRetriever::from_resolved(
        vec![(pkg("a", "1.0.0"), vec![])],
        &Config {
            error_for_no_license: true,
            ..Config::default()
        },
    )
    .unwrap_err();
    assert_eq!(err.message(), "No licenses found for: a 1.0.0");
}

#[test]
fn bytes_round_trip() {
    let config = Config::default();
    let mut bare = pkg("z", "0.0.1");
    bare.license = None;
    bare.repository = None;
    bare.license_file = Some("LICENSE".to_string());
    let lr = LicenseRetriever::from_resolved(
        vec![
            (pkg("a", "1.0.0"), texts(&["one", "two"])),
            (bare, texts(&["ü ∑ text"])),
            (pkg("c", "3.0.0"), vec![]),
        ],
        &config,
    )
    .unwrap();
    let bytes = lr.to_bytes().unwrap();
    assert!(!bytes.is_empty());
    let back = LicenseRetriever::from_bytes(&bytes).unwrap();
    assert_eq!(lr, back);
}

#[test]
fn empty_result_round_trips() {
    let lr = LicenseRetriever::default();
    let back = LicenseRetriever::from_bytes(&lr.to_bytes().unwrap()).unwrap();
    assert_eq!(lr, back);
    assert_eq!(back.len(), 0);
}

#[test]
fn garbage_bytes_do_not_decode() {
    assert!(matches!(
        LicenseRetriever::from_bytes(&[0xc1, 0x00, 0x01]),
        Err(Error::Decode(_))
    ));
}

#[test]
fn records_round_trip_values() {
    let lr = LicenseRetriever::from_resolved(
        vec![(pkg("a", "1.0.0"), texts(&["t"]))],
        &Config::default(),
    )
    .unwrap();
    let records: Vec<Record> = lr.to_records();
    assert_eq!(records[0].1, "a");
    assert_eq!(records[0].7, texts(&["t"]));
    assert_eq!(LicenseRetriever::from_records(&records), lr);
    let entries = lr.clone().into_iter();
    assert_eq!(entries.len(), 1);
}

#[test]
fn config_defaults() {
    let c = Config::default();
    assert_eq!(c.max_in_flight, 5);
    assert!(!c.error_for_no_license);
    assert!(c.overrides.is_empty() && c.ignored_crates.is_empty() && c.copies.is_empty());
    assert!(c.manifest_path.is_none());
}

#[test]
fn config_lookups_take_first_entry() {
    let mut c = Config::default();
    c.overrides.push(("a".to_string(), texts(&["first"])));
    c.overrides.push(("a".to_string(), texts(&["second"])));
    c.ignored_crates.push("x".to_string());
    assert_eq!(c.override_texts("a"), Some(texts(&["first"])));
    assert_eq!(c.override_texts("b"), None);
    assert!(c.has_override("a"));
    assert!(!c.has_override("b"));
    assert!(c.is_ignored("x"));
    assert!(!c.is_ignored("a"));
    assert_eq!(c.override_urls_for("a"), None);
}

#[test]
fn config_setters_keep_one_entry_per_name() {
    let mut c = Config::default();
    c.set_override("a".to_string(), texts(&["first"]));
    c.set_override("b".to_string(), texts(&["b"]));
    c.set_override("a".to_string(), texts(&["second"]));
    assert_eq!(c.overrides.len(), 2);
    assert_eq!(c.override_texts("a"), Some(texts(&["second"])));
    assert_eq!(c.override_texts("b"), Some(texts(&["b"])));
    c.set_override_urls("a".to_string(), texts(&["https://example.org/L"]));
    c.set_override_urls("a".to_string(), texts(&["https://example.org/M"]));
    assert_eq!(c.override_urls.len(), 1);
    assert_eq!(c.override_urls_for("a"), Some(texts(&["https://example.org/M"])));
    c.ignore("x".to_string());
    c.ignore("x".to_string());
    c.ignore("y".to_string());
    assert_eq!(c.ignored_crates, texts(&["x", "y"]));
}

#[test]
fn empty_bytes_do_not_decode() {
    assert!(matches!(LicenseRetriever::from_bytes(&[]), Err(Error::Decode(_))));
}

#[test]
fn equal_results_give_equal_bytes() {
    let make = || {
        LicenseRetriever::from_resolved(vec![(pkg("a", "1.0.0"), texts(&["t", "u"]))], &Config::default())
            .unwrap()
    };
    assert_eq!(make().to_bytes().unwrap(), make().to_bytes().unwrap());
}

#[test]
fn missing_source_is_reported_before_missing_target() {
    let mut config = Config::default();
    config.copies.push(("a".to_string(), "nope".to_string()));
    config.copies.push(("ghost".to_string(), "a".to_string()));
    let r = LicenseRetriever::from_resolved(vec![(pkg("a", "1.0.0"), texts(&["t"]))], &config);
    match r {
        Err(Error::CopiedCrateNotFound(n)) => assert_eq!(n, "ghost"),
        other => panic!("unexpected {:?}", other),
    }
}

#[test]
fn ordinary_records_fit_the_encoding() {
    let lr = LicenseRetriever::from_resolved(vec![(pkg("a", "1.0.0"), texts(&["t"]))], &Config::default())
        .unwrap();
    assert!(fits_records(&lr.to_records()));
    assert!(fits_records(&Vec::new()));
}
