use cargo_danger::error::ResolveError;
use cargo_danger::exposure::{
    summary, ExposureStatus, PackageReport, ParseError,
};
use cargo_danger::identity::PackageIdentity;
use cargo_danger::metadata::{
    Dependency, DependencyKind, DependencySpec, PackageRecord, Provider, Replacement,
};
use cargo_danger::platform::{parse_flag, Flag};

fn id(name: &str, source: &str) -> PackageIdentity {
    PackageIdentity::new(name, "1.0.0", source)
}

fn bare(id: PackageIdentity) -> PackageRecord {
    PackageRecord { id, dependencies: vec![], source_root: String::new() }
}

#[test]
fn find_gives_the_first_record_of_an_identity() {
    let provider = Provider {
        packages: vec![bare(id("a", "x")), bare(id("b", "x")), bare(id("a", "y")), bare(id("b", "x"))],
        replacements: vec![],
    };
    assert_eq!(provider.find(&id("a", "x")), Some(0));
    assert_eq!(provider.find(&id("b", "x")), Some(1));
    assert_eq!(provider.find(&id("a", "y")), Some(2));
    assert_eq!(provider.find(&id("c", "x")), None);
}

#[test]
fn resolve_applies_the_first_replacement_once() {
    let provider = Provider {
        packages: vec![],
        replacements: vec![
            Replacement { declared: id("a", "x"), replacement: id("a", "patched") },
            Replacement { declared: id("a", "x"), replacement: id("a", "other") },
            Replacement { declared: id("a", "patched"), replacement: id("a", "twice") },
        ],
    };
    assert_eq!(*provider.resolve(&id("a", "x")), id("a", "patched"));
    assert_eq!(*provider.resolve(&id("a", "patched")), id("a", "twice"));
    assert_eq!(*provider.resolve(&id("b", "x")), id("b", "x"));
}

#[test]
fn dependency_that_fulfils_only_a_build_specification_is_not_followed() {
    let provider = Provider {
        packages: vec![
            PackageRecord {
                id: id("app", "x"),
                dependencies: vec![Dependency {
                    id: id("gen", "x"),
                    specs: vec![DependencySpec { kind: DependencyKind::Build, platform: None }],
                }],
                source_root: String::new(),
            },
            bare(id("gen", "x")),
        ],
        replacements: vec![],
    };
    let closure = cargo_danger::closure::resolve_closure(&provider, &id("app", "x"), true).unwrap();
    assert_eq!(closure, vec![id("app", "x")]);
}

#[test]
fn dependency_that_fulfils_several_specifications_is_followed_for_any_of_them() {
    let provider = Provider {
        packages: vec![
            PackageRecord {
                id: id("app", "x"),
                dependencies: vec![Dependency {
                    id: id("lib", "x"),
                    specs: vec![
                        DependencySpec { kind: DependencyKind::Build, platform: None },
                        DependencySpec { kind: DependencyKind::Normal, platform: None },
                    ],
                }],
                source_root: String::new(),
            },
            bare(id("lib", "x")),
        ],
        replacements: vec![],
    };
    let closure = cargo_danger::closure::resolve_closure(&provider, &id("app", "x"), false).unwrap();
    assert_eq!(closure.len(), 2);
}

#[test]
fn identity_reads_as_name_version_and_source() {
    let id = PackageIdentity::new("serde", "1.0.2", "registry+https://example.org/index");
    assert_eq!(id.label(), "serde 1.0.2 (registry+https://example.org/index)");
}

#[test]
fn errors_read_as_text() {
    let missing = ResolveError::MetadataLookupError { missing: id("lost", "x") };
    assert_eq!(missing.message(), "no metadata for package lost 1.0.0 (x)");
    let unmatched = ResolveError::DependencyLookupError {
        package: id("app", "x"),
        dependency: id("lib", "y"),
    };
    assert_eq!(
        unmatched.message(),
        "no dependency specification for lib 1.0.0 (y) in app 1.0.0 (x)"
    );
    let parse = ParseError { path: "src/lib.rs".to_string(), reason: "expected item".to_string() };
    assert_eq!(parse.message(), "cannot parse src/lib.rs: expected item");
}

#[test]
fn lines_of_the_compiler_listing_are_flags() {
    match parse_flag("unix") {
        Some(Flag::Name(name)) => assert_eq!(name, "unix"),
        other => panic!("unexpected: {:?}", other),
    }
    match parse_flag("target_os=\"linux\"") {
        Some(Flag::KeyValue(key, value)) => {
            assert_eq!(key, "target_os");
            assert_eq!(value, "linux");
        }
        other => panic!("unexpected: {:?}", other),
    }
    match parse_flag("feature=\"a=b\"") {
        Some(Flag::KeyValue(key, value)) => {
            assert_eq!(key, "feature");
            assert_eq!(value, "a=b");
        }
        other => panic!("unexpected: {:?}", other),
    }
    match parse_flag("target_vendor=\"\"") {
        Some(Flag::KeyValue(key, value)) => {
            assert_eq!(key, "target_vendor");
            assert_eq!(value, "");
        }
        other => panic!("unexpected: {:?}", other),
    }
    assert!(parse_flag("").is_none());
    assert!(parse_flag("=\"x\"").is_none());
    assert!(parse_flag("key=value").is_none());
    assert!(parse_flag("key=\"").is_none());
    assert!(parse_flag("key=\"open").is_none());
    assert!(parse_flag("key=").is_none());
}

#[test]
fn summary_lists_exposed_and_failed_packages() {
    let report = |name: &str, status: ExposureStatus| PackageReport {
        package: id(name, "x"),
        status,
    };
    let reports = vec![
        report("clean", ExposureStatus::Counted(0)),
        report("risky", ExposureStatus::Counted(12)),
        report(
            "broken",
            ExposureStatus::ParseError(ParseError {
                path: "src/lib.rs".to_string(),
                reason: "expected item".to_string(),
            }),
        ),
    ];
    assert_eq!(
        summary(&reports, false),
        vec!["risky, 12", "broken, cannot parse src/lib.rs: expected item"]
    );
    assert_eq!(
        summary(&reports, true),
        vec!["clean, 0", "risky, 12", "broken, cannot parse src/lib.rs: expected item"]
    );
    assert!(summary(&vec![], true).is_empty());
}
