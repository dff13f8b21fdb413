use std::str::FromStr;

use cargo_danger::identity::PackageIdentity;
use cargo_danger::platform::{Flag, Predicate};
use cargo_danger::text::{text_precedes, text_same};
use cargo_platform::{Cfg, CfgExpr, Platform};

fn flag_of(cfg: &Cfg) -> Flag {
    match cfg {
        Cfg::Name(name) => Flag::Name(name.name.clone()),
        Cfg::KeyPair(key, value) => Flag::KeyValue(key.name.clone(), value.clone()),
    }
}

fn expression_of(expression: &CfgExpr) -> Predicate {
    match expression {
        CfgExpr::Not(inner) => Predicate::Not(Box::new(expression_of(inner))),
        CfgExpr::All(parts) => Predicate::All(parts.iter().map(expression_of).collect()),
        CfgExpr::Any(parts) => Predicate::Any(parts.iter().map(expression_of).collect()),
        CfgExpr::Value(cfg) => Predicate::Flag(flag_of(cfg)),
        CfgExpr::True => Predicate::All(Vec::new()),
        CfgExpr::False => Predicate::Any(Vec::new()),
    }
}

fn predicate_of(platform: &Platform) -> Predicate {
    match platform {
        Platform::Name(name) => Predicate::Target(name.clone()),
        Platform::Cfg(expression) => expression_of(expression),
    }
}

#[test]
fn predicates_hold_where_the_package_manager_says_so() {
    let platforms = [
        "cfg(unix)",
        "cfg(windows)",
        "cfg(target_os = \"linux\")",
        "cfg(target_os = \"windows\")",
        "cfg(not(unix))",
        "cfg(not(target_os = \"windows\"))",
        "cfg(all(unix, target_os = \"linux\"))",
        "cfg(all(unix, target_os = \"macos\"))",
        "cfg(any(windows, target_os = \"linux\"))",
        "cfg(any(windows, target_os = \"macos\"))",
        "cfg(all())",
        "cfg(any())",
        "cfg(all(not(windows), any(target_arch = \"x86_64\", target_arch = \"aarch64\")))",
        "cfg(not(any(unix, windows)))",
        "cfg(target_feature = \"sse2\")",
        "x86_64-unknown-linux-gnu",
        "x86_64-pc-windows-msvc",
        "wasm32-unknown-unknown",
    ];
    let settings: Vec<(&str, Vec<&str>)> = vec![
        (
            "x86_64-unknown-linux-gnu",
            vec!["unix", "target_os = \"linux\"", "target_arch = \"x86_64\"", "target_feature = \"sse2\""],
        ),
        ("x86_64-pc-windows-msvc", vec!["windows", "target_os = \"windows\"", "target_arch = \"x86_64\""]),
        ("aarch64-apple-darwin", vec!["unix", "target_os = \"macos\"", "target_arch = \"aarch64\""]),
        ("wasm32-unknown-unknown", vec![]),
    ];
    for text in platforms {
        let platform = Platform::from_str(text).unwrap();
        let predicate = predicate_of(&platform);
        for (target, active) in &settings {
            let cfgs: Vec<Cfg> = active.iter().map(|c| Cfg::from_str(c).unwrap()).collect();
            let flags: Vec<Flag> = cfgs.iter().map(flag_of).collect();
            assert_eq!(
                predicate.matches(target, &flags),
                platform.matches(target, &cfgs),
                "{} on {}",
                text,
                target
            );
        }
    }
}

#[test]
fn order_of_texts_is_the_order_of_strings() {
    let texts = [
        "", "a", "ab", "abc", "b", "B", "0", "10.0", "2.0", "1.0.0", "1.0.0-alpha", "z",
        "\u{e9}", "e\u{301}", "\u{4e2d}\u{6587}", "\u{1f600}", "\u{ffff}", "\u{10000}", "left-pad",
        "left_pad",
    ];
    for a in texts {
        for b in texts {
            assert_eq!(text_precedes(a, b), a < b, "{:?} < {:?}", a, b);
            assert_eq!(text_same(a, b), a == b, "{:?} == {:?}", a, b);
        }
    }
}

#[test]
fn order_of_identities_is_the_order_of_their_parts() {
    let parts = ["", "a", "b", "1.0", "10.0", "2.0"];
    let mut all = Vec::new();
    for name in parts {
        for version in parts {
            for source in ["", "x", "y"] {
                all.push(PackageIdentity::new(name, version, source));
            }
        }
    }
    for a in &all {
        for b in &all {
            let expected = (&a.name, &a.version, &a.source) < (&b.name, &b.version, &b.source);
            assert_eq!(a.precedes(b), expected);
            assert_eq!(a.same(b), (&a.name, &a.version, &a.source) == (&b.name, &b.version, &b.source));
        }
    }
}
