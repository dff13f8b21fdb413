use cargo_danger::identity::PackageIdentity;
use cargo_danger::platform::{all_match, any_match, edge_passes, flag_is_active, Flag, Predicate};
use cargo_danger::text::{text_precedes, text_same};

fn kv(key: &str, value: &str) -> Flag {
    Flag::KeyValue(key.to_string(), value.to_string())
}

fn name(n: &str) -> Flag {
    Flag::Name(n.to_string())
}

#[test]
fn flag_predicate_needs_the_flag_to_be_active() {
    let windows = Predicate::Flag(kv("target_os", "windows"));
    assert!(!windows.matches("x86_64-unknown-linux-gnu", &vec![kv("target_os", "linux")]));
    assert!(windows.matches("x86_64-pc-windows-msvc", &vec![name("windows"), kv("target_os", "windows")]));
    assert!(!windows.matches("any", &vec![]));
}

#[test]
fn name_and_key_value_flags_differ() {
    assert!(!name("unix").same(&kv("unix", "")));
    assert!(name("unix").same(&name("unix")));
    assert!(kv("a", "b").same(&kv("a", "b")));
    assert!(!kv("a", "b").same(&kv("a", "c")));
    assert!(flag_is_active(&vec![name("unix"), kv("a", "b")], &kv("a", "b")));
    assert!(!flag_is_active(&vec![name("unix"), kv("a", "b")], &name("a")));
}

#[test]
fn target_predicate_names_one_triple() {
    let p = Predicate::Target("wasm32-unknown-unknown".to_string());
    assert!(p.matches("wasm32-unknown-unknown", &vec![]));
    assert!(!p.matches("wasm32-unknown-unknown2", &vec![]));
    assert!(!p.matches("", &vec![]));
}

#[test]
fn not_all_any() {
    let unix = || Predicate::Flag(name("unix"));
    let linux = || Predicate::Flag(kv("target_os", "linux"));
    let flags = vec![name("unix"), kv("target_os", "macos")];
    assert!(!Predicate::Not(Box::new(unix())).matches("t", &flags));
    assert!(Predicate::Not(Box::new(linux())).matches("t", &flags));
    assert!(!Predicate::All(vec![unix(), linux()]).matches("t", &flags));
    assert!(Predicate::Any(vec![linux(), unix()]).matches("t", &flags));
    assert!(Predicate::All(vec![]).matches("t", &flags));
    assert!(!Predicate::Any(vec![]).matches("t", &flags));
    assert!(all_match(&vec![unix(), Predicate::Not(Box::new(linux()))], "t", &flags));
    assert!(!any_match(&vec![linux(), Predicate::Not(Box::new(unix()))], "t", &flags));
}

#[test]
fn edges_without_predicate_or_without_target_always_pass() {
    let windows = Some(Predicate::Flag(kv("target_os", "windows")));
    let flags = vec![kv("target_os", "linux")];
    assert!(edge_passes(&None, Some("linux"), &flags));
    assert!(edge_passes(&windows, None, &flags));
    assert!(!edge_passes(&windows, Some("linux"), &flags));
}

#[test]
fn order_of_texts() {
    assert!(text_precedes("", "a"));
    assert!(!text_precedes("", ""));
    assert!(!text_precedes("a", ""));
    assert!(text_precedes("a", "ab"));
    assert!(text_precedes("ab", "b"));
    assert!(text_precedes("10.0", "2.0"));
    assert!(!text_precedes("b", "ab"));
    assert!(text_precedes("z", "\u{e9}"));
    assert!(text_precedes("\u{e9}", "\u{4e2d}"));
    assert!(text_same("caf\u{e9}", "caf\u{e9}"));
    assert!(!text_same("cafe", "caf\u{e9}"));
    assert!(!text_same("a", "ab"));
}

#[test]
fn order_of_identities() {
    let a = PackageIdentity::new("a", "2.0", "x");
    let b = PackageIdentity::new("b", "1.0", "x");
    let a1 = PackageIdentity::new("a", "1.0", "y");
    let a1x = PackageIdentity::new("a", "1.0", "x");
    assert!(a.precedes(&b));
    assert!(!b.precedes(&a));
    assert!(a1.precedes(&a));
    assert!(a1x.precedes(&a1));
    assert!(!a.precedes(&a));
    assert!(a.same(&a.clone()));
    assert!(!a.same(&a1));
    assert_eq!(a, a.clone());
    assert_ne!(a1, a1x);
}
