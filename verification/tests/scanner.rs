use moon_dst::ignore::build_ignores;
use moon_dst::model::MoonModInfo;
use moon_dst::path::{Component, FsPath};
use moon_dst::scanner::{classify, ParseWarning, Recorded, Scanner, Visit};
use std::path::Path;

fn fs_path(text: &str) -> FsPath {
    let mut parts = Vec::new();
    for c in Path::new(text).components() {
        parts.push(match c {
            std::path::Component::Prefix(p) => {
                Component::Prefix(p.as_os_str().to_string_lossy().into_owned())
            }
            std::path::Component::RootDir => Component::RootDir,
            std::path::Component::CurDir => Component::CurDir,
            std::path::Component::ParentDir => Component::ParentDir,
            std::path::Component::Normal(n) => Component::Normal(n.to_string_lossy().into_owned()),
        });
    }
    FsPath::new(parts)
}

fn names(list: &[&str]) -> Vec<String> {
    list.iter().map(|s| s.to_string()).collect()
}

#[test]
fn entries_are_classified() {
    let ignores = build_ignores(&Vec::new(), false);
    assert_eq!(classify(&fs_path("/r/a/moon.mod.json"), true, &ignores), Visit::Read);
    assert_eq!(classify(&fs_path("/r/a/moon.mod.json"), false, &ignores), Visit::Pass);
    assert_eq!(classify(&fs_path("/r/a/moon.pkg.json"), true, &ignores), Visit::Pass);
    assert_eq!(classify(&fs_path("/r/a"), false, &ignores), Visit::Pass);
    assert_eq!(classify(&fs_path("/r/target"), false, &ignores), Visit::Prune);
    assert_eq!(classify(&fs_path("/r/target/moon.mod.json"), true, &ignores), Visit::Prune);
    assert_eq!(classify(&fs_path("/r/.git"), false, &ignores), Visit::Prune);
    assert_eq!(classify(&fs_path("/r/Target/moon.mod.json"), true, &ignores), Visit::Read);
}

#[test]
fn default_names_can_be_switched_off() {
    let ignores = build_ignores(&Vec::new(), true);
    assert_eq!(classify(&fs_path("/r/target/moon.mod.json"), true, &ignores), Visit::Read);
    assert_eq!(classify(&fs_path("/r/vendor"), false, &ignores), Visit::Pass);
}

#[test]
fn dot_folder_is_skipped_without_defaults() {
    let ignores = build_ignores(&names(&[""]), true);
    let path = fs_path("/root/.cache/moon.mod.json");
    assert_eq!(classify(&fs_path("/root/.cache"), false, &ignores), Visit::Prune);
    assert_eq!(classify(&path, true, &ignores), Visit::Prune);

    let mut scanner = Scanner::new(&ignores);
    assert_eq!(scanner.visit(&path, true), Visit::Prune);
    assert_eq!(scanner.record(path, Ok(names(&["x/core"]))), Recorded::Rejected);
    let (found, warnings) = scanner.find_moon_mods();
    assert!(found.is_empty());
    assert!(warnings.is_empty());
}

#[test]
fn hidden_path_is_never_discovered() {
    for no_default in [false, true] {
        let ignores = build_ignores(&Vec::new(), no_default);
        let mut scanner = Scanner::new(&ignores);
        let path = fs_path("/x/.hidden/moon.mod.json");
        assert_eq!(scanner.record(path, Ok(Vec::new())), Recorded::Rejected);
        assert!(scanner.find_moon_mods().0.is_empty());
    }
}

#[test]
fn manifests_are_found_in_discovery_order() {
    let ignores = build_ignores(&Vec::new(), false);
    let mut scanner = Scanner::new(&ignores);
    let b = fs_path("/r/b/moon.mod.json");
    let a = fs_path("/r/a/moon.mod.json");
    assert_eq!(scanner.record(b.clone(), Ok(names(&["y/util", "x/core"]))), Recorded::Found);
    assert_eq!(scanner.record(a.clone(), Ok(names(&["x/core"]))), Recorded::Found);
    let (found, warnings) = scanner.find_moon_mods();
    assert_eq!(
        found,
        vec![
            MoonModInfo { path: b, deps: names(&["x/core", "y/util"]) },
            MoonModInfo { path: a, deps: names(&["x/core"]) },
        ]
    );
    assert!(warnings.is_empty());
}

#[test]
fn parse_failure_is_a_warning_and_no_manifest() {
    let ignores = build_ignores(&Vec::new(), false);
    let mut scanner = Scanner::new(&ignores);
    let bad = fs_path("/r/bad/moon.mod.json");
    let good = fs_path("/r/good/moon.mod.json");
    assert_eq!(
        scanner.record(bad.clone(), Err("expected value at line 1".to_string())),
        Recorded::Warned
    );
    assert_eq!(scanner.record(good.clone(), Ok(Vec::new())), Recorded::Found);
    let (found, warnings) = scanner.find_moon_mods();
    assert_eq!(found, vec![MoonModInfo { path: good, deps: Vec::new() }]);
    assert_eq!(
        warnings,
        vec![ParseWarning { path: bad, message: "expected value at line 1".to_string() }]
    );
}

#[test]
fn a_file_under_another_name_is_rejected() {
    let ignores = build_ignores(&Vec::new(), false);
    let mut scanner = Scanner::new(&ignores);
    assert_eq!(scanner.record(fs_path("/r/a/moon.pkg.json"), Ok(Vec::new())), Recorded::Rejected);
    assert_eq!(scanner.record(fs_path("/"), Ok(Vec::new())), Recorded::Rejected);
    assert!(scanner.find_moon_mods().0.is_empty());
}

#[test]
fn no_discovered_manifest_is_ignored() {
    let ignores = build_ignores(&names(&["gen"]), false);
    let mut scanner = Scanner::new(&ignores);
    for text in [
        "/r/a/moon.mod.json",
        "/r/gen/moon.mod.json",
        "/r/node_modules/p/moon.mod.json",
        "/r/.mooncakes/p/moon.mod.json",
        "/r/b/c/moon.mod.json",
    ] {
        scanner.record(fs_path(text), Ok(Vec::new()));
    }
    let (found, _) = scanner.find_moon_mods();
    assert_eq!(found.len(), 2);
    for m in &found {
        assert!(!moon_dst::ignore::should_ignore(&m.path, &ignores));
    }
}
