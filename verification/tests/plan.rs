use moon_dst::model::{MoonModInfo, RepoInfo};
use moon_dst::path::{Component, FsPath};
use moon_dst::plan::{collect_deps, is_selected};
use std::path::Path;

fn fs_path(text: &str) -> FsPath {
    let mut parts = Vec::new();
    for c in Path::new(text).components() {
        parts.push(match c {
            std::path::Component::Prefix(p) => {
                Component::Prefix(p.as_os_str().to_string_lossy().into_owned())
            }
            std::path::Component::RootDir => Component::RootDir,
            std::path::Component::CurDir => Component::CurDir,
            std::path::Component::ParentDir => Component::ParentDir,
            std::path::Component::Normal(n) => Component::Normal(n.to_string_lossy().into_owned()),
        });
    }
    FsPath::new(parts)
}

fn names(list: &[&str]) -> Vec<String> {
    list.iter().map(|s| s.to_string()).collect()
}

fn repo() -> RepoInfo {
    RepoInfo {
        root: fs_path("/root"),
        moon_mods: vec![
            MoonModInfo { path: fs_path("/root/b/moon.mod.json"), deps: names(&["x/core", "y/util"]) },
            MoonModInfo { path: fs_path("/root/a/moon.mod.json"), deps: names(&["z/last", "x/core"]) },
        ],
    }
}

#[test]
fn empty_filter_selects_everything() {
    assert!(is_selected("x/core", &Vec::new()));
    assert!(is_selected("", &Vec::new()));
}

#[test]
fn filter_is_a_case_sensitive_substring_match() {
    let filter = names(&["core", "uti"]);
    assert!(is_selected("x/core", &filter));
    assert!(is_selected("y/util", &filter));
    assert!(!is_selected("x/Core", &filter));
    assert!(!is_selected("z/last", &filter));
    assert!(!is_selected("cor", &filter));
}

#[test]
fn dependencies_are_taken_once_in_order_of_manifest_path() {
    // the manifest under a/ comes first although it was discovered second
    assert_eq!(collect_deps(&repo(), &Vec::new()), names(&["z/last", "x/core", "y/util"]));
}

#[test]
fn filter_keeps_matching_names_only() {
    assert_eq!(collect_deps(&repo(), &names(&["core"])), names(&["x/core"]));
    assert_eq!(collect_deps(&repo(), &names(&["util", "last"])), names(&["z/last", "y/util"]));
    assert_eq!(collect_deps(&repo(), &names(&["nothing"])), Vec::<String>::new());
}

#[test]
fn repository_without_dependencies_plans_nothing() {
    let empty = RepoInfo {
        root: fs_path("/root"),
        moon_mods: vec![MoonModInfo { path: fs_path("/root/moon.mod.json"), deps: Vec::new() }],
    };
    assert_eq!(collect_deps(&empty, &Vec::new()), Vec::<String>::new());
}
