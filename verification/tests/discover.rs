use moon_dst::discover::{discover_repos, find_repo_root, marker_candidates, marker_path};
use moon_dst::model::{MoonModInfo, RepoInfo};
use moon_dst::path::{Component, FsPath};
use moon_dst::plan::collect_deps;
use std::path::Path;

fn fs_path(text: &str) -> FsPath {
    let mut parts = Vec::new();
    for c in Path::new(text).components() {
        parts.push(match c {
            std::path::Component::Prefix(p) => {
                Component::Prefix(p.as_os_str().to_string_lossy().into_owned())
            }
            std::path::Component::RootDir => Component::RootDir,
            std::path::Component::CurDir => Component::CurDir,
            std::path::Component::ParentDir => Component::ParentDir,
            std::path::Component::Normal(n) => Component::Normal(n.to_string_lossy().into_owned()),
        });
    }
    FsPath::new(parts)
}

fn names(list: &[&str]) -> Vec<String> {
    list.iter().map(|s| s.to_string()).collect()
}

fn manifest(path: &str, deps: &[&str]) -> MoonModInfo {
    MoonModInfo { path: fs_path(path), deps: names(deps) }
}

#[test]
fn marker_is_dot_git() {
    assert_eq!(marker_path(&fs_path("/r/a")), fs_path("/r/a/.git"));
}

#[test]
fn candidates_go_from_the_manifest_directory_upwards() {
    assert_eq!(
        marker_candidates(&fs_path("/r/a/moon.mod.json")),
        vec![fs_path("/r/a"), fs_path("/r"), fs_path("/")]
    );
    assert_eq!(marker_candidates(&fs_path("moon.mod.json")), vec![fs_path("")]);
    assert_eq!(marker_candidates(&fs_path("/")), vec![fs_path("/")]);
}

#[test]
fn root_is_the_nearest_marked_directory() {
    let marked = vec![fs_path("/r"), fs_path("/r/sub")];
    assert_eq!(find_repo_root(&fs_path("/r/a/moon.mod.json"), &marked), fs_path("/r"));
    assert_eq!(find_repo_root(&fs_path("/r/sub/x/y/moon.mod.json"), &marked), fs_path("/r/sub"));
    assert_eq!(find_repo_root(&fs_path("/r/sub/moon.mod.json"), &marked), fs_path("/r/sub"));
    assert_eq!(find_repo_root(&fs_path("/r/moon.mod.json"), &marked), fs_path("/r"));
}

#[test]
fn without_a_marker_the_root_is_the_manifest_directory() {
    let marked = vec![fs_path("/other")];
    assert_eq!(find_repo_root(&fs_path("/r/a/moon.mod.json"), &marked), fs_path("/r/a"));
    assert_eq!(find_repo_root(&fs_path("/r/a/moon.mod.json"), &Vec::new()), fs_path("/r/a"));
    assert_eq!(find_repo_root(&fs_path("/"), &Vec::new()), fs_path("/"));
}

#[test]
fn a_marker_at_the_file_system_root_counts() {
    let marked = vec![fs_path("/")];
    assert_eq!(find_repo_root(&fs_path("/r/a/moon.mod.json"), &marked), fs_path("/"));
}

#[test]
fn empty_tree_has_no_repositories() {
    assert_eq!(discover_repos(Vec::new(), &Vec::new()), Vec::<RepoInfo>::new());
}

#[test]
fn two_manifests_one_repo() {
    let a = manifest("/root/a/moon.mod.json", &["x/core"]);
    let b = manifest("/root/b/moon.mod.json", &["x/core", "y/util"]);
    let marked = vec![fs_path("/root")];
    let repos = discover_repos(vec![a.clone(), b.clone()], &marked);
    assert_eq!(repos, vec![RepoInfo { root: fs_path("/root"), moon_mods: vec![a, b] }]);
    assert_eq!(collect_deps(&repos[0], &Vec::new()), names(&["x/core", "y/util"]));
}

#[test]
fn repositories_are_sorted_by_root_and_keep_discovery_order() {
    let m1 = manifest("/w/z/p/moon.mod.json", &[]);
    let m2 = manifest("/w/a/q/moon.mod.json", &[]);
    let m3 = manifest("/w/z/moon.mod.json", &[]);
    let m4 = manifest("/w/lone/moon.mod.json", &[]);
    let m5 = manifest("/w/a/moon.mod.json", &[]);
    let marked = vec![fs_path("/w/z"), fs_path("/w/a")];
    let repos =
        discover_repos(vec![m1.clone(), m2.clone(), m3.clone(), m4.clone(), m5.clone()], &marked);
    assert_eq!(
        repos,
        vec![
            RepoInfo { root: fs_path("/w/a"), moon_mods: vec![m2, m5] },
            RepoInfo { root: fs_path("/w/lone"), moon_mods: vec![m4] },
            RepoInfo { root: fs_path("/w/z"), moon_mods: vec![m1, m3] },
        ]
    );
}

#[test]
fn every_manifest_lies_in_exactly_one_repository() {
    let mods = vec![
        manifest("/w/a/moon.mod.json", &[]),
        manifest("/w/a/b/moon.mod.json", &[]),
        manifest("/w/c/moon.mod.json", &[]),
        manifest("/w/c/d/moon.mod.json", &[]),
    ];
    let marked = vec![fs_path("/w/a")];
    let repos = discover_repos(mods.clone(), &marked);
    for m in &mods {
        let holders = repos.iter().filter(|r| r.moon_mods.contains(m)).count();
        assert_eq!(holders, 1);
        let root = find_repo_root(&m.path, &marked);
        let home = repos.iter().find(|r| r.root == root).unwrap();
        assert!(home.moon_mods.contains(m));
        assert!(m.path.parent().unwrap().starts_with(&home.root));
    }
    assert_eq!(repos.len(), 3);
}
