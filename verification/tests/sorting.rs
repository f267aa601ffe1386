use moon_dst::model::{duplicate_names, has_name, MoonModInfo};
use moon_dst::path::{Component, FsPath};
use moon_dst::sorting::{insert_ordered, sort_by_key};
use std::path::Path;

fn fs_path(text: &str) -> FsPath {
    let mut parts = Vec::new();
    for c in Path::new(text).components() {
        parts.push(match c {
            std::path::Component::Prefix(p) => {
                Component::Prefix(p.as_os_str().to_string_lossy().into_owned())
            }
            std::path::Component::RootDir => Component::RootDir,
            std::path::Component::CurDir => Component::CurDir,
            std::path::Component::ParentDir => Component::ParentDir,
            std::path::Component::Normal(n) => Component::Normal(n.to_string_lossy().into_owned()),
        });
    }
    FsPath::new(parts)
}

fn names(list: &[&str]) -> Vec<String> {
    list.iter().map(|s| s.to_string()).collect()
}

fn manifest(path: &str, tag: &str) -> MoonModInfo {
    MoonModInfo { path: fs_path(path), deps: names(&[tag]) }
}

#[test]
fn sort_orders_by_path_and_is_stable() {
    let input = vec![
        manifest("/c", "1"),
        manifest("/a/b", "2"),
        manifest("/a", "3"),
        manifest("/a/b", "4"),
        manifest("/a.b", "5"),
    ];
    assert_eq!(
        sort_by_key(input),
        vec![
            manifest("/a", "3"),
            manifest("/a/b", "2"),
            manifest("/a/b", "4"),
            manifest("/a.b", "5"),
            manifest("/c", "1"),
        ]
    );
    assert_eq!(sort_by_key(Vec::<MoonModInfo>::new()), Vec::new());
}

#[test]
fn insert_goes_behind_equal_keys() {
    let mut list = vec![manifest("/a", "1"), manifest("/b", "2"), manifest("/d", "3")];
    insert_ordered(&mut list, manifest("/b", "4"));
    insert_ordered(&mut list, manifest("/", "5"));
    insert_ordered(&mut list, manifest("/e", "6"));
    assert_eq!(
        list,
        vec![
            manifest("/", "5"),
            manifest("/a", "1"),
            manifest("/b", "2"),
            manifest("/b", "4"),
            manifest("/d", "3"),
            manifest("/e", "6"),
        ]
    );
}

#[test]
fn names_are_copied_and_found() {
    let list = names(&["a", "b"]);
    assert_eq!(duplicate_names(&list), list);
    assert!(has_name(&list, "b"));
    assert!(!has_name(&list, "B"));
    assert!(!has_name(&Vec::new(), "b"));
    assert_eq!(manifest("/a", "1").duplicate(), manifest("/a", "1"));
}
