use moon_dst::ignore::{build_ignores, should_ignore};
use moon_dst::path::{Component, FsPath};
use std::path::Path;

fn fs_path(text: &str) -> FsPath {
    let mut parts = Vec::new();
    for c in Path::new(text).components() {
        parts.push(match c {
            std::path::Component::Prefix(p) => {
                Component::Prefix(p.as_os_str().to_string_lossy().into_owned())
            }
            std::path::Component::RootDir => Component::RootDir,
            std::path::Component::CurDir => Component::CurDir,
            std::path::Component::ParentDir => Component::ParentDir,
            std::path::Component::Normal(n) => Component::Normal(n.to_string_lossy().into_owned()),
        });
    }
    FsPath::new(parts)
}

#[test]
fn test_should_ignore() {
    let ignores = vec![".git".to_string(), "node_modules".to_string()];

    assert!(should_ignore(&fs_path("/foo/.git/config"), &ignores));
    assert!(should_ignore(&fs_path("/foo/node_modules/bar"), &ignores));
    assert!(!should_ignore(&fs_path("/foo/src/main.rs"), &ignores));
}

#[test]
fn test_should_ignore_dotfiles() {
    let ignores = vec![];
    assert!(should_ignore(&fs_path("/foo/.mooncakes/bar"), &ignores));
    assert!(should_ignore(&fs_path("/foo/.git/config"), &ignores));
    assert!(should_ignore(&fs_path("/foo/.hidden"), &ignores));
    assert!(!should_ignore(&fs_path("/foo/src/main.rs"), &ignores));
}

#[test]
fn default_ignores_are_appended_unless_disabled() {
    let user = vec!["out".to_string()];
    assert_eq!(
        build_ignores(&user, false),
        vec!["out", "target", "node_modules", "dist", "build", "vendor", "skills"]
    );
    assert_eq!(build_ignores(&user, true), vec!["out"]);
}
