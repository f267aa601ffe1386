//! The ignore filter: which paths the walk leaves out.

use crate::model::has_name;
use crate::path::{label, Component, FsPath, Segment};
use crate::sorting::views;
use crate::text::{has_dot_prefix, starts_with_dot};
use vstd::prelude::*;

verus! {

/// The names that are ignored unless the defaults are switched off.
pub open spec fn default_ignores() -> Seq<Seq<char>> {
    seq!["target"@, "node_modules"@, "dist"@, "build"@, "vendor"@, "skills"@]
}

/// The ignore set: the caller's names, followed by the defaults unless they
/// are switched off.
pub open spec fn ignore_set(user: Seq<Seq<char>>, no_default_ignore: bool) -> Seq<Seq<char>> {
    if no_default_ignore {
        user
    } else {
        user + default_ignores()
    }
}

/// Builds the ignore set from the caller's names.
pub fn build_ignores(user: &Vec<String>, no_default_ignore: bool) -> (set: Vec<String>)
    ensures
        views(set@) == ignore_set(views(user@), no_default_ignore),
{
    let mut set: Vec<String> = crate::model::duplicate_names(user);
    if !no_default_ignore {
        let ghost u = views(user@);
        set.push(String::from_str("target"));
        set.push(String::from_str("node_modules"));
        set.push(String::from_str("dist"));
        set.push(String::from_str("build"));
        set.push(String::from_str("vendor"));
        set.push(String::from_str("skills"));
        assert(views(set@) =~= u + default_ignores());
    }
    set
}

/// The component is an ordinary name that begins with a dot or is a member
/// of the ignore set. The comparison is exact.
pub open spec fn segment_ignored(s: Segment, ignores: Seq<Seq<char>>) -> bool {
    s is Normal && (starts_with_dot(label(s)) || ignores.contains(label(s)))
}

/// The path is ignored: one of its components is.
pub open spec fn ignored(path: Seq<Segment>, ignores: Seq<Seq<char>>) -> bool {
    exists|i: int| 0 <= i < path.len() && segment_ignored(#[trigger] path[i], ignores)
}

/// Tells whether the walk leaves `path` out.
pub fn should_ignore(path: &FsPath, ignores: &Vec<String>) -> (b: bool)
    ensures
        b == ignored(path@, views(ignores@)),
{
    let mut i: usize = 0;
    while i < path.components.len()
        invariant
            i <= path.components.len(),
            forall|j: int| 0 <= j < i ==> !segment_ignored(#[trigger] path@[j], views(ignores@)),
        decreases path.components.len() - i,
    {
        match &path.components[i] {
            Component::Normal(name) => {
                if has_dot_prefix(name.as_str()) || has_name(ignores, name.as_str()) {
                    assert(segment_ignored(path@[i as int], views(ignores@)));
                    return true;
                }
            },
            _ => {},
        }
        i = i + 1;
    }
    false
}

/// A path with a component whose name begins with a dot is ignored under
/// every ignore set, with the defaults or without them.
pub proof fn lemma_dot_prefix_unconditional(
    path: Seq<Segment>,
    i: int,
    user: Seq<Seq<char>>,
    no_default_ignore: bool,
)
    requires
        0 <= i < path.len(),
        path[i] is Normal,
        starts_with_dot(label(path[i])),
    ensures
        ignored(path, ignore_set(user, no_default_ignore)),
{
    assert(segment_ignored(path[i], ignore_set(user, no_default_ignore)));
}

/// A path is ignored exactly if one of its leading parts is: once a
/// directory is ignored, so is everything below it.
pub proof fn lemma_ignored_below(base: Seq<Segment>, path: Seq<Segment>, ignores: Seq<Seq<char>>)
    requires
        crate::path::is_prefix_of(base, path),
        ignored(base, ignores),
    ensures
        ignored(path, ignores),
{
    let i = choose|i: int| 0 <= i < base.len() && segment_ignored(#[trigger] base[i], ignores);
    assert(path.subrange(0, base.len() as int)[i] == path[i]);
    assert(segment_ignored(path[i], ignores));
}

} // verus!
