//! The manifest scanner: what the walk does with each entry it meets, and
//! the manifests it has found so far.

use crate::ignore::{ignored, should_ignore};
use crate::manifest::{manifest_name, parse_moon_mod, sorted_unique, strictly_sorted};
use crate::model::{duplicate_names, ManifestView, MoonModInfo};
use crate::path::{leaf_name, FsPath, Segment};
use crate::sorting::views;
use crate::text::same_text;
use vstd::prelude::*;

verus! {

/// What the walk does with an entry.
#[derive(Clone, Copy, Debug, PartialEq, Eq, Structural)]
pub enum Visit {
    /// Leave the entry out and, where it is a directory, do not descend
    /// into it.
    Prune,
    /// The entry is a manifest: read it.
    Read,
    /// Nothing to read here; a directory is descended into.
    Pass,
}

/// The entry is a file named as a manifest is.
pub open spec fn is_manifest_file(path: Seq<Segment>, is_file: bool) -> bool {
    is_file && leaf_name(path) == Some(manifest_name())
}

/// What the walk does with the entry at `path`: an ignored path is pruned, a
/// manifest is read, anything else is passed.
pub open spec fn visit_of(path: Seq<Segment>, is_file: bool, ignores: Seq<Seq<char>>) -> Visit {
    if ignored(path, ignores) {
        Visit::Prune
    } else if is_manifest_file(path, is_file) {
        Visit::Read
    } else {
        Visit::Pass
    }
}

/// Decides what the walk does with the entry at `path`.
pub fn classify(path: &FsPath, is_file: bool, ignores: &Vec<String>) -> (v: Visit)
    ensures
        v == visit_of(path@, is_file, views(ignores@)),
{
    if should_ignore(path, ignores) {
        return Visit::Prune;
    }
    if !is_file {
        return Visit::Pass;
    }
    match path.file_name() {
        Some(name) => {
            if same_text(name, "moon.mod.json") {
                Visit::Read
            } else {
                Visit::Pass
            }
        },
        None => Visit::Pass,
    }
}

/// A manifest that could not be read or decoded.
#[derive(Clone, Debug, PartialEq, Eq)]
pub struct ParseWarning {
    pub path: FsPath,
    pub message: String,
}

impl View for ParseWarning {
    type V = (Seq<Segment>, Seq<char>);

    open spec fn view(&self) -> (Seq<Segment>, Seq<char>) {
        (self.path@, self.message@)
    }
}

/// What became of a manifest that was handed in.
#[derive(Clone, Copy, Debug, PartialEq, Eq, Structural)]
pub enum Recorded {
    /// It is among the manifests found.
    Found,
    /// It could not be read or decoded: a warning stands for it.
    Warned,
    /// Its path is ignored or does not name a manifest: nothing was
    /// recorded.
    Rejected,
}

/// The mathematical value of a [`Scanner`].
pub struct ScanView {
    pub ignores: Seq<Seq<char>>,
    /// The manifests found, in the order of discovery.
    pub manifests: Seq<ManifestView>,
    pub warnings: Seq<(Seq<Segment>, Seq<char>)>,
}

/// The keys of a decoded manifest, or the failure message.
pub open spec fn parsed_view(parsed: Result<Vec<String>, String>) -> Result<
    Seq<Seq<char>>,
    Seq<char>,
> {
    match parsed {
        Ok(keys) => Ok(views(keys@)),
        Err(m) => Err(m@),
    }
}

/// The state after the file at `path` was handed in with what reading and
/// decoding it gave. A decoded manifest joins the manifests found, with its
/// keys as a sorted list without repeats; a failure leaves a warning and no
/// manifest. A path that the walk would not read changes nothing.
pub open spec fn recorded(
    v: ScanView,
    path: Seq<Segment>,
    parsed: Result<Seq<Seq<char>>, Seq<char>>,
) -> ScanView {
    if visit_of(path, true, v.ignores) != Visit::Read {
        v
    } else {
        match parsed {
            Ok(keys) => ScanView {
                manifests: v.manifests.push(ManifestView { path, deps: sorted_unique(keys) }),
                ..v
            },
            Err(m) => ScanView { warnings: v.warnings.push((path, m)), ..v },
        }
    }
}

/// What `record` answers.
pub open spec fn recorded_as(
    v: ScanView,
    path: Seq<Segment>,
    parsed: Result<Seq<Seq<char>>, Seq<char>>,
) -> Recorded {
    if visit_of(path, true, v.ignores) != Visit::Read {
        Recorded::Rejected
    } else if parsed is Ok {
        Recorded::Found
    } else {
        Recorded::Warned
    }
}

/// What holds of every manifest found: its path is not ignored, its file
/// is named as a manifest is, and its dependency names strictly ascend.
pub open spec fn discovered(m: ManifestView, ignores: Seq<Seq<char>>) -> bool {
    &&& !ignored(m.path, ignores)
    &&& leaf_name(m.path) == Some(manifest_name())
    &&& strictly_sorted(m.deps)
}

/// What holds of every state a scanner can reach.
pub open spec fn sound(v: ScanView) -> bool {
    forall|i: int| 0 <= i < v.manifests.len() ==> discovered(#[trigger] v.manifests[i], v.ignores)
}

/// Handing in a file leads from a reachable state to a reachable state.
pub proof fn lemma_recorded_sound(
    v: ScanView,
    path: Seq<Segment>,
    parsed: Result<Seq<Seq<char>>, Seq<char>>,
)
    requires
        sound(v),
    ensures
        sound(recorded(v, path, parsed)),
        recorded(v, path, parsed).ignores == v.ignores,
{
    if visit_of(path, true, v.ignores) == Visit::Read && parsed is Ok {
        crate::manifest::lemma_sorted_unique(parsed->Ok_0);
    }
}

/// A path with a component whose name begins with a dot is never among the
/// manifests found, whatever the caller's ignore names and with the default
/// names or without them.
pub proof fn lemma_hidden_never_discovered(
    v: ScanView,
    user: Seq<Seq<char>>,
    no_default_ignore: bool,
    k: int,
    i: int,
)
    requires
        sound(v),
        v.ignores == crate::ignore::ignore_set(user, no_default_ignore),
        0 <= k < v.manifests.len(),
        0 <= i < v.manifests[k].path.len(),
        v.manifests[k].path[i] is Normal,
    ensures
        !crate::text::starts_with_dot(crate::path::label(v.manifests[k].path[i])),
{
    if crate::text::starts_with_dot(crate::path::label(v.manifests[k].path[i])) {
        crate::ignore::lemma_dot_prefix_unconditional(
            v.manifests[k].path,
            i,
            user,
            no_default_ignore,
        );
    }
}

/// The manifests and warnings of a scan in progress.
pub struct Scanner {
    ignores: Vec<String>,
    manifests: Vec<MoonModInfo>,
    warnings: Vec<ParseWarning>,
}

impl View for Scanner {
    type V = ScanView;

    closed spec fn view(&self) -> ScanView {
        ScanView {
            ignores: views(self.ignores@),
            manifests: views(self.manifests@),
            warnings: views(self.warnings@),
        }
    }
}

impl Scanner {
    /// The scanner is in a reachable state.
    pub open spec fn wf(&self) -> bool {
        sound(self@)
    }

    /// A scanner that has found nothing yet.
    pub fn new(ignores: &Vec<String>) -> (s: Scanner)
        ensures
            s.wf(),
            s@ == (ScanView {
                ignores: views(ignores@),
                manifests: Seq::empty(),
                warnings: Seq::empty(),
            }),
    {
        let s = Scanner {
            ignores: duplicate_names(ignores),
            manifests: Vec::new(),
            warnings: Vec::new(),
        };
        assert(s@.manifests =~= Seq::empty());
        assert(s@.warnings =~= Seq::empty());
        s
    }

    /// Decides what the walk does with the entry at `path`.
    pub fn visit(&self, path: &FsPath, is_file: bool) -> (v: Visit)
        ensures
            v == visit_of(path@, is_file, self@.ignores),
    {
        classify(path, is_file, &self.ignores)
    }

    /// Takes in the file at `path` with what reading and decoding it gave:
    /// the keys of its `deps` object, or the failure.
    pub fn record(&mut self, path: FsPath, parsed: Result<Vec<String>, String>) -> (r: Recorded)
        requires
            old(self).wf(),
        ensures
            final(self).wf(),
            final(self)@ == recorded(old(self)@, path@, parsed_view(parsed)),
            r == recorded_as(old(self)@, path@, parsed_view(parsed)),
    {
        proof {
            lemma_recorded_sound(self@, path@, parsed_view(parsed));
        }
        match classify(&path, true, &self.ignores) {
            Visit::Read => {},
            _ => {
                return Recorded::Rejected;
            },
        }
        match parsed {
            Ok(keys) => {
                let ghost before = self@.manifests;
                let deps = parse_moon_mod(keys);
                let m = MoonModInfo { path, deps };
                self.manifests.push(m);
                assert(self@.manifests =~= before.push(m@));
                Recorded::Found
            },
            Err(message) => {
                let ghost before = self@.warnings;
                let w = ParseWarning { path, message };
                self.warnings.push(w);
                assert(self@.warnings =~= before.push(w@));
                Recorded::Warned
            },
        }
    }

    /// Ends the scan: the manifests found, in the order of discovery, and
    /// the warnings. No manifest found lies on an ignored path.
    pub fn find_moon_mods(self) -> (found: (Vec<MoonModInfo>, Vec<ParseWarning>))
        requires
            self.wf(),
        ensures
            views(found.0@) == self@.manifests,
            views(found.1@) == self@.warnings,
            forall|i: int|
                0 <= i < found.0@.len() ==> discovered((#[trigger] found.0@[i])@, self@.ignores),
    {
        assert forall|i: int| 0 <= i < self.manifests@.len() implies discovered(
            (#[trigger] self.manifests@[i])@,
            self@.ignores,
        ) by {
            assert(self@.manifests[i] == self.manifests@[i]@);
        }
        (self.manifests, self.warnings)
    }
}

} // verus!
