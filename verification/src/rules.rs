//! Which directory is the root of a marker's project, as a function of the file system.
//!
//! From the marker's directory the ancestors are examined one by one, nearest
//! first. What makes an ancestor the root depends on the marker's category;
//! a `.git` directory makes it the root for every category.

use vstd::prelude::*;
use crate::cache::CachesModel;
use crate::errors::ErrorModel;
use crate::marker::MarkerModel;
use crate::path::PathModel;
use crate::probe::FileSystem;
use crate::resolver::{ResolutionModel, Stage};
use crate::workspace::{
    cargo_workspace_pattern, check_on_track, is_workspace_root, verdicts_agree, workspace_scan,
};

verus! {

/// What the examination of one directory finds.
pub enum Finding {
    /// The directory is the root.
    Root,
    /// The directory is not the root. With `carries`, it holds a build file of
    /// the marker's name.
    Pass { carries: bool },
}

/// What `.git` says of `dir`.
pub open spec fn git_finding(fs: FileSystem, dir: PathModel, carries: bool) -> Result<
    Finding,
    ErrorModel,
> {
    match fs.has_dir(dir.join(".git"@)) {
        Err(e) => Err(e),
        Ok(true) => Ok(Finding::Root),
        Ok(false) => Ok(Finding::Pass { carries }),
    }
}

/// Whether `dir` holds a Cargo manifest that declares a workspace. With
/// `matching`, the manifest is known to exist.
pub open spec fn cargo_scan(fs: FileSystem, dir: PathModel, matching: bool) -> Result<
    bool,
    ErrorModel,
> {
    let manifest = dir.join("Cargo.toml"@);
    if matching {
        fs.content_matches(manifest, cargo_workspace_pattern())
    } else {
        match fs.has_entry(manifest) {
            Err(e) => Err(e),
            Ok(false) => Ok(false),
            Ok(true) => fs.content_matches(manifest, cargo_workspace_pattern()),
        }
    }
}

/// A directory that declares a workspace is the root; another is the root if
/// it holds `.git`.
pub open spec fn after_scan(fs: FileSystem, dir: PathModel, scan: Result<bool, ErrorModel>) -> Result<
    Finding,
    ErrorModel,
> {
    match scan {
        Err(e) => Err(e),
        Ok(true) => Ok(Finding::Root),
        Ok(false) => git_finding(fs, dir, false),
    }
}

/// What the examination of `dir` finds when it goes on from `stage`.
pub open spec fn examine_from(fs: FileSystem, marker: MarkerModel, dir: PathModel, stage: Stage) -> Result<
    Finding,
    ErrorModel,
> {
    match stage {
        Stage::Workspace { rule, matching } => after_scan(
            fs,
            dir,
            workspace_scan(fs, dir, rule as int, matching),
        ),
        Stage::Cargo { matching } => after_scan(fs, dir, cargo_scan(fs, dir, matching)),
        Stage::Build => match fs.has_entry(dir.join(marker.name())) {
            Err(e) => Err(e),
            Ok(has) => git_finding(fs, dir, has),
        },
        Stage::Git { carries } => git_finding(fs, dir, carries),
    }
}

/// Where the examination of a directory begins for a marker of this category.
pub open spec fn first_stage(marker: MarkerModel) -> Stage {
    match marker {
        MarkerModel::PackageJson | MarkerModel::DenoJson => Stage::Workspace {
            rule: 0,
            matching: false,
        },
        MarkerModel::CargoToml => Stage::Cargo { matching: false },
        MarkerModel::BuildFile(_) => Stage::Build,
        MarkerModel::OtherConfig(_) => Stage::Git { carries: false },
    }
}

/// What the examination of `dir` finds for a marker of category `marker`:
/// - a package or Deno manifest: the root is a workspace root, or else holds `.git`;
/// - a Cargo manifest: the root holds a Cargo manifest that declares a
///   workspace, or else holds `.git`;
/// - a build file or any other marker: the root holds `.git`.
pub open spec fn examine(fs: FileSystem, marker: MarkerModel, dir: PathModel) -> Result<
    Finding,
    ErrorModel,
> {
    examine_from(fs, marker, dir, first_stage(marker))
}

/// The root that the climb above `current` reaches: the nearest ancestor that
/// is found to be the root. Where there is none, the highest ancestor examined
/// that carries the build file, and `fallback` if there is none of those either.
/// The empty path is not examined, nor anything above `/`.
pub open spec fn climb(fs: FileSystem, marker: MarkerModel, current: PathModel, fallback: PathModel) -> Result<
    PathModel,
    ErrorModel,
>
    decreases current.parts.len(),
{
    match current.parent() {
        None => Ok(fallback),
        Some(up) => if up.is_empty() {
            Ok(fallback)
        } else {
            match examine(fs, marker, up) {
                Err(e) => Err(e),
                Ok(Finding::Root) => Ok(up),
                Ok(Finding::Pass { carries }) => climb(
                    fs,
                    marker,
                    up,
                    if carries {
                        up
                    } else {
                        fallback
                    },
                ),
            }
        },
    }
}

/// The root of the project that a marker of category `marker` in `dir` belongs to.
pub open spec fn resolve(fs: FileSystem, marker: MarkerModel, dir: PathModel) -> Result<
    PathModel,
    ErrorModel,
> {
    climb(fs, marker, dir, dir)
}

/// `up` is an ancestor of `dir` that the climb from `dir` examines: a proper
/// ancestor, and not the empty path.
pub open spec fn examined(dir: PathModel, up: PathModel) -> bool {
    &&& up.absolute == dir.absolute
    &&& up.parts.is_prefix_of(dir.parts)
    &&& up.parts.len() < dir.parts.len()
    &&& !up.is_empty()
}

/// `dir` holds an entry called `name`.
pub open spec fn carries(fs: FileSystem, dir: PathModel, name: Seq<char>) -> bool {
    fs.has_entry(dir.join(name)) == Ok::<bool, ErrorModel>(true)
}

/// No examined ancestor of `dir` holds `.git`, and each of them can be asked for `name`.
pub open spec fn no_git_above(fs: FileSystem, name: Seq<char>, dir: PathModel) -> bool {
    forall|up: PathModel| #[trigger]
        examined(dir, up) ==> fs.has_dir(up.join(".git"@)) == Ok::<bool, ErrorModel>(false)
            && fs.has_entry(up.join(name)) is Ok
}

/// Some examined ancestor of `dir` holds an entry called `name`.
pub open spec fn carried_above(fs: FileSystem, name: Seq<char>, dir: PathModel) -> bool {
    exists|up: PathModel| #[trigger] examined(dir, up) && carries(fs, up, name)
}

/// `root` is the highest examined ancestor of `dir` that holds an entry called `name`.
pub open spec fn topmost_carrier(fs: FileSystem, name: Seq<char>, dir: PathModel, root: PathModel) -> bool {
    &&& examined(dir, root)
    &&& carries(fs, root, name)
    &&& forall|up: PathModel| #[trigger]
        examined(dir, up) && carries(fs, up, name) ==> root.parts.len() <= up.parts.len()
}

/// The ancestors that the climb from `dir` examines are its parent and those
/// that the climb from the parent examines.
pub proof fn lemma_examined_above(dir: PathModel, up: PathModel, other: PathModel)
    requires
        dir.parent() == Some(up),
    ensures
        examined(dir, other) <==> (other == up && !up.is_empty()) || examined(up, other),
{
    let n = dir.parts.len();
    assert(up.parts == dir.parts.drop_last());
    if examined(dir, other) {
        if other.parts.len() == n - 1 {
            assert(other.parts =~= up.parts);
        } else {
            assert(other.parts =~= up.parts.subrange(0, other.parts.len() as int));
        }
    }
    if examined(up, other) {
        assert(other.parts =~= dir.parts.subrange(0, other.parts.len() as int));
    }
    if other == up {
        assert(up.parts =~= dir.parts.subrange(0, up.parts.len() as int));
    }
}

/// A climb ends at the root it falls back on or at an ancestor that it examined.
pub proof fn lemma_climb_above(
    fs: FileSystem,
    marker: MarkerModel,
    current: PathModel,
    fallback: PathModel,
)
    ensures
        climb(fs, marker, current, fallback) matches Ok(root) ==> root == fallback || examined(
            current,
            root,
        ),
    decreases current.parts.len(),
{
    match current.parent() {
        None => {},
        Some(up) => {
            if !up.is_empty() {
                lemma_examined_above(current, up, up);
                match examine(fs, marker, up) {
                    Ok(Finding::Pass { carries }) => {
                        let next = if carries {
                            up
                        } else {
                            fallback
                        };
                        lemma_climb_above(fs, marker, up, next);
                        if let Ok(root) = climb(fs, marker, up, next) {
                            lemma_examined_above(current, up, root);
                        }
                    },
                    _ => {},
                }
            }
        },
    }
}

/// The root of a marker's project is the marker's directory or one of its
/// ancestors.
pub proof fn lemma_root_is_above(fs: FileSystem, marker: MarkerModel, dir: PathModel)
    ensures
        resolve(fs, marker, dir) matches Ok(root) ==> root == dir || examined(dir, root),
{
    lemma_climb_above(fs, marker, dir, dir);
}

/// `dir` holds a directory called `.git`.
pub open spec fn holds_git(fs: FileSystem, dir: PathModel) -> bool {
    fs.has_dir(dir.join(".git"@)) == Ok::<bool, ErrorModel>(true)
}

/// Some examined ancestor of `dir` holds `.git`.
pub open spec fn git_above(fs: FileSystem, dir: PathModel) -> bool {
    exists|up: PathModel| #[trigger] examined(dir, up) && holds_git(fs, up)
}

/// `root` is the nearest examined ancestor of `dir` that holds `.git`.
pub open spec fn nearest_git(fs: FileSystem, dir: PathModel, root: PathModel) -> bool {
    &&& examined(dir, root)
    &&& holds_git(fs, root)
    &&& forall|up: PathModel| #[trigger]
        examined(dir, up) && holds_git(fs, up) ==> up.parts.len() <= root.parts.len()
}

/// Where every examined ancestor can be asked for `.git`, the climb for a
/// marker of no special category reaches the nearest ancestor above
/// `current` that holds `.git`, and `fallback` if there is none.
pub proof fn lemma_plain_climb(
    fs: FileSystem,
    name: Seq<char>,
    current: PathModel,
    fallback: PathModel,
)
    requires
        forall|up: PathModel| #[trigger] examined(current, up) ==> fs.has_dir(up.join(".git"@)) is Ok,
    ensures
        climb(fs, MarkerModel::OtherConfig(name), current, fallback) matches Ok(root) && if git_above(
            fs,
            current,
        ) {
            nearest_git(fs, current, root)
        } else {
            root == fallback
        },
    decreases current.parts.len(),
{
    let marker = MarkerModel::OtherConfig(name);
    match current.parent() {
        None => {
            assert(!git_above(fs, current));
        },
        Some(up) => {
            assert forall|other: PathModel|
                examined(current, other) <==> (other == up && !up.is_empty()) || examined(
                    up,
                    other,
                ) by {
                lemma_examined_above(current, up, other);
            }
            if up.is_empty() {
                assert(!git_above(fs, current)) by {
                    if git_above(fs, current) {
                        let other = choose|other: PathModel| #[trigger]
                            examined(current, other) && holds_git(fs, other);
                        assert(examined(up, other));
                    }
                }
            } else {
                assert(examined(current, up));
                if holds_git(fs, up) {
                    assert(nearest_git(fs, current, up)) by {
                        assert forall|other: PathModel| #[trigger]
                            examined(current, other) && holds_git(
                                fs,
                                other,
                            ) implies other.parts.len() <= up.parts.len() by {
                            if other != up {
                                assert(examined(up, other));
                            }
                        }
                    }
                } else {
                    assert(fs.has_dir(up.join(".git"@)) == Ok::<bool, ErrorModel>(false));
                    lemma_plain_climb(fs, name, up, fallback);
                    let root = climb(fs, marker, current, fallback)->Ok_0;
                    if git_above(fs, up) {
                        let higher = choose|other: PathModel| #[trigger]
                            examined(up, other) && holds_git(fs, other);
                        assert(examined(current, higher));
                        assert(nearest_git(fs, current, root)) by {
                            assert forall|other: PathModel| #[trigger]
                                examined(current, other) && holds_git(
                                    fs,
                                    other,
                                ) implies other.parts.len() <= root.parts.len() by {
                                assert(other != up);
                                assert(examined(up, other));
                            }
                        }
                    } else {
                        assert(!git_above(fs, current)) by {
                            if git_above(fs, current) {
                                let other = choose|other: PathModel| #[trigger]
                                    examined(current, other) && holds_git(fs, other);
                                assert(other == up || examined(up, other));
                            }
                        }
                    }
                }
            }
        },
    }
}

/// A marker of no special category belongs to the nearest ancestor that
/// holds `.git`, and to its own directory if no ancestor holds it.
pub proof fn lemma_plain_marker_nearest_git(fs: FileSystem, name: Seq<char>, dir: PathModel)
    requires
        forall|up: PathModel| #[trigger] examined(dir, up) ==> fs.has_dir(up.join(".git"@)) is Ok,
    ensures
        resolve(fs, MarkerModel::OtherConfig(name), dir) matches Ok(root) && if git_above(fs, dir) {
            nearest_git(fs, dir, root)
        } else {
            root == dir
        },
{
    lemma_plain_climb(fs, name, dir, dir);
}

/// A package or Deno manifest directly below a workspace root belongs to
/// that root.
pub proof fn lemma_workspace_above(fs: FileSystem, marker: MarkerModel, dir: PathModel, root: PathModel)
    requires
        marker is PackageJson || marker is DenoJson,
        dir.parent() == Some(root),
        !root.is_empty(),
        is_workspace_root(fs, root) == Ok::<bool, ErrorModel>(true),
    ensures
        resolve(fs, marker, dir) == Ok::<PathModel, ErrorModel>(root),
{
}

/// A marker of no special category directly below a directory that holds
/// `.git` belongs to that directory. So does a build file, if the directory
/// can be asked whether it holds a file of that name.
pub proof fn lemma_git_above(fs: FileSystem, name: Seq<char>, dir: PathModel, root: PathModel)
    requires
        dir.parent() == Some(root),
        !root.is_empty(),
        fs.has_dir(root.join(".git"@)) == Ok::<bool, ErrorModel>(true),
    ensures
        resolve(fs, MarkerModel::OtherConfig(name), dir) == Ok::<PathModel, ErrorModel>(root),
        fs.has_entry(root.join(name)) is Ok ==> resolve(fs, MarkerModel::BuildFile(name), dir)
            == Ok::<PathModel, ErrorModel>(root),
{
}

/// Where no examined ancestor holds `.git`, the climb for a build file
/// reaches the highest ancestor above `current` that holds a file of its
/// name, and `fallback` if there is none.
pub proof fn lemma_build_climb(
    fs: FileSystem,
    name: Seq<char>,
    dir: PathModel,
    current: PathModel,
    fallback: PathModel,
)
    requires
        no_git_above(fs, name, dir),
        current == dir || examined(dir, current),
    ensures
        climb(fs, MarkerModel::BuildFile(name), current, fallback) matches Ok(root) && if carried_above(
            fs,
            name,
            current,
        ) {
            topmost_carrier(fs, name, current, root)
        } else {
            root == fallback
        },
    decreases current.parts.len(),
{
    let marker = MarkerModel::BuildFile(name);
    match current.parent() {
        None => {
            assert(!carried_above(fs, name, current));
        },
        Some(up) => {
            assert forall|other: PathModel|
                examined(current, other) <==> (other == up && !up.is_empty()) || examined(
                    up,
                    other,
                ) by {
                lemma_examined_above(current, up, other);
            }
            if up.is_empty() {
                assert(!carried_above(fs, name, current)) by {
                    if carried_above(fs, name, current) {
                        let other = choose|other: PathModel| #[trigger]
                            examined(current, other) && carries(fs, other, name);
                        assert(examined(up, other));
                    }
                }
            } else {
                assert(examined(current, up));
                assert(examined(dir, up)) by {
                    if current != dir {
                        assert(up.parts =~= dir.parts.subrange(0, up.parts.len() as int));
                    }
                }
                let has = carries(fs, up, name);
                let next = if has {
                    up
                } else {
                    fallback
                };
                assert(examine(fs, marker, up) == Ok::<Finding, ErrorModel>(
                    Finding::Pass { carries: has },
                ));
                lemma_build_climb(fs, name, dir, up, next);
                let root = climb(fs, marker, current, fallback)->Ok_0;
                if carried_above(fs, name, up) {
                    let higher = choose|other: PathModel| #[trigger]
                        examined(up, other) && carries(fs, other, name);
                    assert(examined(current, higher));
                    assert(topmost_carrier(fs, name, current, root)) by {
                        assert forall|other: PathModel| #[trigger]
                            examined(current, other) && carries(
                                fs,
                                other,
                                name,
                            ) implies root.parts.len() <= other.parts.len() by {
                            if other == up {
                                assert(examined(up, root));
                            }
                        }
                    }
                } else if has {
                    assert(topmost_carrier(fs, name, current, root)) by {
                        assert forall|other: PathModel| #[trigger]
                            examined(current, other) && carries(
                                fs,
                                other,
                                name,
                            ) implies root.parts.len() <= other.parts.len() by {
                            if other != up {
                                assert(examined(up, other));
                            }
                        }
                    }
                } else {
                    assert(!carried_above(fs, name, current)) by {
                        if carried_above(fs, name, current) {
                            let other = choose|other: PathModel| #[trigger]
                                examined(current, other) && carries(fs, other, name);
                            assert(other == up || examined(up, other));
                        }
                    }
                }
            }
        },
    }
}

/// Where no ancestor holds `.git`, a build file belongs to the highest
/// ancestor that holds a file of its name, and to its own directory if no
/// ancestor holds one.
pub proof fn lemma_build_file_topmost(fs: FileSystem, name: Seq<char>, dir: PathModel)
    requires
        no_git_above(fs, name, dir),
    ensures
        resolve(fs, MarkerModel::BuildFile(name), dir) matches Ok(root) && if carried_above(
            fs,
            name,
            dir,
        ) {
            topmost_carrier(fs, name, dir, root)
        } else {
            root == dir
        },
{
    lemma_build_climb(fs, name, dir, dir, dir);
}

/// The root that a climb in progress reaches when `fs` answers its probes.
pub open spec fn remaining(fs: FileSystem, st: ResolutionModel) -> Result<PathModel, ErrorModel> {
    match examine_from(fs, st.marker, st.current, st.stage) {
        Err(e) => Err(e),
        Ok(Finding::Root) => Ok(st.current),
        Ok(Finding::Pass { carries }) => climb(
            fs,
            st.marker,
            st.current,
            if carries {
                st.current
            } else {
                st.fallback
            },
        ),
    }
}

/// Every entry of the memo tables is what `fs` gives.
pub open spec fn caches_agree(fs: FileSystem, caches: CachesModel) -> bool {
    &&& verdicts_agree(fs, caches.workspace)
    &&& forall|dir: PathModel, marker: MarkerModel| #[trigger]
        caches.roots.contains_key((dir, marker)) ==> resolve(fs, marker, dir) == Ok::<
            PathModel,
            ErrorModel,
        >(caches.roots[(dir, marker)])
}

/// The climb has come to where it is by answers of `fs`: it will reach the
/// root of its marker, and a scan of the workspace rules has passed over
/// rules that are not met.
pub open spec fn on_track(fs: FileSystem, st: ResolutionModel) -> bool {
    &&& remaining(fs, st) == resolve(fs, st.marker, st.dir)
    &&& st.stage is Workspace ==> check_on_track(fs, st.check())
}

} // verus!
