//! A climb whose probes the file system answers reaches the root that the
//! rules give, whatever the memo tables hold of that file system.

use vstd::prelude::*;
use crate::cache::CachesModel;
use crate::errors::ErrorModel;
use crate::marker::MarkerModel;
use crate::path::PathModel;
use crate::probe::FileSystem;
use crate::resolver::{
    after_check, ask, ascend, enter, found, start_turn, step_turn, ResolutionModel, Stage,
    StepModel, Turn,
};
use crate::rules::{caches_agree, climb, first_stage, on_track, remaining, resolve};
use crate::workspace::{
    check_sound, check_start, check_step, check_within, lemma_check_start_sound,
    lemma_check_step_sound, rules_left, CheckTurn, InquiryModel,
};

verus! {

/// A turn of the climb for a marker of category `marker` in `dir` is sound
/// for `fs`: the memo tables agree with `fs`; a result is the root that the
/// rules give; a climb that goes on is on track.
pub open spec fn sound(fs: FileSystem, dir: PathModel, marker: MarkerModel, turn: Turn) -> bool {
    &&& caches_agree(fs, turn.caches)
    &&& match turn.step {
        StepModel::Done(outcome) => outcome == resolve(fs, marker, dir),
        StepModel::Ask(next, probe) => {
            &&& next.wf()
            &&& on_track(fs, next)
            &&& probe == next.pending()
            &&& next.dir == dir
            &&& next.marker == marker
        },
    }
}

/// An upper bound on the probes that a climb still asks.
pub open spec fn probes_left(st: ResolutionModel) -> nat {
    st.current.parts.len() * 29 + match st.stage {
        Stage::Workspace { rule, matching } => rules_left(st.check()),
        Stage::Cargo { matching } => if matching {
            1
        } else {
            2
        },
        Stage::Build => 1,
        Stage::Git { carries } => 0,
    } + 1
}

/// A turn leaves fewer probes to ask than `bound`.
pub open spec fn within(turn: Turn, bound: nat) -> bool {
    turn.step matches StepModel::Ask(next, _) ==> probes_left(next) < bound
}

proof fn lemma_found(fs: FileSystem, st: ResolutionModel, root: PathModel, caches: CachesModel)
    requires
        caches_agree(fs, caches),
        resolve(fs, st.marker, st.dir) == Ok::<PathModel, ErrorModel>(root),
    ensures
        sound(fs, st.dir, st.marker, found(st, root, caches)),
{
}

proof fn lemma_ask(fs: FileSystem, st: ResolutionModel, stage: Stage, caches: CachesModel)
    requires
        caches_agree(fs, caches),
        st.at(stage).wf(),
        on_track(fs, st.at(stage)),
    ensures
        sound(fs, st.dir, st.marker, ask(st, stage, caches)),
{
}

proof fn lemma_after_check(
    fs: FileSystem,
    st: ResolutionModel,
    turn: CheckTurn,
    caches: CachesModel,
    bound: nat,
)
    requires
        caches_agree(fs, caches),
        st.marker is PackageJson || st.marker is DenoJson,
        remaining(fs, st.at(first_stage(st.marker))) == resolve(fs, st.marker, st.dir),
        check_sound(fs, st.current, turn),
        check_within(turn, bound),
        bound > 0,
    ensures
        sound(fs, st.dir, st.marker, after_check(st, turn, caches)),
        within(after_check(st, turn, caches), st.current.parts.len() * 29 + bound + 1),
{
    let noted = CachesModel { workspace: turn.cache, roots: caches.roots };
    let first = st.at(first_stage(st.marker));
    match turn.step {
        InquiryModel::Known(Ok(verdict)) => {
            if verdict {
                lemma_found(fs, st, st.current, noted);
            } else {
                let next = st.at(Stage::Git { carries: false });
                assert(remaining(fs, next) == remaining(fs, first));
                lemma_ask(fs, st, Stage::Git { carries: false }, noted);
            }
        },
        InquiryModel::Known(Err(e)) => {},
        InquiryModel::Ask(check, _) => {
            let stage = Stage::Workspace { rule: check.rule, matching: check.matching };
            assert(st.at(stage).check() == check);
            assert(remaining(fs, st.at(stage)) == remaining(fs, first));
            lemma_ask(fs, st, stage, noted);
        },
    }
}

proof fn lemma_enter(fs: FileSystem, st: ResolutionModel, caches: CachesModel)
    requires
        caches_agree(fs, caches),
        remaining(fs, st.at(first_stage(st.marker))) == resolve(fs, st.marker, st.dir),
    ensures
        sound(fs, st.dir, st.marker, enter(st, caches)),
        within(enter(st, caches), st.current.parts.len() * 29 + 29),
{
    match st.marker {
        MarkerModel::PackageJson | MarkerModel::DenoJson => {
            lemma_check_start_sound(fs, st.current, caches.workspace);
            lemma_after_check(fs, st, check_start(st.current, caches.workspace), caches, 28);
        },
        MarkerModel::CargoToml => {
            lemma_ask(fs, st, Stage::Cargo { matching: false }, caches);
        },
        MarkerModel::BuildFile(_) => {
            lemma_ask(fs, st, Stage::Build, caches);
        },
        MarkerModel::OtherConfig(_) => {
            lemma_ask(fs, st, Stage::Git { carries: false }, caches);
        },
    }
}

proof fn lemma_ascend(fs: FileSystem, st: ResolutionModel, caches: CachesModel)
    requires
        caches_agree(fs, caches),
        climb(fs, st.marker, st.current, st.fallback) == resolve(fs, st.marker, st.dir),
    ensures
        sound(fs, st.dir, st.marker, ascend(st, caches)),
        within(ascend(st, caches), st.current.parts.len() * 29 + 1),
{
    match st.current.parent() {
        Some(up) => {
            if up.is_empty() {
                lemma_found(fs, st, st.fallback, caches);
            } else {
                let above = st.over(up);
                assert(remaining(fs, above.at(first_stage(st.marker))) == climb(
                    fs,
                    st.marker,
                    st.current,
                    st.fallback,
                ));
                lemma_enter(fs, above, caches);
            }
        },
        None => {
            lemma_found(fs, st, st.fallback, caches);
        },
    }
}

/// The first turn of a climb is sound, if the memo tables agree with the file system.
pub proof fn lemma_start_sound(
    fs: FileSystem,
    dir: PathModel,
    marker: MarkerModel,
    caches: CachesModel,
)
    requires
        caches_agree(fs, caches),
    ensures
        sound(fs, dir, marker, start_turn(dir, marker, caches)),
{
    if !caches.roots.contains_key((dir, marker)) {
        let begun = ResolutionModel {
            dir,
            marker,
            current: dir,
            fallback: dir,
            stage: Stage::Git { carries: false },
        };
        lemma_ascend(fs, begun, caches);
    }
}

/// The turn that follows the file system's answer to the pending probe is
/// sound, if the climb was on track and the memo tables agree with the file
/// system. It leaves fewer probes to ask than there were.
pub proof fn lemma_step_sound(fs: FileSystem, st: ResolutionModel, caches: CachesModel)
    requires
        st.wf(),
        on_track(fs, st),
        caches_agree(fs, caches),
    ensures
        sound(fs, st.dir, st.marker, step_turn(st, fs.ask(st.pending()), caches)),
        within(step_turn(st, fs.ask(st.pending()), caches), probes_left(st)),
{
    let answer = fs.ask(st.pending());
    match answer {
        Err(e) => {},
        Ok(yes) => match st.stage {
            Stage::Workspace { rule, matching } => {
                let first = st.at(first_stage(st.marker));
                assert(remaining(fs, first) == remaining(fs, st));
                lemma_check_step_sound(fs, st.check(), caches.workspace);
                lemma_after_check(
                    fs,
                    st,
                    check_step(st.check(), answer, caches.workspace),
                    caches,
                    rules_left(st.check()),
                );
            },
            Stage::Cargo { matching } => {
                if !yes {
                    lemma_ask(fs, st, Stage::Git { carries: false }, caches);
                } else if matching {
                    lemma_found(fs, st, st.current, caches);
                } else {
                    lemma_ask(fs, st, Stage::Cargo { matching: true }, caches);
                }
            },
            Stage::Build => {
                lemma_ask(fs, st, Stage::Git { carries: yes }, caches);
            },
            Stage::Git { carries } => {
                if yes {
                    lemma_found(fs, st, st.current, caches);
                } else if carries {
                    lemma_ascend(fs, st.falling_back_on(st.current), caches);
                } else {
                    lemma_ascend(fs, st, caches);
                }
            },
        },
    }
}

/// The turn that a climb comes to when `fs` answers its probes, `fuel` of them at most.
pub open spec fn driven(fs: FileSystem, turn: Turn, fuel: nat) -> Turn
    decreases fuel,
{
    match turn.step {
        StepModel::Done(_) => turn,
        StepModel::Ask(st, _) => if fuel == 0 {
            turn
        } else {
            driven(fs, step_turn(st, fs.ask(st.pending()), turn.caches), (fuel - 1) as nat)
        },
    }
}

/// A sound turn, driven by the file system's answers, comes to the root that
/// the rules give, and leaves memo tables that agree with the file system.
pub proof fn lemma_driven_reaches_root(
    fs: FileSystem,
    dir: PathModel,
    marker: MarkerModel,
    turn: Turn,
    fuel: nat,
)
    requires
        sound(fs, dir, marker, turn),
        within(turn, fuel + 1),
    ensures
        driven(fs, turn, fuel).step == StepModel::Done(resolve(fs, marker, dir)),
        caches_agree(fs, driven(fs, turn, fuel).caches),
    decreases fuel,
{
    match turn.step {
        StepModel::Done(_) => {},
        StepModel::Ask(st, _) => {
            lemma_step_sound(fs, st, turn.caches);
            lemma_driven_reaches_root(
                fs,
                dir,
                marker,
                step_turn(st, fs.ask(st.pending()), turn.caches),
                (fuel - 1) as nat,
            );
        },
    }
}

/// The climb from `dir`, with its probes answered by the file system, returns
/// the root that the rules give. What the memo tables hold makes no
/// difference to the result, as long as it agrees with the file system; so
/// two climbs for the same marker and directory return the same, also where
/// neither finds the other's result in the tables.
pub proof fn lemma_climb_reaches_root(
    fs: FileSystem,
    dir: PathModel,
    marker: MarkerModel,
    caches: CachesModel,
)
    requires
        caches_agree(fs, caches),
    ensures
        driven(fs, start_turn(dir, marker, caches), dir.parts.len() * 29).step == StepModel::Done(
            resolve(fs, marker, dir),
        ),
        caches_agree(fs, driven(fs, start_turn(dir, marker, caches), dir.parts.len() * 29).caches),
{
    lemma_start_sound(fs, dir, marker, caches);
    if !caches.roots.contains_key((dir, marker)) {
        let begun = ResolutionModel {
            dir,
            marker,
            current: dir,
            fallback: dir,
            stage: Stage::Git { carries: false },
        };
        lemma_ascend(fs, begun, caches);
    }
    lemma_driven_reaches_root(fs, dir, marker, start_turn(dir, marker, caches), dir.parts.len() * 29);
}

/// Every entry of `before` is in `after`, with the same value.
pub open spec fn keeps(before: CachesModel, after: CachesModel) -> bool {
    before.workspace.submap_of(after.workspace) && before.roots.submap_of(after.roots)
}

/// A root that the memo tables hold is returned at once, without a probe,
/// and the tables stay as they are.
pub proof fn lemma_remembered_root(dir: PathModel, marker: MarkerModel, caches: CachesModel)
    requires
        caches.roots.contains_key((dir, marker)),
    ensures
        start_turn(dir, marker, caches).step == StepModel::Done(
            Ok::<PathModel, ErrorModel>(caches.roots[(dir, marker)]),
        ),
        start_turn(dir, marker, caches).caches == caches,
{
}

/// The first turn of a climb neither changes nor removes an entry of the
/// memo tables, and a root that it returns is in them afterwards.
pub proof fn lemma_start_keeps_memo(dir: PathModel, marker: MarkerModel, caches: CachesModel)
    ensures
        keeps(caches, start_turn(dir, marker, caches).caches),
        start_turn(dir, marker, caches).step matches StepModel::Done(Ok(root)) ==> start_turn(
            dir,
            marker,
            caches,
        ).caches.roots.contains_key((dir, marker)),
{
}

/// No turn of a climb changes or removes an entry of the memo tables, and a
/// root that it returns is in them afterwards: the root itself, if none was
/// there for the marker and its directory.
pub proof fn lemma_step_keeps_memo(
    st: ResolutionModel,
    answer: Result<bool, ErrorModel>,
    caches: CachesModel,
)
    ensures
        keeps(caches, step_turn(st, answer, caches).caches),
        step_turn(st, answer, caches).step matches StepModel::Done(Ok(root)) ==> {
            let after = step_turn(st, answer, caches).caches.roots;
            &&& after.contains_key((st.dir, st.marker))
            &&& !caches.roots.contains_key((st.dir, st.marker)) ==> after[(st.dir, st.marker)] == root
        },
{
}

/// Once a climb has returned the first root for a marker and its directory,
/// every later climb for the two returns that root, whatever else the memo
/// tables have come to hold.
pub proof fn lemma_repeat_returns_first(
    st: ResolutionModel,
    answer: Result<bool, ErrorModel>,
    caches: CachesModel,
    later: CachesModel,
)
    requires
        !caches.roots.contains_key((st.dir, st.marker)),
        step_turn(st, answer, caches).step is Done,
        step_turn(st, answer, caches).step->Done_0 is Ok,
        keeps(step_turn(st, answer, caches).caches, later),
    ensures
        start_turn(st.dir, st.marker, later).step == step_turn(st, answer, caches).step,
{
    lemma_step_keeps_memo(st, answer, caches);
    let after = step_turn(st, answer, caches).caches.roots;
    assert(after.dom().contains((st.dir, st.marker)));
}

} // verus!
