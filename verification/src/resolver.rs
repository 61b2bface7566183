//! The climb from a marker's directory to the root of its project, one probe
//! at a time.
//!
//! A `Resolution` holds how far the climb has come. It never touches the file
//! system: each turn either ends the climb or asks one question, and the
//! answer starts the next turn.

use vstd::prelude::*;
use crate::cache::{Caches, CachesModel};
use crate::errors::{ErrorModel, ProjectFinderError};
use crate::marker::{MarkerModel, MarkerType};
use crate::path::{PathModel, ProjectPath};
use crate::probe::{answer_model, Probe, ProbeModel};
use crate::workspace::{
    cargo_workspace_pattern, cargo_workspace_regex, check_start, check_step, workspace_pattern,
    CheckModel, CheckTurn, Inquiry, InquiryModel, WorkspaceCheck, WORKSPACE_RULES,
};

verus! {

/// What is being asked about the directory under examination.
#[derive(Debug, Clone, Copy, PartialEq, Eq, Structural)]
pub enum Stage {
    /// Workspace rule `rule`: whether its file exists or, with `matching`,
    /// whether the file's content matches.
    Workspace { rule: usize, matching: bool },
    /// Whether the directory holds a Cargo manifest or, with `matching`,
    /// whether the manifest declares a workspace.
    Cargo { matching: bool },
    /// Whether the directory holds a build file of the marker's name.
    Build,
    /// Whether the directory holds `.git`. With `carries`, it is known to hold
    /// a build file of the marker's name.
    Git { carries: bool },
}

/// A climb that waits for the answer to a probe.
#[derive(Debug)]
pub struct Resolution {
    dir: ProjectPath,
    marker: MarkerType,
    current: ProjectPath,
    fallback: ProjectPath,
    stage: Stage,
}

/// A `Resolution` over path and marker models.
pub struct ResolutionModel {
    /// The directory that holds the marker.
    pub dir: PathModel,
    /// The marker's category.
    pub marker: MarkerModel,
    /// The ancestor of `dir` under examination.
    pub current: PathModel,
    /// The root to report if no ancestor turns out to be one.
    pub fallback: PathModel,
    pub stage: Stage,
}

/// How a turn ends: with a question, or with the climb's result.
#[derive(Debug)]
pub enum Step {
    /// The climb goes on once the probe is answered.
    Ask(Resolution, Probe),
    /// The climb is over.
    Done(Result<ProjectPath, ProjectFinderError>),
}

/// A `Step` over models.
pub enum StepModel {
    Ask(ResolutionModel, ProbeModel),
    Done(Result<PathModel, ErrorModel>),
}

/// A `Result` of a climb over models.
pub open spec fn outcome_model(outcome: Result<ProjectPath, ProjectFinderError>) -> Result<
    PathModel,
    ErrorModel,
> {
    match outcome {
        Ok(root) => Ok(root@),
        Err(e) => Err(e@),
    }
}

impl View for Resolution {
    type V = ResolutionModel;

    closed spec fn view(&self) -> ResolutionModel {
        ResolutionModel {
            dir: self.dir@,
            marker: self.marker@,
            current: self.current@,
            fallback: self.fallback@,
            stage: self.stage,
        }
    }
}

impl View for Step {
    type V = StepModel;

    open spec fn view(&self) -> StepModel {
        match self {
            Step::Ask(resolution, probe) => StepModel::Ask(resolution@, probe@),
            Step::Done(outcome) => StepModel::Done(outcome_model(*outcome)),
        }
    }
}

impl ResolutionModel {
    /// The stage fits the marker's category, and a workspace rule is one of the list.
    pub open spec fn wf(self) -> bool {
        match self.stage {
            Stage::Workspace { rule, matching } => {
                &&& self.marker is PackageJson || self.marker is DenoJson
                &&& rule < WORKSPACE_RULES
                &&& matching ==> workspace_pattern(rule as int) is Some
            },
            Stage::Cargo { matching } => self.marker is CargoToml,
            Stage::Build => self.marker is BuildFile,
            Stage::Git { carries } => true,
        }
    }

    /// The probe whose answer this climb waits for.
    pub open spec fn pending(self) -> ProbeModel {
        match self.stage {
            Stage::Workspace { rule, matching } => self.check().pending(),
            Stage::Cargo { matching } => {
                let target = self.current.join("Cargo.toml"@);
                if matching {
                    ProbeModel::Matches(target, cargo_workspace_pattern())
                } else {
                    ProbeModel::Exists(target)
                }
            },
            Stage::Build => ProbeModel::Exists(self.current.join(self.marker.name())),
            Stage::Git { carries } => ProbeModel::IsDir(self.current.join(".git"@)),
        }
    }

    /// The check of the directory under examination that is under way at
    /// the workspace stage.
    pub open spec fn check(self) -> CheckModel {
        match self.stage {
            Stage::Workspace { rule, matching } => CheckModel { dir: self.current, rule, matching },
            _ => CheckModel { dir: self.current, rule: 0, matching: false },
        }
    }

    /// This climb at another stage.
    pub open spec fn at(self, stage: Stage) -> ResolutionModel {
        ResolutionModel {
            dir: self.dir,
            marker: self.marker,
            current: self.current,
            fallback: self.fallback,
            stage,
        }
    }

    /// This climb one directory up.
    pub open spec fn over(self, current: PathModel) -> ResolutionModel {
        ResolutionModel {
            dir: self.dir,
            marker: self.marker,
            current,
            fallback: self.fallback,
            stage: self.stage,
        }
    }

    /// This climb with another root to fall back on.
    pub open spec fn falling_back_on(self, fallback: PathModel) -> ResolutionModel {
        ResolutionModel {
            dir: self.dir,
            marker: self.marker,
            current: self.current,
            fallback,
            stage: self.stage,
        }
    }
}

/// A turn of a climb: how it ends, and the memo tables after it.
pub struct Turn {
    pub step: StepModel,
    pub caches: CachesModel,
}

/// The turn that asks the probe of `stage`.
pub open spec fn ask(st: ResolutionModel, stage: Stage, caches: CachesModel) -> Turn {
    Turn { step: StepModel::Ask(st.at(stage), st.at(stage).pending()), caches }
}

/// The turn that ends the climb at `root` and notes it.
pub open spec fn found(st: ResolutionModel, root: PathModel, caches: CachesModel) -> Turn {
    Turn { step: StepModel::Done(Ok(root)), caches: caches.with_root(st.dir, st.marker, root) }
}

/// The turn of the climb that a turn of the workspace check amounts to: a
/// workspace root is the root; a directory that is none is asked for `.git`;
/// a question of the check is passed on.
pub open spec fn after_check(st: ResolutionModel, turn: CheckTurn, caches: CachesModel) -> Turn {
    let noted = CachesModel { workspace: turn.cache, roots: caches.roots };
    match turn.step {
        InquiryModel::Known(Ok(verdict)) => if verdict {
            found(st, st.current, noted)
        } else {
            ask(st, Stage::Git { carries: false }, noted)
        },
        InquiryModel::Known(Err(e)) => Turn { step: StepModel::Done(Err(e)), caches: noted },
        InquiryModel::Ask(check, _) => ask(
            st,
            Stage::Workspace { rule: check.rule, matching: check.matching },
            noted,
        ),
    }
}

/// The turn that begins the examination of `st.current`.
pub open spec fn enter(st: ResolutionModel, caches: CachesModel) -> Turn {
    match st.marker {
        MarkerModel::PackageJson | MarkerModel::DenoJson => after_check(
            st,
            check_start(st.current, caches.workspace),
            caches,
        ),
        MarkerModel::CargoToml => ask(st, Stage::Cargo { matching: false }, caches),
        MarkerModel::BuildFile(_) => ask(st, Stage::Build, caches),
        MarkerModel::OtherConfig(_) => ask(st, Stage::Git { carries: false }, caches),
    }
}

/// The turn that leaves `st.current` for the directory above it. The climb
/// ends where there is none, or only the empty path.
pub open spec fn ascend(st: ResolutionModel, caches: CachesModel) -> Turn {
    match st.current.parent() {
        Some(up) => if up.is_empty() {
            found(st, st.fallback, caches)
        } else {
            enter(st.over(up), caches)
        },
        None => found(st, st.fallback, caches),
    }
}

/// The first turn of the climb from `dir` for a marker of category `marker`.
pub open spec fn start_turn(dir: PathModel, marker: MarkerModel, caches: CachesModel) -> Turn {
    if caches.roots.contains_key((dir, marker)) {
        Turn { step: StepModel::Done(Ok(caches.roots[(dir, marker)])), caches }
    } else {
        ascend(
            ResolutionModel {
                dir,
                marker,
                current: dir,
                fallback: dir,
                stage: Stage::Git { carries: false },
            },
            caches,
        )
    }
}

/// The turn that follows `answer` to the pending probe of `st`.
pub open spec fn step_turn(
    st: ResolutionModel,
    answer: Result<bool, ErrorModel>,
    caches: CachesModel,
) -> Turn {
    match answer {
        Err(e) => Turn { step: StepModel::Done(Err(e)), caches },
        Ok(yes) => match st.stage {
            Stage::Workspace { rule, matching } => after_check(
                st,
                check_step(st.check(), Ok(yes), caches.workspace),
                caches,
            ),
            Stage::Cargo { matching } => {
                if !yes {
                    ask(st, Stage::Git { carries: false }, caches)
                } else if matching {
                    found(st, st.current, caches)
                } else {
                    ask(st, Stage::Cargo { matching: true }, caches)
                }
            },
            Stage::Build => ask(st, Stage::Git { carries: yes }, caches),
            Stage::Git { carries } => {
                if yes {
                    found(st, st.current, caches)
                } else if carries {
                    ascend(st.falling_back_on(st.current), caches)
                } else {
                    ascend(st, caches)
                }
            },
        },
    }
}

impl Resolution {
    /// The stage fits the marker's category. This holds of every `Resolution`.
    pub open spec fn wf(&self) -> bool {
        self@.wf()
    }

    #[verifier::type_invariant]
    spec fn well_formed(&self) -> bool {
        self@.wf()
    }

    fn pass_on(self, stage: Stage, probe: Probe) -> (step: Step)
        requires
            self@.at(stage).wf(),
            probe@ == self@.at(stage).pending(),
        ensures
            step@ == StepModel::Ask(self@.at(stage), self@.at(stage).pending()),
            step matches Step::Ask(next, _) && next.wf(),
    {
        let next = Resolution {
            dir: self.dir,
            marker: self.marker,
            current: self.current,
            fallback: self.fallback,
            stage,
        };
        Step::Ask(next, probe)
    }

    fn ask_git(self, carries: bool) -> (step: Step)
        ensures
            step@ == StepModel::Ask(
                self@.at(Stage::Git { carries }),
                self@.at(Stage::Git { carries }).pending(),
            ),
            step matches Step::Ask(next, _) && next.wf(),
    {
        let probe = Probe::IsDir(self.current.join(".git"));
        self.pass_on(Stage::Git { carries }, probe)
    }

    fn ask_cargo(self, matching: bool) -> (step: Step)
        requires
            self@.marker is CargoToml,
        ensures
            step@ == StepModel::Ask(
                self@.at(Stage::Cargo { matching }),
                self@.at(Stage::Cargo { matching }).pending(),
            ),
            step matches Step::Ask(next, _) && next.wf(),
    {
        let target = self.current.join("Cargo.toml");
        let probe = if matching {
            Probe::Matches(target, cargo_workspace_regex().to_owned())
        } else {
            Probe::Exists(target)
        };
        self.pass_on(Stage::Cargo { matching }, probe)
    }

    fn ask_build(self) -> (step: Step)
        requires
            self@.marker is BuildFile,
        ensures
            step@ == StepModel::Ask(self@.at(Stage::Build), self@.at(Stage::Build).pending()),
            step matches Step::Ask(next, _) && next.wf(),
    {
        let probe = Probe::Exists(self.current.join(self.marker.name()));
        self.pass_on(Stage::Build, probe)
    }

    fn found(self, root: ProjectPath, caches: &mut Caches) -> (step: Step)
        ensures
            step@ == found(self@, root@, old(caches)@).step,
            final(caches)@ == found(self@, root@, old(caches)@).caches,
    {
        caches.roots.record(self.dir, self.marker, root.duplicate());
        Step::Done(Ok(root))
    }

    fn after_check(self, inquiry: Inquiry, caches: &mut Caches) -> (step: Step)
        requires
            self@.marker is PackageJson || self@.marker is DenoJson,
            inquiry matches Inquiry::Ask(check, probe) ==> check.wf() && check@.dir
                == self@.current && probe@ == check@.pending(),
        ensures
            step@ == after_check(
                self@,
                CheckTurn { step: inquiry@, cache: old(caches)@.workspace },
                old(caches)@,
            ).step,
            final(caches)@ == after_check(
                self@,
                CheckTurn { step: inquiry@, cache: old(caches)@.workspace },
                old(caches)@,
            ).caches,
            step matches Step::Ask(next, _) ==> next.wf(),
    {
        match inquiry {
            Inquiry::Known(Ok(true)) => {
                let root = self.current.duplicate();
                self.found(root, caches)
            },
            Inquiry::Known(Ok(false)) => self.ask_git(false),
            Inquiry::Known(Err(e)) => Step::Done(Err(e)),
            Inquiry::Ask(check, probe) => {
                let stage = Stage::Workspace { rule: check.rule(), matching: check.matching() };
                self.pass_on(stage, probe)
            },
        }
    }

    fn enter(self, caches: &mut Caches) -> (step: Step)
        ensures
            step@ == enter(self@, old(caches)@).step,
            final(caches)@ == enter(self@, old(caches)@).caches,
            step matches Step::Ask(next, _) ==> next.wf(),
    {
        match self.marker {
            MarkerType::PackageJson | MarkerType::DenoJson => {
                let inquiry = WorkspaceCheck::start(self.current.duplicate(), &mut caches.workspace);
                self.after_check(inquiry, caches)
            },
            MarkerType::CargoToml => self.ask_cargo(false),
            MarkerType::BuildFile(_) => self.ask_build(),
            MarkerType::OtherConfig(_) => self.ask_git(false),
        }
    }

    fn ascend(self, caches: &mut Caches) -> (step: Step)
        ensures
            step@ == ascend(self@, old(caches)@).step,
            final(caches)@ == ascend(self@, old(caches)@).caches,
            step matches Step::Ask(next, _) ==> next.wf(),
    {
        proof {
            use_type_invariant(&self);
        }
        match self.current.parent() {
            Some(up) => {
                if up.is_empty() {
                    let root = self.fallback.duplicate();
                    self.found(root, caches)
                } else {
                    let above = Resolution {
                        dir: self.dir,
                        marker: self.marker,
                        current: up,
                        fallback: self.fallback,
                        stage: self.stage,
                    };
                    above.enter(caches)
                }
            },
            None => {
                let root = self.fallback.duplicate();
                self.found(root, caches)
            },
        }
    }

    /// Begins the climb from `dir`, the directory of a marker of category
    /// `marker`. A root that `caches` holds for the two is returned at once.
    pub fn start(dir: ProjectPath, marker: MarkerType, caches: &mut Caches) -> (step: Step)
        ensures
            step@ == start_turn(dir@, marker@, old(caches)@).step,
            final(caches)@ == start_turn(dir@, marker@, old(caches)@).caches,
            step matches Step::Ask(next, _) ==> next.wf(),
    {
        match caches.roots.get(&dir, &marker) {
            Some(root) => Step::Done(Ok(root)),
            None => {
                let current = dir.duplicate();
                let fallback = dir.duplicate();
                let begun = Resolution {
                    dir,
                    marker,
                    current,
                    fallback,
                    stage: Stage::Git { carries: false },
                };
                begun.ascend(caches)
            },
        }
    }

    /// Goes on with the climb, given the answer to the probe it waits for. An
    /// answer that is an error ends the climb with that error.
    pub fn step(self, answer: Result<bool, ProjectFinderError>, caches: &mut Caches) -> (step: Step)
        ensures
            self.wf(),
            step@ == step_turn(self@, answer_model(answer), old(caches)@).step,
            final(caches)@ == step_turn(self@, answer_model(answer), old(caches)@).caches,
            step matches Step::Ask(next, _) ==> next.wf(),
    {
        proof {
            use_type_invariant(&self);
        }
        let yes = match answer {
            Err(e) => {
                return Step::Done(Err(e));
            },
            Ok(yes) => yes,
        };
        match self.stage {
            Stage::Workspace { rule, matching } => {
                let check = WorkspaceCheck::resume(self.current.duplicate(), rule, matching);
                let inquiry = check.step(Ok(yes), &mut caches.workspace);
                self.after_check(inquiry, caches)
            },
            Stage::Cargo { matching } => {
                if !yes {
                    self.ask_git(false)
                } else if matching {
                    let root = self.current.duplicate();
                    self.found(root, caches)
                } else {
                    self.ask_cargo(true)
                }
            },
            Stage::Build => self.ask_git(yes),
            Stage::Git { carries } => {
                if yes {
                    let root = self.current.duplicate();
                    self.found(root, caches)
                } else if carries {
                    let fallback = self.current.duplicate();
                    let higher = Resolution {
                        dir: self.dir,
                        marker: self.marker,
                        current: self.current,
                        fallback,
                        stage: self.stage,
                    };
                    higher.ascend(caches)
                } else {
                    self.ascend(caches)
                }
            },
        }
    }
}

} // verus!
