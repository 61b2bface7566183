//! A discovery run: what it has found, what it remembers, and how its parts
//! fit together.
//!
//! The finder performs no search and reads no file. Its caller runs the
//! searches that the finder describes, answers the probes that it asks, and
//! in the end hands over how the scan of each directory went.

use vstd::prelude::*;
use crate::cache::{Caches, CachesModel};
use crate::commands::{
    find_files_args, find_files_command, find_git_repos_args, find_git_repos_command, texts,
    Invocation,
};
use crate::config::Config;
use crate::dependencies::Dependencies;
use crate::errors::{ErrorModel, ProjectFinderError};
use crate::marker::{classify, MarkerModel, MarkerType};
use crate::order::names;
use crate::path::{PathModel, ProjectPath};
use crate::probe::{answer_model, Probe};
use crate::projects::{listing, path_models, ProjectSet};
use crate::resolver::{start_turn, step_turn, Resolution, Step, StepModel};
use crate::run::{arrived, listable, returned, Arrival};

verus! {

/// The names of the files that mark a project.
pub const MARKER_PATTERNS: [&'static str; 13] = [
    "package.json",
    "pnpm-workspace.yaml",
    "lerna.json",
    "Cargo.toml",
    "go.mod",
    "pyproject.toml",
    "CMakeLists.txt",
    "Makefile",
    "justfile",
    "Justfile",
    "deno.json",
    "deno.jsonc",
    "bunfig.toml",
];

/// How many directories are scanned at the same time.
pub const MAX_CONCURRENT_SCANS: usize = 8;

/// A marker file that a search found: the directory that holds it, and its name.
#[derive(Debug, Clone, PartialEq, Eq)]
pub struct MarkerHit {
    pub dir: ProjectPath,
    pub marker: String,
}

/// A `MarkerHit` over models.
pub struct HitModel {
    pub dir: PathModel,
    pub marker: Seq<char>,
}

impl View for MarkerHit {
    type V = HitModel;

    open spec fn view(&self) -> HitModel {
        HitModel { dir: self.dir@, marker: self.marker@ }
    }
}

/// The models of a run of hits.
pub open spec fn hit_models(hits: Seq<MarkerHit>) -> Seq<HitModel> {
    Seq::new(hits.len(), |i: int| hits[i]@)
}

/// The models of the groups that a search for files gave.
pub open spec fn group_models(groups: Seq<(String, Vec<ProjectPath>)>) -> Seq<
    (Seq<char>, Seq<PathModel>),
> {
    Seq::new(groups.len(), |i: int| (groups[i].0@, path_models(groups[i].1@)))
}

/// The hit that a file called `name` at `path` makes, if `path` has a parent.
pub open spec fn hit_of(name: Seq<char>, path: PathModel) -> Option<HitModel> {
    match path.parent() {
        Some(dir) => Some(HitModel { dir, marker: name }),
        None => None,
    }
}

/// The hits of one group, in the order of its files.
pub open spec fn hits_in_group(name: Seq<char>, paths: Seq<PathModel>) -> Seq<HitModel> {
    paths.filter_map(|path: PathModel| hit_of(name, path))
}

/// The hits of all groups, group after group.
pub open spec fn hits_in(groups: Seq<(Seq<char>, Seq<PathModel>)>) -> Seq<HitModel>
    decreases groups.len(),
{
    if groups.len() == 0 {
        Seq::empty()
    } else {
        hits_in(groups.drop_last()) + hits_in_group(groups.last().0, groups.last().1)
    }
}

/// Whether path `i` is known to be a directory. A path without an answer is not.
pub open spec fn accepted(is_dir: Seq<bool>, i: int) -> bool {
    0 <= i < is_dir.len() && is_dir[i]
}

/// The first of the paths from `from` on that is not known to be a directory.
pub open spec fn first_refused(count: int, is_dir: Seq<bool>, from: int) -> Option<int>
    decreases count - from,
{
    if from >= count {
        None
    } else if !accepted(is_dir, from) {
        Some(from)
    } else {
        first_refused(count, is_dir, from + 1)
    }
}

/// The errors among the outcomes, in their order.
pub open spec fn failures(outcomes: Seq<Result<(), ProjectFinderError>>) -> Seq<ErrorModel> {
    outcomes.filter_map(
        |outcome: Result<(), ProjectFinderError>|
            match outcome {
                Ok(_) => None,
                Err(e) => Some(e@),
            },
    )
}

/// How the processing of a marker goes on: with a question, or not at all.
#[derive(Debug)]
pub enum Progress {
    /// The root is still sought; the probe is to be answered.
    Ask(Resolution, Probe),
    /// The marker is dealt with, or its root could not be found.
    Done(Result<(), ProjectFinderError>),
}

/// The state of a discovery run.
#[derive(Debug, Clone)]
pub struct ProjectFinder {
    config: Config,
    deps: Dependencies,
    discovered_projects: ProjectSet,
    caches: Caches,
}

impl ProjectFinder {
    /// The settings of this run.
    pub closed spec fn settings(&self) -> Config {
        self.config
    }

    /// The programs that this run uses.
    pub closed spec fn programs(&self) -> Dependencies {
        self.deps
    }

    /// The roots discovered so far.
    pub closed spec fn discovered(&self) -> Set<PathModel> {
        self.discovered_projects@
    }

    /// What this run remembers.
    pub closed spec fn memo(&self) -> CachesModel {
        self.caches@
    }

    /// This run with the same settings and programs as `other`.
    pub open spec fn same_setup(&self, other: &ProjectFinder) -> bool {
        self.settings() == other.settings() && self.programs() == other.programs()
    }

    /// A run that has found nothing and remembers nothing.
    pub fn new(config: Config, deps: Dependencies) -> (finder: Self)
        ensures
            finder.settings() == config,
            finder.programs() == deps,
            finder.discovered() == Set::<PathModel>::empty(),
            finder.memo().workspace == Map::<PathModel, bool>::empty(),
            finder.memo().roots == Map::<(PathModel, MarkerModel), PathModel>::empty(),
    {
        let caches = Caches::new();
        Self { config, deps, discovered_projects: ProjectSet::new(), caches }
    }

    /// The settings of this run.
    pub fn config(&self) -> (config: &Config)
        ensures
            *config == self.settings(),
    {
        &self.config
    }

    /// The programs that this run uses.
    pub fn deps(&self) -> (deps: &Dependencies)
        ensures
            *deps == self.programs(),
    {
        &self.deps
    }

    /// Whether `path` is one of the roots discovered so far.
    pub fn has_discovered(&self, path: &ProjectPath) -> (held: bool)
        ensures
            held == self.discovered().contains(path@),
    {
        self.discovered_projects.contains(path)
    }

    /// Accepts a configured path that is a directory and refuses any other.
    pub fn require_directory(path: &str, is_dir: bool) -> (r: Result<(), ProjectFinderError>)
        ensures
            r is Ok <==> is_dir,
            r matches Err(e) ==> e@ == ErrorModel::PathNotFound(path@),
    {
        if is_dir {
            Ok(())
        } else {
            Err(ProjectFinderError::PathNotFound(path.to_owned()))
        }
    }

    /// Decides, before any scan begins, whether the run can go on: it can if
    /// every configured path is a directory, and then the directories to scan
    /// are the configured paths, in their order. Else the run fails with the
    /// first path that is none, and nothing is to be scanned. `is_dir` holds,
    /// for each configured path in order, whether it is a directory.
    pub fn validate_paths(&self, is_dir: &Vec<bool>) -> (r: Result<Vec<String>, ProjectFinderError>)
        ensures
            match first_refused(self.settings().paths@.len() as int, is_dir@, 0) {
                Some(i) => r matches Err(e) && e@ == ErrorModel::PathNotFound(
                    self.settings().paths@[i]@,
                ),
                None => r matches Ok(dirs) && names(dirs@) == names(self.settings().paths@),
            },
    {
        let n = self.config.paths.len();
        let mut dirs: Vec<String> = Vec::new();
        let mut i: usize = 0;
        while i < n
            invariant
                n == self.config.paths@.len(),
                i <= n,
                dirs@.len() == i,
                forall|j: int| 0 <= j < i ==> dirs@[j]@ == self.config.paths@[j]@,
                first_refused(n as int, is_dir@, 0) == first_refused(n as int, is_dir@, i as int),
            decreases n - i,
        {
            let known = i < is_dir.len() && is_dir[i];
            match Self::require_directory(self.config.paths[i].as_str(), known) {
                Ok(_) => {},
                Err(e) => {
                    return Err(e);
                },
            }
            dirs.push(self.config.paths[i].clone());
            i += 1;
        }
        assert(names(dirs@) =~= names(self.config.paths@));
        Ok(dirs)
    }

    /// The search for `.git` directories below `dir`.
    pub fn git_search(&self, dir: &str) -> (command: Invocation)
        ensures
            command.program@ == self.programs().fd_path@,
            names(command.args@) == find_git_repos_args(self.settings().depth as nat, dir@),
    {
        find_git_repos_command(&self.deps, dir, self.config.depth)
    }

    /// The search for marker files below `dir`.
    pub fn marker_search(&self, dir: &str) -> (command: Invocation)
        ensures
            command.program@ == self.programs().fd_path@,
            names(command.args@) == find_files_args(
                texts(MARKER_PATTERNS@),
                self.settings().depth as nat,
                dir@,
            ),
    {
        let patterns = MARKER_PATTERNS;
        find_files_command(&self.deps, dir, patterns.as_slice(), self.config.depth)
    }

    /// Makes every repository a discovered root. No rule keeps a repository out.
    pub fn add_git_repos(&mut self, repos: &Vec<ProjectPath>)
        ensures
            final(self).discovered() == arrived(
                old(self).discovered(),
                Arrival::Repositories(path_models(repos@)),
            ),
            final(self).memo() == old(self).memo(),
            final(self).same_setup(old(self)),
    {
        self.discovered_projects.extend(repos);
    }

    /// The marker files of a search, as the hits to process: group after
    /// group, each hit with the directory that holds the file.
    pub fn marker_hits(groups: &Vec<(String, Vec<ProjectPath>)>) -> (hits: Vec<MarkerHit>)
        ensures
            hit_models(hits@) == hits_in(group_models(groups@)),
    {
        let ghost all = group_models(groups@);
        let mut hits: Vec<MarkerHit> = Vec::new();
        let mut i: usize = 0;
        assert(hit_models(hits@) =~= hits_in(all.take(0)));
        while i < groups.len()
            invariant
                i <= groups.len(),
                all == group_models(groups@),
                hit_models(hits@) == hits_in(all.take(i as int)),
            decreases groups.len() - i,
        {
            let name = &groups[i].0;
            let paths = &groups[i].1;
            let ghost models = path_models(paths@);
            let ghost before = hit_models(hits@);
            let mut k: usize = 0;
            assert(hits_in_group(name@, models.take(0)) =~= Seq::<HitModel>::empty());
            assert(before + Seq::<HitModel>::empty() =~= before);
            while k < paths.len()
                invariant
                    k <= paths.len(),
                    models == path_models(paths@),
                    hit_models(hits@) == before + hits_in_group(name@, models.take(k as int)),
                decreases paths.len() - k,
            {
                let ghost held = hit_models(hits@);
                proof {
                    assert(models.take(k + 1).drop_last() =~= models.take(k as int));
                }
                match paths[k].parent() {
                    Some(dir) => {
                        hits.push(MarkerHit { dir, marker: name.clone() });
                        assert(hit_models(hits@) =~= held.push(
                            HitModel { dir: dir@, marker: name@ },
                        ));
                        assert(hit_models(hits@) =~= before + hits_in_group(
                            name@,
                            models.take(k + 1),
                        ));
                    },
                    None => {},
                }
                k += 1;
            }
            proof {
                assert(models.take(k as int) =~= models);
                assert(all.take(i + 1).drop_last() =~= all.take(i as int));
                assert(all.take(i + 1).last() == (name@, models));
            }
            i += 1;
        }
        assert(all.take(i as int) =~= all);
        hits
    }

    fn conclude(&mut self, step: Step) -> (progress: Progress)
        ensures
            settled(step@, old(self).discovered(), progress, final(self).discovered()),
            step matches Step::Ask(next, _) ==> progress matches Progress::Ask(same, _) && same
                == next,
            final(self).memo() == old(self).memo(),
            final(self).same_setup(old(self)),
    {
        match step {
            Step::Ask(next, probe) => Progress::Ask(next, probe),
            Step::Done(Ok(root)) => {
                self.discovered_projects.offer(root);
                Progress::Done(Ok(()))
            },
            Step::Done(Err(e)) => Progress::Done(Err(e)),
        }
    }

    /// Begins to process the marker file called `marker_name` in `dir`: its
    /// category is found and the root of its project is sought. Once the root
    /// is known it is offered to the discovered roots.
    pub fn process_marker(&mut self, dir: ProjectPath, marker_name: &str) -> (progress: Progress)
        ensures
            settled(
                start_turn(dir@, classify(marker_name@), old(self).memo()).step,
                old(self).discovered(),
                progress,
                final(self).discovered(),
            ),
            final(self).memo() == start_turn(dir@, classify(marker_name@), old(self).memo()).caches,
            final(self).same_setup(old(self)),
            progress matches Progress::Ask(next, _) ==> next.wf(),
    {
        let marker = MarkerType::classify(marker_name);
        let step = Resolution::start(dir, marker, &mut self.caches);
        self.conclude(step)
    }

    /// Goes on with the processing of a marker, given the answer to the probe
    /// that it waits for.
    pub fn resume_marker(
        &mut self,
        resolution: Resolution,
        answer: Result<bool, ProjectFinderError>,
    ) -> (progress: Progress)
        ensures
            resolution.wf(),
            settled(
                step_turn(resolution@, answer_model(answer), old(self).memo()).step,
                old(self).discovered(),
                progress,
                final(self).discovered(),
            ),
            final(self).memo() == step_turn(
                resolution@,
                answer_model(answer),
                old(self).memo(),
            ).caches,
            final(self).same_setup(old(self)),
            progress matches Progress::Ask(next, _) ==> next.wf(),
    {
        let step = resolution.step(answer, &mut self.caches);
        self.conclude(step)
    }

    /// The result of the run, given how the scan of each configured directory
    /// ended. The run fails if every scan failed, with the first failure. Else
    /// it gives the discovered roots in order, cut after `max_results` of them
    /// where that is not zero.
    pub fn find_projects(&self, outcomes: Vec<Result<(), ProjectFinderError>>) -> (r: Result<
        Vec<ProjectPath>,
        ProjectFinderError,
    >)
        ensures
            r is Err <==> all_failed(failures(outcomes@), self.settings().paths@.len()),
            r matches Err(e) ==> e@ == failures(outcomes@)[0],
            r matches Ok(projects) ==> path_models(projects@) == returned(
                self.discovered(),
                self.settings().max_results as nat,
            ),
            r is Ok ==> listable(self.discovered()),
    {
        let mut errors: Vec<ProjectFinderError> = Vec::new();
        let mut outcomes = outcomes;
        let ghost all = outcomes@;
        let mut i: usize = 0;
        assert(error_models(errors@) =~= failures(all.take(0)));
        while i < outcomes.len()
            invariant
                i <= outcomes.len(),
                outcomes@.len() == all.len(),
                forall|j: int| i <= j < all.len() ==> outcomes@[j] == all[j],
                error_models(errors@) == failures(all.take(i as int)),
            decreases outcomes.len() - i,
        {
            let ghost held = error_models(errors@);
            proof {
                assert(all.take(i + 1).drop_last() =~= all.take(i as int));
            }
            let mut outcome: Result<(), ProjectFinderError> = Ok(());
            core::mem::swap(&mut outcome, &mut outcomes[i]);
            match outcome {
                Ok(_) => {},
                Err(e) => {
                    errors.push(e);
                    assert(error_models(errors@) =~= held + seq![e@]);
                },
            }
            i += 1;
        }
        assert(all.take(i as int) =~= all);
        if errors.len() > 0 && errors.len() == self.config.paths.len() {
            return Err(errors.remove(0));
        }
        let mut projects = self.discovered_projects.sorted();
        if self.config.max_results > 0 && projects.len() > self.config.max_results {
            projects.truncate(self.config.max_results);
            assert(path_models(projects@) =~= listing(self.discovered()).take(
                self.config.max_results as int,
            ));
        }
        Ok(projects)
    }
}

/// The models of a run of errors.
pub open spec fn error_models(errors: Seq<ProjectFinderError>) -> Seq<ErrorModel> {
    Seq::new(errors.len(), |i: int| errors[i]@)
}

/// Every scan failed: there are failures, as many as directories to scan.
pub open spec fn all_failed(failures: Seq<ErrorModel>, scans: nat) -> bool {
    failures.len() > 0 && failures.len() == scans
}

/// What a turn of the climb means for the processing of a marker: a question
/// is passed on; an error ends the processing; a root is offered to the
/// discovered roots.
pub open spec fn settled(
    step: StepModel,
    before: Set<PathModel>,
    progress: Progress,
    after: Set<PathModel>,
) -> bool {
    match step {
        StepModel::Ask(next, probe) => {
            &&& progress matches Progress::Ask(resolution, asked)
            &&& resolution@ == next
            &&& asked@ == probe
            &&& after == before
        },
        StepModel::Done(Ok(root)) => {
            &&& progress matches Progress::Done(Ok(_))
            &&& after == arrived(before, Arrival::Candidate(root))
        },
        StepModel::Done(Err(e)) => {
            &&& progress matches Progress::Done(Err(error))
            &&& error@ == e
            &&& after == before
        },
    }
}

} // verus!
