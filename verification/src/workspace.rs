//! How a directory shows that it is the root of a workspace.
//!
//! A fixed list of rules is tried in order. A rule names a file; some rules
//! also give a regular expression that the file's content must match. The
//! first rule that is met makes the directory a workspace root. A
//! `WorkspaceCheck` tries the rules one probe at a time and remembers the
//! verdict.

use vstd::prelude::*;
use crate::cache::WorkspaceCache;
use crate::errors::{ErrorModel, ProjectFinderError};
use crate::path::{PathModel, ProjectPath};
use crate::probe::{answer_model, FileSystem, Probe, ProbeModel};

verus! {

/// The number of workspace rules.
pub const WORKSPACE_RULES: usize = 13;

/// The expression that a Cargo manifest matches when it declares a
/// workspace: the section header `[workspace]` at the start of a line.
pub open spec fn cargo_workspace_pattern() -> Seq<char> {
    "(?m)^\\[workspace\\]"@
}

/// The expression that a Cargo manifest matches when it declares a workspace.
pub fn cargo_workspace_regex() -> (pattern: &'static str)
    ensures
        pattern@ == cargo_workspace_pattern(),
{
    "(?m)^\\[workspace\\]"
}

/// The file that rule `rule` looks for.
pub open spec fn workspace_file(rule: int) -> Seq<char> {
    if rule == 0 {
        "package.json"@
    } else if rule == 1 {
        "deno.json"@
    } else if rule == 2 {
        "deno.jsonc"@
    } else if rule == 3 {
        "bunfig.toml"@
    } else if rule == 4 {
        "Cargo.toml"@
    } else if rule == 5 {
        "rush.json"@
    } else if rule == 6 {
        "nx.json"@
    } else if rule == 7 {
        "turbo.json"@
    } else if rule == 8 {
        "pnpm-workspace.yaml"@
    } else if rule == 9 {
        "lerna.json"@
    } else if rule == 10 {
        "yarn.lock"@
    } else if rule == 11 {
        ".yarnrc.yml"@
    } else {
        "workspace.json"@
    }
}

/// The expression that the file of rule `rule` must match, where the rule asks
/// for more than the file's existence. The first five rules ask for more; the
/// others are met by a file that exists, whatever it holds.
pub open spec fn workspace_pattern(rule: int) -> Option<Seq<char>> {
    if rule == 0 {
        Some("(\"workspaces\"|\"workspace\")"@)
    } else if rule == 1 || rule == 2 {
        Some("(\"workspaces\"|\"imports\")"@)
    } else if rule == 3 {
        Some("workspaces"@)
    } else if rule == 4 {
        Some(cargo_workspace_pattern())
    } else {
        None
    }
}

/// What trying the rules from `rule` on yields for `dir`. With `matching`, the
/// file of `rule` is known to exist and its content is next to be matched. A
/// probe that fails ends the scan with its error.
pub open spec fn workspace_scan(fs: FileSystem, dir: PathModel, rule: int, matching: bool) -> Result<
    bool,
    ErrorModel,
>
    decreases WORKSPACE_RULES - rule, if matching { 0int } else { 1int },
{
    if rule < 0 || rule >= WORKSPACE_RULES {
        Ok(false)
    } else if matching {
        match workspace_pattern(rule) {
            None => Ok(true),
            Some(pattern) => match fs.content_matches(dir.join(workspace_file(rule)), pattern) {
                Err(e) => Err(e),
                Ok(true) => Ok(true),
                Ok(false) => workspace_scan(fs, dir, rule + 1, false),
            },
        }
    } else {
        match fs.has_entry(dir.join(workspace_file(rule))) {
            Err(e) => Err(e),
            Ok(false) => workspace_scan(fs, dir, rule + 1, false),
            Ok(true) => if workspace_pattern(rule) is Some {
                workspace_scan(fs, dir, rule, true)
            } else {
                Ok(true)
            },
        }
    }
}

/// Whether `dir` is the root of a workspace in `fs`.
pub open spec fn is_workspace_root(fs: FileSystem, dir: PathModel) -> Result<bool, ErrorModel> {
    workspace_scan(fs, dir, 0, false)
}

/// A directory in which the file of a rule without an expression exists, and
/// the file of no earlier rule, is a workspace root, whatever the file holds.
pub proof fn lemma_file_alone_makes_workspace(fs: FileSystem, dir: PathModel, rule: int)
    requires
        0 <= rule < WORKSPACE_RULES,
        workspace_pattern(rule) is None,
        fs.has_entry(dir.join(workspace_file(rule))) == Ok::<bool, ErrorModel>(true),
        forall|earlier: int|
            0 <= earlier < rule ==> fs.has_entry(dir.join(#[trigger] workspace_file(earlier)))
                == Ok::<bool, ErrorModel>(false),
    ensures
        is_workspace_root(fs, dir) == Ok::<bool, ErrorModel>(true),
{
    lemma_scan_skips_absent(fs, dir, rule, 0);
}

/// Rules whose file is absent are passed over.
proof fn lemma_scan_skips_absent(fs: FileSystem, dir: PathModel, rule: int, from: int)
    requires
        0 <= from <= rule < WORKSPACE_RULES,
        forall|earlier: int|
            0 <= earlier < rule ==> fs.has_entry(dir.join(#[trigger] workspace_file(earlier)))
                == Ok::<bool, ErrorModel>(false),
    ensures
        workspace_scan(fs, dir, from, false) == workspace_scan(fs, dir, rule, false),
    decreases rule - from,
{
    if from < rule {
        assert(fs.has_entry(dir.join(workspace_file(from))) == Ok::<bool, ErrorModel>(false));
        lemma_scan_skips_absent(fs, dir, rule, from + 1);
    }
}

/// The file and the expression of rule `rule`.
pub(crate) fn workspace_rule(rule: usize) -> (r: (&'static str, Option<&'static str>))
    requires
        rule < WORKSPACE_RULES,
    ensures
        r.0@ == workspace_file(rule as int),
        r.1 is Some <==> workspace_pattern(rule as int) is Some,
        r.1 matches Some(pattern) ==> Some(pattern@) == workspace_pattern(rule as int),
{
    if rule == 0 {
        ("package.json", Some("(\"workspaces\"|\"workspace\")"))
    } else if rule == 1 {
        ("deno.json", Some("(\"workspaces\"|\"imports\")"))
    } else if rule == 2 {
        ("deno.jsonc", Some("(\"workspaces\"|\"imports\")"))
    } else if rule == 3 {
        ("bunfig.toml", Some("workspaces"))
    } else if rule == 4 {
        ("Cargo.toml", Some(cargo_workspace_regex()))
    } else if rule == 5 {
        ("rush.json", None)
    } else if rule == 6 {
        ("nx.json", None)
    } else if rule == 7 {
        ("turbo.json", None)
    } else if rule == 8 {
        ("pnpm-workspace.yaml", None)
    } else if rule == 9 {
        ("lerna.json", None)
    } else if rule == 10 {
        ("yarn.lock", None)
    } else if rule == 11 {
        (".yarnrc.yml", None)
    } else {
        ("workspace.json", None)
    }
}

/// A check of one directory that waits for the answer to a probe.
#[derive(Debug)]
pub struct WorkspaceCheck {
    dir: ProjectPath,
    rule: usize,
    matching: bool,
}

/// A `WorkspaceCheck` over a path model.
pub struct CheckModel {
    /// The directory that is checked.
    pub dir: PathModel,
    /// The rule that is tried.
    pub rule: usize,
    /// Whether the file of the rule is known to exist, and its content is
    /// being matched.
    pub matching: bool,
}

/// How a turn of a check ends: with a question, or with the verdict.
#[derive(Debug)]
pub enum Inquiry {
    /// The check goes on once the probe is answered.
    Ask(WorkspaceCheck, Probe),
    /// The check is over: the directory is a workspace root, or is not, or
    /// a probe failed.
    Known(Result<bool, ProjectFinderError>),
}

/// An `Inquiry` over models.
pub enum InquiryModel {
    Ask(CheckModel, ProbeModel),
    Known(Result<bool, ErrorModel>),
}

impl View for WorkspaceCheck {
    type V = CheckModel;

    closed spec fn view(&self) -> CheckModel {
        CheckModel { dir: self.dir@, rule: self.rule, matching: self.matching }
    }
}

impl View for Inquiry {
    type V = InquiryModel;

    open spec fn view(&self) -> InquiryModel {
        match self {
            Inquiry::Ask(check, probe) => InquiryModel::Ask(check@, probe@),
            Inquiry::Known(verdict) => InquiryModel::Known(answer_model(*verdict)),
        }
    }
}

impl CheckModel {
    /// The rule is one of the list, and has an expression if content is
    /// being matched.
    pub open spec fn wf(self) -> bool {
        self.rule < WORKSPACE_RULES && (self.matching ==> workspace_pattern(self.rule as int)
            is Some)
    }

    /// The probe whose answer this check waits for.
    pub open spec fn pending(self) -> ProbeModel {
        let target = self.dir.join(workspace_file(self.rule as int));
        match workspace_pattern(self.rule as int) {
            Some(pattern) if self.matching => ProbeModel::Matches(target, pattern),
            _ => ProbeModel::Exists(target),
        }
    }
}

/// A turn of a check: how it ends, and the verdicts remembered after it.
pub struct CheckTurn {
    pub step: InquiryModel,
    pub cache: Map<PathModel, bool>,
}

/// The verdicts remembered after `verdict` is noted for `dir`; a verdict
/// noted earlier stays.
pub open spec fn noted(cache: Map<PathModel, bool>, dir: PathModel, verdict: bool) -> Map<
    PathModel,
    bool,
> {
    if cache.contains_key(dir) {
        cache
    } else {
        cache.insert(dir, verdict)
    }
}

/// The turn that ends the check of `dir` with `verdict` and notes it.
pub open spec fn check_known(dir: PathModel, verdict: bool, cache: Map<PathModel, bool>) -> CheckTurn {
    CheckTurn { step: InquiryModel::Known(Ok(verdict)), cache: noted(cache, dir, verdict) }
}

/// The turn that asks the probe of rule `rule`.
pub open spec fn check_ask(dir: PathModel, rule: int, matching: bool, cache: Map<PathModel, bool>) -> CheckTurn {
    let check = CheckModel { dir, rule: rule as usize, matching };
    CheckTurn { step: InquiryModel::Ask(check, check.pending()), cache }
}

/// The turn that goes on to rule `rule`, if there is one; after the last
/// rule the directory is known not to be a workspace root.
pub open spec fn check_from(dir: PathModel, rule: int, cache: Map<PathModel, bool>) -> CheckTurn {
    if rule < WORKSPACE_RULES {
        check_ask(dir, rule, false, cache)
    } else {
        check_known(dir, false, cache)
    }
}

/// The first turn of the check of `dir`: a remembered verdict, or the probe
/// of the first rule.
pub open spec fn check_start(dir: PathModel, cache: Map<PathModel, bool>) -> CheckTurn {
    if cache.contains_key(dir) {
        CheckTurn { step: InquiryModel::Known(Ok(cache[dir])), cache }
    } else {
        check_from(dir, 0, cache)
    }
}

/// The turn that follows `answer` to the pending probe of `check`.
pub open spec fn check_step(
    check: CheckModel,
    answer: Result<bool, ErrorModel>,
    cache: Map<PathModel, bool>,
) -> CheckTurn {
    match answer {
        Err(e) => CheckTurn { step: InquiryModel::Known(Err(e)), cache },
        Ok(yes) => if !yes {
            check_from(check.dir, check.rule + 1, cache)
        } else if check.matching || workspace_pattern(check.rule as int) is None {
            check_known(check.dir, true, cache)
        } else {
            check_ask(check.dir, check.rule as int, true, cache)
        },
    }
}

/// Every remembered verdict is what `fs` gives.
pub open spec fn verdicts_agree(fs: FileSystem, cache: Map<PathModel, bool>) -> bool {
    forall|dir: PathModel| #[trigger]
        cache.contains_key(dir) ==> is_workspace_root(fs, dir) == Ok::<bool, ErrorModel>(
            cache[dir],
        )
}

/// The check has come to where it is by answers of `fs`: the rules that it
/// has passed over are not met.
pub open spec fn check_on_track(fs: FileSystem, check: CheckModel) -> bool {
    workspace_scan(fs, check.dir, check.rule as int, check.matching) == is_workspace_root(
        fs,
        check.dir,
    )
}

/// A turn of the check of `dir` is sound for `fs`: the remembered verdicts
/// agree with `fs`; a verdict is what the rules give; a check that goes on is
/// on track.
pub open spec fn check_sound(fs: FileSystem, dir: PathModel, turn: CheckTurn) -> bool {
    &&& verdicts_agree(fs, turn.cache)
    &&& match turn.step {
        InquiryModel::Known(verdict) => verdict == is_workspace_root(fs, dir),
        InquiryModel::Ask(check, probe) => {
            &&& check.wf()
            &&& check.dir == dir
            &&& check_on_track(fs, check)
            &&& probe == check.pending()
        },
    }
}

/// An upper bound on the probes that a check still asks.
pub open spec fn rules_left(check: CheckModel) -> nat {
    if check.rule < WORKSPACE_RULES {
        (2 * (WORKSPACE_RULES - check.rule) + if check.matching {
            0int
        } else {
            1int
        }) as nat
    } else {
        0
    }
}

/// A turn leaves fewer probes to ask than `bound`.
pub open spec fn check_within(turn: CheckTurn, bound: nat) -> bool {
    turn.step matches InquiryModel::Ask(next, _) ==> rules_left(next) < bound
}

/// The first turn of a check is sound, if the remembered verdicts agree with
/// the file system.
pub proof fn lemma_check_start_sound(fs: FileSystem, dir: PathModel, cache: Map<PathModel, bool>)
    requires
        verdicts_agree(fs, cache),
    ensures
        check_sound(fs, dir, check_start(dir, cache)),
        check_within(check_start(dir, cache), 28),
{
}

/// The turn that follows the file system's answer to the pending probe is
/// sound, if the check was on track and the remembered verdicts agree with
/// the file system. It leaves fewer probes to ask than there were.
pub proof fn lemma_check_step_sound(fs: FileSystem, check: CheckModel, cache: Map<PathModel, bool>)
    requires
        check.wf(),
        check_on_track(fs, check),
        verdicts_agree(fs, cache),
    ensures
        check_sound(fs, check.dir, check_step(check, fs.ask(check.pending()), cache)),
        check_within(check_step(check, fs.ask(check.pending()), cache), rules_left(check)),
{
    let here = workspace_scan(fs, check.dir, check.rule as int, check.matching);
    match fs.ask(check.pending()) {
        Err(e) => {
            assert(here == Err::<bool, ErrorModel>(e));
        },
        Ok(yes) => {
            if !yes {
                assert(here == workspace_scan(fs, check.dir, check.rule + 1, false));
                if check.rule + 1 < WORKSPACE_RULES {
                    let next = CheckModel {
                        dir: check.dir,
                        rule: (check.rule + 1) as usize,
                        matching: false,
                    };
                    assert(check_on_track(fs, next));
                } else {
                    assert(here == Ok::<bool, ErrorModel>(false));
                }
            } else if check.matching || workspace_pattern(check.rule as int) is None {
                assert(here == Ok::<bool, ErrorModel>(true));
            } else {
                assert(here == workspace_scan(fs, check.dir, check.rule as int, true));
            }
        },
    }
}

impl WorkspaceCheck {
    /// The rule is one of the list. This holds of every `WorkspaceCheck`.
    pub open spec fn wf(&self) -> bool {
        self@.wf()
    }

    #[verifier::type_invariant]
    spec fn well_formed(&self) -> bool {
        self@.wf()
    }

    /// The rule that is tried.
    pub fn rule(&self) -> (rule: usize)
        ensures
            rule == self@.rule,
    {
        self.rule
    }

    /// Whether the content of the rule's file is being matched.
    pub fn matching(&self) -> (matching: bool)
        ensures
            matching == self@.matching,
    {
        self.matching
    }

    /// The check of `dir` at rule `rule`.
    pub(crate) fn resume(dir: ProjectPath, rule: usize, matching: bool) -> (check: WorkspaceCheck)
        requires
            (CheckModel { dir: dir@, rule, matching }).wf(),
        ensures
            check@ == (CheckModel { dir: dir@, rule, matching }),
    {
        WorkspaceCheck { dir, rule, matching }
    }

    fn ask(dir: ProjectPath, rule: usize, matching: bool) -> (inquiry: Inquiry)
        requires
            (CheckModel { dir: dir@, rule, matching }).wf(),
        ensures
            inquiry@ == InquiryModel::Ask(
                CheckModel { dir: dir@, rule, matching },
                (CheckModel { dir: dir@, rule, matching }).pending(),
            ),
            inquiry matches Inquiry::Ask(check, _) && check.wf(),
    {
        let (file, pattern) = workspace_rule(rule);
        let target = dir.join(file);
        let probe = match pattern {
            Some(pattern) if matching => Probe::Matches(target, pattern.to_owned()),
            _ => Probe::Exists(target),
        };
        Inquiry::Ask(WorkspaceCheck { dir, rule, matching }, probe)
    }

    fn known(dir: ProjectPath, verdict: bool, cache: &mut WorkspaceCache) -> (inquiry: Inquiry)
        ensures
            inquiry@ == check_known(dir@, verdict, old(cache)@).step,
            final(cache)@ == check_known(dir@, verdict, old(cache)@).cache,
    {
        cache.record(dir, verdict);
        Inquiry::Known(Ok(verdict))
    }

    fn from(dir: ProjectPath, rule: usize, cache: &mut WorkspaceCache) -> (inquiry: Inquiry)
        requires
            rule <= WORKSPACE_RULES,
        ensures
            inquiry@ == check_from(dir@, rule as int, old(cache)@).step,
            final(cache)@ == check_from(dir@, rule as int, old(cache)@).cache,
            inquiry matches Inquiry::Ask(check, _) ==> check.wf(),
    {
        if rule < WORKSPACE_RULES {
            Self::ask(dir, rule, false)
        } else {
            Self::known(dir, false, cache)
        }
    }

    /// Begins to check whether `dir` is the root of a workspace. A verdict
    /// that `cache` holds for `dir` is returned at once.
    pub fn start(dir: ProjectPath, cache: &mut WorkspaceCache) -> (inquiry: Inquiry)
        ensures
            inquiry@ == check_start(dir@, old(cache)@).step,
            final(cache)@ == check_start(dir@, old(cache)@).cache,
            inquiry matches Inquiry::Ask(check, _) ==> check.wf(),
    {
        match cache.get(&dir) {
            Some(verdict) => Inquiry::Known(Ok(verdict)),
            None => Self::from(dir, 0, cache),
        }
    }

    /// Goes on with the check, given the answer to the probe it waits for.
    /// An answer that is an error ends the check with that error, and
    /// nothing is remembered.
    pub fn step(self, answer: Result<bool, ProjectFinderError>, cache: &mut WorkspaceCache) -> (inquiry:
        Inquiry)
        ensures
            self.wf(),
            inquiry@ == check_step(self@, answer_model(answer), old(cache)@).step,
            final(cache)@ == check_step(self@, answer_model(answer), old(cache)@).cache,
            inquiry matches Inquiry::Ask(check, _) ==> check.wf(),
    {
        proof {
            use_type_invariant(&self);
        }
        let yes = match answer {
            Err(e) => {
                return Inquiry::Known(Err(e));
            },
            Ok(yes) => yes,
        };
        if !yes {
            Self::from(self.dir, self.rule + 1, cache)
        } else if self.matching || workspace_rule(self.rule).1.is_none() {
            Self::known(self.dir, true, cache)
        } else {
            Self::ask(self.dir, self.rule, true)
        }
    }
}

} // verus!
