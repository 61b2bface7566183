//! The searches that discovery runs with `fd`, and the matching of file contents.
//!
//! Nothing here starts a process or reads a file. A search is described by the
//! `Invocation` to run; what it prints comes back as paths and is sorted out here.

use vstd::prelude::*;
use vstd::string::StringExecFns;
use crate::dependencies::Dependencies;
use crate::errors::{ErrorModel, ProjectFinderError};
use crate::order::{names, text_eq};
use crate::path::{PathModel, ProjectPath};
use crate::projects::path_models;

verus! {

/// A program and the arguments to run it with.
#[derive(Debug, Clone, PartialEq, Eq)]
pub struct Invocation {
    pub program: String,
    pub args: Vec<String>,
}

/// Whether `c` has a meaning of its own in a regular expression.
pub open spec fn is_meta_character(c: char) -> bool {
    c == '\\' || c == '.' || c == '+' || c == '*' || c == '?' || c == '(' || c == ')' || c == '|'
        || c == '[' || c == ']' || c == '{' || c == '}' || c == '^' || c == '$' || c == '#' || c
        == '&' || c == '-' || c == '~'
}

/// `text` with a backslash before each character that has a meaning of its
/// own in a regular expression.
pub open spec fn escaped(text: Seq<char>) -> Seq<char>
    decreases text.len(),
{
    if text.len() == 0 {
        Seq::empty()
    } else if is_meta_character(text.last()) {
        escaped(text.drop_last()).push('\\').push(text.last())
    } else {
        escaped(text.drop_last()).push(text.last())
    }
}

/// Whether `pattern` is a regular expression that `regex` compiles.
pub uninterp spec fn regex_compiles(pattern: Seq<char>) -> bool;

/// Whether the regular expression `pattern` matches somewhere in `haystack`.
pub uninterp spec fn regex_matches(pattern: Seq<char>, haystack: Seq<char>) -> bool;

/// What `regex` says of a `pattern` that it does not compile: the message of
/// the error, as the error displays it.
pub uninterp spec fn regex_failure(pattern: Seq<char>) -> Seq<char>;

/// `regex::escape`: a copy of `text` with a backslash before each of the
/// eighteen characters that `regex_syntax::is_meta_character` accepts.
#[verifier::external_body]
fn escape(text: &str) -> (quoted: String)
    ensures
        quoted@ == escaped(text@),
{
    regex::escape(text)
}

/// `regex::Regex::new` and then `Regex::is_match`: compiles `pattern` and
/// searches `haystack` for a match. It fails exactly if the pattern does not
/// compile, and then gives the message of the compiler's `regex::Error`, as
/// its `Display` impl writes it. Each outcome depends on the texts alone.
#[verifier::external_body]
fn regex_search(pattern: &str, haystack: &str) -> (found: Result<bool, String>)
    ensures
        found is Ok <==> regex_compiles(pattern@),
        found matches Ok(yes) ==> yes == regex_matches(pattern@, haystack@),
        found matches Err(reason) ==> reason@ == regex_failure(pattern@),
{
    match regex::Regex::new(pattern) {
        Ok(re) => Ok(re.is_match(haystack)),
        Err(error) => Err(format!("{error}")),
    }
}

/// The error for an action that failed: the action, a colon, and the reason.
pub fn wrap_command_error(action: &str, err: &str) -> (e: ProjectFinderError)
    ensures
        e@ == ErrorModel::CommandExecutionFailed(action@ + ": "@ + err@),
{
    let text = String::from_str(action).concat(": ").concat(err);
    ProjectFinderError::CommandExecutionFailed(text)
}

/// The error for a file that could not be read.
pub fn read_failure(file: &str, reason: &str) -> (e: ProjectFinderError)
    ensures
        e@ == ErrorModel::CommandExecutionFailed("Failed to read file "@ + file@ + ": "@ + reason@),
{
    let text = String::from_str("Failed to read file ").concat(file).concat(": ").concat(reason);
    ProjectFinderError::CommandExecutionFailed(text)
}

/// The text of the error for a pattern that does not compile.
pub open spec fn invalid_pattern_text(pattern: Seq<char>, reason: Seq<char>) -> Seq<char> {
    "Invalid regex patter "@ + pattern + ": "@ + reason
}

/// What a search with `pattern` amounts to: the answer of a search that ran,
/// or the error for a pattern that did not compile, with the compiler's
/// message as the reason.
pub fn search_outcome(pattern: &str, searched: Result<bool, String>) -> (r: Result<
    bool,
    ProjectFinderError,
>)
    ensures
        match searched {
            Ok(found) => r == Ok::<bool, ProjectFinderError>(found),
            Err(reason) => r matches Err(e) && e@ == ErrorModel::CommandExecutionFailed(
                invalid_pattern_text(pattern@, reason@),
            ),
        },
{
    match searched {
        Ok(found) => Ok(found),
        Err(reason) => {
            let action = String::from_str("Invalid regex patter ").concat(pattern);
            Err(wrap_command_error(action.as_str(), reason.as_str()))
        },
    }
}

/// Whether the regular expression `pattern` matches somewhere in `contents`,
/// the content of a file. A pattern that does not compile is an error, never
/// "no match".
pub fn grep_file_in_memory(contents: &str, pattern: &str) -> (r: Result<bool, ProjectFinderError>)
    ensures
        r is Ok <==> regex_compiles(pattern@),
        r matches Ok(found) ==> found == regex_matches(pattern@, contents@),
        r matches Err(e) ==> e@ == ErrorModel::CommandExecutionFailed(
            invalid_pattern_text(pattern@, regex_failure(pattern@)),
        ),
{
    search_outcome(pattern, regex_search(pattern, contents))
}

/// The text of one decimal digit.
pub open spec fn digit(d: nat) -> Seq<char> {
    if d == 0 {
        "0"@
    } else if d == 1 {
        "1"@
    } else if d == 2 {
        "2"@
    } else if d == 3 {
        "3"@
    } else if d == 4 {
        "4"@
    } else if d == 5 {
        "5"@
    } else if d == 6 {
        "6"@
    } else if d == 7 {
        "7"@
    } else if d == 8 {
        "8"@
    } else {
        "9"@
    }
}

/// `n` in decimal digits, without leading zeros.
pub open spec fn decimal(n: nat) -> Seq<char>
    decreases n,
{
    if n < 10 {
        digit(n)
    } else {
        decimal(n / 10) + digit(n % 10)
    }
}

fn digit_text(d: usize) -> (text: &'static str)
    requires
        d < 10,
    ensures
        text@ == digit(d as nat),
{
    if d == 0 {
        "0"
    } else if d == 1 {
        "1"
    } else if d == 2 {
        "2"
    } else if d == 3 {
        "3"
    } else if d == 4 {
        "4"
    } else if d == 5 {
        "5"
    } else if d == 6 {
        "6"
    } else if d == 7 {
        "7"
    } else if d == 8 {
        "8"
    } else {
        "9"
    }
}

/// `n` in decimal digits.
pub fn decimal_text(n: usize) -> (text: String)
    ensures
        text@ == decimal(n as nat),
    decreases n,
{
    if n < 10 {
        String::from_str(digit_text(n))
    } else {
        decimal_text(n / 10).concat(digit_text(n % 10))
    }
}

/// The texts of a run of string slices.
pub open spec fn texts(slices: Seq<&str>) -> Seq<Seq<char>> {
    Seq::new(slices.len(), |i: int| slices[i]@)
}

/// The escaped names, with a bar between each two.
pub open spec fn alternatives(patterns: Seq<Seq<char>>) -> Seq<char>
    decreases patterns.len(),
{
    if patterns.len() == 0 {
        Seq::empty()
    } else if patterns.len() == 1 {
        escaped(patterns[0])
    } else {
        alternatives(patterns.drop_last()) + "|"@ + escaped(patterns.last())
    }
}

/// The pattern of a search by names: the escaped names as alternatives, in
/// one group.
pub open spec fn combined_pattern(patterns: Seq<Seq<char>>) -> Seq<char> {
    "("@ + alternatives(patterns) + ")"@
}

/// The pattern of a search for any of the literal names `patterns`.
pub fn combine_patterns(patterns: &[&str]) -> (combined: String)
    ensures
        combined@ == combined_pattern(texts(patterns@)),
{
    let mut combined = String::from_str("(");
    let ghost all = texts(patterns@);
    let mut i: usize = 0;
    while i < patterns.len()
        invariant
            i <= patterns.len(),
            all == texts(patterns@),
            combined@ == "("@ + alternatives(all.take(i as int)),
        decreases patterns.len() - i,
    {
        if i > 0 {
            combined.append("|");
        }
        let quoted = escape(patterns[i]);
        combined.append(quoted.as_str());
        proof {
            let done = all.take(i as int);
            let next = all.take(i + 1);
            assert(next.drop_last() =~= done);
            assert(next.last() == patterns@[i as int]@);
            assert(combined@ =~= "("@ + alternatives(next));
        }
        i += 1;
    }
    assert(all.take(i as int) =~= all);
    combined.append(")");
    combined
}

/// The arguments of the search for files called by any of `patterns`, at
/// most `max_depth` levels below `dir`: hidden files too, and those that
/// version control ignores.
pub open spec fn find_files_args(patterns: Seq<Seq<char>>, max_depth: nat, dir: Seq<char>) -> Seq<
    Seq<char>,
> {
    seq![
        "--hidden"@,
        "--no-ignore-vcs"@,
        "--type"@,
        "f"@,
        "--max-depth"@,
        decimal(max_depth),
        combined_pattern(patterns),
        dir,
    ]
}

/// The arguments of the search for directories called `.git`, at most
/// `max_depth` levels below `dir`.
pub open spec fn find_git_repos_args(max_depth: nat, dir: Seq<char>) -> Seq<Seq<char>> {
    seq!["--hidden"@, "--type"@, "d"@, "--max-depth"@, decimal(max_depth), "^.git$"@, dir]
}

/// The command that finds the files called by any of `patterns` below `dir`.
pub fn find_files_command(deps: &Dependencies, dir: &str, patterns: &[&str], max_depth: usize) -> (command:
    Invocation)
    ensures
        command.program@ == deps.fd_path@,
        names(command.args@) == find_files_args(texts(patterns@), max_depth as nat, dir@),
{
    let mut args: Vec<String> = Vec::new();
    args.push(String::from_str("--hidden"));
    args.push(String::from_str("--no-ignore-vcs"));
    args.push(String::from_str("--type"));
    args.push(String::from_str("f"));
    args.push(String::from_str("--max-depth"));
    args.push(decimal_text(max_depth));
    args.push(combine_patterns(patterns));
    args.push(String::from_str(dir));
    assert(names(args@) =~= find_files_args(texts(patterns@), max_depth as nat, dir@));
    Invocation { program: deps.fd_path.clone(), args }
}

/// The command that finds the `.git` directories below `dir`.
pub fn find_git_repos_command(deps: &Dependencies, dir: &str, max_depth: usize) -> (command:
    Invocation)
    ensures
        command.program@ == deps.fd_path@,
        names(command.args@) == find_git_repos_args(max_depth as nat, dir@),
{
    let mut args: Vec<String> = Vec::new();
    args.push(String::from_str("--hidden"));
    args.push(String::from_str("--type"));
    args.push(String::from_str("d"));
    args.push(String::from_str("--max-depth"));
    args.push(decimal_text(max_depth));
    args.push(String::from_str("^.git$"));
    args.push(String::from_str(dir));
    assert(names(args@) =~= find_git_repos_args(max_depth as nat, dir@));
    Invocation { program: deps.fd_path.clone(), args }
}

/// Whether `path` ends in `name`.
pub open spec fn is_called(path: PathModel, name: Seq<char>) -> bool {
    path.file_name() == Some(name)
}

/// The paths among `found` that end in `name`, in the order found.
pub open spec fn called(found: Seq<PathModel>, name: Seq<char>) -> Seq<PathModel> {
    found.filter(|path: PathModel| is_called(path, name))
}

/// None of the first `upto` patterns is the same as pattern `i`.
pub open spec fn unlike_first(patterns: Seq<Seq<char>>, i: int, upto: int) -> bool {
    forall|j: int| 0 <= j < upto ==> #[trigger] patterns[j] != patterns[i]
}

/// No earlier pattern is the same as pattern `i`.
pub open spec fn first_of_its_name(patterns: Seq<Seq<char>>, i: int) -> bool {
    unlike_first(patterns, i, i)
}

/// The files of the group of pattern `i`, where a search has found `found`:
/// those that end in the pattern. There are none where the search did not
/// succeed, whatever it printed, nor where the pattern repeats an earlier one.
pub open spec fn group_of(success: bool, patterns: Seq<Seq<char>>, i: int, found: Seq<PathModel>) -> Seq<
    PathModel,
> {
    if success && first_of_its_name(patterns, i) {
        called(found, patterns[i])
    } else {
        Seq::empty()
    }
}

/// Sorts the files that a search found by the pattern that each ends in.
/// Every pattern has a group, in the order of `patterns`; a file whose name
/// is none of the patterns is left out. A search that did not succeed has
/// found nothing, whatever it printed: every group is empty then.
pub fn find_files(success: bool, patterns: &[&str], found: &Vec<ProjectPath>) -> (groups: Vec<
    (String, Vec<ProjectPath>),
>)
    ensures
        groups@.len() == patterns@.len(),
        forall|i: int|
            0 <= i < patterns@.len() ==> (#[trigger] groups@[i]).0@ == patterns@[i]@
                && path_models(groups@[i].1@) == group_of(
                success,
                texts(patterns@),
                i,
                path_models(found@),
            ),
{
    let ghost all = texts(patterns@);
    let ghost models = path_models(found@);
    let mut groups: Vec<(String, Vec<ProjectPath>)> = Vec::new();
    let mut i: usize = 0;
    while i < patterns.len()
        invariant
            i <= patterns.len(),
            all == texts(patterns@),
            models == path_models(found@),
            groups@.len() == i,
            forall|k: int|
                0 <= k < i ==> (#[trigger] groups@[k]).0@ == patterns@[k]@ && path_models(
                    groups@[k].1@,
                ) == group_of(success, all, k, models),
        decreases patterns.len() - i,
    {
        let name = patterns[i];
        let mut first = true;
        let mut j: usize = 0;
        while j < i
            invariant
                j <= i,
                i < patterns.len(),
                all == texts(patterns@),
                name == patterns@[i as int],
                first == unlike_first(all, i as int, j as int),
            decreases i - j,
        {
            assert(all[j as int] == patterns@[j as int]@ && all[i as int] == name@);
            if text_eq(patterns[j], name) {
                first = false;
            }
            j += 1;
        }
        let mut group: Vec<ProjectPath> = Vec::new();
        if success && first {
            let mut k: usize = 0;
            assert(models.take(0) =~= Seq::<PathModel>::empty());
            assert(called(Seq::<PathModel>::empty(), name@) =~= Seq::<PathModel>::empty()) by {
                reveal(Seq::filter);
            }
            assert(path_models(group@) =~= Seq::<PathModel>::empty());
            while k < found.len()
                invariant
                    k <= found.len(),
                    models == path_models(found@),
                    path_models(group@) == called(models.take(k as int), name@),
                decreases found.len() - k,
            {
                let ghost held = path_models(group@);
                let ends_in_name = match found[k].file_name() {
                    Some(last) => text_eq(last, name),
                    None => false,
                };
                if ends_in_name {
                    group.push(found[k].duplicate());
                    assert(path_models(group@) =~= held.push(models[k as int]));
                }
                proof {
                    let done = models.take(k as int);
                    assert(models.take(k + 1) =~= done.push(models[k as int]));
                    done.lemma_filter_push(
                        models[k as int],
                        |path: PathModel| is_called(path, name@),
                    );
                }
                k += 1;
            }
            assert(models.take(k as int) =~= models);
        } else {
            assert(path_models(group@) =~= Seq::<PathModel>::empty());
        }
        groups.push((String::from_str(name), group));
        i += 1;
    }
    groups
}

/// The directories that hold the `.git` directories found: their parents,
/// in the order found. A path without a parent gives none.
pub open spec fn parents_of(found: Seq<PathModel>) -> Seq<PathModel> {
    found.filter_map(|path: PathModel| path.parent())
}

/// The repositories that the search for `.git` directories found. A search
/// that did not succeed has found none, whatever it printed; one that
/// succeeded and printed what is not UTF-8 is an error, given here by the
/// decoder's message.
pub fn find_git_repos(success: bool, found: Result<Vec<ProjectPath>, String>) -> (r: Result<
    Vec<ProjectPath>,
    ProjectFinderError,
>)
    ensures
        match r {
            Ok(repos) => if success {
                found matches Ok(dirs) && path_models(repos@) == parents_of(path_models(dirs@))
            } else {
                repos@.len() == 0
            },
            Err(e) => success && (found matches Err(text) && e@ == ErrorModel::Utf8Error(text@)),
        },
{
    if !success {
        return Ok(Vec::new());
    }
    let dirs = match found {
        Ok(dirs) => dirs,
        Err(text) => {
            return Err(ProjectFinderError::Utf8Error(text));
        },
    };
    let ghost models = path_models(dirs@);
    let mut repos: Vec<ProjectPath> = Vec::new();
    let mut i: usize = 0;
    assert(path_models(repos@) =~= parents_of(models.take(0)));
    while i < dirs.len()
        invariant
            i <= dirs.len(),
            models == path_models(dirs@),
            path_models(repos@) == parents_of(models.take(i as int)),
        decreases dirs.len() - i,
    {
        let ghost held = path_models(repos@);
        proof {
            assert(models.take(i + 1).drop_last() =~= models.take(i as int));
        }
        match dirs[i].parent() {
            Some(repo) => {
                repos.push(repo);
                assert(path_models(repos@) =~= held + seq![repo@]);
            },
            None => {},
        }
        i += 1;
    }
    assert(models.take(i as int) =~= models);
    Ok(repos)
}

} // verus!
