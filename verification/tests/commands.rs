use project_finder::commands::{
    combine_patterns, decimal_text, find_files, find_files_command, find_git_repos,
    find_git_repos_command, grep_file_in_memory, read_failure, search_outcome,
    wrap_command_error,
};
use project_finder::dependencies::Dependencies;
use project_finder::errors::ProjectFinderError;
use project_finder::finder::MARKER_PATTERNS;
use project_finder::path::ProjectPath;

fn file_at(text: &str) -> ProjectPath {
    let absolute = text.starts_with('/');
    let components = text.split('/').filter(|part| !part.is_empty()).map(str::to_string).collect();
    ProjectPath::new(absolute, components)
}

#[test]
fn wrap_command_error_joins_action_and_reason() {
    assert_eq!(
        wrap_command_error("Failed to wait process", "interrupted"),
        ProjectFinderError::CommandExecutionFailed("Failed to wait process: interrupted".to_string())
    );
    assert_eq!(
        wrap_command_error("", ""),
        ProjectFinderError::CommandExecutionFailed(": ".to_string())
    );
}

#[test]
fn read_failure_names_the_file() {
    assert_eq!(
        read_failure("/root/package.json", "permission denied"),
        ProjectFinderError::CommandExecutionFailed(
            "Failed to read file /root/package.json: permission denied".to_string()
        )
    );
}

#[test]
fn decimal_text_of_numbers() {
    assert_eq!(decimal_text(0), "0");
    assert_eq!(decimal_text(5), "5");
    assert_eq!(decimal_text(9), "9");
    assert_eq!(decimal_text(10), "10");
    assert_eq!(decimal_text(101), "101");
    assert_eq!(decimal_text(1234567890), "1234567890");
    assert_eq!(decimal_text(usize::MAX), usize::MAX.to_string());
}

#[test]
fn combine_patterns_escapes_each_name() {
    assert_eq!(combine_patterns(&["package.json"]), "(package\\.json)");
    assert_eq!(combine_patterns(&["Cargo.toml", "Makefile"]), "(Cargo\\.toml|Makefile)");
    assert_eq!(combine_patterns(&["a", "b", "c"]), "(a|b|c)");
}

#[test]
fn combine_patterns_without_names() {
    assert_eq!(combine_patterns(&[]), "()");
}

#[test]
fn combine_patterns_escapes_every_meta_character() {
    assert_eq!(
        combine_patterns(&["\\.+*?()|[]{}^$#&-~"]),
        "(\\\\\\.\\+\\*\\?\\(\\)\\|\\[\\]\\{\\}\\^\\$\\#\\&\\-\\~)"
    );
    assert_eq!(combine_patterns(&["a/b c%d!e\"f"]), "(a/b c%d!e\"f)");
}

#[test]
fn combine_marker_patterns() {
    assert_eq!(
        combine_patterns(&MARKER_PATTERNS),
        "(package\\.json|pnpm\\-workspace\\.yaml|lerna\\.json|Cargo\\.toml|go\\.mod|pyproject\\.toml|CMakeLists\\.txt|Makefile|justfile|Justfile|deno\\.json|deno\\.jsonc|bunfig\\.toml)"
    );
}

#[test]
fn combined_pattern_matches_exactly_the_names() {
    let pattern = format!("^{}$", combine_patterns(&["package.json", "a+b"]));
    assert_eq!(grep_file_in_memory("package.json", &pattern), Ok(true));
    assert_eq!(grep_file_in_memory("a+b", &pattern), Ok(true));
    assert_eq!(grep_file_in_memory("packageXjson", &pattern), Ok(false));
    assert_eq!(grep_file_in_memory("aab", &pattern), Ok(false));
}

#[test]
fn find_files_command_arguments() {
    let deps = Dependencies::new("/usr/bin/fd".to_string());
    let command = find_files_command(&deps, "/home/me", &["Cargo.toml", "go.mod"], 5);
    assert_eq!(command.program, "/usr/bin/fd");
    assert_eq!(
        command.args,
        vec![
            "--hidden",
            "--no-ignore-vcs",
            "--type",
            "f",
            "--max-depth",
            "5",
            "(Cargo\\.toml|go\\.mod)",
            "/home/me",
        ]
    );
}

#[test]
fn find_git_repos_command_arguments() {
    let deps = Dependencies::new("fdfind".to_string());
    let command = find_git_repos_command(&deps, ".", 12);
    assert_eq!(command.program, "fdfind");
    assert_eq!(
        command.args,
        vec!["--hidden", "--type", "d", "--max-depth", "12", "^.git$", "."]
    );
}

#[test]
fn find_files_groups_by_exact_name() {
    let found = vec![
        file_at("/r/a/Cargo.toml"),
        file_at("/r/package.json"),
        file_at("/r/b/Cargo.toml"),
        file_at("/r/b/Cargo.toml.orig"),
        file_at("/r/my-package.json"),
    ];
    let groups = find_files(true, &["package.json", "Cargo.toml", "go.mod"], &found);
    assert_eq!(
        groups,
        vec![
            ("package.json".to_string(), vec![file_at("/r/package.json")]),
            ("Cargo.toml".to_string(), vec![file_at("/r/a/Cargo.toml"), file_at("/r/b/Cargo.toml")]),
            ("go.mod".to_string(), vec![]),
        ]
    );
}

#[test]
fn find_files_without_results_keeps_every_pattern() {
    let groups = find_files(true, &MARKER_PATTERNS, &Vec::new());
    assert_eq!(groups.len(), 13);
    for (group, pattern) in groups.iter().zip(MARKER_PATTERNS.iter()) {
        assert_eq!(group.0, *pattern);
        assert!(group.1.is_empty());
    }
}

#[test]
fn find_files_gives_a_repeated_pattern_one_group_with_files() {
    let found = vec![file_at("/r/Makefile"), file_at("/r/x/Makefile")];
    let groups = find_files(true, &["Makefile", "go.mod", "Makefile"], &found);
    assert_eq!(
        groups,
        vec![
            ("Makefile".to_string(), vec![file_at("/r/Makefile"), file_at("/r/x/Makefile")]),
            ("go.mod".to_string(), vec![]),
            ("Makefile".to_string(), vec![]),
        ]
    );
}

#[test]
fn find_files_ignores_paths_without_a_name() {
    let found = vec![file_at("/"), file_at(""), file_at("Makefile")];
    let groups = find_files(true, &["Makefile"], &found);
    assert_eq!(groups, vec![("Makefile".to_string(), vec![file_at("Makefile")])]);
}

#[test]
fn find_files_of_a_failed_search_is_empty() {
    let found = vec![file_at("/r/Makefile"), file_at("/r/go.mod")];
    assert_eq!(
        find_files(false, &["Makefile", "go.mod"], &found),
        vec![("Makefile".to_string(), vec![]), ("go.mod".to_string(), vec![])]
    );
    let groups = find_files(false, &MARKER_PATTERNS, &vec![file_at("/r/package.json")]);
    assert_eq!(groups.len(), 13);
    for (group, pattern) in groups.iter().zip(MARKER_PATTERNS.iter()) {
        assert_eq!(group.0, *pattern);
        assert!(group.1.is_empty());
    }
}

#[test]
fn find_git_repos_gives_the_parents() {
    let found = vec![file_at("/r/.git"), file_at("/r/sub/deep/.git"), file_at("x/.git")];
    assert_eq!(
        find_git_repos(true, Ok(found)),
        Ok(vec![file_at("/r"), file_at("/r/sub/deep"), file_at("x")])
    );
}

#[test]
fn find_git_repos_skips_paths_without_a_parent() {
    let found = vec![file_at("/"), file_at(".git"), file_at(""), file_at("/.git")];
    assert_eq!(find_git_repos(true, Ok(found)), Ok(vec![file_at(""), file_at("/")]));
}

#[test]
fn find_git_repos_of_a_failed_search_is_empty() {
    assert_eq!(find_git_repos(false, Ok(vec![file_at("/r/.git")])), Ok(vec![]));
    assert_eq!(find_git_repos(false, Err("invalid utf-8".to_string())), Ok(vec![]));
}

#[test]
fn find_git_repos_reports_undecodable_output() {
    assert_eq!(
        find_git_repos(true, Err("invalid utf-8 sequence of 1 bytes from index 0".to_string())),
        Err(ProjectFinderError::Utf8Error(
            "invalid utf-8 sequence of 1 bytes from index 0".to_string()
        ))
    );
}

#[test]
fn grep_finds_a_match_anywhere() {
    assert_eq!(grep_file_in_memory("{\n  \"workspaces\": [\"a\"]\n}", "\"workspaces\""), Ok(true));
    assert_eq!(grep_file_in_memory("{\n  \"name\": \"x\"\n}", "\"workspaces\""), Ok(false));
    assert_eq!(grep_file_in_memory("", "workspaces"), Ok(false));
}

#[test]
fn grep_error_carries_the_message_of_the_pattern() {
    let first = grep_file_in_memory("one text", "a(b");
    let second = grep_file_in_memory("another text", "a(b");
    assert!(first.is_err());
    assert_eq!(first, second);
    assert_ne!(first, grep_file_in_memory("one text", "a[b"));
}

#[test]
fn grep_rejects_a_malformed_pattern() {
    match grep_file_in_memory("anything", "foo(bar") {
        Err(ProjectFinderError::CommandExecutionFailed(text)) => {
            assert!(text.starts_with("Invalid regex patter foo(bar: "), "{text}");
            assert!(text.len() > "Invalid regex patter foo(bar: ".len());
        }
        other => panic!("unexpected: {other:?}"),
    }
}

#[test]
fn grep_rejects_a_pattern_that_is_too_big() {
    assert!(matches!(
        grep_file_in_memory("", "\\w{1000}\\w{1000}"),
        Err(ProjectFinderError::CommandExecutionFailed(_))
    ));
}

#[test]
fn search_outcome_passes_an_answer_on() {
    assert_eq!(search_outcome("a+", Ok(true)), Ok(true));
    assert_eq!(search_outcome("a+", Ok(false)), Ok(false));
}

#[test]
fn search_outcome_words_the_error() {
    assert_eq!(
        search_outcome("a(", Err("unclosed group".to_string())),
        Err(ProjectFinderError::CommandExecutionFailed(
            "Invalid regex patter a(: unclosed group".to_string()
        ))
    );
}
