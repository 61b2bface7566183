use project_finder::cache::Caches;
use project_finder::commands::{grep_file_in_memory, read_failure};
use project_finder::errors::ProjectFinderError;
use project_finder::marker::MarkerType;
use project_finder::path::ProjectPath;
use project_finder::probe::Probe;
use project_finder::resolver::{Resolution, Step};
use std::collections::{BTreeMap, BTreeSet};

fn at(text: &str) -> ProjectPath {
    let absolute = text.starts_with('/');
    let components = text.split('/').filter(|part| !part.is_empty()).map(str::to_string).collect();
    ProjectPath::new(absolute, components)
}

fn show(path: &ProjectPath) -> String {
    let names = path.components.join("/");
    if path.absolute {
        format!("/{names}")
    } else {
        names
    }
}

fn show_probe(probe: &Probe) -> String {
    match probe {
        Probe::Exists(path) => format!("exists {}", show(path)),
        Probe::IsDir(path) => format!("is_dir {}", show(path)),
        Probe::Matches(path, pattern) => format!("matches {} {}", show(path), pattern),
    }
}

/// A directory tree in memory, with a record of the probes it answered.
struct Tree {
    files: BTreeMap<String, String>,
    dirs: BTreeSet<String>,
    unreadable: BTreeSet<String>,
    asked: Vec<String>,
}

impl Tree {
    fn new() -> Tree {
        Tree { files: BTreeMap::new(), dirs: BTreeSet::new(), unreadable: BTreeSet::new(), asked: Vec::new() }
    }

    fn file(mut self, path: &str, content: &str) -> Tree {
        self.files.insert(path.to_string(), content.to_string());
        self
    }

    fn dir(mut self, path: &str) -> Tree {
        self.dirs.insert(path.to_string());
        self
    }

    fn unreadable(mut self, path: &str) -> Tree {
        self.files.insert(path.to_string(), String::new());
        self.unreadable.insert(path.to_string());
        self
    }

    fn answer(&mut self, probe: &Probe) -> Result<bool, ProjectFinderError> {
        self.asked.push(show_probe(probe));
        match probe {
            Probe::Exists(path) => {
                let key = show(path);
                Ok(self.files.contains_key(&key) || self.dirs.contains(&key))
            }
            Probe::IsDir(path) => Ok(self.dirs.contains(&show(path))),
            Probe::Matches(path, pattern) => {
                let key = show(path);
                if self.unreadable.contains(&key) {
                    return Err(read_failure(&key, "permission denied"));
                }
                match self.files.get(&key) {
                    Some(content) => grep_file_in_memory(content, pattern),
                    None => Err(read_failure(&key, "not found")),
                }
            }
        }
    }

    fn resolve(
        &mut self,
        dir: &str,
        marker: &str,
        caches: &mut Caches,
    ) -> Result<ProjectPath, ProjectFinderError> {
        let mut step = Resolution::start(at(dir), MarkerType::classify(marker), caches);
        loop {
            match step {
                Step::Ask(resolution, probe) => {
                    let answer = self.answer(&probe);
                    step = resolution.step(answer, caches);
                }
                Step::Done(outcome) => return outcome,
            }
        }
    }
}

#[test]
fn workspace_climbing() {
    let mut tree = Tree::new()
        .file("/root/sub/package.json", "{\"name\": \"sub\"}")
        .file("/root/package.json", "{\n  \"workspaces\": [\"sub\"]\n}");
    let root = tree.resolve("/root/sub", "package.json", &mut Caches::new());
    assert_eq!(root, Ok(at("/root")));
    assert_eq!(
        tree.asked,
        vec![
            "exists /root/package.json",
            "matches /root/package.json (\"workspaces\"|\"workspace\")",
        ]
    );
}

#[test]
fn workspace_climbing_from_a_relative_directory() {
    let mut tree = Tree::new()
        .file("root/sub/package.json", "{}")
        .file("root/package.json", "{\"workspaces\": []}");
    assert_eq!(tree.resolve("root/sub", "package.json", &mut Caches::new()), Ok(at("root")));
}

#[test]
fn build_file_topmost_rule() {
    let mut tree = Tree::new().file("/root/a/b/Makefile", "all:").file("/root/a/Makefile", "all:");
    let root = tree.resolve("/root/a/b", "Makefile", &mut Caches::new());
    assert_eq!(root, Ok(at("/root/a")));
    assert_eq!(
        tree.asked,
        vec![
            "exists /root/a/Makefile",
            "is_dir /root/a/.git",
            "exists /root/Makefile",
            "is_dir /root/.git",
            "exists /Makefile",
            "is_dir /.git",
        ]
    );
}

#[test]
fn build_file_topmost_skips_a_gap() {
    let mut tree = Tree::new().file("/r/a/b/c/justfile", "").file("/r/a/justfile", "");
    assert_eq!(tree.resolve("/r/a/b/c", "justfile", &mut Caches::new()), Ok(at("/r/a")));
}

#[test]
fn build_file_without_a_higher_one_stays() {
    let mut tree = Tree::new().file("/r/a/Makefile", "");
    assert_eq!(tree.resolve("/r/a", "Makefile", &mut Caches::new()), Ok(at("/r/a")));
}

#[test]
fn build_file_of_another_name_does_not_count() {
    let mut tree = Tree::new().file("/r/a/b/Makefile", "").file("/r/a/justfile", "");
    assert_eq!(tree.resolve("/r/a/b", "Makefile", &mut Caches::new()), Ok(at("/r/a/b")));
}

#[test]
fn build_file_stops_at_git() {
    let mut tree =
        Tree::new().file("/r/a/b/Makefile", "").file("/r/Makefile", "").dir("/r/a/.git");
    let root = tree.resolve("/r/a/b", "Makefile", &mut Caches::new());
    assert_eq!(root, Ok(at("/r/a")));
    assert_eq!(tree.asked, vec!["exists /r/a/Makefile", "is_dir /r/a/.git"]);
}

#[test]
fn other_config_climbs_to_git() {
    let mut tree = Tree::new().file("/r/a/b/go.mod", "").dir("/r/.git");
    let root = tree.resolve("/r/a/b", "go.mod", &mut Caches::new());
    assert_eq!(root, Ok(at("/r")));
    assert_eq!(tree.asked, vec!["is_dir /r/a/.git", "is_dir /r/.git"]);
}

#[test]
fn other_config_without_git_stays() {
    let mut tree = Tree::new().file("/r/a/go.mod", "");
    let root = tree.resolve("/r/a", "go.mod", &mut Caches::new());
    assert_eq!(root, Ok(at("/r/a")));
    assert_eq!(tree.asked, vec!["is_dir /r/.git", "is_dir /.git"]);
}

#[test]
fn git_in_the_marker_directory_itself_is_not_looked_at() {
    let mut tree = Tree::new().file("/r/a/go.mod", "").dir("/r/a/.git");
    assert_eq!(tree.resolve("/r/a", "go.mod", &mut Caches::new()), Ok(at("/r/a")));
}

#[test]
fn git_must_be_a_directory() {
    let mut tree = Tree::new().file("/r/a/go.mod", "").file("/r/.git", "gitdir: elsewhere");
    assert_eq!(tree.resolve("/r/a", "go.mod", &mut Caches::new()), Ok(at("/r/a")));
}

#[test]
fn the_file_system_root_is_examined() {
    let mut tree = Tree::new().dir("/.git");
    assert_eq!(tree.resolve("/a/b", "go.mod", &mut Caches::new()), Ok(at("/")));
}

#[test]
fn the_empty_path_is_not_examined() {
    let mut tree = Tree::new().dir(".git");
    let root = tree.resolve("a/b", "go.mod", &mut Caches::new());
    assert_eq!(root, Ok(at("a/b")));
    assert_eq!(tree.asked, vec!["is_dir a/.git"]);
}

#[test]
fn a_directory_without_ancestors_is_its_own_root() {
    let mut tree = Tree::new().dir("/.git");
    assert_eq!(tree.resolve("/", "package.json", &mut Caches::new()), Ok(at("/")));
    assert_eq!(tree.resolve("", "Makefile", &mut Caches::new()), Ok(at("")));
    assert_eq!(tree.resolve("a", "Cargo.toml", &mut Caches::new()), Ok(at("a")));
    assert!(tree.asked.is_empty());
}

#[test]
fn package_manifest_prefers_workspace_to_git_at_the_same_level() {
    let mut tree = Tree::new().file("/r/package.json", "{\"workspaces\": []}").dir("/r/.git");
    let root = tree.resolve("/r/a", "package.json", &mut Caches::new());
    assert_eq!(root, Ok(at("/r")));
    assert!(!tree.asked.iter().any(|probe| probe.starts_with("is_dir")));
}

#[test]
fn package_manifest_stops_at_the_nearest_git() {
    let mut tree = Tree::new().dir("/r/a/.git").file("/r/package.json", "{\"workspaces\": []}");
    assert_eq!(tree.resolve("/r/a/b", "package.json", &mut Caches::new()), Ok(at("/r/a")));
}

#[test]
fn package_manifest_without_workspace_or_git_stays() {
    let mut tree = Tree::new().file("/r/package.json", "{\"name\": \"r\"}");
    assert_eq!(tree.resolve("/r/a", "package.json", &mut Caches::new()), Ok(at("/r/a")));
}

#[test]
fn workspace_rules_are_tried_in_order() {
    let mut tree = Tree::new();
    let root = tree.resolve("/r/a", "deno.json", &mut Caches::new());
    assert_eq!(root, Ok(at("/r/a")));
    let of_r: Vec<&str> = tree.asked.iter().map(String::as_str).take(14).collect();
    assert_eq!(
        of_r,
        vec![
            "exists /r/package.json",
            "exists /r/deno.json",
            "exists /r/deno.jsonc",
            "exists /r/bunfig.toml",
            "exists /r/Cargo.toml",
            "exists /r/rush.json",
            "exists /r/nx.json",
            "exists /r/turbo.json",
            "exists /r/pnpm-workspace.yaml",
            "exists /r/lerna.json",
            "exists /r/yarn.lock",
            "exists /r/.yarnrc.yml",
            "exists /r/workspace.json",
            "is_dir /r/.git",
        ]
    );
    assert_eq!(tree.asked.len(), 28);
}

#[test]
fn workspace_by_each_content_rule() {
    let cases = [
        ("package.json", "{\"workspace\": 1}"),
        ("deno.json", "{\"imports\": {}}"),
        ("deno.jsonc", "// c\n{\"workspaces\": []}"),
        ("bunfig.toml", "[install]\nworkspaces = true"),
        ("Cargo.toml", "[workspace]\nmembers = []"),
        ("rush.json", "{}"),
        ("nx.json", ""),
        ("turbo.json", "\n"),
    ];
    for (file, content) in cases {
        let mut tree = Tree::new().file(&format!("/r/{file}"), content);
        assert_eq!(
            tree.resolve("/r/a", "package.json", &mut Caches::new()),
            Ok(at("/r")),
            "{file}"
        );
    }
}

#[test]
fn workspace_by_each_sentinel_file() {
    for file in ["pnpm-workspace.yaml", "lerna.json", "yarn.lock", ".yarnrc.yml", "workspace.json"] {
        let mut tree = Tree::new().file(&format!("/r/{file}"), "");
        assert_eq!(tree.resolve("/r/a", "deno.jsonc", &mut Caches::new()), Ok(at("/r")), "{file}");
    }
}

#[test]
fn workspace_content_rule_that_does_not_match_falls_through() {
    let mut tree = Tree::new()
        .file("/r/package.json", "{\"name\": \"r\"}")
        .file("/r/bunfig.toml", "[install]")
        .file("/r/yarn.lock", "");
    let root = tree.resolve("/r/a", "package.json", &mut Caches::new());
    assert_eq!(root, Ok(at("/r")));
    assert_eq!(tree.asked.last().map(String::as_str), Some("exists /r/yarn.lock"));
}

#[test]
fn an_empty_monorepo_config_file_makes_a_workspace() {
    for file in ["rush.json", "nx.json", "turbo.json"] {
        let mut tree = Tree::new().file(&format!("/m/{file}"), "");
        let root = tree.resolve("/m/a", "package.json", &mut Caches::new());
        assert_eq!(root, Ok(at("/m")), "{file}");
        assert_eq!(
            tree.asked.last().cloned(),
            Some(format!("exists /m/{file}")),
            "the file is not read"
        );
    }
}

#[test]
fn cargo_manifest_climbs_to_the_workspace() {
    let mut tree = Tree::new()
        .file("/ws/member/Cargo.toml", "[package]\nname = \"member\"")
        .file("/ws/Cargo.toml", "[workspace]\nmembers = [\"member\"]");
    let root = tree.resolve("/ws/member", "Cargo.toml", &mut Caches::new());
    assert_eq!(root, Ok(at("/ws")));
    assert_eq!(
        tree.asked,
        vec!["exists /ws/Cargo.toml", "matches /ws/Cargo.toml (?m)^\\[workspace\\]"]
    );
}

#[test]
fn cargo_workspace_header_may_follow_other_sections() {
    let mut tree = Tree::new()
        .file("/ws/Cargo.toml", "[package]\nname = \"ws\"\n\n[workspace]\nmembers = [\"m\"]");
    assert_eq!(tree.resolve("/ws/m", "Cargo.toml", &mut Caches::new()), Ok(at("/ws")));
}

#[test]
fn cargo_workspace_header_must_start_a_line() {
    let mut tree = Tree::new().file("/ws/Cargo.toml", "[package]\n# see [workspace]\n");
    assert_eq!(tree.resolve("/ws/m", "Cargo.toml", &mut Caches::new()), Ok(at("/ws/m")));
}

#[test]
fn cargo_manifest_ignores_other_workspace_signs() {
    let mut tree = Tree::new().file("/ws/yarn.lock", "").file("/ws/package.json", "{\"workspaces\": []}");
    assert_eq!(tree.resolve("/ws/m", "Cargo.toml", &mut Caches::new()), Ok(at("/ws/m")));
}

#[test]
fn cargo_manifest_falls_back_to_git() {
    let mut tree = Tree::new().file("/ws/Cargo.toml", "[package]").dir("/ws/.git");
    assert_eq!(tree.resolve("/ws/m", "Cargo.toml", &mut Caches::new()), Ok(at("/ws")));
}

#[test]
fn a_read_failure_ends_the_climb() {
    let mut tree = Tree::new().unreadable("/r/package.json").dir("/r/.git");
    let outcome = tree.resolve("/r/a", "package.json", &mut Caches::new());
    assert_eq!(
        outcome,
        Err(ProjectFinderError::CommandExecutionFailed(
            "Failed to read file /r/package.json: permission denied".to_string()
        ))
    );
    assert_eq!(tree.asked.len(), 2);
}

#[test]
fn a_failed_climb_is_not_remembered() {
    let mut caches = Caches::new();
    let mut tree = Tree::new().unreadable("/r/Cargo.toml");
    assert!(tree.resolve("/r/a", "Cargo.toml", &mut caches).is_err());
    assert_eq!(caches.roots.get(&at("/r/a"), &MarkerType::CargoToml), None);
    let mut mended = Tree::new().file("/r/Cargo.toml", "[workspace]");
    assert_eq!(mended.resolve("/r/a", "Cargo.toml", &mut caches), Ok(at("/r")));
}

#[test]
fn an_error_answer_to_any_probe_is_passed_on() {
    let mut caches = Caches::new();
    let step = Resolution::start(at("/r/a"), MarkerType::classify("go.mod"), &mut caches);
    let Step::Ask(resolution, probe) = step else { panic!("expected a probe") };
    assert_eq!(probe, Probe::IsDir(at("/r/.git")));
    let error = ProjectFinderError::IoError("disk on fire".to_string());
    match resolution.step(Err(error.clone()), &mut caches) {
        Step::Done(Err(passed)) => assert_eq!(passed, error),
        other => panic!("unexpected: {other:?}"),
    }
}

#[test]
fn a_resolved_root_is_remembered() {
    let mut caches = Caches::new();
    let mut tree = Tree::new().file("/r/package.json", "{\"workspaces\": []}");
    assert_eq!(tree.resolve("/r/a", "package.json", &mut caches), Ok(at("/r")));
    assert_eq!(caches.roots.get(&at("/r/a"), &MarkerType::PackageJson), Some(at("/r")));
    assert_eq!(caches.workspace.get(&at("/r")), Some(true));
    let asked = tree.asked.len();
    assert_eq!(tree.resolve("/r/a", "package.json", &mut caches), Ok(at("/r")));
    assert_eq!(tree.asked.len(), asked);
}

#[test]
fn a_remembered_root_is_returned_even_if_the_tree_changed() {
    let mut caches = Caches::new();
    let mut before = Tree::new().dir("/r/.git");
    assert_eq!(before.resolve("/r/a/b", "go.mod", &mut caches), Ok(at("/r")));
    let mut after = Tree::new().dir("/r/a/.git");
    assert_eq!(after.resolve("/r/a/b", "go.mod", &mut caches), Ok(at("/r")));
    assert!(after.asked.is_empty());
}

#[test]
fn the_root_cache_tells_categories_apart() {
    let mut caches = Caches::new();
    let mut tree = Tree::new().file("/r/package.json", "{\"workspaces\": []}").dir("/.git");
    assert_eq!(tree.resolve("/r/a", "package.json", &mut caches), Ok(at("/r")));
    assert_eq!(tree.resolve("/r/a", "go.mod", &mut caches), Ok(at("/")));
    assert_eq!(tree.resolve("/r/a", "deno.json", &mut caches), Ok(at("/r")));
}

#[test]
fn a_workspace_verdict_is_shared_between_markers() {
    let mut caches = Caches::new();
    let mut tree = Tree::new().file("/r/lerna.json", "{}");
    assert_eq!(tree.resolve("/r/a", "package.json", &mut caches), Ok(at("/r")));
    let asked = tree.asked.len();
    assert_eq!(tree.resolve("/r/b", "deno.json", &mut caches), Ok(at("/r")));
    assert_eq!(tree.asked.len(), asked);
}

#[test]
fn a_negative_workspace_verdict_is_shared_too() {
    let mut caches = Caches::new();
    let mut tree = Tree::new().dir("/.git");
    assert_eq!(tree.resolve("/r/a", "package.json", &mut caches), Ok(at("/")));
    assert_eq!(caches.workspace.get(&at("/r")), Some(false));
    assert_eq!(caches.workspace.get(&at("/")), Some(false));
    tree.asked.clear();
    assert_eq!(tree.resolve("/r/b", "package.json", &mut caches), Ok(at("/")));
    assert_eq!(tree.asked, vec!["is_dir /r/.git", "is_dir /.git"]);
}

#[test]
fn resolution_with_and_without_memo_agree() {
    let tree = || {
        Tree::new()
            .file("/m/package.json", "{\"workspaces\": []}")
            .file("/m/x/Makefile", "")
            .file("/m/Cargo.toml", "[workspace]")
            .dir("/m/x/y/.git")
    };
    let cases = [
        ("/m/x/y/z", "package.json"),
        ("/m/x", "package.json"),
        ("/m/x/y/z", "Makefile"),
        ("/m/x/y", "Makefile"),
        ("/m/x/y", "Cargo.toml"),
        ("/m/x/y/z", "go.mod"),
        ("/m/x", "deno.jsonc"),
        ("/m/x/y/z", "package.json"),
    ];
    let mut shared = Caches::new();
    for (dir, marker) in cases {
        let fresh = tree().resolve(dir, marker, &mut Caches::new());
        let memoized = tree().resolve(dir, marker, &mut shared);
        assert_eq!(fresh, memoized, "{dir} {marker}");
    }
}
