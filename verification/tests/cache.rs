use project_finder::cache::{Caches, RootCache, WorkspaceCache};
use project_finder::marker::MarkerType;
use project_finder::path::ProjectPath;

fn dir_at(text: &str) -> ProjectPath {
    let absolute = text.starts_with('/');
    let components = text.split('/').filter(|part| !part.is_empty()).map(str::to_string).collect();
    ProjectPath::new(absolute, components)
}

#[test]
fn workspace_cache_starts_empty() {
    let cache = WorkspaceCache::new();
    assert_eq!(cache.get(&dir_at("/a")), None);
    assert_eq!(cache.get(&dir_at("")), None);
}

#[test]
fn workspace_cache_returns_what_was_recorded() {
    let mut cache = WorkspaceCache::new();
    cache.record(dir_at("/a"), true);
    cache.record(dir_at("/b"), false);
    assert_eq!(cache.get(&dir_at("/a")), Some(true));
    assert_eq!(cache.get(&dir_at("/b")), Some(false));
    assert_eq!(cache.get(&dir_at("/c")), None);
    assert_eq!(cache.get(&dir_at("a")), None);
}

#[test]
fn workspace_cache_keeps_the_first_verdict() {
    let mut cache = WorkspaceCache::new();
    cache.record(dir_at("/a"), false);
    cache.record(dir_at("/a"), true);
    assert_eq!(cache.get(&dir_at("/a")), Some(false));
}

#[test]
fn root_cache_is_keyed_by_directory_and_category() {
    let mut cache = RootCache::new();
    cache.record(dir_at("/r/a"), MarkerType::PackageJson, dir_at("/r"));
    cache.record(dir_at("/r/a"), MarkerType::CargoToml, dir_at("/r/a"));
    cache.record(dir_at("/r/a"), MarkerType::BuildFile("Makefile".to_string()), dir_at("/"));
    assert_eq!(cache.get(&dir_at("/r/a"), &MarkerType::PackageJson), Some(dir_at("/r")));
    assert_eq!(cache.get(&dir_at("/r/a"), &MarkerType::CargoToml), Some(dir_at("/r/a")));
    assert_eq!(
        cache.get(&dir_at("/r/a"), &MarkerType::BuildFile("Makefile".to_string())),
        Some(dir_at("/"))
    );
    assert_eq!(cache.get(&dir_at("/r/a"), &MarkerType::BuildFile("justfile".to_string())), None);
    assert_eq!(cache.get(&dir_at("/r/a"), &MarkerType::DenoJson), None);
    assert_eq!(cache.get(&dir_at("/r"), &MarkerType::PackageJson), None);
}

#[test]
fn root_cache_keeps_the_first_root() {
    let mut cache = RootCache::new();
    cache.record(dir_at("/r/a"), MarkerType::PackageJson, dir_at("/r"));
    cache.record(dir_at("/r/a"), MarkerType::PackageJson, dir_at("/other"));
    assert_eq!(cache.get(&dir_at("/r/a"), &MarkerType::PackageJson), Some(dir_at("/r")));
}

#[test]
fn caches_start_empty() {
    let caches = Caches::new();
    assert_eq!(caches.workspace.get(&dir_at("/a")), None);
    assert_eq!(caches.roots.get(&dir_at("/a"), &MarkerType::CargoToml), None);
}
