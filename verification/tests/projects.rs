use project_finder::path::ProjectPath;
use project_finder::projects::ProjectSet;

fn root_at(text: &str) -> ProjectPath {
    let absolute = text.starts_with('/');
    let components = text.split('/').filter(|part| !part.is_empty()).map(str::to_string).collect();
    ProjectPath::new(absolute, components)
}

fn set_of(roots: &[&str]) -> ProjectSet {
    let mut set = ProjectSet::new();
    for root in roots {
        set.insert(root_at(root));
    }
    set
}

fn listed(set: &ProjectSet) -> Vec<ProjectPath> {
    set.sorted()
}

fn paths(texts: &[&str]) -> Vec<ProjectPath> {
    texts.iter().map(|text| root_at(text)).collect()
}

#[test]
fn new_set_is_empty() {
    let set = ProjectSet::new();
    assert!(set.sorted().is_empty());
    assert!(!set.contains(&root_at("/a")));
}

#[test]
fn insert_is_unconditional_and_unique() {
    let mut set = ProjectSet::new();
    set.insert(root_at("/r"));
    set.insert(root_at("/r/a/b"));
    set.insert(root_at("/r"));
    assert_eq!(listed(&set), paths(&["/r", "/r/a/b"]));
    assert!(set.contains(&root_at("/r/a/b")));
    assert!(!set.contains(&root_at("/r/a")));
}

#[test]
fn extend_adds_every_path() {
    let mut set = set_of(&["/r"]);
    set.extend(&paths(&["/r/x/y/z", "/q", "/r"]));
    assert_eq!(listed(&set), paths(&["/q", "/r", "/r/x/y/z"]));
}

#[test]
fn offer_refuses_a_known_root() {
    let mut set = set_of(&["/r"]);
    assert!(set.is_blocked(&root_at("/r")));
    assert!(!set.offer(root_at("/r")));
    assert_eq!(listed(&set), paths(&["/r"]));
}

#[test]
fn offer_refuses_a_deep_descendant() {
    let mut set = set_of(&["/r"]);
    assert!(!set.offer(root_at("/r/a/b")));
    assert!(!set.offer(root_at("/r/a/b/c/d")));
    assert_eq!(listed(&set), paths(&["/r"]));
}

#[test]
fn offer_admits_a_direct_child() {
    let mut set = set_of(&["/r"]);
    assert!(set.offer(root_at("/r/a")));
    assert_eq!(listed(&set), paths(&["/r", "/r/a"]));
}

#[test]
fn offer_admits_an_ancestor_and_a_stranger() {
    let mut set = set_of(&["/r/a/b"]);
    assert!(set.offer(root_at("/r/a/bb")));
    assert!(set.offer(root_at("/q/a/b")));
    assert!(set.offer(root_at("/r")));
    assert_eq!(listed(&set), paths(&["/q/a/b", "/r", "/r/a/b", "/r/a/bb"]));
}

#[test]
fn offer_a_direct_child_of_one_root_below_another() {
    // "/r/a/b" is a direct child of "/r/a", and still kept out by "/r".
    let mut set = set_of(&["/r", "/r/a"]);
    assert!(!set.offer(root_at("/r/a/b")));
    // Without "/r", the direct child enters.
    let mut set = set_of(&["/r/a"]);
    assert!(set.offer(root_at("/r/a/b")));
}

#[test]
fn offer_below_the_empty_path() {
    let mut set = set_of(&[""]);
    assert!(set.offer(root_at("a")));
    assert!(!set.offer(root_at("a/b")));
    assert!(!set.offer(root_at("/a")));
    assert!(!set.offer(root_at("/")));
}

#[test]
fn offer_tells_absolute_from_relative() {
    let mut set = set_of(&["/r"]);
    assert!(set.offer(root_at("r/a/b")));
}

#[test]
fn dedup_law_on_an_example() {
    let mut set = ProjectSet::new();
    for candidate in ["/r", "/r/a", "/r/a/b", "/r/a/b/c", "/r/x/y", "/s/t", "/s/t/u/v", "/s/t/u"] {
        set.offer(root_at(candidate));
    }
    let roots = listed(&set);
    assert_eq!(roots, paths(&["/r", "/r/a", "/s/t", "/s/t/u"]));
    for outer in &roots {
        for inner in &roots {
            let nested = !inner.same_as(outer)
                && inner.starts_with(outer)
                && inner.parent().map_or(true, |parent| !parent.same_as(outer));
            assert!(!nested);
        }
    }
}

#[test]
fn offering_again_changes_nothing() {
    let candidates = ["/r/a/b", "/r", "/r/a", "/q", "/r/a/b/c"];
    let mut set = ProjectSet::new();
    for candidate in candidates {
        set.offer(root_at(candidate));
    }
    let once = listed(&set);
    for candidate in candidates {
        assert!(!set.offer(root_at(candidate)));
    }
    assert_eq!(listed(&set), once);
}

#[test]
fn order_of_offers_is_irrelevant_where_none_nests_another() {
    let candidates = ["/r/a", "/r", "/q/x", "/r/b", "/q"];
    let mut forward = set_of(&["/z"]);
    for candidate in candidates {
        forward.offer(root_at(candidate));
    }
    let mut backward = set_of(&["/z"]);
    for candidate in candidates.iter().rev() {
        backward.offer(root_at(candidate));
    }
    assert_eq!(listed(&forward), listed(&backward));
    assert_eq!(listed(&forward), paths(&["/q", "/q/x", "/r", "/r/a", "/r/b", "/z"]));
}

#[test]
fn order_of_offers_matters_where_one_nests_another() {
    let mut first = ProjectSet::new();
    first.offer(root_at("/r"));
    first.offer(root_at("/r/a/b"));
    let mut second = ProjectSet::new();
    second.offer(root_at("/r/a/b"));
    second.offer(root_at("/r"));
    assert_eq!(listed(&first), paths(&["/r"]));
    assert_eq!(listed(&second), paths(&["/r", "/r/a/b"]));
}

#[test]
fn sorted_is_independent_of_insertion_order() {
    let a = set_of(&["/b", "/a/z", "/a", "rel", "/a/b/c", "/c"]);
    let b = set_of(&["/c", "rel", "/a/b/c", "/a", "/b", "/a/z"]);
    assert_eq!(listed(&a), listed(&b));
    assert_eq!(listed(&a), paths(&["/a", "/a/b/c", "/a/z", "/b", "/c", "rel"]));
}

#[test]
fn sorted_goes_name_by_name() {
    let set = set_of(&["/a.b", "/a/b", "/a", "/a-b"]);
    assert_eq!(listed(&set), paths(&["/a", "/a/b", "/a-b", "/a.b"]));
}
