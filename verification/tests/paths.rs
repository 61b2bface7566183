use project_finder::order::{compare_text, text_eq, Order};
use project_finder::path::ProjectPath;

fn path_of(text: &str) -> ProjectPath {
    let absolute = text.starts_with('/');
    let components = text.split('/').filter(|part| !part.is_empty()).map(str::to_string).collect();
    ProjectPath::new(absolute, components)
}

#[test]
fn parent_drops_the_last_name() {
    assert_eq!(path_of("/root/sub").parent(), Some(path_of("/root")));
    assert_eq!(path_of("/root").parent(), Some(path_of("/")));
    assert_eq!(path_of("a/b").parent(), Some(path_of("a")));
    assert_eq!(path_of("a").parent(), Some(path_of("")));
}

#[test]
fn root_and_empty_path_have_no_parent() {
    assert_eq!(path_of("/").parent(), None);
    assert_eq!(path_of("").parent(), None);
}

#[test]
fn only_the_relative_path_without_names_is_empty() {
    assert!(path_of("").is_empty());
    assert!(!path_of("/").is_empty());
    assert!(!path_of("a").is_empty());
    assert!(!path_of("/a").is_empty());
}

#[test]
fn join_appends_a_name() {
    assert_eq!(path_of("/root").join(".git"), path_of("/root/.git"));
    assert_eq!(path_of("").join("a"), path_of("a"));
    assert_eq!(path_of("/").join("a"), path_of("/a"));
    assert_eq!(path_of("/root").join("a").parent(), Some(path_of("/root")));
}

#[test]
fn file_name_is_the_last_name() {
    assert_eq!(path_of("/root/Cargo.toml").file_name(), Some("Cargo.toml"));
    assert_eq!(path_of("Makefile").file_name(), Some("Makefile"));
    assert_eq!(path_of("/").file_name(), None);
    assert_eq!(path_of("").file_name(), None);
    assert_eq!(path_of("a/..").file_name(), None);
    assert_eq!(path_of(".").file_name(), None);
    assert_eq!(path_of("a/...").file_name(), Some("..."));
}

#[test]
fn starts_with_goes_by_whole_names() {
    assert!(path_of("/root/sub").starts_with(&path_of("/root")));
    assert!(path_of("/root/sub").starts_with(&path_of("/root/sub")));
    assert!(path_of("/root/sub").starts_with(&path_of("/")));
    assert!(!path_of("/root/subway").starts_with(&path_of("/root/sub")));
    assert!(!path_of("/root").starts_with(&path_of("/root/sub")));
    assert!(!path_of("/rooted").starts_with(&path_of("/root")));
}

#[test]
fn starts_with_tells_absolute_from_relative() {
    assert!(!path_of("/root/sub").starts_with(&path_of("root")));
    assert!(!path_of("root/sub").starts_with(&path_of("/root")));
    assert!(!path_of("root").starts_with(&path_of("/")));
}

#[test]
fn every_path_starts_with_the_empty_path() {
    assert!(path_of("/root").starts_with(&path_of("")));
    assert!(path_of("a").starts_with(&path_of("")));
    assert!(path_of("").starts_with(&path_of("")));
    assert!(path_of("/").starts_with(&path_of("")));
}

#[test]
fn same_as_compares_start_and_names() {
    assert!(path_of("/a/b").same_as(&path_of("/a/b")));
    assert!(!path_of("/a/b").same_as(&path_of("a/b")));
    assert!(!path_of("/a/b").same_as(&path_of("/a")));
    assert!(!path_of("/a/b").same_as(&path_of("/a/c")));
    assert!(path_of("").same_as(&path_of("")));
    assert!(!path_of("").same_as(&path_of("/")));
}

#[test]
fn duplicate_is_equal() {
    let path = path_of("/a/b/c");
    assert_eq!(path.duplicate(), path);
    assert_eq!(path_of("").duplicate(), path_of(""));
}

#[test]
fn compare_orders_name_by_name() {
    assert_eq!(path_of("/a/b").compare(&path_of("/a/c")), Order::Less);
    assert_eq!(path_of("/a/c").compare(&path_of("/a/b")), Order::Greater);
    assert_eq!(path_of("/a/b").compare(&path_of("/a/b")), Order::Equal);
    assert_eq!(path_of("/a").compare(&path_of("/a/b")), Order::Less);
    assert_eq!(path_of("/a/b").compare(&path_of("/a")), Order::Greater);
    assert_eq!(path_of("/").compare(&path_of("/a")), Order::Less);
}

#[test]
fn compare_goes_by_names_not_by_the_text_of_the_path() {
    // As texts "/a.b" sorts before "/a/b"; name by name, "a" comes before "a.b".
    assert_eq!(path_of("/a/b").compare(&path_of("/a.b")), Order::Less);
    assert_eq!(path_of("/a-b").compare(&path_of("/a/b")), Order::Greater);
}

#[test]
fn compare_puts_the_root_before_names() {
    assert_eq!(path_of("/z").compare(&path_of("a")), Order::Less);
    assert_eq!(path_of("a").compare(&path_of("/z")), Order::Greater);
    assert_eq!(path_of("/").compare(&path_of("a")), Order::Less);
}

#[test]
fn compare_puts_the_empty_path_first() {
    assert_eq!(path_of("").compare(&path_of("/")), Order::Less);
    assert_eq!(path_of("/").compare(&path_of("")), Order::Greater);
    assert_eq!(path_of("").compare(&path_of("a")), Order::Less);
    assert_eq!(path_of("").compare(&path_of("")), Order::Equal);
}

#[test]
fn compare_puts_dot_names_before_other_names() {
    assert_eq!(path_of("./a").compare(&path_of("-b/a")), Order::Less);
    assert_eq!(path_of("../a").compare(&path_of("+x")), Order::Less);
    assert_eq!(path_of("./a").compare(&path_of("../a")), Order::Less);
    assert_eq!(path_of("a/..").compare(&path_of("a/-")), Order::Less);
    assert_eq!(path_of("a/...").compare(&path_of("a/-")), Order::Greater);
}

fn std_path_of(path: &std::path::Path) -> ProjectPath {
    let components = path
        .components()
        .filter_map(|component| match component {
            std::path::Component::Prefix(_) | std::path::Component::RootDir => None,
            other => Some(other.as_os_str().to_string_lossy().into_owned()),
        })
        .collect();
    ProjectPath::new(path.has_root(), components)
}

#[test]
fn compare_agrees_with_the_order_of_std_paths() {
    let texts = [
        "", "/", ".", "..", "a", "/a", "./a", "../a", "a/b", "a.b", "a-b", "/a/b", "/a.b", "/a-b",
        "-b/a", "+x", "a/..", "a/../b", "./..", "/..", "é", "日本", "日", "a/b/c", "a//b", "a/./b",
        "a/b/", "...", "/z", "Z", "~", " ",
    ];
    for left in texts {
        for right in texts {
            let (l, r) = (std::path::Path::new(left), std::path::Path::new(right));
            let expected = match l.cmp(r) {
                std::cmp::Ordering::Less => Order::Less,
                std::cmp::Ordering::Equal => Order::Equal,
                std::cmp::Ordering::Greater => Order::Greater,
            };
            assert_eq!(std_path_of(l).compare(&std_path_of(r)), expected, "{left:?} {right:?}");
            assert_eq!(std_path_of(l).same_as(&std_path_of(r)), l == r, "{left:?} {right:?}");
            assert_eq!(
                std_path_of(l).starts_with(&std_path_of(r)),
                l.starts_with(r),
                "{left:?} {right:?}"
            );
        }
        let path = std::path::Path::new(left);
        assert_eq!(std_path_of(path).parent(), path.parent().map(std_path_of), "{left:?}");
        assert_eq!(std_path_of(path).is_empty(), path.as_os_str().is_empty(), "{left:?}");
        assert_eq!(
            std_path_of(path).file_name(),
            path.file_name().and_then(|name| name.to_str()),
            "{left:?}"
        );
        let joined = path.join(".git");
        assert_eq!(std_path_of(path).join(".git"), std_path_of(&joined), "{left:?}");
    }
}

#[test]
fn compare_text_by_code_point() {
    assert_eq!(compare_text("abc", "abd"), Order::Less);
    assert_eq!(compare_text("abd", "abc"), Order::Greater);
    assert_eq!(compare_text("abc", "abc"), Order::Equal);
    assert_eq!(compare_text("", ""), Order::Equal);
    assert_eq!(compare_text("", "a"), Order::Less);
    assert_eq!(compare_text("ab", "a"), Order::Greater);
    assert_eq!(compare_text("Z", "a"), Order::Less);
    assert_eq!(compare_text("z", "é"), Order::Less);
    assert_eq!(compare_text("é", "日"), Order::Less);
    assert_eq!(compare_text("日本", "日"), Order::Greater);
}

#[test]
fn text_eq_compares_characters() {
    assert!(text_eq("", ""));
    assert!(text_eq("Cargo.toml", "Cargo.toml"));
    assert!(!text_eq("Cargo.toml", "cargo.toml"));
    assert!(!text_eq("a", "ab"));
    assert!(text_eq("日本", "日本"));
    assert!(!text_eq("日本", "日木"));
}
