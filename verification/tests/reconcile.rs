use aco_sync_nas_dirs::path::join;
use aco_sync_nas_dirs::path_set::PathSet;
use aco_sync_nas_dirs::reconcile::diff;

fn set_of(paths: &[&str]) -> PathSet {
    let owned: Vec<String> = paths.iter().map(|p| p.to_string()).collect();
    PathSet::from_paths(&owned)
}

fn listed(set: &PathSet) -> Vec<String> {
    set.to_vec()
}

#[test]
fn join_puts_one_separator_between_root_and_name() {
    assert_eq!(join("/mnt/nas", "2024_01_Alpha"), "/mnt/nas/2024_01_Alpha");
    assert_eq!(join("/mnt/nas/", "2024_01_Alpha"), "/mnt/nas/2024_01_Alpha");
    assert_eq!(join("/", "x"), "/x");
    assert_eq!(join("", "x"), "x");
    assert_eq!(join("/mnt/nas", ""), "/mnt/nas/");
    assert_eq!(join("rel", "a/b"), "rel/a/b");
}

#[test]
fn join_of_an_absolute_name_is_the_name() {
    assert_eq!(join("/mnt/nas", "/etc"), "/etc");
    assert_eq!(join("", "/"), "/");
}

#[test]
fn new_path_set_is_empty() {
    let set = PathSet::new();
    assert!(set.is_empty());
    assert_eq!(set.len(), 0);
    assert!(!set.contains(&"/a".to_string()));
    assert_eq!(listed(&set), Vec::<String>::new());
}

#[test]
fn insert_keeps_each_path_once_in_order() {
    let mut set = PathSet::new();
    assert!(set.insert("/r/b".to_string()));
    assert!(set.insert("/r/a".to_string()));
    assert!(!set.insert("/r/b".to_string()));
    assert!(set.insert("/r/B".to_string()));
    assert_eq!(set.len(), 3);
    assert!(!set.is_empty());
    assert_eq!(listed(&set), vec!["/r/b", "/r/a", "/r/B"]);
    assert_eq!(set.get(0).map(|p| p.as_str()), Some("/r/b"));
    assert_eq!(set.get(2).map(|p| p.as_str()), Some("/r/B"));
    assert_eq!(set.get(3), None);
    assert!(set.contains(&"/r/a".to_string()));
    assert!(!set.contains(&"/r/c".to_string()));
    assert!(!set.contains(&"/r/a/".to_string()));
}

#[test]
fn from_paths_drops_repeats() {
    let set = set_of(&["/r/x", "/r/y", "/r/x", "/r/z", "/r/y"]);
    assert_eq!(listed(&set), vec!["/r/x", "/r/y", "/r/z"]);
}

#[test]
fn extend_adds_what_is_new() {
    let mut set = set_of(&["/r/x", "/r/y"]);
    set.extend(&vec!["/r/y".to_string(), "/r/z".to_string(), "/r/z".to_string()]);
    assert_eq!(listed(&set), vec!["/r/x", "/r/y", "/r/z"]);
    set.extend(&Vec::new());
    assert_eq!(listed(&set), vec!["/r/x", "/r/y", "/r/z"]);
}

#[test]
fn diff_is_expected_without_actual() {
    let expected = set_of(&["/r/a", "/r/b", "/r/c", "/r/d"]);
    let actual = set_of(&["/r/d", "/r/b", "/r/zzz"]);
    let missing = diff(&expected, &actual);
    assert_eq!(listed(&missing), vec!["/r/a", "/r/c"]);
    for path in listed(&missing) {
        assert!(expected.contains(&path));
        assert!(!actual.contains(&path));
    }
    for path in listed(&expected) {
        assert_eq!(missing.contains(&path), !actual.contains(&path));
    }
}

#[test]
fn diff_never_reports_what_only_exists() {
    let expected = set_of(&["/r/a"]);
    let actual = set_of(&["/r/old", "/r/other"]);
    let missing = diff(&expected, &actual);
    assert_eq!(listed(&missing), vec!["/r/a"]);
    assert!(!missing.contains(&"/r/old".to_string()));
    assert!(!missing.contains(&"/r/other".to_string()));
}

#[test]
fn diff_with_nothing_expected_is_empty() {
    let missing = diff(&PathSet::new(), &set_of(&["/r/a", "/r/b"]));
    assert!(missing.is_empty());
}

#[test]
fn diff_with_nothing_existing_is_all_expected() {
    let expected = set_of(&["/r/b", "/r/a"]);
    let missing = diff(&expected, &PathSet::new());
    assert_eq!(listed(&missing), vec!["/r/b", "/r/a"]);
}

#[test]
fn diff_of_equal_sets_is_empty() {
    let expected = set_of(&["/r/a", "/r/b"]);
    let actual = set_of(&["/r/b", "/r/a"]);
    assert!(diff(&expected, &actual).is_empty());
}

#[test]
fn diff_gives_the_same_result_when_repeated() {
    let expected = set_of(&["/r/a", "/r/b", "/r/c"]);
    let actual = set_of(&["/r/b"]);
    let first = diff(&expected, &actual);
    let second = diff(&expected, &actual);
    assert_eq!(listed(&first), listed(&second));
}

#[test]
fn diff_compares_paths_letter_for_letter() {
    let expected = set_of(&["/r/Alpha", "/r/beta"]);
    let actual = set_of(&["/r/alpha", "/r/beta/"]);
    let missing = diff(&expected, &actual);
    assert_eq!(listed(&missing), vec!["/r/Alpha", "/r/beta"]);
}

#[test]
fn nothing_is_missing_once_the_missing_exist() {
    let expected = set_of(&["/r/a", "/r/b", "/r/c"]);
    let mut actual = set_of(&["/r/b", "/r/x"]);
    let missing = diff(&expected, &actual);
    assert_eq!(listed(&missing), vec!["/r/a", "/r/c"]);
    actual.extend(&listed(&missing));
    assert!(diff(&expected, &actual).is_empty());
    assert!(actual.contains(&"/r/x".to_string()));
}
