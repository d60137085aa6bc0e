use dotlink::path::{
    begins_with, components_of, is_absolute_path, join_paths, path_starts_with, same_chars,
};
use std::path::Path;

fn parts(path: &str) -> Vec<String> {
    components_of(&path.chars().collect()).iter().map(|c| c.iter().collect()).collect()
}

fn std_parts(path: &str) -> Vec<String> {
    Path::new(path).components().map(|c| c.as_os_str().to_str().unwrap().to_string()).collect()
}

const SAMPLES: [&str; 20] = [
    "", "/", ".", "./", "..", "a", "/a", "a/", "/a/b", "/a//b/", "a/./b", "./a/b", "/./a", "/a/.",
    "a/../b", "//", ".a", "a.", "/home/u/.config/x.conf", "./.",
];

#[test]
fn absolute_paths_start_at_the_root() {
    for path in SAMPLES {
        assert_eq!(is_absolute_path(path), Path::new(path).is_absolute());
    }
}

#[test]
fn components_agree_with_std() {
    for path in SAMPLES {
        assert_eq!(parts(path), std_parts(path));
    }
    assert_eq!(parts("/a//b/./c/"), vec!["/", "a", "b", "c"]);
    assert_eq!(parts("./x"), vec![".", "x"]);
}

#[test]
fn join_agrees_with_std() {
    for base in ["/work", "/work/", "/", "", "rel", "rel/"] {
        for path in ["a/b", "/abs/x", "", "x", "./y", ".git"] {
            assert_eq!(join_paths(base, path), Path::new(base).join(path).to_str().unwrap());
        }
    }
    assert_eq!(join_paths("/work", "config/x"), "/work/config/x");
    assert_eq!(join_paths("/work", "/etc/x"), "/etc/x");
    assert_eq!(join_paths("/", "x"), "/x");
}

#[test]
fn starts_with_agrees_with_std() {
    for path in SAMPLES {
        for base in SAMPLES {
            assert_eq!(path_starts_with(path, base), Path::new(path).starts_with(base));
        }
    }
}

#[test]
fn starts_with_goes_by_whole_components() {
    assert!(path_starts_with("/work/tree/x", "/work/tree"));
    assert!(path_starts_with("/work/tree", "/work/tree"));
    assert!(path_starts_with("/work/tree/x", "/work/tree/"));
    assert!(!path_starts_with("/work/tree2/x", "/work/tree"));
    assert!(!path_starts_with("/work", "/work/tree"));
    assert!(!path_starts_with("/etc/passwd", "/work/tree"));
    assert!(path_starts_with("/anything", "/"));
}

#[test]
fn same_chars_compares_texts() {
    assert!(same_chars(&vec!['a', 'b'], &vec!['a', 'b']));
    assert!(!same_chars(&vec!['a', 'b'], &vec!['a', 'c']));
    assert!(!same_chars(&vec!['a'], &vec!['a', 'b']));
    assert!(same_chars(&Vec::new(), &Vec::new()));
}

#[test]
fn begins_with_compares_text_by_text() {
    let list = |items: &[&str]| -> Vec<Vec<char>> {
        items.iter().map(|item| item.chars().collect()).collect()
    };
    assert!(begins_with(&list(&["/", "a", "b"]), &list(&["/", "a"])));
    assert!(begins_with(&list(&["/", "a"]), &list(&["/", "a"])));
    assert!(begins_with(&list(&["a"]), &list(&[])));
    assert!(!begins_with(&list(&["/", "a"]), &list(&["/", "a", "b"])));
    assert!(!begins_with(&list(&["/", "ab"]), &list(&["/", "a"])));
    assert!(!begins_with(&list(&["/", "a"]), &list(&["a"])));
}

#[test]
fn what_is_joined_to_a_base_lies_below_it() {
    for base in ["/work", "/work/", "/", "", "rel", "rel/", "./rel", ".", "/a//b"] {
        for path in ["a/b", "", "x", "./y", ".git", "../up", "a//b/", "."] {
            assert!(path_starts_with(join_paths(base, path).as_str(), base));
        }
    }
    assert!(!path_starts_with(join_paths("/work", "/etc/x").as_str(), "/work"));
}
