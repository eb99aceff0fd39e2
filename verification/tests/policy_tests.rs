// Tests of the eligibility policies and the counting and ordering
// primitives.

use pyunused::policy::{is_python_file, is_useful, path_exists, should_consider_function, ScanError};
use pyunused::scan::{find_unused_functions, Function};
use pyunused::text::{bytes_le, count_occurrences};

fn b(s: &str) -> Vec<u8> {
    s.as_bytes().to_vec()
}

#[test]
fn exclusion_policy_on_names() {
    assert!(should_consider_function(&b("helper")));
    assert!(should_consider_function(&b("run2")));
    assert!(!should_consider_function(&b("test_foo")));
    assert!(!should_consider_function(&b("my_test_case")));
    assert!(!should_consider_function(&b("__init__")));
    assert!(!should_consider_function(&b("weird__name")));
    assert!(should_consider_function(&b("test")));
    assert!(should_consider_function(&b("_private")));
}

#[test]
fn hidden_entries_are_not_useful() {
    assert!(is_useful(&b("src")));
    assert!(is_useful(&b("a.py")));
    assert!(!is_useful(&b(".git")));
    assert!(!is_useful(&b(".hidden.py")));
}

#[test]
fn python_files_by_suffix() {
    assert!(is_python_file(true, &b("a.py")));
    assert!(is_python_file(true, &b("x.y.py")));
    assert!(!is_python_file(true, &b("a.pyc")));
    assert!(!is_python_file(true, &b("apy")));
    assert!(!is_python_file(true, &b("py")));
    assert!(!is_python_file(false, &b("a.py")));
    assert!(is_python_file(true, &b(".py")));
}

#[test]
fn path_validation() {
    assert!(path_exists(".").is_ok());
    assert_eq!(
        path_exists("surely/this/path/does/not/exist/anywhere-at-all"),
        Err(ScanError::PathDoesNotExist)
    );
}

#[test]
fn occurrence_counting_is_non_overlapping() {
    assert_eq!(count_occurrences(&b("abcabcab"), &b("ab")), 3);
    assert_eq!(count_occurrences(&b("aaaa"), &b("aa")), 2);
    assert_eq!(count_occurrences(&b("running"), &b("run")), 1);
    assert_eq!(count_occurrences(&b("prune run2"), &b("run")), 2);
    assert_eq!(count_occurrences(&b("abc"), &b("xyz")), 0);
    assert_eq!(count_occurrences(&b("abc"), &b("")), 0);
    assert_eq!(count_occurrences(&b(""), &b("a")), 0);
}

#[test]
fn byte_string_order_is_lexicographic() {
    assert!(bytes_le(&b("a.py"), &b("b.py")));
    assert!(!bytes_le(&b("b.py"), &b("a.py")));
    assert!(bytes_le(&b("a"), &b("a")));
    assert!(bytes_le(&b("a"), &b("ab")));
    assert!(!bytes_le(&b("ab"), &b("a")));
    assert!(bytes_le(&b(""), &b("a")));
}

#[test]
fn counted_filter_and_order() {
    let mk = |name: &str, path: &str, line: usize| Function {
        name: b(name),
        path: b(path),
        line,
    };
    let counts = vec![
        (mk("zeta", "b.py", 4), 1),
        (mk("kept", "a.py", 9), 2),
        (mk("alpha", "a.py", 7), 1),
        (mk("beta", "a.py", 2), 0),
    ];
    let unused = find_unused_functions(counts);
    let got: Vec<(String, usize, String)> = unused
        .iter()
        .map(|f| {
            (
                String::from_utf8(f.path.clone()).unwrap(),
                f.line,
                String::from_utf8(f.name.clone()).unwrap(),
            )
        })
        .collect();
    assert_eq!(
        got,
        vec![
            ("a.py".to_string(), 2, "beta".to_string()),
            ("a.py".to_string(), 7, "alpha".to_string()),
            ("b.py".to_string(), 4, "zeta".to_string()),
        ]
    );
}
