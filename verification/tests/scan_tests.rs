// End-to-end tests of the scan pipeline on small in-memory corpora.

use pyunused::scan::{scan, Function, SourceFile};

fn file(path: &str, lines: &[&str]) -> SourceFile {
    SourceFile {
        path: path.as_bytes().to_vec(),
        lines: lines.iter().map(|l| l.as_bytes().to_vec()).collect(),
    }
}

fn finding(f: &Function) -> (String, usize, String) {
    (
        String::from_utf8(f.path.clone()).unwrap(),
        f.line,
        String::from_utf8(f.name.clone()).unwrap(),
    )
}

#[test]
fn helper_used_scenario() {
    // One file: `helper` is declared and called (two mentions), `used` is
    // declared only (one mention).
    let corpus = vec![file(
        "a.py",
        &["def helper(x):", "    return x", "def used():", "    return helper(1)"],
    )];
    let (findings, failed) = scan(&corpus);
    assert!(failed);
    assert_eq!(findings.len(), 1);
    assert_eq!(finding(&findings[0]), ("a.py".to_string(), 3, "used".to_string()));
}

#[test]
fn test_functions_never_flagged() {
    let corpus = vec![file("t.py", &["def test_foo(): pass"])];
    let (findings, failed) = scan(&corpus);
    assert_eq!(findings.len(), 0);
    assert!(!failed);
}

#[test]
fn dunder_functions_never_flagged() {
    let corpus = vec![file("d.py", &["def __init__(self): pass"])];
    let (findings, failed) = scan(&corpus);
    assert_eq!(findings.len(), 0);
    assert!(!failed);
}

#[test]
fn empty_corpus_finds_nothing() {
    let corpus: Vec<SourceFile> = vec![];
    let (findings, failed) = scan(&corpus);
    assert_eq!(findings.len(), 0);
    assert!(!failed);
}

#[test]
fn commented_out_declaration_not_extracted() {
    let corpus = vec![file("c.py", &["# def dead(): pass"])];
    let (findings, failed) = scan(&corpus);
    assert_eq!(findings.len(), 0);
    assert!(!failed);
}

#[test]
fn substring_mention_counts_as_use() {
    // `run` is only declared once, but `running` elsewhere contains it as a
    // substring, which counts: pure substring containment, no word
    // boundaries.
    let corpus = vec![file("s.py", &["def run():", "x = \"running\""])];
    let (findings, failed) = scan(&corpus);
    assert_eq!(findings.len(), 0);
    assert!(!failed);
}

#[test]
fn declaration_only_is_reported() {
    let corpus = vec![file("one.py", &["def lonely():"])];
    let (findings, failed) = scan(&corpus);
    assert!(failed);
    assert_eq!(findings.len(), 1);
    assert_eq!(finding(&findings[0]), ("one.py".to_string(), 1, "lonely".to_string()));
}

#[test]
fn findings_sorted_by_path_then_line() {
    let corpus = vec![
        file("b.py", &["def zeta():", "def alpha():"]),
        file("a.py", &["def omega():"]),
    ];
    let (findings, failed) = scan(&corpus);
    assert!(failed);
    let got: Vec<(String, usize, String)> = findings.iter().map(finding).collect();
    assert_eq!(
        got,
        vec![
            ("a.py".to_string(), 1, "omega".to_string()),
            ("b.py".to_string(), 1, "zeta".to_string()),
            ("b.py".to_string(), 2, "alpha".to_string()),
        ]
    );
}

#[test]
fn scan_is_idempotent() {
    let corpus = vec![
        file("b.py", &["def zeta():", "def alpha():", "# alpha mentioned in a comment"]),
        file("a.py", &["def omega():", "def omega():"]),
    ];
    let (first, failed1) = scan(&corpus);
    let (second, failed2) = scan(&corpus);
    let a: Vec<(String, usize, String)> = first.iter().map(finding).collect();
    let b: Vec<(String, usize, String)> = second.iter().map(finding).collect();
    assert_eq!(a, b);
    assert_eq!(failed1, failed2);
}

#[test]
fn duplicate_declaration_collapses_to_one_entity() {
    // The same name declared twice at the same location (the same file
    // handed over twice) is a single candidate; its name is then counted
    // across both copies, so it is mentioned twice and not reported.
    let corpus = vec![file("a.py", &["def once():"]), file("a.py", &["def once():"])];
    let (findings, failed) = scan(&corpus);
    assert_eq!(findings.len(), 0);
    assert!(!failed);
}

#[test]
fn same_name_two_locations_are_distinct_entities() {
    // Declared at two distinct locations: each candidate's name occurs
    // twice in the corpus, so neither is reported.
    let corpus = vec![file("a.py", &["def twice():", "def twice():"])];
    let (findings, failed) = scan(&corpus);
    assert_eq!(findings.len(), 0);
    assert!(!failed);
}

#[test]
fn greedy_capture_keeps_trailing_space() {
    let corpus = vec![file("g.py", &["def f (x):"])];
    let (findings, failed) = scan(&corpus);
    // The captured name is `f ` (trailing space included by the greedy
    // capture); that two-byte string happens to occur twice on its own
    // declaration line, so the candidate is not reported.
    assert_eq!(findings.len(), 0);
    assert!(!failed);
}

#[test]
fn threshold_exactly_two_not_reported() {
    let corpus = vec![file("t.py", &["def pair():", "pair"])];
    let (findings, _failed) = scan(&corpus);
    assert_eq!(findings.len(), 0);
}
