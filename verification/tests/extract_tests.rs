// Tests of declaration extraction, including a differential check against
// the reference pattern written with the regex crate.

use pyunused::extract::extract_declaration;
use regex::Regex;

fn extract(line: &str) -> Option<String> {
    extract_declaration(&line.as_bytes().to_vec())
        .map(|name| String::from_utf8(name).unwrap())
}

#[test]
fn plain_declaration() {
    assert_eq!(extract("def foo(bar):"), Some("foo".to_string()));
}

#[test]
fn indented_declaration() {
    assert_eq!(extract("    def method(self):"), Some("method".to_string()));
}

#[test]
fn no_keyword_no_capture() {
    assert_eq!(extract("x = abcdef (y)"), None);
    assert_eq!(extract("return foo(1)"), None);
    assert_eq!(extract(""), None);
}

#[test]
fn comment_prefix_blocks_capture() {
    assert_eq!(extract("# def dead(): pass"), None);
    assert_eq!(extract("x = 1  # def dead(): pass"), None);
}

#[test]
fn hash_after_keyword_does_not_block() {
    assert_eq!(extract("def foo(x):  # trailing comment"), Some("foo".to_string()));
}

#[test]
fn greedy_capture_runs_to_last_paren() {
    // The capture is greedy up to the last parenthesis of the line.
    assert_eq!(extract("def f(g(x)):"), Some("f(g".to_string()));
}

#[test]
fn rightmost_keyword_wins() {
    assert_eq!(extract("def a(x): def b(y):"), Some("b".to_string()));
}

#[test]
fn blank_after_keyword_blocks_capture() {
    assert_eq!(extract("def  spaced(x):"), None);
}

#[test]
fn no_paren_no_capture() {
    assert_eq!(extract("def foo:"), None);
    assert_eq!(extract("def foo"), None);
}

#[test]
fn differential_against_reference_pattern() {
    // The hand-written extractor agrees with the pattern the heuristic is
    // defined by, on ASCII lines.
    let pattern = Regex::new(r"^[^#]*def (\S.*)\s*\(.*$").unwrap();
    let lines = [
        "def foo(bar):",
        "def helper(x):",
        "    def method(self):",
        "def f(g(x)):",
        "def a(x): def b(y):",
        "def  spaced(x):",
        "def foo:",
        "# def dead(): pass",
        "x = 1  # def dead(): pass",
        "def foo(x):  # def bar(y):",
        "def f (x):",
        "def foo (x, y) :",
        "abcdef (y)",
        "x = abcdef (y)",
        "def #odd(x):",
        "   def    ",
        "def a(",
        "defdef a(x)",
        "",
        "def ",
        "def (x):",
        "def x() def y()",
    ];
    for line in lines {
        let want = pattern
            .captures(line)
            .map(|c| c.get(1).unwrap().as_str().to_string());
        let got = extract(line);
        assert_eq!(got, want, "line: {:?}", line);
    }
}
