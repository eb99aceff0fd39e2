//! Extraction of candidate function declarations from a single line.
//!
//! A line declares a function when, somewhere after a prefix free of comment
//! markers, the keyword `def ` is followed by a non-blank character and an
//! opening parenthesis appears later on the line.  The captured name is
//! greedy: it runs from just after the keyword up to the last parenthesis of
//! the line, taking the rightmost eligible keyword position.  Multi-line
//! signatures are deliberately not recognized; this is a line-oriented
//! heuristic, not a parser.

use vstd::prelude::*;

verus! {

/// `#`, the comment marker.
pub const BYTE_HASH: u8 = 35;

/// `(`.
pub const BYTE_LPAREN: u8 = 40;

/// `d`.
pub const BYTE_D: u8 = 100;

/// `e`.
pub const BYTE_E: u8 = 101;

/// `f`.
pub const BYTE_F: u8 = 102;

/// ` `.
pub const BYTE_SPACE: u8 = 32;

/// ASCII whitespace, as a blank-character class: space, tab, line feed,
/// vertical tab, form feed, carriage return.
pub open spec fn is_blank(b: u8) -> bool {
    b == 32 || b == 9 || b == 10 || b == 11 || b == 12 || b == 13
}

/// The keyword `def ` starts at position `p` of the line.
pub open spec fn def_at(line: Seq<u8>, p: int) -> bool {
    &&& 0 <= p
    &&& p + 4 <= line.len()
    &&& line[p] == BYTE_D
    &&& line[p + 1] == BYTE_E
    &&& line[p + 2] == BYTE_F
    &&& line[p + 3] == BYTE_SPACE
}

/// Position `p` starts a recognizable declaration: the keyword is preceded
/// only by comment-free text, is followed immediately by a non-blank
/// character, and an opening parenthesis occurs later on the line.
pub open spec fn decl_match_at(line: Seq<u8>, p: int) -> bool {
    &&& def_at(line, p)
    &&& (forall|j: int| 0 <= j < p ==> line[j] != BYTE_HASH)
    &&& p + 4 < line.len()
    &&& !is_blank(line[p + 4])
    &&& (exists|q: int| p + 5 <= q < line.len() && line[q] == BYTE_LPAREN)
}

/// The line declares a function.
pub open spec fn line_matches(line: Seq<u8>) -> bool {
    exists|p: int| decl_match_at(line, p)
}

/// The rightmost position at which a declaration is recognized.
pub open spec fn best_decl_pos(line: Seq<u8>) -> int {
    choose|p: int|
        decl_match_at(line, p) && (forall|j: int| decl_match_at(line, j) ==> j <= p)
}

/// The position of the last opening parenthesis of the line.
pub open spec fn last_paren_pos(line: Seq<u8>) -> int {
    choose|q: int|
        0 <= q < line.len() && line[q] == BYTE_LPAREN && (forall|j: int|
            q < j < line.len() ==> line[j] != BYTE_LPAREN)
}

/// The name captured from a declaration line: everything between the
/// rightmost keyword and the last parenthesis.  `None` when the line
/// declares nothing.  Opaque: callers reason through `extract_declaration`
/// and the lemmas below.
#[verifier::opaque]
pub open spec fn extracted(line: Seq<u8>) -> Option<Seq<u8>> {
    if line_matches(line) {
        Option::Some(line.subrange(best_decl_pos(line) + 4, last_paren_pos(line)))
    } else {
        Option::None
    }
}

/// A captured name is never empty and occurs on its own declaration line:
/// at least the non-blank character after the keyword lies strictly before
/// the last parenthesis, and the name is read off the line itself.
pub proof fn lemma_extracted_occurs(line: Seq<u8>)
    requires
        extracted(line) is Some,
    ensures
        extracted(line)->Some_0.len() >= 1,
        crate::text::contains_seq(line, extracted(line)->Some_0),
{
    reveal(extracted);
    assert(line_matches(line));
    let p = best_decl_pos(line);
    assert(decl_match_at(line, p) && (forall|j: int| decl_match_at(line, j) ==> j <= p)) by {
        lemma_best_pos_exists(line);
    }
    let q = last_paren_pos(line);
    let q0 = choose|q0: int| p + 5 <= q0 < line.len() && line[q0] == BYTE_LPAREN;
    assert(0 <= q < line.len() && line[q] == BYTE_LPAREN && (forall|j: int|
        q < j < line.len() ==> line[j] != BYTE_LPAREN)) by {
        lemma_last_paren_exists(line, q0);
    }
    assert(q >= q0) by {
        if q < q0 {
            assert(line[q0] != BYTE_LPAREN);
        }
    }
    let name = extracted(line)->Some_0;
    assert(crate::text::matches_at(line, name, p + 4)) by {
        assert(forall|k: int| 0 <= k < name.len() ==> line[p + 4 + k] == name[k]);
    }
}

/// A maximal declaration position exists whenever any declaration position
/// does, so `best_decl_pos` indeed names the rightmost one.
pub proof fn lemma_best_pos_exists(line: Seq<u8>)
    requires
        line_matches(line),
    ensures
        decl_match_at(line, best_decl_pos(line)),
        forall|j: int| decl_match_at(line, j) ==> j <= best_decl_pos(line),
{
    let p0 = choose|p: int| decl_match_at(line, p);
    lemma_bounded_max(line, p0);
}

/// From any declaration position a maximal one can be reached by climbing.
proof fn lemma_bounded_max(line: Seq<u8>, p: int)
    requires
        decl_match_at(line, p),
    ensures
        exists|m: int|
            decl_match_at(line, m) && (forall|j: int| decl_match_at(line, j) ==> j <= m),
    decreases line.len() - p
{
    if forall|j: int| decl_match_at(line, j) ==> j <= p {
        assert(decl_match_at(line, p) && (forall|j: int| decl_match_at(line, j) ==> j <= p));
    } else {
        let j = choose|j: int| decl_match_at(line, j) && j > p;
        assert(j + 4 < line.len());
        lemma_bounded_max(line, j);
    }
}

/// A last parenthesis exists whenever any parenthesis does.
proof fn lemma_last_paren_exists(line: Seq<u8>, q: int)
    requires
        0 <= q < line.len(),
        line[q] == BYTE_LPAREN,
    ensures
        exists|m: int|
            0 <= m < line.len() && line[m] == BYTE_LPAREN && (forall|j: int|
                m < j < line.len() ==> line[j] != BYTE_LPAREN),
    decreases line.len() - q
{
    if forall|j: int| q < j < line.len() ==> line[j] != BYTE_LPAREN {
        assert(0 <= q < line.len() && line[q] == BYTE_LPAREN && (forall|j: int|
            q < j < line.len() ==> line[j] != BYTE_LPAREN));
    } else {
        let j = choose|j: int| q < j < line.len() && line[j] == BYTE_LPAREN;
        lemma_last_paren_exists(line, j);
    }
}

/// Whether a byte is in the blank-character class.
pub fn is_blank_byte(b: u8) -> (r: bool)
    ensures
        r == is_blank(b),
{
    b == 32 || b == 9 || b == 10 || b == 11 || b == 12 || b == 13
}

/// Extract the declared name from a line, if the line declares a function.
///
/// The captured name runs from just after the rightmost eligible `def `
/// keyword to the last opening parenthesis of the line; a line whose keyword
/// stands after a `#` yields nothing.
pub fn extract_declaration(line: &Vec<u8>) -> (r: Option<Vec<u8>>)
    ensures
        (r is Some) <==> extracted(line@) is Some,
        r is Some ==> r->Some_0@ == extracted(line@)->Some_0,
{
    let n = line.len();
    // Position of the last `(`, if any.
    let mut qopt: Option<usize> = None;
    let mut t: usize = 0;
    while t < n
        invariant
            n == line@.len(),
            0 <= t <= n,
            match qopt {
                Some(qq) => {
                    &&& qq < t
                    &&& line@[qq as int] == BYTE_LPAREN
                    &&& forall|k: int| qq < k < t ==> line@[k] != BYTE_LPAREN
                },
                None => forall|k: int| 0 <= k < t ==> line@[k] != BYTE_LPAREN,
            },
        decreases n - t
    {
        if line[t] == BYTE_LPAREN {
            qopt = Some(t);
        }
        t += 1;
    }
    let q = match qopt {
        Some(qq) => qq,
        None => {
            // No parenthesis at all, so no position can match.
            proof {
                assert forall|p: int| !decl_match_at(line@, p) by {
                    if decl_match_at(line@, p) {
                        let qq = choose|qq: int|
                            p + 5 <= qq < line@.len() && line@[qq] == BYTE_LPAREN;
                        assert(line@[qq] != BYTE_LPAREN);
                    }
                }
                reveal(extracted);
                assert(!line_matches(line@));
            }
            return None;
        },
    };
    assert(line@[q as int] == BYTE_LPAREN);
    assert(forall|k: int| q < k < n ==> line@[k] != BYTE_LPAREN);
    if q < 5 {
        // A declaration needs five bytes of keyword and name before the
        // parenthesis.
        proof {
            assert forall|p: int| !decl_match_at(line@, p) by {
                if decl_match_at(line@, p) {
                    let qq = choose|qq: int|
                        p + 5 <= qq < line@.len() && line@[qq] == BYTE_LPAREN;
                    assert(qq <= q);
                }
            }
            reveal(extracted);
            assert(!line_matches(line@));
        }
        return None;
    }
    // Position of the first `#`, if any; `n` otherwise.
    let mut h: usize = 0;
    while h < n && line[h] != BYTE_HASH
        invariant
            n == line@.len(),
            0 <= h <= n,
            forall|k: int| 0 <= k < h ==> line@[k] != BYTE_HASH,
        decreases n - h
    {
        h += 1;
    }
    // The keyword cannot stand after the first `#`, nor closer than five
    // bytes to the last parenthesis.
    let start = if h < q - 5 {
        h
    } else {
        q - 5
    };
    proof {
        assert forall|p: int| p > start implies !decl_match_at(line@, p) by {
            if decl_match_at(line@, p) {
                if p > h {
                    assert(line@[h as int] != BYTE_HASH);
                } else {
                    let qq = choose|qq: int|
                        p + 5 <= qq < line@.len() && line@[qq] == BYTE_LPAREN;
                    assert(qq <= q);
                }
            }
        }
    }
    // Scan downward for the rightmost eligible keyword position.
    let mut p = start + 1;
    while p > 0
        invariant
            n == line@.len(),
            5 <= q < n,
            line@[q as int] == BYTE_LPAREN,
            forall|k: int| q < k < n ==> line@[k] != BYTE_LPAREN,
            start <= h,
            start + 5 <= q,
            forall|k: int| 0 <= k < h ==> line@[k] != BYTE_HASH,
            0 <= p <= start + 1,
            forall|k: int| k >= p ==> !decl_match_at(line@, k),
        decreases p
    {
        let c = p - 1;
        if line[c] == BYTE_D && line[c + 1] == BYTE_E && line[c + 2] == BYTE_F && line[c + 3]
            == BYTE_SPACE && !is_blank_byte(line[c + 4]) {
            proof {
                assert(c + 5 <= q < line@.len() && line@[q as int] == BYTE_LPAREN);
                assert(forall|k: int| 0 <= k < c ==> line@[k] != BYTE_HASH);
                assert(decl_match_at(line@, c as int));
            }
            // Copy the captured name.
            let mut name: Vec<u8> = Vec::new();
            let mut i = c + 4;
            while i < q
                invariant
                    n == line@.len(),
                    q < n,
                    c + 4 <= i <= q,
                    name@ =~= line@.subrange(c + 4, i as int),
                decreases q - i
            {
                name.push(line[i]);
                i += 1;
            }
            proof {
                let cc = c as int;
                assert(decl_match_at(line@, cc));
                assert(line_matches(line@));
                lemma_best_pos_exists(line@);
                let pb = best_decl_pos(line@);
                assert(pb == cc);
                lemma_last_paren_exists(line@, q as int);
                let ql = last_paren_pos(line@);
                assert(0 <= ql < line@.len() && line@[ql] == BYTE_LPAREN && (forall|k: int|
                    ql < k < line@.len() ==> line@[k] != BYTE_LPAREN));
                assert(ql == q) by {
                    if ql < q {
                        assert(line@[q as int] != BYTE_LPAREN);
                    }
                    if ql > q {
                        assert(line@[ql] != BYTE_LPAREN);
                    }
                }
                reveal(extracted);
                assert(name@ == extracted(line@)->Some_0);
            }
            return Some(name);
        }
        proof {
            assert(!decl_match_at(line@, c as int));
        }
        p -= 1;
    }
    proof {
        assert(!line_matches(line@));
        reveal(extracted);
    }
    None
}

} // verus!
