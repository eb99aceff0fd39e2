//! Byte-level text primitives: substring matching, non-overlapping
//! occurrence counting, and lexicographic ordering of byte strings.
//!
//! Lines and names are modeled as sequences of bytes; all reasoning is done
//! over `Seq<u8>`.

use vstd::prelude::*;

verus! {

/// The needle occurs in the haystack starting at position `i`.
pub open spec fn matches_at(hay: Seq<u8>, needle: Seq<u8>, i: int) -> bool {
    &&& 0 <= i
    &&& i + needle.len() <= hay.len()
    &&& forall|k: int| 0 <= k < needle.len() ==> hay[i + k] == needle[k]
}

/// The needle occurs somewhere in the haystack.
pub open spec fn contains_seq(hay: Seq<u8>, needle: Seq<u8>) -> bool {
    exists|i: int| matches_at(hay, needle, i)
}

/// Number of non-overlapping occurrences of `needle` in `hay[i..]`, scanning
/// left to right and skipping past each match, as `str::matches` counts them.
/// An empty needle is counted as occurring zero times.
pub open spec fn count_from(hay: Seq<u8>, needle: Seq<u8>, i: int) -> nat
    decreases hay.len() - i
{
    if needle.len() == 0 || i < 0 || i + needle.len() > hay.len() {
        0
    } else if matches_at(hay, needle, i) {
        1 + count_from(hay, needle, i + needle.len())
    } else {
        count_from(hay, needle, i + 1)
    }
}

/// Total number of non-overlapping occurrences of `needle` in `hay`.
pub open spec fn occurrence_count(hay: Seq<u8>, needle: Seq<u8>) -> nat {
    count_from(hay, needle, 0)
}

/// Each position contributes at most one occurrence per `needle.len()` bytes,
/// so the count never exceeds the remaining length.
proof fn lemma_count_from_bound(hay: Seq<u8>, needle: Seq<u8>, i: int)
    requires
        0 <= i,
    ensures
        count_from(hay, needle, i) <= hay.len() - i || count_from(hay, needle, i) == 0,
    decreases hay.len() - i
{
    if needle.len() == 0 || i + needle.len() > hay.len() {
    } else if matches_at(hay, needle, i) {
        lemma_count_from_bound(hay, needle, i + needle.len());
    } else {
        lemma_count_from_bound(hay, needle, i + 1);
    }
}

/// Occurrence counts never exceed the haystack length.
pub proof fn lemma_count_bound(hay: Seq<u8>, needle: Seq<u8>)
    ensures
        occurrence_count(hay, needle) <= hay.len(),
{
    lemma_count_from_bound(hay, needle, 0);
}

/// A needle that occurs at some position is counted at least once.
pub proof fn lemma_contains_counted(hay: Seq<u8>, needle: Seq<u8>, at: int)
    requires
        needle.len() > 0,
        matches_at(hay, needle, at),
    ensures
        occurrence_count(hay, needle) >= 1,
{
    lemma_count_from_pos(hay, needle, 0, at);
}

/// If the needle occurs at `at >= i`, then scanning from `i` finds at least
/// one occurrence.
proof fn lemma_count_from_pos(hay: Seq<u8>, needle: Seq<u8>, i: int, at: int)
    requires
        needle.len() > 0,
        0 <= i <= at,
        matches_at(hay, needle, at),
    ensures
        count_from(hay, needle, i) >= 1,
    decreases hay.len() - i
{
    if i == at {
    } else if matches_at(hay, needle, i) {
    } else {
        lemma_count_from_pos(hay, needle, i + 1, at);
    }
}

/// Whether `needle` occurs in `hay` at position `i`.
pub fn matches_at_exec(hay: &Vec<u8>, needle: &Vec<u8>, i: usize) -> (r: bool)
    requires
        i + needle@.len() <= hay@.len(),
    ensures
        r == matches_at(hay@, needle@, i as int),
{
    let hn = hay.len();
    let mut k: usize = 0;
    while k < needle.len()
        invariant
            i + needle@.len() <= hay@.len(),
            hn == hay@.len(),
            0 <= k <= needle@.len(),
            forall|j: int| 0 <= j < k ==> hay@[i + j] == needle@[j],
        decreases needle@.len() - k
    {
        if hay[i + k] != needle[k] {
            return false;
        }
        k += 1;
    }
    true
}

/// Whether `needle` occurs anywhere in `hay`.
pub fn contains_bytes(hay: &Vec<u8>, needle: &Vec<u8>) -> (r: bool)
    ensures
        r == contains_seq(hay@, needle@),
{
    if needle.len() > hay.len() {
        return false;
    }
    if needle.len() == 0 {
        assert(matches_at(hay@, needle@, 0));
        return true;
    }
    let mut i: usize = 0;
    let last = hay.len() - needle.len();
    while i <= last
        invariant
            0 < needle@.len() <= hay@.len(),
            hay@.len() <= usize::MAX,
            last == hay@.len() - needle@.len(),
            0 <= i <= last + 1,
            forall|j: int| 0 <= j < i ==> !matches_at(hay@, needle@, j),
        decreases last - i + 1
    {
        if matches_at_exec(hay, needle, i) {
            return true;
        }
        i += 1;
    }
    false
}

/// Count the non-overlapping occurrences of `needle` in `hay`, scanning left
/// to right; each match is skipped over in full.
pub fn count_occurrences(hay: &Vec<u8>, needle: &Vec<u8>) -> (c: usize)
    ensures
        c == occurrence_count(hay@, needle@),
        c <= hay@.len(),
{
    proof {
        lemma_count_from_bound(hay@, needle@, 0);
    }
    if needle.len() == 0 || needle.len() > hay.len() {
        return 0;
    }
    let mut c: usize = 0;
    let mut i: usize = 0;
    let last = hay.len() - needle.len();
    while i <= last
        invariant
            0 < needle@.len() <= hay@.len(),
            hay@.len() <= usize::MAX,
            last == hay@.len() - needle@.len(),
            0 <= i <= hay@.len(),
            c + count_from(hay@, needle@, i as int) == occurrence_count(hay@, needle@),
            c <= i,
        decreases hay@.len() - i
    {
        if matches_at_exec(hay, needle, i) {
            c += 1;
            i += needle.len();
        } else {
            i += 1;
        }
    }
    assert(count_from(hay@, needle@, i as int) == 0);
    c
}

/// Lexicographic "less than or equal" on byte strings: the empty string is
/// least, and otherwise the first differing byte decides.
pub open spec fn lex_le(a: Seq<u8>, b: Seq<u8>) -> bool
    decreases a.len()
{
    if a.len() == 0 {
        true
    } else if b.len() == 0 {
        false
    } else if a[0] < b[0] {
        true
    } else if a[0] > b[0] {
        false
    } else {
        lex_le(a.drop_first(), b.drop_first())
    }
}

/// Strict lexicographic order.
pub open spec fn lex_lt(a: Seq<u8>, b: Seq<u8>) -> bool {
    lex_le(a, b) && a != b
}

/// `lex_le` is total: any two byte strings compare one way or the other.
pub proof fn lemma_lex_le_total(a: Seq<u8>, b: Seq<u8>)
    ensures
        lex_le(a, b) || lex_le(b, a),
    decreases a.len()
{
    if a.len() > 0 && b.len() > 0 && a[0] == b[0] {
        lemma_lex_le_total(a.drop_first(), b.drop_first());
    }
}

/// `lex_le` is antisymmetric: mutual order means equality.
pub proof fn lemma_lex_le_antisym(a: Seq<u8>, b: Seq<u8>)
    requires
        lex_le(a, b),
        lex_le(b, a),
    ensures
        a == b,
    decreases a.len()
{
    if a.len() == 0 {
        assert(b.len() == 0);
        assert(a =~= b);
    } else {
        assert(b.len() > 0);
        assert(a[0] == b[0]);
        lemma_lex_le_antisym(a.drop_first(), b.drop_first());
        assert(a =~= seq![a[0]] + a.drop_first());
        assert(b =~= seq![b[0]] + b.drop_first());
    }
}

/// `lex_le` is transitive.
pub proof fn lemma_lex_le_trans(a: Seq<u8>, b: Seq<u8>, c: Seq<u8>)
    requires
        lex_le(a, b),
        lex_le(b, c),
    ensures
        lex_le(a, c),
    decreases a.len()
{
    if a.len() == 0 {
    } else if b.len() == 0 {
    } else if c.len() == 0 {
    } else {
        if a[0] == b[0] && b[0] == c[0] {
            lemma_lex_le_trans(a.drop_first(), b.drop_first(), c.drop_first());
        }
    }
}

/// Compare two byte strings lexicographically.
pub fn bytes_le(a: &Vec<u8>, b: &Vec<u8>) -> (r: bool)
    ensures
        r == lex_le(a@, b@),
{
    let mut i: usize = 0;
    let n = if a.len() < b.len() {
        a.len()
    } else {
        b.len()
    };
    proof {
        assert(a@.skip(0) =~= a@);
        assert(b@.skip(0) =~= b@);
    }
    while i < n
        invariant
            n == if a@.len() < b@.len() {
                a@.len()
            } else {
                b@.len()
            },
            0 <= i <= n,
            forall|j: int| 0 <= j < i ==> a@[j] == b@[j],
            lex_le(a@, b@) == lex_le(a@.skip(i as int), b@.skip(i as int)),
            lex_le(b@, a@) == lex_le(b@.skip(i as int), a@.skip(i as int)),
        decreases n - i
    {
        let ghost sa = a@.skip(i as int);
        let ghost sb = b@.skip(i as int);
        if a[i] < b[i] {
            assert(sa[0] < sb[0]);
            return true;
        }
        if a[i] > b[i] {
            assert(sa[0] > sb[0]);
            return false;
        }
        proof {
            assert(sa[0] == sb[0]);
            assert(sa.drop_first() =~= a@.skip(i + 1));
            assert(sb.drop_first() =~= b@.skip(i + 1));
        }
        i += 1;
    }
    proof {
        if a@.len() <= b@.len() {
            assert(a@.skip(i as int).len() == a@.len() - i);
        } else {
            assert(b@.skip(i as int).len() == 0);
            assert(a@.skip(i as int).len() > 0);
        }
    }
    a.len() <= b.len()
}

/// Whether two byte strings are equal.
pub fn bytes_eq(a: &Vec<u8>, b: &Vec<u8>) -> (r: bool)
    ensures
        r == (a@ == b@),
{
    if a.len() != b.len() {
        assert(a@ != b@);
        return false;
    }
    let mut i: usize = 0;
    while i < a.len()
        invariant
            a@.len() == b@.len(),
            0 <= i <= a@.len(),
            forall|j: int| 0 <= j < i ==> a@[j] == b@[j],
        decreases a@.len() - i
    {
        if a[i] != b[i] {
            assert(a@ != b@);
            return false;
        }
        i += 1;
    }
    proof {
        assert(a@ =~= b@);
    }
    true
}

} // verus!
