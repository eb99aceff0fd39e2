//! Library-wide laws, each proved against the specification of the scan
//! pipeline: determinism of the report, the declaration line always
//! counting, exclusion of test and dunder names, ordering of the findings,
//! and the threshold between reported and unreported candidates.

use vstd::prelude::*;

use crate::extract::{extracted, lemma_extracted_occurs};
use crate::policy::{considered, dunder_marker, test_marker};
use crate::scan::{
    collect_file_from, collect_from, collected, count_files_from, count_lines_from, file_count,
    insert_ordered, is_candidate, line_candidate, loc_le, paired, push_unique, sorted_by_loc,
    spec_scan, total_count, unused_from, FunctionView, SourceFileView,
};
use crate::text::{
    contains_seq, lemma_contains_counted, lemma_lex_le_antisym, lemma_lex_le_total,
    lemma_lex_le_trans, matches_at, occurrence_count,
};

verus! {

/// Idempotence: the report is a mathematical function of the corpus alone,
/// so scanning an unchanged tree twice yields byte-identical findings in
/// the same order.
pub proof fn lemma_scan_idempotent(c1: Seq<SourceFileView>, c2: Seq<SourceFileView>)
    requires
        c1 == c2,
    ensures
        spec_scan(c1) == spec_scan(c2),
{
}

/// Appending-unless-present changes membership by exactly the appended
/// element.
proof fn lemma_push_unique_contains(s: Seq<FunctionView>, f: FunctionView, g: FunctionView)
    ensures
        push_unique(s, f).contains(g) <==> (s.contains(g) || g == f),
{
    if !s.contains(f) {
        if s.push(f).contains(g) {
            let i = choose|i: int| 0 <= i < s.push(f).len() && s.push(f)[i] == g;
            if i < s.len() {
                assert(s[i] == g);
            } else {
                assert(g == f);
            }
        }
        if s.contains(g) {
            let i = choose|i: int| 0 <= i < s.len() && s[i] == g;
            assert(s.push(f)[i] == g);
        }
        if g == f {
            assert(s.push(f)[s.len() as int] == g);
        }
    }
}

/// Membership of the candidates collected from one file, line `li` on.
proof fn lemma_collect_file_contains(
    path: Seq<u8>,
    lines: Seq<Seq<u8>>,
    li: int,
    acc: Seq<FunctionView>,
    g: FunctionView,
)
    requires
        0 <= li,
    ensures
        collect_file_from(path, lines, li, acc).contains(g) <==> (acc.contains(g) || exists|m: int|
            li <= m < lines.len() && line_candidate(path, m + 1, lines[m]) == Option::Some(g)),
    decreases lines.len() - li
{
    if li >= lines.len() {
    } else {
        let c = line_candidate(path, li + 1, lines[li]);
        match c {
            Option::Some(f) => {
                lemma_push_unique_contains(acc, f, g);
                lemma_collect_file_contains(path, lines, li + 1, push_unique(acc, f), g);
                if g == f {
                    assert(li <= li < lines.len() && line_candidate(path, li + 1, lines[li])
                        == Option::Some(g));
                }
                if exists|m: int|
                    li + 1 <= m < lines.len() && line_candidate(path, m + 1, lines[m])
                        == Option::Some(g) {
                    let m = choose|m: int|
                        li + 1 <= m < lines.len() && line_candidate(path, m + 1, lines[m])
                            == Option::Some(g);
                    assert(li <= m < lines.len() && line_candidate(path, m + 1, lines[m])
                        == Option::Some(g));
                }
                if exists|m: int|
                    li <= m < lines.len() && line_candidate(path, m + 1, lines[m])
                        == Option::Some(g) {
                    let m = choose|m: int|
                        li <= m < lines.len() && line_candidate(path, m + 1, lines[m])
                            == Option::Some(g);
                    if m == li {
                        assert(g == f);
                    } else {
                        assert(li + 1 <= m < lines.len() && line_candidate(path, m + 1, lines[m])
                            == Option::Some(g));
                    }
                }
            },
            Option::None => {
                lemma_collect_file_contains(path, lines, li + 1, acc, g);
                if exists|m: int|
                    li <= m < lines.len() && line_candidate(path, m + 1, lines[m])
                        == Option::Some(g) {
                    let m = choose|m: int|
                        li <= m < lines.len() && line_candidate(path, m + 1, lines[m])
                            == Option::Some(g);
                    assert(m != li);
                    assert(li + 1 <= m < lines.len() && line_candidate(path, m + 1, lines[m])
                        == Option::Some(g));
                }
            },
        }
    }
}

/// Membership of the candidates collected from the corpus, file `fi` on.
proof fn lemma_collect_from_contains(
    corpus: Seq<SourceFileView>,
    fi: int,
    acc: Seq<FunctionView>,
    g: FunctionView,
)
    requires
        0 <= fi,
    ensures
        collect_from(corpus, fi, acc).contains(g) <==> (acc.contains(g) || exists|fj: int, m: int|
            fi <= fj < corpus.len() && 0 <= m < corpus[fj].lines.len() && line_candidate(
                corpus[fj].path,
                m + 1,
                corpus[fj].lines[m],
            ) == Option::Some(g)),
    decreases corpus.len() - fi
{
    if fi >= corpus.len() {
    } else {
        let acc2 = collect_file_from(corpus[fi].path, corpus[fi].lines, 0, acc);
        lemma_collect_file_contains(corpus[fi].path, corpus[fi].lines, 0, acc, g);
        lemma_collect_from_contains(corpus, fi + 1, acc2, g);
        if acc2.contains(g) && !acc.contains(g) {
            let m = choose|m: int|
                0 <= m < corpus[fi].lines.len() && line_candidate(
                    corpus[fi].path,
                    m + 1,
                    corpus[fi].lines[m],
                ) == Option::Some(g);
            assert(fi <= fi < corpus.len() && 0 <= m < corpus[fi].lines.len() && line_candidate(
                corpus[fi].path,
                m + 1,
                corpus[fi].lines[m],
            ) == Option::Some(g));
        }
        if exists|fj: int, m: int|
            fi + 1 <= fj < corpus.len() && 0 <= m < corpus[fj].lines.len() && line_candidate(
                corpus[fj].path,
                m + 1,
                corpus[fj].lines[m],
            ) == Option::Some(g) {
            let (fj, m) = choose|fj: int, m: int|
                fi + 1 <= fj < corpus.len() && 0 <= m < corpus[fj].lines.len() && line_candidate(
                    corpus[fj].path,
                    m + 1,
                    corpus[fj].lines[m],
                ) == Option::Some(g);
            assert(fi <= fj < corpus.len() && 0 <= m < corpus[fj].lines.len() && line_candidate(
                corpus[fj].path,
                m + 1,
                corpus[fj].lines[m],
            ) == Option::Some(g));
        }
        if exists|fj: int, m: int|
            fi <= fj < corpus.len() && 0 <= m < corpus[fj].lines.len() && line_candidate(
                corpus[fj].path,
                m + 1,
                corpus[fj].lines[m],
            ) == Option::Some(g) {
            let (fj, m) = choose|fj: int, m: int|
                fi <= fj < corpus.len() && 0 <= m < corpus[fj].lines.len() && line_candidate(
                    corpus[fj].path,
                    m + 1,
                    corpus[fj].lines[m],
                ) == Option::Some(g);
            if fj == fi {
                assert(acc2.contains(g)) by {
                    assert(0 <= m < corpus[fi].lines.len() && line_candidate(
                        corpus[fi].path,
                        m + 1,
                        corpus[fi].lines[m],
                    ) == Option::Some(g));
                }
            } else {
                assert(fi + 1 <= fj < corpus.len() && 0 <= m < corpus[fj].lines.len()
                    && line_candidate(corpus[fj].path, m + 1, corpus[fj].lines[m])
                    == Option::Some(g));
            }
        }
    }
}

/// The collected candidates are exactly the corpus's candidates.
pub proof fn lemma_collected_is_candidates(corpus: Seq<SourceFileView>, g: FunctionView)
    ensures
        collected(corpus).contains(g) <==> is_candidate(corpus, g),
{
    lemma_collect_from_contains(corpus, 0, Seq::empty(), g);
    assert(!Seq::<FunctionView>::empty().contains(g));
}

/// Prepending an element shifts membership by one.
proof fn lemma_cons_contains(x: FunctionView, s: Seq<FunctionView>, g: FunctionView)
    ensures
        (seq![x] + s).contains(g) <==> (g == x || s.contains(g)),
{
    if (seq![x] + s).contains(g) {
        let i = choose|i: int| 0 <= i < (seq![x] + s).len() && (seq![x] + s)[i] == g;
        if i > 0 {
            assert(s[i - 1] == g);
        }
    }
    if s.contains(g) {
        let i = choose|i: int| 0 <= i < s.len() && s[i] == g;
        assert((seq![x] + s)[i + 1] == g);
    }
    assert((seq![x] + s)[0] == x);
}

/// Ordered insertion changes membership by exactly the inserted element.
proof fn lemma_insert_ordered_contains(s: Seq<FunctionView>, f: FunctionView, g: FunctionView)
    ensures
        insert_ordered(s, f).contains(g) <==> (s.contains(g) || g == f),
    decreases s.len()
{
    if s.len() == 0 {
        assert(insert_ordered(s, f) =~= seq![f]);
        assert(seq![f][0] == f);
        if s.contains(g) {
            let i = choose|i: int| 0 <= i < s.len() && s[i] == g;
        }
        if seq![f].contains(g) {
            let i = choose|i: int| 0 <= i < seq![f].len() && seq![f][i] == g;
            assert(g == f);
        }
    } else if loc_le(f, s[0]) {
        lemma_cons_contains(f, s, g);
    } else {
        lemma_insert_ordered_contains(s.drop_first(), f, g);
        lemma_cons_contains(s[0], insert_ordered(s.drop_first(), f), g);
        lemma_cons_contains(s[0], s.drop_first(), g);
        assert(seq![s[0]] + s.drop_first() =~= s);
    }
}

/// Membership of the report built from index `i` on.
proof fn lemma_unused_from_contains(
    pairs: Seq<(FunctionView, nat)>,
    i: int,
    acc: Seq<FunctionView>,
    g: FunctionView,
)
    requires
        0 <= i,
    ensures
        unused_from(pairs, i, acc).contains(g) <==> (acc.contains(g) || exists|m: int|
            i <= m < pairs.len() && pairs[m].0 == g && pairs[m].1 < 2),
    decreases pairs.len() - i
{
    if i >= pairs.len() {
    } else {
        let acc2 = if pairs[i].1 < 2 {
            insert_ordered(acc, pairs[i].0)
        } else {
            acc
        };
        lemma_insert_ordered_contains(acc, pairs[i].0, g);
        lemma_unused_from_contains(pairs, i + 1, acc2, g);
        if acc2.contains(g) && !acc.contains(g) {
            assert(i <= i < pairs.len() && pairs[i].0 == g && pairs[i].1 < 2);
        }
        if exists|m: int| i + 1 <= m < pairs.len() && pairs[m].0 == g && pairs[m].1 < 2 {
            let m = choose|m: int| i + 1 <= m < pairs.len() && pairs[m].0 == g && pairs[m].1 < 2;
            assert(i <= m < pairs.len() && pairs[m].0 == g && pairs[m].1 < 2);
        }
        if exists|m: int| i <= m < pairs.len() && pairs[m].0 == g && pairs[m].1 < 2 {
            let m = choose|m: int| i <= m < pairs.len() && pairs[m].0 == g && pairs[m].1 < 2;
            if m == i {
                assert(acc2.contains(g));
            } else {
                assert(i + 1 <= m < pairs.len() && pairs[m].0 == g && pairs[m].1 < 2);
            }
        }
    }
}

/// The report holds exactly the candidates whose total count is below two.
pub proof fn lemma_scan_membership(corpus: Seq<SourceFileView>, g: FunctionView)
    ensures
        spec_scan(corpus).contains(g) <==> (is_candidate(corpus, g) && total_count(corpus, g.name)
            < 2),
{
    let fs = collected(corpus);
    let pairs = paired(corpus, fs);
    lemma_unused_from_contains(pairs, 0, Seq::empty(), g);
    lemma_collected_is_candidates(corpus, g);
    assert(!Seq::<FunctionView>::empty().contains(g));
    if exists|m: int| 0 <= m < pairs.len() && pairs[m].0 == g && pairs[m].1 < 2 {
        let m = choose|m: int| 0 <= m < pairs.len() && pairs[m].0 == g && pairs[m].1 < 2;
        assert(pairs[m] == (fs[m], total_count(corpus, fs[m].name)));
        assert(fs[m] == g);
        assert(fs.contains(g));
    }
    if fs.contains(g) && total_count(corpus, g.name) < 2 {
        let m = choose|m: int| 0 <= m < fs.len() && fs[m] == g;
        assert(pairs[m] == (fs[m], total_count(corpus, fs[m].name)));
        assert(0 <= m < pairs.len() && pairs[m].0 == g && pairs[m].1 < 2);
    }
}

/// The location order is total.
proof fn lemma_loc_le_total(a: FunctionView, b: FunctionView)
    ensures
        loc_le(a, b) || loc_le(b, a),
{
    if a.path == b.path {
        if a.line == b.line {
            lemma_lex_le_total(a.name, b.name);
        }
    } else {
        lemma_lex_le_total(a.path, b.path);
    }
}

/// The location order is transitive.
proof fn lemma_loc_le_trans(a: FunctionView, b: FunctionView, c: FunctionView)
    requires
        loc_le(a, b),
        loc_le(b, c),
    ensures
        loc_le(a, c),
{
    if a.path == b.path && b.path == c.path {
        if a.line == b.line && b.line == c.line {
            lemma_lex_le_trans(a.name, b.name, c.name);
        }
    } else if a.path != b.path && b.path != c.path {
        lemma_lex_le_trans(a.path, b.path, c.path);
        if a.path == c.path {
            lemma_lex_le_antisym(a.path, b.path);
        }
    }
}

/// Ordered insertion into an ordered list keeps it ordered.
proof fn lemma_insert_ordered_sorted(s: Seq<FunctionView>, f: FunctionView)
    requires
        sorted_by_loc(s),
    ensures
        sorted_by_loc(insert_ordered(s, f)),
    decreases s.len()
{
    if s.len() == 0 {
    } else if loc_le(f, s[0]) {
        let r = seq![f] + s;
        assert forall|i: int, j: int| 0 <= i < j < r.len() implies loc_le(r[i], r[j]) by {
            if i == 0 {
                assert(r[j] == s[j - 1]);
                if j > 1 {
                    assert(loc_le(s[0], s[j - 1]));
                    lemma_loc_le_trans(f, s[0], s[j - 1]);
                }
            } else {
                assert(r[i] == s[i - 1] && r[j] == s[j - 1]);
            }
        }
    } else {
        lemma_loc_le_total(f, s[0]);
        let tail = s.drop_first();
        assert(sorted_by_loc(tail)) by {
            assert(forall|i: int, j: int|
                0 <= i < j < tail.len() ==> tail[i] == s[i + 1] && tail[j] == s[j + 1]);
        }
        lemma_insert_ordered_sorted(tail, f);
        let t = insert_ordered(tail, f);
        let r = seq![s[0]] + t;
        assert forall|i: int, j: int| 0 <= i < j < r.len() implies loc_le(r[i], r[j]) by {
            if i == 0 {
                assert(r[j] == t[j - 1]);
                assert(t.contains(t[j - 1]));
                lemma_insert_ordered_contains(tail, f, t[j - 1]);
                if t[j - 1] == f {
                    assert(loc_le(s[0], f));
                } else {
                    let m = choose|m: int| 0 <= m < tail.len() && tail[m] == t[j - 1];
                    assert(tail[m] == s[m + 1]);
                    assert(loc_le(s[0], s[m + 1]));
                }
            } else {
                assert(r[i] == t[i - 1] && r[j] == t[j - 1]);
            }
        }
    }
}

/// Building the report keeps it ordered.
proof fn lemma_unused_from_sorted(pairs: Seq<(FunctionView, nat)>, i: int, acc: Seq<FunctionView>)
    requires
        0 <= i,
        sorted_by_loc(acc),
    ensures
        sorted_by_loc(unused_from(pairs, i, acc)),
    decreases pairs.len() - i
{
    if i >= pairs.len() {
    } else {
        let acc2 = if pairs[i].1 < 2 {
            insert_ordered(acc, pairs[i].0)
        } else {
            acc
        };
        if pairs[i].1 < 2 {
            lemma_insert_ordered_sorted(acc, pairs[i].0);
        }
        lemma_unused_from_sorted(pairs, i + 1, acc2);
    }
}

/// Sort order: whenever finding A stands before finding B in the report, A's
/// path is lexicographically no greater than B's, and on the same path the
/// line numbers are ascending.
pub proof fn lemma_scan_sorted(corpus: Seq<SourceFileView>)
    ensures
        sorted_by_loc(spec_scan(corpus)),
{
    lemma_unused_from_sorted(paired(corpus, collected(corpus)), 0, Seq::empty());
}

/// How far into a file a declaration stands never lowers the file's count
/// below that single line's contribution.
proof fn lemma_count_lines_from_ge(lines: Seq<Seq<u8>>, j: int, li: int, name: Seq<u8>)
    requires
        0 <= j <= li < lines.len(),
    ensures
        count_lines_from(lines, j, name) >= occurrence_count(lines[li], name),
    decreases li - j
{
    if j < li {
        lemma_count_lines_from_ge(lines, j + 1, li, name);
    }
}

/// A single file's count never exceeds the corpus-wide count.
proof fn lemma_count_files_from_ge(corpus: Seq<SourceFileView>, j: int, fi: int, name: Seq<u8>)
    requires
        0 <= j <= fi < corpus.len(),
    ensures
        count_files_from(corpus, j, name) >= file_count(corpus[fi].lines, name),
    decreases fi - j
{
    if j < fi {
        lemma_count_files_from_ge(corpus, j + 1, fi, name);
    }
}

/// Declaration-line always counted: every candidate's own declaration line
/// contributes at least one occurrence, so every candidate's total count is
/// at least one.
pub proof fn lemma_declaration_line_counted(corpus: Seq<SourceFileView>, f: FunctionView)
    requires
        is_candidate(corpus, f),
    ensures
        total_count(corpus, f.name) >= 1,
{
    let (fi, li) = choose|fi: int, li: int|
        0 <= fi < corpus.len() && 0 <= li < corpus[fi].lines.len() && line_candidate(
            corpus[fi].path,
            li + 1,
            corpus[fi].lines[li],
        ) == Option::Some(f);
    let line = corpus[fi].lines[li];
    assert(extracted(line) is Some && extracted(line)->Some_0 == f.name);
    lemma_extracted_occurs(line);
    let at = choose|at: int| matches_at(line, f.name, at);
    lemma_contains_counted(line, f.name, at);
    lemma_count_lines_from_ge(corpus[fi].lines, 0, li, f.name);
    lemma_count_files_from_ge(corpus, 0, fi, f.name);
}

/// Exclusion correctness: no finding's name contains the test marker or a
/// double underscore, whatever its occurrence count.
pub proof fn lemma_exclusion(corpus: Seq<SourceFileView>, g: FunctionView)
    requires
        spec_scan(corpus).contains(g),
    ensures
        !contains_seq(g.name, test_marker()),
        !contains_seq(g.name, dunder_marker()),
{
    lemma_scan_membership(corpus, g);
    let (fi, li) = choose|fi: int, li: int|
        0 <= fi < corpus.len() && 0 <= li < corpus[fi].lines.len() && line_candidate(
            corpus[fi].path,
            li + 1,
            corpus[fi].lines[li],
        ) == Option::Some(g);
    assert(considered(g.name));
}

/// Threshold boundary: a candidate mentioned exactly once is reported; one
/// mentioned twice or more, even by substring matches, is not.
pub proof fn lemma_threshold(corpus: Seq<SourceFileView>, g: FunctionView)
    requires
        is_candidate(corpus, g),
    ensures
        spec_scan(corpus).contains(g) <==> total_count(corpus, g.name) < 2,
{
    lemma_scan_membership(corpus, g);
}

/// Appending-unless-present never creates a duplicate.
proof fn lemma_push_unique_nodup(s: Seq<FunctionView>, f: FunctionView)
    requires
        s.no_duplicates(),
    ensures
        push_unique(s, f).no_duplicates(),
{
    if !s.contains(f) {
        let r = s.push(f);
        assert forall|i: int, j: int| 0 <= i < j < r.len() implies r[i] != r[j] by {
            if j == s.len() {
                if r[i] == f {
                    assert(s[i] == f);
                    assert(s.contains(f));
                }
            }
        }
    }
}

/// Collecting one file's candidates never creates a duplicate.
proof fn lemma_collect_file_nodup(
    path: Seq<u8>,
    lines: Seq<Seq<u8>>,
    li: int,
    acc: Seq<FunctionView>,
)
    requires
        acc.no_duplicates(),
    ensures
        collect_file_from(path, lines, li, acc).no_duplicates(),
    decreases lines.len() - li
{
    if li < 0 || li >= lines.len() {
    } else {
        match line_candidate(path, li + 1, lines[li]) {
            Option::Some(f) => {
                lemma_push_unique_nodup(acc, f);
                lemma_collect_file_nodup(path, lines, li + 1, push_unique(acc, f));
            },
            Option::None => {
                lemma_collect_file_nodup(path, lines, li + 1, acc);
            },
        }
    }
}

/// Collecting the corpus's candidates never creates a duplicate.
proof fn lemma_collect_from_nodup(corpus: Seq<SourceFileView>, fi: int, acc: Seq<FunctionView>)
    requires
        acc.no_duplicates(),
    ensures
        collect_from(corpus, fi, acc).no_duplicates(),
    decreases corpus.len() - fi
{
    if fi < 0 || fi >= corpus.len() {
    } else {
        lemma_collect_file_nodup(corpus[fi].path, corpus[fi].lines, 0, acc);
        lemma_collect_from_nodup(corpus, fi + 1, collect_file_from(
            corpus[fi].path,
            corpus[fi].lines,
            0,
            acc,
        ));
    }
}

/// Ordered insertion of a new element never creates a duplicate.
proof fn lemma_insert_ordered_nodup(s: Seq<FunctionView>, f: FunctionView)
    requires
        s.no_duplicates(),
        !s.contains(f),
    ensures
        insert_ordered(s, f).no_duplicates(),
    decreases s.len()
{
    if s.len() == 0 {
    } else if loc_le(f, s[0]) {
        let r = seq![f] + s;
        assert forall|i: int, j: int| 0 <= i < j < r.len() implies r[i] != r[j] by {
            if i == 0 {
                assert(r[j] == s[j - 1]);
                if r[j] == f {
                    assert(s.contains(f));
                }
            } else {
                assert(r[i] == s[i - 1] && r[j] == s[j - 1]);
            }
        }
    } else {
        let tail = s.drop_first();
        assert(tail.no_duplicates()) by {
            assert(forall|i: int, j: int|
                0 <= i < j < tail.len() ==> tail[i] == s[i + 1] && tail[j] == s[j + 1]);
        }
        assert(!tail.contains(f)) by {
            if tail.contains(f) {
                let m = choose|m: int| 0 <= m < tail.len() && tail[m] == f;
                assert(s[m + 1] == f);
                assert(s.contains(f));
            }
        }
        lemma_insert_ordered_nodup(tail, f);
        let t = insert_ordered(tail, f);
        let r = seq![s[0]] + t;
        assert forall|i: int, j: int| 0 <= i < j < r.len() implies r[i] != r[j] by {
            if i == 0 {
                assert(r[j] == t[j - 1]);
                assert(t.contains(t[j - 1]));
                lemma_insert_ordered_contains(tail, f, t[j - 1]);
                if t[j - 1] == f {
                    assert(s[0] != f) by {
                        if s[0] == f {
                            assert(s.contains(f));
                        }
                    }
                } else {
                    let m = choose|m: int| 0 <= m < tail.len() && tail[m] == t[j - 1];
                    assert(tail[m] == s[m + 1]);
                    assert(s[0] != s[m + 1]);
                }
            } else {
                assert(r[i] == t[i - 1] && r[j] == t[j - 1]);
            }
        }
    }
}

/// Building the report from candidates with pairwise-distinct identities
/// never creates a duplicate.
proof fn lemma_unused_from_nodup(
    pairs: Seq<(FunctionView, nat)>,
    i: int,
    acc: Seq<FunctionView>,
)
    requires
        0 <= i,
        acc.no_duplicates(),
        forall|m: int, m2: int| 0 <= m < m2 < pairs.len() ==> pairs[m].0 != pairs[m2].0,
        forall|g: FunctionView|
            acc.contains(g) ==> exists|m: int| 0 <= m < i && #[trigger] pairs[m].0 == g,
    ensures
        unused_from(pairs, i, acc).no_duplicates(),
    decreases pairs.len() - i
{
    if i >= pairs.len() {
    } else {
        let f = pairs[i].0;
        if pairs[i].1 < 2 {
            assert(!acc.contains(f)) by {
                if acc.contains(f) {
                    let m = choose|m: int| 0 <= m < i && #[trigger] pairs[m].0 == f;
                    assert(pairs[m].0 != pairs[i].0);
                }
            }
            lemma_insert_ordered_nodup(acc, f);
            let acc2 = insert_ordered(acc, f);
            assert forall|g: FunctionView| acc2.contains(g) implies exists|m: int|
                0 <= m < i + 1 && #[trigger] pairs[m].0 == g by {
                lemma_insert_ordered_contains(acc, f, g);
                if g == f {
                    assert(pairs[i as int].0 == g);
                } else {
                    let m = choose|m: int| 0 <= m < i && #[trigger] pairs[m].0 == g;
                }
            }
            lemma_unused_from_nodup(pairs, i + 1, acc2);
        } else {
            assert forall|g: FunctionView| acc.contains(g) implies exists|m: int|
                0 <= m < i + 1 && #[trigger] pairs[m].0 == g by {
                let m = choose|m: int| 0 <= m < i && #[trigger] pairs[m].0 == g;
            }
            lemma_unused_from_nodup(pairs, i + 1, acc);
        }
    }
}

/// The findings form a set: no entity, a name at a location, is ever
/// reported twice.
pub proof fn lemma_findings_distinct(corpus: Seq<SourceFileView>)
    ensures
        spec_scan(corpus).no_duplicates(),
{
    let fs = collected(corpus);
    let pairs = paired(corpus, fs);
    lemma_collect_from_nodup(corpus, 0, Seq::empty());
    assert(forall|m: int, m2: int| 0 <= m < m2 < pairs.len() ==> pairs[m].0 != pairs[m2].0) by {
        assert(forall|m: int| 0 <= m < pairs.len() ==> pairs[m].0 == fs[m]);
    }
    assert(forall|g: FunctionView| !Seq::<FunctionView>::empty().contains(g));
    lemma_unused_from_nodup(pairs, 0, Seq::empty());
}

} // verus!
