//! The two-pass detection pipeline: collect candidate declarations from a
//! materialized corpus, count textual occurrences of every candidate name
//! across the whole corpus, and report candidates whose name occurs fewer
//! than two times, ordered by location.
//!
//! The corpus is a frozen snapshot of every eligible file's lines, so both
//! passes read the same data and a declaration late in walk order is still
//! counted against earlier lines.

use vstd::prelude::*;

use crate::extract::{extract_declaration, extracted, lemma_extracted_occurs};
use crate::policy::considered;
use crate::text::{
    bytes_eq, bytes_le, count_occurrences, lemma_count_bound, lex_le, lex_lt, occurrence_count,
};
use crate::policy::should_consider_function;

verus! {

/// A candidate declaration: the captured name and where it was declared.
/// Two candidates are the same entity only when name, path and line number
/// all agree.
pub struct Function {
    /// The captured identifier text.
    pub name: Vec<u8>,
    /// Path of the declaring file, as handed to the scan.
    pub path: Vec<u8>,
    /// 1-indexed line number of the declaration.
    pub line: usize,
}

/// The mathematical image of a `Function`.
#[verifier::ext_equal]
pub ghost struct FunctionView {
    pub name: Seq<u8>,
    pub path: Seq<u8>,
    pub line: int,
}

impl View for Function {
    type V = FunctionView;

    open spec fn view(&self) -> FunctionView {
        FunctionView { name: self.name@, path: self.path@, line: self.line as int }
    }
}

impl DeepView for Function {
    type V = FunctionView;

    open spec fn deep_view(&self) -> FunctionView {
        self.view()
    }
}

/// One eligible file of the corpus: its path and its lines, without line
/// terminators, in file order.
pub struct SourceFile {
    /// Path of the file, as it should be reported.
    pub path: Vec<u8>,
    /// The file's lines, 0-indexed here; line numbers are 1-indexed.
    pub lines: Vec<Vec<u8>>,
}

/// The mathematical image of a `SourceFile`.
#[verifier::ext_equal]
pub ghost struct SourceFileView {
    pub path: Seq<u8>,
    pub lines: Seq<Seq<u8>>,
}

impl View for SourceFile {
    type V = SourceFileView;

    open spec fn view(&self) -> SourceFileView {
        SourceFileView { path: self.path@, lines: self.lines.deep_view() }
    }
}

impl DeepView for SourceFile {
    type V = SourceFileView;

    open spec fn deep_view(&self) -> SourceFileView {
        self.view()
    }
}

/// The candidate a line contributes, if any: an extracted name that passes
/// the exclusion policy, located at the line's 1-indexed number.
pub open spec fn line_candidate(path: Seq<u8>, lineno: int, line: Seq<u8>) -> Option<FunctionView> {
    match extracted(line) {
        Option::Some(name) => if considered(name) {
            Option::Some(FunctionView { name, path, line: lineno })
        } else {
            Option::None
        },
        Option::None => Option::None,
    }
}

/// `f` is declared somewhere in the corpus and passes the exclusion policy.
pub open spec fn is_candidate(corpus: Seq<SourceFileView>, f: FunctionView) -> bool {
    exists|fi: int, li: int|
        0 <= fi < corpus.len() && 0 <= li < corpus[fi].lines.len() && line_candidate(
            corpus[fi].path,
            li + 1,
            corpus[fi].lines[li],
        ) == Option::Some(f)
}

/// Append a candidate unless the very same declaration occurrence is
/// already present: the corpus of functions is a set of unique
/// name-and-location pairs.
pub open spec fn push_unique(s: Seq<FunctionView>, f: FunctionView) -> Seq<FunctionView> {
    if s.contains(f) {
        s
    } else {
        s.push(f)
    }
}

/// Candidates of one file from line index `li` on, appended to `acc`.
pub open spec fn collect_file_from(
    path: Seq<u8>,
    lines: Seq<Seq<u8>>,
    li: int,
    acc: Seq<FunctionView>,
) -> Seq<FunctionView>
    decreases lines.len() - li
{
    if li < 0 || li >= lines.len() {
        acc
    } else {
        let acc2 = match line_candidate(path, li + 1, lines[li]) {
            Option::Some(f) => push_unique(acc, f),
            Option::None => acc,
        };
        collect_file_from(path, lines, li + 1, acc2)
    }
}

/// Candidates of the corpus from file index `fi` on, appended to `acc`.
pub open spec fn collect_from(
    corpus: Seq<SourceFileView>,
    fi: int,
    acc: Seq<FunctionView>,
) -> Seq<FunctionView>
    decreases corpus.len() - fi
{
    if fi < 0 || fi >= corpus.len() {
        acc
    } else {
        collect_from(corpus, fi + 1, collect_file_from(corpus[fi].path, corpus[fi].lines, 0, acc))
    }
}

/// All candidate declarations of the corpus, in walk order, deduplicated.
pub open spec fn collected(corpus: Seq<SourceFileView>) -> Seq<FunctionView> {
    collect_from(corpus, 0, Seq::empty())
}

/// Occurrences of `name` in the lines of one file, from line `li` on.
pub open spec fn count_lines_from(lines: Seq<Seq<u8>>, li: int, name: Seq<u8>) -> nat
    decreases lines.len() - li
{
    if li < 0 || li >= lines.len() {
        0
    } else {
        occurrence_count(lines[li], name) + count_lines_from(lines, li + 1, name)
    }
}

/// Occurrences of `name` across a whole file.
pub open spec fn file_count(lines: Seq<Seq<u8>>, name: Seq<u8>) -> nat {
    count_lines_from(lines, 0, name)
}

/// Occurrences of `name` across the corpus, from file `fi` on.
pub open spec fn count_files_from(corpus: Seq<SourceFileView>, fi: int, name: Seq<u8>) -> nat
    decreases corpus.len() - fi
{
    if fi < 0 || fi >= corpus.len() {
        0
    } else {
        file_count(corpus[fi].lines, name) + count_files_from(corpus, fi + 1, name)
    }
}

/// Total occurrences of `name` across every line of the corpus.
pub open spec fn total_count(corpus: Seq<SourceFileView>, name: Seq<u8>) -> nat {
    count_files_from(corpus, 0, name)
}

/// Bytes in one file's lines, from line `li` on.
pub open spec fn lines_bytes_from(lines: Seq<Seq<u8>>, li: int) -> nat
    decreases lines.len() - li
{
    if li < 0 || li >= lines.len() {
        0
    } else {
        lines[li].len() + lines_bytes_from(lines, li + 1)
    }
}

/// Bytes in one file's lines.
pub open spec fn file_bytes(lines: Seq<Seq<u8>>) -> nat {
    lines_bytes_from(lines, 0)
}

/// Bytes in the corpus, from file `fi` on.
pub open spec fn corpus_bytes_from(corpus: Seq<SourceFileView>, fi: int) -> nat
    decreases corpus.len() - fi
{
    if fi < 0 || fi >= corpus.len() {
        0
    } else {
        file_bytes(corpus[fi].lines) + corpus_bytes_from(corpus, fi + 1)
    }
}

/// Total bytes of line text in the corpus; occurrence counts can never
/// exceed it.
pub open spec fn corpus_bytes(corpus: Seq<SourceFileView>) -> nat {
    corpus_bytes_from(corpus, 0)
}

/// A file's occurrence count is bounded by the file's size.
proof fn lemma_count_lines_le_bytes(lines: Seq<Seq<u8>>, li: int, name: Seq<u8>)
    ensures
        count_lines_from(lines, li, name) <= lines_bytes_from(lines, li),
    decreases lines.len() - li
{
    if 0 <= li < lines.len() {
        lemma_count_bound(lines[li], name);
        lemma_count_lines_le_bytes(lines, li + 1, name);
    }
}

/// The corpus-wide occurrence count is bounded by the corpus size.
pub proof fn lemma_count_le_corpus_bytes(corpus: Seq<SourceFileView>, fi: int, name: Seq<u8>)
    ensures
        count_files_from(corpus, fi, name) <= corpus_bytes_from(corpus, fi),
    decreases corpus.len() - fi
{
    if 0 <= fi < corpus.len() {
        lemma_count_lines_le_bytes(corpus[fi].lines, 0, name);
        lemma_count_le_corpus_bytes(corpus, fi + 1, name);
    }
}

/// Suffix byte counts only shrink as the start index grows.
proof fn lemma_corpus_bytes_suffix(corpus: Seq<SourceFileView>, fi: int, fj: int)
    requires
        0 <= fi <= fj,
    ensures
        corpus_bytes_from(corpus, fj) <= corpus_bytes_from(corpus, fi),
    decreases fj - fi
{
    if fi < fj {
        lemma_corpus_bytes_suffix(corpus, fi + 1, fj);
    }
}

/// Whether two candidates are the same entity: same name, same location.
pub fn function_eq(a: &Function, b: &Function) -> (r: bool)
    ensures
        r == (a@ == b@),
{
    let r = bytes_eq(&a.name, &b.name) && bytes_eq(&a.path, &b.path) && a.line == b.line;
    proof {
        if r {
            assert(a@ =~= b@);
        }
    }
    r
}

/// Whether the very same declaration occurrence is already recorded.
fn contains_function(v: &Vec<Function>, f: &Function) -> (r: bool)
    ensures
        r == v.deep_view().contains(f@),
{
    let mut i: usize = 0;
    while i < v.len()
        invariant
            0 <= i <= v@.len(),
            forall|k: int| 0 <= k < i ==> v@[k]@ != f@,
        decreases v@.len() - i
    {
        if function_eq(&v[i], f) {
            assert(v.deep_view()[i as int] == f@);
            return true;
        }
        i += 1;
    }
    assert(!v.deep_view().contains(f@)) by {
        if v.deep_view().contains(f@) {
            let k = choose|k: int| 0 <= k < v.deep_view().len() && v.deep_view()[k] == f@;
            assert(v@[k]@ == f@);
        }
    }
    false
}

/// Copy a byte string.
fn copy_bytes(src: &Vec<u8>) -> (r: Vec<u8>)
    ensures
        r@ == src@,
{
    let mut r: Vec<u8> = Vec::new();
    let mut i: usize = 0;
    while i < src.len()
        invariant
            0 <= i <= src@.len(),
            r@ =~= src@.subrange(0, i as int),
        decreases src@.len() - i
    {
        r.push(src[i]);
        i += 1;
    }
    proof {
        assert(r@ =~= src@);
    }
    r
}

/// Record the candidate of one line, if the line contributes one that is
/// not already recorded.
fn process_line(out: &mut Vec<Function>, path: &Vec<u8>, line: &Vec<u8>, lineno: usize)
    ensures
        final (out).deep_view() == match line_candidate(path@, lineno as int, line@) {
            Option::Some(f) => push_unique(old(out).deep_view(), f),
            Option::None => old(out).deep_view(),
        },
{
    let ghost acc0 = out.deep_view();
    match extract_declaration(line) {
        Some(name) => {
            if should_consider_function(&name) {
                let ghost nv = name@;
                let f = Function { name, path: copy_bytes(path), line: lineno };
                proof {
                    assert(extracted(line@) == Option::Some(nv));
                    assert(f@ =~= (FunctionView { name: nv, path: path@, line: lineno as int }));
                    assert(line_candidate(path@, lineno as int, line@) == Option::Some(f@));
                }
                if !contains_function(out, &f) {
                    out.push(f);
                    proof {
                        assert(out.deep_view() =~= acc0.push(f@));
                    }
                }
            }
        },
        None => {},
    }
}

/// Walk the corpus in order, extracting every candidate declaration and
/// deduplicating exact repeats of the same name and location.
pub fn collect_declarations(corpus: &Vec<SourceFile>) -> (r: Vec<Function>)
    ensures
        r.deep_view() == collected(corpus.deep_view()),
{
    let ghost cv = corpus.deep_view();
    let mut out: Vec<Function> = Vec::new();
    proof {
        assert(out.deep_view() =~= Seq::<FunctionView>::empty());
    }
    let mut fi: usize = 0;
    while fi < corpus.len()
        invariant
            cv == corpus.deep_view(),
            0 <= fi <= cv.len(),
            collect_from(cv, fi as int, out.deep_view()) == collected(cv),
        decreases cv.len() - fi
    {
        let file = &corpus[fi];
        proof {
            assert(cv[fi as int] == file@);
        }
        let mut li: usize = 0;
        while li < file.lines.len()
            invariant
                cv == corpus.deep_view(),
                0 <= fi < cv.len(),
                cv[fi as int] == file@,
                0 <= li <= file@.lines.len(),
                collect_from(
                    cv,
                    fi + 1,
                    collect_file_from(file@.path, file@.lines, li as int, out.deep_view()),
                ) == collected(cv),
            decreases file@.lines.len() - li
        {
            let line = &file.lines[li];
            proof {
                assert(file@.lines[li as int] == line@);
            }
            let lineno = li + 1;
            process_line(&mut out, &file.path, line, lineno);
            li += 1;
        }
        proof {
            assert(collect_file_from(file@.path, file@.lines, file@.lines.len() as int,
                out.deep_view()) == out.deep_view());
        }
        fi += 1;
    }
    proof {
        assert(collect_from(cv, cv.len() as int, out.deep_view()) == out.deep_view());
    }
    out
}

/// Count the occurrences of `name` across every line of one file.
fn count_in_file(file: &SourceFile, name: &Vec<u8>) -> (c: usize)
    requires
        file_bytes(file@.lines) <= usize::MAX,
    ensures
        c == file_count(file@.lines, name@),
{
    let mut c: usize = 0;
    let mut li: usize = 0;
    proof {
        lemma_count_lines_le_bytes(file@.lines, 0, name@);
    }
    while li < file.lines.len()
        invariant
            file_bytes(file@.lines) <= usize::MAX,
            file_count(file@.lines, name@) <= file_bytes(file@.lines),
            0 <= li <= file@.lines.len(),
            c + count_lines_from(file@.lines, li as int, name@) == file_count(
                file@.lines,
                name@,
            ),
        decreases file@.lines.len() - li
    {
        let line = &file.lines[li];
        proof {
            assert(file@.lines[li as int] == line@);
        }
        let k = count_occurrences(line, name);
        c += k;
        li += 1;
    }
    c
}

/// Count the occurrences of `name` across every line of the corpus: the
/// corpus is an undifferentiated haystack, so only the total matters.
pub fn count_in_corpus(corpus: &Vec<SourceFile>, name: &Vec<u8>) -> (c: usize)
    requires
        corpus_bytes(corpus.deep_view()) <= usize::MAX,
    ensures
        c == total_count(corpus.deep_view(), name@),
{
    let ghost cv = corpus.deep_view();
    let mut c: usize = 0;
    let mut fi: usize = 0;
    proof {
        lemma_count_le_corpus_bytes(cv, 0, name@);
    }
    while fi < corpus.len()
        invariant
            cv == corpus.deep_view(),
            corpus_bytes(cv) <= usize::MAX,
            total_count(cv, name@) <= corpus_bytes(cv),
            0 <= fi <= cv.len(),
            c + count_files_from(cv, fi as int, name@) == total_count(cv, name@),
        decreases cv.len() - fi
    {
        let file = &corpus[fi];
        proof {
            assert(cv[fi as int] == file@);
            lemma_corpus_bytes_suffix(cv, 0, fi as int);
            lemma_count_lines_le_bytes(file@.lines, 0, name@);
        }
        let k = count_in_file(file, name);
        c += k;
        fi += 1;
    }
    c
}

/// Ordering of findings: by path lexicographically, then by line number,
/// then by name.  A total order, so the report is deterministic.
pub open spec fn loc_le(a: FunctionView, b: FunctionView) -> bool {
    if a.path != b.path {
        lex_lt(a.path, b.path)
    } else if a.line != b.line {
        a.line < b.line
    } else {
        lex_le(a.name, b.name)
    }
}

/// The findings are in ascending location order.
pub open spec fn sorted_by_loc(s: Seq<FunctionView>) -> bool {
    forall|i: int, j: int| 0 <= i < j < s.len() ==> loc_le(s[i], s[j])
}

/// Insert a finding before the first element it precedes.
pub open spec fn insert_ordered(s: Seq<FunctionView>, f: FunctionView) -> Seq<FunctionView>
    decreases s.len()
{
    if s.len() == 0 {
        seq![f]
    } else if loc_le(f, s[0]) {
        seq![f] + s
    } else {
        seq![s[0]] + insert_ordered(s.drop_first(), f)
    }
}

/// Compare two findings by location.
pub fn function_loc_le(a: &Function, b: &Function) -> (r: bool)
    ensures
        r == loc_le(a@, b@),
{
    if !bytes_eq(&a.path, &b.path) {
        bytes_le(&a.path, &b.path)
    } else if a.line != b.line {
        a.line < b.line
    } else {
        bytes_le(&a.name, &b.name)
    }
}

/// Inserting at the first position whose element the new one precedes is
/// what `insert_ordered` means.
proof fn lemma_insert_ordered_at(s: Seq<FunctionView>, f: FunctionView, j: int)
    requires
        0 <= j <= s.len(),
        forall|k: int| 0 <= k < j ==> !loc_le(f, s[k]),
        j < s.len() ==> loc_le(f, s[j]),
    ensures
        insert_ordered(s, f) == s.insert(j, f),
    decreases s.len()
{
    if s.len() == 0 {
        assert(insert_ordered(s, f) =~= s.insert(0, f));
    } else if loc_le(f, s[0]) {
        assert(j == 0);
        assert(seq![f] + s =~= s.insert(0, f));
    } else {
        assert(j >= 1);
        lemma_insert_ordered_at(s.drop_first(), f, j - 1);
        assert(seq![s[0]] + s.drop_first().insert(j - 1, f) =~= s.insert(j, f));
    }
}

/// Insert a finding into an ordered list of findings.
fn insert_function_ordered(r: &mut Vec<Function>, f: Function)
    ensures
        final (r).deep_view() == insert_ordered(old(r).deep_view(), f@),
{
    let ghost s0 = r.deep_view();
    let mut j: usize = 0;
    while j < r.len() && !function_loc_le(&f, &r[j])
        invariant
            s0 == r.deep_view(),
            0 <= j <= r@.len(),
            forall|k: int| 0 <= k < j ==> !loc_le(f@, r.deep_view()[k]),
        decreases r@.len() - j
    {
        j += 1;
    }
    proof {
        lemma_insert_ordered_at(s0, f@, j as int);
    }
    r.insert(j, f);
    proof {
        assert(r.deep_view() =~= s0.insert(j as int, f@));
    }
}

/// Ghost image of a counted candidate list.
pub open spec fn pairs_view(s: Seq<(Function, usize)>) -> Seq<(FunctionView, nat)> {
    s.map_values(|p: (Function, usize)| (p.0@, p.1 as nat))
}

/// The ordered report built from the counted candidates at index `i` on,
/// inserting each candidate whose count is below two into `acc`.
pub open spec fn unused_from(
    pairs: Seq<(FunctionView, nat)>,
    i: int,
    acc: Seq<FunctionView>,
) -> Seq<FunctionView>
    decreases pairs.len() - i
{
    if i < 0 || i >= pairs.len() {
        acc
    } else {
        let acc2 = if pairs[i].1 < 2 {
            insert_ordered(acc, pairs[i].0)
        } else {
            acc
        };
        unused_from(pairs, i + 1, acc2)
    }
}

/// The ordered report of all counted candidates whose count is below two.
pub open spec fn unused_sorted(pairs: Seq<(FunctionView, nat)>) -> Seq<FunctionView> {
    unused_from(pairs, 0, Seq::empty())
}

/// Each candidate paired with its total occurrence count over the corpus.
pub open spec fn paired(corpus: Seq<SourceFileView>, fs: Seq<FunctionView>) -> Seq<
    (FunctionView, nat),
> {
    fs.map_values(|f: FunctionView| (f, total_count(corpus, f.name)))
}

/// The whole pipeline as one mathematical function of the corpus: collect,
/// count, filter below the threshold of two, and order by location.
pub open spec fn spec_scan(corpus: Seq<SourceFileView>) -> Seq<FunctionView> {
    unused_sorted(paired(corpus, collected(corpus)))
}

/// Return all functions that are only mentioned once: those with a count
/// strictly below two, ordered by path, line and name.
pub fn find_unused_functions(counts: Vec<(Function, usize)>) -> (r: Vec<Function>)
    ensures
        r.deep_view() == unused_sorted(pairs_view(counts@)),
{
    let ghost pv = pairs_view(counts@);
    let mut rest = counts;
    let mut out: Vec<Function> = Vec::new();
    proof {
        assert(out.deep_view() =~= Seq::<FunctionView>::empty());
        assert(pairs_view(rest@) =~= pv.skip(0));
    }
    while rest.len() > 0
        invariant
            rest@.len() <= pv.len(),
            pairs_view(rest@) =~= pv.skip(pv.len() - rest@.len()),
            unused_from(pv, pv.len() - rest@.len(), out.deep_view()) == unused_sorted(pv),
        decreases rest@.len()
    {
        let ghost k = pv.len() - rest@.len();
        let ghost rv0 = rest@;
        let p = rest.remove(0);
        let c = p.1;
        proof {
            assert(pairs_view(rv0)[0] == pv.skip(k)[0]);
            assert(pv.skip(k)[0] == pv[k]);
            assert(pv[k] == (p.0@, p.1 as nat));
            assert(rest@ =~= rv0.subrange(1, rv0.len() as int));
            assert forall|m: int| 0 <= m < rest@.len() implies pairs_view(rest@)[m] == pv.skip(
                k + 1,
            )[m] by {
                assert(rest@[m] == rv0[m + 1]);
                assert(pairs_view(rest@)[m] == (rest@[m].0@, rest@[m].1 as nat));
                assert(pairs_view(rv0)[m + 1] == (rv0[m + 1].0@, rv0[m + 1].1 as nat));
                assert(pairs_view(rv0)[m + 1] == pv.skip(k)[m + 1]);
                assert(pv.skip(k)[m + 1] == pv[k + 1 + m]);
                assert(pv.skip(k + 1)[m] == pv[k + 1 + m]);
            }
            assert(pairs_view(rest@) =~= pv.skip(k + 1));
        }
        if c < 2 {
            insert_function_ordered(&mut out, p.0);
        }
        proof {
            assert(unused_from(pv, k + 1, out.deep_view()) == unused_sorted(pv));
        }
    }
    proof {
        assert(unused_from(pv, pv.len() as int, out.deep_view()) == out.deep_view());
    }
    out
}

/// Scan the corpus to find the candidates that are only mentioned once:
/// count every candidate's name across the whole haystack, then filter and
/// order the report.
pub fn scan_for_unused_functions(corpus: &Vec<SourceFile>, functions: Vec<Function>) -> (r: Vec<
    Function,
>)
    requires
        corpus_bytes(corpus.deep_view()) <= usize::MAX,
    ensures
        r.deep_view() == unused_sorted(paired(corpus.deep_view(), functions.deep_view())),
{
    let ghost cv = corpus.deep_view();
    let ghost fv = functions.deep_view();
    let mut rest = functions;
    let mut counts: Vec<(Function, usize)> = Vec::new();
    proof {
        assert(rest.deep_view() =~= fv.skip(0));
        assert(pairs_view(counts@) =~= paired(cv, fv).take(0));
    }
    while rest.len() > 0
        invariant
            cv == corpus.deep_view(),
            corpus_bytes(cv) <= usize::MAX,
            counts@.len() + rest@.len() == fv.len(),
            rest.deep_view() =~= fv.skip(counts@.len() as int),
            pairs_view(counts@) =~= paired(cv, fv).take(counts@.len() as int),
        decreases rest@.len()
    {
        let ghost k = counts@.len() as int;
        let ghost rv0 = rest@;
        let ghost rdv0 = rest.deep_view();
        let f = rest.remove(0);
        proof {
            assert(rdv0[0] == fv.skip(k)[0]);
            assert(fv.skip(k)[0] == fv[k]);
            assert(rdv0[0] == rv0[0].deep_view());
            assert(f@ == fv[k]);
            assert(rest@ =~= rv0.subrange(1, rv0.len() as int));
            assert forall|m: int| 0 <= m < rest@.len() implies rest.deep_view()[m] == fv.skip(
                k + 1,
            )[m] by {
                assert(rest@[m] == rv0[m + 1]);
                assert(rest.deep_view()[m] == rest@[m].deep_view());
                assert(rdv0[m + 1] == rv0[m + 1].deep_view());
                assert(rdv0[m + 1] == fv.skip(k)[m + 1]);
                assert(fv.skip(k)[m + 1] == fv[k + 1 + m]);
                assert(fv.skip(k + 1)[m] == fv[k + 1 + m]);
            }
            assert(rest.deep_view() =~= fv.skip(k + 1));
        }
        let c = count_in_corpus(corpus, &f.name);
        counts.push((f, c));
        proof {
            assert(pairs_view(counts@) =~= paired(cv, fv).take(k + 1));
        }
    }
    proof {
        assert(pairs_view(counts@) =~= paired(cv, fv));
    }
    find_unused_functions(counts)
}

/// Scan a materialized corpus: collect the candidate declarations, count
/// each name across every line, and report the candidates mentioned fewer
/// than two times, ordered by location.  The second component says whether
/// the scan found anything, which callers treat as failure.
pub fn scan(corpus: &Vec<SourceFile>) -> (r: (Vec<Function>, bool))
    requires
        corpus_bytes(corpus.deep_view()) <= usize::MAX,
    ensures
        r.0.deep_view() == spec_scan(corpus.deep_view()),
        r.1 == (spec_scan(corpus.deep_view()).len() > 0),
{
    let functions = collect_declarations(corpus);
    let unused = scan_for_unused_functions(corpus, functions);
    let failed = unused.len() > 0;
    (unused, failed)
}

} // verus!
