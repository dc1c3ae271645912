use vstd::prelude::*;
use crate::walker::FileEntry;
use crate::text::{
    spec_contains, matches_at, is_first_occurrence, first_occurrence, fold_if, str_to_chars,
    fold_chars, find_first, lemma_first_occurrence_is,
};

verus! {

/// One occurrence of the content pattern inside a file: the 1-based line
/// number, the 1-based column of the first occurrence on that line, and the
/// raw unmodified line text.
#[derive(Debug, PartialEq)]
pub struct LineMatch {
    pub line: usize,
    pub column: usize,
    pub content: String,
}

/// One reported file: either a bare listing entry (content search disabled)
/// or a file together with its non-empty, ascending match list.
#[derive(Debug, PartialEq)]
pub enum SearchResult {
    FileOnly { path: String },
    FileWithMatches { path: String, matches: Vec<LineMatch> },
}

/// The mathematical content of a `LineMatch`: line number, column number,
/// line text.
pub open spec fn match_view(m: LineMatch) -> (int, int, Seq<char>) {
    (m.line as int, m.column as int, m.content@)
}

/// The mathematical content of a whole match list.
pub open spec fn match_views(ms: Seq<LineMatch>) -> Seq<(int, int, Seq<char>)> {
    ms.map_values(|m: LineMatch| match_view(m))
}

/// True when the line contains the pattern, after case folding both sides if
/// `ignore_case` asks for it.
pub open spec fn line_has(line: Seq<char>, pat: Seq<char>, ignore_case: bool) -> bool {
    spec_contains(fold_if(line, ignore_case), fold_if(pat, ignore_case))
}

/// The entry recorded for the line with 1-based number `ln` and raw text
/// `line`: its column is one past the position of the first (case-folded)
/// occurrence.
pub open spec fn entry_of(ln: int, line: Seq<char>, pat: Seq<char>, ignore_case: bool) -> (
    int,
    int,
    Seq<char>,
) {
    (ln, 1 + first_occurrence(fold_if(line, ignore_case), fold_if(pat, ignore_case)), line)
}

/// The match sequence that one scan of `lines` for `pat` yields: one entry
/// per line that contains the pattern, in line order.
pub open spec fn spec_scan(lines: Seq<Seq<char>>, pat: Seq<char>, ignore_case: bool) -> Seq<
    (int, int, Seq<char>),
>
    decreases lines.len(),
{
    if lines.len() == 0 {
        Seq::empty()
    } else {
        let rest = spec_scan(lines.drop_last(), pat, ignore_case);
        if line_has(lines.last(), pat, ignore_case) {
            rest.push(entry_of(lines.len() as int, lines.last(), pat, ignore_case))
        } else {
            rest
        }
    }
}

/// Every entry of `out` points at a line of `lines` that contains the
/// pattern, and is exactly the entry recorded for that line.
pub open spec fn scan_sound(
    lines: Seq<Seq<char>>,
    pat: Seq<char>,
    ignore_case: bool,
    out: Seq<(int, int, Seq<char>)>,
) -> bool {
    forall|k: int|
        0 <= k < out.len() ==> {
            &&& 1 <= (#[trigger] out[k]).0 <= lines.len()
            &&& line_has(lines[out[k].0 - 1], pat, ignore_case)
            &&& out[k] == entry_of(out[k].0, lines[out[k].0 - 1], pat, ignore_case)
        }
}

/// The entries of `out` carry strictly ascending line numbers.
pub open spec fn scan_ascending(out: Seq<(int, int, Seq<char>)>) -> bool {
    forall|k1: int, k2: int|
        0 <= k1 < k2 < out.len() ==> (#[trigger] out[k1]).0 < (#[trigger] out[k2]).0
}

/// Every line of `lines` that contains the pattern is represented in `out`.
pub open spec fn scan_complete(
    lines: Seq<Seq<char>>,
    pat: Seq<char>,
    ignore_case: bool,
    out: Seq<(int, int, Seq<char>)>,
) -> bool {
    forall|i: int|
        0 <= i < lines.len() && line_has(#[trigger] lines[i], pat, ignore_case) ==> exists|k: int|
            0 <= k < out.len() && (#[trigger] out[k]).0 == i + 1
}

/// The scan result contains exactly the matching lines, in ascending line
/// order, each with its first-occurrence column and raw text.
pub proof fn lemma_scan_characterization(lines: Seq<Seq<char>>, pat: Seq<char>, ignore_case: bool)
    ensures
        scan_sound(lines, pat, ignore_case, spec_scan(lines, pat, ignore_case)),
        scan_ascending(spec_scan(lines, pat, ignore_case)),
        scan_complete(lines, pat, ignore_case, spec_scan(lines, pat, ignore_case)),
    decreases lines.len(),
{
    let out = spec_scan(lines, pat, ignore_case);
    if lines.len() == 0 {
    } else {
        let prefix = lines.drop_last();
        lemma_scan_characterization(prefix, pat, ignore_case);
        let rest = spec_scan(prefix, pat, ignore_case);
        assert(forall|i: int| 0 <= i < prefix.len() ==> #[trigger] prefix[i] == lines[i]);
        if line_has(lines.last(), pat, ignore_case) {
            let e = entry_of(lines.len() as int, lines.last(), pat, ignore_case);
            assert(out == rest.push(e));
            assert(scan_sound(lines, pat, ignore_case, out)) by {
                assert forall|k: int| 0 <= k < out.len() implies {
                    &&& 1 <= (#[trigger] out[k]).0 <= lines.len()
                    &&& line_has(lines[out[k].0 - 1], pat, ignore_case)
                    &&& out[k] == entry_of(out[k].0, lines[out[k].0 - 1], pat, ignore_case)
                } by {
                    if k < rest.len() {
                        assert(out[k] == rest[k]);
                        assert(1 <= rest[k].0 <= prefix.len());
                        assert(lines[rest[k].0 - 1] == prefix[rest[k].0 - 1]);
                    } else {
                        assert(out[k] == e);
                        assert(lines[lines.len() - 1] == lines.last());
                    }
                }
            }
            assert(scan_ascending(out)) by {
                assert forall|k1: int, k2: int| 0 <= k1 < k2 < out.len() implies (
                #[trigger] out[k1]).0 < (#[trigger] out[k2]).0 by {
                    if k2 < rest.len() {
                        assert(out[k1] == rest[k1] && out[k2] == rest[k2]);
                    } else {
                        assert(out[k2] == e);
                        assert(out[k1] == rest[k1]);
                        assert(rest[k1].0 <= prefix.len());
                    }
                }
            }
            assert(scan_complete(lines, pat, ignore_case, out)) by {
                assert forall|i: int|
                    0 <= i < lines.len() && line_has(#[trigger] lines[i], pat, ignore_case) implies
                    exists|k: int| 0 <= k < out.len() && (#[trigger] out[k]).0 == i + 1 by {
                    if i < prefix.len() {
                        assert(prefix[i] == lines[i]);
                        assert(line_has(prefix[i], pat, ignore_case));
                        let k = choose|k: int|
                            0 <= k < rest.len() && (#[trigger] rest[k]).0 == i + 1;
                        assert(out[k] == rest[k]);
                        assert(0 <= k < out.len() && out[k].0 == i + 1);
                    } else {
                        assert(out[rest.len() as int] == e);
                        assert(out[rest.len() as int].0 == i + 1);
                    }
                }
            }
        } else {
            assert(out == rest);
            assert(scan_sound(lines, pat, ignore_case, out)) by {
                assert forall|k: int| 0 <= k < out.len() implies {
                    &&& 1 <= (#[trigger] out[k]).0 <= lines.len()
                    &&& line_has(lines[out[k].0 - 1], pat, ignore_case)
                    &&& out[k] == entry_of(out[k].0, lines[out[k].0 - 1], pat, ignore_case)
                } by {
                    assert(1 <= rest[k].0 <= prefix.len());
                    assert(lines[rest[k].0 - 1] == prefix[rest[k].0 - 1]);
                }
            }
            assert(scan_complete(lines, pat, ignore_case, out)) by {
                assert forall|i: int|
                    0 <= i < lines.len() && line_has(#[trigger] lines[i], pat, ignore_case) implies
                    exists|k: int| 0 <= k < out.len() && (#[trigger] out[k]).0 == i + 1 by {
                    assert(i < prefix.len() || lines[i] == lines.last());
                    assert(i < prefix.len());
                    assert(prefix[i] == lines[i]);
                    assert(line_has(prefix[i], pat, ignore_case));
                    let k = choose|k: int| 0 <= k < rest.len() && (#[trigger] rest[k]).0 == i + 1;
                    assert(0 <= k < out.len() && out[k].0 == i + 1);
                }
            }
        }
    }
}

/// Scans `lines` for `pattern` and returns one match per line that contains
/// it: the 1-based line number, the 1-based column of the first occurrence,
/// and the raw line text, in ascending line order.
pub fn scan_lines(lines: &Vec<String>, pattern: &str, ignore_case: bool) -> (out: Vec<LineMatch>)
    ensures
        match_views(out@) == spec_scan(lines.deep_view(), pattern@, ignore_case),
        scan_sound(lines.deep_view(), pattern@, ignore_case, match_views(out@)),
        scan_ascending(match_views(out@)),
        scan_complete(lines.deep_view(), pattern@, ignore_case, match_views(out@)),
{
    let ghost lv = lines.deep_view();
    let pat_chars = str_to_chars(pattern);
    let pat_use = if ignore_case {
        fold_chars(&pat_chars)
    } else {
        pat_chars
    };
    assert(pat_use@ == fold_if(pattern@, ignore_case));
    let n: usize = lines.len();
    let mut out: Vec<LineMatch> = Vec::new();
    let mut i: usize = 0;
    while i < n
        invariant
            lv == lines.deep_view(),
            n == lines@.len(),
            lv.len() == n,
            i <= n,
            pat_use@ == fold_if(pattern@, ignore_case),
            match_views(out@) == spec_scan(lv.take(i as int), pattern@, ignore_case),
        decreases n - i,
    {
        let line_ref: &String = &lines[i];
        assert(line_ref@ == lv[i as int]);
        let chars = str_to_chars(line_ref.as_str());
        let hay = if ignore_case {
            fold_chars(&chars)
        } else {
            chars
        };
        assert(hay@ == fold_if(lv[i as int], ignore_case));
        let hay_len: usize = hay.len();
        let found = find_first(&hay, &pat_use);
        proof {
            assert(lv.take(i + 1).drop_last() =~= lv.take(i as int));
            assert(lv.take(i + 1).last() == lv[i as int]);
            assert(lv.take(i + 1).len() == i + 1);
        }
        match found {
            Some(idx) => {
                proof {
                    if pat_use@.len() == 0 {
                        assert(matches_at(hay@, pat_use@, 0));
                        if idx as int > 0 {
                            assert(!matches_at(hay@, pat_use@, 0));
                        }
                    }
                    assert((idx as int) < usize::MAX);
                }
                let m = LineMatch { line: i + 1, column: idx + 1, content: line_ref.clone() };
                proof {
                    assert(line_has(lv[i as int], pattern@, ignore_case));
                    lemma_first_occurrence_is(hay@, pat_use@, idx as int);
                    assert(match_view(m) == entry_of(i + 1, lv[i as int], pattern@, ignore_case));
                    assert(spec_scan(lv.take(i + 1), pattern@, ignore_case) == spec_scan(
                        lv.take(i as int),
                        pattern@,
                        ignore_case,
                    ).push(entry_of(i + 1, lv[i as int], pattern@, ignore_case)));
                    assert(match_views(out@.push(m)) =~= match_views(out@).push(match_view(m)));
                }
                out.push(m);
            },
            None => {
                proof {
                    assert(!line_has(lv[i as int], pattern@, ignore_case));
                    assert(spec_scan(lv.take(i + 1), pattern@, ignore_case) == spec_scan(
                        lv.take(i as int),
                        pattern@,
                        ignore_case,
                    ));
                }
            },
        }
        i = i + 1;
    }
    proof {
        assert(lv.take(n as int) =~= lv);
        lemma_scan_characterization(lv, pattern@, ignore_case);
    }
    out
}

/// Scans one file's lines and wraps the outcome as the worker reports it:
/// `Some` carrying the path and the full match list when at least one line
/// contains the pattern, `None` when no line does.
pub fn scan_file(path: String, lines: &Vec<String>, pattern: &str, ignore_case: bool) -> (r: Option<
    SearchResult,
>)
    ensures
        (r is Some) <==> (exists|i: int|
            0 <= i < lines.deep_view().len() && line_has(
                #[trigger] lines.deep_view()[i],
                pattern@,
                ignore_case,
            )),
        match r {
            Some(res) => match res {
                SearchResult::FileWithMatches { path: p, matches: ms } => {
                    &&& p@ == path@
                    &&& ms@.len() > 0
                    &&& match_views(ms@) == spec_scan(lines.deep_view(), pattern@, ignore_case)
                },
                SearchResult::FileOnly { .. } => false,
            },
            None => true,
        },
{
    let ghost lv = lines.deep_view();
    let matches = scan_lines(lines, pattern, ignore_case);
    proof {
        lemma_scan_characterization(lv, pattern@, ignore_case);
        let out = spec_scan(lv, pattern@, ignore_case);
        if out.len() > 0 {
            assert(line_has(lv[out[0].0 - 1], pattern@, ignore_case));
        }
        if exists|i: int| 0 <= i < lv.len() && line_has(#[trigger] lv[i], pattern@, ignore_case) {
            let i = choose|i: int|
                0 <= i < lv.len() && line_has(#[trigger] lv[i], pattern@, ignore_case);
            assert(exists|k: int| 0 <= k < out.len() && (#[trigger] out[k]).0 == i + 1);
            assert(out.len() > 0);
        }
    }
    if matches.len() > 0 {
        Some(SearchResult::FileWithMatches { path, matches })
    } else {
        assert(match_views(matches@).len() == 0);
        None
    }
}

/// The listing-only path: with no content pattern there is nothing to scan,
/// and every candidate is reported as one bare `FileOnly` result, in order.
pub fn listing_results(files: Vec<FileEntry>) -> (out: Vec<SearchResult>)
    ensures
        out@.len() == files@.len(),
        forall|i: int|
            0 <= i < out@.len() ==> ((#[trigger] out@[i]) matches SearchResult::FileOnly { path }
                && path == files@[i].path),
{
    let ghost orig = files@;
    let mut rest = files;
    let mut out: Vec<SearchResult> = Vec::new();
    while rest.len() > 0
        invariant
            rest@.len() <= orig.len(),
            orig.skip(orig.len() - rest@.len()) == rest@,
            out@.len() == orig.len() - rest@.len(),
            forall|i: int|
                0 <= i < out@.len() ==> ((#[trigger] out@[i]) matches SearchResult::FileOnly { path }
                    && path == orig[i].path),
        decreases rest@.len(),
    {
        let ghost i = orig.len() - rest@.len();
        let e = rest.remove(0);
        proof {
            assert(e == orig.skip(i)[0]);
            assert(e == orig[i]);
            assert(orig.skip(i).remove(0) =~= orig.skip(i + 1));
        }
        out.push(SearchResult::FileOnly { path: e.path });
    }
    out
}

/// Scanning an unmodified file again yields the identical match sequence:
/// the scan result is a function of the lines, the pattern and the case
/// policy alone.
pub proof fn lemma_scan_idempotent(
    lines: Seq<Seq<char>>,
    pat: Seq<char>,
    ignore_case: bool,
    first: Seq<(int, int, Seq<char>)>,
    second: Seq<(int, int, Seq<char>)>,
)
    requires
        first == spec_scan(lines, pat, ignore_case),
        second == spec_scan(lines, pat, ignore_case),
    ensures
        first == second,
{
}

/// A file whose content pattern occurs exactly on its second and fifth lines
/// yields exactly two matches: one for line 2, then one for line 5.
pub proof fn lemma_matches_on_lines_two_and_five(
    lines: Seq<Seq<char>>,
    pat: Seq<char>,
    ignore_case: bool,
)
    requires
        lines.len() >= 5,
        line_has(lines[1], pat, ignore_case),
        line_has(lines[4], pat, ignore_case),
        forall|i: int|
            0 <= i < lines.len() && i != 1 && i != 4 ==> !line_has(
                #[trigger] lines[i],
                pat,
                ignore_case,
            ),
    ensures
        spec_scan(lines, pat, ignore_case).len() == 2,
        spec_scan(lines, pat, ignore_case)[0].0 == 2,
        spec_scan(lines, pat, ignore_case)[1].0 == 5,
{
    lemma_scan_characterization(lines, pat, ignore_case);
    let out = spec_scan(lines, pat, ignore_case);
    assert forall|k: int| 0 <= k < out.len() implies (#[trigger] out[k]).0 == 2 || out[k].0
        == 5 by {
        assert(line_has(lines[out[k].0 - 1], pat, ignore_case));
        if out[k].0 - 1 != 1 && out[k].0 - 1 != 4 {
            assert(!line_has(lines[out[k].0 - 1], pat, ignore_case));
        }
    }
    assert(exists|k: int| 0 <= k < out.len() && (#[trigger] out[k]).0 == 2);
    assert(exists|k: int| 0 <= k < out.len() && (#[trigger] out[k]).0 == 5);
    let k2 = choose|k: int| 0 <= k < out.len() && (#[trigger] out[k]).0 == 2;
    let k5 = choose|k: int| 0 <= k < out.len() && (#[trigger] out[k]).0 == 5;
    assert(k2 != k5);
    assert(out.len() >= 2);
    if out.len() >= 3 {
        assert(out[0].0 < out[1].0);
        assert(out[1].0 < out[2].0);
        assert(false);
    }
    assert(out[0].0 < out[1].0);
}

} // verus!
