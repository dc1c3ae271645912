use vstd::prelude::*;
use vstd::string::StringExecFns;
use crate::digits::{dec_seq, push_decimal};
use crate::scanner::{LineMatch, SearchResult};

verus! {

/// The printed line for one match: two spaces of indent, the line number,
/// a colon, the column number, a space, then the raw line text.
pub open spec fn match_line_text(m: LineMatch) -> Seq<char> {
    seq![' ', ' '] + dec_seq(m.line as nat) + seq![':'] + dec_seq(m.column as nat) + seq![' ']
        + m.content@
}

/// The block of lines printed for one search result: the file path alone
/// for a bare listing entry, the file path followed by one line per match
/// for a content-search result.
pub open spec fn result_lines(r: SearchResult) -> Seq<Seq<char>> {
    match r {
        SearchResult::FileOnly { path } => seq![path@],
        SearchResult::FileWithMatches { path, matches } => seq![path@] + matches@.map_values(
            |m: LineMatch| match_line_text(m),
        ),
    }
}

/// Renders one match as its printed line.
pub fn format_match(m: &LineMatch) -> (out: String)
    ensures
        out@ == match_line_text(*m),
{
    let mut out = String::new();
    out.push(' ');
    out.push(' ');
    push_decimal(&mut out, m.line);
    out.push(':');
    push_decimal(&mut out, m.column);
    out.push(' ');
    out.append(m.content.as_str());
    assert(out@ =~= match_line_text(*m));
    out
}

/// Renders one search result as the block of lines the reporter prints for
/// it, the file path first; a whole block per file is what keeps one file's
/// matches from interleaving with another's.
pub fn format_result(r: &SearchResult) -> (out: Vec<String>)
    ensures
        out.deep_view() == result_lines(*r),
{
    let mut out: Vec<String> = Vec::new();
    match r {
        SearchResult::FileOnly { path } => {
            out.push(path.clone());
            assert(out.deep_view() =~= result_lines(*r));
        },
        SearchResult::FileWithMatches { path, matches } => {
            out.push(path.clone());
            let n: usize = matches.len();
            let mut i: usize = 0;
            while i < n
                invariant
                    n == matches@.len(),
                    i <= n,
                    out@.len() == i + 1,
                    out@[0]@ == path@,
                    forall|j: int| 0 <= j < i ==> (#[trigger] out@[j + 1])@ == match_line_text(
                        matches@[j],
                    ),
                decreases n - i,
            {
                let s = format_match(&matches[i]);
                out.push(s);
                i = i + 1;
            }
            proof {
                let want = result_lines(*r);
                assert(want.len() == n + 1);
                assert forall|j: int| 0 <= j < out.deep_view().len() implies out.deep_view()[j]
                    == want[j] by {
                    if j == 0 {
                        assert(out@[0]@ == path@);
                    } else {
                        assert(out@[(j - 1) + 1]@ == match_line_text(matches@[j - 1]));
                    }
                }
                assert(out.deep_view() =~= want);
            }
        },
    }
    out
}

} // verus!
