use vstd::prelude::*;
use vstd::string::StrSliceExecFns;

verus! {

/// True when `pat` occurs in `hay` starting at position `i`.
pub open spec fn matches_at(hay: Seq<char>, pat: Seq<char>, i: int) -> bool {
    &&& 0 <= i
    &&& i + pat.len() <= hay.len()
    &&& forall|j: int| 0 <= j < pat.len() ==> hay[i + j] == pat[j]
}

/// True when `pat` occurs somewhere in `hay` as a contiguous run of characters.
pub open spec fn spec_contains(hay: Seq<char>, pat: Seq<char>) -> bool {
    exists|i: int| matches_at(hay, pat, i)
}

/// True when `i` is the position of the first occurrence of `pat` in `hay`.
pub open spec fn is_first_occurrence(hay: Seq<char>, pat: Seq<char>, i: int) -> bool {
    &&& matches_at(hay, pat, i)
    &&& forall|j: int| 0 <= j < i ==> !matches_at(hay, pat, j)
}

/// The position of the first occurrence of `pat` in `hay`; meaningful only
/// when `spec_contains(hay, pat)` holds.
pub open spec fn first_occurrence(hay: Seq<char>, pat: Seq<char>) -> int {
    choose|i: int| is_first_occurrence(hay, pat, i)
}

/// Two first occurrences are the same occurrence.
pub proof fn lemma_first_occurrence_unique(hay: Seq<char>, pat: Seq<char>, i1: int, i2: int)
    requires
        is_first_occurrence(hay, pat, i1),
        is_first_occurrence(hay, pat, i2),
    ensures
        i1 == i2,
{
    if i1 < i2 {
        assert(!matches_at(hay, pat, i1));
    } else if i2 < i1 {
        assert(!matches_at(hay, pat, i2));
    }
}

/// A witness of `is_first_occurrence` pins down the value of `first_occurrence`.
pub proof fn lemma_first_occurrence_is(hay: Seq<char>, pat: Seq<char>, i: int)
    requires
        is_first_occurrence(hay, pat, i),
    ensures
        first_occurrence(hay, pat) == i,
{
    let w = choose|k: int| is_first_occurrence(hay, pat, k);
    assert(is_first_occurrence(hay, pat, w));
    lemma_first_occurrence_unique(hay, pat, w, i);
}

/// The single-character case fold used by the case-insensitive options:
/// ASCII upper-case letters map to their lower-case forms, every other
/// character is left as it is.
pub open spec fn fold_char(c: char) -> char {
    match c {
        'A' => 'a',
        'B' => 'b',
        'C' => 'c',
        'D' => 'd',
        'E' => 'e',
        'F' => 'f',
        'G' => 'g',
        'H' => 'h',
        'I' => 'i',
        'J' => 'j',
        'K' => 'k',
        'L' => 'l',
        'M' => 'm',
        'N' => 'n',
        'O' => 'o',
        'P' => 'p',
        'Q' => 'q',
        'R' => 'r',
        'S' => 's',
        'T' => 't',
        'U' => 'u',
        'V' => 'v',
        'W' => 'w',
        'X' => 'x',
        'Y' => 'y',
        'Z' => 'z',
        _ => c,
    }
}

/// Character-wise case fold of a whole string.
pub open spec fn fold_seq(s: Seq<char>) -> Seq<char> {
    s.map_values(|c: char| fold_char(c))
}

/// `fold_seq` when `ignore_case` asks for it, the string unchanged otherwise.
pub open spec fn fold_if(s: Seq<char>, ignore_case: bool) -> Seq<char> {
    if ignore_case {
        fold_seq(s)
    } else {
        s
    }
}

/// Case folding keeps every occurrence: a case-sensitive match is still a
/// match after both sides are folded.
pub proof fn lemma_fold_preserves_contains(hay: Seq<char>, pat: Seq<char>)
    requires
        spec_contains(hay, pat),
    ensures
        spec_contains(fold_seq(hay), fold_seq(pat)),
{
    let i = choose|i: int| matches_at(hay, pat, i);
    assert(matches_at(fold_seq(hay), fold_seq(pat), i)) by {
        assert forall|j: int| 0 <= j < fold_seq(pat).len() implies fold_seq(hay)[i + j]
            == fold_seq(pat)[j] by {
            assert(hay[i + j] == pat[j]);
        }
    }
}

/// The characters of `s`, in order.
pub fn str_to_chars(s: &str) -> (r: Vec<char>)
    ensures
        r@ == s@,
{
    let n: usize = s.unicode_len();
    let mut r: Vec<char> = Vec::new();
    let mut i: usize = 0;
    while i < n
        invariant
            n == s@.len(),
            i <= n,
            r@.len() == i,
            forall|k: int| 0 <= k < i ==> r@[k] == s@[k],
        decreases n - i,
    {
        let c = s.get_char(i);
        r.push(c);
        i = i + 1;
    }
    assert(r@ =~= s@);
    r
}

/// Case fold of one character, as `fold_char` describes it.
pub fn fold_char_exec(c: char) -> (r: char)
    ensures
        r == fold_char(c),
{
    match c {
        'A' => 'a',
        'B' => 'b',
        'C' => 'c',
        'D' => 'd',
        'E' => 'e',
        'F' => 'f',
        'G' => 'g',
        'H' => 'h',
        'I' => 'i',
        'J' => 'j',
        'K' => 'k',
        'L' => 'l',
        'M' => 'm',
        'N' => 'n',
        'O' => 'o',
        'P' => 'p',
        'Q' => 'q',
        'R' => 'r',
        'S' => 's',
        'T' => 't',
        'U' => 'u',
        'V' => 'v',
        'W' => 'w',
        'X' => 'x',
        'Y' => 'y',
        'Z' => 'z',
        _ => c,
    }
}

/// Case fold of a whole character vector.
pub fn fold_chars(v: &Vec<char>) -> (r: Vec<char>)
    ensures
        r@ == fold_seq(v@),
{
    let n: usize = v.len();
    let mut r: Vec<char> = Vec::new();
    let mut i: usize = 0;
    while i < n
        invariant
            n == v@.len(),
            i <= n,
            r@.len() == i,
            forall|k: int| 0 <= k < i ==> r@[k] == fold_char(v@[k]),
        decreases n - i,
    {
        let c = fold_char_exec(v[i]);
        r.push(c);
        i = i + 1;
    }
    assert(r@ =~= fold_seq(v@));
    r
}

/// True when `pat` occurs in `hay` at position `i`.
fn matches_at_exec(hay: &Vec<char>, pat: &Vec<char>, i: usize) -> (r: bool)
    requires
        i + pat@.len() <= hay@.len(),
    ensures
        r == matches_at(hay@, pat@, i as int),
{
    let n: usize = hay.len();
    let m: usize = pat.len();
    let mut j: usize = 0;
    while j < m
        invariant
            n == hay@.len(),
            m == pat@.len(),
            j <= m,
            i + m <= n,
            forall|k: int| 0 <= k < j ==> hay@[i + k] == pat@[k],
        decreases m - j,
    {
        if hay[i + j] != pat[j] {
            assert(!matches_at(hay@, pat@, i as int));
            return false;
        }
        j = j + 1;
    }
    true
}

/// The position of the first occurrence of `pat` in `hay`, or `None` when
/// `pat` does not occur in `hay`.
pub fn find_first(hay: &Vec<char>, pat: &Vec<char>) -> (r: Option<usize>)
    ensures
        match r {
            Some(i) => is_first_occurrence(hay@, pat@, i as int),
            None => !spec_contains(hay@, pat@),
        },
{
    let n: usize = hay.len();
    let m: usize = pat.len();
    if m > n {
        assert forall|i: int| !matches_at(hay@, pat@, i) by {}
        return None;
    }
    let mut i: usize = 0;
    while i <= n - m
        invariant
            n == hay@.len(),
            m == pat@.len(),
            m <= n,
            i <= n - m + 1,
            forall|k: int| 0 <= k < i ==> !matches_at(hay@, pat@, k),
        decreases n - m + 1 - i,
    {
        if matches_at_exec(hay, pat, i) {
            return Some(i);
        }
        i = i + 1;
    }
    assert forall|k: int| !matches_at(hay@, pat@, k) by {
        if 0 <= k < i {
        } else if k >= i {
            assert(k + pat@.len() > hay@.len());
        }
    }
    None
}

} // verus!
