use vstd::prelude::*;
use crate::config::Config;
use crate::text::{spec_contains, fold_if, str_to_chars, fold_chars, find_first,
    lemma_fold_preserves_contains};

verus! {

/// One regular file met during the traversal: its full path and its bare
/// file name, both as plain text.
#[derive(Debug)]
pub struct FileEntry {
    pub path: String,
    pub name: String,
}

/// True when a file named `name` passes the filename filter: with no pattern
/// every name passes; with a pattern, the name must contain it, both sides
/// case-folded when `ignore_case` asks for it.
pub open spec fn spec_name_matches(
    name: Seq<char>,
    pattern: Option<Seq<char>>,
    ignore_case: bool,
) -> bool {
    match pattern {
        None => true,
        Some(p) => spec_contains(fold_if(name, ignore_case), fold_if(p, ignore_case)),
    }
}

/// The entries of `entries` whose name passes the filename filter, in order.
pub open spec fn candidates(
    entries: Seq<FileEntry>,
    pattern: Option<Seq<char>>,
    ignore_case: bool,
) -> Seq<FileEntry> {
    entries.filter(
        (|e: FileEntry| spec_name_matches(e.name@, pattern, ignore_case)),
    )
}

/// Whether `name` passes the filename filter.
pub fn filename_matches(name: &str, pattern: &Option<String>, ignore_case: bool) -> (r: bool)
    ensures
        r == spec_name_matches(name@, pattern.deep_view(), ignore_case),
{
    match pattern {
        None => true,
        Some(p) => {
            let name_chars = str_to_chars(name);
            let pat_chars = str_to_chars(p.as_str());
            let hay = if ignore_case {
                fold_chars(&name_chars)
            } else {
                name_chars
            };
            let pat = if ignore_case {
                fold_chars(&pat_chars)
            } else {
                pat_chars
            };
            let found = find_first(&hay, &pat);
            found.is_some()
        },
    }
}

/// Keeps exactly the entries whose file name passes the request's filename
/// filter, in their input order. The directory traversal that produces
/// `entries` lists every regular file reachable under the request's root.
pub fn find_files_by_name(config: &Config, entries: Vec<FileEntry>) -> (r: Vec<FileEntry>)
    ensures
        r@ == candidates(entries@, config.filename.deep_view(), config.ignore_filename_case),
{
    let ghost orig = entries@;
    let ghost pat = config.filename.deep_view();
    let ghost ic = config.ignore_filename_case;
    let mut rest = entries;
    let mut out: Vec<FileEntry> = Vec::new();
    while rest.len() > 0
        invariant
            rest@.len() <= orig.len(),
            orig.skip(orig.len() - rest@.len()) == rest@,
            pat == config.filename.deep_view(),
            ic == config.ignore_filename_case,
            out@ == candidates(orig.take(orig.len() - rest@.len()), pat, ic),
        decreases rest@.len(),
    {
        let ghost i = orig.len() - rest@.len();
        let e = rest.remove(0);
        proof {
            assert(e == orig.skip(i)[0]);
            assert(e == orig[i]);
            assert(orig.skip(i).remove(0) =~= orig.skip(i + 1));
            assert(orig.take(i + 1) =~= orig.take(i).push(orig[i]));
            orig.take(i).lemma_filter_push(
                e,
                (|en: FileEntry| spec_name_matches(en.name@, pat, ic)),
            );
        }
        if filename_matches(e.name.as_str(), &config.filename, config.ignore_filename_case) {
            out.push(e);
        }
    }
    proof {
        assert(orig.take(orig.len() as int) =~= orig);
    }
    out
}

/// Turning the ignore-case option on never loses a match: a name that passes
/// the case-sensitive filter also passes the case-folded one.
pub proof fn lemma_ignore_case_superset(name: Seq<char>, pattern: Option<Seq<char>>)
    requires
        spec_name_matches(name, pattern, false),
    ensures
        spec_name_matches(name, pattern, true),
{
    match pattern {
        None => {},
        Some(p) => {
            lemma_fold_preserves_contains(name, p);
        },
    }
}

/// At the list level: every candidate of the case-sensitive run is also a
/// candidate of the case-folded run, so the ignore-case option yields a
/// superset of candidates.
pub proof fn lemma_ignore_case_superset_candidates(
    entries: Seq<FileEntry>,
    pattern: Option<Seq<char>>,
    e: FileEntry,
)
    requires
        candidates(entries, pattern, false).contains(e),
    ensures
        candidates(entries, pattern, true).contains(e),
{
    let p_sens = (|en: FileEntry| spec_name_matches(en.name@, pattern, false));
    let p_fold = (|en: FileEntry| spec_name_matches(en.name@, pattern, true));
    let sens = candidates(entries, pattern, false);
    let i = choose|i: int| 0 <= i < sens.len() && sens[i] == e;
    entries.lemma_filter_pred(p_sens, i);
    entries.lemma_filter_contains_rev(p_sens, e);
    let j = choose|j: int| 0 <= j < entries.len() && entries[j] == e;
    lemma_ignore_case_superset(e.name@, pattern);
    entries.lemma_filter_contains(p_fold, j);
}

} // verus!
