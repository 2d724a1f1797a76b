//! File-path extraction: scans free text with a fixed battery of
//! extension-anchored patterns and returns the matches sorted and
//! deduplicated. The battery is a heuristic over path-like character runs; it
//! deliberately may both over- and under-match.

use vstd::prelude::*;
use vstd::string::*;

use crate::text::{contains_str, insert_sorted, lex_lt, sorted_strict};

verus! {

/// Characters that may appear in a path-like token.
pub open spec fn is_path_char(c: char) -> bool {
    ('a' as u32) <= (c as u32) && (c as u32) <= ('z' as u32) || ('A' as u32) <= (c as u32) && (
    c as u32) <= ('Z' as u32) || ('0' as u32) <= (c as u32) && (c as u32) <= ('9' as u32) || c
        == '_' || c == '/' || c == '.' || c == '-'
}

/// Runtime test for [`is_path_char`].
pub fn is_path_char_exec(c: char) -> (r: bool)
    ensures
        r == is_path_char(c),
{
    ('a' <= c && c <= 'z') || ('A' <= c && c <= 'Z') || ('0' <= c && c <= '9') || c == '_' || c
        == '/' || c == '.' || c == '-'
}

/// End of the maximal path-character run beginning at `i`.
pub open spec fn run_end_from(s: Seq<char>, i: int) -> int
    decreases s.len() - i,
    when 0 <= i <= s.len()
{
    if i >= s.len() || !is_path_char(s[i]) {
        i
    } else {
        run_end_from(s, i + 1)
    }
}

proof fn lemma_run_end_at(s: Seq<char>, i: int, e: int)
    requires
        0 <= i <= e <= s.len(),
        forall|j: int| i <= j < e ==> is_path_char(s[j]),
        e == s.len() || !is_path_char(s[e]),
    ensures
        run_end_from(s, i) == e,
    decreases e - i,
{
    if i < e {
        lemma_run_end_at(s, i + 1, e);
    }
}

/// `i` begins a maximal run of path characters.
pub open spec fn run_start(s: Seq<char>, i: int) -> bool {
    0 <= i < s.len() && is_path_char(s[i]) && (i == 0 || !is_path_char(s[i - 1]))
}

/// Position `e` in `s` is just past an occurrence of `"." + ext`.
pub open spec fn ends_dot_ext(s: Seq<char>, e: int, ext: Seq<char>) -> bool {
    ext.len() + 1 <= e <= s.len() && s[e - ext.len() - 1] == '.' && s.subrange(
        e - ext.len() as int,
        e,
    ) == ext
}

/// The pattern for extension `ext` matches `s` from `i` (a run start) to `e`:
/// greedy matching takes everything up to the last `"." + ext` occurrence
/// inside the run, provided at least one character precedes the dot.
pub open spec fn is_match(s: Seq<char>, ext: Seq<char>, i: int, e: int) -> bool {
    run_start(s, i) && i + ext.len() + 2 <= e <= run_end_from(s, i) && ends_dot_ext(s, e, ext)
        && (forall|e2: int| e < e2 <= run_end_from(s, i) ==> !ends_dot_ext(s, e2, ext))
}

/// Number of recognized extensions.
pub open spec fn ext_count() -> int {
    14
}

/// The battery of recognized file extensions.
pub open spec fn ext_at(k: int) -> Seq<char> {
    if k == 0 {
        "rs"@
    } else if k == 1 {
        "js"@
    } else if k == 2 {
        "ts"@
    } else if k == 3 {
        "py"@
    } else if k == 4 {
        "go"@
    } else if k == 5 {
        "java"@
    } else if k == 6 {
        "cpp"@
    } else if k == 7 {
        "c"@
    } else if k == 8 {
        "h"@
    } else if k == 9 {
        "json"@
    } else if k == 10 {
        "yaml"@
    } else if k == 11 {
        "yml"@
    } else if k == 12 {
        "toml"@
    } else {
        "md"@
    }
}

fn ext_str(k: usize) -> (r: &'static str)
    requires
        k < 14,
    ensures
        r@ == ext_at(k as int),
{
    if k == 0 {
        "rs"
    } else if k == 1 {
        "js"
    } else if k == 2 {
        "ts"
    } else if k == 3 {
        "py"
    } else if k == 4 {
        "go"
    } else if k == 5 {
        "java"
    } else if k == 6 {
        "cpp"
    } else if k == 7 {
        "c"
    } else if k == 8 {
        "h"
    } else if k == 9 {
        "json"
    } else if k == 10 {
        "yaml"
    } else if k == 11 {
        "yml"
    } else if k == 12 {
        "toml"
    } else {
        "md"
    }
}

/// `m` is one of the file-path matches found anywhere in `s`.
pub open spec fn match_in(s: Seq<char>, m: Seq<char>) -> bool {
    exists|k: int, i: int, e: int|
        0 <= k < ext_count() && #[trigger] is_match(s, ext_at(k), i, e) && m == s.subrange(i, e)
}

/// Does `"." + ext` end exactly at position `e` of `raw`?
fn check_dot_ext(raw: &str, e: usize, ext: &str) -> (r: bool)
    requires
        e <= raw@.len(),
    ensures
        r == ends_dot_ext(raw@, e as int, ext@),
{
    let el = ext.unicode_len();
    if e <= el {
        return false;
    }
    if raw.get_char(e - el - 1) != '.' {
        return false;
    }
    let mut j: usize = 0;
    while j < el
        invariant
            el == ext@.len(),
            el + 1 <= e <= raw@.len(),
            j <= el,
            forall|t: int| 0 <= t < j ==> raw@[e - el + t] == ext@[t],
        decreases el - j,
    {
        if raw.get_char(e - el + j) != ext.get_char(j) {
            proof {
                if raw@.subrange(e - el as int, e as int) == ext@ {
                    assert(raw@.subrange(e - el as int, e as int)[j as int] == raw@[e - el
                        + j as int]);
                }
            }
            return false;
        }
        j += 1;
    }
    proof {
        assert(raw@.subrange(e - el as int, e as int) =~= ext@);
    }
    true
}

/// Finds the end of the match for `ext` in the run `[i, re)`, if any: the
/// last `"." + ext` occurrence in the run, with at least one character of the
/// run before the dot.
fn run_ext_match_end(raw: &str, i: usize, re: usize, ext: &str) -> (r: Option<usize>)
    requires
        i < re <= raw@.len(),
        run_start(raw@, i as int),
        re == run_end_from(raw@, i as int),
    ensures
        match r {
            Some(e) => is_match(raw@, ext@, i as int, e as int),
            None => forall|e: int| !is_match(raw@, ext@, i as int, e),
        },
{
    let el = ext.unicode_len();
    let mut e: usize = re;
    loop
        invariant
            el == ext@.len(),
            i < re <= raw@.len(),
            i <= e <= re,
            run_start(raw@, i as int),
            re == run_end_from(raw@, i as int),
            forall|e2: int| e < e2 <= re ==> !ends_dot_ext(raw@, e2, ext@),
        decreases e,
    {
        if e - i < 2 || (e - i) - 2 < el {
            proof {
                assert forall|e2: int| !is_match(raw@, ext@, i as int, e2) by {
                    if is_match(raw@, ext@, i as int, e2) {
                        assert(i + el + 2 <= e2 <= re);
                        assert(!ends_dot_ext(raw@, e2, ext@));
                    }
                }
            }
            return None;
        }
        if check_dot_ext(raw, e, ext) {
            return Some(e);
        }
        e -= 1;
    }
}

/// Extracts every file-path match from `raw`, sorted lexicographically and
/// deduplicated.
pub fn extract_files(raw: &str) -> (r: Vec<String>)
    ensures
        sorted_strict(r@),
        forall|m: Seq<char>| #[trigger] contains_str(r@, m) ==> match_in(raw@, m),
        forall|m: Seq<char>| #[trigger] match_in(raw@, m) ==> contains_str(r@, m),
{
    let n = raw.unicode_len();
    let mut res: Vec<String> = Vec::new();
    let mut i: usize = 0;
    while i < n
        invariant
            n == raw@.len(),
            i <= n,
            sorted_strict(res@),
            i == 0 || i >= n || !is_path_char(raw@[i - 1]) || !is_path_char(raw@[i as int]),
            forall|m: Seq<char>| #[trigger] contains_str(res@, m) ==> match_in(raw@, m),
            forall|k: int, ii: int, e: int|
                0 <= k < ext_count() && ii < i && #[trigger] is_match(raw@, ext_at(k), ii, e)
                    ==> contains_str(res@, raw@.subrange(ii, e)),
        decreases n - i,
    {
        let c = raw.get_char(i);
        if is_path_char_exec(c) {
            proof {
                assert(run_start(raw@, i as int));
            }
            let mut re: usize = i + 1;
            while re < n && is_path_char_exec(raw.get_char(re))
                invariant
                    n == raw@.len(),
                    i < re <= n,
                    forall|j: int| i <= j < re ==> is_path_char(raw@[j]),
                decreases n - re,
            {
                re += 1;
            }
            proof {
                lemma_run_end_at(raw@, i as int, re as int);
            }
            let mut k: usize = 0;
            while k < 14
                invariant
                    n == raw@.len(),
                    i < re <= n,
                    k <= 14,
                    run_start(raw@, i as int),
                    re == run_end_from(raw@, i as int),
                    sorted_strict(res@),
                    forall|m: Seq<char>| #[trigger] contains_str(res@, m) ==> match_in(raw@, m),
                    forall|k2: int, ii: int, e: int|
                        0 <= k2 < ext_count() && ii < i && #[trigger] is_match(
                            raw@,
                            ext_at(k2),
                            ii,
                            e,
                        ) ==> contains_str(res@, raw@.subrange(ii, e)),
                    forall|k2: int, e: int|
                        0 <= k2 < k && #[trigger] is_match(raw@, ext_at(k2), i as int, e)
                            ==> contains_str(res@, raw@.subrange(i as int, e)),
                decreases 14 - k,
            {
                let ext = ext_str(k);
                match run_ext_match_end(raw, i, re, ext) {
                    Some(e) => {
                        let m = raw.substring_char(i, e).to_owned();
                        insert_sorted(&mut res, m);
                        proof {
                            assert(is_match(raw@, ext_at(k as int), i as int, e as int));
                            assert(match_in(raw@, raw@.subrange(i as int, e as int)));
                            // a pattern has at most one match per run
                            assert forall|e2: int|
                                #[trigger] is_match(raw@, ext_at(k as int), i as int, e2) implies e2
                                == e as int by {
                                if e2 < e as int {
                                    assert(ends_dot_ext(raw@, e as int, ext_at(k as int)));
                                } else if e2 > e as int {
                                    assert(ends_dot_ext(raw@, e2, ext_at(k as int)));
                                }
                            }
                        }
                    },
                    None => {
                    },
                }
                k += 1;
            }
            proof {
                // no other run starts inside this run
                assert forall|k2: int, ii: int, e: int|
                    0 <= k2 < ext_count() && ii < re && #[trigger] is_match(
                        raw@,
                        ext_at(k2),
                        ii,
                        e,
                    ) implies contains_str(res@, raw@.subrange(ii, e)) by {
                    if i < ii {
                        assert(run_start(raw@, ii));
                        assert(is_path_char(raw@[ii - 1]));
                    }
                }
            }
            i = re;
        } else {
            i += 1;
        }
    }
    proof {
        assert forall|m: Seq<char>| #[trigger] match_in(raw@, m) implies contains_str(res@, m) by {
            let (k, ii, e) = choose|k: int, ii: int, e: int|
                0 <= k < ext_count() && #[trigger] is_match(raw@, ext_at(k), ii, e) && m
                    == raw@.subrange(ii, e);
            assert(ii < n);
        }
    }
    res
}

} // verus!
