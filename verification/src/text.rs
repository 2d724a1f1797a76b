//! Character-level text utilities: equality, lexicographic order, substring
//! search. All free text in the crate is specified over its `Seq<char>` view.

use vstd::prelude::*;
use vstd::string::*;

verus! {

/// Lexicographic strict order on character sequences, by code point; this is
/// the order `String`s compare in, since UTF-8 byte order agrees with code
/// point order.
pub open spec fn lex_lt(a: Seq<char>, b: Seq<char>) -> bool
    decreases a.len(),
{
    if b.len() == 0 {
        false
    } else if a.len() == 0 {
        true
    } else if (a[0] as u32) < (b[0] as u32) {
        true
    } else if (b[0] as u32) < (a[0] as u32) {
        false
    } else {
        lex_lt(a.drop_first(), b.drop_first())
    }
}

/// Exactly one of `lex_lt(a, b)`, `lex_lt(b, a)`, `a == b` holds.
pub proof fn lemma_lex_trichotomy(a: Seq<char>, b: Seq<char>)
    ensures
        lex_lt(a, b) || lex_lt(b, a) || a =~= b,
        lex_lt(a, b) ==> !lex_lt(b, a) && a != b,
        lex_lt(b, a) ==> !lex_lt(a, b) && a != b,
    decreases a.len(),
{
    if a.len() == 0 || b.len() == 0 {
    } else if (a[0] as u32) < (b[0] as u32) || (b[0] as u32) < (a[0] as u32) {
        assert(a[0] != b[0]);
    } else {
        assert(a[0] as u32 == b[0] as u32);
        assert(a[0] == b[0]) by {
            vstd::utf8::char_u32_cast(a[0], a[0] as u32);
            vstd::utf8::char_u32_cast(b[0], b[0] as u32);
        }
        lemma_lex_trichotomy(a.drop_first(), b.drop_first());
        if a.drop_first() =~= b.drop_first() {
            assert(a.len() == b.len());
            assert forall|i: int| 0 <= i < a.len() implies a[i] == b[i] by {
                if i > 0 {
                    assert(a[i] == a.drop_first()[i - 1]);
                    assert(b[i] == b.drop_first()[i - 1]);
                }
            }
            assert(a =~= b);
        } else {
            assert(a.drop_first() != b.drop_first());
            if a =~= b {
                assert(a.drop_first() =~= b.drop_first());
            }
        }
    }
}

/// Character equality of two string slices.
pub fn str_eq(a: &str, b: &str) -> (r: bool)
    ensures
        r == (a@ == b@),
{
    let la = a.unicode_len();
    let lb = b.unicode_len();
    if la != lb {
        return false;
    }
    let mut i: usize = 0;
    while i < la
        invariant
            la == a@.len(),
            la == b@.len(),
            i <= la,
            forall|j: int| 0 <= j < i ==> a@[j] == b@[j],
        decreases la - i,
    {
        if a.get_char(i) != b.get_char(i) {
            return false;
        }
        i += 1;
    }
    proof {
        assert(a@ =~= b@);
    }
    true
}

/// Strict lexicographic comparison of two string slices.
pub fn str_lt(a: &str, b: &str) -> (r: bool)
    ensures
        r == lex_lt(a@, b@),
{
    let la = a.unicode_len();
    let lb = b.unicode_len();
    let mut i: usize = 0;
    proof {
        assert(a@.skip(0) =~= a@);
        assert(b@.skip(0) =~= b@);
    }
    loop
        invariant
            la == a@.len(),
            lb == b@.len(),
            i <= la,
            i <= lb,
            forall|j: int| 0 <= j < i ==> a@[j] == b@[j],
            lex_lt(a@, b@) == lex_lt(a@.skip(i as int), b@.skip(i as int)),
        decreases la - i,
    {
        if i >= la || i >= lb {
            proof {
                if i >= la {
                    assert(a@.skip(i as int).len() == 0);
                } else {
                    assert(b@.skip(i as int).len() == 0);
                }
            }
            return la < lb;
        }
        let ca = a.get_char(i);
        let cb = b.get_char(i);
        if ca != cb {
            proof {
                assert(a@.skip(i as int)[0] == a@[i as int]);
                assert(b@.skip(i as int)[0] == b@[i as int]);
            }
            return (ca as u32) < (cb as u32);
        }
        proof {
            assert(a@.skip(i as int).drop_first() =~= a@.skip(i + 1));
            assert(b@.skip(i as int).drop_first() =~= b@.skip(i + 1));
            assert(a@.skip(i as int)[0] == a@[i as int]);
            assert(b@.skip(i as int)[0] == b@[i as int]);
        }
        i += 1;
    }
}

/// A sequence of strings in strictly increasing lexicographic order (hence
/// free of duplicates).
pub open spec fn sorted_strict(v: Seq<String>) -> bool {
    forall|j: int| 0 <= j < v.len() - 1 ==> lex_lt(#[trigger] v[j]@, v[j + 1]@)
}

/// Some element of `v` reads exactly `m`.
pub open spec fn contains_str(v: Seq<String>, m: Seq<char>) -> bool {
    exists|k: int| 0 <= k < v.len() && #[trigger] v[k]@ == m
}

/// Inserts `s` into a strictly sorted vector, keeping it sorted and
/// duplicate-free; the contents afterwards are the contents before plus `s`.
pub fn insert_sorted(v: &mut Vec<String>, s: String)
    requires
        sorted_strict(old(v)@),
    ensures
        sorted_strict(final(v)@),
        forall|m: Seq<char>|
            #[trigger] contains_str(final(v)@, m) <==> (contains_str(old(v)@, m) || m == s@),
{
    let mut j: usize = 0;
    while j < v.len() && str_lt(v[j].as_str(), s.as_str())
        invariant
            v == old(v),
            j <= v@.len(),
            forall|t: int| 0 <= t < j ==> lex_lt(#[trigger] v@[t]@, s@),
        decreases v@.len() - j,
    {
        j += 1;
    }
    if j < v.len() && str_eq(v[j].as_str(), s.as_str()) {
        proof {
            assert(contains_str(v@, s@));
        }
        return ;
    }
    proof {
        if j < v@.len() {
            lemma_lex_trichotomy(v@[j as int]@, s@);
            assert(lex_lt(s@, v@[j as int]@));
        }
    }
    let ghost before = v@;
    v.insert(j, s);
    proof {
        assert(v@.len() == before.len() + 1);
        assert(forall|t: int| 0 <= t < j ==> v@[t] == before[t]);
        assert(v@[j as int]@ == s@);
        assert(forall|t: int| j < t < v@.len() ==> v@[t] == before[t - 1]);
        assert forall|t: int| 0 <= t < v@.len() - 1 implies lex_lt(#[trigger] v@[t]@, v@[t + 1]@)
        by {
            if t + 1 < j {
                assert(lex_lt(before[t]@, before[t + 1]@));
            } else if t + 1 == j {
                assert(lex_lt(v@[t]@, s@));
            } else if t == j {
                assert(v@[t + 1] == before[t]);
                assert(lex_lt(s@, before[j as int]@));
            } else {
                assert(lex_lt(before[t - 1]@, before[t]@));
            }
        }
        assert forall|m: Seq<char>| #[trigger] contains_str(v@, m) implies (contains_str(
            before,
            m,
        ) || m == s@) by {
            let k = choose|k: int| 0 <= k < v@.len() && #[trigger] v@[k]@ == m;
            if k < j {
                assert(before[k]@ == m);
            } else if k > j {
                assert(before[k - 1]@ == m);
            }
        }
        assert forall|m: Seq<char>| contains_str(before, m) implies #[trigger] contains_str(
            v@,
            m,
        ) by {
            let k = choose|k: int| 0 <= k < before.len() && #[trigger] before[k]@ == m;
            if k < j {
                assert(v@[k]@ == m);
            } else {
                assert(v@[k + 1]@ == m);
            }
        }
        assert(contains_str(v@, s@));
    }
}

/// The views of a sequence of strings.
pub open spec fn strs_view(v: Seq<String>) -> Seq<Seq<char>> {
    v.map_values(|s: String| s@)
}

/// The distinct strings of `v`, sorted lexicographically.
pub fn sorted_unique(v: &Vec<String>) -> (r: Vec<String>)
    ensures
        sorted_strict(r@),
        forall|m: Seq<char>| #[trigger] contains_str(r@, m) <==> strs_view(v@).contains(m),
{
    let mut out: Vec<String> = Vec::new();
    let mut i: usize = 0;
    while i < v.len()
        invariant
            i <= v@.len(),
            sorted_strict(out@),
            forall|m: Seq<char>|
                #[trigger] contains_str(out@, m) <==> strs_view(v@).take(i as int).contains(m),
        decreases v@.len() - i,
    {
        let ghost before = out@;
        insert_sorted(&mut out, v[i].clone());
        proof {
            assert(strs_view(v@)[i as int] == v@[i as int]@);
            assert forall|m: Seq<char>| #[trigger] contains_str(out@, m) implies strs_view(
                v@,
            ).take(i + 1).contains(m) by {
                if contains_str(before, m) {
                    let t = choose|t: int|
                        0 <= t < i && #[trigger] strs_view(v@).take(i as int)[t] == m;
                    assert(strs_view(v@).take(i + 1)[t] == m);
                } else {
                    assert(strs_view(v@).take(i + 1)[i as int] == m);
                }
            }
            assert forall|m: Seq<char>| strs_view(v@).take(i + 1).contains(m) implies #[trigger] contains_str(
                out@,
                m,
            ) by {
                let t = choose|t: int| 0 <= t < i + 1 && #[trigger] strs_view(v@).take(i + 1)[t] == m;
                if t < i {
                    assert(strs_view(v@).take(i as int)[t] == m);
                }
            }
        }
        i += 1;
    }
    proof {
        assert(strs_view(v@).take(v@.len() as int) =~= strs_view(v@));
    }
    out
}

/// The whitespace characters that trimming removes.
pub open spec fn is_space(c: char) -> bool {
    c == ' ' || c == '\t' || c == '\n' || c == '\r' || c == '\u{b}' || c == '\u{c}'
}

/// Runtime test for [`is_space`].
pub fn is_space_char(c: char) -> (r: bool)
    ensures
        r == is_space(c),
{
    c == ' ' || c == '\t' || c == '\n' || c == '\r' || c == '\u{b}' || c == '\u{c}'
}

/// Index of the first line break at or after `i`, or the length if none.
pub open spec fn line_end(s: Seq<char>, i: int) -> int
    decreases s.len() - i,
    when 0 <= i <= s.len()
{
    if i >= s.len() {
        i
    } else if s[i] == '\n' {
        i
    } else {
        line_end(s, i + 1)
    }
}

proof fn lemma_line_end_at(s: Seq<char>, i: int, e: int)
    requires
        0 <= i <= e <= s.len(),
        forall|j: int| i <= j < e ==> s[j] != '\n',
        e == s.len() || s[e] == '\n',
    ensures
        line_end(s, i) == e,
    decreases e - i,
{
    if i < e {
        lemma_line_end_at(s, i + 1, e);
    }
}

/// First index at or after `i` holding a non-space character, or the length.
pub open spec fn trim_start(s: Seq<char>, i: int) -> int
    decreases s.len() - i,
    when 0 <= i <= s.len()
{
    if i >= s.len() {
        i
    } else if is_space(s[i]) {
        trim_start(s, i + 1)
    } else {
        i
    }
}

proof fn lemma_trim_start_at(s: Seq<char>, i: int, a: int)
    requires
        0 <= i <= a <= s.len(),
        forall|j: int| i <= j < a ==> is_space(s[j]),
        a == s.len() || !is_space(s[a]),
    ensures
        trim_start(s, i) == a,
    decreases a - i,
{
    if i < a {
        lemma_trim_start_at(s, i + 1, a);
    }
}

/// One past the last non-space character strictly before `i`, or 0.
pub open spec fn trim_end(s: Seq<char>, i: int) -> int
    decreases i,
    when 0 <= i <= s.len()
{
    if i <= 0 {
        0
    } else if is_space(s[i - 1]) {
        trim_end(s, i - 1)
    } else {
        i
    }
}

proof fn lemma_trim_end_at(s: Seq<char>, i: int, b: int)
    requires
        0 <= b <= i <= s.len(),
        forall|j: int| b <= j < i ==> is_space(s[j]),
        b == 0 || !is_space(s[b - 1]),
    ensures
        trim_end(s, i) == b,
    decreases i - b,
{
    if b < i {
        lemma_trim_end_at(s, i - 1, b);
    }
}

/// The first line of `s`: everything before the first `'\n'`, with one
/// trailing `'\r'` removed when the line break was present.
pub open spec fn spec_first_line(s: Seq<char>) -> Seq<char> {
    let e = line_end(s, 0);
    if e < s.len() && e > 0 && s[e - 1] == '\r' {
        s.subrange(0, e - 1)
    } else {
        s.subrange(0, e)
    }
}

/// `s` with leading and trailing whitespace removed.
pub open spec fn spec_trim(s: Seq<char>) -> Seq<char> {
    let a = trim_start(s, 0);
    let b = trim_end(s, s.len() as int);
    if a < b {
        s.subrange(a, b)
    } else {
        Seq::empty()
    }
}

/// Bounds `(a, b)` in `s` of the whitespace-trimmed first line of `s`,
/// so that the trimmed first line is exactly `s@[a..b]`.
pub fn first_line_trim_bounds(s: &str) -> (r: (usize, usize))
    ensures
        r.0 <= r.1 <= s@.len(),
        spec_trim(spec_first_line(s@)) =~= s@.subrange(r.0 as int, r.1 as int),
{
    let n = s.unicode_len();
    let mut e: usize = 0;
    while e < n && s.get_char(e) != '\n'
        invariant
            n == s@.len(),
            e <= n,
            forall|j: int| 0 <= j < e ==> s@[j] != '\n',
        decreases n - e,
    {
        e += 1;
    }
    proof {
        lemma_line_end_at(s@, 0, e as int);
    }
    let hi: usize = if e < n && e > 0 && s.get_char(e - 1) == '\r' {
        e - 1
    } else {
        e
    };
    let ghost fl = spec_first_line(s@);
    proof {
        assert(fl =~= s@.subrange(0, hi as int));
    }
    let mut a: usize = 0;
    while a < hi && is_space_char(s.get_char(a))
        invariant
            n == s@.len(),
            hi <= n,
            a <= hi,
            forall|j: int| 0 <= j < a ==> is_space(s@[j]),
        decreases hi - a,
    {
        a += 1;
    }
    let mut b: usize = hi;
    while b > a && is_space_char(s.get_char(b - 1))
        invariant
            n == s@.len(),
            hi <= n,
            a <= b <= hi,
            forall|j: int| b <= j < hi ==> is_space(s@[j]),
        decreases b,
    {
        b -= 1;
    }
    proof {
        assert(forall|j: int| 0 <= j < fl.len() ==> fl[j] == s@[j]);
        if a == b {
            // the whole first line is whitespace
            assert(forall|j: int| 0 <= j < fl.len() ==> is_space(fl[j]));
            lemma_trim_start_at(fl, 0, fl.len() as int);
            lemma_trim_end_at(fl, fl.len() as int, 0);
            assert(spec_trim(fl) =~= s@.subrange(a as int, b as int));
        } else {
            assert(!is_space(s@[a as int]));
            assert(!is_space(s@[b - 1]));
            lemma_trim_start_at(fl, 0, a as int);
            lemma_trim_end_at(fl, fl.len() as int, b as int);
            assert(spec_trim(fl) =~= s@.subrange(a as int, b as int));
        }
    }
    (a, b)
}

/// `s` cut down to its first `max` characters.
pub open spec fn spec_truncate(s: Seq<char>, max: int) -> Seq<char> {
    if s.len() > max {
        s.subrange(0, max)
    } else {
        s
    }
}

/// Character-boundary-safe truncation to at most `max` characters.
pub fn truncate_chars(s: &str, max: usize) -> (r: String)
    ensures
        r@ == spec_truncate(s@, max as int),
{
    let n = s.unicode_len();
    if n > max {
        s.substring_char(0, max).to_owned()
    } else {
        proof {
            assert(s@ =~= s@.subrange(0, n as int));
        }
        s.substring_char(0, n).to_owned()
    }
}

/// `needle` occurs as a contiguous subsequence of `hay`.
pub open spec fn contains_at(hay: Seq<char>, needle: Seq<char>, i: int) -> bool {
    0 <= i && i + needle.len() <= hay.len() && hay.subrange(i, i + needle.len() as int)
        =~= needle
}

/// Substring occurrence anywhere in `hay`.
pub open spec fn spec_contains(hay: Seq<char>, needle: Seq<char>) -> bool {
    exists|i: int| contains_at(hay, needle, i)
}

/// Substring search: does `needle` occur in `hay`?
pub fn str_contains(hay: &str, needle: &str) -> (r: bool)
    ensures
        r == spec_contains(hay@, needle@),
{
    let lh = hay.unicode_len();
    let ln = needle.unicode_len();
    if ln > lh {
        return false;
    }
    let mut i: usize = 0;
    while i <= lh - ln
        invariant
            lh == hay@.len(),
            ln == needle@.len(),
            ln <= lh,
            i <= lh - ln + 1,
            forall|k: int| 0 <= k < i ==> !contains_at(hay@, needle@, k),
        decreases lh - i,
    {
        let mut j: usize = 0;
        let mut ok = true;
        while j < ln
            invariant
                lh == hay@.len(),
                ln == needle@.len(),
                i + ln <= lh,
                j <= ln,
                ok == (forall|t: int| 0 <= t < j ==> hay@[i + t] == needle@[t]),
            decreases ln - j,
        {
            if hay.get_char(i + j) != needle.get_char(j) {
                ok = false;
                proof {
                    assert(hay@[i + j as int] != needle@[j as int]);
                }
                j = ln;
            } else {
                proof {
                    assert(hay@[i + j as int] == needle@[j as int]);
                }
                j += 1;
            }
        }
        if ok {
            proof {
                assert(hay@.subrange(i as int, i + ln as int) =~= needle@);
                assert(contains_at(hay@, needle@, i as int));
            }
            return true;
        }
        proof {
            if contains_at(hay@, needle@, i as int) {
                assert(forall|t: int|
                    0 <= t < ln ==> #[trigger] hay@.subrange(i as int, i + ln as int)[t]
                        == hay@[i + t]);
            }
        }
        i += 1;
    }
    proof {
        if spec_contains(hay@, needle@) {
            let k = choose|k: int| contains_at(hay@, needle@, k);
            assert(k + ln <= lh);
            assert(k < i);
        }
    }
    false
}

} // verus!
