//! Verified helpers over `&str` and `String`: prefix and suffix tests,
//! substring search, pattern replacement, trimming and joining.
//!
//! All executable functions are specified against `Seq<char>` views.

use vstd::prelude::*;
use vstd::string::StrSliceExecFns;
use vstd::string::StringExecFns;

verus! {

/// `s` begins with `pre`.
pub open spec fn starts_with(s: Seq<char>, pre: Seq<char>) -> bool {
    pre.len() <= s.len() && s.subrange(0, pre.len() as int) == pre
}

/// `s` ends with `suf`.
pub open spec fn ends_with(s: Seq<char>, suf: Seq<char>) -> bool {
    suf.len() <= s.len() && s.subrange(s.len() - suf.len(), s.len() as int) == suf
}

/// `pat` occurs in `s` at position `i`.
pub open spec fn contains_at(s: Seq<char>, pat: Seq<char>, i: int) -> bool {
    0 <= i && i + pat.len() <= s.len() && s.subrange(i, i + pat.len()) == pat
}

/// `pat` occurs somewhere in `s`.
pub open spec fn has_sub(s: Seq<char>, pat: Seq<char>) -> bool {
    exists|i: int| contains_at(s, pat, i)
}

/// The result of replacing every occurrence of `pat` in `s` by `rep`,
/// scanning left to right and never re-examining replaced text.  This is
/// the behaviour of `str::replace`.
pub open spec fn replace_all(s: Seq<char>, pat: Seq<char>, rep: Seq<char>) -> Seq<char>
    decreases s.len(),
{
    if pat.len() == 0 || s.len() < pat.len() {
        s
    } else if s.subrange(0, pat.len() as int) == pat {
        rep + replace_all(s.skip(pat.len() as int), pat, rep)
    } else {
        seq![s[0]] + replace_all(s.skip(1), pat, rep)
    }
}

/// Whether `s` equals `t`.
pub fn str_eq(s: &str, t: &str) -> (r: bool)
    ensures
        r == (s@ == t@),
{
    let n = s.unicode_len();
    let m = t.unicode_len();
    if n != m {
        return false;
    }
    let mut i: usize = 0;
    while i < n
        invariant
            n == s@.len(),
            n == t@.len(),
            i <= n,
            forall|j: int| 0 <= j < i ==> s@[j] == t@[j],
        decreases n - i,
    {
        if s.get_char(i) != t.get_char(i) {
            return false;
        }
        i += 1;
    }
    proof {
        assert(s@ =~= t@);
    }
    true
}

/// Whether `s` begins with `pre`.
pub fn str_starts_with(s: &str, pre: &str) -> (r: bool)
    ensures
        r == starts_with(s@, pre@),
{
    let n = pre.unicode_len();
    let m = s.unicode_len();
    if n > m {
        return false;
    }
    let mut i: usize = 0;
    while i < n
        invariant
            n == pre@.len(),
            m == s@.len(),
            n <= m,
            i <= n,
            forall|j: int| 0 <= j < i ==> s@[j] == pre@[j],
        decreases n - i,
    {
        if s.get_char(i) != pre.get_char(i) {
            proof {
                assert(s@.subrange(0, n as int)[i as int] == s@[i as int]);
            }
            return false;
        }
        i += 1;
    }
    proof {
        assert(s@.subrange(0, n as int) =~= pre@);
    }
    true
}

/// Whether `s` ends with `suf`.
pub fn str_ends_with(s: &str, suf: &str) -> (r: bool)
    ensures
        r == ends_with(s@, suf@),
{
    let n = suf.unicode_len();
    let m = s.unicode_len();
    if n > m {
        return false;
    }
    let base = m - n;
    let mut i: usize = 0;
    while i < n
        invariant
            n == suf@.len(),
            m == s@.len(),
            n <= m,
            base == m - n,
            i <= n,
            forall|j: int| 0 <= j < i ==> s@[base + j] == suf@[j],
        decreases n - i,
    {
        if s.get_char(base + i) != suf.get_char(i) {
            proof {
                assert(s@.subrange(base as int, m as int)[i as int] == s@[base + i]);
            }
            return false;
        }
        i += 1;
    }
    proof {
        assert(s@.subrange(base as int, m as int) =~= suf@);
    }
    true
}

/// Whether `pat` occurs in `s` at position `i`.
pub fn match_at(s: &str, pat: &str, i: usize) -> (r: bool)
    requires
        i + pat@.len() <= s@.len(),
    ensures
        r == contains_at(s@, pat@, i as int),
{
    let n = pat.unicode_len();
    let m = s.unicode_len();
    let mut k: usize = 0;
    while k < n
        invariant
            n == pat@.len(),
            m == s@.len(),
            i + n <= m,
            k <= n,
            forall|j: int| 0 <= j < k ==> s@[i + j] == pat@[j],
        decreases n - k,
    {
        if s.get_char(i + k) != pat.get_char(k) {
            proof {
                assert(s@.subrange(i as int, i + n as int)[k as int] == s@[i + k]);
            }
            return false;
        }
        k += 1;
    }
    proof {
        assert(s@.subrange(i as int, i + n as int) =~= pat@);
    }
    true
}

/// Replace every occurrence of `pat` in `s` by `rep`.
pub fn replace_all_str(s: &str, pat: &str, rep: &str) -> (r: String)
    requires
        pat@.len() >= 1,
    ensures
        r@ == replace_all(s@, pat@, rep@),
{
    let m = s.unicode_len();
    let n = pat.unicode_len();
    let mut out = String::new();
    let mut p: usize = 0;
    proof {
        assert(s@.skip(0) =~= s@);
    }
    while p < m
        invariant
            m == s@.len(),
            n == pat@.len(),
            n >= 1,
            p <= m,
            out@ + replace_all(s@.skip(p as int), pat@, rep@) == replace_all(s@, pat@, rep@),
        decreases m - p,
    {
        let ghost tail = s@.skip(p as int);
        if n <= m - p && match_at(s, pat, p) {
            out.append(rep);
            proof {
                assert(tail.subrange(0, n as int) =~= s@.subrange(p as int, p + n as int));
                assert(tail.skip(n as int) =~= s@.skip(p + n as int));
            }
            p = p + n;
        } else {
            let piece = s.substring_char(p, p + 1);
            out.append(piece);
            proof {
                if tail.len() < n {
                    // No further occurrence fits; both sides append the
                    // remaining characters one at a time.
                    assert(replace_all(tail, pat@, rep@) == tail);
                    assert(s@.skip(p + 1) =~= tail.skip(1));
                    assert(replace_all(s@.skip(p + 1), pat@, rep@) == s@.skip(p + 1));
                    assert(piece@ + s@.skip(p + 1) =~= tail);
                } else {
                    assert(tail.subrange(0, n as int) =~= s@.subrange(p as int, p + n as int));
                    assert(tail.subrange(0, n as int) != pat@);
                    assert(tail[0] == s@[p as int]);
                    assert(piece@ =~= seq![tail[0]]);
                    assert(s@.skip(p + 1) =~= tail.skip(1));
                }
            }
            p = p + 1;
        }
    }
    proof {
        assert(s@.skip(m as int) =~= Seq::<char>::empty());
        assert(replace_all(s@.skip(m as int), pat@, rep@) =~= Seq::<char>::empty());
        assert(out@ =~= out@ + Seq::<char>::empty());
    }
    out
}

/// If `pat` does not occur in `s`, replacement leaves `s` unchanged.
pub proof fn lemma_replace_all_absent(s: Seq<char>, pat: Seq<char>, rep: Seq<char>)
    requires
        !has_sub(s, pat),
        pat.len() >= 1,
    ensures
        replace_all(s, pat, rep) == s,
    decreases s.len(),
{
    if s.len() < pat.len() {
    } else if s.subrange(0, pat.len() as int) == pat {
        assert(contains_at(s, pat, 0));
    } else {
        assert forall|i: int| !contains_at(s.skip(1), pat, i) by {
            if contains_at(s.skip(1), pat, i) {
                assert(s.subrange(i + 1, i + 1 + pat.len()) =~= s.skip(1).subrange(
                    i,
                    i + pat.len(),
                ));
                assert(contains_at(s, pat, i + 1));
            }
        }
        lemma_replace_all_absent(s.skip(1), pat, rep);
        assert(seq![s[0]] + s.skip(1) =~= s);
    }
}

/// After replacement, no occurrence of `pat` remains, provided the first
/// character of `pat` does not occur in `rep` and the first character of
/// `rep` does not occur in `pat`.
///
/// The second conclusion is the auxiliary fact carried through the
/// induction: a proper suffix of `pat` can be a prefix of the result only
/// where it is a prefix of the input.
pub proof fn lemma_replace_all_removes(s: Seq<char>, pat: Seq<char>, rep: Seq<char>)
    requires
        pat.len() >= 1,
        rep.len() >= 1,
        forall|k: int| 0 <= k < rep.len() ==> rep[k] != pat[0],
        forall|k: int| 0 <= k < pat.len() ==> pat[k] != rep[0],
    ensures
        !has_sub(replace_all(s, pat, rep), pat),
        forall|d: int|
            0 <= d < pat.len() && starts_with(replace_all(s, pat, rep), #[trigger] pat.skip(d))
                ==> starts_with(s, pat.skip(d)),
    decreases s.len(),
{
    let r = replace_all(s, pat, rep);
    if s.len() < pat.len() {
        assert forall|i: int| !contains_at(r, pat, i) by {}
        assert forall|d: int|
            0 <= d < pat.len() && starts_with(r, #[trigger] pat.skip(d)) implies starts_with(
            s,
            pat.skip(d),
        ) by {}
    } else if s.subrange(0, pat.len() as int) == pat {
        let tail = s.skip(pat.len() as int);
        lemma_replace_all_removes(tail, pat, rep);
        let rt = replace_all(tail, pat, rep);
        assert(r == rep + rt);
        assert forall|i: int| !contains_at(r, pat, i) by {
            if contains_at(r, pat, i) {
                if i < rep.len() {
                    assert(r.subrange(i, i + pat.len())[0] == r[i]);
                    assert(r[i] == rep[i]);
                    assert(pat[0] == rep[i]);
                } else {
                    assert(r.subrange(i, i + pat.len()) =~= rt.subrange(
                        i - rep.len(),
                        i - rep.len() + pat.len(),
                    ));
                    assert(contains_at(rt, pat, i - rep.len()));
                }
            }
        }
        assert forall|d: int|
            0 <= d < pat.len() && starts_with(r, #[trigger] pat.skip(d)) implies starts_with(
            s,
            pat.skip(d),
        ) by {
            assert(pat.skip(d)[0] == pat[d]);
            assert(r.subrange(0, pat.len() - d)[0] == r[0]);
            assert(r[0] == rep[0]);
        }
    } else {
        let tail = s.skip(1);
        lemma_replace_all_removes(tail, pat, rep);
        let rt = replace_all(tail, pat, rep);
        assert(r == seq![s[0]] + rt);
        assert forall|d: int|
            0 <= d < pat.len() && starts_with(r, #[trigger] pat.skip(d)) implies starts_with(
            s,
            pat.skip(d),
        ) by {
            let sd = pat.skip(d);
            assert(r.subrange(0, sd.len() as int)[0] == r[0]);
            assert(sd[0] == pat[d]);
            assert(pat[d] == s[0]);
            if d + 1 < pat.len() {
                let sd1 = pat.skip(d + 1);
                assert forall|j: int| 0 <= j < sd1.len() implies rt.subrange(
                    0,
                    sd1.len() as int,
                )[j] == sd1[j] by {
                    assert(r.subrange(0, sd.len() as int)[j + 1] == sd[j + 1]);
                    assert(r[j + 1] == rt[j]);
                    assert(sd[j + 1] == sd1[j]);
                }
                assert(rt.subrange(0, sd1.len() as int) =~= sd1);
                assert(starts_with(rt, sd1));
                assert(starts_with(tail, sd1));
                assert forall|j: int| 0 <= j < sd.len() implies s.subrange(
                    0,
                    sd.len() as int,
                )[j] == sd[j] by {
                    if j == 0 {
                    } else {
                        assert(tail.subrange(0, sd1.len() as int)[j - 1] == sd1[j - 1]);
                        assert(tail[j - 1] == s[j]);
                        assert(sd1[j - 1] == sd[j]);
                    }
                }
                assert(s.subrange(0, sd.len() as int) =~= sd);
            } else {
                assert(sd.len() == 1);
                assert(s.subrange(0, 1) =~= sd);
            }
        }
        assert forall|i: int| !contains_at(r, pat, i) by {
            if contains_at(r, pat, i) {
                if i == 0 {
                    assert(r.subrange(0, pat.len() as int) == pat);
                    assert(pat.skip(0) =~= pat);
                    assert(starts_with(r, pat.skip(0)));
                    assert(starts_with(s, pat));
                    assert(s.subrange(0, pat.len() as int) == pat);
                } else {
                    assert(r.subrange(i, i + pat.len()) =~= rt.subrange(
                        i - 1,
                        i - 1 + pat.len(),
                    ));
                    assert(contains_at(rt, pat, i - 1));
                }
            }
        }
    }
}

/// The characters `str::trim_end` removes: those with the Unicode
/// `White_Space` property.
pub open spec fn is_unicode_whitespace(c: char) -> bool {
    c == '\u{0009}' || c == '\u{000a}' || c == '\u{000b}' || c == '\u{000c}' || c == '\u{000d}'
        || c == '\u{0020}' || c == '\u{0085}' || c == '\u{00a0}' || c == '\u{1680}' || c
        == '\u{2000}' || c == '\u{2001}' || c == '\u{2002}' || c == '\u{2003}' || c == '\u{2004}'
        || c == '\u{2005}' || c == '\u{2006}' || c == '\u{2007}' || c == '\u{2008}' || c
        == '\u{2009}' || c == '\u{200a}' || c == '\u{2028}' || c == '\u{2029}' || c == '\u{202f}'
        || c == '\u{205f}' || c == '\u{3000}'
}

/// `s` with its trailing whitespace removed.
pub open spec fn trim_end_spec(s: Seq<char>) -> Seq<char>
    decreases s.len(),
{
    if s.len() == 0 {
        s
    } else if is_unicode_whitespace(s.last()) {
        trim_end_spec(s.drop_last())
    } else {
        s
    }
}

/// Whether `c` has the Unicode `White_Space` property.
pub fn char_is_whitespace(c: char) -> (r: bool)
    ensures
        r == is_unicode_whitespace(c),
{
    c == '\u{0009}' || c == '\u{000a}' || c == '\u{000b}' || c == '\u{000c}' || c == '\u{000d}'
        || c == '\u{0020}' || c == '\u{0085}' || c == '\u{00a0}' || c == '\u{1680}' || c
        == '\u{2000}' || c == '\u{2001}' || c == '\u{2002}' || c == '\u{2003}' || c == '\u{2004}'
        || c == '\u{2005}' || c == '\u{2006}' || c == '\u{2007}' || c == '\u{2008}' || c
        == '\u{2009}' || c == '\u{200a}' || c == '\u{2028}' || c == '\u{2029}' || c == '\u{202f}'
        || c == '\u{205f}' || c == '\u{3000}'
}

/// `s` with its trailing whitespace removed.
pub fn str_trim_end(s: &str) -> (r: &str)
    ensures
        r@ == trim_end_spec(s@),
{
    let mut e = s.unicode_len();
    proof {
        assert(s@.subrange(0, e as int) =~= s@);
    }
    loop
        invariant
            e <= s@.len(),
            s@.len() <= usize::MAX,
            trim_end_spec(s@) == trim_end_spec(s@.subrange(0, e as int)),
        ensures
            e == 0 || !is_unicode_whitespace(s@[e - 1]),
            trim_end_spec(s@) == trim_end_spec(s@.subrange(0, e as int)),
            e <= s@.len(),
        decreases e,
    {
        if e == 0 {
            break ;
        }
        let c = s.get_char(e - 1);
        if !char_is_whitespace(c) {
            break ;
        }
        proof {
            let pre = s@.subrange(0, e as int);
            assert(pre.last() == s@[e - 1]);
            assert(pre.drop_last() =~= s@.subrange(0, e - 1));
        }
        e = e - 1;
    }
    let r = s.substring_char(0, e);
    proof {
        let pre = s@.subrange(0, e as int);
        if e > 0 {
            assert(pre.last() == s@[e - 1]);
        }
        assert(trim_end_spec(pre) == pre);
    }
    r
}

/// The items joined with a comma and a space between consecutive items.
pub open spec fn join_comma(items: Seq<Seq<char>>) -> Seq<char>
    decreases items.len(),
{
    if items.len() == 0 {
        Seq::empty()
    } else {
        items[0] + join_comma_tail(items.drop_first())
    }
}

/// Helper for `join_comma`: the remaining items, each preceded by ", ".
pub open spec fn join_comma_tail(items: Seq<Seq<char>>) -> Seq<char>
    decreases items.len(),
{
    if items.len() == 0 {
        Seq::empty()
    } else {
        ", "@ + items[0] + join_comma_tail(items.drop_first())
    }
}

/// Join the strings with ", " between consecutive entries.
pub fn join_comma_strs(items: &Vec<String>) -> (r: String)
    ensures
        r@ == join_comma(items.deep_view()),
{
    let ghost all = items.deep_view();
    let mut out = String::new();
    if items.len() == 0 {
        return out;
    }
    out.append(items[0].as_str());
    let mut i: usize = 1;
    proof {
        assert(all.skip(1) =~= all.drop_first());
    }
    while i < items.len()
        invariant
            all == items.deep_view(),
            all.len() == items@.len(),
            1 <= i <= items@.len(),
            forall|j: int| 0 <= j < all.len() ==> all[j] == items@[j]@,
            out@ + join_comma_tail(all.skip(i as int)) == join_comma(all),
        decreases items@.len() - i,
    {
        out.append(", ");
        out.append(items[i].as_str());
        proof {
            assert(all.skip(i as int).drop_first() =~= all.skip(i + 1));
            assert(all.skip(i as int)[0] == all[i as int]);
        }
        i += 1;
    }
    proof {
        assert(all.skip(items@.len() as int) =~= Seq::<Seq<char>>::empty());
        assert(out@ + Seq::<char>::empty() =~= out@);
    }
    out
}

/// The position of the first occurrence of `c` in `s`.
pub open spec fn find_char(s: Seq<char>, c: char) -> Option<int>
    decreases s.len(),
{
    if s.len() == 0 {
        None
    } else if s[0] == c {
        Some(0int)
    } else {
        match find_char(s.skip(1), c) {
            Some(i) => Some(i + 1),
            None => None,
        }
    }
}

/// What `find_char` returns: the first position holding `c`, if any.
pub proof fn lemma_find_char(s: Seq<char>, c: char)
    ensures
        match find_char(s, c) {
            Some(i) => 0 <= i < s.len() && s[i] == c && forall|j: int| 0 <= j < i ==> s[j] != c,
            None => forall|j: int| 0 <= j < s.len() ==> s[j] != c,
        },
    decreases s.len(),
{
    if s.len() == 0 {
    } else if s[0] == c {
    } else {
        let t = s.skip(1);
        lemma_find_char(t, c);
        match find_char(t, c) {
            Some(i) => {
                assert(t[i] == s[i + 1]);
                assert forall|j: int| 0 <= j < i + 1 implies s[j] != c by {
                    if j > 0 {
                        assert(t[j - 1] == s[j]);
                    }
                }
            },
            None => {
                assert forall|j: int| 0 <= j < s.len() implies s[j] != c by {
                    if j > 0 {
                        assert(t[j - 1] == s[j]);
                    }
                }
            },
        }
    }
}

/// A line as `str::lines` yields it: one trailing carriage return removed.
pub open spec fn strip_cr(t: Seq<char>) -> Seq<char> {
    if t.len() > 0 && t.last() == '\r' {
        t.drop_last()
    } else {
        t
    }
}

/// The lines of `s`, exactly as `str::lines` yields them: split at each
/// newline, a carriage return before a newline removed, and no final empty
/// line when `s` ends with a newline.
pub open spec fn rust_lines(s: Seq<char>) -> Seq<Seq<char>>
    decreases s.len(),
    via rust_lines_decreases
{
    if s.len() == 0 {
        Seq::empty()
    } else {
        match find_char(s, '\n') {
            Some(i) => seq![strip_cr(s.subrange(0, i))] + rust_lines(s.skip(i + 1)),
            None => seq![s],
        }
    }
}

#[via_fn]
proof fn rust_lines_decreases(s: Seq<char>) {
    lemma_find_char(s, '\n');
}

/// There is at most one line per character, and no line is longer than
/// the text it came from.
pub proof fn lemma_rust_lines_bounds(s: Seq<char>)
    ensures
        rust_lines(s).len() <= s.len(),
        forall|i: int|
            0 <= i < rust_lines(s).len() ==> (#[trigger] rust_lines(s)[i]).len() <= s.len(),
    decreases s.len(),
{
    if s.len() == 0 {
    } else {
        lemma_find_char(s, '\n');
        match find_char(s, '\n') {
            Some(i) => {
                let tail = s.skip(i + 1);
                lemma_rust_lines_bounds(tail);
                let head = strip_cr(s.subrange(0, i));
                assert forall|k: int| 0 <= k < rust_lines(s).len() implies (#[trigger] rust_lines(
                    s,
                )[k]).len() <= s.len() by {
                    if k == 0 {
                        assert(rust_lines(s)[0] == head);
                    } else {
                        assert(rust_lines(s)[k] == rust_lines(tail)[k - 1]);
                    }
                }
            },
            None => {},
        }
    }
}

/// Split `s` into its lines, as `str::lines` does.
pub fn split_lines(s: &str) -> (r: Vec<String>)
    ensures
        r.deep_view() == rust_lines(s@),
{
    let m = s.unicode_len();
    let mut out: Vec<String> = Vec::new();
    let mut start: usize = 0;
    let mut p: usize = 0;
    proof {
        assert(s@.skip(0) =~= s@);
        assert(out.deep_view() =~= Seq::<Seq<char>>::empty());
        assert(out.deep_view() + rust_lines(s@) =~= rust_lines(s@));
    }
    while p < m
        invariant
            m == s@.len(),
            start <= p <= m,
            forall|j: int| start <= j < p ==> s@[j] != '\n',
            out.deep_view() + rust_lines(s@.skip(start as int)) == rust_lines(s@),
        decreases m - p,
    {
        let c = s.get_char(p);
        if c == '\n' {
            let e = if p > start && s.get_char(p - 1) == '\r' {
                p - 1
            } else {
                p
            };
            let piece = s.substring_char(start, e).to_owned();
            proof {
                let tail = s@.skip(start as int);
                assert forall|j: int| 0 <= j < p - start implies tail[j] != '\n' by {
                    assert(tail[j] == s@[start + j]);
                }
                assert(tail[p - start] == s@[p as int]);
                lemma_find_char(tail, '\n');
                if find_char(tail, '\n') is None {
                    assert(tail[p - start] != '\n');
                }
                let fc = find_char(tail, '\n') ->Some_0;
                if fc < p - start {
                    assert(tail[fc] == '\n');
                }
                if fc > p - start {
                    assert(tail[p - start] != '\n');
                }
                assert(fc == p - start);
                let head = tail.subrange(0, p - start);
                assert(head =~= s@.subrange(start as int, p as int));
                if p > start && s@[p - 1] == '\r' {
                    assert(head.last() == s@[p - 1]);
                    assert(strip_cr(head) =~= s@.subrange(start as int, e as int));
                } else {
                    if head.len() > 0 {
                        assert(head.last() == s@[p - 1]);
                    }
                    assert(strip_cr(head) =~= s@.subrange(start as int, e as int));
                }
                assert(tail.skip(p - start + 1) =~= s@.skip(p + 1));
                assert(rust_lines(tail) == seq![piece@] + rust_lines(s@.skip(p + 1)));
            }
            let ghost pre = out.deep_view();
            out.push(piece);
            proof {
                assert(out.deep_view() =~= pre.push(piece@));
                assert(pre.push(piece@) + rust_lines(s@.skip(p + 1)) =~= pre + (seq![piece@]
                    + rust_lines(s@.skip(p + 1))));
            }
            start = p + 1;
        }
        p += 1;
    }
    proof {
        let tail = s@.skip(start as int);
        assert forall|j: int| 0 <= j < tail.len() implies tail[j] != '\n' by {
            assert(tail[j] == s@[start + j]);
        }
        lemma_find_char(tail, '\n');
    }
    if start < m {
        let piece = s.substring_char(start, m).to_owned();
        proof {
            let tail = s@.skip(start as int);
            assert(piece@ =~= tail);
            assert(rust_lines(tail) == seq![tail]);
        }
        let ghost pre = out.deep_view();
        out.push(piece);
        proof {
            assert(out.deep_view() =~= pre.push(piece@));
            assert(pre.push(s@.skip(start as int)) =~= pre + seq![s@.skip(start as int)]);
        }
    } else {
        proof {
            let tail = s@.skip(start as int);
            assert(tail =~= Seq::<char>::empty());
            assert(out.deep_view() + rust_lines(tail) =~= out.deep_view());
        }
    }
    out
}

} // verus!
