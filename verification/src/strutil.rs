//! Character-level string utilities: trimming, substring search, whitespace
//! tokenization, and scanning for parenthesized groups. All operate on the
//! character sequence view of `&str`.

use vstd::prelude::*;

verus! {

/// The whitespace characters recognized when trimming and tokenizing.
pub open spec fn is_space(c: char) -> bool {
    c == ' ' || c == '\t' || c == '\r' || c == '\n'
}

/// An uppercase ASCII letter.
pub open spec fn is_upper(c: char) -> bool {
    65 <= c as u32 && c as u32 <= 90
}

pub fn is_space_char(c: char) -> (b: bool)
    ensures
        b == is_space(c),
{
    c == ' ' || c == '\t' || c == '\r' || c == '\n'
}

pub fn is_upper_char(c: char) -> (b: bool)
    ensures
        b == is_upper(c),
{
    let v: u32 = c as u32;
    65 <= v && v <= 90
}

pub open spec fn spec_trim_start(s: Seq<char>) -> Seq<char>
    decreases s.len(),
{
    if s.len() > 0 && is_space(s[0]) {
        spec_trim_start(s.drop_first())
    } else {
        s
    }
}

pub open spec fn spec_trim_end(s: Seq<char>) -> Seq<char>
    decreases s.len(),
{
    if s.len() > 0 && is_space(s.last()) {
        spec_trim_end(s.drop_last())
    } else {
        s
    }
}

/// The string with leading and trailing whitespace removed.
pub open spec fn spec_trim(s: Seq<char>) -> Seq<char> {
    spec_trim_end(spec_trim_start(s))
}

proof fn lemma_trim_start_skip(s: Seq<char>, i: int)
    requires
        0 <= i <= s.len(),
        forall|k: int| 0 <= k < i ==> is_space(s[k]),
        i == s.len() || !is_space(s[i]),
    ensures
        spec_trim_start(s) == s.skip(i),
    decreases i,
{
    if i == 0 {
        assert(s.skip(0) =~= s);
    } else {
        let t = s.drop_first();
        assert(forall|k: int| 0 <= k < i - 1 ==> is_space(#[trigger] t[k]));
        lemma_trim_start_skip(t, i - 1);
        assert(t.skip(i - 1) =~= s.skip(i));
    }
}

proof fn lemma_trim_end_take(s: Seq<char>, j: int)
    requires
        0 <= j <= s.len(),
        forall|k: int| j <= k < s.len() ==> is_space(s[k]),
        j == 0 || !is_space(s[j - 1]),
    ensures
        spec_trim_end(s) == s.take(j),
    decreases s.len() - j,
{
    if j == s.len() {
        assert(s.take(j) =~= s);
    } else {
        let t = s.drop_last();
        assert(forall|k: int| j <= k < t.len() ==> is_space(#[trigger] t[k]));
        lemma_trim_end_take(t, j);
        assert(t.take(j) =~= s.take(j));
    }
}

/// Trims leading and trailing whitespace, as `spec_trim` describes.
pub fn trim_str<'a>(s: &'a str) -> (r: &'a str)
    ensures
        r@ == spec_trim(s@),
{
    let n: usize = s.unicode_len();
    let mut i: usize = 0;
    while i < n && is_space_char(s.get_char(i))
        invariant
            0 <= i <= n,
            n == s@.len(),
            forall|k: int| 0 <= k < i ==> is_space(s@[k]),
        decreases n - i,
    {
        i = i + 1;
    }
    let mut j: usize = n;
    while j > i && is_space_char(s.get_char(j - 1))
        invariant
            i <= j <= n,
            n == s@.len(),
            forall|k: int| 0 <= k < i ==> is_space(s@[k]),
            i == n || !is_space(s@[i as int]),
            forall|k: int| j <= k < n ==> is_space(s@[k]),
        decreases j,
    {
        j = j - 1;
    }
    let r = s.substring_char(i, j);
    proof {
        lemma_trim_start_skip(s@, i as int);
        let t = s@.skip(i as int);
        assert forall|k: int| j - i <= k < t.len() implies is_space(#[trigger] t[k]) by {
            assert(t[k] == s@[k + i]);
        }
        if j > i {
            assert(t[j - i - 1] == s@[j - 1]);
        }
        lemma_trim_end_take(t, j - i);
        assert(t.take(j - i) =~= s@.subrange(i as int, j as int));
    }
    r
}

/// The pattern `p` occurs in `s` starting at position `i`.
pub open spec fn match_at(s: Seq<char>, p: Seq<char>, i: int) -> bool {
    0 <= i && i + p.len() <= s.len() && s.subrange(i, i + p.len()) == p
}

/// The pattern `p` occurs somewhere in `s`.
pub open spec fn spec_contains(s: Seq<char>, p: Seq<char>) -> bool {
    exists|i: int| match_at(s, p, i)
}

/// The position of the first occurrence of `p` in `s` at or after `i`.
pub open spec fn first_match_from(s: Seq<char>, p: Seq<char>, i: int) -> Option<int>
    decreases s.len() - i,
{
    if i < 0 || i >= s.len() || i + p.len() > s.len() {
        None
    } else if match_at(s, p, i) {
        Some(i)
    } else {
        first_match_from(s, p, i + 1)
    }
}

pub proof fn lemma_first_match_props(s: Seq<char>, p: Seq<char>, i: int)
    requires
        0 <= i,
        p.len() > 0,
    ensures
        match first_match_from(s, p, i) {
            Some(j) => i <= j && match_at(s, p, j) && forall|k: int|
                i <= k < j ==> !match_at(s, p, k),
            None => forall|k: int| k >= i ==> !match_at(s, p, k),
        },
    decreases s.len() - i,
{
    if i >= s.len() || i + p.len() > s.len() {
        assert(forall|k: int| k >= i ==> !match_at(s, p, k));
    } else if match_at(s, p, i) {
    } else {
        lemma_first_match_props(s, p, i + 1);
    }
}

fn match_at_exec(s: &str, p: &str, i: usize, n: usize, m: usize) -> (b: bool)
    requires
        n == s@.len(),
        m == p@.len(),
        i + m <= n,
    ensures
        b == match_at(s@, p@, i as int),
{
    let mut j: usize = 0;
    while j < m
        invariant
            0 <= j <= m,
            n == s@.len(),
            m == p@.len(),
            i + m <= n,
            forall|k: int| 0 <= k < j ==> s@[i + k] == p@[k],
        decreases m - j,
    {
        if s.get_char(i + j) != p.get_char(j) {
            proof {
                assert(s@.subrange(i as int, i + m) != p@) by {
                    assert(s@.subrange(i as int, i + m)[j as int] == s@[i + j]);
                }
            }
            return false;
        }
        j = j + 1;
    }
    proof {
        assert(s@.subrange(i as int, i + m) =~= p@);
    }
    true
}

/// Whether `s` starts with `p`.
pub fn starts_with_sub(s: &str, p: &str) -> (b: bool)
    ensures
        b == match_at(s@, p@, 0),
{
    let n: usize = s.unicode_len();
    let m: usize = p.unicode_len();
    if m > n {
        false
    } else {
        match_at_exec(s, p, 0, n, m)
    }
}

/// Returns the position of the first occurrence of `p` in `s`, if any.
pub fn find_sub(s: &str, p: &str) -> (r: Option<usize>)
    requires
        p@.len() > 0,
    ensures
        match r {
            Some(j) => first_match_from(s@, p@, 0) == Some(j as int),
            None => first_match_from(s@, p@, 0) is None,
        },
{
    let n: usize = s.unicode_len();
    let m: usize = p.unicode_len();
    if m > n {
        proof {
            lemma_first_match_props(s@, p@, 0);
            match first_match_from(s@, p@, 0) {
                Some(j) => {
                    assert(match_at(s@, p@, j));
                },
                None => {},
            }
        }
        return None;
    }
    let mut i: usize = 0;
    while i <= n - m
        invariant
            0 <= i,
            i + m <= n + 1,
            m <= n,
            n == s@.len(),
            m == p@.len(),
            m >= 1,
            forall|k: int| 0 <= k < i ==> !match_at(s@, p@, k),
        decreases n - i,
    {
        if match_at_exec(s, p, i, n, m) {
            proof {
                lemma_first_match_props(s@, p@, 0);
                match first_match_from(s@, p@, 0) {
                    Some(j) => {
                        if j < i {
                            assert(!match_at(s@, p@, j));
                        }
                        if j > i {
                            assert(!match_at(s@, p@, i as int));
                        }
                    },
                    None => {
                        assert(!match_at(s@, p@, i as int));
                    },
                }
            }
            return Some(i);
        }
        i = i + 1;
    }
    proof {
        assert forall|k: int| 0 <= k implies !match_at(s@, p@, k) by {
            if k < i {
            } else {
                assert(k + p@.len() > n);
            }
        }
        lemma_first_match_props(s@, p@, 0);
        match first_match_from(s@, p@, 0) {
            Some(j) => {
                assert(match_at(s@, p@, j));
            },
            None => {},
        }
    }
    None
}

/// Whether `p` occurs anywhere in `s`.
pub fn contains_sub(s: &str, p: &str) -> (b: bool)
    requires
        p@.len() > 0,
    ensures
        b == spec_contains(s@, p@),
{
    let r = find_sub(s, p);
    proof {
        lemma_first_match_props(s@, p@, 0);
        match first_match_from(s@, p@, 0) {
            Some(j) => {
                assert(match_at(s@, p@, j));
            },
            None => {
                assert(forall|k: int| k >= 0 ==> !match_at(s@, p@, k));
                assert(forall|k: int| match_at(s@, p@, k) ==> k >= 0);
            },
        }
    }
    r.is_some()
}

/// The position of the first occurrence of character `c` in `s` at or after
/// `i`, or `s.len()` if there is none.
pub open spec fn first_at_from(s: Seq<char>, i: int, c: char) -> int
    decreases s.len() - i,
{
    if i < 0 || i >= s.len() {
        s.len() as int
    } else if s[i] == c {
        i
    } else {
        first_at_from(s, i + 1, c)
    }
}

pub proof fn lemma_first_at_props(s: Seq<char>, i: int, c: char)
    requires
        0 <= i <= s.len(),
    ensures
        i <= first_at_from(s, i, c) <= s.len(),
        forall|k: int| i <= k < first_at_from(s, i, c) ==> s[k] != c,
        first_at_from(s, i, c) < s.len() ==> s[first_at_from(s, i, c)] == c,
    decreases s.len() - i,
{
    if i < s.len() && s[i] != c {
        lemma_first_at_props(s, i + 1, c);
    }
}

/// Finds the first occurrence of `c` in `s` at or after `i`, as
/// `first_at_from` describes.
pub fn find_char_from(s: &str, i: usize, c: char) -> (j: usize)
    requires
        i <= s@.len(),
    ensures
        j == first_at_from(s@, i as int, c),
        i <= j <= s@.len(),
{
    let n: usize = s.unicode_len();
    let mut j: usize = i;
    while j < n && s.get_char(j) != c
        invariant
            i <= j <= n,
            n == s@.len(),
            forall|k: int| i <= k < j ==> s@[k] != c,
        decreases n - j,
    {
        j = j + 1;
    }
    proof {
        lemma_first_at_props(s@, i as int, c);
        let f = first_at_from(s@, i as int, c);
        if f < j {
            assert(s@[f] != c);
        }
        if f > j {
            assert(s@[j as int] != c);
        }
    }
    j
}

/// The whitespace-separated tokens of `s` from position `i` onward, with
/// `cur` the partial token accumulated so far.
pub open spec fn tokens_acc(s: Seq<char>, i: int, cur: Seq<char>) -> Seq<Seq<char>>
    decreases s.len() - i,
{
    if i < 0 || i >= s.len() {
        if cur.len() > 0 {
            seq![cur]
        } else {
            seq![]
        }
    } else if is_space(s[i]) {
        if cur.len() > 0 {
            seq![cur] + tokens_acc(s, i + 1, seq![])
        } else {
            tokens_acc(s, i + 1, seq![])
        }
    } else {
        tokens_acc(s, i + 1, cur.push(s[i]))
    }
}

/// The whitespace-separated tokens of `s`.
pub open spec fn spec_tokens(s: Seq<char>) -> Seq<Seq<char>> {
    tokens_acc(s, 0, seq![])
}

/// Splits `s` into whitespace-separated tokens.
pub fn split_ws(s: &str) -> (r: Vec<String>)
    ensures
        r.deep_view() == spec_tokens(s@),
{
    let n: usize = s.unicode_len();
    let mut out: Vec<String> = Vec::new();
    let mut i: usize = 0;
    let mut in_tok: bool = false;
    let mut ti: usize = 0;
    proof {
        assert(out.deep_view() + tokens_acc(s@, 0, seq![]) =~= tokens_acc(s@, 0, seq![]));
    }
    while i < n
        invariant
            0 <= i <= n,
            n == s@.len(),
            in_tok ==> ti < i,
            !in_tok ==> ti <= i,
            in_tok ==> forall|k: int| ti <= k < i ==> !is_space(s@[k]),
            out.deep_view() + tokens_acc(
                s@,
                i as int,
                if in_tok {
                    s@.subrange(ti as int, i as int)
                } else {
                    seq![]
                },
            ) == spec_tokens(s@),
        decreases n - i,
    {
        let c = s.get_char(i);
        let ghost cur: Seq<char> = if in_tok {
            s@.subrange(ti as int, i as int)
        } else {
            seq![]
        };
        if is_space_char(c) {
            if in_tok {
                let ghost dv = out.deep_view();
                let tok = s.substring_char(ti, i);
                out.push(tok.to_owned());
                proof {
                    assert(cur.len() > 0);
                    assert(out.deep_view() =~= dv.push(cur));
                    assert(out.deep_view() + tokens_acc(s@, i + 1, seq![]) =~= dv
                        + tokens_acc(s@, i as int, cur));
                }
                in_tok = false;
            }
        } else {
            if !in_tok {
                in_tok = true;
                ti = i;
                proof {
                    assert(s@.subrange(ti as int, ti as int) =~= seq![]);
                }
            }
            proof {
                assert(s@.subrange(ti as int, i + 1) =~= s@.subrange(ti as int, i as int).push(
                    s@[i as int],
                ));
                assert(s@.subrange(ti as int, i as int) == cur);
            }
        }
        i = i + 1;
    }
    let ghost cur: Seq<char> = if in_tok {
        s@.subrange(ti as int, n as int)
    } else {
        seq![]
    };
    if in_tok {
        let ghost dv = out.deep_view();
        let tok = s.substring_char(ti, n);
        out.push(tok.to_owned());
        proof {
            assert(cur.len() > 0);
            assert(out.deep_view() =~= dv.push(cur));
            assert(out.deep_view() =~= dv + tokens_acc(s@, n as int, cur));
        }
    } else {
        proof {
            assert(out.deep_view() =~= out.deep_view() + tokens_acc(s@, n as int, cur));
        }
    }
    out
}

} // verus!
