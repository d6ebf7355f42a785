//! Character-level scanning primitives shared by the two text extractors.
//!
//! Everything here works on `&str` values whose views are `Seq<char>`, so the
//! specifications below are the reference meaning of "first occurrence",
//! "line", "token" and "decimal number" used throughout the crate.

use vstd::prelude::*;

verus! {

/// First index `i` with `from <= i < s.len()` and `s[i] == c`, if any.
pub open spec fn spec_find_char(s: Seq<char>, c: char, from: int) -> Option<int>
    decreases s.len() - from,
{
    if from < 0 || from >= s.len() {
        None
    } else if s[from] == c {
        Some(from)
    } else {
        spec_find_char(s, c, from + 1)
    }
}

pub proof fn lemma_find_char(s: Seq<char>, c: char, from: int)
    requires
        0 <= from <= s.len(),
    ensures
        match spec_find_char(s, c, from) {
            Some(i) => from <= i < s.len() && s[i] == c && (forall|j: int|
                from <= j < i ==> s[j] != c),
            None => forall|j: int| from <= j < s.len() ==> s[j] != c,
        },
    decreases s.len() - from,
{
    if from < s.len() && s[from] != c {
        lemma_find_char(s, c, from + 1);
    }
}

/// The pattern `p` occurs in `s` starting at index `i`.
pub open spec fn matches_at(s: Seq<char>, p: Seq<char>, i: int) -> bool {
    0 <= i && i + p.len() <= s.len() && s.subrange(i, i + p.len() as int) == p
}

/// First index `i >= from` where `p` occurs in `s`, if any.
pub open spec fn spec_find_sub(s: Seq<char>, p: Seq<char>, from: int) -> Option<int>
    decreases s.len() - from,
{
    if from < 0 || from + p.len() > s.len() {
        None
    } else if matches_at(s, p, from) {
        Some(from)
    } else if p.len() == 0 {
        None
    } else {
        spec_find_sub(s, p, from + 1)
    }
}

pub proof fn lemma_find_sub(s: Seq<char>, p: Seq<char>, from: int)
    requires
        0 <= from,
        p.len() >= 1,
    ensures
        match spec_find_sub(s, p, from) {
            Some(i) => from <= i && i + p.len() <= s.len() && matches_at(s, p, i) && (forall|j: int|
                from <= j < i ==> !matches_at(s, p, j)),
            None => forall|j: int| from <= j ==> !matches_at(s, p, j),
        },
    decreases s.len() - from,
{
    if !(from + p.len() > s.len()) && !matches_at(s, p, from) && p.len() >= 1 {
        lemma_find_sub(s, p, from + 1);
    }
}

/// Exact Unicode `White_Space` set, the separator used by token splitting.
pub open spec fn spec_is_ws(c: char) -> bool {
    c == ' ' || c == '\t' || c == '\n' || c == '\u{b}' || c == '\u{c}' || c == '\r' || c
        == '\u{85}' || c == '\u{a0}' || c == '\u{1680}' || c == '\u{2000}' || c == '\u{2001}' || c
        == '\u{2002}' || c == '\u{2003}' || c == '\u{2004}' || c == '\u{2005}' || c == '\u{2006}'
        || c == '\u{2007}' || c == '\u{2008}' || c == '\u{2009}' || c == '\u{200a}' || c
        == '\u{2028}' || c == '\u{2029}' || c == '\u{202f}' || c == '\u{205f}' || c == '\u{3000}'
}

pub fn is_ws(c: char) -> (r: bool)
    ensures
        r == spec_is_ws(c),
{
    c == ' ' || c == '\t' || c == '\n' || c == '\u{b}' || c == '\u{c}' || c == '\r' || c
        == '\u{85}' || c == '\u{a0}' || c == '\u{1680}' || c == '\u{2000}' || c == '\u{2001}' || c
        == '\u{2002}' || c == '\u{2003}' || c == '\u{2004}' || c == '\u{2005}' || c == '\u{2006}'
        || c == '\u{2007}' || c == '\u{2008}' || c == '\u{2009}' || c == '\u{200a}' || c
        == '\u{2028}' || c == '\u{2029}' || c == '\u{202f}' || c == '\u{205f}' || c == '\u{3000}'
}

/// First index at or after `from` that holds `c`.
pub fn find_char_from(s: &str, c: char, from: usize) -> (r: Option<usize>)
    requires
        from <= s@.len(),
    ensures
        match r {
            Some(i) => from <= i < s@.len() && spec_find_char(s@, c, from as int) == Some(i as int),
            None => spec_find_char(s@, c, from as int) is None,
        },
{
    let n = s.unicode_len();
    let mut i = from;
    while i < n
        invariant
            from <= i <= n,
            n == s@.len(),
            spec_find_char(s@, c, from as int) == spec_find_char(s@, c, i as int),
        decreases n - i,
    {
        if s.get_char(i) == c {
            proof {
                lemma_find_char(s@, c, from as int);
            }
            return Some(i);
        }
        i = i + 1;
    }
    proof {
        lemma_find_char(s@, c, from as int);
    }
    None
}

/// Whether `p` occurs in `s` at exactly index `i`.
pub fn check_match_at(s: &str, p: &str, i: usize) -> (r: bool)
    requires
        i <= s@.len(),
    ensures
        r == matches_at(s@, p@, i as int),
{
    let np = p.unicode_len();
    let ns = s.unicode_len();
    if np > ns - i {
        return false;
    }
    let mut k: usize = 0;
    while k < np
        invariant
            0 <= k <= np,
            np == p@.len(),
            ns == s@.len(),
            i + np <= ns,
            forall|j: int| 0 <= j < k ==> s@[i + j] == p@[j],
        decreases np - k,
    {
        if s.get_char(i + k) != p.get_char(k) {
            assert(s@.subrange(i as int, i + np as int)[k as int] != p@[k as int]);
            return false;
        }
        k = k + 1;
    }
    assert(s@.subrange(i as int, i + np as int) =~= p@);
    true
}

/// First index at or after `from` where the pattern `p` occurs.
pub fn find_sub_from(s: &str, p: &str, from: usize) -> (r: Option<usize>)
    requires
        from <= s@.len(),
        p@.len() >= 1,
    ensures
        match r {
            Some(i) => from <= i && i + p@.len() <= s@.len() && spec_find_sub(s@, p@, from as int)
                == Some(i as int),
            None => spec_find_sub(s@, p@, from as int) is None,
        },
{
    let ns = s.unicode_len();
    let np = p.unicode_len();
    if np > ns - from {
        proof {
            lemma_find_sub(s@, p@, from as int);
        }
        return None;
    }
    let last = ns - np;
    let mut i = from;
    while i <= last
        invariant
            from <= i <= last + 1,
            ns == s@.len(),
            np == p@.len(),
            1 <= np <= ns,
            last == ns - np,
            spec_find_sub(s@, p@, from as int) == spec_find_sub(s@, p@, i as int),
        decreases last + 1 - i,
    {
        if check_match_at(s, p, i) {
            proof {
                lemma_find_sub(s@, p@, from as int);
            }
            return Some(i);
        }
        i = i + 1;
    }
    proof {
        lemma_find_sub(s@, p@, from as int);
    }
    None
}

/// Index `p` begins a line of `s`: it is the start of the text or follows a
/// newline.  Splitting on `'\n'` yields exactly the ranges between such
/// positions and the next newline (or the end).
pub open spec fn is_line_start(s: Seq<char>, p: int) -> bool {
    p == 0 || (1 <= p && s[p - 1] == '\n')
}

/// Where the line beginning at `from` ends: the next newline, or the end.
pub open spec fn spec_line_end(s: Seq<char>, from: int) -> int {
    match spec_find_char(s, '\n', from) {
        Some(i) => i,
        None => s.len() as int,
    }
}

/// Start of the first line of `s` (at or after `from`) that begins with `pre`,
/// scanning positions in order: the meaning of "find the line starting with
/// the label".
pub open spec fn spec_first_pref_line_start(s: Seq<char>, pre: Seq<char>, from: int) -> Option<
    int,
>
    decreases s.len() - from,
{
    if from < 0 || from >= s.len() {
        None
    } else if is_line_start(s, from) && matches_at(s, pre, from) && from + pre.len()
        <= spec_line_end(s, from) {
        Some(from)
    } else {
        spec_first_pref_line_start(s, pre, from + 1)
    }
}

proof fn lemma_skip_nonstarts(s: Seq<char>, pre: Seq<char>, lo: int, hi: int)
    requires
        0 <= lo <= hi <= s.len(),
        forall|j: int|
            lo <= j < hi ==> !(is_line_start(s, j) && matches_at(s, pre, j) && j + pre.len()
                <= spec_line_end(s, j)),
    ensures
        spec_first_pref_line_start(s, pre, lo) == spec_first_pref_line_start(s, pre, hi),
    decreases hi - lo,
{
    if lo < hi {
        lemma_skip_nonstarts(s, pre, lo + 1, hi);
    }
}

/// Find the first line of `s` that begins with `pre`; returns the range of
/// that whole line.
pub fn find_labeled_line(s: &str, pre: &str) -> (r: Option<(usize, usize)>)
    ensures
        match r {
            Some(pair) => spec_first_pref_line_start(s@, pre@, 0) == Some(pair.0 as int) && pair.1
                == spec_line_end(s@, pair.0 as int) && pair.0 <= pair.1 <= s@.len(),
            None => spec_first_pref_line_start(s@, pre@, 0) is None,
        },
{
    let n = s.unicode_len();
    let mut i: usize = 0;
    while i < n
        invariant
            0 <= i <= n,
            n == s@.len(),
            is_line_start(s@, i as int),
            spec_first_pref_line_start(s@, pre@, 0) == spec_first_pref_line_start(
                s@,
                pre@,
                i as int,
            ),
        decreases n - i,
    {
        let e_opt = find_char_from(s, '\n', i);
        let le = match e_opt {
            Some(e) => e,
            None => n,
        };
        proof {
            lemma_find_char(s@, '\n', i as int);
        }
        if check_match_at(s, pre, i) && i + pre.unicode_len() <= le {
            return Some((i, le));
        }
        let ghost hi: int = if e_opt is Some {
            le + 1
        } else {
            le as int
        };
        proof {
            assert forall|j: int|
                i <= j < hi implies !(is_line_start(s@, j) && matches_at(s@, pre@, j) && j
                + pre@.len() <= spec_line_end(s@, j)) by {
                if j > i {
                    assert(s@[j - 1] != '\n');
                }
            }
            lemma_skip_nonstarts(s@, pre@, i as int, hi);
        }
        match e_opt {
            Some(e) => {
                i = e + 1;
            },
            None => {
                return None;
            },
        }
    }
    None
}

/// First index at or after `from` that is not whitespace (or the end).
pub open spec fn spec_skip_ws(s: Seq<char>, from: int) -> int
    decreases s.len() - from,
{
    if from < 0 || from >= s.len() {
        s.len() as int
    } else if !spec_is_ws(s[from]) {
        from
    } else {
        spec_skip_ws(s, from + 1)
    }
}

/// First index at or after `from` that is whitespace (or the end).
pub open spec fn spec_token_end(s: Seq<char>, from: int) -> int
    decreases s.len() - from,
{
    if from < 0 || from >= s.len() {
        s.len() as int
    } else if spec_is_ws(s[from]) {
        from
    } else {
        spec_token_end(s, from + 1)
    }
}

/// Range of the `n`-th (0-based) whitespace-separated token at or after
/// `from`, the meaning of `split_whitespace` followed by `nth`.
pub open spec fn spec_nth_token(s: Seq<char>, from: int, n: nat) -> Option<(int, int)>
    decreases n,
{
    let ts = spec_skip_ws(s, from);
    if ts >= s.len() {
        None
    } else if n == 0 {
        Some((ts, spec_token_end(s, ts)))
    } else {
        spec_nth_token(s, spec_token_end(s, ts), (n - 1) as nat)
    }
}

fn skip_ws(s: &str, from: usize) -> (r: usize)
    requires
        from <= s@.len(),
    ensures
        r == spec_skip_ws(s@, from as int),
        from <= r <= s@.len(),
{
    let n = s.unicode_len();
    let mut i = from;
    while i < n
        invariant
            from <= i <= n,
            n == s@.len(),
            spec_skip_ws(s@, from as int) == spec_skip_ws(s@, i as int),
        decreases n - i,
    {
        if !is_ws(s.get_char(i)) {
            return i;
        }
        i = i + 1;
    }
    n
}

fn token_end(s: &str, from: usize) -> (r: usize)
    requires
        from <= s@.len(),
    ensures
        r == spec_token_end(s@, from as int),
        from <= r <= s@.len(),
{
    let n = s.unicode_len();
    let mut i = from;
    while i < n
        invariant
            from <= i <= n,
            n == s@.len(),
            spec_token_end(s@, from as int) == spec_token_end(s@, i as int),
        decreases n - i,
    {
        if is_ws(s.get_char(i)) {
            return i;
        }
        i = i + 1;
    }
    n
}

/// Range of the `n`-th (0-based) whitespace-separated token of `s`.
pub fn nth_token(s: &str, n: usize) -> (r: Option<(usize, usize)>)
    ensures
        match r {
            Some(t) => spec_nth_token(s@, 0, n as nat) == Some((t.0 as int, t.1 as int)) && t.0
                <= t.1 <= s@.len(),
            None => spec_nth_token(s@, 0, n as nat) is None,
        },
{
    let len = s.unicode_len();
    let mut from: usize = 0;
    let mut k: usize = 0;
    loop
        invariant
            0 <= k <= n,
            from <= len,
            len == s@.len(),
            spec_nth_token(s@, 0, n as nat) == spec_nth_token(s@, from as int, (n - k) as nat),
        decreases n - k,
    {
        let ts = skip_ws(s, from);
        if ts >= len {
            return None;
        }
        let te = token_end(s, ts);
        if k == n {
            return Some((ts, te));
        }
        from = te;
        k = k + 1;
    }
}

} // verus!
