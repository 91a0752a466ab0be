//! Positions in a line of characters: runs, searches and trimming.
use vstd::prelude::*;
use crate::text::{is_space, is_space_char};

verus! {

/// End of the whitespace run that starts at `i`.
pub open spec fn ws_end(s: Seq<char>, i: int) -> int
    decreases s.len() - i,
{
    if 0 <= i < s.len() && is_space(s[i]) {
        ws_end(s, i + 1)
    } else {
        i
    }
}

/// End of the run of `c` that starts at `i`.
pub open spec fn run_end(s: Seq<char>, i: int, c: char) -> int
    decreases s.len() - i,
{
    if 0 <= i < s.len() && s[i] == c {
        run_end(s, i + 1, c)
    } else {
        i
    }
}

/// First position at or after `i` that holds `c`; the length when none does.
pub open spec fn find_from(s: Seq<char>, i: int, c: char) -> int
    decreases s.len() - i,
{
    if i < 0 {
        find_from(s, 0, c)
    } else if i >= s.len() {
        s.len() as int
    } else if s[i] == c {
        i
    } else {
        find_from(s, i + 1, c)
    }
}

/// Start of the trailing whitespace of `s[..e]`.
pub open spec fn rtrim_end(s: Seq<char>, e: int) -> int
    decreases e,
{
    if 0 < e <= s.len() && is_space(s[e - 1]) {
        rtrim_end(s, e - 1)
    } else {
        e
    }
}

/// `s` without leading and trailing whitespace (`str::trim`).
pub open spec fn trim(s: Seq<char>) -> Seq<char> {
    let a = ws_end(s, 0);
    let b = rtrim_end(s, s.len() as int);
    if a < b {
        s.subrange(a, b)
    } else {
        Seq::empty()
    }
}

pub proof fn lemma_ws_end_bounds(s: Seq<char>, i: int)
    requires
        0 <= i <= s.len(),
    ensures
        i <= ws_end(s, i) <= s.len(),
        forall|j: int| i <= j < ws_end(s, i) ==> is_space(#[trigger] s[j]),
        ws_end(s, i) < s.len() ==> !is_space(s[ws_end(s, i)]),
    decreases s.len() - i,
{
    if i < s.len() && is_space(s[i]) {
        lemma_ws_end_bounds(s, i + 1);
    }
}

pub proof fn lemma_run_end_bounds(s: Seq<char>, i: int, c: char)
    requires
        0 <= i <= s.len(),
    ensures
        i <= run_end(s, i, c) <= s.len(),
        forall|j: int| i <= j < run_end(s, i, c) ==> #[trigger] s[j] == c,
        run_end(s, i, c) < s.len() ==> s[run_end(s, i, c)] != c,
    decreases s.len() - i,
{
    if i < s.len() && s[i] == c {
        lemma_run_end_bounds(s, i + 1, c);
    }
}

pub proof fn lemma_find_from_bounds(s: Seq<char>, i: int, c: char)
    requires
        0 <= i <= s.len(),
    ensures
        i <= find_from(s, i, c) <= s.len(),
        find_from(s, i, c) < s.len() ==> s[find_from(s, i, c)] == c,
        forall|j: int| i <= j < find_from(s, i, c) ==> #[trigger] s[j] != c,
    decreases s.len() - i,
{
    if i < s.len() && s[i] != c {
        lemma_find_from_bounds(s, i + 1, c);
    }
}

pub proof fn lemma_rtrim_end_bounds(s: Seq<char>, e: int)
    requires
        0 <= e <= s.len(),
    ensures
        0 <= rtrim_end(s, e) <= e,
    decreases e,
{
    if 0 < e && is_space(s[e - 1]) {
        lemma_rtrim_end_bounds(s, e - 1);
    }
}

pub fn skip_ws(s: &[char], i: usize) -> (r: usize)
    requires
        i <= s@.len(),
    ensures
        r == ws_end(s@, i as int),
        i <= r <= s@.len(),
{
    let mut j = i;
    while j < s.len() && is_space_char(s[j])
        invariant
            i <= j <= s@.len(),
            ws_end(s@, i as int) == ws_end(s@, j as int),
        decreases s@.len() - j,
    {
        j = j + 1;
    }
    j
}

pub fn skip_run(s: &[char], i: usize, c: char) -> (r: usize)
    requires
        i <= s@.len(),
    ensures
        r == run_end(s@, i as int, c),
        i <= r <= s@.len(),
{
    let mut j = i;
    while j < s.len() && s[j] == c
        invariant
            i <= j <= s@.len(),
            run_end(s@, i as int, c) == run_end(s@, j as int, c),
        decreases s@.len() - j,
    {
        j = j + 1;
    }
    j
}

pub fn find_char(s: &[char], i: usize, c: char) -> (r: usize)
    requires
        i <= s@.len(),
    ensures
        r == find_from(s@, i as int, c),
        i <= r <= s@.len(),
{
    let mut j = i;
    while j < s.len() && s[j] != c
        invariant
            i <= j <= s@.len(),
            find_from(s@, i as int, c) == find_from(s@, j as int, c),
        decreases s@.len() - j,
    {
        j = j + 1;
    }
    j
}

pub fn rtrim(s: &[char], e: usize) -> (r: usize)
    requires
        e <= s@.len(),
    ensures
        r == rtrim_end(s@, e as int),
        r <= e,
{
    let mut j = e;
    while j > 0 && is_space_char(s[j - 1])
        invariant
            j <= e <= s@.len(),
            rtrim_end(s@, e as int) == rtrim_end(s@, j as int),
        decreases j,
    {
        j = j - 1;
    }
    j
}

/// Bounds of `trim(s[from..to])` inside `s`.
pub fn trim_bounds(s: &[char], from: usize, to: usize) -> (r: (usize, usize))
    requires
        from <= to <= s@.len(),
    ensures
        from <= r.0 <= r.1 <= to,
        s@.subrange(r.0 as int, r.1 as int) == trim(s@.subrange(from as int, to as int)),
{
    let ghost t = s@.subrange(from as int, to as int);
    let mut a = from;
    while a < to && is_space_char(s[a])
        invariant
            from <= a <= to <= s@.len(),
            t == s@.subrange(from as int, to as int),
            ws_end(t, 0) == ws_end(t, a - from),
        decreases to - a,
    {
        assert(t[a - from] == s@[a as int]);
        a = a + 1;
    }
    assert(a < to ==> t[a - from] == s@[a as int]);
    let mut b = to;
    while b > a && is_space_char(s[b - 1])
        invariant
            from <= a <= b <= to <= s@.len(),
            t == s@.subrange(from as int, to as int),
            rtrim_end(t, t.len() as int) == rtrim_end(t, b - from),
        decreases b,
    {
        assert(t[b - 1 - from] == s@[b - 1]);
        b = b - 1;
    }
    proof {
        lemma_ws_end_bounds(t, 0);
        lemma_rtrim_end_bounds(t, t.len() as int);
        if b > a {
            assert(t[b - 1 - from] == s@[b - 1]);
            assert(rtrim_end(t, b - from) == b - from);
            assert(s@.subrange(a as int, b as int) =~= t.subrange(a - from, b - from));
        } else {
            lemma_rtrim_end_bounds(t, b - from);
            assert(s@.subrange(a as int, b as int) =~= Seq::<char>::empty());
        }
    }
    (a, b)
}

} // verus!
