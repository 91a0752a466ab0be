//! Ids and data-file group names generated from free text.
use vstd::prelude::*;
use crate::text::{chars_of, is_ascii_digit, is_ascii_lower, is_space, is_space_char, string_of};

verus! {

/// What `str::to_lowercase` makes of a string.
pub uninterp spec fn lower_of(s: Seq<char>) -> Seq<char>;

/// The characters an id is made of: `[a-z0-9_-]`.
pub open spec fn is_name_char(c: char) -> bool {
    is_ascii_lower(c) || is_ascii_digit(c) || c == '_' || c == '-'
}

pub open spec fn all_name_chars(s: Seq<char>) -> bool {
    forall|i: int| 0 <= i < s.len() ==> is_name_char(#[trigger] s[i])
}

/// Relies on `str::to_lowercase`, which maps each character by its Unicode
/// lowercase mapping; ASCII lowercase letters, digits, `_` and `-` have none
/// and stay as they are.
#[verifier::external_body]
pub(crate) fn lowercase(s: &str) -> (r: String)
    ensures
        r@ == lower_of(s@),
        all_name_chars(s@) ==> r@ == s@,
{
    s.to_lowercase()
}

/// `s` with every `()` taken out, left to right.
pub open spec fn drop_parens(s: Seq<char>) -> Seq<char>
    decreases s.len(),
{
    if s.len() == 0 {
        s
    } else if s.len() >= 2 && s[0] == '(' && s[1] == ')' {
        drop_parens(s.skip(2))
    } else {
        seq![s[0]] + drop_parens(s.skip(1))
    }
}

/// Characters that a run of turns into one `-`: whitespace, `/`, `(` and `,`.
pub open spec fn is_dashable(c: char) -> bool {
    is_space(c) || c == '/' || c == '(' || c == ','
}

/// Length of the run of dashable characters that starts `s`.
pub open spec fn dash_run(s: Seq<char>) -> nat
    decreases s.len(),
{
    if s.len() > 0 && is_dashable(s[0]) {
        1 + dash_run(s.skip(1))
    } else {
        0
    }
}

/// `s` with each run of dashable characters replaced by `-`.
pub open spec fn dash_runs(s: Seq<char>) -> Seq<char>
    decreases s.len(),
{
    if s.len() == 0 {
        s
    } else if is_dashable(s[0]) {
        let n = dash_run(s);
        if 0 < n <= s.len() {
            seq!['-'] + dash_runs(s.skip(n as int))
        } else {
            seq!['-']
        }
    } else {
        seq![s[0]] + dash_runs(s.skip(1))
    }
}

/// `s` without the characters that cannot stand in an id.
pub open spec fn keep_name_chars(s: Seq<char>) -> Seq<char>
    decreases s.len(),
{
    if s.len() == 0 {
        s
    } else if is_name_char(s[0]) {
        seq![s[0]] + keep_name_chars(s.skip(1))
    } else {
        keep_name_chars(s.skip(1))
    }
}

/// The id made from text that is already lowercase.
pub open spec fn name_of(s: Seq<char>) -> Seq<char> {
    keep_name_chars(dash_runs(drop_parens(s)))
}

proof fn lemma_dash_run_bound(s: Seq<char>)
    ensures
        dash_run(s) <= s.len(),
        s.len() > 0 && is_dashable(s[0]) ==> dash_run(s) > 0,
    decreases s.len(),
{
    if s.len() > 0 && is_dashable(s[0]) {
        lemma_dash_run_bound(s.skip(1));
    }
}

proof fn lemma_keep_all(s: Seq<char>)
    ensures
        all_name_chars(keep_name_chars(s)),
    decreases s.len(),
{
    if s.len() > 0 {
        lemma_keep_all(s.skip(1));
        let k = keep_name_chars(s.skip(1));
        if is_name_char(s[0]) {
            assert forall|i: int| 0 <= i < keep_name_chars(s).len() implies is_name_char(
                #[trigger] keep_name_chars(s)[i],
            ) by {
                if i > 0 {
                    assert(keep_name_chars(s)[i] == k[i - 1]);
                }
            }
        }
    }
}

proof fn lemma_stages_fix(s: Seq<char>)
    requires
        all_name_chars(s),
    ensures
        drop_parens(s) == s,
        dash_runs(s) == s,
        keep_name_chars(s) == s,
    decreases s.len(),
{
    if s.len() > 0 {
        let t = s.skip(1);
        assert(all_name_chars(t)) by {
            assert forall|i: int| 0 <= i < t.len() implies is_name_char(#[trigger] t[i]) by {
                assert(t[i] == s[i + 1]);
            }
        }
        lemma_stages_fix(t);
        assert(is_name_char(s[0]));
        assert(seq![s[0]] + t =~= s);
    }
}

/// Generating a name is idempotent: a generated name is made of id
/// characters only, and generating a name from it gives it back.
pub proof fn lemma_generate_name_idempotent(t: Seq<char>)
    ensures
        all_name_chars(name_of(t)),
        name_of(name_of(t)) == name_of(t),
{
    lemma_keep_all(dash_runs(drop_parens(t)));
    lemma_stages_fix(name_of(t));
}

fn drop_parens_exec(s: &Vec<char>) -> (r: Vec<char>)
    ensures
        r@ == drop_parens(s@),
{
    let mut out: Vec<char> = Vec::new();
    let mut i: usize = 0;
    assert(s@.skip(0) =~= s@);
    while i < s.len()
        invariant
            i <= s@.len(),
            out@ + drop_parens(s@.skip(i as int)) == drop_parens(s@),
        decreases s@.len() - i,
    {
        if i + 1 < s.len() && s[i] == '(' && s[i + 1] == ')' {
            assert(s@.skip(i as int).skip(2) =~= s@.skip(i + 2));
            i = i + 2;
        } else {
            assert(s@.skip(i as int).skip(1) =~= s@.skip(i + 1));
            let ghost o = out@;
            out.push(s[i]);
            assert(out@ + drop_parens(s@.skip(i + 1)) =~= o + (seq![s@[i as int]] + drop_parens(
                s@.skip(i + 1),
            )));
            i = i + 1;
        }
    }
    assert(out@ + drop_parens(s@.skip(i as int)) =~= out@);
    out
}

fn is_dashable_char(c: char) -> (r: bool)
    ensures
        r == is_dashable(c),
{
    is_space_char(c) || c == '/' || c == '(' || c == ','
}

fn dash_runs_exec(s: &Vec<char>) -> (r: Vec<char>)
    ensures
        r@ == dash_runs(s@),
{
    let mut out: Vec<char> = Vec::new();
    let mut i: usize = 0;
    assert(s@.skip(0) =~= s@);
    while i < s.len()
        invariant
            i <= s@.len(),
            out@ + dash_runs(s@.skip(i as int)) == dash_runs(s@),
        decreases s@.len() - i,
    {
        let ghost o = out@;
        if is_dashable_char(s[i]) {
            let mut j = i;
            while j < s.len() && is_dashable_char(s[j])
                invariant
                    i <= j <= s@.len(),
                    dash_run(s@.skip(i as int)) == (j - i) + dash_run(s@.skip(j as int)),
                decreases s@.len() - j,
            {
                assert(s@.skip(j as int).skip(1) =~= s@.skip(j + 1));
                j = j + 1;
            }
            proof {
                lemma_dash_run_bound(s@.skip(i as int));
                assert(s@.skip(i as int).skip(j - i) =~= s@.skip(j as int));
            }
            out.push('-');
            assert(out@ + dash_runs(s@.skip(j as int)) =~= o + (seq!['-'] + dash_runs(
                s@.skip(j as int),
            )));
            i = j;
        } else {
            assert(s@.skip(i as int).skip(1) =~= s@.skip(i + 1));
            out.push(s[i]);
            assert(out@ + dash_runs(s@.skip(i + 1)) =~= o + (seq![s@[i as int]] + dash_runs(
                s@.skip(i + 1),
            )));
            i = i + 1;
        }
    }
    assert(out@ + dash_runs(s@.skip(i as int)) =~= out@);
    out
}

fn keep_name_chars_exec(s: &Vec<char>) -> (r: Vec<char>)
    ensures
        r@ == keep_name_chars(s@),
{
    let mut out: Vec<char> = Vec::new();
    let mut i: usize = 0;
    assert(s@.skip(0) =~= s@);
    while i < s.len()
        invariant
            i <= s@.len(),
            out@ + keep_name_chars(s@.skip(i as int)) == keep_name_chars(s@),
        decreases s@.len() - i,
    {
        assert(s@.skip(i as int).skip(1) =~= s@.skip(i + 1));
        let c = s[i];
        let ghost o = out@;
        if ('a' <= c && c <= 'z') || ('0' <= c && c <= '9') || c == '_' || c == '-' {
            out.push(c);
            assert(out@ + keep_name_chars(s@.skip(i + 1)) =~= o + (seq![c] + keep_name_chars(
                s@.skip(i + 1),
            )));
        }
        i = i + 1;
    }
    assert(out@ + keep_name_chars(s@.skip(i as int)) =~= out@);
    out
}

/// The id made from text that is already lowercase: `()` removed, runs of
/// whitespace, `/`, `(` and `,` turned into `-`, then everything outside
/// `[a-z0-9_-]` dropped.
pub fn name_from_lowercase(text: &str) -> (r: String)
    ensures
        r@ == name_of(text@),
{
    let s = chars_of(text);
    let a = drop_parens_exec(&s);
    let b = dash_runs_exec(&a);
    let c = keep_name_chars_exec(&b);
    string_of(&c)
}

/// The id generated from a definition's text: lowercased, then made of id
/// characters as [`name_from_lowercase`] says.
pub fn generate_name(text: &str) -> (r: String)
    ensures
        r@ == name_of(lower_of(text@)),
        all_name_chars(r@),
        all_name_chars(text@) ==> r@ == text@,
{
    let lower = lowercase(text);
    let r = name_from_lowercase(lower.as_str());
    proof {
        lemma_generate_name_idempotent(lower_of(text@));
        if all_name_chars(text@) {
            lemma_stages_fix(text@);
        }
    }
    r
}

/// The characters of `s` that may stand in a group name: `[a-z0-9]`.
pub open spec fn group_chars(s: Seq<char>) -> Seq<char>
    decreases s.len(),
{
    if s.len() == 0 {
        s
    } else if is_ascii_lower(s[0]) || is_ascii_digit(s[0]) {
        seq![s[0]] + group_chars(s.skip(1))
    } else {
        group_chars(s.skip(1))
    }
}

/// The first two group characters of lowercase text, padded with `_`.
pub open spec fn group_of(s: Seq<char>) -> Seq<char> {
    let g = group_chars(s);
    let t = if g.len() >= 2 { g.take(2) } else { g };
    t + Seq::new((2 - t.len()) as nat, |i: int| '_')
}

/// The group name of lowercase text.
pub fn group_from_lowercase(key: &str) -> (r: String)
    ensures
        r@ == group_of(key@),
        r@.len() == 2,
{
    let s = chars_of(key);
    let mut g: Vec<char> = Vec::new();
    let mut i: usize = 0;
    assert(s@.skip(0) =~= s@);
    while i < s.len() && g.len() < 2
        invariant
            i <= s@.len(),
            g@.len() <= 2,
            g@ + group_chars(s@.skip(i as int)) == group_chars(s@),
        decreases s@.len() - i,
    {
        assert(s@.skip(i as int).skip(1) =~= s@.skip(i + 1));
        let c = s[i];
        let ghost o = g@;
        if ('a' <= c && c <= 'z') || ('0' <= c && c <= '9') {
            g.push(c);
            assert(g@ + group_chars(s@.skip(i + 1)) =~= o + (seq![c] + group_chars(s@.skip(i + 1))));
        }
        i = i + 1;
    }
    proof {
        let full = group_chars(s@);
        if g@.len() == 2 {
            assert(full.take(2) =~= g@);
        } else {
            assert(s@.skip(i as int) =~= Seq::<char>::empty());
            assert(full =~= g@);
        }
    }
    while g.len() < 2
        invariant
            g@.len() <= 2,
            ({
                let full = group_chars(s@);
                let t = if full.len() >= 2 { full.take(2) } else { full };
                g@ == t + Seq::new((g@.len() - t.len()) as nat, |k: int| '_') && t.len() <= g@.len()
            }),
        decreases 2 - g@.len(),
    {
        let ghost o = g@;
        g.push('_');
        proof {
            let full = group_chars(s@);
            let t = if full.len() >= 2 { full.take(2) } else { full };
            assert(g@ =~= t + Seq::new((g@.len() - t.len()) as nat, |k: int| '_'));
        }
    }
    string_of(&g)
}

/// The data-file group of a key: the first two of its lowercase letters and
/// digits, padded with `_` to two characters.
pub fn generate_group_name(key: &str) -> (r: String)
    ensures
        r@ == group_of(lower_of(key@)),
        r@.len() == 2,
{
    let lower = lowercase(key);
    group_from_lowercase(lower.as_str())
}

} // verus!
