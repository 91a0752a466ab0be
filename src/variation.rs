//! Inflected forms of a definition's text, for matching links inexactly.
use vstd::prelude::*;
use crate::text::{chars_of, eq_lit, str_eq, string_of_range, views};

verus! {

broadcast use vstd::string::group_string_axioms;

/// `t` ends with `suf`.
pub open spec fn ends(t: Seq<char>, suf: Seq<char>) -> bool {
    t.len() >= suf.len() && t.subrange(t.len() - suf.len(), t.len() as int) == suf
}

/// `t` without its last `k` characters.
pub open spec fn cut(t: Seq<char>, k: int) -> Seq<char> {
    t.subrange(0, t.len() - k)
}

/// `v` with `x` added at the end unless it is already there.
pub open spec fn with_form(v: Seq<Seq<char>>, x: Seq<char>) -> Seq<Seq<char>> {
    if v.contains(x) {
        v
    } else {
        v.push(x)
    }
}

/// The consonants that double before `-ed` and `-ing`.
pub open spec fn doubling(c: char) -> bool {
    c == 'b' || c == 'd' || c == 'f' || c == 'g' || c == 'k' || c == 'l' || c == 'm' || c == 'n'
        || c == 'p' || c == 'r' || c == 's' || c == 't' || c == 'v' || c == 'z'
}

/// Plural, possessive and verb forms, in the order they are tried.
pub open spec fn plural_forms(t: Seq<char>) -> Seq<Seq<char>> {
    let v0 = seq![t];
    let v1 = if ends(t, "ies"@) { with_form(v0, cut(t, 3) + "y"@) } else { v0 };
    let v2 = if ends(t, "y"@) { with_form(v1, cut(t, 1) + "ies"@) } else { v1 };
    let v3 = if ends(t, "ied"@) { with_form(v2, cut(t, 3) + "y"@) } else { v2 };
    let v4 = if ends(t, "y"@) { with_form(v3, cut(t, 1) + "ied"@) } else { v3 };
    let v5 = if ends(t, "es"@) { with_form(v4, cut(t, 2)) } else { with_form(v4, t + "es"@) };
    let v6 = if ends(t, "'s"@) || ends(t, "’s"@) { with_form(v5, cut(t, 2)) } else { with_form(v5, t + "'s"@) };
    let v7 = if ends(t, "s"@) { with_form(v6, cut(t, 1)) } else { with_form(v6, t + "s"@) };
    if ends(t, "'"@) || ends(t, "’"@) { with_form(v7, cut(t, 1)) } else { with_form(v7, t + "'"@) }
}

pub open spec fn verb_forms(t: Seq<char>, v: Seq<Seq<char>>) -> Seq<Seq<char>> {
    let n = t.len() as int;
    let v9 = if n >= 4 && ends(t, "ed"@) && t[n - 3] == t[n - 4] {
        with_form(v, cut(t, 3))
    } else if n >= 1 && doubling(t[n - 1]) {
        with_form(v, t + seq![t[n - 1]] + "ed"@)
    } else {
        v
    };
    let v10 = if ends(t, "ed"@) { with_form(v9, cut(t, 2)) } else { with_form(v9, t + "ed"@) };
    let v11 = if ends(t, "d"@) { with_form(v10, cut(t, 1)) } else { with_form(v10, t + "d"@) };
    let v12 = if ends(t, "ing"@) {
        with_form(with_form(v11, cut(t, 3)), cut(t, 3) + "e"@)
    } else if ends(t, "e"@) {
        with_form(v11, cut(t, 1) + "ing"@)
    } else {
        with_form(v11, t + "ing"@)
    };
    let v13 = if n >= 5 && ends(t, "ing"@) && t[n - 4] == t[n - 5] {
        with_form(v12, cut(t, 4))
    } else if n >= 1 && doubling(t[n - 1]) {
        with_form(v12, t + seq![t[n - 1]] + "ing"@)
    } else {
        v12
    };
    let v14 = if ends(t, "ly"@) { with_form(v13, cut(t, 2)) } else { with_form(v13, t + "ly"@) };
    let v15 = if t == "throw"@ { with_form(v14, "thrown"@) } else { v14 };
    if t == "thrown"@ { with_form(v15, "throw"@) } else { v15 }
}

/// The texts a link of this type may also match: for `dfn` links the text
/// and its inflections, for any other type the text alone.
pub open spec fn variations(link_type: Seq<char>, t: Seq<char>) -> Seq<Seq<char>> {
    if link_type != "dfn"@ {
        seq![t]
    } else {
        verb_forms(t, plural_forms(t))
    }
}
fn add_unique(v: &mut Vec<String>, x: String)
    ensures
        views(final(v)@) == with_form(views(old(v)@), x@),
{
    let mut i: usize = 0;
    while i < v.len()
        invariant
            i <= v@.len(),
            forall|j: int| 0 <= j < i ==> v@[j]@ != x@,
        decreases v@.len() - i,
    {
        if str_eq(&v[i], &x) {
            assert(views(v@)[i as int] == x@);
            return;
        }
        i = i + 1;
    }
    let ghost before = views(v@);
    assert(!before.contains(x@)) by {
        if before.contains(x@) {
            let j = choose|j: int| 0 <= j < before.len() && before[j] == x@;
            assert(v@[j]@ == x@);
        }
    }
    v.push(x);
    assert(views(v@) =~= before.push(x@));
}

fn ends_lit(s: &[char], lit: &str) -> (r: bool)
    ensures
        r == ends(s@, lit@),
        r ==> s@.len() >= lit@.len(),
{
    let m = lit.unicode_len();
    if m > s.len() {
        return false;
    }
    eq_lit(s, s.len() - m, s.len(), lit)
}

/// `s` without its last `k` characters, followed by `suffix`.
fn cut_cat(s: &[char], k: usize, suffix: &str) -> (r: String)
    requires
        k <= s@.len(),
    ensures
        r@ == cut(s@, k as int) + suffix@,
{
    let mut r = string_of_range(s, 0, s.len() - k);
    r.append(suffix);
    r
}

fn doubling_char(c: char) -> (r: bool)
    ensures
        r == doubling(c),
{
    c == 'b' || c == 'd' || c == 'f' || c == 'g' || c == 'k' || c == 'l' || c == 'm' || c == 'n'
        || c == 'p' || c == 'r' || c == 's' || c == 't' || c == 'v' || c == 'z'
}

/// `s` with its last character doubled, followed by `suffix`.
fn doubled(s: &[char], suffix: &str) -> (r: String)
    requires
        s@.len() >= 1,
    ensures
        r@ == s@ + seq![s@[s@.len() - 1]] + suffix@,
{
    let mut r = string_of_range(s, 0, s.len());
    crate::text::push_char(&mut r, s[s.len() - 1]);
    r.append(suffix);
    assert(s@.subrange(0, s@.len() as int) =~= s@);
    r
}

fn plural_forms_exec(s: &[char], text: &str) -> (r: Vec<String>)
    requires
        s@ == text@,
    ensures
        views(r@) == plural_forms(s@),
{
    proof {
        reveal_strlit("ies");
        reveal_strlit("y");
        reveal_strlit("ied");
        reveal_strlit("es");
        reveal_strlit("'s");
        reveal_strlit("’s");
        reveal_strlit("s");
        reveal_strlit("'");
        reveal_strlit("’");
        reveal_strlit("ed");
        reveal_strlit("d");
        reveal_strlit("ing");
        reveal_strlit("e");
        reveal_strlit("ly");
        reveal_strlit("throw");
        reveal_strlit("thrown");
        reveal_strlit("");
    }
    let ghost t = s@;
    let mut v: Vec<String> = Vec::new();
    v.push(String::from_str(text));
    assert(views(v@) =~= seq![t]);
    if ends_lit(s, "ies") {
        add_unique(&mut v, cut_cat(s, 3, "y"));
    }
    if ends_lit(s, "y") {
        add_unique(&mut v, cut_cat(s, 1, "ies"));
    }
    if ends_lit(s, "ied") {
        add_unique(&mut v, cut_cat(s, 3, "y"));
    }
    if ends_lit(s, "y") {
        add_unique(&mut v, cut_cat(s, 1, "ied"));
    }
    if ends_lit(s, "es") {
        add_unique(&mut v, cut_cat(s, 2, ""));
    } else {
        add_unique(&mut v, cut_cat(s, 0, "es"));
    }
    if ends_lit(s, "'s") || ends_lit(s, "’s") {
        add_unique(&mut v, cut_cat(s, 2, ""));
    } else {
        add_unique(&mut v, cut_cat(s, 0, "'s"));
    }
    if ends_lit(s, "s") {
        add_unique(&mut v, cut_cat(s, 1, ""));
    } else {
        add_unique(&mut v, cut_cat(s, 0, "s"));
    }
    if ends_lit(s, "'") || ends_lit(s, "’") {
        add_unique(&mut v, cut_cat(s, 1, ""));
    } else {
        add_unique(&mut v, cut_cat(s, 0, "'"));
    }
    proof {
        assert(cut(t, 0) =~= t);
        assert(t + ""@ =~= t);
        assert(cut(t, 1) + ""@ =~= cut(t, 1));
        assert(cut(t, 2) + ""@ =~= cut(t, 2));
    }
    v
}

fn verb_forms_exec(s: &[char], v: &mut Vec<String>)
    ensures
        views(final(v)@) == verb_forms(s@, views(old(v)@)),
{
    proof {
        reveal_strlit("ies");
        reveal_strlit("y");
        reveal_strlit("ied");
        reveal_strlit("es");
        reveal_strlit("'s");
        reveal_strlit("’s");
        reveal_strlit("s");
        reveal_strlit("'");
        reveal_strlit("’");
        reveal_strlit("ed");
        reveal_strlit("d");
        reveal_strlit("ing");
        reveal_strlit("e");
        reveal_strlit("ly");
        reveal_strlit("throw");
        reveal_strlit("thrown");
        reveal_strlit("");
    }
    let ghost t = s@;
    let n = s.len();
    proof {
        assert(cut(t, 0) =~= t);
        assert(t + ""@ =~= t);
        assert(cut(t, 1) + ""@ =~= cut(t, 1));
        assert(cut(t, 2) + ""@ =~= cut(t, 2));
        assert(cut(t, 3) + ""@ =~= cut(t, 3));
        assert(cut(t, 4) + ""@ =~= cut(t, 4));
    }
    if n >= 4 && ends_lit(s, "ed") && s[n - 3] == s[n - 4] {
        add_unique(v, cut_cat(s, 3, ""));
    } else if n >= 1 && doubling_char(s[n - 1]) {
        add_unique(v, doubled(s, "ed"));
    }
    if ends_lit(s, "ed") {
        add_unique(v, cut_cat(s, 2, ""));
    } else {
        add_unique(v, cut_cat(s, 0, "ed"));
    }
    if ends_lit(s, "d") {
        add_unique(v, cut_cat(s, 1, ""));
    } else {
        add_unique(v, cut_cat(s, 0, "d"));
    }
    if ends_lit(s, "ing") {
        add_unique(v, cut_cat(s, 3, ""));
        add_unique(v, cut_cat(s, 3, "e"));
    } else if ends_lit(s, "e") {
        add_unique(v, cut_cat(s, 1, "ing"));
    } else {
        add_unique(v, cut_cat(s, 0, "ing"));
    }
    if n >= 5 && ends_lit(s, "ing") && s[n - 4] == s[n - 5] {
        add_unique(v, cut_cat(s, 4, ""));
    } else if n >= 1 && doubling_char(s[n - 1]) {
        add_unique(v, doubled(s, "ing"));
    }
    if ends_lit(s, "ly") {
        add_unique(v, cut_cat(s, 2, ""));
    } else {
        add_unique(v, cut_cat(s, 0, "ly"));
    }
    if eq_lit(s, 0, n, "throw") {
        add_unique(v, String::from_str("thrown"));
    }
    if eq_lit(s, 0, n, "thrown") {
        add_unique(v, String::from_str("throw"));
    }
    assert(s@.subrange(0, n as int) =~= t);
}

/// The texts a link may match when matched inexactly, the text itself first
/// and each at most once.
pub fn link_text_variations(link_type: &str, link_text: &str) -> (r: Vec<String>)
    ensures
        views(r@) == variations(link_type@, link_text@),
{
    let ty = chars_of(link_type);
    let s = chars_of(link_text);
    if !eq_lit(&ty, 0, ty.len(), "dfn") {
        assert(ty@.subrange(0, ty@.len() as int) =~= ty@);
        let mut v: Vec<String> = Vec::new();
        v.push(String::from_str(link_text));
        assert(views(v@) =~= seq![link_text@]);
        return v;
    }
    assert(ty@.subrange(0, ty@.len() as int) =~= ty@);
    let mut v = plural_forms_exec(&s, link_text);
    verb_forms_exec(&s, &mut v);
    v
}

} // verus!
