//! Values of the document's metadata fields: boilerplate switches, editor
//! terms and the like.
use vstd::prelude::*;
use crate::boolset::{BoolSet, Setting};
use crate::name::{lower_of, lowercase};
use crate::scan::{find_from, trim, trim_bounds, lemma_find_from_bounds};
use crate::text::{chars_of, eq_lit, is_ascii_digit, is_word, matches_at, occurs_at, opt_view, string_of_range, views};

verus! {

/// `s` cut at every `c` (`str::split`): empty fields are kept.
pub open spec fn split_on(s: Seq<char>, c: char) -> Seq<Seq<char>>
    decreases s.len(),
{
    let i = find_from(s, 0, c);
    if i < 0 || i >= s.len() {
        seq![s]
    } else {
        seq![s.take(i)] + split_on(s.skip(i + 1), c)
    }
}

/// Each string trimmed.
pub open spec fn trims(v: Seq<Seq<char>>) -> Seq<Seq<char>> {
    v.map_values(|p: Seq<char>| trim(p))
}

/// The fields of `s` between the `c`s, each trimmed.
pub fn split_trim(s: &str, c: char) -> (r: Vec<String>)
    ensures
        views(r@) == trims(split_on(s@, c)),
{
    let chars = chars_of(s);
    let mut out: Vec<String> = Vec::new();
    let mut start: usize = 0;
    assert(chars@.skip(0) =~= chars@);
    loop
        invariant
            chars@ == s@,
            start <= chars@.len(),
            views(out@) + trims(split_on(chars@.skip(start as int), c)) == trims(split_on(chars@, c)),
        decreases chars@.len() - start,
    {
        let ghost rest = chars@.skip(start as int);
        let mut i = start;
        while i < chars.len() && chars[i] != c
            invariant
                start <= i <= chars@.len(),
                rest == chars@.skip(start as int),
                find_from(rest, 0, c) == find_from(rest, i - start, c),
            decreases chars@.len() - i,
        {
            assert(rest[i - start] == chars@[i as int]);
            i = i + 1;
        }
        proof {
            if i < chars@.len() {
                assert(rest[i - start] == chars@[i as int]);
            }
            lemma_find_from_bounds(rest, 0, c);
        }
        let (a, b) = trim_bounds(&chars, start, i);
        let field = string_of_range(&chars, a, b);
        let ghost before = views(out@);
        out.push(field);
        assert(rest.take(i - start) =~= chars@.subrange(start as int, i as int));
        if i >= chars.len() {
            proof {
                assert(rest =~= chars@.subrange(start as int, i as int));
                assert(views(out@) =~= before + trims(split_on(rest, c)));
            }
            return out;
        }
        proof {
            assert(rest.skip(i - start + 1) =~= chars@.skip(i + 1));
            assert(trims(split_on(rest, c)) =~= seq![trim(rest.take(i - start))] + trims(split_on(chars@.skip(i + 1), c)));
            assert(views(out@) + trims(split_on(chars@.skip(i + 1), c)) =~= before + trims(split_on(rest, c)));
        }
        start = i + 1;
    }
}

/// The boolean a boolish word stands for.
pub open spec fn boolish(l: Seq<char>) -> Option<bool> {
    if l == "true"@ || l == "yes"@ || l == "y"@ || l == "on"@ {
        Some(true)
    } else if l == "false"@ || l == "no"@ || l == "n"@ || l == "off"@ {
        Some(false)
    } else {
        None
    }
}

fn is_literal(s: &[char], lit: &str) -> (r: bool)
    ensures
        r == (s@ == lit@),
{
    let r = eq_lit(s, 0, s.len(), lit);
    assert(s@.subrange(0, s@.len() as int) =~= s@);
    r
}

/// `true`, `yes`, `y` or `on`, and `false`, `no`, `n` or `off`, in any case.
pub fn boolish_to_bool(val: &str) -> (r: Result<bool, &'static str>)
    ensures
        match boolish(lower_of(val@)) {
            Some(b) => r == Ok::<bool, &'static str>(b),
            None => r is Err && r->Err_0@ == "the input is not boolish"@,
        },
{
    let lower = lowercase(val);
    let l = chars_of(lower.as_str());
    if is_literal(&l, "true") || is_literal(&l, "yes") || is_literal(&l, "y") || is_literal(&l, "on") {
        Ok(true)
    } else if is_literal(&l, "false") || is_literal(&l, "no") || is_literal(&l, "n") || is_literal(&l, "off") {
        Ok(false)
    } else {
        Err("the input is not boolish")
    }
}

/// One `omit <section>` or `<section> <boolish>` item, its words lowercased.
pub open spec fn boilerplate_pair(item: Seq<char>) -> Result<(Seq<char>, bool), Seq<char>> {
    let pieces = trims(split_on(item, ' ')).map_values(|p: Seq<char>| lower_of(p));
    if pieces.len() != 2 {
        Err("wrong boilerplate piece format"@)
    } else if pieces[0] == "omit"@ {
        Ok((pieces[1], false))
    } else {
        match boolish(lower_of(pieces[1])) {
            Some(b) => Ok((pieces[0], b)),
            None => Err("wrong boolish format"@),
        }
    }
}

/// The settings of the items in order, or the error of the first bad one.
pub open spec fn boilerplate_settings(items: Seq<Seq<char>>) -> Result<Seq<(Seq<char>, bool)>, Seq<char>>
    decreases items.len(),
{
    if items.len() == 0 {
        Ok(Seq::empty())
    } else {
        match boilerplate_pair(items[0]) {
            Err(e) => Err(e),
            Ok(p) => match boilerplate_settings(items.skip(1)) {
                Ok(rest) => Ok(seq![p] + rest),
                Err(e) => Err(e),
            },
        }
    }
}

pub open spec fn setting_views(v: Seq<Setting>) -> Seq<(Seq<char>, bool)> {
    v.map_values(|s: Setting| (s.key@, s.val))
}

fn lower_all(v: &Vec<String>) -> (r: Vec<String>)
    ensures
        views(r@) == views(v@).map_values(|p: Seq<char>| lower_of(p)),
{
    let mut r: Vec<String> = Vec::new();
    let mut i: usize = 0;
    while i < v.len()
        invariant
            i <= v@.len(),
            views(r@) == views(v@).map_values(|p: Seq<char>| lower_of(p)).take(i as int),
        decreases v@.len() - i,
    {
        let l = lowercase(v[i].as_str());
        let ghost before = views(r@);
        r.push(l);
        assert(views(r@) =~= before.push(lower_of(views(v@)[i as int])));
        assert(views(r@) =~= views(v@).map_values(|p: Seq<char>| lower_of(p)).take(i + 1));
        i = i + 1;
    }
    assert(views(v@).map_values(|p: Seq<char>| lower_of(p)).take(i as int) =~= views(v@).map_values(
        |p: Seq<char>| lower_of(p),
    ));
    r
}

/// Reads `<pair> ("," <pair>)*`, where a pair is `omit <section>` or
/// `<section> <boolish>`. Sections not named are on.
pub fn parse_boilerplate(val: &str) -> (r: Result<BoolSet, &'static str>)
    ensures
        match boilerplate_settings(trims(split_on(val@, ','))) {
            Ok(es) => r is Ok && r->Ok_0.default_val && setting_views(r->Ok_0.settings@) == es,
            Err(e) => r is Err && r->Err_0@ == e,
        },
{
    let items = split_trim(val, ',');
    let mut set = BoolSet::new_with_default(true);
    let ghost all = views(items@);
    let mut i: usize = 0;
    assert(all.skip(0) =~= all);
    assert(setting_views(set.settings@) =~= Seq::<(Seq<char>, bool)>::empty());
    while i < items.len()
        invariant
            all == views(items@),
            all == trims(split_on(val@, ',')),
            i <= items@.len(),
            set.default_val,
            match boilerplate_settings(all.skip(i as int)) {
                Ok(rest) => boilerplate_settings(all) == Ok::<Seq<(Seq<char>, bool)>, Seq<char>>(
                    setting_views(set.settings@) + rest,
                ),
                Err(e) => boilerplate_settings(all) == Err::<Seq<(Seq<char>, bool)>, Seq<char>>(e),
            },
        decreases items@.len() - i,
    {
        let ghost tail = all.skip(i as int);
        assert(tail[0] == items@[i as int]@);
        assert(tail.skip(1) =~= all.skip(i + 1));
        let words = split_trim(items[i].as_str(), ' ');
        let pieces = lower_all(&words);
        let ghost item = items@[i as int]@;
        assert(views(pieces@) == trims(split_on(item, ' ')).map_values(|p: Seq<char>| lower_of(p)));
        if pieces.len() != 2 {
            assert(boilerplate_pair(tail[0]) is Err);
            return Err("wrong boilerplate piece format");
        }
        assert(views(pieces@)[0] == pieces@[0]@);
        assert(views(pieces@)[1] == pieces@[1]@);
        let first = chars_of(pieces[0].as_str());
        let key: String;
        let on: bool;
        if is_literal(&first, "omit") {
            key = pieces[1].clone();
            on = false;
        } else {
            match boolish_to_bool(pieces[1].as_str()) {
                Ok(b) => {
                    key = pieces[0].clone();
                    on = b;
                },
                Err(_) => {
                    assert(boilerplate_pair(tail[0]) is Err);
                    return Err("wrong boolish format");
                },
            }
        }
        let ghost before = setting_views(set.settings@);
        set.settings.push(Setting { key, val: on });
        proof {
            assert(setting_views(set.settings@) =~= before.push((key@, on)));
            match boilerplate_settings(all.skip(i + 1)) {
                Ok(rest) => {
                    assert(before.push((key@, on)) + rest =~= before + (seq![(key@, on)] + rest));
                },
                Err(e) => {},
            }
        }
        i = i + 1;
    }
    assert(all.skip(i as int) =~= Seq::<Seq<char>>::empty());
    assert(setting_views(set.settings@) + Seq::<(Seq<char>, bool)>::empty() =~= setting_views(set.settings@));
    Ok(set)
}


/// An editor of the document and how to reach them.
#[derive(Debug, Clone, Default, PartialEq)]
pub struct Editor {
    pub name: String,
    pub w3c_id: Option<String>,
    pub org: Option<String>,
    pub org_link: Option<String>,
    pub email: Option<String>,
    pub link: Option<String>,
}

/// An editor as plain values.
pub struct EditorSpec {
    pub name: Seq<char>,
    pub w3c_id: Option<Seq<char>>,
    pub org: Option<Seq<char>>,
    pub org_link: Option<Seq<char>>,
    pub email: Option<Seq<char>>,
    pub link: Option<Seq<char>>,
}

impl View for Editor {
    type V = EditorSpec;

    open spec fn view(&self) -> EditorSpec {
        EditorSpec {
            name: self.name@,
            w3c_id: opt_view(self.w3c_id),
            org: opt_view(self.org),
            org_link: opt_view(self.org_link),
            email: opt_view(self.email),
            link: opt_view(self.link),
        }
    }
}

impl Editor {
    pub fn new(name: String) -> (r: Editor)
        ensures
            r@ == (EditorSpec { name: name@, w3c_id: None, org: None, org_link: None, email: None, link: None }),
    {
        Editor { name, w3c_id: None, org: None, org_link: None, email: None, link: None }
    }
}

/// End of the run of word characters that starts at `i`.
pub open spec fn word_end(s: Seq<char>, i: int) -> int
    decreases s.len() - i,
{
    if 0 <= i < s.len() && is_word(s[i]) {
        word_end(s, i + 1)
    } else {
        i
    }
}

/// `^\w+:`: a scheme and a colon.
pub open spec fn linkish(p: Seq<char>) -> bool {
    let w = word_end(p, 0);
    w >= 1 && w < p.len() && p[w] == ':'
}

/// `^\w+@.+\..+`: a user, `@`, and a host with a dot inside it.
pub open spec fn emailish(p: Seq<char>) -> bool {
    let w = word_end(p, 0);
    w >= 1 && w < p.len() && p[w] == '@' && exists|d: int| w + 2 <= d <= p.len() - 2 && #[trigger] p[d] == '.'
}

/// `w3cid` and digits up to the end of the piece.
pub open spec fn w3cid_at(p: Seq<char>, i: int) -> bool {
    &&& occurs_at(p, i, "w3cid "@)
    &&& i + 6 < p.len()
    &&& forall|j: int| i + 6 <= j < p.len() ==> is_ascii_digit(#[trigger] p[j])
}

pub open spec fn w3cid_piece(p: Seq<char>) -> bool {
    exists|i: int| w3cid_at(p, i)
}

/// The first piece that is a W3C id, or the number of pieces.
pub open spec fn first_w3cid(pieces: Seq<Seq<char>>) -> int
    decreases pieces.len(),
{
    if pieces.len() == 0 {
        0
    } else {
        let j = first_w3cid(pieces.drop_last());
        if j < pieces.len() - 1 {
            j
        } else if w3cid_piece(pieces.last()) {
            pieces.len() - 1
        } else {
            pieces.len() as int
        }
    }
}

/// The organisation, split from a trailing email or link.
pub open spec fn org_parts(org: Seq<char>) -> (Seq<char>, Option<Seq<char>>) {
    match last_space(org, org.len() as int) {
        Some(k) => {
            let last = org.skip(k + 1);
            if emailish(last) || linkish(last) {
                (org.take(k), Some(last))
            } else {
                (org, None)
            }
        },
        None => (org, None),
    }
}

/// The last space before `e`.
pub open spec fn last_space(s: Seq<char>, e: int) -> Option<int>
    decreases e,
{
    if e <= 0 || e > s.len() {
        None
    } else if s[e - 1] == ' ' {
        Some(e - 1)
    } else {
        last_space(s, e - 1)
    }
}

/// The editor a value describes: `<name>`, then `w3cid <digits>` anywhere,
/// then `[<org>] [<email> | <link> | <email> <link> | <link> <email>]`.
pub open spec fn editor_spec(val: Seq<char>) -> Result<EditorSpec, Seq<char>> {
    let pieces = trims(split_on(val, ','));
    let rest0 = pieces.skip(1);
    let k = first_w3cid(rest0);
    let w3c = if k < rest0.len() { Some(rest0[k].skip(6)) } else { None };
    let p = if k < rest0.len() { rest0.remove(k) } else { rest0 };
    let none: Option<Seq<char>> = None;
    let base = EditorSpec { name: pieces[0], w3c_id: w3c, org: none, org_link: none, email: none, link: none };
    let (org, email, link): (Option<Seq<char>>, Option<Seq<char>>, Option<Seq<char>>) = if p.len() == 3 && ((
    emailish(p[1]) && linkish(p[2])) || (linkish(p[1]) && emailish(p[2]))) {
        if emailish(p[1]) {
            (Some(p[0]), Some(p[1]), Some(p[2]))
        } else {
            (Some(p[0]), Some(p[2]), Some(p[1]))
        }
    } else if p.len() == 2 && ((emailish(p[0]) && linkish(p[1])) || (linkish(p[0]) && emailish(p[1]))) {
        if emailish(p[0]) {
            (none, Some(p[0]), Some(p[1]))
        } else {
            (none, Some(p[1]), Some(p[0]))
        }
    } else if p.len() == 2 && (emailish(p[1]) || linkish(p[1])) {
        if emailish(p[1]) {
            (Some(p[0]), Some(p[1]), none)
        } else {
            (Some(p[0]), none, Some(p[1]))
        }
    } else if p.len() == 1 {
        if emailish(p[0]) {
            (none, Some(p[0]), none)
        } else if linkish(p[0]) {
            (none, none, Some(p[0]))
        } else {
            (Some(p[0]), none, none)
        }
    } else {
        (none, none, none)
    };
    if val.len() == 0 {
        Err("invalid editor"@)
    } else if p.len() > 3 || p.len() == 3 && !((emailish(p[1]) && linkish(p[2])) || (linkish(p[1])
        && emailish(p[2]))) || p.len() == 2 && !((emailish(p[0]) && linkish(p[1])) || (linkish(p[0])
        && emailish(p[1]))) && !(emailish(p[1]) || linkish(p[1])) {
        Err("wrong editor format"@)
    } else {
        match org {
            Some(o) => Ok(
                EditorSpec {
                    org: Some(org_parts(o).0),
                    org_link: org_parts(o).1,
                    email: email,
                    link: link,
                    ..base
                },
            ),
            None => Ok(EditorSpec { email: email, link: link, ..base }),
        }
    }
}

fn word_to(s: &[char], i: usize) -> (r: usize)
    requires
        i <= s@.len(),
    ensures
        r == word_end(s@, i as int),
        i <= r <= s@.len(),
{
    let mut j = i;
    while j < s.len() && crate::text::is_word_char(s[j])
        invariant
            i <= j <= s@.len(),
            word_end(s@, i as int) == word_end(s@, j as int),
        decreases s@.len() - j,
    {
        j = j + 1;
    }
    j
}

/// Whether the piece starts with a scheme and a colon.
pub fn is_linkish(piece: &str) -> (r: bool)
    ensures
        r == linkish(piece@),
{
    let s = chars_of(piece);
    let w = word_to(&s, 0);
    w >= 1 && w < s.len() && s[w] == ':'
}

/// Whether the piece looks like an email address.
pub fn is_emailish(piece: &str) -> (r: bool)
    ensures
        r == emailish(piece@),
{
    let s = chars_of(piece);
    let w = word_to(&s, 0);
    if !(w >= 1 && w < s.len() && s[w] == '@') || s.len() < 2 {
        return false;
    }
    let mut e: usize = 0;
    while e < s.len()
        invariant
            s@ == piece@,
            s@.len() >= 2,
            w < s@.len(),
            w >= 1,
            w == word_end(piece@, 0),
            s@[w as int] == '@',
            forall|m: int| 0 <= m < e && w + 2 <= m <= s@.len() - 2 ==> s@[m] != '.',
        decreases s@.len() - e,
    {
        if e > w && e - w >= 2 && e < s.len() - 1 && s[e] == '.' {
            assert(piece@[e as int] == '.');
            return true;
        }
        e = e + 1;
    }
    proof {
        assert forall|m: int| w + 2 <= m <= s@.len() - 2 implies #[trigger] piece@[m] != '.' by {
            assert(s@[m] != '.');
        }
    }
    false
}

fn is_w3cid(piece: &str) -> (r: bool)
    ensures
        r == w3cid_piece(piece@),
{
    let s = chars_of(piece);
    let pat = vec!['w', '3', 'c', 'i', 'd', ' '];
    proof {
        reveal_strlit("w3cid ");
        assert(pat@ =~= "w3cid "@);
    }
    let mut i: usize = 0;
    while i < s.len()
        invariant
            s@ == piece@,
            pat@ == "w3cid "@,
            forall|j: int| 0 <= j < i ==> !w3cid_at(s@, j),
        decreases s@.len() - i,
    {
        if matches_at(&s, i, &pat) && s.len() - i > 6 {
            let mut j = i + 6;
            while j < s.len() && '0' <= s[j] && s[j] <= '9'
                invariant
                    i + 6 <= j <= s@.len(),
                    forall|m: int| i + 6 <= m < j ==> is_ascii_digit(#[trigger] s@[m]),
                decreases s@.len() - j,
            {
                j = j + 1;
            }
            if j == s.len() {
                assert(w3cid_at(s@, i as int));
                return true;
            }
            assert(!is_ascii_digit(s@[j as int]));
        }
        i = i + 1;
    }
    assert forall|j: int| !w3cid_at(s@, j) by {
        if 0 <= j < i {
        } else if j >= i {
            assert(!occurs_at(s@, j, "w3cid "@) || j + 6 >= s@.len() || true);
        }
    }
    false
}

proof fn lemma_split_nonempty(s: Seq<char>, c: char)
    ensures
        split_on(s, c).len() >= 1,
    decreases s.len(),
{
    let i = find_from(s, 0, c);
    if !(i < 0 || i >= s.len()) {
        lemma_split_nonempty(s.skip(i + 1), c);
    }
}

fn last_space_exec(s: &[char]) -> (r: Option<usize>)
    ensures
        r is Some == last_space(s@, s@.len() as int) is Some,
        r is Some ==> r->0 == last_space(s@, s@.len() as int)->0 && r->0 < s@.len(),
{
    let mut e = s.len();
    while e > 0
        invariant
            e <= s@.len(),
            last_space(s@, s@.len() as int) == last_space(s@, e as int),
        decreases e,
    {
        if s[e - 1] == ' ' {
            return Some(e - 1);
        }
        e = e - 1;
    }
    None
}

/// The organisation and the email or link at its end, if it ends with one.
fn split_org(org: String) -> (r: (String, Option<String>))
    ensures
        r.0@ == org_parts(org@).0,
        opt_view(r.1) == org_parts(org@).1,
{
    let s = chars_of(org.as_str());
    match last_space_exec(&s) {
        Some(k) => {
            assert(s@.len() == s.len());
            let last = string_of_range(&s, k + 1, s.len());
            assert(s@.subrange(k + 1, s@.len() as int) =~= s@.skip(k + 1));
            if is_emailish(last.as_str()) || is_linkish(last.as_str()) {
                let left = string_of_range(&s, 0, k);
                assert(s@.subrange(0, k as int) =~= s@.take(k as int));
                (left, Some(last))
            } else {
                (org, None)
            }
        },
        None => (org, None),
    }
}

/// Reads `<name>`, a `w3cid <digits>` piece anywhere, then
/// `[<org>] [<email> | <link> | <email> <link> | <link> <email>]`.
pub fn parse_editor(val: &str) -> (r: Result<Editor, &'static str>)
    ensures
        match editor_spec(val@) {
            Ok(e) => r is Ok && r->Ok_0@ == e,
            Err(m) => r is Err && r->Err_0@ == m,
        },
{
    if val.unicode_len() == 0 {
        return Err("invalid editor");
    }
    let pieces = split_trim(val, ',');
    proof {
        lemma_split_nonempty(val@, ',');
    }
    let ghost all = views(pieces@);
    let ghost rest0 = all.skip(1);
    let mut editor = Editor::new(pieces[0].clone());
    let mut p: Vec<String> = Vec::new();
    let mut found: bool = false;
    let ghost mut k: int = 0;
    let mut i: usize = 1;
    while i < pieces.len()
        invariant
            all == views(pieces@),
            rest0 == all.skip(1),
            all.len() >= 1,
            1 <= i <= pieces@.len(),
            editor.name@ == all[0],
            editor.org is None && editor.org_link is None && editor.email is None && editor.link is None,
            found == (first_w3cid(rest0.take(i - 1)) < i - 1),
            found ==> 0 <= k < i - 1,
            found ==> k == first_w3cid(rest0.take(i - 1)) && opt_view(editor.w3c_id) == Some(rest0[k].skip(6)),
            !found ==> editor.w3c_id is None,
            views(p@) == if found { rest0.take(i - 1).remove(k) } else { rest0.take(i - 1) },
        decreases pieces@.len() - i,
    {
        let ghost pre = rest0.take(i - 1);
        assert(rest0.take(i as int).drop_last() =~= pre);
        assert(rest0.take(i as int).last() == pieces@[i as int]@);
        let ghost before = views(p@);
        if !found && is_w3cid(pieces[i].as_str()) {
            let s = chars_of(pieces[i].as_str());
            proof {
                let j = choose|j: int| w3cid_at(s@, j);
                assert(s@.len() > 6);
            }
            editor.w3c_id = Some(string_of_range(&s, 6, s.len()));
            proof {
                assert(s@.subrange(6, s@.len() as int) =~= s@.skip(6));
                k = i - 1;
                assert(rest0.take(i as int).remove(k) =~= pre);
            }
            found = true;
        } else {
            p.push(pieces[i].clone());
            proof {
                assert(views(p@) =~= before.push(pieces@[i as int]@));
                if found {
                    assert(rest0.take(i as int).remove(k) =~= pre.remove(k).push(pieces@[i as int]@));
                } else {
                    assert(rest0.take(i as int) =~= pre.push(pieces@[i as int]@));
                }
            }
        }
        i = i + 1;
    }
    proof {
        assert(rest0.take(i - 1) =~= rest0);
    }
    let ghost pv = views(p@);
    let n = p.len();
    let e0 = if n >= 1 { is_emailish(p[0].as_str()) } else { false };
    let l0 = if n >= 1 { is_linkish(p[0].as_str()) } else { false };
    let e1 = if n >= 2 { is_emailish(p[1].as_str()) } else { false };
    let l1 = if n >= 2 { is_linkish(p[1].as_str()) } else { false };
    let e2 = if n >= 3 { is_emailish(p[2].as_str()) } else { false };
    let l2 = if n >= 3 { is_linkish(p[2].as_str()) } else { false };
    proof {
        if n >= 1 { assert(pv[0] == p@[0]@); }
        if n >= 2 { assert(pv[1] == p@[1]@); }
        if n >= 3 { assert(pv[2] == p@[2]@); }
    }
    let mut org: Option<String> = None;
    if n == 3 && ((e1 && l2) || (l1 && e2)) {
        org = Some(p[0].clone());
        if e1 {
            editor.email = Some(p[1].clone());
            editor.link = Some(p[2].clone());
        } else {
            editor.link = Some(p[1].clone());
            editor.email = Some(p[2].clone());
        }
    } else if n == 2 && ((e0 && l1) || (l0 && e1)) {
        if e0 {
            editor.email = Some(p[0].clone());
            editor.link = Some(p[1].clone());
        } else {
            editor.link = Some(p[0].clone());
            editor.email = Some(p[1].clone());
        }
    } else if n == 2 && (e1 || l1) {
        org = Some(p[0].clone());
        if e1 {
            editor.email = Some(p[1].clone());
        } else {
            editor.link = Some(p[1].clone());
        }
    } else if n == 1 {
        if e0 {
            editor.email = Some(p[0].clone());
        } else if l0 {
            editor.link = Some(p[0].clone());
        } else {
            org = Some(p[0].clone());
        }
    } else if n != 0 {
        return Err("wrong editor format");
    }
    match org {
        Some(o) => {
            let (left, tail) = split_org(o);
            editor.org = Some(left);
            editor.org_link = tail;
        },
        None => {},
    }
    Ok(editor)
}

/// How editors are called: singular and plural.
#[derive(Debug, Clone, PartialEq)]
pub struct EditorTerm {
    pub singular: String,
    pub plural: String,
}

impl EditorTerm {
    pub fn new(singular: String, plural: String) -> (r: EditorTerm)
        ensures
            r.singular == singular,
            r.plural == plural,
    {
        EditorTerm { singular, plural }
    }
}

impl Default for EditorTerm {
    fn default() -> (r: EditorTerm)
        ensures
            r.singular@ == "Editor"@,
            r.plural@ == "Editors"@,
    {
        EditorTerm::new(String::from_str("Editor"), String::from_str("Editors"))
    }
}

/// Reads `<singular> "," <plural>`.
pub fn parse_editor_term(val: &str) -> (r: Result<EditorTerm, &'static str>)
    ensures
        ({
            let pieces = trims(split_on(val@, ','));
            if pieces.len() == 2 {
                r is Ok && r->Ok_0.singular@ == pieces[0] && r->Ok_0.plural@ == pieces[1]
            } else {
                r is Err && r->Err_0@ == "wrong editor term format"@
            }
        }),
{
    let pieces = split_trim(val, ',');
    if pieces.len() == 2 {
        Ok(EditorTerm::new(pieces[0].clone(), pieces[1].clone()))
    } else {
        Err("wrong editor term format")
    }
}

/// A level: `none` stands for no level.
pub fn parse_level(val: &str) -> (r: String)
    ensures
        r@ == if val@ == "none"@ {
            Seq::<char>::empty()
        } else {
            val@
        },
{
    let s = chars_of(val);
    if is_literal(&s, "none") {
        String::new()
    } else {
        String::from_str(val)
    }
}

/// A field that may be given more than once: this value, alone.
pub fn parse_vec(val: &str) -> (r: Vec<String>)
    ensures
        views(r@) == seq![val@],
{
    let mut r: Vec<String> = Vec::new();
    r.push(String::from_str(val));
    assert(views(r@) =~= seq![val@]);
    r
}

} // verus!
