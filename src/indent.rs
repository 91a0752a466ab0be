//! Indentation units: a tab, or `tab_size` consecutive spaces.
use vstd::prelude::*;
use crate::text::{blank, chars_of, is_blank, string_of_range};

verus! {

/// `n` spaces.
pub open spec fn spaces(n: nat) -> Seq<char> {
    Seq::new(n, |i: int| ' ')
}

/// Length of the indentation unit that starts `s`, if one does.
pub open spec fn unit_len(s: Seq<char>, tab_size: nat) -> nat {
    if s.len() > 0 && s[0] == '\t' {
        1
    } else if 0 < tab_size <= s.len() && s.subrange(0, tab_size as int) == spaces(tab_size) {
        tab_size
    } else {
        0
    }
}

/// Number of whole indentation units at the start of `s`.
pub open spec fn indent_level(s: Seq<char>, tab_size: nat) -> nat
    decreases s.len(),
{
    let u = unit_len(s, tab_size);
    if u == 0 || u > s.len() {
        0
    } else {
        1 + indent_level(s.skip(u as int), tab_size)
    }
}

/// `s` with `level` indentation units removed, or `None` when it has fewer.
pub open spec fn strip_units(s: Seq<char>, level: nat, tab_size: nat) -> Option<Seq<char>>
    decreases level,
{
    if level == 0 {
        Some(s)
    } else {
        let u = unit_len(s, tab_size);
        if u == 0 {
            None
        } else {
            strip_units(s.skip(u as int), (level - 1) as nat, tab_size)
        }
    }
}

/// A line that does not start with an indentation unit has none to give:
/// removing one or more units from it fails, unless it is blank.
pub proof fn lemma_unindented_line_cannot_be_trimmed(s: Seq<char>, level: nat, tab_size: nat)
    requires
        level >= 1,
        unit_len(s, tab_size) == 0,
    ensures
        strip_units(s, level, tab_size) is None,
{
}

/// The line kept as it is: too little indentation.
#[derive(Debug, Clone, Copy, PartialEq, Eq)]
pub struct IndentError;

fn unit_at(s: &[char], at: usize, tab_size: usize) -> (r: usize)
    requires
        at <= s@.len(),
    ensures
        r == unit_len(s@.skip(at as int), tab_size as nat),
        r <= s@.len() - at,
{
    let ghost rest = s@.skip(at as int);
    if at < s.len() && s[at] == '\t' {
        return 1;
    }
    if tab_size == 0 || tab_size > s.len() - at {
        return 0;
    }
    let mut i: usize = 0;
    while i < tab_size
        invariant
            0 < tab_size <= rest.len(),
            at + tab_size <= s.len(),
            rest.len() == s@.len() - at,
            rest[0] != '\t',
            rest == s@.skip(at as int),
            i <= tab_size,
            forall|j: int| 0 <= j < i ==> rest[j] == ' ',
        decreases tab_size - i,
    {
        assert(rest[i as int] == s@[at + i]);
        if s[at + i] != ' ' {
            assert(rest.subrange(0, tab_size as int)[i as int] != spaces(tab_size as nat)[i as int]);
            return 0;
        }
        i = i + 1;
    }
    assert(rest.subrange(0, tab_size as int) =~= spaces(tab_size as nat));
    tab_size
}

proof fn lemma_level_bound(s: Seq<char>, tab_size: nat)
    ensures
        indent_level(s, tab_size) <= s.len(),
    decreases s.len(),
{
    let u = unit_len(s, tab_size);
    if u != 0 && u <= s.len() {
        lemma_level_bound(s.skip(u as int), tab_size);
    }
}

/// Counts the indentation units at the start of `text`: one per tab, one per
/// run of exactly `tab_size` spaces, up to the first character that is neither.
pub fn get_indent_level(text: &str, tab_size: u32) -> (r: u32)
    requires
        tab_size > 0,
        text@.len() <= u32::MAX,
    ensures
        r == indent_level(text@, tab_size as nat),
{
    let s = chars_of(text);
    level_of(&s, tab_size)
}

/// [`get_indent_level`] over characters.
pub fn level_of(s: &[char], tab_size: u32) -> (r: u32)
    requires
        tab_size > 0,
        s@.len() <= u32::MAX,
    ensures
        r == indent_level(s@, tab_size as nat),
{
    let mut level: u32 = 0;
    let mut at: usize = 0;
    proof {
        lemma_level_bound(s@, tab_size as nat);
        assert(s@.skip(0) =~= s@);
    }
    loop
        invariant
            at <= s.len(),
            s@.len() <= u32::MAX,
            level + indent_level(s@.skip(at as int), tab_size as nat) == indent_level(s@, tab_size as nat),
            indent_level(s@, tab_size as nat) <= s@.len(),
        decreases s@.len() - at,
    {
        let u = unit_at(s, at, tab_size as usize);
        if u == 0 || u > s.len() - at {
            return level;
        }
        proof {
            assert(s@.skip(at as int).skip(u as int) =~= s@.skip(at + u));
        }
        level = level + 1;
        at = at + u;
    }
}

/// Removes `indent_level` indentation units from the start of `text`. A blank
/// line is handed back unchanged; a line with fewer units is an error.
pub fn trim_indent(text: &str, indent_level: u32, tab_size: u32) -> (r: Result<String, IndentError>)
    requires
        tab_size > 0,
    ensures
        is_blank(text@) ==> r is Ok && r->Ok_0@ == text@,
        !is_blank(text@) ==> match strip_units(text@, indent_level as nat, tab_size as nat) {
            Some(t) => r is Ok && r->Ok_0@ == t,
            None => r is Err,
        },
{
    let s = chars_of(text);
    trim_chars(&s, indent_level, tab_size)
}

/// [`trim_indent`] over characters.
pub fn trim_chars(s: &[char], indent_level: u32, tab_size: u32) -> (r: Result<String, IndentError>)
    requires
        tab_size > 0,
    ensures
        is_blank(s@) ==> r is Ok && r->Ok_0@ == s@,
        !is_blank(s@) ==> match strip_units(s@, indent_level as nat, tab_size as nat) {
            Some(t) => r is Ok && r->Ok_0@ == t,
            None => r is Err,
        },
{
    if blank(s) {
        return Ok(string_of_range(s, 0, s.len()));
    }
    match strip_indent(s, indent_level, tab_size) {
        Some(at) => {
            assert(s@.skip(at as int) =~= s@.subrange(at as int, s@.len() as int));
            Ok(string_of_range(s, at, s.len()))
        },
        None => Err(IndentError),
    }
}

/// Where the text of `s` starts once `indent_level` units are removed, or
/// `None` when it has fewer.
pub fn strip_indent(s: &[char], indent_level: u32, tab_size: u32) -> (r: Option<usize>)
    requires
        tab_size > 0,
    ensures
        match strip_units(s@, indent_level as nat, tab_size as nat) {
            Some(t) => r is Some && r->0 <= s@.len() && s@.skip(r->0 as int) == t,
            None => r is None,
        },
{
    let mut at: usize = 0;
    let mut left: u32 = indent_level;
    assert(s@.skip(0) =~= s@);
    while left > 0
        invariant
            at <= s.len(),
            strip_units(s@.skip(at as int), left as nat, tab_size as nat)
                == strip_units(s@, indent_level as nat, tab_size as nat),
        decreases left,
    {
        let u = unit_at(s, at, tab_size as usize);
        if u == 0 {
            return None;
        }
        proof {
            assert(s@.skip(at as int).skip(u as int) =~= s@.skip(at + u));
        }
        at = at + u;
        left = left - 1;
    }
    Some(at)
}
} // verus!
