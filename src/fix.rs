//! Text fixes applied to document text: macros in brackets and typographic
//! apostrophes.
use vstd::prelude::*;
use crate::text::{chars_of, is_ascii_digit, is_ascii_upper, is_word, is_word_char, push_char, str_eq};

verus! {

/// Characters a macro name is made of: `[A-Z0-9-]`.
pub open spec fn is_macro_char(c: char) -> bool {
    is_ascii_upper(c) || is_ascii_digit(c) || c == '-'
}

/// End of the run of macro-name characters that starts at `i`.
pub open spec fn macro_end(s: Seq<char>, i: int) -> int
    decreases s.len() - i,
{
    if 0 <= i < s.len() && is_macro_char(s[i]) {
        macro_end(s, i + 1)
    } else {
        i
    }
}

/// The lowercase form of an ASCII uppercase letter; other characters stay.
pub open spec fn lower_char(c: char) -> char {
    if c == 'A' {
        'a'
    } else if c == 'B' {
        'b'
    } else if c == 'C' {
        'c'
    } else if c == 'D' {
        'd'
    } else if c == 'E' {
        'e'
    } else if c == 'F' {
        'f'
    } else if c == 'G' {
        'g'
    } else if c == 'H' {
        'h'
    } else if c == 'I' {
        'i'
    } else if c == 'J' {
        'j'
    } else if c == 'K' {
        'k'
    } else if c == 'L' {
        'l'
    } else if c == 'M' {
        'm'
    } else if c == 'N' {
        'n'
    } else if c == 'O' {
        'o'
    } else if c == 'P' {
        'p'
    } else if c == 'Q' {
        'q'
    } else if c == 'R' {
        'r'
    } else if c == 'S' {
        's'
    } else if c == 'T' {
        't'
    } else if c == 'U' {
        'u'
    } else if c == 'V' {
        'v'
    } else if c == 'W' {
        'w'
    } else if c == 'X' {
        'x'
    } else if c == 'Y' {
        'y'
    } else if c == 'Z' {
        'z'
    } else {
        c
    }
}

fn lower_char_exec(c: char) -> (r: char)
    ensures
        r == lower_char(c),
{
    if c == 'A' {
        'a'
    } else if c == 'B' {
        'b'
    } else if c == 'C' {
        'c'
    } else if c == 'D' {
        'd'
    } else if c == 'E' {
        'e'
    } else if c == 'F' {
        'f'
    } else if c == 'G' {
        'g'
    } else if c == 'H' {
        'h'
    } else if c == 'I' {
        'i'
    } else if c == 'J' {
        'j'
    } else if c == 'K' {
        'k'
    } else if c == 'L' {
        'l'
    } else if c == 'M' {
        'm'
    } else if c == 'N' {
        'n'
    } else if c == 'O' {
        'o'
    } else if c == 'P' {
        'p'
    } else if c == 'Q' {
        'q'
    } else if c == 'R' {
        'r'
    } else if c == 'S' {
        's'
    } else if c == 'T' {
        't'
    } else if c == 'U' {
        'u'
    } else if c == 'V' {
        'v'
    } else if c == 'W' {
        'w'
    } else if c == 'X' {
        'x'
    } else if c == 'Y' {
        'y'
    } else if c == 'Z' {
        'z'
    } else {
        c
    }
}

/// The lowercase form of a macro name.
pub open spec fn ascii_lower(s: Seq<char>) -> Seq<char> {
    s.map_values(|c: char| lower_char(c))
}

/// A macro's value as plain values.
pub open spec fn macro_views(m: Seq<(String, String)>) -> Seq<(Seq<char>, Seq<char>)> {
    m.map_values(|p: (String, String)| (p.0@, p.1@))
}

/// The value of the first macro named `name`.
pub open spec fn macro_value(m: Seq<(Seq<char>, Seq<char>)>, name: Seq<char>) -> Option<Seq<char>>
    decreases m.len(),
{
    if m.len() == 0 {
        None
    } else if m[0].0 == name {
        Some(m[0].1)
    } else {
        macro_value(m.skip(1), name)
    }
}

/// `s` from position `i` on with each `[NAME]` whose lowercase name is a
/// macro replaced by its value; other bracketed names stay as they are.
pub open spec fn expand_from(s: Seq<char>, i: int, m: Seq<(Seq<char>, Seq<char>)>) -> Seq<char>
    decreases s.len() - i,
{
    if i < 0 || i >= s.len() {
        Seq::empty()
    } else {
        let j = macro_end(s, i + 1);
        if s[i] == '[' && j > i + 1 && j < s.len() && s[j] == ']' {
            match macro_value(m, ascii_lower(s.subrange(i + 1, j))) {
                Some(v) => v + expand_from(s, j + 1, m),
                None => s.subrange(i, j + 1) + expand_from(s, j + 1, m),
            }
        } else {
            seq![s[i]] + expand_from(s, i + 1, m)
        }
    }
}

proof fn lemma_macro_end(s: Seq<char>, i: int)
    requires
        0 <= i <= s.len(),
    ensures
        i <= macro_end(s, i) <= s.len(),
    decreases s.len() - i,
{
    if i < s.len() && is_macro_char(s[i]) {
        lemma_macro_end(s, i + 1);
    }
}

fn macro_lookup(macros: &Vec<(String, String)>, name: &String) -> (r: Option<String>)
    ensures
        match macro_value(macro_views(macros@), name@) {
            Some(v) => r is Some && r->0@ == v,
            None => r is None,
        },
{
    let ghost mv = macro_views(macros@);
    let mut i: usize = 0;
    assert(mv.skip(0) =~= mv);
    while i < macros.len()
        invariant
            mv == macro_views(macros@),
            i <= macros@.len(),
            macro_value(mv.skip(i as int), name@) == macro_value(mv, name@),
        decreases macros@.len() - i,
    {
        assert(mv.skip(i as int)[0] == mv[i as int]);
        if str_eq(&macros[i].0, name) {
            return Some(macros[i].1.clone());
        }
        assert(mv.skip(i as int).skip(1) =~= mv.skip(i + 1));
        i = i + 1;
    }
    None
}

/// Replaces each `[NAME]` (uppercase letters, digits and `-`) whose
/// lowercase name is among `macros` by its value.
pub fn replace_macros(text: &str, macros: &Vec<(String, String)>) -> (r: String)
    ensures
        r@ == expand_from(text@, 0, macro_views(macros@)),
{
    let s = chars_of(text);
    let ghost m = macro_views(macros@);
    let mut out = String::new();
    let mut i: usize = 0;
    while i < s.len()
        invariant
            s@ == text@,
            m == macro_views(macros@),
            i <= s@.len(),
            out@ + expand_from(s@, i as int, m) == expand_from(s@, 0, m),
        decreases s@.len() - i,
    {
        let ghost before = out@;
        let mut j = i + 1;
        while j < s.len() && (('A' <= s[j] && s[j] <= 'Z') || ('0' <= s[j] && s[j] <= '9') || s[j] == '-')
            invariant
                i < s@.len(),
                i + 1 <= j <= s@.len(),
                macro_end(s@, i + 1) == macro_end(s@, j as int),
            decreases s@.len() - j,
        {
            j = j + 1;
        }
        if s[i] == '[' && j > i + 1 && j < s.len() && s[j] == ']' {
            let mut lower = String::new();
            let mut k = i + 1;
            while k < j
                invariant
                    i + 1 <= k <= j < s@.len(),
                    lower@ == ascii_lower(s@.subrange(i + 1, k as int)),
                decreases j - k,
            {
                let l = lower_char_exec(s[k]);
                push_char(&mut lower, l);
                assert(lower@ =~= ascii_lower(s@.subrange(i + 1, k + 1)));
                k = k + 1;
            }
            match macro_lookup(macros, &lower) {
                Some(v) => {
                    out.append(v.as_str());
                },
                None => {
                    let whole = crate::text::string_of_range(&s, i, j + 1);
                    out.append(whole.as_str());
                },
            }
            proof {
                let rest = expand_from(s@, j + 1, m);
                match macro_value(m, ascii_lower(s@.subrange(i + 1, j as int))) {
                    Some(v) => {
                        assert(out@ + rest =~= before + (v + rest));
                    },
                    None => {
                        assert(out@ + rest =~= before + (s@.subrange(i as int, j + 1) + rest));
                    },
                }
            }
            i = j + 1;
        } else {
            push_char(&mut out, s[i]);
            assert(out@ + expand_from(s@, i + 1, m) =~= before + (seq![s@[i as int]] + expand_from(s@, i + 1, m)));
            i = i + 1;
        }
    }
    assert(out@ + expand_from(s@, i as int, m) =~= out@);
    out
}

/// `s` from position `i` on with each apostrophe between two word
/// characters made a typographic one.
pub open spec fn typography_from(s: Seq<char>, i: int) -> Seq<char>
    decreases s.len() - i,
{
    if i < 0 || i >= s.len() {
        Seq::empty()
    } else if i + 2 < s.len() && is_word(s[i]) && s[i + 1] == '\'' && is_word(s[i + 2]) {
        seq![s[i], '\u{2019}', s[i + 2]] + typography_from(s, i + 3)
    } else {
        seq![s[i]] + typography_from(s, i + 1)
    }
}

/// Makes apostrophes between word characters typographic (`’`).
pub fn fix_typography(text: &str) -> (r: String)
    ensures
        r@ == typography_from(text@, 0),
{
    let s = chars_of(text);
    let mut out = String::new();
    let mut i: usize = 0;
    while i < s.len()
        invariant
            s@ == text@,
            i <= s@.len(),
            out@ + typography_from(s@, i as int) == typography_from(s@, 0),
        decreases s@.len() - i,
    {
        let ghost before = out@;
        if s.len() - i > 2 && is_word_char(s[i]) && s[i + 1] == '\'' && is_word_char(s[i + 2]) {
            push_char(&mut out, s[i]);
            push_char(&mut out, '\u{2019}');
            push_char(&mut out, s[i + 2]);
            assert(out@ + typography_from(s@, i + 3) =~= before + (seq![s@[i as int], '\u{2019}', s@[i + 2]]
                + typography_from(s@, i + 3)));
            i = i + 3;
        } else {
            push_char(&mut out, s[i]);
            assert(out@ + typography_from(s@, i + 1) =~= before + (seq![s@[i as int]] + typography_from(s@, i + 1)));
            i = i + 1;
        }
    }
    assert(out@ + typography_from(s@, i as int) =~= out@);
    out
}

} // verus!
