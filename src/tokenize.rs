//! Turns source lines into block tokens, keeping track of raw regions in
//! which lines are passed through untouched.
use vstd::prelude::*;
use crate::block::{
    bulleted, bulleted_spec, contains, contains_seq, def_spec, definition, horizontal_rule,
    horizontal_rule_spec, is_rule_line, markup, markup_spec, numbered, numbered_spec, quote,
    quote_spec, rule_line, single_line_heading, single_line_heading_spec,
};
use crate::indent::{indent_level, level_of};
use crate::scan::{find_char, find_from, run_end, skip_run, skip_ws, ws_end};
use crate::text::{chars_of, eq_lit, matches_at, occurs_at, string_of, string_of_range};
use crate::token::{RawToken, RawTokenKind, Token, TokenKind};

verus! {

/// A raw region as plain values: what opened it, its tag, whether it nests.
pub type RawView = (RawTokenKind, Seq<char>, bool);

/// A token as plain values: kind, line, indentation level.
pub type TokenView = (TokenKind, Seq<char>, int);

pub open spec fn raw_view(r: RawToken) -> RawView {
    (r.kind, r.tag@, r.is_nestable)
}

pub open spec fn token_view(t: Token) -> TokenView {
    (t.kind, t.line@, t.indent_level as int)
}

/// The names of the opaque elements, whose content is never parsed.
pub open spec fn opaque_name(k: int) -> Seq<char> {
    if k == 0 {
        seq!['p', 'r', 'e']
    } else if k == 1 {
        seq!['x', 'm', 'p']
    } else if k == 2 {
        seq!['s', 'c', 'r', 'i', 'p', 't']
    } else {
        seq!['s', 't', 'y', 'l', 'e']
    }
}

/// The line opens the opaque element `k`: `<name` then a space or `>`.
pub open spec fn opens_opaque(s: Seq<char>, k: int) -> bool {
    let i = ws_end(s, 0);
    let n = opaque_name(k).len();
    i < s.len() && s[i] == '<' && occurs_at(s, i + 1, opaque_name(k)) && i + 1 + n < s.len() && (
    s[i + 1 + n] == ' ' || s[i + 1 + n] == '>')
}

pub open spec fn opaque_spec(s: Seq<char>) -> Option<int> {
    if opens_opaque(s, 0) {
        Some(0)
    } else if opens_opaque(s, 1) {
        Some(1)
    } else if opens_opaque(s, 2) {
        Some(2)
    } else if opens_opaque(s, 3) {
        Some(3)
    } else {
        None
    }
}

pub open spec fn close_tag(name: Seq<char>) -> Seq<char> {
    seq!['<', '/'] + name + seq!['>']
}

/// A fence line: three or more backticks or tildes after the indentation and
/// no backtick after them. The result bounds the fence.
pub open spec fn fence_spec(s: Seq<char>) -> Option<(int, int)> {
    let i = ws_end(s, 0);
    if i < s.len() && (s[i] == '`' || s[i] == '~') {
        let e = run_end(s, i, s[i]);
        if e - i >= 3 && find_from(s, e, '`') == s.len() {
            Some((i, e))
        } else {
            None
        }
    } else {
        None
    }
}

/// The tag names of inline elements: a line that starts with one is text.
pub open spec fn is_inline_tag(t: Seq<char>) -> bool {
    t == "a"@ || t == "em"@ || t == "strong"@ || t == "small"@ || t == "s"@ || t == "cite"@ || t
        == "q"@ || t == "dfn"@ || t == "abbr"@ || t == "data"@ || t == "time"@ || t == "code"@
        || t == "var"@ || t == "samp"@ || t == "kbd"@ || t == "sub"@ || t == "sup"@ || t == "i"@
        || t == "b"@ || t == "u"@ || t == "mark"@ || t == "ruby"@ || t == "bdi"@ || t == "bdo"@
        || t == "span"@ || t == "br"@ || t == "wbr"@ || t == "img"@ || t == "meter"@ || t
        == "progress"@ || t == "css"@ || t == "l"@
}

/// The kind of a line outside raw regions, first match winning.
pub open spec fn line_kind(s: Seq<char>) -> TokenKind {
    if s.len() == 0 {
        TokenKind::Blank
    } else if rule_line(s, '=') {
        TokenKind::EqualsLine
    } else if rule_line(s, '-') {
        TokenKind::DashLine
    } else if horizontal_rule_spec(s) {
        TokenKind::HorizontalRule
    } else if single_line_heading_spec(s) {
        TokenKind::Head
    } else if numbered_spec(s) is Some {
        TokenKind::Numbered
    } else if bulleted_spec(s) is Some {
        TokenKind::Bulleted
    } else if def_spec(s) is Some {
        if (def_spec(s)->0).0 == 1 {
            TokenKind::Dt
        } else {
            TokenKind::Dd
        }
    } else if quote_spec(s) is Some {
        TokenKind::QuoteBlock
    } else if markup_spec(s) is Some {
        if is_inline_tag(s.subrange((markup_spec(s)->0).0, (markup_spec(s)->0).1)) {
            TokenKind::Text
        } else {
            TokenKind::MarkupBlock
        }
    } else {
        TokenKind::Text
    }
}

/// The token of a line outside the raw regions' pass-through.
pub open spec fn plain_token(kind: TokenKind, s: Seq<char>, tab_size: nat) -> TokenView {
    if kind == TokenKind::Blank {
        (TokenKind::Blank, Seq::empty(), u32::MAX as int)
    } else {
        (kind, s, indent_level(s, tab_size) as int)
    }
}

/// One tokenizer step: the raw regions after the line, and the line's token.
pub open spec fn step(stack: Seq<RawView>, s: Seq<char>, tab_size: nat) -> (Seq<RawView>, TokenView) {
    let top = stack.last();
    if stack.len() > 0 && top.0 == RawTokenKind::Element && contains(s, top.1) {
        (stack.drop_last(), (TokenKind::Raw, s, u32::MAX as int))
    } else if stack.len() > 0 && top.0 == RawTokenKind::Fenced && top.1.len() > 0 && fence_spec(s) is Some && s[0]
        == top.1[0] && (fence_spec(s)->0).1 - (fence_spec(s)->0).0 >= top.1.len() {
        (stack.drop_last(), (TokenKind::Raw, "</pre>"@, u32::MAX as int))
    } else if stack.len() > 0 && !top.2 {
        (stack, (TokenKind::Raw, s, u32::MAX as int))
    } else if opaque_spec(s) is Some {
        let name = opaque_name(opaque_spec(s)->0);
        let tok = (TokenKind::Raw, s, indent_level(s, tab_size) as int);
        if contains(s, close_tag(name)) {
            (stack, tok)
        } else {
            (stack.push((RawTokenKind::Element, name, opaque_spec(s)->0 == 0)), tok)
        }
    } else if fence_spec(s) is Some {
        let f = fence_spec(s)->0;
        (
            stack.push((RawTokenKind::Fenced, s.subrange(f.0, f.1), false)),
            (TokenKind::Raw, "<pre>"@, indent_level("<pre>"@, tab_size) as int),
        )
    } else if stack.len() > 0 {
        (stack, (TokenKind::Raw, s, indent_level(s, tab_size) as int))
    } else {
        (stack, plain_token(line_kind(s), s, tab_size))
    }
}

/// The tokens of `lines`, starting with the raw regions `stack` open.
pub open spec fn tokens_from(stack: Seq<RawView>, lines: Seq<Seq<char>>, tab_size: nat) -> Seq<TokenView>
    decreases lines.len(),
{
    if lines.len() == 0 {
        Seq::empty()
    } else {
        let (next, tok) = step(stack, lines[0], tab_size);
        seq![tok] + tokens_from(next, lines.skip(1), tab_size)
    }
}

/// Every line is short enough for its indentation level to fit in a `u32`.
pub open spec fn lines_fit(lines: Seq<String>) -> bool {
    forall|i: int| 0 <= i < lines.len() ==> (#[trigger] lines[i])@.len() <= u32::MAX
}

fn opaque_name_vec(k: usize) -> (r: Vec<char>)
    ensures
        r@ == opaque_name(k as int),
{
    if k == 0 {
        vec!['p', 'r', 'e']
    } else if k == 1 {
        vec!['x', 'm', 'p']
    } else if k == 2 {
        vec!['s', 'c', 'r', 'i', 'p', 't']
    } else {
        vec!['s', 't', 'y', 'l', 'e']
    }
}

fn opens_opaque_at(s: &[char], k: usize) -> (r: bool)
    ensures
        r == opens_opaque(s@, k as int),
{
    let i = skip_ws(s, 0);
    let name = opaque_name_vec(k);
    if i < s.len() && s[i] == '<' && matches_at(s, i + 1, &name) {
        let n = name.len();
        if s.len() - (i + 1) > n {
            s[i + 1 + n] == ' ' || s[i + 1 + n] == '>'
        } else {
            false
        }
    } else {
        false
    }
}

fn opaque(s: &[char]) -> (r: Option<usize>)
    ensures
        r is Some == opaque_spec(s@) is Some,
        r is Some ==> r->0 == opaque_spec(s@)->0,
        r is Some ==> r->0 < 4,
{
    let mut k: usize = 0;
    while k < 4
        invariant
            k <= 4,
            forall|j: int| 0 <= j < k ==> !opens_opaque(s@, j),
        decreases 4 - k,
    {
        if opens_opaque_at(s, k) {
            return Some(k);
        }
        k = k + 1;
    }
    None
}

fn fence(s: &[char]) -> (r: Option<(usize, usize)>)
    ensures
        r is Some == fence_spec(s@) is Some,
        r is Some ==> (r->0).0 == (fence_spec(s@)->0).0 && (r->0).1 == (fence_spec(s@)->0).1,
        r is Some ==> (r->0).0 < (r->0).1 <= s@.len(),
{
    let i = skip_ws(s, 0);
    if i < s.len() && (s[i] == '`' || s[i] == '~') {
        let e = skip_run(s, i, s[i]);
        if e - i >= 3 && find_char(s, e, '`') == s.len() {
            return Some((i, e));
        }
    }
    None
}

fn inline_tag(s: &[char], from: usize, to: usize) -> (r: bool)
    requires
        from <= to <= s@.len(),
    ensures
        r == is_inline_tag(s@.subrange(from as int, to as int)),
{
    eq_lit(s, from, to, "a") || eq_lit(s, from, to, "em") || eq_lit(s, from, to, "strong")
        || eq_lit(s, from, to, "small") || eq_lit(s, from, to, "s") || eq_lit(s, from, to, "cite")
        || eq_lit(s, from, to, "q") || eq_lit(s, from, to, "dfn") || eq_lit(s, from, to, "abbr")
        || eq_lit(s, from, to, "data") || eq_lit(s, from, to, "time") || eq_lit(s, from, to, "code")
        || eq_lit(s, from, to, "var") || eq_lit(s, from, to, "samp") || eq_lit(s, from, to, "kbd")
        || eq_lit(s, from, to, "sub") || eq_lit(s, from, to, "sup") || eq_lit(s, from, to, "i")
        || eq_lit(s, from, to, "b") || eq_lit(s, from, to, "u") || eq_lit(s, from, to, "mark")
        || eq_lit(s, from, to, "ruby") || eq_lit(s, from, to, "bdi") || eq_lit(s, from, to, "bdo")
        || eq_lit(s, from, to, "span") || eq_lit(s, from, to, "br") || eq_lit(s, from, to, "wbr")
        || eq_lit(s, from, to, "img") || eq_lit(s, from, to, "meter") || eq_lit(
        s,
        from,
        to,
        "progress",
    ) || eq_lit(s, from, to, "css") || eq_lit(s, from, to, "l")
}

/// The kind of a line outside raw regions.
pub fn classify(s: &[char]) -> (r: TokenKind)
    ensures
        r == line_kind(s@),
{
    if s.len() == 0 {
        TokenKind::Blank
    } else if is_rule_line(s, '=') {
        TokenKind::EqualsLine
    } else if is_rule_line(s, '-') {
        TokenKind::DashLine
    } else if horizontal_rule(s) {
        TokenKind::HorizontalRule
    } else if single_line_heading(s) {
        TokenKind::Head
    } else if numbered(s).is_some() {
        TokenKind::Numbered
    } else if bulleted(s).is_some() {
        TokenKind::Bulleted
    } else {
        match definition(s) {
            Some((n, _)) => {
                if n == 1 {
                    TokenKind::Dt
                } else {
                    TokenKind::Dd
                }
            },
            None => {
                if quote(s).is_some() {
                    TokenKind::QuoteBlock
                } else {
                    match markup(s) {
                        Some((a, b)) => {
                            if inline_tag(s, a, b) {
                                TokenKind::Text
                            } else {
                                TokenKind::MarkupBlock
                            }
                        },
                        None => TokenKind::Text,
                    }
                }
            },
        }
    }
}

fn lit_string(lit: &str) -> (r: String)
    ensures
        r@ == lit@,
{
    String::from_str(lit)
}

/// Classifies one line given the open raw regions, which it updates.
pub fn tokenize_line(stack: &mut Vec<RawToken>, line: &String, tab_size: u32) -> (r: Token)
    requires
        tab_size > 0,
        line@.len() <= u32::MAX,
    ensures
        ({
            let (next, tok) = step(old(stack)@.map_values(|x: RawToken| raw_view(x)), line@, tab_size as nat);
            &&& final(stack)@.map_values(|x: RawToken| raw_view(x)) == next
            &&& token_view(r) == tok
        }),
{
    let ghost st = old(stack)@.map_values(|x: RawToken| raw_view(x));
    let s = chars_of(line.as_str());
    let n = stack.len();
    if n > 0 {
        let top_kind = stack[n - 1].kind;
        let top_tag = chars_of(stack[n - 1].tag.as_str());
        let top_nest = stack[n - 1].is_nestable;
        assert(st.last() == raw_view(stack@[n - 1]));
        if top_kind == RawTokenKind::Element && contains_seq(&s, &top_tag) {
            stack.pop();
            assert(final(stack)@.map_values(|x: RawToken| raw_view(x)) =~= st.drop_last());
            return Token::new_raw(line.clone());
        }
        if top_kind == RawTokenKind::Fenced && top_tag.len() > 0 {
            if let Some((a, b)) = fence(&s) {
                if s[0] == top_tag[0] && b - a >= top_tag.len() {
                    stack.pop();
                    assert(final(stack)@.map_values(|x: RawToken| raw_view(x)) =~= st.drop_last());
                    return Token::new_raw(lit_string("</pre>"));
                }
            }
        }
        if !top_nest {
            return Token::new_raw(line.clone());
        }
    }
    if let Some(k) = opaque(&s) {
        let name = opaque_name_vec(k);
        let tok = Token::new(TokenKind::Raw, line.clone(), level_of(&s, tab_size));
        let mut closing = vec!['<', '/'];
        let mut i: usize = 0;
        while i < name.len()
            invariant
                i <= name@.len(),
                closing@ == seq!['<', '/'] + name@.subrange(0, i as int),
            decreases name@.len() - i,
        {
            closing.push(name[i]);
            assert(closing@ =~= seq!['<', '/'] + name@.subrange(0, i + 1));
            i = i + 1;
        }
        closing.push('>');
        assert(closing@ =~= close_tag(name@));
        if !contains_seq(&s, &closing) {
            stack.push(RawToken { kind: RawTokenKind::Element, tag: string_of(&name), is_nestable: k == 0 });
            assert(final(stack)@.map_values(|x: RawToken| raw_view(x)) =~= st.push(
                (RawTokenKind::Element, opaque_name(k as int), k == 0),
            ));
        }
        return tok;
    }
    if let Some((a, b)) = fence(&s) {
        let pre = lit_string("<pre>");
        let pre_chars = chars_of(pre.as_str());
        assert(pre_chars@.len() == 5) by {
            reveal_strlit("<pre>");
        }
        let level = level_of(&pre_chars, tab_size);
        stack.push(RawToken { kind: RawTokenKind::Fenced, tag: string_of_range(&s, a, b), is_nestable: false });
        assert(final(stack)@.map_values(|x: RawToken| raw_view(x)) =~= st.push(
            (RawTokenKind::Fenced, s@.subrange(a as int, b as int), false),
        ));
        return Token::new(TokenKind::Raw, pre, level);
    }
    if n > 0 {
        return Token::new(TokenKind::Raw, line.clone(), level_of(&s, tab_size));
    }
    let kind = classify(&s);
    if kind == TokenKind::Blank {
        Token::new_blank()
    } else {
        Token::new(kind, line.clone(), level_of(&s, tab_size))
    }
}

/// Turns lines into block tokens, one token per line.
pub fn tokenize_lines(lines: &[String], tab_size: u32) -> (r: Vec<Token>)
    requires
        tab_size > 0,
        lines_fit(lines@),
    ensures
        r@.map_values(|t: Token| token_view(t)) == tokens_from(
            Seq::empty(),
            lines@.map_values(|l: String| l@),
            tab_size as nat,
        ),
{
    let ghost all = lines@.map_values(|l: String| l@);
    let mut stack: Vec<RawToken> = Vec::new();
    let mut tokens: Vec<Token> = Vec::new();
    let mut i: usize = 0;
    assert(all.skip(0) =~= all);
    assert(stack@.map_values(|x: RawToken| raw_view(x)) =~= Seq::<RawView>::empty());
    assert(tokens@.map_values(|t: Token| token_view(t)) + tokens_from(Seq::empty(), all, tab_size as nat)
        =~= tokens_from(Seq::empty(), all, tab_size as nat));
    while i < lines.len()
        invariant
            tab_size > 0,
            lines_fit(lines@),
            all == lines@.map_values(|l: String| l@),
            i <= lines@.len(),
            tokens@.map_values(|t: Token| token_view(t)) + tokens_from(
                stack@.map_values(|x: RawToken| raw_view(x)),
                all.skip(i as int),
                tab_size as nat,
            ) == tokens_from(Seq::empty(), all, tab_size as nat),
        decreases lines@.len() - i,
    {
        let ghost before = stack@.map_values(|x: RawToken| raw_view(x));
        let ghost old_tokens = tokens@.map_values(|t: Token| token_view(t));
        assert(lines@[i as int]@.len() <= u32::MAX);
        let tok = tokenize_line(&mut stack, &lines[i], tab_size);
        tokens.push(tok);
        proof {
            assert(all.skip(i as int)[0] == lines@[i as int]@);
            assert(all.skip(i as int).skip(1) =~= all.skip(i + 1));
            assert(tokens@.map_values(|t: Token| token_view(t)) =~= old_tokens.push(token_view(tok)));
            assert(old_tokens.push(token_view(tok)) + tokens_from(
                stack@.map_values(|x: RawToken| raw_view(x)),
                all.skip(i + 1),
                tab_size as nat,
            ) =~= old_tokens + tokens_from(before, all.skip(i as int), tab_size as nat));
        }
        i = i + 1;
    }
    proof {
        assert(all.skip(i as int) =~= Seq::<Seq<char>>::empty());
        assert(tokens@.map_values(|t: Token| token_view(t)) + Seq::<TokenView>::empty()
            =~= tokens@.map_values(|t: Token| token_view(t)));
    }
    tokens
}

} // verus!
