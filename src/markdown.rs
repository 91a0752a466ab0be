//! The block parser: lowers block tokens to markup lines, re-parsing the
//! bodies of list items and quote blocks.
use vstd::prelude::*;
use crate::block::{bulleted, definition, heading, heading_spec, id_suffix, last_id_suffix, numbered, quote};
use crate::indent::trim_chars;
use crate::scan::{find_char, find_from, rtrim, rtrim_end, skip_ws, trim, trim_bounds, ws_end};
use crate::text::{chars_of, string_of, string_of_range};
use crate::token::{Token, TokenKind, TokenStream};
use crate::tokenize::{token_view, tokenize_lines, tokens_from, TokenView};
use crate::block::{bulleted_spec, def_spec, numbered_spec, quote_spec};
use crate::indent::strip_units;
use crate::text::{is_blank, views};

verus! {

/// Why a document could not be parsed.
#[derive(Debug, Clone, Copy, PartialEq, Eq, Structural)]
pub enum MarkdownError {
    /// A line of a list item is indented less than its item.
    Indent,
    /// List items and quote blocks nest deeper than the parser follows.
    TooDeep,
    /// A line too long for its indentation level to be counted.
    LineTooLong,
}

/// How deep list items and quote blocks may nest.
pub const MAX_DEPTH: u32 = 64;

fn lit(s: &str) -> (r: String)
    ensures
        r@ == s@,
{
    String::from_str(s)
}

fn cat(a: &str, b: &str) -> (r: String)
    ensures
        r@ == a@ + b@,
{
    let mut r = String::from_str(a);
    r.append(b);
    r
}

fn cat3(a: &str, b: &str, c: &str) -> (r: String)
    ensures
        r@ == a@ + b@ + c@,
{
    let mut r = String::from_str(a);
    r.append(b);
    r.append(c);
    r
}


proof fn lemma_nth_view(st: TokenStream, j: int)
    requires
        st.wf(),
    ensures
        token_view(st.nth_spec(j)) == tok_at(stream_view(st), j),
        token_view(st.prev_spec()) == tok_before(stream_view(st), st.curr as int),
{
}

/// The tokens of a stream as plain values.
pub open spec fn stream_view(st: TokenStream) -> Seq<TokenView> {
    st.tokens@.map_values(|t: Token| token_view(t))
}

/// Token `j`, or the end token past the last one.
pub open spec fn tok_at(t: Seq<TokenView>, j: int) -> TokenView {
    if 0 <= j < t.len() {
        t[j]
    } else {
        (TokenKind::End, Seq::empty(), u32::MAX as int)
    }
}

/// The token before token `i`: a blank one before the first.
pub open spec fn tok_before(t: Seq<TokenView>, i: int) -> TokenView {
    if i <= 0 {
        (TokenKind::Blank, Seq::empty(), u32::MAX as int)
    } else {
        tok_at(t, i - 1)
    }
}

/// Every line fits the indentation counter.
pub open spec fn fits(lines: Seq<Seq<char>>) -> bool {
    forall|i: int| 0 <= i < lines.len() ==> (#[trigger] lines[i]).len() <= u32::MAX
}

/// A single-line heading's markup.
pub open spec fn single_heading(s: Seq<char>) -> Seq<char> {
    match heading_spec(s) {
        Some(hp) => heading_markup(
            hp.level + 1,
            if hp.close > 0 {
                Some(s.subrange(hp.id_start, hp.id_end))
            } else {
                None
            },
            trim(s.subrange(hp.text_start, hp.text_end)),
        ),
        None => s,
    }
}

/// A two-line heading's markup, from its text line.
pub open spec fn multi_heading(s: Seq<char>, level: int) -> Seq<char> {
    match last_id_suffix(s, s.len() - 1) {
        Some(k) => {
            let m = ws_end(s, k + 1);
            heading_markup(level, Some(s.subrange(m + 1, find_from(s, m + 1, '}'))), trim(s.subrange(0, k)))
        },
        None => heading_markup(level, None, trim(s)),
    }
}

/// The last token of the run of text tokens that starts at `i`.
pub open spec fn para_end(t: Seq<TokenView>, i: int) -> int
    decreases t.len() - i,
{
    if 0 <= i && i + 1 < t.len() && t[i + 1].0 == TokenKind::Text {
        para_end(t, i + 1)
    } else {
        i
    }
}

/// The lines of the paragraph that starts at token `a`.
pub open spec fn paragraph(t: Seq<TokenView>, a: int) -> Seq<Seq<char>> {
    let n = para_end(t, a) - a;
    Seq::new(n as nat, |k: int| para_line(t, a, k)).push(trim_end(para_line(t, a, n)) + "</p>\n"@)
}

pub open spec fn list_of(kind: TokenKind) -> ListKind {
    match kind {
        TokenKind::Numbered => ListKind::Ordered,
        TokenKind::Bulleted => ListKind::Unordered,
        _ => ListKind::Definitions,
    }
}

pub open spec fn is_item_spec(list: ListKind, kind: TokenKind) -> bool {
    match list {
        ListKind::Ordered => kind == TokenKind::Numbered,
        ListKind::Unordered => kind == TokenKind::Bulleted,
        ListKind::Definitions => kind == TokenKind::Dt || kind == TokenKind::Dd,
    }
}

/// The text after an item's marker.
pub open spec fn item_text_spec(list: ListKind, s: Seq<char>) -> Option<Seq<char>> {
    let start = match list {
        ListKind::Ordered => match numbered_spec(s) {
            Some((_, _, t)) => Some(t),
            None => None,
        },
        ListKind::Unordered => bulleted_spec(s),
        ListKind::Definitions => match def_spec(s) {
            Some((_, t)) => Some(t),
            None => None,
        },
    };
    match start {
        Some(t) => Some(s.subrange(t, s.len() as int)),
        None => None,
    }
}

pub open spec fn opt_line(o: Option<Seq<char>>) -> Seq<Seq<char>> {
    match o {
        Some(l) => seq![l],
        None => Seq::empty(),
    }
}

/// The line after token `c` still belongs to the item.
pub open spec fn item_continues_spec(t: Seq<TokenView>, c: int, list: ListKind, top: int) -> bool {
    let n = tok_at(t, c + 1);
    if n.0 == TokenKind::End {
        false
    } else if n.0 == TokenKind::Blank {
        is_item_spec(list, tok_at(t, c + 2).0) || tok_at(t, c + 2).2 > top
    } else {
        n.2 > top
    }
}

/// The line after token `c` starts another item of the list.
pub open spec fn list_continues_spec(t: Seq<TokenView>, c: int, list: ListKind, top: int) -> bool {
    is_item_spec(list, tok_at(t, c + 1).0) && tok_at(t, c + 1).2 == top
}

/// A line with `level` units of indentation removed; blank lines stay.
pub open spec fn trim_spec(s: Seq<char>, level: nat, tab: nat) -> Option<Seq<char>> {
    if is_blank(s) {
        Some(s)
    } else {
        strip_units(s, level, tab)
    }
}

/// The lines of an item after token `c`, one level trimmed, and its last token.
pub open spec fn item_rest(t: Seq<TokenView>, c: int, list: ListKind, top: int, tab: nat) -> Result<(Seq<Seq<char>>, int), MarkdownError>
    decreases t.len() - c,
{
    if c < 0 || c + 1 >= t.len() || !item_continues_spec(t, c, list, top) {
        Ok((Seq::empty(), c))
    } else {
        match trim_spec(t[c + 1].1, (top + 1) as nat, tab) {
            None => Err(MarkdownError::Indent),
            Some(l) => match item_rest(t, c + 1, list, top, tab) {
                Ok((ls, e)) => Ok((seq![l] + ls, e)),
                Err(x) => Err(x),
            },
        }
    }
}

/// The lines of the item that starts at token `c`, and its last token.
pub open spec fn item_spec(t: Seq<TokenView>, c: int, list: ListKind, top: int, tab: nat) -> Result<(Seq<Seq<char>>, int), MarkdownError> {
    match item_rest(t, c, list, top, tab) {
        Ok((ls, e)) => Ok((opt_line(item_text_spec(list, t[c].1)) + ls, e)),
        Err(x) => Err(x),
    }
}

/// The element an item of this kind is wrapped in.
pub open spec fn item_tag(kind: TokenKind) -> Seq<char> {
    match kind {
        TokenKind::Numbered | TokenKind::Bulleted => "li"@,
        TokenKind::Dt => "dt"@,
        _ => "dd"@,
    }
}

/// The value of a `start` attribute: the number without leading zeros, or
/// none for 1.
pub open spec fn skip_zeros(s: Seq<char>, d: int, to: int) -> int
    decreases to - d,
{
    if d + 1 < to && 0 <= d < s.len() && s[d] == '0' {
        skip_zeros(s, d + 1, to)
    } else {
        d
    }
}

pub open spec fn start_spec(s: Seq<char>, from: int, to: int) -> Option<Seq<char>> {
    let neg = s[from] == '-';
    let d0 = if neg { from + 1 } else { from };
    let d = skip_zeros(s, d0, to);
    if d0 >= to {
        None
    } else if !neg && d + 1 == to && s[d] == '1' {
        None
    } else if neg && !(d + 1 == to && s[d] == '0') {
        Some("-"@ + s.subrange(d, to))
    } else {
        Some(s.subrange(d, to))
    }
}

/// A list's opening line.
pub open spec fn list_open(kind: TokenKind, s: Seq<char>) -> Seq<char> {
    let start = if kind == TokenKind::Numbered {
        match numbered_spec(s) {
            Some((a, b, _)) => start_spec(s, a, b),
            None => None,
        }
    } else {
        None
    };
    "<"@ + list_tag(kind) + " data-md"@ + match start {
        Some(n) => " start="@ + n,
        None => Seq::empty(),
    } + ">"@
}

/// The items of a list from token `c` on, each body parsed again, and the
/// list's last token.
pub open spec fn list_items(t: Seq<TokenView>, c: int, list: ListKind, top: int, tab: nat, depth: nat) -> Result<(Seq<Seq<char>>, int), MarkdownError>
    decreases depth, 1nat, t.len() - c,
{
    if depth == 0 || c < 0 || c >= t.len() {
        Err(MarkdownError::TooDeep)
    } else {
        match item_spec(t, c, list, top, tab) {
            Err(x) => Err(x),
            Ok((ls, e)) => match parse_spec(ls, tab, (depth - 1) as nat) {
                Err(x) => Err(x),
                Ok(body) => {
                    let tag = item_tag(t[c].0);
                    let out = seq!["<"@ + tag + " data-md>"@] + body + seq!["</"@ + tag + ">"@];
                    if list_continues_spec(t, e, list, top) && c <= e && e + 1 < t.len() {
                        match list_items(t, e + 1, list, top, tab, depth) {
                            Ok((rest, f)) => Ok((out + rest, f)),
                            Err(x) => Err(x),
                        }
                    } else {
                        Ok((out, e))
                    }
                },
            },
        }
    }
}

/// The list that starts at token `i`, and its last token.
pub open spec fn list_spec(t: Seq<TokenView>, i: int, tab: nat, depth: nat) -> Result<(Seq<Seq<char>>, int), MarkdownError>
    decreases depth, 1nat, t.len() + 1 - i,
{
    if depth == 0 || i < 0 || i >= t.len() {
        Err(MarkdownError::TooDeep)
    } else if t[i].2 == u32::MAX {
        Err(MarkdownError::Indent)
    } else {
        match list_items(t, i, list_of(t[i].0), t[i].2, tab, depth) {
            Ok((items, e)) => Ok((seq![list_open(t[i].0, t[i].1)] + items + seq!["</"@ + list_tag(t[i].0) + ">"@], e)),
            Err(x) => Err(x),
        }
    }
}

/// A quote line's text after its `>`.
pub open spec fn quote_line_text(s: Seq<char>) -> Option<Seq<char>> {
    match quote_spec(s) {
        Some(k) => Some(s.subrange(k, s.len() as int)),
        None => None,
    }
}

/// The quote and text lines after token `c` that belong to a quote block
/// at indentation `top`, and its last token.
pub open spec fn quote_lines(t: Seq<TokenView>, c: int, top: int) -> (Seq<Seq<char>>, int)
    decreases t.len() - c,
{
    let n = tok_at(t, c + 1);
    if c < 0 || c + 1 >= t.len() || n.2 < top {
        (Seq::empty(), c)
    } else if n.0 == TokenKind::QuoteBlock {
        let (ls, e) = quote_lines(t, c + 1, top);
        (opt_line(quote_line_text(n.1)) + ls, e)
    } else if n.0 == TokenKind::Text {
        let (ls, e) = quote_lines(t, c + 1, top);
        (seq![n.1] + ls, e)
    } else {
        (Seq::empty(), c)
    }
}

/// The quote block that starts at token `i`, and its last token.
pub open spec fn quote_block(t: Seq<TokenView>, i: int, tab: nat, depth: nat) -> Result<(Seq<Seq<char>>, int), MarkdownError>
    decreases depth, 1nat, 0int,
{
    if depth == 0 || i < 0 || i >= t.len() {
        Err(MarkdownError::TooDeep)
    } else {
        let (ls, e) = quote_lines(t, i, t[i].2);
        match parse_spec(opt_line(quote_line_text(t[i].1)) + ls, tab, (depth - 1) as nat) {
            Ok(body) => Ok((seq!["<blockquote>"@] + body + seq!["</blockquote>"@], e)),
            Err(x) => Err(x),
        }
    }
}

/// The lines of the block that starts at token `i`, and its last token.
pub open spec fn block_at(t: Seq<TokenView>, i: int, tab: nat, depth: nat) -> Result<(Seq<Seq<char>>, int), MarkdownError>
    decreases depth, 1nat, t.len() + 2,
{
    if i < 0 || i >= t.len() {
        Ok((Seq::empty(), i))
    } else {
        let s = t[i].1;
        match t[i].0 {
            TokenKind::Head => Ok((seq![single_heading(s)], i)),
            TokenKind::Text => {
                let next = tok_at(t, i + 1).0;
                if next == TokenKind::EqualsLine || next == TokenKind::DashLine {
                    Ok((seq![multi_heading(s, if next == TokenKind::EqualsLine { 2int } else { 3int })], i + 1))
                } else if tok_before(t, i).0 == TokenKind::Blank {
                    Ok((paragraph(t, i), para_end(t, i)))
                } else {
                    Ok((seq![s], i))
                }
            },
            TokenKind::HorizontalRule | TokenKind::DashLine => Ok((seq!["<hr>"@], i)),
            TokenKind::Numbered | TokenKind::Bulleted | TokenKind::Dt | TokenKind::Dd => list_spec(t, i, tab, depth),
            TokenKind::QuoteBlock => quote_block(t, i, tab, depth),
            _ => Ok((seq![s], i)),
        }
    }
}

/// The lines of the blocks from token `i` on.
pub open spec fn blocks(t: Seq<TokenView>, i: int, tab: nat, depth: nat) -> Result<Seq<Seq<char>>, MarkdownError>
    decreases depth, 2nat, t.len() - i,
{
    if i < 0 || i >= t.len() || t[i].0 == TokenKind::End {
        Ok(Seq::empty())
    } else {
        match block_at(t, i, tab, depth) {
            Err(x) => Err(x),
            Ok((out, c)) => if i <= c < t.len() {
                match blocks(t, c + 1, tab, depth) {
                    Ok(rest) => Ok(out + rest),
                    Err(x) => Err(x),
                }
            } else {
                Ok(out)
            },
        }
    }
}

/// What parsing source lines gives: markup lines, or why they fail.
pub open spec fn parse_spec(lines: Seq<Seq<char>>, tab: nat, depth: nat) -> Result<Seq<Seq<char>>, MarkdownError>
    decreases depth, 3nat, 0int,
{
    if !fits(lines) {
        Err(MarkdownError::LineTooLong)
    } else {
        blocks(tokens_from(Seq::empty(), lines, tab), 0, tab, depth)
    }
}

pub open spec fn out_view(r: Result<Vec<String>, MarkdownError>) -> Result<Seq<Seq<char>>, MarkdownError> {
    match r {
        Ok(v) => Ok(views(v@)),
        Err(x) => Err(x),
    }
}

/// `<hr>`.
pub fn make_horizontal_rule() -> (r: String)
    ensures
        r@ == "<hr>"@,
{
    lit("<hr>")
}

/// The digit of a heading level.
pub open spec fn level_char(level: int) -> char {
    if level == 2 {
        '2'
    } else if level == 3 {
        '3'
    } else if level == 4 {
        '4'
    } else if level == 5 {
        '5'
    } else {
        '6'
    }
}

/// `<hN id = ID>text</hN>` and a newline; `<hN >text</hN>` without an id.
pub open spec fn heading_markup(level: int, id: Option<Seq<char>>, text: Seq<char>) -> Seq<char> {
    let d = seq![level_char(level)];
    "<h"@ + d + " "@ + match id {
        Some(i) => "id = "@ + i,
        None => Seq::empty(),
    } + ">"@ + text + "</h"@ + d + ">\n"@
}

/// The decimal digit of a heading level.
fn level_digit(level: usize) -> (r: &'static str)
    requires
        2 <= level <= 6,
    ensures
        r@ == seq![level_char(level as int)],
{
    proof {
        reveal_strlit("2");
        reveal_strlit("3");
        reveal_strlit("4");
        reveal_strlit("5");
        reveal_strlit("6");
    }
    if level == 2 {
        "2"
    } else if level == 3 {
        "3"
    } else if level == 4 {
        "4"
    } else if level == 5 {
        "5"
    } else {
        "6"
    }
}

/// `<hN id = ID>text</hN>` followed by a newline; `<hN >text</hN>` without an id.
fn heading_line(level: usize, id: Option<String>, text: &str) -> (r: String)
    requires
        2 <= level <= 6,
    ensures
        r@ == heading_markup(level as int, crate::text::opt_view(id), text@),
{
    let ghost idv = crate::text::opt_view(id);
    let d = level_digit(level);
    let mut r = cat3("<h", d, " ");
    match id {
        Some(id) => {
            r.append("id = ");
            r.append(id.as_str());
        },
        None => {},
    }
    r.append(">");
    r.append(text);
    r.append("</h");
    r.append(d);
    r.append(">\n");
    proof {
        let dd = seq![level_char(level as int)];
        let mid = match idv {
            Some(i) => "id = "@ + i,
            None => Seq::<char>::empty(),
        };
        assert(r@ =~= "<h"@ + dd + " "@ + mid + ">"@ + text@ + "</h"@ + dd + ">\n"@);
    }
    r
}

/// A single-line heading `#{1,5} text [#{1,5} {#id}]`; one `#` is `<h2>`.
pub fn parse_single_line_heading(stream: &mut TokenStream) -> (r: String)
    requires
        old(stream).wf(),
    ensures
        *final(stream) == *old(stream),
        ({
            let s = old(stream).nth_spec(old(stream).curr as int).line@;
            r@ == match heading_spec(s) {
                Some(hp) => heading_markup(
                    hp.level + 1,
                    if hp.close > 0 {
                        Some(s.subrange(hp.id_start, hp.id_end))
                    } else {
                        None
                    },
                    trim(s.subrange(hp.text_start, hp.text_end)),
                ),
                None => s,
            }
        }),
{
    let s = chars_of(stream.curr().line.as_str());
    match heading(&s) {
        Some((p, h, n, a, b)) => {
            let (ta, tb) = trim_bounds(&s, p, h);
            let text = string_of_range(&s, ta, tb);
            let id = if n > 0 {
                Some(string_of_range(&s, a, b))
            } else {
                None
            };
            heading_line(p + 1, id, text.as_str())
        },
        None => stream.curr().line.clone(),
    }
}

/// A text line underlined by `===` (`<h2>`) or `---` (`<h3>`), with an
/// optional `{#id}` at its end. The cursor ends on the underline.
pub fn parse_multi_line_heading(stream: &mut TokenStream) -> (r: String)
    requires
        old(stream).wf(),
        old(stream).curr < old(stream).tokens@.len(),
    ensures
        final(stream).wf(),
        final(stream).tokens == old(stream).tokens,
        final(stream).tab_size == old(stream).tab_size,
        old(stream).curr <= final(stream).curr < final(stream).tokens@.len(),
        old(stream).nth_spec(old(stream).curr + 1).kind != TokenKind::End ==> final(stream).curr == old(stream).curr + 1,
        ({
            let s = old(stream).nth_spec(old(stream).curr as int).line@;
            let level = if old(stream).nth_spec(old(stream).curr + 1).kind == TokenKind::EqualsLine {
                2int
            } else {
                3int
            };
            r@ == match last_id_suffix(s, s.len() - 1) {
                Some(k) => {
                    let m = ws_end(s, k + 1);
                    heading_markup(level, Some(s.subrange(m + 1, find_from(s, m + 1, '}'))), trim(s.subrange(0, k)))
                },
                None => heading_markup(level, None, trim(s)),
            }
        }),
{
    let level: usize = if stream.next().kind == TokenKind::EqualsLine {
        2
    } else {
        3
    };
    let s = chars_of(stream.curr().line.as_str());
    let heading = match id_suffix(&s) {
        Some(k) => {
            let m = skip_ws(&s, k + 1);
            assert(m + 1 < s@.len());
            assert(s@.len() == s.len());
            let c = find_char(&s, m + 1, '}');
            let (ta, tb) = trim_bounds(&s, 0, k);
            let text = string_of_range(&s, ta, tb);
            heading_line(level, Some(string_of_range(&s, m + 1, c)), text.as_str())
        },
        None => {
            let (ta, tb) = trim_bounds(&s, 0, s.len());
            assert(s@.subrange(0, s@.len() as int) =~= s@);
            let text = string_of_range(&s, ta, tb);
            heading_line(level, None, text.as_str())
        },
    };
    if stream.next().kind != TokenKind::End {
        stream.advance();
    }
    heading
}

/// `s` without trailing whitespace.
pub open spec fn trim_end(s: Seq<char>) -> Seq<char> {
    s.take(rtrim_end(s, s.len() as int))
}

/// Line `k` of a paragraph whose first line is token `a`: the first one
/// opens the paragraph.
pub open spec fn para_line(toks: Seq<TokenView>, a: int, k: int) -> Seq<char> {
    if k == 0 {
        "<p>"@ + toks[a].1
    } else {
        toks[a + k].1
    }
}

/// A run of text lines: the first gets `<p>`, the last loses its trailing
/// whitespace and gets `</p>` and a newline. The cursor ends on the last
/// text line.
pub fn parse_paragraph(stream: &mut TokenStream) -> (r: Vec<String>)
    requires
        old(stream).wf(),
        old(stream).curr < old(stream).tokens@.len(),
    ensures
        final(stream).wf(),
        final(stream).tokens == old(stream).tokens,
        final(stream).tab_size == old(stream).tab_size,
        old(stream).curr <= final(stream).curr < final(stream).tokens@.len(),
        forall|j: int| old(stream).curr < j <= final(stream).curr ==> (#[trigger] final(stream).tokens@[j]).kind
            == TokenKind::Text,
        final(stream).nth_spec(final(stream).curr + 1).kind != TokenKind::Text,
        ({
            let a = old(stream).curr as int;
            let n = final(stream).curr - a;
            let toks = stream_view(*old(stream));
            r@.map_values(|l: String| l@) == Seq::new(n as nat, |k: int| para_line(toks, a, k)).push(
                trim_end(para_line(toks, a, n)) + "</p>\n"@,
            )
        }),
{
    let ghost a = stream.curr as int;
    let ghost toks = stream_view(*stream);
    let mut lines: Vec<String> = Vec::new();
    let mut last = cat("<p>", stream.curr().line.as_str());
    while stream.next().kind == TokenKind::Text
        invariant
            stream.wf(),
            stream.tokens == old(stream).tokens,
            toks == stream_view(*old(stream)),
            a == old(stream).curr,
            stream.tab_size == old(stream).tab_size,
            old(stream).curr <= stream.curr < stream.tokens@.len(),
            forall|j: int| a < j <= stream.curr ==> (#[trigger] stream.tokens@[j]).kind == TokenKind::Text,
            lines@.map_values(|l: String| l@) == Seq::new((stream.curr - a) as nat, |k: int| para_line(toks, a, k)),
            last@ == para_line(toks, a, stream.curr - a),
        decreases stream.tokens@.len() - stream.curr,
    {
        let ghost before = lines@.map_values(|l: String| l@);
        let ghost c = stream.curr - a;
        let ghost lv = last@;
        lines.push(last);
        assert(lines@.map_values(|l: String| l@) =~= before.push(lv));
        stream.advance();
        last = stream.curr().line.clone();
        assert(lines@.map_values(|l: String| l@) =~= Seq::new((stream.curr - a) as nat, |k: int| para_line(toks, a, k)));
    }
    let chars = chars_of(last.as_str());
    let end = rtrim(&chars, chars.len());
    let kept = string_of_range(&chars, 0, end);
    let ghost before = lines@.map_values(|l: String| l@);
    lines.push(cat(kept.as_str(), "</p>\n"));
    proof {
        assert(chars@.subrange(0, end as int) =~= trim_end(chars@));
        assert(lines@.map_values(|l: String| l@) =~= before.push(trim_end(last@) + "</p>\n"@));
    }
    lines
}

/// The `start` attribute's value: the marker's number without leading zeros,
/// or `None` when the number is 1.
fn start_number(s: &[char], from: usize, to: usize) -> (r: Option<String>)
    requires
        from < to <= s@.len(),
    ensures
        crate::text::opt_view(r) == start_spec(s@, from as int, to as int),
{
    let neg = s[from] == '-';
    let mut d = if neg {
        from + 1
    } else {
        from
    };
    if d >= to {
        return None;
    }
    let ghost d0 = d as int;
    while d + 1 < to && s[d] == '0'
        invariant
            from <= d < to <= s@.len(),
            skip_zeros(s@, d0, to as int) == skip_zeros(s@, d as int, to as int),
        decreases to - d,
    {
        d = d + 1;
    }
    let all_zero = d + 1 == to && s[d] == '0';
    if !neg && d + 1 == to && s[d] == '1' {
        return None;
    }
    let digits = string_of_range(s, d, to);
    if neg && !all_zero {
        Some(cat("-", digits.as_str()))
    } else {
        Some(digits)
    }
}

/// The element a list of items of this kind is wrapped in.
pub open spec fn list_tag(kind: TokenKind) -> Seq<char> {
    match kind {
        TokenKind::Numbered => "ol"@,
        TokenKind::Bulleted => "ul"@,
        _ => "dl"@,
    }
}

/// Which items a list is made of, and what wraps it.
#[derive(Debug, Clone, Copy, PartialEq, Eq, Structural)]
pub enum ListKind {
    Ordered,
    Unordered,
    Definitions,
}

fn list_kind_of(kind: TokenKind) -> (r: ListKind)
    ensures
        r == match kind {
            TokenKind::Numbered => ListKind::Ordered,
            TokenKind::Bulleted => ListKind::Unordered,
            _ => ListKind::Definitions,
        },
{
    match kind {
        TokenKind::Numbered => ListKind::Ordered,
        TokenKind::Bulleted => ListKind::Unordered,
        _ => ListKind::Definitions,
    }
}

/// A token that starts an item of a list of this kind.
fn is_item(list: ListKind, kind: TokenKind) -> (r: bool)
    ensures
        r ==> kind != TokenKind::End,
        r == is_item_spec(list, kind),
{
    match list {
        ListKind::Ordered => kind == TokenKind::Numbered,
        ListKind::Unordered => kind == TokenKind::Bulleted,
        ListKind::Definitions => kind == TokenKind::Dt || kind == TokenKind::Dd,
    }
}

/// The text after an item's marker, or `None` when the line has no marker.
fn item_text(list: ListKind, s: &[char]) -> (r: Option<String>)
    ensures
        crate::text::opt_view(r) == item_text_spec(list, s@),
{
    let start = match list {
        ListKind::Ordered => match numbered(s) {
            Some((_, _, t)) => Some(t),
            None => None,
        },
        ListKind::Unordered => bulleted(s),
        ListKind::Definitions => match definition(s) {
            Some((_, t)) => Some(t),
            None => None,
        },
    };
    match start {
        Some(t) => Some(string_of_range(s, t, s.len())),
        None => None,
    }
}

/// The next line still belongs to the current item: it is indented past the
/// list, or it is a blank line followed by such a line or by another item.
fn item_continues(stream: &TokenStream, list: ListKind, top: u32) -> (r: bool)
    requires
        stream.wf(),
    ensures
        r ==> stream.nth_spec(stream.curr + 1).kind != TokenKind::End,
        r == item_continues_spec(stream_view(*stream), stream.curr as int, list, top as int),
{
    proof {
        lemma_nth_view(*stream, stream.curr + 1);
        lemma_nth_view(*stream, stream.curr + 2);
    }
    let next = stream.next();
    if next.kind == TokenKind::End {
        return false;
    }
    if next.kind == TokenKind::Blank {
        let after = stream.next_next();
        return is_item(list, after.kind) || after.indent_level > top;
    }
    next.indent_level > top
}

/// The next line starts another item of the list, at the list's indentation.
fn list_continues(stream: &TokenStream, list: ListKind, top: u32) -> (r: bool)
    requires
        stream.wf(),
    ensures
        r ==> stream.nth_spec(stream.curr + 1).kind != TokenKind::End,
        r == list_continues_spec(stream_view(*stream), stream.curr as int, list, top as int),
{
    proof {
        lemma_nth_view(*stream, stream.curr + 1);
    }
    let next = stream.next();
    is_item(list, next.kind) && next.indent_level == top
}

/// The lines of one item, its marker taken off and one level of indentation
/// removed. The cursor ends on the item's last line.
fn parse_item(stream: &mut TokenStream, list: ListKind, top: u32) -> (r: Result<Vec<String>, MarkdownError>)
    requires
        old(stream).wf(),
        old(stream).curr < old(stream).tokens@.len(),
        old(stream).tab_size > 0,
        top < u32::MAX,
    ensures
        final(stream).wf(),
        final(stream).tokens == old(stream).tokens,
        final(stream).tab_size == old(stream).tab_size,
        old(stream).curr <= final(stream).curr < final(stream).tokens@.len(),
        match item_spec(stream_view(*old(stream)), old(stream).curr as int, list, top as int, old(stream).tab_size as nat) {
            Ok((ls, e)) => r is Ok && views(r->Ok_0@) == ls && final(stream).curr == e,
            Err(x) => r is Err && r->Err_0 == x,
        },
{
    let ghost t = stream_view(*stream);
    let ghost c0 = stream.curr as int;
    let ghost tab = stream.tab_size as nat;
    let ghost total = item_rest(t, c0, list, top as int, tab);
    let mut lines: Vec<String> = Vec::new();
    let first = chars_of(stream.curr().line.as_str());
    proof {
        lemma_nth_view(*stream, stream.curr as int);
    }
    match item_text(list, &first) {
        Some(x) => lines.push(x),
        None => {},
    }
    let ghost firstl = views(lines@);
    assert(firstl =~= opt_line(item_text_spec(list, t[c0].1)));
    let ghost mut acc: Seq<Seq<char>> = Seq::empty();
    while item_continues(stream, list, top)
        invariant
            stream.wf(),
            stream.tokens == old(stream).tokens,
            t == stream_view(*stream),
            tab == stream.tab_size as nat,
            total == item_rest(t, c0, list, top as int, tab),
            c0 == old(stream).curr as int,
            firstl == opt_line(item_text_spec(list, t[c0].1)),
            stream.tab_size == old(stream).tab_size,
            stream.tab_size > 0,
            top < u32::MAX,
            old(stream).curr <= stream.curr < stream.tokens@.len(),
            views(lines@) == firstl + acc,
            match item_rest(t, stream.curr as int, list, top as int, tab) {
                Ok((ls, e)) => total == Ok::<(Seq<Seq<char>>, int), MarkdownError>((acc + ls, e)),
                Err(x) => total == Err::<(Seq<Seq<char>>, int), MarkdownError>(x),
            },
        decreases stream.tokens@.len() - stream.curr,
    {
        let ghost c = stream.curr as int;
        stream.advance();
        let s = chars_of(stream.curr().line.as_str());
        proof {
            lemma_nth_view(*stream, stream.curr as int);
        }
        match trim_chars(&s, top + 1, stream.tab_size()) {
            Ok(x) => {
                let ghost before = views(lines@);
                let ghost l = x@;
                lines.push(x);
                proof {
                    assert(views(lines@) =~= before.push(l));
                    match item_rest(t, c + 1, list, top as int, tab) {
                        Ok((ls, e)) => {
                            assert(acc.push(l) + ls =~= acc + (seq![l] + ls));
                        },
                        Err(_) => {},
                    }
                    acc = acc.push(l);
                    assert(firstl + acc =~= before.push(l));
                }
            },
            Err(_) => {
                proof {
                    assert(stream.curr == c + 1);
                    assert(s@ == t[c + 1].1);
                    assert(trim_spec(t[c + 1].1, (top + 1) as nat, tab) is None);
                    assert(item_rest(t, c, list, top as int, tab) == Err::<(Seq<Seq<char>>, int), MarkdownError>(
                        MarkdownError::Indent,
                    ));
                    assert(total == Err::<(Seq<Seq<char>>, int), MarkdownError>(MarkdownError::Indent));
                    assert(t == stream_view(*old(stream)));
                    assert(item_spec(t, c0, list, top as int, tab) == Err::<(Seq<Seq<char>>, int), MarkdownError>(
                        MarkdownError::Indent,
                    ));
                }
                return Err(MarkdownError::Indent);
            },
        }
    }
    proof {
        assert(acc + Seq::<Seq<char>>::empty() =~= acc);
    }
    Ok(lines)
}

/// A list: `<ol>`, `<ul>` or `<dl>` around items wrapped in `<li>`, `<dt>` or
/// `<dd>`, each item's body parsed again. The cursor ends on its last line.
#[verifier::rlimit(60)]
pub fn parse_list(stream: &mut TokenStream, depth: u32) -> (r: Result<Vec<String>, MarkdownError>)
    requires
        old(stream).wf(),
        old(stream).curr < old(stream).tokens@.len(),
        old(stream).tab_size > 0,
    ensures
        final(stream).wf(),
        final(stream).tokens == old(stream).tokens,
        final(stream).tab_size == old(stream).tab_size,
        old(stream).curr <= final(stream).curr < final(stream).tokens@.len(),
        match list_spec(stream_view(*old(stream)), old(stream).curr as int, old(stream).tab_size as nat, depth as nat) {
            Ok((ls, e)) => r is Ok && views(r->Ok_0@) == ls && final(stream).curr == e,
            Err(x) => r is Err && r->Err_0 == x,
        },
    decreases depth, 0nat,
{
    let ghost t = stream_view(*stream);
    let ghost c0 = stream.curr as int;
    let ghost tab = stream.tab_size as nat;
    proof {
        lemma_nth_view(*stream, c0);
    }
    if depth == 0 {
        return Err(MarkdownError::TooDeep);
    }
    let kind = stream.curr().kind;
    let list = list_kind_of(kind);
    let outer = match list {
        ListKind::Ordered => "ol",
        ListKind::Unordered => "ul",
        ListKind::Definitions => "dl",
    };
    assert(outer@ == list_tag(kind));
    let first = chars_of(stream.curr().line.as_str());
    let start = match list {
        ListKind::Ordered => match numbered(&first) {
            Some((a, b, _)) => start_number(&first, a, b),
            None => None,
        },
        _ => None,
    };
    let top = stream.curr().indent_level;
    if top == u32::MAX {
        return Err(MarkdownError::Indent);
    }
    let mut lines: Vec<String> = Vec::new();
    let mut open = cat3("<", outer, " data-md");
    match start {
        Some(n) => {
            open.append(" start=");
            open.append(n.as_str());
        },
        None => {},
    }
    open.append(">");
    assert(open@ =~= list_open(t[c0].0, t[c0].1));
    let ghost open_line = open@;
    lines.push(open);
    let ghost total = list_items(t, c0, list, top as int, tab, depth as nat);
    let ghost mut items: Seq<Seq<char>> = Seq::empty();
    assert(views(lines@) =~= seq![open_line] + items);
    let mut more = true;
    while more
        invariant
            stream.wf(),
            stream.tokens == old(stream).tokens,
            t == stream_view(*stream),
            tab == stream.tab_size as nat,
            c0 == old(stream).curr as int,
            total == list_items(t, c0, list, top as int, tab, depth as nat),
            list == list_of(t[c0].0),
            top as int == t[c0].2,
            stream.tab_size == old(stream).tab_size,
            stream.tab_size > 0,
            top < u32::MAX,
            depth > 0,
            old(stream).curr <= stream.curr < stream.tokens@.len(),
            views(lines@) == seq![open_line] + items,
            more ==> match list_items(t, stream.curr as int, list, top as int, tab, depth as nat) {
                Ok((rest, f)) => total == Ok::<(Seq<Seq<char>>, int), MarkdownError>((items + rest, f)),
                Err(x) => total == Err::<(Seq<Seq<char>>, int), MarkdownError>(x),
            },
            !more ==> total == Ok::<(Seq<Seq<char>>, int), MarkdownError>((items, stream.curr as int)),
        decreases stream.tokens@.len() - stream.curr, if more { 1int } else { 0int },
    {
        let ghost c = stream.curr as int;
        proof {
            lemma_nth_view(*stream, c);
        }
        let item_kind = stream.curr().kind;
        let item_lines = match parse_item(stream, list, top) {
            Ok(v) => v,
            Err(e) => {
                return Err(e);
            },
        };
        let ghost e = stream.curr as int;
        let tag = match item_kind {
            TokenKind::Numbered | TokenKind::Bulleted => "li",
            TokenKind::Dt => "dt",
            _ => "dd",
        };
        assert(tag@ == item_tag(t[c].0));
        let ghost before = views(lines@);
        let open_tag = cat3("<", tag, " data-md>");
        let ghost ot = open_tag@;
        lines.push(open_tag);
        let mut body = match parse_nested(&item_lines, stream.tab_size(), depth - 1) {
            Ok(v) => v,
            Err(x) => {
                return Err(x);
            },
        };
        let ghost bv = views(body@);
        lines.append(&mut body);
        let close_tag = cat3("</", tag, ">");
        let ghost ct = close_tag@;
        lines.push(close_tag);
        let ghost out = seq![ot] + bv + seq![ct];
        proof {
            assert(views(lines@) =~= before + out);
        }
        let cont = list_continues(stream, list, top);
        proof {
            let old_items = items;
            items = items + out;
            assert(views(lines@) =~= seq![open_line] + items);
            if cont {
                match list_items(t, e + 1, list, top as int, tab, depth as nat) {
                    Ok((rest, f)) => {
                        assert(old_items + (out + rest) =~= items + rest);
                    },
                    Err(_) => {},
                }
            }
        }
        if cont {
            stream.advance();
        } else {
            more = false;
        }
    }
    let ghost before = views(lines@);
    let close = cat3("</", outer, ">");
    let ghost cl = close@;
    lines.push(close);
    proof {
        assert(views(lines@) =~= seq![open_line] + items + seq![cl]);
    }
    Ok(lines)
}

/// The text of a quote-block line after its `>`.
fn quote_text(s: &[char]) -> (r: Option<String>)
    ensures
        crate::text::opt_view(r) == quote_line_text(s@),
{
    match quote(s) {
        Some(t) => Some(string_of_range(s, t, s.len())),
        None => None,
    }
}

/// Quote-block and text lines at or past the opening line's indentation,
/// their `>` taken off, parsed again inside `<blockquote>`.
#[verifier::rlimit(60)]
pub fn parse_quote_block(stream: &mut TokenStream, depth: u32) -> (r: Result<Vec<String>, MarkdownError>)
    requires
        old(stream).wf(),
        old(stream).curr < old(stream).tokens@.len(),
        old(stream).tab_size > 0,
    ensures
        final(stream).wf(),
        final(stream).tokens == old(stream).tokens,
        final(stream).tab_size == old(stream).tab_size,
        old(stream).curr <= final(stream).curr < final(stream).tokens@.len(),
        match quote_block(stream_view(*old(stream)), old(stream).curr as int, old(stream).tab_size as nat, depth as nat) {
            Ok((ls, e)) => r is Ok && views(r->Ok_0@) == ls && final(stream).curr == e,
            Err(x) => r is Err && r->Err_0 == x,
        },
    decreases depth, 0nat,
{
    let ghost t = stream_view(*stream);
    let ghost c0 = stream.curr as int;
    proof {
        lemma_nth_view(*stream, c0);
    }
    if depth == 0 {
        return Err(MarkdownError::TooDeep);
    }
    let mut inner: Vec<String> = Vec::new();
    let first = chars_of(stream.curr().line.as_str());
    match quote_text(&first) {
        Some(x) => inner.push(x),
        None => {},
    }
    let ghost firstl = views(inner@);
    assert(firstl =~= opt_line(quote_line_text(t[c0].1)));
    let top = stream.curr().indent_level;
    let ghost total = quote_lines(t, c0, top as int);
    let ghost mut acc: Seq<Seq<char>> = Seq::empty();
    let mut more = true;
    while more
        invariant
            stream.wf(),
            stream.tokens == old(stream).tokens,
            stream.tab_size == old(stream).tab_size,
            t == stream_view(*stream),
            total == quote_lines(t, c0, top as int),
            old(stream).curr <= stream.curr < stream.tokens@.len(),
            views(inner@) == firstl + acc,
            more ==> ({
                let (ls, e) = quote_lines(t, stream.curr as int, top as int);
                total == (acc + ls, e)
            }),
            !more ==> total == (acc, stream.curr as int),
        decreases stream.tokens@.len() - stream.curr, if more { 1int } else { 0int },
    {
        let ghost c = stream.curr as int;
        proof {
            lemma_nth_view(*stream, c + 1);
        }
        let next = stream.next();
        if next.indent_level < top {
            more = false;
            proof {
                assert(acc + Seq::<Seq<char>>::empty() =~= acc);
            }
        } else if next.kind == TokenKind::QuoteBlock {
            stream.advance();
            let s = chars_of(stream.curr().line.as_str());
            let ghost before = views(inner@);
            match quote_text(&s) {
                Some(x) => inner.push(x),
                None => {},
            }
            proof {
                let o = opt_line(quote_line_text(t[c + 1].1));
                assert(views(inner@) =~= before + o);
                let (ls, e) = quote_lines(t, c + 1, top as int);
                assert(acc + (o + ls) =~= (acc + o) + ls);
                acc = acc + o;
            }
        } else if next.kind == TokenKind::Text {
            stream.advance();
            let ghost before = views(inner@);
            inner.push(stream.curr().line.clone());
            proof {
                assert(views(inner@) =~= before.push(t[c + 1].1));
                let (ls, e) = quote_lines(t, c + 1, top as int);
                assert(acc + (seq![t[c + 1].1] + ls) =~= acc.push(t[c + 1].1) + ls);
                acc = acc.push(t[c + 1].1);
                assert(firstl + acc =~= before.push(t[c + 1].1));
            }
        } else {
            more = false;
            proof {
                assert(acc + Seq::<Seq<char>>::empty() =~= acc);
            }
        }
    }
    let mut lines: Vec<String> = Vec::new();
    lines.push(lit("<blockquote>"));
    let mut body = match parse_nested(&inner, stream.tab_size(), depth - 1) {
        Ok(v) => v,
        Err(e) => {
            return Err(e);
        },
    };
    let ghost bv = views(body@);
    lines.append(&mut body);
    lines.push(lit("</blockquote>"));
    proof {
        assert(views(lines@) =~= seq!["<blockquote>"@] + bv + seq!["</blockquote>"@]);
    }
    Ok(lines)
}

/// Every token is a raw or markup-block line, passed through as it is.
pub open spec fn passthrough_only(tokens: Seq<Token>) -> bool {
    forall|i: int| 0 <= i < tokens.len() ==> (#[trigger] tokens[i]).kind == TokenKind::Raw || tokens[i].kind
        == TokenKind::MarkupBlock
}

/// Lowers tokens to markup lines.
proof fn lemma_para_end(t: Seq<TokenView>, a: int, f: int)
    requires
        0 <= a <= f < t.len(),
        forall|j: int| a < j <= f ==> (#[trigger] t[j]).0 == TokenKind::Text,
        !(f + 1 < t.len() && t[f + 1].0 == TokenKind::Text),
    ensures
        para_end(t, a) == f,
    decreases f - a,
{
    if a < f {
        lemma_para_end(t, a + 1, f);
    }
}

/// Lowers tokens to markup lines.
#[verifier::rlimit(80)]
pub fn parse_tokens(tokens: Vec<Token>, tab_size: u32, depth: u32) -> (r: Result<Vec<String>, MarkdownError>)
    requires
        tab_size > 0,
    ensures
        tokens@.len() == 0 ==> r is Ok && r->Ok_0@.len() == 0,
        passthrough_only(tokens@) ==> r is Ok && r->Ok_0@.map_values(|l: String| l@) == tokens@.map_values(
            |t: Token| t.line@,
        ),
        out_view(r) == blocks(tokens@.map_values(|t: Token| token_view(t)), 0, tab_size as nat, depth as nat),
    decreases depth, 1nat,
{
    let mut stream = TokenStream::new(tokens, tab_size);
    let ghost t = stream_view(stream);
    let ghost tab = tab_size as nat;
    let ghost total = blocks(t, 0, tab, depth as nat);
    let mut lines: Vec<String> = Vec::new();
    assert(views(lines@) + Seq::<Seq<char>>::empty() =~= Seq::<Seq<char>>::empty());
    loop
        invariant
            stream.wf(),
            stream.tab_size == tab_size,
            stream.tokens@ == tokens@,
            t == stream_view(stream),
            tab == tab_size as nat,
            total == blocks(t, 0, tab, depth as nat),
            tab_size > 0,
            stream.tokens@.len() == 0 ==> lines@.len() == 0,
            passthrough_only(tokens@) ==> lines@.map_values(|l: String| l@) == tokens@.take(stream.curr as int).map_values(
                |t: Token| t.line@,
            ),
            match blocks(t, stream.curr as int, tab, depth as nat) {
                Ok(rest) => total == Ok::<Seq<Seq<char>>, MarkdownError>(views(lines@) + rest),
                Err(x) => total == Err::<Seq<Seq<char>>, MarkdownError>(x),
            },
        ensures
            stream.tokens@.len() == 0 ==> lines@.len() == 0,
            passthrough_only(tokens@) ==> lines@.map_values(|l: String| l@) == tokens@.map_values(|t: Token| t.line@),
            total == Ok::<Seq<Seq<char>>, MarkdownError>(views(lines@)),
        decreases stream.tokens@.len() - stream.curr,
    {
        let ghost i = stream.curr as int;
        proof {
            lemma_nth_view(stream, i);
            lemma_nth_view(stream, i + 1);
        }
        let kind = stream.curr().kind;
        if kind == TokenKind::End {
            proof {
                if passthrough_only(tokens@) && stream.curr < tokens@.len() {
                    assert(tokens@[stream.curr as int].kind == TokenKind::End);
                }
                assert(tokens@.take(tokens@.len() as int) =~= tokens@);
                if passthrough_only(tokens@) {
                    assert(stream.curr == tokens@.len());
                }
                assert(views(lines@) + Seq::<Seq<char>>::empty() =~= views(lines@));
            }
            break;
        }
        proof {
            if passthrough_only(tokens@) {
                assert(tokens@[stream.curr as int].kind == TokenKind::Raw || tokens@[stream.curr as int].kind
                    == TokenKind::MarkupBlock);
            }
        }
        let ghost before = views(lines@);
        let ghost mut out: Seq<Seq<char>> = Seq::empty();
        match kind {
            TokenKind::Raw | TokenKind::MarkupBlock => {
                lines.push(stream.curr().line.clone());
                proof {
                    out = seq![t[i].1];
                    if passthrough_only(tokens@) {
                        assert(tokens@.take(i + 1) =~= tokens@.take(i).push(tokens@[i]));
                        assert(tokens@.take(i + 1).map_values(|t: Token| t.line@) =~= tokens@.take(i).map_values(
                            |t: Token| t.line@,
                        ).push(tokens@[i].line@));
                    }
                }
            },
            TokenKind::Head => {
                let h = parse_single_line_heading(&mut stream);
                lines.push(h);
                proof {
                    out = seq![single_heading(t[i].1)];
                }
            },
            TokenKind::Text => {
                let next_kind = stream.next().kind;
                if next_kind == TokenKind::EqualsLine || next_kind == TokenKind::DashLine {
                    let h = parse_multi_line_heading(&mut stream);
                    lines.push(h);
                    proof {
                        out = seq![multi_heading(t[i].1, if next_kind == TokenKind::EqualsLine { 2int } else { 3int })];
                    }
                } else if stream.prev().kind == TokenKind::Blank {
                    let mut p = parse_paragraph(&mut stream);
                    proof {
                        lemma_nth_view(stream, stream.curr + 1);
                        assert forall|j: int| i < j <= stream.curr implies (#[trigger] t[j]).0 == TokenKind::Text by {
                            assert(stream.tokens@[j].kind == TokenKind::Text);
                        }
                        lemma_para_end(t, i, stream.curr as int);
                        out = paragraph(t, i);
                    }
                    lines.append(&mut p);
                } else {
                    lines.push(stream.curr().line.clone());
                    proof {
                        out = seq![t[i].1];
                    }
                }
            },
            TokenKind::HorizontalRule | TokenKind::DashLine => {
                lines.push(make_horizontal_rule());
                proof {
                    out = seq!["<hr>"@];
                }
            },
            TokenKind::Numbered | TokenKind::Bulleted | TokenKind::Dt | TokenKind::Dd => {
                let mut l = match parse_list(&mut stream, depth) {
                    Ok(v) => v,
                    Err(e) => {
                        return Err(e);
                    },
                };
                proof {
                    out = views(l@);
                }
                lines.append(&mut l);
            },
            TokenKind::QuoteBlock => {
                let mut q = match parse_quote_block(&mut stream, depth) {
                    Ok(v) => v,
                    Err(e) => {
                        return Err(e);
                    },
                };
                proof {
                    out = views(q@);
                }
                lines.append(&mut q);
            },
            _ => {
                lines.push(stream.curr().line.clone());
                proof {
                    out = seq![t[i].1];
                }
            },
        }
        proof {
            assert(views(lines@) =~= before + out);
            assert(block_at(t, i, tab, depth as nat) == Ok::<(Seq<Seq<char>>, int), MarkdownError>((out, stream.curr as int)));
            match blocks(t, stream.curr + 1, tab, depth as nat) {
                Ok(rest) => {
                    assert(before + (out + rest) =~= views(lines@) + rest);
                },
                Err(_) => {},
            }
        }
        stream.advance();
    }
    Ok(lines)
}

/// Every line is short enough for its indentation level to fit in a `u32`.
fn check_lines(lines: &[String]) -> (r: bool)
    ensures
        r == crate::tokenize::lines_fit(lines@),
{
    let mut i: usize = 0;
    while i < lines.len()
        invariant
            i <= lines@.len(),
            forall|j: int| 0 <= j < i ==> (#[trigger] lines@[j])@.len() <= u32::MAX,
        decreases lines@.len() - i,
    {
        if lines[i].as_str().unicode_len() > 4294967295usize {
            return false;
        }
        i = i + 1;
    }
    true
}

/// [`parse`] with a bound on how deep items and quotes may nest.
pub fn parse_nested(lines: &[String], tab_size: u32, depth: u32) -> (r: Result<Vec<String>, MarkdownError>)
    requires
        tab_size > 0,
    ensures
        lines@.len() == 0 ==> r is Ok && r->Ok_0@.len() == 0,
        !crate::tokenize::lines_fit(lines@) ==> r == Err::<Vec<String>, MarkdownError>(MarkdownError::LineTooLong),
        out_view(r) == parse_spec(views(lines@), tab_size as nat, depth as nat),
    decreases depth, 2nat,
{
    if !check_lines(lines) {
        proof {
            assert(!fits(views(lines@))) by {
                let i = choose|i: int| 0 <= i < lines@.len() && !((#[trigger] lines@[i])@.len() <= u32::MAX);
                assert(views(lines@)[i] == lines@[i]@);
            }
        }
        return Err(MarkdownError::LineTooLong);
    }
    let tokens = tokenize_lines(lines, tab_size);
    proof {
        assert(views(lines@) == lines@.map_values(|l: String| l@));
        assert(fits(views(lines@)));
        assert(tokens@.map_values(|t: Token| token_view(t)) == tokens_from(Seq::empty(), views(lines@), tab_size as nat));
    }
    assert(lines@.len() == 0 ==> tokens@.len() == 0) by {
        if lines@.len() == 0 {
            assert(tokens@.map_values(|t: Token| crate::tokenize::token_view(t)).len() == 0);
        }
    }
    parse_tokens(tokens, tab_size, depth)
}

/// Lowers source lines to markup lines.
pub fn parse(lines: &[String], tab_size: u32) -> (r: Result<Vec<String>, MarkdownError>)
    requires
        tab_size > 0,
    ensures
        lines@.len() == 0 ==> r is Ok && r->Ok_0@.len() == 0,
        !crate::tokenize::lines_fit(lines@) ==> r == Err::<Vec<String>, MarkdownError>(MarkdownError::LineTooLong),
        out_view(r) == parse_spec(views(lines@), tab_size as nat, MAX_DEPTH as nat),
{
    parse_nested(lines, tab_size, MAX_DEPTH)
}

} // verus!
