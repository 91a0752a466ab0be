//! The line grammar of the markup dialect: what kind of block line a line is.
use vstd::prelude::*;
use crate::scan::{ws_end, run_end, find_from, skip_ws, skip_run, find_char, lemma_find_from_bounds};
use crate::text::{is_space, is_space_char, is_word, is_word_char, is_ascii_digit, occurs_at};

verus! {

/// End of the run of ASCII digits that starts at `i`.
pub open spec fn digit_end(s: Seq<char>, i: int) -> int
    decreases s.len() - i,
{
    if 0 <= i < s.len() && is_ascii_digit(s[i]) {
        digit_end(s, i + 1)
    } else {
        i
    }
}

pub open spec fn is_tag_char(c: char) -> bool {
    is_word(c) || c == '-'
}

/// End of the run of tag-name characters that starts at `i`.
pub open spec fn tag_end(s: Seq<char>, i: int) -> int
    decreases s.len() - i,
{
    if 0 <= i < s.len() && is_tag_char(s[i]) {
        tag_end(s, i + 1)
    } else {
        i
    }
}

/// Number of occurrences of `c` in `s`.
pub open spec fn count_char(s: Seq<char>, c: char) -> nat
    decreases s.len(),
{
    if s.len() == 0 {
        0
    } else {
        (if s.last() == c { 1nat } else { 0nat }) + count_char(s.drop_last(), c)
    }
}

/// `s` occurs somewhere in `line`.
pub open spec fn contains(line: Seq<char>, pat: Seq<char>) -> bool {
    exists|i: int| occurs_at(line, i, pat)
}

/// After a list marker ending at `after`: the end of the line, or whitespace
/// and then the item's text. The result is where that text starts.
pub open spec fn item_text_from(s: Seq<char>, after: int) -> Option<int> {
    if after == s.len() {
        Some(after)
    } else if 0 <= after < s.len() && is_space(s[after]) {
        Some(ws_end(s, after))
    } else {
        None
    }
}

/// `N. text`: the bounds of the number (sign included) and where the text starts.
pub open spec fn numbered_spec(s: Seq<char>) -> Option<(int, int, int)> {
    let i = ws_end(s, 0);
    let j = if i < s.len() && s[i] == '-' { i + 1 } else { i };
    let d = digit_end(s, j);
    if d > j && d < s.len() && s[d] == '.' {
        match item_text_from(s, d + 1) {
            Some(t) => Some((i, d, t)),
            None => None,
        }
    } else {
        None
    }
}

/// `* text`, `+ text` or `- text`: where the text starts.
pub open spec fn bulleted_spec(s: Seq<char>) -> Option<int> {
    let i = ws_end(s, 0);
    if i < s.len() && (s[i] == '*' || s[i] == '+' || s[i] == '-') {
        item_text_from(s, i + 1)
    } else {
        None
    }
}

/// `: text` or `:: text`: the number of colons and where the text starts.
pub open spec fn def_spec(s: Seq<char>) -> Option<(int, int)> {
    let i = ws_end(s, 0);
    let e = run_end(s, i, ':');
    if 1 <= e - i <= 2 {
        match item_text_from(s, e) {
            Some(t) => Some((e - i, t)),
            None => None,
        }
    } else {
        None
    }
}

/// `> text`: where the text starts (one whitespace after `>` is dropped).
pub open spec fn quote_spec(s: Seq<char>) -> Option<int> {
    let i = ws_end(s, 0);
    if i < s.len() && s[i] == '>' {
        if i + 1 < s.len() && is_space(s[i + 1]) {
            Some(i + 2)
        } else {
            Some(i + 1)
        }
    } else {
        None
    }
}

/// A line that starts with a start or end tag: the bounds of the tag name.
pub open spec fn markup_spec(s: Seq<char>) -> Option<(int, int)> {
    let i = ws_end(s, 0);
    if i < s.len() && s[i] == '<' {
        let j = if i + 1 < s.len() && s[i + 1] == '/' { i + 2 } else { i + 1 };
        let e = tag_end(s, j);
        if e > j {
            Some((j, e))
        } else {
            None
        }
    } else {
        None
    }
}

/// Three or more `c` and nothing after them but whitespace.
pub open spec fn rule_line(s: Seq<char>, c: char) -> bool {
    run_end(s, 0, c) >= 3 && ws_end(s, run_end(s, 0, c)) == s.len()
}

/// Three or more `c`, with whitespace between them and nothing else.
pub open spec fn spaced_rule(s: Seq<char>, c: char) -> bool {
    &&& s.len() > 0
    &&& s[0] == c
    &&& forall|k: int| 0 <= k < s.len() ==> (#[trigger] s[k] == c || is_space(s[k]))
    &&& count_char(s, c) >= 3
}

pub open spec fn horizontal_rule_spec(s: Seq<char>) -> bool {
    spaced_rule(s, '*') || spaced_rule(s, '-') || spaced_rule(s, '_')
}

/// The parts of a single-line heading `#{1,5} text [#{1,5} {#id}]`.
pub struct HeadingParts {
    /// Number of leading `#`.
    pub level: int,
    pub text_start: int,
    pub text_end: int,
    /// Number of `#` before the id; 0 without an id.
    pub close: int,
    pub id_start: int,
    pub id_end: int,
}

/// The `#{1,5} \s* \{# id \} \s*` tail that starts at `h`.
pub open spec fn heading_tail(s: Seq<char>, h: int) -> Option<(int, int, int)> {
    let q = run_end(s, h, '#');
    let k = ws_end(s, q);
    let c = find_from(s, k + 2, '}');
    if 1 <= q - h <= 5 && k + 1 < s.len() && s[k] == '{' && s[k + 1] == '#' && k + 2 < c
        < s.len() && ws_end(s, c + 1) == s.len() {
        Some((q - h, k + 2, c))
    } else {
        None
    }
}

pub open spec fn heading_spec(s: Seq<char>) -> Option<HeadingParts> {
    let p = run_end(s, 0, '#');
    let h = find_from(s, p, '#');
    if 1 <= p <= 5 && p < s.len() && is_space(s[p]) && h >= p + 2 {
        if h == s.len() {
            Some(HeadingParts { level: p, text_start: p, text_end: h, close: 0, id_start: 0, id_end: 0 })
        } else {
            match heading_tail(s, h) {
                Some((n, a, b)) => Some(
                    HeadingParts { level: p, text_start: p, text_end: h, close: n, id_start: a, id_end: b },
                ),
                None => None,
            }
        }
    } else {
        None
    }
}

/// A heading whose two runs of `#`, where both are present, are equally long.
pub open spec fn single_line_heading_spec(s: Seq<char>) -> bool {
    match heading_spec(s) {
        Some(hp) => hp.close == 0 || hp.close == hp.level,
        None => false,
    }
}

/// `text {#id}` on the text line of a two-line heading: `{` at `k` opens the id.
pub open spec fn id_suffix_at(s: Seq<char>, k: int) -> bool {
    let m = ws_end(s, k + 1);
    let c = find_from(s, m + 1, '}');
    0 <= k < s.len() && s[k] == '{' && m < s.len() && s[m] == '#' && m + 1 < c < s.len()
        && ws_end(s, c + 1) == s.len()
}

/// The last `{` at or before `k` that opens an id suffix.
pub open spec fn last_id_suffix(s: Seq<char>, k: int) -> Option<int>
    decreases k + 1,
{
    if k < 0 {
        None
    } else if id_suffix_at(s, k) {
        Some(k)
    } else {
        last_id_suffix(s, k - 1)
    }
}

pub fn digits_to(s: &[char], i: usize) -> (r: usize)
    requires
        i <= s@.len(),
    ensures
        r == digit_end(s@, i as int),
        i <= r <= s@.len(),
{
    let mut j = i;
    while j < s.len() && '0' <= s[j] && s[j] <= '9'
        invariant
            i <= j <= s@.len(),
            digit_end(s@, i as int) == digit_end(s@, j as int),
        decreases s@.len() - j,
    {
        j = j + 1;
    }
    j
}

fn tag_to(s: &[char], i: usize) -> (r: usize)
    requires
        i <= s@.len(),
    ensures
        r == tag_end(s@, i as int),
        i <= r <= s@.len(),
{
    let mut j = i;
    while j < s.len() && (is_word_char(s[j]) || s[j] == '-')
        invariant
            i <= j <= s@.len(),
            tag_end(s@, i as int) == tag_end(s@, j as int),
        decreases s@.len() - j,
    {
        j = j + 1;
    }
    j
}

fn item_text(s: &[char], after: usize) -> (r: Option<usize>)
    requires
        after <= s@.len(),
    ensures
        r is Some == item_text_from(s@, after as int) is Some,
        r is Some ==> r->0 == item_text_from(s@, after as int)->0 && after <= r->0 <= s@.len(),
{
    if after == s.len() {
        Some(after)
    } else if is_space_char(s[after]) {
        Some(skip_ws(s, after))
    } else {
        None
    }
}

pub fn numbered(s: &[char]) -> (r: Option<(usize, usize, usize)>)
    ensures
        r is Some == numbered_spec(s@) is Some,
        r is Some ==> (r->0).0 == (numbered_spec(s@)->0).0 && (r->0).1 == (numbered_spec(s@)->0).1
            && (r->0).2 == (numbered_spec(s@)->0).2,
        r is Some ==> (r->0).0 < (r->0).1 < (r->0).2 <= s@.len(),
{
    let i = skip_ws(s, 0);
    let j = if i < s.len() && s[i] == '-' { i + 1 } else { i };
    let d = digits_to(s, j);
    if d > j && d < s.len() && s[d] == '.' {
        match item_text(s, d + 1) {
            Some(t) => Some((i, d, t)),
            None => None,
        }
    } else {
        None
    }
}

pub fn bulleted(s: &[char]) -> (r: Option<usize>)
    ensures
        r is Some == bulleted_spec(s@) is Some,
        r is Some ==> r->0 == bulleted_spec(s@)->0,
        r is Some ==> r->0 <= s@.len(),
{
    let i = skip_ws(s, 0);
    if i < s.len() && (s[i] == '*' || s[i] == '+' || s[i] == '-') {
        item_text(s, i + 1)
    } else {
        None
    }
}

pub fn definition(s: &[char]) -> (r: Option<(usize, usize)>)
    ensures
        r is Some == def_spec(s@) is Some,
        r is Some ==> (r->0).0 == (def_spec(s@)->0).0 && (r->0).1 == (def_spec(s@)->0).1,
        r is Some ==> (r->0).1 <= s@.len(),
{
    let i = skip_ws(s, 0);
    let e = skip_run(s, i, ':');
    if 1 <= e - i && e - i <= 2 {
        match item_text(s, e) {
            Some(t) => Some((e - i, t)),
            None => None,
        }
    } else {
        None
    }
}

pub fn quote(s: &[char]) -> (r: Option<usize>)
    ensures
        r is Some == quote_spec(s@) is Some,
        r is Some ==> r->0 == quote_spec(s@)->0,
        r is Some ==> r->0 <= s@.len(),
{
    let i = skip_ws(s, 0);
    if i < s.len() && s[i] == '>' {
        if i + 1 < s.len() && is_space_char(s[i + 1]) {
            Some(i + 2)
        } else {
            Some(i + 1)
        }
    } else {
        None
    }
}

pub fn markup(s: &[char]) -> (r: Option<(usize, usize)>)
    ensures
        r is Some == markup_spec(s@) is Some,
        r is Some ==> (r->0).0 == (markup_spec(s@)->0).0 && (r->0).1 == (markup_spec(s@)->0).1,
        r is Some ==> (r->0).0 < (r->0).1 <= s@.len(),
{
    let i = skip_ws(s, 0);
    if i < s.len() && s[i] == '<' {
        let j = if i + 1 < s.len() && s[i + 1] == '/' { i + 2 } else { i + 1 };
        let e = tag_to(s, j);
        if e > j {
            Some((j, e))
        } else {
            None
        }
    } else {
        None
    }
}

pub fn is_rule_line(s: &[char], c: char) -> (r: bool)
    ensures
        r == rule_line(s@, c),
{
    let e = skip_run(s, 0, c);
    e >= 3 && skip_ws(s, e) == s.len()
}

fn is_spaced_rule(s: &[char], c: char) -> (r: bool)
    ensures
        r == spaced_rule(s@, c),
{
    if s.len() == 0 || s[0] != c {
        return false;
    }
    let mut n: usize = 0;
    let mut k: usize = 0;
    while k < s.len()
        invariant
            k <= s@.len(),
            n == count_char(s@.subrange(0, k as int), c),
            n <= k,
            forall|j: int| 0 <= j < k ==> (#[trigger] s@[j] == c || is_space(s@[j])),
        decreases s@.len() - k,
    {
        assert(s@.subrange(0, k + 1).drop_last() =~= s@.subrange(0, k as int));
        if s[k] == c {
            n = n + 1;
        } else if !is_space_char(s[k]) {
            return false;
        }
        k = k + 1;
    }
    assert(s@.subrange(0, s@.len() as int) =~= s@);
    n >= 3
}

pub fn horizontal_rule(s: &[char]) -> (r: bool)
    ensures
        r == horizontal_rule_spec(s@),
{
    is_spaced_rule(s, '*') || is_spaced_rule(s, '-') || is_spaced_rule(s, '_')
}

fn heading_tail_at(s: &[char], h: usize) -> (r: Option<(usize, usize, usize)>)
    requires
        h <= s@.len(),
    ensures
        r is Some == heading_tail(s@, h as int) is Some,
        r is Some ==> (r->0).0 == (heading_tail(s@, h as int)->0).0 && (r->0).1 == (heading_tail(
            s@,
            h as int,
        )->0).1 && (r->0).2 == (heading_tail(s@, h as int)->0).2,
        r is Some ==> (r->0).1 < (r->0).2 <= s@.len(),
{
    let q = skip_run(s, h, '#');
    let k = skip_ws(s, q);
    if 1 <= q - h && q - h <= 5 && s.len() > 1 && k < s.len() - 1 && s[k] == '{' && s[k + 1] == '#' {
        let c = find_char(s, k + 2, '}');
        if k + 2 < c && c < s.len() && skip_ws(s, c + 1) == s.len() {
            return Some((q - h, k + 2, c));
        }
    }
    proof {
        if k + 1 < s@.len() {
            lemma_find_from_bounds(s@, k + 2, '}');
        }
    }
    None
}

/// The parts of a heading line, when it is one.
pub fn heading(s: &[char]) -> (r: Option<(usize, usize, usize, usize, usize)>)
    ensures
        r is Some == heading_spec(s@) is Some,
        r is Some ==> ({
            let hp = heading_spec(s@)->0;
            &&& (r->0).0 == hp.level
            &&& (r->0).1 == hp.text_end
            &&& (r->0).2 == hp.close
            &&& (r->0).3 == hp.id_start
            &&& (r->0).4 == hp.id_end
        }),
        r is Some ==> 1 <= (r->0).0 < (r->0).1 <= s@.len() && (r->0).3 <= (r->0).4 <= s@.len(),
{
    let p = skip_run(s, 0, '#');
    if !(1 <= p && p <= 5 && p < s.len() && is_space_char(s[p])) {
        return None;
    }
    let h = find_char(s, p, '#');
    if h < p + 2 {
        return None;
    }
    if h == s.len() {
        return Some((p, h, 0, 0, 0));
    }
    match heading_tail_at(s, h) {
        Some((n, a, b)) => Some((p, h, n, a, b)),
        None => None,
    }
}

pub fn single_line_heading(s: &[char]) -> (r: bool)
    ensures
        r == single_line_heading_spec(s@),
{
    match heading(s) {
        Some((p, _h, n, _a, _b)) => n == 0 || n == p,
        None => false,
    }
}

/// The `{` that opens the id of a two-line heading's text line, if any.
pub fn id_suffix(s: &[char]) -> (r: Option<usize>)
    ensures
        r is Some == last_id_suffix(s@, s@.len() - 1) is Some,
        r is Some ==> r->0 == last_id_suffix(s@, s@.len() - 1)->0,
        r is Some ==> r->0 < s@.len() && ({
            let m = ws_end(s@, r->0 + 1);
            let c = find_from(s@, m + 1, '}');
            m + 1 < c < s@.len()
        }),
{
    let mut k = s.len();
    while k > 0
        invariant
            k <= s@.len(),
            last_id_suffix(s@, s@.len() - 1) == last_id_suffix(s@, k - 1),
        decreases k,
    {
        let kk = k - 1;
        if s[kk] == '{' {
            let m = skip_ws(s, kk + 1);
            if m < s.len() && s[m] == '#' {
                let c = find_char(s, m + 1, '}');
                if m + 1 < c && c < s.len() && skip_ws(s, c + 1) == s.len() {
                    return Some(kk);
                }
            }
        }
        k = kk;
    }
    None
}

/// Whether `pat` occurs anywhere in `s`.
pub fn contains_seq(s: &[char], pat: &[char]) -> (r: bool)
    ensures
        r == contains(s@, pat@),
{
    if pat.len() > s.len() {
        return false;
    }
    let last = s.len() - pat.len();
    let mut i: usize = 0;
    loop
        invariant
            last == s@.len() - pat@.len(),
            i <= last,
            forall|j: int| 0 <= j < i ==> !occurs_at(s@, j, pat@),
        decreases last - i,
    {
        if crate::text::matches_at(s, i, pat) {
            return true;
        }
        if i == last {
            return false;
        }
        i = i + 1;
    }
}

} // verus!
