//! Removal of `<!-- ... -->` comments from source lines, comments that span
//! lines included.
use vstd::prelude::*;
use crate::scan::{rtrim, rtrim_end};
use crate::text::{blank, chars_of, is_blank, matches_at, occurs_at, string_of_range};

verus! {

broadcast use vstd::string::group_string_axioms;

/// A source line and its line number.
#[derive(Debug, Clone, PartialEq)]
pub struct Line {
    pub index: usize,
    pub text: String,
}

/// First position at or after `from` where `pat` occurs; `None` if none.
pub open spec fn first_occurrence(s: Seq<char>, pat: Seq<char>, from: int) -> Option<int>
    decreases s.len() + 1 - from,
{
    if from < 0 || from > s.len() || from + pat.len() > s.len() {
        None
    } else if occurs_at(s, from, pat) {
        Some(from)
    } else {
        first_occurrence(s, pat, from + 1)
    }
}

pub open spec fn open_mark() -> Seq<char> {
    seq!['<', '!', '-', '-']
}

pub open spec fn close_mark() -> Seq<char> {
    seq!['-', '-', '>']
}

/// The text outside comments, and whether a comment is still open at the
/// end, starting inside a comment when `in_comment`.
pub open spec fn strip_comments(s: Seq<char>, in_comment: bool) -> (Seq<char>, bool)
    decreases s.len(), if in_comment { 0nat } else { 1nat },
{
    if in_comment {
        match first_occurrence(s, close_mark(), 0) {
            Some(i) => if 0 <= i && i + 3 <= s.len() {
                strip_comments(s.skip(i + 3), false)
            } else {
                (Seq::empty(), true)
            },
            None => (Seq::empty(), true),
        }
    } else {
        match first_occurrence(s, open_mark(), 0) {
            Some(i) => if 0 <= i && i + 4 <= s.len() {
                let (rest, open) = strip_comments(s.skip(i + 4), true);
                (s.take(i) + rest, open)
            } else {
                (s, false)
            },
            None => (s, false),
        }
    }
}

proof fn lemma_first_occurrence_bounds(s: Seq<char>, pat: Seq<char>, from: int)
    requires
        0 <= from,
    ensures
        first_occurrence(s, pat, from) matches Some(i) ==> from <= i && i + pat.len() <= s.len()
            && occurs_at(s, i, pat),
    decreases s.len() + 1 - from,
{
    if from <= s.len() && from + pat.len() <= s.len() && !occurs_at(s, from, pat) {
        lemma_first_occurrence_bounds(s, pat, from + 1);
    }
}

pub(crate) fn find_mark(s: &[char], from: usize, pat: &[char]) -> (r: Option<usize>)
    requires
        from <= s@.len(),
    ensures
        r is Some == first_occurrence(s@, pat@, from as int) is Some,
        r is Some ==> r->0 == first_occurrence(s@, pat@, from as int)->0 && from <= r->0 && r->0
            + pat@.len() <= s@.len(),
{
    let mut i = from;
    proof {
        lemma_first_occurrence_bounds(s@, pat@, from as int);
    }
    while i <= s.len() && pat.len() <= s.len() - i
        invariant
            from <= i,
            i <= s@.len() + 1,
            first_occurrence(s@, pat@, from as int) == first_occurrence(s@, pat@, i as int),
        decreases s@.len() + 1 - i,
    {
        if matches_at(s, i, pat) {
            return Some(i);
        }
        if i == s.len() {
            assert(first_occurrence(s@, pat@, i + 1) is None);
            return None;
        }
        i = i + 1;
    }
    None
}

/// The text of `text` outside comments, and whether a comment is open at
/// its end; `in_comment` says whether one was open at its start.
pub fn remove_comments_in_text(text: &str, in_comment: bool) -> (r: (String, bool))
    ensures
        r.0@ == strip_comments(text@, in_comment).0,
        r.1 == strip_comments(text@, in_comment).1,
{
    let s = chars_of(text);
    let open = vec!['<', '!', '-', '-'];
    let close = vec!['-', '-', '>'];
    let mut out = String::new();
    let mut pos: usize = 0;
    let mut inside = in_comment;
    assert(s@.skip(0) =~= s@);
    loop
        invariant
            s@ == text@,
            s@.len() == s.len(),
            pos <= s@.len(),
            open@ == open_mark(),
            close@ == close_mark(),
            out@ + strip_comments(s@.skip(pos as int), inside).0 == strip_comments(s@, in_comment).0,
            strip_comments(s@.skip(pos as int), inside).1 == strip_comments(s@, in_comment).1,
        decreases s@.len() - pos, if inside { 0nat } else { 1nat },
    {
        let ghost rest = s@.skip(pos as int);
        if inside {
            match find_mark(&s, pos, &close) {
                Some(i) => {
                    proof {
                        lemma_find_shift(s@, close@, pos as int, i as int);
                        assert(rest.skip(i - pos + 3) =~= s@.skip(i + 3));
                    }
                    pos = i + 3;
                    inside = false;
                },
                None => {
                    proof {
                        lemma_find_shift_none(s@, close@, pos as int);
                        assert(out@ + Seq::<char>::empty() =~= out@);
                    }
                    return (out, true);
                },
            }
        } else {
            match find_mark(&s, pos, &open) {
                Some(i) => {
                    proof {
                        lemma_find_shift(s@, open@, pos as int, i as int);
                        assert(rest.skip(i - pos + 4) =~= s@.skip(i + 4));
                        assert(rest.take(i - pos) =~= s@.subrange(pos as int, i as int));
                    }
                    let kept = string_of_range(&s, pos, i);
                    let ghost before = out@;
                    out.append(kept.as_str());
                    proof {
                        let (r2, _o) = strip_comments(s@.skip(i + 4), true);
                        assert(out@ + r2 =~= before + (s@.subrange(pos as int, i as int) + r2));
                    }
                    pos = i + 4;
                    inside = true;
                },
                None => {
                    proof {
                        lemma_find_shift_none(s@, open@, pos as int);
                        assert(rest =~= s@.subrange(pos as int, s@.len() as int));
                    }
                    let kept = string_of_range(&s, pos, s.len());
                    out.append(kept.as_str());
                    return (out, false);
                },
            }
        }
    }
}

/// A search from `pos` finds in `s` what a search from the start finds in
/// `s[pos..]`, shifted.
proof fn lemma_find_shift(s: Seq<char>, pat: Seq<char>, pos: int, i: int)
    requires
        0 <= pos <= s.len(),
        first_occurrence(s, pat, pos) == Some(i),
    ensures
        first_occurrence(s.skip(pos), pat, 0) == Some(i - pos),
{
    lemma_shift(s, pat, pos, pos);
}

proof fn lemma_find_shift_none(s: Seq<char>, pat: Seq<char>, pos: int)
    requires
        0 <= pos <= s.len(),
        first_occurrence(s, pat, pos) is None,
    ensures
        first_occurrence(s.skip(pos), pat, 0) is None,
{
    lemma_shift(s, pat, pos, pos);
}

proof fn lemma_shift(s: Seq<char>, pat: Seq<char>, pos: int, from: int)
    requires
        0 <= pos <= from,
        pos <= s.len(),
    ensures
        first_occurrence(s.skip(pos), pat, from - pos) == match first_occurrence(s, pat, from) {
            Some(i) => Some(i - pos),
            None => None::<int>,
        },
    decreases s.len() + 1 - from,
{
    let t = s.skip(pos);
    if from <= s.len() && from + pat.len() <= s.len() {
        assert(occurs_at(t, from - pos, pat) == occurs_at(s, from, pat)) by {
            if from + pat.len() <= s.len() {
                assert(t.subrange(from - pos, from - pos + pat.len()) =~= s.subrange(from, from + pat.len()));
            }
        }
        lemma_shift(s, pat, pos, from + 1);
    }
}

/// The lines left once comments are removed, in order: a line that held a
/// comment and nothing else, and a line wholly inside a comment, are dropped;
/// the others lose trailing whitespace.
pub open spec fn lines_without_comments(lines: Seq<(int, Seq<char>)>, in_comment: bool) -> Seq<(int, Seq<char>)>
    decreases lines.len(),
{
    if lines.len() == 0 {
        Seq::empty()
    } else {
        let (text, now) = strip_comments(lines[0].1, in_comment);
        let rest = lines_without_comments(lines.skip(1), now);
        if (text != lines[0].1 && is_blank(text)) || (now && is_blank(text)) {
            rest
        } else {
            seq![(lines[0].0, text.take(rtrim_end(text, text.len() as int)))] + rest
        }
    }
}

pub open spec fn line_views(lines: Seq<Line>) -> Seq<(int, Seq<char>)> {
    lines.map_values(|l: Line| (l.index as int, l.text@))
}

/// Removes comments from source lines.
pub fn remove_comments(lines: &[Line]) -> (r: Vec<Line>)
    ensures
        line_views(r@) == lines_without_comments(line_views(lines@), false),
{
    let ghost all = line_views(lines@);
    let mut out: Vec<Line> = Vec::new();
    let mut in_comment = false;
    let mut i: usize = 0;
    assert(all.skip(0) =~= all);
    while i < lines.len()
        invariant
            all == line_views(lines@),
            i <= lines@.len(),
            line_views(out@) + lines_without_comments(all.skip(i as int), in_comment) == lines_without_comments(
                all,
                false,
            ),
        decreases lines@.len() - i,
    {
        let ghost tail = all.skip(i as int);
        assert(tail[0] == (lines@[i as int].index as int, lines@[i as int].text@));
        assert(tail.skip(1) =~= all.skip(i + 1));
        let (text, now) = remove_comments_in_text(lines[i].text.as_str(), in_comment);
        in_comment = now;
        let chars = chars_of(text.as_str());
        let is_empty = blank(&chars);
        let changed = !text.eq(&lines[i].text);
        if !((changed && is_empty) || (in_comment && is_empty)) {
            let end = rtrim(&chars, chars.len());
            let kept = string_of_range(&chars, 0, end);
            let ghost before = line_views(out@);
            out.push(Line { index: lines[i].index, text: kept });
            proof {
                assert(chars@.subrange(0, end as int) =~= chars@.take(end as int));
                assert(line_views(out@) =~= before.push((lines@[i as int].index as int, text@.take(end as int))));
                assert(before.push((lines@[i as int].index as int, text@.take(end as int)))
                    + lines_without_comments(all.skip(i + 1), in_comment) =~= before + (seq![
                    (lines@[i as int].index as int, text@.take(end as int)),
                ] + lines_without_comments(all.skip(i + 1), in_comment)));
            }
        }
        i = i + 1;
    }
    assert(all.skip(i as int) =~= Seq::<(int, Seq<char>)>::empty());
    assert(line_views(out@) + Seq::<(int, Seq<char>)>::empty() =~= line_views(out@));
    out
}

} // verus!
