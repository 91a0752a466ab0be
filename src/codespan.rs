//! Code spans in text: the text between them can be rewritten while the
//! code inside them is kept, then the two are zipped back together.
use vstd::prelude::*;
use crate::block::tag_end;
use crate::html::{escape_html, escaped};
use crate::scan::run_end;
use crate::text::{chars_of, string_of_range, views};

verus! {

/// `\`` at `q`: an escaped backtick.
pub open spec fn escape_at(s: Seq<char>, q: int) -> bool {
    0 <= q && q + 1 < s.len() && s[q] == '\\' && s[q + 1] == '`'
}

/// A run of word characters and `-` from `q`, then backticks.
pub open spec fn fence_at(s: Seq<char>, q: int) -> bool {
    0 <= q && tag_end(s, q) < s.len() && s[tag_end(s, q)] == '`'
}

/// The first position at or after `p` where an escape or a fence starts.
pub open spec fn next_mark(s: Seq<char>, p: int) -> int
    decreases s.len() - p,
{
    if p < 0 || p >= s.len() {
        s.len() as int
    } else if escape_at(s, p) || fence_at(s, p) {
        p
    } else {
        next_mark(s, p + 1)
    }
}

/// `n` backticks.
pub open spec fn backticks(n: int) -> Seq<char> {
    Seq::new(n as nat, |i: int| '`')
}

/// The text pieces and the code pieces of `s` from `p` on. In code, `count`
/// is the length of the opening fence and `curr` where the code starts; in
/// text, `curr` is where the current text piece starts. An escaped backtick
/// in text ends a text piece with a backtick and stands for an empty code
/// piece.
pub open spec fn spans_from(s: Seq<char>, p: int, code: bool, count: int, curr: int) -> (Seq<Seq<char>>, Seq<Seq<char>>)
    decreases s.len() - p,
{
    let q = next_mark(s, p);
    if p < 0 || p > s.len() || q < p || q >= s.len() || !(0 <= curr <= q) {
        if code {
            (seq![backticks(count) + s.subrange(curr, s.len() as int)], Seq::empty())
        } else {
            (seq![s.subrange(curr, s.len() as int)], Seq::empty())
        }
    } else if escape_at(s, q) {
        if code {
            spans_from(s, q + 2, true, count, curr)
        } else {
            let (t, c) = spans_from(s, q + 2, false, count, q + 2);
            (seq![s.subrange(curr, q) + seq!['`']] + t, seq![Seq::<char>::empty()] + c)
        }
    } else {
        let r = tag_end(s, q);
        let e = run_end(s, r, '`');
        if !(q <= r < e <= s.len()) {
            (Seq::empty(), Seq::empty())
        } else if code {
            if e - r == count {
                let (t, c) = spans_from(s, e, false, count, e);
                (t, seq![s.subrange(curr, r)] + c)
            } else {
                spans_from(s, e, true, count, curr)
            }
        } else {
            let (t, c) = spans_from(s, e, true, e - r, e);
            (seq![s.subrange(curr, q)] + t, c)
        }
    }
}

/// The text pieces, each followed by its code piece escaped inside
/// `<code>` when that is not empty, for the first `n` text pieces.
pub open spec fn zipped(texts: Seq<Seq<char>>, codes: Seq<Seq<char>>, n: int) -> Seq<char>
    decreases n,
{
    if n <= 0 || n > texts.len() {
        Seq::empty()
    } else {
        zipped(texts, codes, n - 1) + texts[n - 1] + if n - 1 < codes.len() && codes[n - 1].len() > 0 {
            "<code>"@ + escaped(codes[n - 1]) + "</code>"@
        } else {
            Seq::empty()
        }
    }
}

/// Text cut into the pieces outside code spans and the code inside them.
#[derive(Debug, Default)]
pub struct CodeSpanManager {
    pub text_pieces: Vec<String>,
    pub code_pieces: Vec<String>,
}

proof fn lemma_tag_end(s: Seq<char>, i: int)
    requires
        0 <= i <= s.len(),
    ensures
        i <= tag_end(s, i) <= s.len(),
    decreases s.len() - i,
{
    if i < s.len() && crate::block::is_tag_char(s[i]) {
        lemma_tag_end(s, i + 1);
    }
}

fn tag_run(s: &[char], i: usize) -> (r: usize)
    requires
        i <= s@.len(),
    ensures
        r == tag_end(s@, i as int),
        i <= r <= s@.len(),
{
    let mut j = i;
    while j < s.len() && (crate::text::is_word_char(s[j]) || s[j] == '-')
        invariant
            i <= j <= s@.len(),
            tag_end(s@, i as int) == tag_end(s@, j as int),
        decreases s@.len() - j,
    {
        j = j + 1;
    }
    j
}

fn find_mark_from(s: &[char], p: usize) -> (r: usize)
    requires
        p <= s@.len(),
    ensures
        r == next_mark(s@, p as int),
        p <= r <= s@.len(),
        r < s@.len() ==> escape_at(s@, r as int) || fence_at(s@, r as int),
{
    let mut q = p;
    while q < s.len()
        invariant
            p <= q <= s@.len(),
            next_mark(s@, p as int) == next_mark(s@, q as int),
        decreases s@.len() - q,
    {
        if s.len() - q > 1 && s[q] == '\\' && s[q + 1] == '`' {
            return q;
        }
        let r = tag_run(s, q);
        if r < s.len() && s[r] == '`' {
            return q;
        }
        q = q + 1;
    }
    q
}

fn backtick_string(n: usize) -> (r: String)
    ensures
        r@ == backticks(n as int),
{
    let mut r = String::new();
    let mut i: usize = 0;
    while i < n
        invariant
            i <= n,
            r@ == backticks(i as int),
        decreases n - i,
    {
        crate::text::push_char(&mut r, '`');
        assert(r@ =~= backticks(i + 1));
        i = i + 1;
    }
    r
}

impl CodeSpanManager {
    /// Cuts `text` into text pieces and code pieces.
    pub fn new(text: String) -> (r: CodeSpanManager)
        ensures
            views(r.text_pieces@) == spans_from(text@, 0, false, 0, 0).0,
            views(r.code_pieces@) == spans_from(text@, 0, false, 0, 0).1,
    {
        let s = chars_of(text.as_str());
        let ghost all = spans_from(s@, 0, false, 0, 0);
        let mut texts: Vec<String> = Vec::new();
        let mut codes: Vec<String> = Vec::new();
        let mut p: usize = 0;
        let mut code = false;
        let mut count: usize = 0;
        let mut curr: usize = 0;
        loop
            invariant
                s@ == text@,
                all == spans_from(text@, 0, false, 0, 0),
                p <= s@.len(),
                curr <= p,
                ({
                    let (t, c) = spans_from(s@, p as int, code, count as int, curr as int);
                    views(texts@) + t == all.0 && views(codes@) + c == all.1
                }),
            decreases s@.len() - p,
        {
            let ghost tv = views(texts@);
            let ghost cv = views(codes@);
            let q = find_mark_from(&s, p);
            if q >= s.len() {
                let rest = string_of_range(&s, curr, s.len());
                let piece = if code {
                    let mut b = backtick_string(count);
                    b.append(rest.as_str());
                    b
                } else {
                    rest
                };
                let ghost pv = piece@;
                texts.push(piece);
                assert(views(texts@) =~= tv.push(pv));
                assert(views(codes@) + Seq::<Seq<char>>::empty() =~= views(codes@));
                assert(tv.push(pv) =~= tv + seq![pv]);
                proof {
                    let (t, c) = spans_from(s@, p as int, code, count as int, curr as int);
                    assert(t == seq![pv]);
                    assert(c == Seq::<Seq<char>>::empty());
                }
                return CodeSpanManager { text_pieces: texts, code_pieces: codes };
            }
            if s.len() - q > 1 && s[q] == '\\' && s[q + 1] == '`' {
                if !code {
                    let mut piece = string_of_range(&s, curr, q);
                    piece.append("`");
                    proof {
                        reveal_strlit("`");
                    }
                    let ghost pv = piece@;
                    assert(pv =~= s@.subrange(curr as int, q as int) + seq!['`']);
                    texts.push(piece);
                    codes.push(String::new());
                    proof {
                        let (t, c) = spans_from(s@, q + 2, false, count as int, q + 2);
                        assert(views(texts@) =~= tv.push(s@.subrange(curr as int, q as int) + seq!['`']));
                        assert(views(codes@) =~= cv.push(Seq::<char>::empty()));
                        assert(views(texts@) + t =~= tv + (seq![s@.subrange(curr as int, q as int) + seq!['`']] + t));
                        assert(views(codes@) + c =~= cv + (seq![Seq::<char>::empty()] + c));
                    }
                    curr = q + 2;
                }
                p = q + 2;
            } else {
                let r = tag_run(&s, q);
                proof {
                    lemma_tag_end(s@, q as int);
                }
                assert(fence_at(s@, q as int));
                proof {
                    crate::scan::lemma_run_end_bounds(s@, r + 1, '`');
                }
                let e = crate::scan::skip_run(&s, r, '`');
                assert(e > r);
                if code {
                    if e - r == count {
                        let piece = string_of_range(&s, curr, r);
                        let ghost pv = piece@;
                        codes.push(piece);
                        proof {
                            let (t, c) = spans_from(s@, e as int, false, count as int, e as int);
                            assert(views(codes@) =~= cv.push(pv));
                            assert(views(codes@) + c =~= cv + (seq![pv] + c));
                        }
                        code = false;
                        curr = e;
                    }
                } else {
                    let piece = string_of_range(&s, curr, q);
                    let ghost pv = piece@;
                    texts.push(piece);
                    proof {
                        let (t, c) = spans_from(s@, e as int, true, (e - r) as int, e as int);
                        assert(views(texts@) =~= tv.push(pv));
                        assert(views(texts@) + t =~= tv + (seq![pv] + t));
                    }
                    code = true;
                    count = e - r;
                    curr = e;
                }
                p = e;
            }
        }
    }

    /// Rewrites every text piece with `map_fn`; code pieces are kept.
    pub fn map_text_pieces(&mut self, map_fn: impl Fn(&String) -> String)
        requires
            forall|a: &String| #[trigger] map_fn.requires((a,)),
        ensures
            final(self).code_pieces == old(self).code_pieces,
            final(self).text_pieces@.len() == old(self).text_pieces@.len(),
            forall|i: int| 0 <= i < old(self).text_pieces@.len() ==> map_fn.ensures(
                (&old(self).text_pieces@[i],),
                #[trigger] final(self).text_pieces@[i],
            ),
    {
        let mut mapped: Vec<String> = Vec::new();
        let mut i: usize = 0;
        while i < self.text_pieces.len()
            invariant
                forall|a: &String| #[trigger] map_fn.requires((a,)),
                self.text_pieces == old(self).text_pieces,
                self.code_pieces == old(self).code_pieces,
                i <= self.text_pieces@.len(),
                mapped@.len() == i,
                forall|j: int| 0 <= j < i ==> map_fn.ensures((&self.text_pieces@[j],), #[trigger] mapped@[j]),
            decreases self.text_pieces@.len() - i,
        {
            let t = map_fn(&self.text_pieces[i]);
            mapped.push(t);
            i = i + 1;
        }
        self.text_pieces = mapped;
    }

    /// The text again: each text piece, followed by its code piece, when
    /// that is not empty, escaped inside `<code>`.
    pub fn extract(&self) -> (r: String)
        ensures
            r@ == zipped(views(self.text_pieces@), views(self.code_pieces@), self.text_pieces@.len() as int),
    {
        let mut out = String::new();
        let mut i: usize = 0;
        while i < self.text_pieces.len()
            invariant
                i <= self.text_pieces@.len(),
                out@ == zipped(views(self.text_pieces@), views(self.code_pieces@), i as int),
            decreases self.text_pieces@.len() - i,
        {
            let ghost before = out@;
            out.append(self.text_pieces[i].as_str());
            if i < self.code_pieces.len() && self.code_pieces[i].as_str().unicode_len() > 0 {
                out.append("<code>");
                let e = escape_html(self.code_pieces[i].as_str());
                out.append(e.as_str());
                out.append("</code>");
                assert(out@ =~= before + self.text_pieces@[i as int]@ + ("<code>"@ + escaped(
                    self.code_pieces@[i as int]@,
                ) + "</code>"@));
            } else {
                assert(out@ =~= before + self.text_pieces@[i as int]@ + Seq::<char>::empty());
            }
            i = i + 1;
        }
        out
    }

}

} // verus!
