//! Escaping text for markup.
use vstd::prelude::*;
use crate::text::{chars_of, push_char};

verus! {

/// `s` with `&` written `&amp;` and `<` written `&lt;`.
pub open spec fn escaped(s: Seq<char>) -> Seq<char>
    decreases s.len(),
{
    if s.len() == 0 {
        s
    } else {
        let c = s.last();
        escaped(s.drop_last()) + if c == '&' {
            seq!['&', 'a', 'm', 'p', ';']
        } else if c == '<' {
            seq!['&', 'l', 't', ';']
        } else {
            seq![c]
        }
    }
}

/// Escapes `&` and `<`.
pub fn escape_html(text: &str) -> (r: String)
    ensures
        r@ == escaped(text@),
{
    let s = chars_of(text);
    let mut out = String::new();
    let mut i: usize = 0;
    while i < s.len()
        invariant
            i <= s@.len(),
            out@ == escaped(s@.take(i as int)),
        decreases s@.len() - i,
    {
        let c = s[i];
        assert(s@.take(i + 1).drop_last() =~= s@.take(i as int));
        if c == '&' {
            out.append("&amp;");
            proof {
                reveal_strlit("&amp;");
            }
        } else if c == '<' {
            out.append("&lt;");
            proof {
                reveal_strlit("&lt;");
            }
        } else {
            push_char(&mut out, c);
        }
        assert(out@ =~= escaped(s@.take(i + 1)));
        i = i + 1;
    }
    assert(s@.take(i as int) =~= s@);
    out
}

} // verus!
