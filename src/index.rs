//! The index of terms defined by the document, ordered by their
//! disambiguating label.
use vstd::prelude::*;
use crate::text::chars_of;

verus! {

broadcast use vstd::seq_lib::group_to_multiset_ensures;

/// One entry of the index.
#[derive(Debug, Clone, PartialEq)]
pub struct IndexTerm {
    pub link_text: String,
    pub url: String,
    pub label: String,
    pub disambiguator: String,
}

/// `a` comes before `b`, or is `b`, in the order of their characters.
pub open spec fn text_le(a: Seq<char>, b: Seq<char>) -> bool
    decreases a.len(),
{
    if a.len() == 0 {
        true
    } else if b.len() == 0 {
        false
    } else if a[0] != b[0] {
        a[0] < b[0]
    } else {
        text_le(a.skip(1), b.skip(1))
    }
}

pub proof fn lemma_text_le_total(a: Seq<char>, b: Seq<char>)
    ensures
        text_le(a, b) || text_le(b, a),
    decreases a.len(),
{
    if a.len() > 0 && b.len() > 0 && a[0] == b[0] {
        lemma_text_le_total(a.skip(1), b.skip(1));
    }
}

pub proof fn lemma_text_le_trans(a: Seq<char>, b: Seq<char>, c: Seq<char>)
    requires
        text_le(a, b),
        text_le(b, c),
    ensures
        text_le(a, c),
    decreases a.len(),
{
    if a.len() > 0 && b.len() > 0 && c.len() > 0 && a[0] == b[0] && b[0] == c[0] {
        lemma_text_le_trans(a.skip(1), b.skip(1), c.skip(1));
    }
}

/// Whether `a` comes before `b` or is `b`.
pub fn text_le_exec(a: &String, b: &String) -> (r: bool)
    ensures
        r == text_le(a@, b@),
{
    let x = chars_of(a.as_str());
    let y = chars_of(b.as_str());
    let mut i: usize = 0;
    assert(x@.skip(0) =~= x@);
    assert(y@.skip(0) =~= y@);
    loop
        invariant
            x@ == a@,
            y@ == b@,
            i <= x@.len(),
            i <= y@.len(),
            text_le(a@, b@) == text_le(x@.skip(i as int), y@.skip(i as int)),
        decreases x@.len() - i,
    {
        if i == x.len() {
            return true;
        }
        if i == y.len() {
            return false;
        }
        assert(x@.skip(i as int)[0] == x@[i as int]);
        assert(y@.skip(i as int)[0] == y@[i as int]);
        if x[i] != y[i] {
            return x[i] < y[i];
        }
        assert(x@.skip(i as int).skip(1) =~= x@.skip(i + 1));
        assert(y@.skip(i as int).skip(1) =~= y@.skip(i + 1));
        i = i + 1;
    }
}

/// The entries are in order of their disambiguators.
pub open spec fn sorted_terms(v: Seq<IndexTerm>) -> bool {
    forall|i: int, j: int| 0 <= i < j < v.len() ==> text_le(#[trigger] v[i].disambiguator@, #[trigger] v[j].disambiguator@)
}

/// The same entries, ordered by disambiguator.
pub fn sort_index_terms(terms: Vec<IndexTerm>) -> (r: Vec<IndexTerm>)
    ensures
        sorted_terms(r@),
        r@.to_multiset() == terms@.to_multiset(),
{
    let mut out: Vec<IndexTerm> = Vec::new();
    let mut rest = terms;
    let ghost all = rest@;
    assert(out@.to_multiset() =~= vstd::multiset::Multiset::empty());
    assert(out@.to_multiset().add(rest@.to_multiset()) =~= all.to_multiset());
    while rest.len() > 0
        invariant
            sorted_terms(out@),
            out@.to_multiset().add(rest@.to_multiset()) == all.to_multiset(),
        decreases rest@.len(),
    {
        let ghost before = rest@;
        let x = rest.remove(0);
        proof {
            vstd::seq_lib::to_multiset_remove(before, 0);
            assert(before.to_multiset() =~= rest@.to_multiset().insert(x));
        }
        let mut p: usize = 0;
        while p < out.len() && text_le_exec(&out[p].disambiguator, &x.disambiguator)
            invariant
                p <= out@.len(),
                forall|m: int| 0 <= m < p ==> text_le((#[trigger] out@[m]).disambiguator@, x.disambiguator@),
            decreases out@.len() - p,
        {
            p = p + 1;
        }
        let ghost old_out = out@;
        proof {
            if p < out@.len() {
                lemma_text_le_total(out@[p as int].disambiguator@, x.disambiguator@);
            }
        }
        out.insert(p, x);
        proof {
            assert(out@ =~= old_out.insert(p as int, x));
            vstd::seq_lib::to_multiset_insert(old_out, p as int, x);
            assert(out@.to_multiset().add(rest@.to_multiset()) =~= all.to_multiset());
            assert forall|i: int, j: int| 0 <= i < j < out@.len() implies text_le(
                #[trigger] out@[i].disambiguator@,
                #[trigger] out@[j].disambiguator@,
            ) by {
                if j == p {
                    assert(out@[i] == old_out[i]);
                } else if i == p {
                    assert(out@[j] == old_out[j - 1]);
                    if j - 1 > p {
                        lemma_text_le_trans(x.disambiguator@, old_out[p as int].disambiguator@, old_out[j - 1].disambiguator@);
                    }
                } else {
                    let oi = if i < p { i } else { i - 1 };
                    let oj = if j < p { j } else { j - 1 };
                    assert(out@[i] == old_out[oi]);
                    assert(out@[j] == old_out[oj]);
                }
            }
        }
    }
    assert(rest@.to_multiset() =~= vstd::multiset::Multiset::empty());
    assert(out@.to_multiset().add(rest@.to_multiset()) =~= out@.to_multiset());
    out
}

/// The index entry of a definition of this document: linked to `#id`, in
/// an unnumbered section, told apart by its type (`definition of` for a
/// plain definition).
pub fn local_index_term(link_text: String, id: &str, dfn_type: &str) -> (r: IndexTerm)
    ensures
        r.link_text == link_text,
        r.url@ == "#"@ + id@,
        r.label@ == "§Unnumbered section"@,
        r.disambiguator@ == if dfn_type@ == "dfn"@ {
            "definition of"@
        } else {
            dfn_type@
        },
{
    let mut url = String::from_str("#");
    url.append(id);
    let ty = String::from_str(dfn_type);
    let disambiguator = if ty.eq(&String::from_str("dfn")) {
        String::from_str("definition of")
    } else {
        ty
    };
    IndexTerm { link_text, url, label: String::from_str("§Unnumbered section"), disambiguator }
}

/// A term of another specification that the document links to.
#[derive(Debug, Clone, PartialEq)]
pub struct ExternalTerm {
    pub spec: String,
    pub link_text: String,
    pub url: String,
}

/// The terms used from one specification.
#[derive(Debug, Clone, PartialEq)]
pub struct SpecTerms {
    pub spec: String,
    pub terms: Vec<ExternalTerm>,
}

pub open spec fn term_view(t: ExternalTerm) -> (Seq<char>, Seq<char>, Seq<char>) {
    (t.spec@, t.link_text@, t.url@)
}

pub open spec fn spec_terms_views(g: Seq<SpecTerms>) -> Seq<(Seq<char>, Seq<(Seq<char>, Seq<char>, Seq<char>)>)> {
    g.map_values(|s: SpecTerms| (s.spec@, s.terms@.map_values(|t: ExternalTerm| term_view(t))))
}

/// The first group of `spec`, or the number of groups.
pub open spec fn spec_index(g: Seq<(Seq<char>, Seq<(Seq<char>, Seq<char>, Seq<char>)>)>, spec: Seq<char>) -> int
    decreases g.len(),
{
    if g.len() == 0 {
        0
    } else {
        let j = spec_index(g.drop_last(), spec);
        if j < g.len() - 1 {
            j
        } else if g.last().0 == spec {
            g.len() - 1
        } else {
            g.len() as int
        }
    }
}

/// The terms of the first `n` uses, grouped by specification in order of
/// first use.
pub open spec fn by_spec(uses: Seq<ExternalTerm>, n: int) -> Seq<(Seq<char>, Seq<(Seq<char>, Seq<char>, Seq<char>)>)>
    decreases n,
{
    if n <= 0 || n > uses.len() {
        Seq::empty()
    } else {
        let g = by_spec(uses, n - 1);
        let t = term_view(uses[n - 1]);
        let j = spec_index(g, t.0);
        if 0 <= j < g.len() {
            g.update(j, (t.0, g[j].1.push(t)))
        } else {
            g.push((t.0, seq![t]))
        }
    }
}

proof fn lemma_spec_index_first(g: Seq<(Seq<char>, Seq<(Seq<char>, Seq<char>, Seq<char>)>)>, spec: Seq<char>, j: int)
    requires
        0 <= j < g.len(),
        g[j].0 == spec,
        forall|m: int| 0 <= m < j ==> (#[trigger] g[m]).0 != spec,
    ensures
        spec_index(g, spec) == j,
    decreases g.len(),
{
    let h = g.drop_last();
    if j < g.len() - 1 {
        assert forall|m: int| 0 <= m < j implies (#[trigger] h[m]).0 != spec by {
            assert(h[m] == g[m]);
        }
        assert(h[j] == g[j]);
        lemma_spec_index_first(h, spec, j);
    } else {
        assert forall|m: int| 0 <= m < h.len() implies (#[trigger] h[m]).0 != spec by {
            assert(h[m] == g[m]);
        }
        lemma_spec_index_none(h, spec);
    }
}

proof fn lemma_spec_index_none(g: Seq<(Seq<char>, Seq<(Seq<char>, Seq<char>, Seq<char>)>)>, spec: Seq<char>)
    requires
        forall|m: int| 0 <= m < g.len() ==> (#[trigger] g[m]).0 != spec,
    ensures
        spec_index(g, spec) == g.len(),
    decreases g.len(),
{
    if g.len() > 0 {
        let h = g.drop_last();
        assert forall|m: int| 0 <= m < h.len() implies (#[trigger] h[m]).0 != spec by {
            assert(h[m] == g[m]);
        }
        lemma_spec_index_none(h, spec);
    }
}

fn copy_term(t: &ExternalTerm) -> (r: ExternalTerm)
    ensures
        term_view(r) == term_view(*t),
{
    ExternalTerm { spec: t.spec.clone(), link_text: t.link_text.clone(), url: t.url.clone() }
}

fn copy_terms(v: &Vec<ExternalTerm>) -> (r: Vec<ExternalTerm>)
    ensures
        r@.map_values(|t: ExternalTerm| term_view(t)) == v@.map_values(|t: ExternalTerm| term_view(t)),
{
    let mut r: Vec<ExternalTerm> = Vec::new();
    let mut i: usize = 0;
    while i < v.len()
        invariant
            i <= v@.len(),
            r@.map_values(|t: ExternalTerm| term_view(t)) == v@.map_values(|t: ExternalTerm| term_view(t)).take(i as int),
        decreases v@.len() - i,
    {
        let c = copy_term(&v[i]);
        let ghost before = r@.map_values(|t: ExternalTerm| term_view(t));
        r.push(c);
        assert(r@.map_values(|t: ExternalTerm| term_view(t)) =~= before.push(term_view(v@[i as int])));
        assert(v@.map_values(|t: ExternalTerm| term_view(t)).take(i + 1) =~= v@.map_values(|t: ExternalTerm| term_view(t)).take(i as int).push(term_view(v@[i as int])));
        i = i + 1;
    }
    assert(v@.map_values(|t: ExternalTerm| term_view(t)).take(i as int) =~= v@.map_values(|t: ExternalTerm| term_view(t)));
    r
}

/// The terms used from other specifications, grouped by specification in
/// order of first use, each group keeping the order of use.
pub fn group_external_terms(uses: &Vec<ExternalTerm>) -> (r: Vec<SpecTerms>)
    ensures
        spec_terms_views(r@) == by_spec(uses@, uses@.len() as int),
{
    let mut groups: Vec<SpecTerms> = Vec::new();
    let mut k: usize = 0;
    while k < uses.len()
        invariant
            k <= uses@.len(),
            spec_terms_views(groups@) == by_spec(uses@, k as int),
        decreases uses@.len() - k,
    {
        let ghost g0 = spec_terms_views(groups@);
        let t = &uses[k];
        let mut j: usize = 0;
        while j < groups.len() && !groups[j].spec.eq(&t.spec)
            invariant
                g0 == spec_terms_views(groups@),
                j <= groups@.len(),
                forall|m: int| 0 <= m < j ==> (#[trigger] g0[m]).0 != t.spec@,
            decreases groups@.len() - j,
        {
            assert(g0[j as int].0 == groups@[j as int].spec@);
            j = j + 1;
        }
        proof {
            if j < groups@.len() {
                assert(g0[j as int].0 == groups@[j as int].spec@);
                lemma_spec_index_first(g0, t.spec@, j as int);
            } else {
                lemma_spec_index_none(g0, t.spec@);
            }
        }
        if j < groups.len() {
            let mut terms = copy_terms(&groups[j].terms);
            let ghost tv = terms@.map_values(|x: ExternalTerm| term_view(x));
            terms.push(copy_term(t));
            assert(terms@.map_values(|x: ExternalTerm| term_view(x)) =~= tv.push(term_view(*t)));
            let s = groups[j].spec.clone();
            groups.set(j, SpecTerms { spec: s, terms });
            assert(spec_terms_views(groups@) =~= g0.update(j as int, (t.spec@, g0[j as int].1.push(term_view(*t)))));
        } else {
            let mut terms: Vec<ExternalTerm> = Vec::new();
            terms.push(copy_term(t));
            assert(terms@.map_values(|x: ExternalTerm| term_view(x)) =~= seq![term_view(*t)]);
            groups.push(SpecTerms { spec: t.spec.clone(), terms });
            assert(spec_terms_views(groups@) =~= g0.push((t.spec@, seq![term_view(*t)])));
        }
        k = k + 1;
    }
    groups
}

} // verus!
