//! "Referenced in" panels: the links that cite a definition, grouped by the
//! section they stand in, and the anchors a panel lists for them.
use vstd::prelude::*;
use crate::tree::clone_indices;

verus! {

/// A link of the document: the id it points to (its `href` without `#`),
/// the name of the section it stands in, and its own id.
#[derive(Debug, Clone)]
pub struct Citation {
    pub target: String,
    pub section: Option<String>,
    pub id: Option<String>,
}

/// The links of one section that cite a definition, by index.
#[derive(Debug, Clone)]
pub struct SectionRefs {
    pub section: String,
    pub links: Vec<usize>,
}

/// An anchor of a panel.
#[derive(Debug, Clone, PartialEq)]
pub struct PanelLink {
    pub href: String,
    pub text: String,
}

pub open spec fn group_views(g: Seq<SectionRefs>) -> Seq<(Seq<char>, Seq<usize>)> {
    g.map_values(|s: SectionRefs| (s.section@, s.links@))
}

/// The first group of section `sec`, or the number of groups.
pub open spec fn group_index(g: Seq<(Seq<char>, Seq<usize>)>, sec: Seq<char>) -> int
    decreases g.len(),
{
    if g.len() == 0 {
        0
    } else {
        let j = group_index(g.drop_last(), sec);
        if j < g.len() - 1 {
            j
        } else if g.last().0 == sec {
            g.len() - 1
        } else {
            g.len() as int
        }
    }
}

/// Link `k` added to the group of its section, a new group coming last.
pub open spec fn add_to_group(g: Seq<(Seq<char>, Seq<usize>)>, sec: Seq<char>, k: usize) -> Seq<(Seq<char>, Seq<usize>)> {
    let j = group_index(g, sec);
    if 0 <= j < g.len() {
        g.update(j, (sec, g[j].1.push(k)))
    } else {
        g.push((sec, seq![k]))
    }
}

/// The links among the first `n` that cite `id` and stand in a section,
/// grouped by section in order of first appearance.
pub open spec fn grouped(cs: Seq<Citation>, id: Seq<char>, n: int) -> Seq<(Seq<char>, Seq<usize>)>
    decreases n,
{
    if n <= 0 || n > cs.len() {
        Seq::empty()
    } else {
        let g = grouped(cs, id, n - 1);
        let c = cs[n - 1];
        if c.target@ == id && c.section is Some {
            add_to_group(g, c.section->0@, (n - 1) as usize)
        } else {
            g
        }
    }
}

proof fn lemma_group_index(g: Seq<(Seq<char>, Seq<usize>)>, sec: Seq<char>)
    ensures
        0 <= group_index(g, sec) <= g.len(),
        group_index(g, sec) < g.len() ==> g[group_index(g, sec)].0 == sec,
        forall|j: int| 0 <= j < group_index(g, sec) ==> (#[trigger] g[j]).0 != sec,
    decreases g.len(),
{
    if g.len() > 0 {
        let h = g.drop_last();
        lemma_group_index(h, sec);
        assert forall|j: int| 0 <= j < h.len() implies #[trigger] h[j] == g[j] by {}
        assert forall|j: int| 0 <= j < group_index(g, sec) implies (#[trigger] g[j]).0 != sec by {
            if j < h.len() {
                assert(h[j] == g[j]);
            }
        }
    }
}

fn find_group(groups: &Vec<SectionRefs>, sec: &String) -> (r: usize)
    ensures
        r == group_index(group_views(groups@), sec@),
{
    let ghost gv = group_views(groups@);
    let mut j: usize = 0;
    while j < groups.len()
        invariant
            gv == group_views(groups@),
            j <= groups@.len(),
            forall|m: int| 0 <= m < j ==> (#[trigger] gv[m]).0 != sec@,
        decreases groups@.len() - j,
    {
        assert(gv[j as int].0 == groups@[j as int].section@);
        if groups[j].section.eq(sec) {
            proof {
                lemma_first_group(gv, sec@, j as int);
            }
            return j;
        }
        j = j + 1;
    }
    proof {
        lemma_no_group(gv, sec@);
    }
    j
}

proof fn lemma_first_group(g: Seq<(Seq<char>, Seq<usize>)>, sec: Seq<char>, j: int)
    requires
        0 <= j < g.len(),
        g[j].0 == sec,
        forall|m: int| 0 <= m < j ==> (#[trigger] g[m]).0 != sec,
    ensures
        group_index(g, sec) == j,
    decreases g.len(),
{
    let h = g.drop_last();
    if j < g.len() - 1 {
        assert forall|m: int| 0 <= m < j implies (#[trigger] h[m]).0 != sec by {
            assert(h[m] == g[m]);
        }
        assert(h[j] == g[j]);
        lemma_first_group(h, sec, j);
    } else {
        assert forall|m: int| 0 <= m < h.len() implies (#[trigger] h[m]).0 != sec by {
            assert(h[m] == g[m]);
        }
        lemma_no_group(h, sec);
    }
}

proof fn lemma_no_group(g: Seq<(Seq<char>, Seq<usize>)>, sec: Seq<char>)
    requires
        forall|m: int| 0 <= m < g.len() ==> (#[trigger] g[m]).0 != sec,
    ensures
        group_index(g, sec) == g.len(),
    decreases g.len(),
{
    if g.len() > 0 {
        let h = g.drop_last();
        assert forall|m: int| 0 <= m < h.len() implies (#[trigger] h[m]).0 != sec by {
            assert(h[m] == g[m]);
        }
        lemma_no_group(h, sec);
    }
}

/// Groups the links that cite `dfn_id` by the section they stand in.
pub fn group_citations(citations: &Vec<Citation>, dfn_id: &String) -> (r: Vec<SectionRefs>)
    ensures
        group_views(r@) == grouped(citations@, dfn_id@, citations@.len() as int),
{
    let mut groups: Vec<SectionRefs> = Vec::new();
    let mut k: usize = 0;
    while k < citations.len()
        invariant
            k <= citations@.len(),
            group_views(groups@) == grouped(citations@, dfn_id@, k as int),
        decreases citations@.len() - k,
    {
        let ghost g0 = group_views(groups@);
        if citations[k].target.eq(dfn_id) {
            match &citations[k].section {
                Some(sec) => {
                    let j = find_group(&groups, sec);
                    proof {
                        lemma_group_index(g0, sec@);
                    }
                    if j < groups.len() {
                        let mut links = clone_indices(&groups[j].links);
                        links.push(k);
                        let s = groups[j].section.clone();
                        groups.set(j, SectionRefs { section: s, links });
                        assert(group_views(groups@) =~= g0.update(j as int, (sec@, g0[j as int].1.push(k))));
                    } else {
                        let mut links: Vec<usize> = Vec::new();
                        links.push(k);
                        groups.push(SectionRefs { section: sec.clone(), links });
                        assert(group_views(groups@) =~= g0.push((sec@, seq![k])));
                    }
                },
                None => {},
            }
        }
        k = k + 1;
    }
    groups
}

/// The decimal digits of `n`.
pub open spec fn decimal(n: nat) -> Seq<char>
    decreases n,
{
    if n < 10 {
        seq![digit_char(n)]
    } else {
        decimal(n / 10) + seq![digit_char(n % 10)]
    }
}

pub open spec fn digit_char(d: nat) -> char {
    if d == 0 { '0' } else if d == 1 { '1' } else if d == 2 { '2' } else if d == 3 { '3' } else if d == 4 {
        '4'
    } else if d == 5 { '5' } else if d == 6 { '6' } else if d == 7 { '7' } else if d == 8 { '8' } else { '9' }
}

fn digit_exec(d: usize) -> (c: char)
    requires
        d < 10,
    ensures
        c == digit_char(d as nat),
{
    if d == 0 { '0' } else if d == 1 { '1' } else if d == 2 { '2' } else if d == 3 { '3' } else if d == 4 {
        '4'
    } else if d == 5 { '5' } else if d == 6 { '6' } else if d == 7 { '7' } else if d == 8 { '8' } else { '9' }
}

/// `n` in decimal.
pub fn to_decimal(n: usize) -> (r: String)
    ensures
        r@ == decimal(n as nat),
    decreases n,
{
    if n < 10 {
        let mut s = String::new();
        crate::text::push_char(&mut s, digit_exec(n));
        assert(s@ =~= seq![digit_char(n as nat)]);
        s
    } else {
        let mut s = to_decimal(n / 10);
        crate::text::push_char(&mut s, digit_exec(n % 10));
        s
    }
}

/// The id a citing link is reached by: its own, else `ref-for-` and the
/// definition's id.
pub open spec fn citation_id(c: Citation, dfn_id: Seq<char>) -> Seq<char> {
    match c.id {
        Some(id) => id@,
        None => "ref-for-"@ + dfn_id,
    }
}

/// The anchors of one section's entry: the first is labelled with the
/// section's name, the k-th after it with `(k+1)`.
pub open spec fn entry_links(cs: Seq<Citation>, g: (Seq<char>, Seq<usize>), dfn_id: Seq<char>) -> Seq<(Seq<char>, Seq<char>)> {
    Seq::new(
        g.1.len(),
        |k: int|
            (
                "#"@ + citation_id(cs[g.1[k] as int], dfn_id),
                if k == 0 {
                    g.0
                } else {
                    "("@ + decimal((k + 1) as nat) + ")"@
                },
            ),
    )
}

pub open spec fn panel_link_views(v: Seq<PanelLink>) -> Seq<(Seq<char>, Seq<char>)> {
    v.map_values(|p: PanelLink| (p.href@, p.text@))
}

/// The anchors of a section's entry in a definition's panel.
pub fn section_links(citations: &Vec<Citation>, group: &SectionRefs, dfn_id: &String) -> (r: Vec<PanelLink>)
    requires
        forall|k: int| 0 <= k < group.links@.len() ==> #[trigger] group.links@[k] < citations@.len(),
    ensures
        panel_link_views(r@) == entry_links(citations@, (group.section@, group.links@), dfn_id@),
{
    let mut out: Vec<PanelLink> = Vec::new();
    let mut k: usize = 0;
    while k < group.links.len()
        invariant
            k <= group.links@.len(),
            forall|m: int| 0 <= m < group.links@.len() ==> #[trigger] group.links@[m] < citations@.len(),
            panel_link_views(out@) == entry_links(citations@, (group.section@, group.links@), dfn_id@).take(
                k as int,
            ),
        decreases group.links@.len() - k,
    {
        let c = &citations[group.links[k]];
        let mut href = String::from_str("#");
        match &c.id {
            Some(id) => href.append(id.as_str()),
            None => {
                href.append("ref-for-");
                href.append(dfn_id.as_str());
            },
        }
        let text = if k == 0 {
            group.section.clone()
        } else {
            let mut t = String::from_str("(");
            let num = to_decimal(k + 1);
            t.append(num.as_str());
            t.append(")");
            t
        };
        let ghost before = panel_link_views(out@);
        proof {
            let full = entry_links(citations@, (group.section@, group.links@), dfn_id@);
            let cc = citations@[group.links@[k as int] as int];
            assert(cc == *c);
            if c.id is None {
                assert(href@ =~= "#"@ + ("ref-for-"@ + dfn_id@));
            }
            assert(href@ == full[k as int].0);
            assert(text@ == full[k as int].1);
        }
        out.push(PanelLink { href, text });
        proof {
            let full = entry_links(citations@, (group.section@, group.links@), dfn_id@);
            assert(panel_link_views(out@) =~= before.push(full[k as int]));
            assert(full.take(k + 1) =~= full.take(k as int).push(full[k as int]));
        }
        k = k + 1;
    }
    proof {
        let full = entry_links(citations@, (group.section@, group.links@), dfn_id@);
        assert(full.take(k as int) =~= full);
    }
    out
}

} // verus!
