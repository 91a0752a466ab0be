//! The element tree: an arena of nodes in the order they were created,
//! children held by index and parents as plain back-references. A tree
//! built top-down, each node appended after the subtrees before it, has
//! its nodes in document order.
use vstd::prelude::*;
use crate::text::{str_eq, string_of};

verus! {

/// One attribute of an element.
#[derive(Debug, Clone)]
pub struct Attr {
    pub name: String,
    pub value: String,
}

/// An element with its attributes in order, or a text node (`is_text`),
/// whose text is in `text`.
#[derive(Debug, Clone)]
pub struct Node {
    pub is_text: bool,
    pub tag: String,
    pub text: String,
    pub attrs: Vec<Attr>,
    pub parent: Option<usize>,
}

/// The nodes of a document, in the order they were created.
#[derive(Debug)]
pub struct Tree {
    pub nodes: Vec<Node>,
    /// The children of each node, in order.
    pub children: Vec<Vec<usize>>,
}

/// Node `i`'s parent comes before it and its children after it.
pub open spec fn node_wf(nodes: Seq<Node>, children: Seq<Vec<usize>>, i: int) -> bool {
    &&& (nodes[i].parent is Some ==> nodes[i].parent->0 < i)
    &&& forall|j: int| 0 <= j < children[i]@.len() ==> i < #[trigger] children[i]@[j] < nodes.len()
}

/// The value of the first attribute named `name`.
pub open spec fn attr_of(attrs: Seq<Attr>, name: Seq<char>) -> Option<Seq<char>>
    decreases attrs.len(),
{
    if attrs.len() == 0 {
        None
    } else if attrs[0].name@ == name {
        Some(attrs[0].value@)
    } else {
        attr_of(attrs.skip(1), name)
    }
}

/// The text of node `i`: a text node's own text, an element's the texts of
/// its children one after another.
pub open spec fn text_of(nodes: Seq<Node>, kids: Seq<Vec<usize>>, i: int) -> Seq<char>
    decreases nodes.len() - i, 1nat, 0int,
{
    if !(0 <= i < nodes.len() && i < kids.len()) {
        Seq::empty()
    } else if nodes[i].is_text {
        nodes[i].text@
    } else {
        kids_text(nodes, kids, i, kids[i]@.len() as int)
    }
}

/// The texts of the first `k` children of node `i`.
pub open spec fn kids_text(nodes: Seq<Node>, kids: Seq<Vec<usize>>, i: int, k: int) -> Seq<char>
    decreases nodes.len() - i, 0nat, k,
{
    if !(0 <= i < nodes.len() && i < kids.len()) || k <= 0 || k > kids[i]@.len() {
        Seq::empty()
    } else {
        let c = kids[i]@[k - 1] as int;
        kids_text(nodes, kids, i, k - 1) + if i < c < nodes.len() {
            text_of(nodes, kids, c)
        } else {
            Seq::empty()
        }
    }
}

/// An explicit `data-export` (true) or `data-noexport` (false) attribute.
pub open spec fn export_mark(attrs: Seq<Attr>) -> Option<bool> {
    if attr_of(attrs, "data-export"@) is Some {
        Some(true)
    } else if attr_of(attrs, "data-noexport"@) is Some {
        Some(false)
    } else {
        None
    }
}

/// The export mark of node `i` or of its closest ancestor that has one.
pub open spec fn closest_export(nodes: Seq<Node>, i: int) -> Option<bool>
    decreases i,
{
    if !(0 <= i < nodes.len()) {
        None
    } else {
        match export_mark(nodes[i].attrs@) {
            Some(b) => Some(b),
            None => match nodes[i].parent {
                Some(p) => if (p as int) < i {
                    closest_export(nodes, p as int)
                } else {
                    None
                },
                None => None,
            },
        }
    }
}


/// The export mark a node inherits: that of its parent or the parent's
/// closest ancestor with one.
pub open spec fn inherited_export(nodes: Seq<Node>, i: int) -> Option<bool> {
    if 0 <= i < nodes.len() {
        match nodes[i].parent {
            Some(p) => if (p as int) < i {
                closest_export(nodes, p as int)
            } else {
                None
            },
            None => None,
        }
    } else {
        None
    }
}

/// Two node lists that agree on every node up to `p`.
pub open spec fn agree_upto(n1: Seq<Node>, n2: Seq<Node>, p: int) -> bool {
    p < n1.len() && p < n2.len() && forall|j: int| 0 <= j <= p ==> #[trigger] n1[j] == n2[j]
}

pub proof fn lemma_closest_export_prefix(n1: Seq<Node>, n2: Seq<Node>, p: int)
    requires
        agree_upto(n1, n2, p),
    ensures
        closest_export(n1, p) == closest_export(n2, p),
    decreases p,
{
    if 0 <= p {
        assert(n1[p] == n2[p]);
        match n1[p].parent {
            Some(q) => {
                if (q as int) < p && 0 <= q {
                    lemma_closest_export_prefix(n1, n2, q as int);
                }
            },
            None => {},
        }
    }
}

/// Two node lists with the same texts.
pub open spec fn same_texts(n1: Seq<Node>, n2: Seq<Node>) -> bool {
    n1.len() == n2.len() && forall|j: int| 0 <= j < n1.len() ==> (#[trigger] n1[j]).is_text == n2[j].is_text
        && n1[j].text == n2[j].text
}

pub proof fn lemma_text_same(n1: Seq<Node>, n2: Seq<Node>, kids: Seq<Vec<usize>>, i: int)
    requires
        same_texts(n1, n2),
    ensures
        text_of(n1, kids, i) == text_of(n2, kids, i),
    decreases n1.len() - i, 1nat, 0int,
{
    if 0 <= i < n1.len() && i < kids.len() {
        assert(n1[i].is_text == n2[i].is_text);
        lemma_kids_same(n1, n2, kids, i, kids[i]@.len() as int);
    }
}

pub proof fn lemma_kids_same(n1: Seq<Node>, n2: Seq<Node>, kids: Seq<Vec<usize>>, i: int, k: int)
    requires
        same_texts(n1, n2),
    ensures
        kids_text(n1, kids, i, k) == kids_text(n2, kids, i, k),
    decreases n1.len() - i, 0nat, k,
{
    if 0 <= i < n1.len() && i < kids.len() && 0 < k <= kids[i]@.len() {
        lemma_kids_same(n1, n2, kids, i, k - 1);
        let c = kids[i]@[k - 1] as int;
        if i < c < n1.len() {
            lemma_text_same(n1, n2, kids, c);
        }
    }
}

/// The value of attribute `name` on node `i` or its closest ancestor with it.
pub open spec fn closest_attr(nodes: Seq<Node>, i: int, name: Seq<char>) -> Option<Seq<char>>
    decreases i,
{
    if !(0 <= i < nodes.len()) {
        None
    } else {
        match attr_of(nodes[i].attrs@, name) {
            Some(v) => Some(v),
            None => match nodes[i].parent {
                Some(p) => if (p as int) < i {
                    closest_attr(nodes, p as int, name)
                } else {
                    None
                },
                None => None,
            },
        }
    }
}

/// The `id` of each node, in document order.
pub open spec fn ids_of(nodes: Seq<Node>) -> Seq<Option<Seq<char>>> {
    nodes.map_values(|n: Node| attr_of(n.attrs@, "id"@))
}

pub open spec fn circled_digit(d: nat) -> char {
    if d == 0 {
        '⓪'
    } else if d == 1 {
        '①'
    } else if d == 2 {
        '②'
    } else if d == 3 {
        '③'
    } else if d == 4 {
        '④'
    } else if d == 5 {
        '⑤'
    } else if d == 6 {
        '⑥'
    } else if d == 7 {
        '⑦'
    } else if d == 8 {
        '⑧'
    } else {
        '⑨'
    }
}

/// The decimal digits of `n` written as circled digits.
pub open spec fn circled(n: nat) -> Seq<char>
    decreases n,
{
    if n < 10 {
        seq![circled_digit(n)]
    } else {
        circled(n / 10) + seq![circled_digit(n % 10)]
    }
}

/// How many of the first `i` ids equal `id`.
pub open spec fn count_before(ids: Seq<Option<Seq<char>>>, i: int, id: Seq<char>) -> nat
    decreases i,
{
    if i <= 0 {
        0
    } else {
        count_before(ids, i - 1, id) + if ids[i - 1] == Some(id) { 1nat } else { 0nat }
    }
}

/// The id that node `i` carries after deduplication: the first of equal ids
/// is kept, the k-th repeat gets the circled digits of k appended.
pub open spec fn deduped_id(ids: Seq<Option<Seq<char>>>, i: int) -> Option<Seq<char>> {
    match ids[i] {
        Some(v) => {
            let k = count_before(ids, i, v);
            if k == 0 {
                Some(v)
            } else {
                Some(v + circled(k))
            }
        },
        None => None,
    }
}


/// A circled-digit glyph.
pub open spec fn is_circled(c: char) -> bool {
    exists|d: nat| d < 10 && circled_digit(d) == c
}

/// No id is another id followed by circled digits.
pub open spec fn no_suffix_clash(ids: Seq<Option<Seq<char>>>) -> bool {
    forall|a: int, b: int, s: Seq<char>|
        0 <= a < ids.len() && 0 <= b < ids.len() && ids[a] is Some && #[trigger] ids[b] == Some(
            #[trigger] (ids[a]->0 + s),
        ) && s.len() > 0 ==> exists|k: int| 0 <= k < s.len() && !is_circled(s[k])
}

proof fn lemma_circled_digit_injective(d: nat, e: nat)
    requires
        d < 10,
        e < 10,
        circled_digit(d) == circled_digit(e),
    ensures
        d == e,
{
}

proof fn lemma_circled_shape(n: nat)
    ensures
        circled(n).len() >= 1,
        n >= 10 ==> circled(n).len() >= 2,
        forall|k: int| 0 <= k < circled(n).len() ==> is_circled(#[trigger] circled(n)[k]),
    decreases n,
{
    if n >= 10 {
        lemma_circled_shape(n / 10);
        assert forall|k: int| 0 <= k < circled(n).len() implies is_circled(#[trigger] circled(n)[k]) by {
            if k < circled(n / 10).len() {
                assert(circled(n)[k] == circled(n / 10)[k]);
            } else {
                assert(circled(n)[k] == circled_digit(n % 10));
            }
        }
    } else {
        assert(circled(n)[0] == circled_digit(n));
    }
}

proof fn lemma_circled_injective(n: nat, m: nat)
    requires
        circled(n) == circled(m),
    ensures
        n == m,
    decreases n,
{
    lemma_circled_shape(n);
    lemma_circled_shape(m);
    if n < 10 && m < 10 {
        assert(circled(n) == seq![circled_digit(n)]);
        assert(circled(m) == seq![circled_digit(m)]);
        assert(circled(n)[0] == circled_digit(n));
        assert(circled(m)[0] == circled_digit(m));
        lemma_circled_digit_injective(n, m);
    } else if n >= 10 && m >= 10 {
        let a = circled(n);
        assert(a.last() == circled_digit(n % 10));
        assert(circled(m).last() == circled_digit(m % 10));
        lemma_circled_digit_injective(n % 10, m % 10);
        assert(a.drop_last() =~= circled(n / 10));
        assert(circled(m).drop_last() =~= circled(m / 10));
        lemma_circled_injective(n / 10, m / 10);
        assert(n == 10 * (n / 10) + n % 10) by (nonlinear_arith);
        assert(m == 10 * (m / 10) + m % 10) by (nonlinear_arith);
    }
}

proof fn lemma_count_grows(ids: Seq<Option<Seq<char>>>, i: int, j: int, v: Seq<char>)
    requires
        0 <= i < j <= ids.len(),
        ids[i] == Some(v),
    ensures
        count_before(ids, j, v) > count_before(ids, i, v),
    decreases j - i,
{
    if j > i + 1 {
        lemma_count_grows(ids, i, j - 1, v);
    }
}

/// Once ids are made unique, no two nodes share one, provided no id is
/// another id followed by circled digits.
pub proof fn lemma_deduped_ids_distinct(ids: Seq<Option<Seq<char>>>, i: int, j: int)
    requires
        no_suffix_clash(ids),
        0 <= i < j < ids.len(),
        deduped_id(ids, i) is Some,
        deduped_id(ids, j) is Some,
    ensures
        deduped_id(ids, i) != deduped_id(ids, j),
{
    let v = ids[i]->0;
    let w = ids[j]->0;
    let ki = count_before(ids, i, v);
    let kj = count_before(ids, j, w);
    let ci = if ki == 0 { Seq::<char>::empty() } else { circled(ki) };
    let cj = if kj == 0 { Seq::<char>::empty() } else { circled(kj) };
    assert(deduped_id(ids, i) == Some(v + ci));
    assert(deduped_id(ids, j) == Some(w + cj));
    lemma_circled_shape(ki);
    lemma_circled_shape(kj);
    if v + ci == w + cj {
        if v == w {
            lemma_count_grows(ids, i, j, v);
            assert(ci =~= (v + ci).subrange(v.len() as int, (v + ci).len() as int));
            assert(cj =~= (w + cj).subrange(w.len() as int, (w + cj).len() as int));
            if ki > 0 {
                lemma_circled_injective(ki, kj);
            }
        } else if v.len() <= w.len() {
            let s = w.subrange(v.len() as int, w.len() as int);
            assert(w =~= v + s) by {
                assert(w =~= (w + cj).subrange(0, w.len() as int));
                assert(v =~= (v + ci).subrange(0, v.len() as int));
            }
            assert(s.len() > 0);
            assert forall|k: int| 0 <= k < s.len() implies is_circled(s[k]) by {
                assert(s[k] == (v + ci)[v.len() + k]);
                assert((v + ci)[v.len() + k] == ci[k]);
            }
            assert(ids[j] == Some(ids[i]->0 + s));
        } else {
            let s = v.subrange(w.len() as int, v.len() as int);
            assert(v =~= w + s) by {
                assert(v =~= (v + ci).subrange(0, v.len() as int));
                assert(w =~= (w + cj).subrange(0, w.len() as int));
            }
            assert forall|k: int| 0 <= k < s.len() implies is_circled(s[k]) by {
                assert(s[k] == (w + cj)[w.len() + k]);
                assert((w + cj)[w.len() + k] == cj[k]);
            }
            assert(ids[i] == Some(ids[j]->0 + s));
        }
    }
}

fn circled_digit_exec(d: usize) -> (r: char)
    requires
        d < 10,
    ensures
        r == circled_digit(d as nat),
{
    if d == 0 {
        '⓪'
    } else if d == 1 {
        '①'
    } else if d == 2 {
        '②'
    } else if d == 3 {
        '③'
    } else if d == 4 {
        '④'
    } else if d == 5 {
        '⑤'
    } else if d == 6 {
        '⑥'
    } else if d == 7 {
        '⑦'
    } else if d == 8 {
        '⑧'
    } else {
        '⑨'
    }
}

/// The circled digits of `n`.
pub fn to_circled_digits(n: usize) -> (r: Vec<char>)
    ensures
        r@ == circled(n as nat),
    decreases n,
{
    if n < 10 {
        vec![circled_digit_exec(n)]
    } else {
        let mut r = to_circled_digits(n / 10);
        r.push(circled_digit_exec(n % 10));
        r
    }
}

/// A copy of an attribute list.
pub fn clone_attrs(v: &Vec<Attr>) -> (r: Vec<Attr>)
    ensures
        r@ == v@,
{
    let mut r: Vec<Attr> = Vec::new();
    let mut i: usize = 0;
    while i < v.len()
        invariant
            i <= v@.len(),
            r@ == v@.take(i as int),
        decreases v@.len() - i,
    {
        r.push(Attr { name: v[i].name.clone(), value: v[i].value.clone() });
        assert(r@ =~= v@.take(i + 1));
        i = i + 1;
    }
    assert(v@.take(i as int) =~= v@);
    r
}

pub fn clone_indices(v: &Vec<usize>) -> (r: Vec<usize>)
    ensures
        r@ == v@,
{
    let mut r: Vec<usize> = Vec::new();
    let mut i: usize = 0;
    while i < v.len()
        invariant
            i <= v@.len(),
            r@ == v@.take(i as int),
        decreases v@.len() - i,
    {
        r.push(v[i]);
        assert(r@ =~= v@.take(i + 1));
        i = i + 1;
    }
    assert(v@.take(i as int) =~= v@);
    r
}
/// The value of the first attribute named `name`.
pub fn get_attr(attrs: &Vec<Attr>, name: &String) -> (r: Option<String>)
    ensures
        match attr_of(attrs@, name@) {
            Some(v) => r is Some && r->0@ == v,
            None => r is None,
        },
{
    let mut i: usize = 0;
    assert(attrs@.skip(0) =~= attrs@);
    while i < attrs.len()
        invariant
            i <= attrs@.len(),
            attr_of(attrs@.skip(i as int), name@) == attr_of(attrs@, name@),
        decreases attrs@.len() - i,
    {
        assert(attrs@.skip(i as int)[0] == attrs@[i as int]);
        if str_eq(&attrs[i].name, name) {
            return Some(attrs[i].value.clone());
        }
        assert(attrs@.skip(i as int).skip(1) =~= attrs@.skip(i + 1));
        i = i + 1;
    }
    None
}

/// Sets the first attribute named `name` to `value`, or appends one.
pub fn insert_attr(attrs: &mut Vec<Attr>, name: String, value: String)
    ensures
        attr_of(final(attrs)@, name@) == Some(value@),
        forall|other: Seq<char>| other != name@ ==> attr_of(final(attrs)@, other) == attr_of(
            old(attrs)@,
            other,
        ),
{
    let ghost a0 = attrs@;
    let mut i: usize = 0;
    while i < attrs.len() && !str_eq(&attrs[i].name, &name)
        invariant
            attrs@ == a0,
            i <= attrs@.len(),
            forall|j: int| 0 <= j < i ==> attrs@[j].name@ != name@,
        decreases attrs@.len() - i,
    {
        i = i + 1;
    }
    if i < attrs.len() {
        let n = attrs[i].name.clone();
        attrs.set(i, Attr { name: n, value });
        proof {
            lemma_attr_set(a0, i as int, attrs@, name@);
        }
    } else {
        attrs.push(Attr { name, value });
        proof {
            lemma_attr_push(a0, attrs@, name@);
        }
    }
}

proof fn lemma_attr_set(a0: Seq<Attr>, i: int, a1: Seq<Attr>, name: Seq<char>)
    requires
        0 <= i < a0.len(),
        a1.len() == a0.len(),
        forall|j: int| 0 <= j < a0.len() && j != i ==> a1[j] == a0[j],
        a1[i].name@ == name,
        a0[i].name@ == name,
        forall|j: int| 0 <= j < i ==> a0[j].name@ != name,
    ensures
        attr_of(a1, name) == Some(a1[i].value@),
        forall|other: Seq<char>| other != name ==> attr_of(a1, other) == attr_of(a0, other),
    decreases i,
{
    if i > 0 {
        lemma_attr_set(a0.skip(1), i - 1, a1.skip(1), name);
    }
    assert forall|other: Seq<char>| other != name implies attr_of(a1, other) == attr_of(a0, other) by {
        lemma_attr_set_other(a0, i, a1, name, other);
    }
}

proof fn lemma_attr_set_other(a0: Seq<Attr>, i: int, a1: Seq<Attr>, name: Seq<char>, other: Seq<char>)
    requires
        0 <= i < a0.len(),
        a1.len() == a0.len(),
        forall|j: int| 0 <= j < a0.len() && j != i ==> a1[j] == a0[j],
        a1[i].name@ == name,
        a0[i].name@ == name,
        other != name,
    ensures
        attr_of(a1, other) == attr_of(a0, other),
    decreases a0.len(),
{
    if a0.len() > 0 {
        if i > 0 {
            lemma_attr_set_other(a0.skip(1), i - 1, a1.skip(1), name, other);
        } else {
            assert(a1.skip(1) =~= a0.skip(1));
        }
    }
}

proof fn lemma_attr_push(a0: Seq<Attr>, a1: Seq<Attr>, name: Seq<char>)
    requires
        a1.len() == a0.len() + 1,
        forall|j: int| 0 <= j < a0.len() ==> a1[j] == a0[j],
        forall|j: int| 0 <= j < a0.len() ==> a0[j].name@ != name,
        a1.last().name@ == name,
    ensures
        attr_of(a1, name) == Some(a1.last().value@),
        forall|other: Seq<char>| other != name ==> attr_of(a1, other) == attr_of(a0, other),
    decreases a0.len(),
{
    if a0.len() > 0 {
        lemma_attr_push(a0.skip(1), a1.skip(1), name);
    }
    assert forall|other: Seq<char>| other != name implies attr_of(a1, other) == attr_of(a0, other) by {
        if a0.len() > 0 {
            assert(a1[0] == a0[0]);
            assert(attr_of(a1.skip(1), other) == attr_of(a0.skip(1), other));
        } else {
            assert(a1.skip(1).len() == 0);
            assert(attr_of(a1.skip(1), other) is None);
        }
    }
}

impl Tree {
    /// Parents come before their children in document order, and every
    /// child index is a node after its parent.
    pub open spec fn wf(&self) -> bool {
        &&& self.children@.len() == self.nodes@.len()
        &&& forall|i: int| 0 <= i < self.nodes@.len() ==> #[trigger] node_wf(self.nodes@, self.children@, i)
    }

    pub fn new() -> (r: Tree)
        ensures
            r.nodes@.len() == 0,
            r.wf(),
    {
        Tree { nodes: Vec::new(), children: Vec::new() }
    }

    /// Appends an element with no attributes under `parent`; returns its index.
    pub fn new_element(&mut self, tag: String, parent: Option<usize>) -> (r: usize)
        requires
            old(self).wf(),
            parent is Some ==> parent->0 < old(self).nodes@.len(),
        ensures
            final(self).wf(),
            forall|j: int| 0 <= j < old(self).nodes@.len() ==> #[trigger] final(self).nodes@[j]
                == old(self).nodes@[j],
            final(self).children@.len() == final(self).nodes@.len(),
            final(self).children@[r as int]@.len() == 0,
            forall|j: int| 0 <= j < old(self).nodes@.len() && Some(j as usize) != parent ==> #[trigger] final(self).children@[j]
                == old(self).children@[j],
            parent matches Some(p) ==> final(self).children@[p as int]@ == old(self).children@[p as int]@.push(r),
            r == old(self).nodes@.len(),
            final(self).nodes@.len() == old(self).nodes@.len() + 1,
            final(self).nodes@[r as int].tag@ == tag@,
            !final(self).nodes@[r as int].is_text,
            final(self).nodes@[r as int].attrs@.len() == 0,
            final(self).nodes@[r as int].parent == parent,
    {
        self.push_node(Node { is_text: false, tag, text: String::new(), attrs: Vec::new(), parent })
    }

    /// Appends a text node under `parent`; returns its index.
    pub fn new_text(&mut self, text: String, parent: Option<usize>) -> (r: usize)
        requires
            old(self).wf(),
            parent is Some ==> parent->0 < old(self).nodes@.len(),
        ensures
            final(self).wf(),
            forall|j: int| 0 <= j < old(self).nodes@.len() ==> #[trigger] final(self).nodes@[j]
                == old(self).nodes@[j],
            final(self).children@.len() == final(self).nodes@.len(),
            final(self).children@[r as int]@.len() == 0,
            forall|j: int| 0 <= j < old(self).nodes@.len() && Some(j as usize) != parent ==> #[trigger] final(self).children@[j]
                == old(self).children@[j],
            parent matches Some(p) ==> final(self).children@[p as int]@ == old(self).children@[p as int]@.push(r),
            r == old(self).nodes@.len(),
            final(self).nodes@.len() == old(self).nodes@.len() + 1,
            final(self).nodes@[r as int].text@ == text@,
            final(self).nodes@[r as int].is_text,
            final(self).nodes@[r as int].attrs@.len() == 0,
            final(self).nodes@[r as int].parent == parent,
    {
        self.push_node(Node { is_text: true, tag: String::new(), text, attrs: Vec::new(), parent })
    }

    fn push_node(&mut self, node: Node) -> (r: usize)
        requires
            old(self).wf(),
            node.parent is Some ==> node.parent->0 < old(self).nodes@.len(),
        ensures
            final(self).wf(),
            forall|j: int| 0 <= j < old(self).nodes@.len() ==> #[trigger] final(self).nodes@[j]
                == old(self).nodes@[j],
            final(self).children@.len() == final(self).nodes@.len(),
            final(self).children@[r as int]@.len() == 0,
            forall|j: int| 0 <= j < old(self).nodes@.len() && Some(j as usize) != node.parent ==> #[trigger] final(self).children@[j]
                == old(self).children@[j],
            node.parent matches Some(p) ==> final(self).children@[p as int]@ == old(self).children@[p as int]@.push(r),
            r == old(self).nodes@.len(),
            final(self).nodes@.len() == old(self).nodes@.len() + 1,
            final(self).nodes@[r as int].tag == node.tag,
            final(self).nodes@[r as int].text == node.text,
            final(self).nodes@[r as int].is_text == node.is_text,
            final(self).nodes@[r as int].attrs == node.attrs,
            final(self).nodes@[r as int].parent == node.parent,
    {
        let n = self.nodes.len();
        let parent = node.parent;
        let ghost before = self.nodes@;
        let ghost before_children = self.children@;
        self.nodes.push(node);
        self.children.push(Vec::new());
        proof {
            assert forall|i: int| 0 <= i < self.nodes@.len() implies #[trigger] node_wf(self.nodes@, self.children@, i) by {
                if i < n {
                    assert(node_wf(before, before_children, i));
                    assert(self.nodes@[i] == before[i]);
                    assert(self.children@[i] == before_children[i]);
                }
            }
        }
        match parent {
            Some(p) => {
                let ghost mid = self.children@;
                let mut kids = clone_indices(&self.children[p]);
                kids.push(n);
                self.children.set(p, kids);
                proof {
                    assert forall|i: int| 0 <= i < self.nodes@.len() implies #[trigger] node_wf(self.nodes@, self.children@, i) by {
                        assert(node_wf(self.nodes@, mid, i));
                        if i != p {
                            assert(self.children@[i] == mid[i]);
                        } else {
                            assert(self.children@[i]@ =~= mid[i]@.push(n));
                        }
                    }
                }
            },
            None => {},
        }
        n
    }

    /// The text of node `i`.
    pub fn text_content(&self, i: usize) -> (r: String)
        requires
            self.wf(),
            i < self.nodes@.len(),
        ensures
            r@ == text_of(self.nodes@, self.children@, i as int),
        decreases self.nodes@.len() - i,
    {
        if self.nodes[i].is_text {
            return self.nodes[i].text.clone();
        }
        let mut acc = String::new();
        let mut k: usize = 0;
        while k < self.children[i].len()
            invariant
                self.wf(),
                i < self.nodes@.len(),
                !self.nodes@[i as int].is_text,
                k <= self.children@[i as int]@.len(),
                acc@ == kids_text(self.nodes@, self.children@, i as int, k as int),
            decreases self.children@[i as int]@.len() - k,
        {
            let c = self.children[i][k];
            proof {
                assert(node_wf(self.nodes@, self.children@, i as int));
            }
            let t = self.text_content(c);
            acc.append(t.as_str());
            k = k + 1;
        }
        acc
    }

    /// Whether node `i` or its closest ancestor with an export mark is
    /// exported (`Some(true)`) or not (`Some(false)`); `None` without one.
    pub fn closest_export_mark(&self, i: usize) -> (r: Option<bool>)
        requires
            self.wf(),
            i < self.nodes@.len(),
        ensures
            r == closest_export(self.nodes@, i as int),
        decreases i,
    {
        let export = String::from_str("data-export");
        let noexport = String::from_str("data-noexport");
        if get_attr(&self.nodes[i].attrs, &export).is_some() {
            return Some(true);
        }
        if get_attr(&self.nodes[i].attrs, &noexport).is_some() {
            return Some(false);
        }
        proof {
            assert(node_wf(self.nodes@, self.children@, i as int));
        }
        match self.nodes[i].parent {
            Some(p) => self.closest_export_mark(p),
            None => None,
        }
    }

    /// The value of attribute `name` on node `i` or its closest ancestor.
    pub fn closest_attr_value(&self, i: usize, name: &String) -> (r: Option<String>)
        requires
            self.wf(),
            i < self.nodes@.len(),
        ensures
            crate::text::opt_view(r) == closest_attr(self.nodes@, i as int, name@),
        decreases i,
    {
        match get_attr(&self.nodes[i].attrs, name) {
            Some(v) => Some(v),
            None => {
                proof {
                    assert(node_wf(self.nodes@, self.children@, i as int));
                }
                match self.nodes[i].parent {
                    Some(p) => self.closest_attr_value(p, name),
                    None => None,
                }
            },
        }
    }

    /// Replaces the attributes of node `i`.
    pub fn set_attrs(&mut self, i: usize, attrs: Vec<Attr>)
        requires
            old(self).wf(),
            i < old(self).nodes@.len(),
        ensures
            final(self).wf(),
            final(self).children == old(self).children,
            final(self).nodes@.len() == old(self).nodes@.len(),
            final(self).nodes@[i as int].attrs == attrs,
            final(self).nodes@[i as int].parent == old(self).nodes@[i as int].parent,
            final(self).nodes@[i as int].is_text == old(self).nodes@[i as int].is_text,
            final(self).nodes@[i as int].text == old(self).nodes@[i as int].text,
            final(self).nodes@[i as int].tag == old(self).nodes@[i as int].tag,
            forall|j: int| 0 <= j < old(self).nodes@.len() && j != i ==> #[trigger] final(self).nodes@[j]
                == old(self).nodes@[j],
    {
        let node = Node {
            is_text: self.nodes[i].is_text,
            tag: self.nodes[i].tag.clone(),
            text: self.nodes[i].text.clone(),
            attrs,
            parent: self.nodes[i].parent,
        };
        let ghost before = self.nodes@;
        self.nodes.set(i, node);
        proof {
            assert forall|k: int| 0 <= k < self.nodes@.len() implies #[trigger] node_wf(self.nodes@, self.children@, k) by {
                assert(node_wf(before, self.children@, k));
            }
        }
    }

    /// Gives each repeated `id` the circled digits of its repeat count, in
    /// node order: the first node with an id keeps it, the k-th repeat gets
    /// the circled digits of k. Nothing but ids changes.
    pub fn dedup_ids(&mut self)
        ensures
            no_suffix_clash(ids_of(old(self).nodes@)) ==> forall|i: int, j: int|
                0 <= i < j < old(self).nodes@.len() && #[trigger] ids_of(final(self).nodes@)[i] is Some
                    && #[trigger] ids_of(final(self).nodes@)[j] is Some ==> ids_of(final(self).nodes@)[i] != ids_of(
                    final(self).nodes@,
                )[j],
            forall|i: int| 0 <= i < old(self).nodes@.len() ==> ({
                let a = #[trigger] final(self).nodes@[i];
                let b = old(self).nodes@[i];
                a.tag == b.tag && a.text == b.text && a.is_text == b.is_text && a.parent == b.parent
            }),
            final(self).nodes@.len() == old(self).nodes@.len(),
            old(self).wf() ==> final(self).wf(),
            final(self).children@ == old(self).children@,
            forall|i: int, k: Seq<char>| 0 <= i < old(self).nodes@.len() && k != "id"@ ==> #[trigger] attr_of(
                final(self).nodes@[i].attrs@,
                k,
            ) == attr_of(old(self).nodes@[i].attrs@, k),
            forall|i: int| 0 <= i < old(self).nodes@.len() ==> #[trigger] ids_of(final(self).nodes@)[i]
                == deduped_id(ids_of(old(self).nodes@), i),
    {
        let ghost ids = ids_of(self.nodes@);
        let id_name = String::from_str("id");
        let n = self.nodes.len();
        let mut originals: Vec<Option<String>> = Vec::new();
        let mut i: usize = 0;
        while i < n
            invariant
                self.children@ == old(self).children@,
                n == old(self).nodes@.len(),
                forall|j: int| 0 <= j < n ==> (#[trigger] self.nodes@[j]).parent == old(self).nodes@[j].parent,
                n == self.nodes@.len(),
                ids == ids_of(self.nodes@),
                id_name@ == "id"@,
                i <= n,
                originals@.len() == i,
                forall|j: int| 0 <= j < i ==> match #[trigger] ids[j] {
                    Some(v) => originals@[j] is Some && originals@[j]->0@ == v,
                    None => originals@[j] is None,
                },
            decreases n - i,
        {
            originals.push(get_attr(&self.nodes[i].attrs, &id_name));
            i = i + 1;
        }
        let mut i: usize = 0;
        while i < n
            invariant
                self.children@ == old(self).children@,
                n == old(self).nodes@.len(),
                forall|j: int| 0 <= j < n ==> (#[trigger] self.nodes@[j]).parent == old(self).nodes@[j].parent,
                n == self.nodes@.len(),
                n == ids.len(),
                id_name@ == "id"@,
                i <= n,
                originals@.len() == n,
                forall|j: int| 0 <= j < n ==> match #[trigger] ids[j] {
                    Some(v) => originals@[j] is Some && originals@[j]->0@ == v,
                    None => originals@[j] is None,
                },
                forall|j: int| 0 <= j < i ==> #[trigger] ids_of(self.nodes@)[j] == deduped_id(ids, j),
                forall|j: int, k: Seq<char>| 0 <= j < n && k != "id"@ ==> #[trigger] attr_of(self.nodes@[j].attrs@, k)
                    == attr_of(old(self).nodes@[j].attrs@, k),
                forall|j: int| 0 <= j < n ==> ({
                    let a = #[trigger] self.nodes@[j];
                    let b = old(self).nodes@[j];
                    a.tag == b.tag && a.text == b.text && a.is_text == b.is_text && a.parent == b.parent
                }),
                forall|j: int| i <= j < n ==> #[trigger] ids_of(self.nodes@)[j] == ids[j],
            decreases n - i,
        {
            match &originals[i] {
                Some(v) => {
                    let mut k: usize = 0;
                    let mut j: usize = 0;
                    while j < i
                        invariant
                            i < n,
                            originals@.len() == n,
                            n == ids.len(),
                            ids[i as int] == Some(v@),
                            forall|m: int| 0 <= m < n ==> match #[trigger] ids[m] {
                                Some(w) => originals@[m] is Some && originals@[m]->0@ == w,
                                None => originals@[m] is None,
                            },
                            j <= i,
                            k <= j,
                            k == count_before(ids, j as int, v@),
                        decreases i - j,
                    {
                        let same = match &originals[j] {
                            Some(w) => str_eq(w, v),
                            None => false,
                        };
                        if same {
                            k = k + 1;
                        }
                        j = j + 1;
                    }
                    if k > 0 {
                        let mut new_id = v.clone();
                        let digits = to_circled_digits(k);
                        let suffix = string_of(&digits);
                        new_id.append(suffix.as_str());
                        let ghost before = self.nodes@;
                        let mut attrs = clone_attrs(&self.nodes[i].attrs);
                        insert_attr(&mut attrs, String::from_str("id"), new_id);
                        let node = Node {
                            is_text: self.nodes[i].is_text,
                            tag: self.nodes[i].tag.clone(),
                            text: self.nodes[i].text.clone(),
                            attrs,
                            parent: self.nodes[i].parent,
                        };
                        self.nodes.set(i, node);
                        proof {
                            assert forall|j: int| 0 <= j < n && j != i implies #[trigger] ids_of(self.nodes@)[j]
                                == ids_of(before)[j] by {
                                assert(self.nodes@[j] == before[j]);
                            }
                            assert forall|j: int| 0 <= j < n implies (#[trigger] self.nodes@[j]).parent
                                == old(self).nodes@[j].parent by {
                                if j != i {
                                    assert(self.nodes@[j] == before[j]);
                                }
                            }
                        }
                    }
                },
                None => {},
            }
            i = i + 1;
        }
        proof {
            if no_suffix_clash(ids) {
                assert forall|a: int, b: int|
                    0 <= a < b < n && #[trigger] ids_of(self.nodes@)[a] is Some && #[trigger] ids_of(self.nodes@)[b] is Some
                    implies ids_of(self.nodes@)[a] != ids_of(self.nodes@)[b] by {
                    lemma_deduped_ids_distinct(ids, a, b);
                }
            }
            if old(self).wf() {
                assert forall|k: int| 0 <= k < self.nodes@.len() implies #[trigger] node_wf(self.nodes@, self.children@, k) by {
                    assert(node_wf(old(self).nodes@, old(self).children@, k));
                }
            }
        }
    }
}

} // verus!
