//! Resolution of the document's untargeted links.
use vstd::prelude::*;
use crate::biblio::{resolved_biblio, Biblio, BiblioManager, BiblioSpec};
use crate::metadata::{split_on, split_trim, trims};
use crate::index::ExternalTerm;
use crate::name::{generate_name, lower_of, lowercase, name_of};
use crate::reference::{resolution, Query, QueryError, QuerySpec, RefSpec, Reference, ReferenceManager};
use crate::text::{chars_of, opt_view, str_eq, string_of_range};
use crate::tree::{attr_of, clone_attrs, get_attr, insert_attr, lemma_text_same, same_texts, text_of, Node, Tree};

verus! {

/// The part of a url after its last `#`; the whole url without one.
pub open spec fn fragment(url: Seq<char>) -> Seq<char>
    decreases url.len(),
{
    if url.len() == 0 {
        url
    } else if url.last() == '#' {
        Seq::empty()
    } else {
        fragment(url.drop_last()).push(url.last())
    }
}

fn fragment_exec(url: &String) -> (r: String)
    ensures
        r@ == fragment(url@),
{
    let s = chars_of(url.as_str());
    let mut k = s.len();
    assert(s@.take(k as int) =~= s@);
    assert(fragment(s@) + s@.subrange(k as int, s@.len() as int) =~= fragment(s@));
    while k > 0 && s[k - 1] != '#'
        invariant
            k <= s@.len(),
            fragment(s@) == fragment(s@.take(k as int)) + s@.subrange(k as int, s@.len() as int),
        decreases k,
    {
        let ghost t = s@.take(k as int);
        assert(t.drop_last() =~= s@.take(k - 1));
        assert(s@.subrange(k - 1, s@.len() as int) =~= seq![t.last()] + s@.subrange(k as int, s@.len() as int));
        assert(fragment(t) == fragment(t.drop_last()).push(t.last()));
        assert(fragment(s@.take(k - 1)).push(t.last()) + s@.subrange(k as int, s@.len() as int) =~= fragment(
            s@.take(k - 1),
        ) + s@.subrange(k - 1, s@.len() as int));
        k = k - 1;
    }
    proof {
        assert(s@.take(s@.len() as int) =~= s@);
        if k > 0 {
            assert(s@.take(k as int).last() == '#');
        } else {
            assert(s@.take(0) =~= Seq::<char>::empty());
        }
    }
    string_of_range(&s, k, s.len())
}

/// The query a link element asks: its `data-link-type` (`dfn` when it has
/// none), its text, and its `data-link-for` values.
pub open spec fn link_query(attrs: Seq<crate::tree::Attr>, text: Seq<char>) -> QuerySpec {
    QuerySpec {
        link_type: match attr_of(attrs, "data-link-type"@) {
            Some(t) => t,
            None => "dfn"@,
        },
        link_text: text,
        status: None,
        link_fors: match attr_of(attrs, "data-link-for"@) {
            Some(f) => Some(trims(split_on(f, ','))),
            None => None,
        },
        explicit_for: false,
    }
}

/// Points the link at node `i` to what its query resolves to: `href` is the
/// reference's url, `id` is `ref-for-` and the url's fragment.
pub fn resolve_link(tree: &mut Tree, i: usize, manager: &ReferenceManager, allow_inexact: bool) -> (r: Result<Reference, QueryError>)
    requires
        old(tree).wf(),
        i < old(tree).nodes@.len(),
    ensures
        final(tree).wf(),
        final(tree).children == old(tree).children,
        final(tree).nodes@.len() == old(tree).nodes@.len(),
        forall|j: int| 0 <= j < old(tree).nodes@.len() && j != i ==> #[trigger] final(tree).nodes@[j]
            == old(tree).nodes@[j],
        final(tree).nodes@[i as int].is_text == old(tree).nodes@[i as int].is_text,
        final(tree).nodes@[i as int].text == old(tree).nodes@[i as int].text,
        final(tree).nodes@[i as int].tag == old(tree).nodes@[i as int].tag,
        final(tree).nodes@[i as int].parent == old(tree).nodes@[i as int].parent,
        r is Err ==> *final(tree) == *old(tree),
        ({
            let q = link_query(old(tree).nodes@[i as int].attrs@, text_of(old(tree).nodes@, old(tree).children@, i as int));
            match resolution(*manager, q, allow_inexact) {
                Ok(x) => r is Ok && r->Ok_0@ == x && attr_of(final(tree).nodes@[i as int].attrs@, "href"@) == Some(x.url) && attr_of(
                    final(tree).nodes@[i as int].attrs@,
                    "id"@,
                ) == Some("ref-for-"@ + fragment(x.url)) && attr_of(final(tree).nodes@[i as int].attrs@, "data-link-type"@)
                    == Some(q.link_type),
                Err(e) => r is Err && r->Err_0 == e,
            }
        }),
{
    proof {
        reveal_strlit("data-link-type");
        reveal_strlit("href");
        reveal_strlit("id");
        assert("data-link-type"@.len() == 14);
        assert("href"@.len() == 4);
        assert("id"@.len() == 2);
    }
    let type_attr = String::from_str("data-link-type");
    let link_type = match get_attr(&tree.nodes[i].attrs, &type_attr) {
        Some(t) => t,
        None => String::from_str("dfn"),
    };
    let link_fors = match get_attr(&tree.nodes[i].attrs, &String::from_str("data-link-for")) {
        Some(f) => Some(split_trim(f.as_str(), ',')),
        None => None,
    };
    let text = tree.text_content(i);
    let query = Query { link_type: link_type.clone(), link_text: text, status: None, link_fors, explicit_for: false };
    assert(query@ == link_query(tree.nodes@[i as int].attrs@, text_of(tree.nodes@, tree.children@, i as int)));
    let reference = match manager.get_reference(&query, allow_inexact) {
        Ok(x) => x,
        Err(e) => {
            return Err(e);
        },
    };
    let mut attrs = clone_attrs(&tree.nodes[i].attrs);
    insert_attr(&mut attrs, type_attr, link_type);
    insert_attr(&mut attrs, String::from_str("href"), reference.url.clone());
    let mut id = String::from_str("ref-for-");
    let frag = fragment_exec(&reference.url);
    id.append(frag.as_str());
    insert_attr(&mut attrs, String::from_str("id"), id);
    tree.set_attrs(i, attrs);
    Ok(reference)
}

/// The use of a term of another specification: the reference names a spec
/// and it is not, regardless of case, the document's own.
pub fn external_use(reference: &Reference, doc_spec: &Option<String>, link_text: &String) -> (r: Option<ExternalTerm>)
    ensures
        r is Some == (reference.spec is Some && doc_spec is Some && lower_of(reference.spec->0@) != lower_of(
            doc_spec->0@,
        )),
        r is Some ==> r->0.spec@ == reference.spec->0@ && r->0.link_text@ == link_text@ && r->0.url@
            == reference.url@,
{
    match (&reference.spec, doc_spec) {
        (Some(s), Some(d)) => {
            let a = lowercase(s.as_str());
            let b = lowercase(d.as_str());
            if str_eq(&a, &b) {
                None
            } else {
                Some(ExternalTerm { spec: s.clone(), link_text: link_text.clone(), url: reference.url.clone() })
            }
        },
        _ => None,
    }
}

/// Whether node `i` is a link that has no target yet and is no citation.
pub fn is_untargeted_link(tree: &Tree, i: usize) -> (r: bool)
    requires
        i < tree.nodes@.len(),
    ensures
        r == (!tree.nodes@[i as int].is_text && tree.nodes@[i as int].tag@ == "a"@ && attr_of(
            tree.nodes@[i as int].attrs@,
            "href"@,
        ) is None && attr_of(tree.nodes@[i as int].attrs@, "data-link-type"@) != Some("biblio"@)),
{
    let node = &tree.nodes[i];
    if node.is_text || !str_eq(&node.tag, &String::from_str("a")) {
        return false;
    }
    if get_attr(&node.attrs, &String::from_str("href")).is_some() {
        return false;
    }
    match get_attr(&node.attrs, &String::from_str("data-link-type")) {
        Some(t) => !str_eq(&t, &String::from_str("biblio")),
        None => true,
    }
}

/// A link that has no target yet and is no citation.
pub open spec fn untargeted(n: Node) -> bool {
    !n.is_text && n.tag@ == "a"@ && attr_of(n.attrs@, "href"@) is None && attr_of(n.attrs@, "data-link-type"@)
        != Some("biblio"@)
}

/// What the link at node `i` resolves to.
pub open spec fn link_target(m: ReferenceManager, nodes: Seq<Node>, kids: Seq<Vec<usize>>, i: int, allow_inexact: bool) -> Result<RefSpec, QueryError> {
    resolution(m, link_query(nodes[i].attrs@, text_of(nodes, kids, i)), allow_inexact)
}

/// The use of another specification's term that a resolved link records.
pub open spec fn external_term(x: RefSpec, doc: Option<Seq<char>>, text: Seq<char>) -> Seq<(Seq<char>, Seq<char>, Seq<char>)> {
    if x.spec is Some && doc is Some && lower_of(x.spec->0) != lower_of(doc->0) {
        seq![(x.spec->0, text, x.url)]
    } else {
        Seq::empty()
    }
}

/// The external uses recorded by the untargeted links among the first `n` nodes.
pub open spec fn uses_upto(m: ReferenceManager, nodes: Seq<Node>, kids: Seq<Vec<usize>>, n: int, allow_inexact: bool) -> Seq<(Seq<char>, Seq<char>, Seq<char>)>
    decreases n,
{
    if n <= 0 {
        Seq::empty()
    } else {
        uses_upto(m, nodes, kids, n - 1, allow_inexact) + if untargeted(nodes[n - 1]) {
            match link_target(m, nodes, kids, n - 1, allow_inexact) {
                Ok(x) => external_term(x, opt_view(m.spec), text_of(nodes, kids, n - 1)),
                Err(_) => Seq::empty(),
            }
        } else {
            Seq::empty()
        }
    }
}

pub open spec fn term_views(v: Seq<ExternalTerm>) -> Seq<(Seq<char>, Seq<char>, Seq<char>)> {
    v.map_values(|t: ExternalTerm| (t.spec@, t.link_text@, t.url@))
}

/// Resolves every untargeted link of the tree, in document order, stopping
/// at the first that resolves to nothing, and records the terms used from
/// other specifications; then makes the ids unique again.
#[verifier::rlimit(60)]
pub fn process_auto_links(
    tree: &mut Tree,
    manager: &ReferenceManager,
    allow_inexact: bool,
    uses: &mut Vec<ExternalTerm>,
) -> (r: Result<(), QueryError>)
    requires
        old(tree).wf(),
    ensures
        final(tree).wf(),
        final(tree).nodes@.len() == old(tree).nodes@.len(),
        r is Ok <==> forall|i: int| 0 <= i < old(tree).nodes@.len() && untargeted(#[trigger] old(tree).nodes@[i])
            ==> link_target(*manager, old(tree).nodes@, old(tree).children@, i, allow_inexact) is Ok,
        r matches Err(e) ==> exists|i: int| 0 <= i < old(tree).nodes@.len() && untargeted(#[trigger] old(tree).nodes@[i])
            && link_target(*manager, old(tree).nodes@, old(tree).children@, i, allow_inexact) == Err::<RefSpec, QueryError>(e),
        r is Ok ==> forall|i: int| 0 <= i < old(tree).nodes@.len() && untargeted(#[trigger] old(tree).nodes@[i]) ==> ({
            let x = link_target(*manager, old(tree).nodes@, old(tree).children@, i, allow_inexact)->Ok_0;
            let a = final(tree).nodes@[i].attrs@;
            &&& attr_of(a, "href"@) == Some(x.url)
            &&& attr_of(a, "data-link-type"@) == Some(link_query(old(tree).nodes@[i].attrs@, Seq::empty()).link_type)
        }),
        r is Ok ==> forall|i: int, k: Seq<char>| 0 <= i < old(tree).nodes@.len() && !untargeted(
            #[trigger] old(tree).nodes@[i],
        ) && k != "id"@ ==> #[trigger] attr_of(final(tree).nodes@[i].attrs@, k) == attr_of(old(tree).nodes@[i].attrs@, k),
        r is Ok ==> term_views(final(uses)@) == term_views(old(uses)@) + uses_upto(
            *manager,
            old(tree).nodes@,
            old(tree).children@,
            old(tree).nodes@.len() as int,
            allow_inexact,
        ),
{
    let ghost o = tree.nodes@;
    let ghost kids = tree.children@;
    let n = tree.nodes.len();
    let mut i: usize = 0;
    while i < n
        invariant
            tree.wf(),
            tree.nodes@.len() == n,
            n == o.len(),
            o == old(tree).nodes@,
            kids == old(tree).children@,
            tree.children == old(tree).children,
            i <= n,
            same_texts(tree.nodes@, o),
            forall|j: int| i <= j < n ==> #[trigger] tree.nodes@[j] == o[j],
            forall|j: int| 0 <= j < i && untargeted(#[trigger] o[j]) ==> link_target(*manager, o, kids, j, allow_inexact) is Ok,
            forall|j: int| 0 <= j < i && untargeted(#[trigger] o[j]) ==> ({
                let x = link_target(*manager, o, kids, j, allow_inexact)->Ok_0;
                let a = tree.nodes@[j].attrs@;
                &&& attr_of(a, "href"@) == Some(x.url)
                &&& attr_of(a, "data-link-type"@) == Some(link_query(o[j].attrs@, Seq::empty()).link_type)
            }),
            forall|j: int| 0 <= j < i && !untargeted(#[trigger] o[j]) ==> tree.nodes@[j] == o[j],
            term_views(uses@) == term_views(old(uses)@) + uses_upto(*manager, o, kids, i as int, allow_inexact),
        decreases n - i,
    {
        proof {
            assert(tree.nodes@[i as int] == o[i as int]);
        }
        if is_untargeted_link(tree, i) {
            let ghost before = tree.nodes@;
            proof {
                lemma_text_same(before, o, kids, i as int);
            }
            match resolve_link(tree, i, manager, allow_inexact) {
                Ok(reference) => {
                    let text = tree.text_content(i);
                    let ghost uv = term_views(uses@);
                    proof {
                        let after = tree.nodes@;
                        assert(same_texts(after, o)) by {
                            assert forall|j: int| 0 <= j < after.len() implies (#[trigger] after[j]).is_text == o[j].is_text
                                && after[j].text == o[j].text by {
                                assert(before[j].is_text == o[j].is_text);
                                if j != i {
                                    assert(after[j] == before[j]);
                                }
                            }
                        }
                        lemma_text_same(after, o, kids, i as int);
                    }
                    match external_use(&reference, &manager.spec, &text) {
                        Some(u) => {
                            uses.push(u);
                            assert(term_views(uses@) =~= uv.push((u.spec@, u.link_text@, u.url@)));
                        },
                        None => {},
                    }
                    proof {
                        let x = link_target(*manager, o, kids, i as int, allow_inexact)->Ok_0;
                        assert(uses_upto(*manager, o, kids, i + 1, allow_inexact) == uses_upto(*manager, o, kids, i as int, allow_inexact)
                            + external_term(x, opt_view(manager.spec), text_of(o, kids, i as int)));
                        assert(term_views(uses@) =~= term_views(old(uses)@) + uses_upto(*manager, o, kids, i + 1, allow_inexact));
                        assert(link_query(o[i as int].attrs@, Seq::empty()).link_type == link_query(
                            o[i as int].attrs@,
                            text_of(o, kids, i as int),
                        ).link_type);
                    }
                },
                Err(e) => {
                    proof {
                        assert(untargeted(o[i as int]));
                    }
                    return Err(e);
                },
            }
        } else {
            proof {
                assert(uses_upto(*manager, o, kids, i + 1, allow_inexact) =~= uses_upto(*manager, o, kids, i as int, allow_inexact));
            }
        }
        i = i + 1;
    }
    let ghost pre = tree.nodes@;
    tree.dedup_ids();
    proof {
        reveal_strlit("href");
        reveal_strlit("data-link-type");
        reveal_strlit("id");
        assert("href"@.len() == 4);
        assert("data-link-type"@.len() == 14);
        assert("id"@.len() == 2);
        assert forall|j: int, k: Seq<char>| 0 <= j < n && !untargeted(#[trigger] o[j]) && k != "id"@ implies #[trigger] attr_of(
            tree.nodes@[j].attrs@,
            k,
        ) == attr_of(o[j].attrs@, k) by {
            assert(pre[j] == o[j]);
        }
        assert forall|j: int| 0 <= j < n && untargeted(#[trigger] o[j]) implies ({
            let x = link_target(*manager, o, kids, j, allow_inexact)->Ok_0;
            let a = tree.nodes@[j].attrs@;
            &&& attr_of(a, "href"@) == Some(x.url)
            &&& attr_of(a, "data-link-type"@) == Some(link_query(o[j].attrs@, Seq::empty()).link_type)
        }) by {
            assert(attr_of(tree.nodes@[j].attrs@, "href"@) == attr_of(pre[j].attrs@, "href"@));
            assert(attr_of(tree.nodes@[j].attrs@, "data-link-type"@) == attr_of(pre[j].attrs@, "data-link-type"@));
        }
    }
    Ok(())
}

/// The text of a citation link: without its brackets when it is `[...]`.
pub open spec fn citation_key(text: Seq<char>) -> Seq<char> {
    if text.len() >= 2 && text[0] == '[' && text.last() == ']' {
        text.subrange(1, text.len() - 1)
    } else {
        text
    }
}

/// A citation link whose `data-biblio-type` is neither `normative` nor
/// `informative`.
#[derive(Debug, Clone, PartialEq, Eq)]
pub struct BiblioTypeError {
    pub biblio_type: Option<String>,
}

/// The entries cited by the document, each under the text it was cited by.
#[derive(Debug)]
pub struct Citations {
    pub normative: Vec<(String, Biblio)>,
    pub informative: Vec<(String, Biblio)>,
}

/// Whether node `i` is a citation link.
pub fn is_citation_link(tree: &Tree, i: usize) -> (r: bool)
    requires
        i < tree.nodes@.len(),
    ensures
        r == (!tree.nodes@[i as int].is_text && tree.nodes@[i as int].tag@ == "a"@ && attr_of(
            tree.nodes@[i as int].attrs@,
            "data-link-type"@,
        ) == Some("biblio"@)),
{
    let node = &tree.nodes[i];
    if node.is_text || !str_eq(&node.tag, &String::from_str("a")) {
        return false;
    }
    match get_attr(&node.attrs, &String::from_str("data-link-type")) {
        Some(t) => str_eq(&t, &String::from_str("biblio")),
        None => false,
    }
}

fn citation_key_exec(text: &String) -> (r: String)
    ensures
        r@ == citation_key(text@),
{
    let s = chars_of(text.as_str());
    if s.len() >= 2 && s[0] == '[' && s[s.len() - 1] == ']' {
        string_of_range(&s, 1, s.len() - 1)
    } else {
        string_of_range(&s, 0, s.len())
    }
}

/// Points the citation link at node `i` to its bibliography entry, when the
/// store has one: `href` becomes `#biblio-` and the name generated from the
/// cited key, and the entry is recorded as normative or informative as the
/// link's `data-biblio-type` says.
pub fn resolve_citation(tree: &mut Tree, i: usize, biblios: &BiblioManager, cited: &mut Citations) -> (r: Result<(), BiblioTypeError>)
    requires
        old(tree).wf(),
        i < old(tree).nodes@.len(),
    ensures
        final(tree).wf(),
        final(tree).children == old(tree).children,
        final(tree).nodes@.len() == old(tree).nodes@.len(),
        forall|j: int| 0 <= j < old(tree).nodes@.len() && j != i ==> #[trigger] final(tree).nodes@[j]
            == old(tree).nodes@[j],
        ({
            let key = citation_key(text_of(old(tree).nodes@, old(tree).children@, i as int));
            let entry = resolved_biblio(biblios.biblio_source.biblios@, lower_of(key));
            let kind = attr_of(old(tree).nodes@[i as int].attrs@, "data-biblio-type"@);
            let n0 = old(cited).normative@;
            let n1 = final(cited).normative@;
            let i0 = old(cited).informative@;
            let i1 = final(cited).informative@;
            let after = final(tree).nodes@[i as int].attrs@;
            &&& entry is None ==> r is Ok && final(tree).nodes@[i as int] == old(tree).nodes@[i as int] && n1 == n0
                && i1 == i0
            &&& entry is Some ==> (r is Ok <==> (kind == Some("normative"@) || kind == Some("informative"@)))
            &&& entry is Some && r is Ok ==> attr_of(after, "href"@) == Some("#biblio-"@ + name_of(lower_of(key)))
            &&& entry is Some && kind == Some("normative"@) ==> cite_views(n1) == cite_views(n0).push((key, entry->0))
                && i1 == i0
            &&& entry is Some && kind == Some("informative"@) ==> cite_views(i1) == cite_views(i0).push((key, entry->0))
                && n1 == n0
            &&& r is Err ==> n1 == n0 && i1 == i0 && *final(tree) == *old(tree)
        }),
        final(tree).nodes@[i as int].is_text == old(tree).nodes@[i as int].is_text,
        final(tree).nodes@[i as int].text == old(tree).nodes@[i as int].text,
        final(tree).nodes@[i as int].tag == old(tree).nodes@[i as int].tag,
        final(tree).nodes@[i as int].parent == old(tree).nodes@[i as int].parent,
{
    proof {
        reveal_strlit("data-biblio-type");
        reveal_strlit("href");
        reveal_strlit("normative");
        reveal_strlit("informative");
        assert("normative"@.len() == 9);
        assert("informative"@.len() == 11);
    }
    let text = tree.text_content(i);
    let key = citation_key_exec(&text);
    let entry = match biblios.get_biblio(key.as_str()) {
        Some(b) => b,
        None => {
            return Ok(());
        },
    };
    let kind = get_attr(&tree.nodes[i].attrs, &String::from_str("data-biblio-type"));
    let normative = match &kind {
        Some(k) => {
            if str_eq(k, &String::from_str("normative")) {
                true
            } else if str_eq(k, &String::from_str("informative")) {
                false
            } else {
                return Err(BiblioTypeError { biblio_type: kind.clone() });
            }
        },
        None => {
            return Err(BiblioTypeError { biblio_type: None });
        },
    };
    let mut href = String::from_str("#biblio-");
    let name = generate_name(key.as_str());
    href.append(name.as_str());
    let mut attrs = clone_attrs(&tree.nodes[i].attrs);
    insert_attr(&mut attrs, String::from_str("href"), href);
    tree.set_attrs(i, attrs);
    let ghost kv = key@;
    let ghost ev = entry@;
    if normative {
        let ghost before = cite_views(cited.normative@);
        cited.normative.push((key, entry));
        assert(cite_views(cited.normative@) =~= before.push((kv, ev)));
    } else {
        let ghost before = cite_views(cited.informative@);
        cited.informative.push((key, entry));
        assert(cite_views(cited.informative@) =~= before.push((kv, ev)));
    }
    Ok(())
}

pub open spec fn cite_views(v: Seq<(String, Biblio)>) -> Seq<(Seq<char>, BiblioSpec)> {
    v.map_values(|p: (String, Biblio)| (p.0@, p.1@))
}

/// A citation link.
pub open spec fn citation(n: Node) -> bool {
    !n.is_text && n.tag@ == "a"@ && attr_of(n.attrs@, "data-link-type"@) == Some("biblio"@)
}

/// The key node `i` cites and the entry it resolves to.
pub open spec fn cited_key(nodes: Seq<Node>, kids: Seq<Vec<usize>>, i: int) -> Seq<char> {
    citation_key(text_of(nodes, kids, i))
}

pub open spec fn cited_entry(b: BiblioManager, nodes: Seq<Node>, kids: Seq<Vec<usize>>, i: int) -> Option<BiblioSpec> {
    resolved_biblio(b.biblio_source.biblios@, lower_of(cited_key(nodes, kids, i)))
}

/// The entries the citations among the first `n` nodes record as `kind`.
pub open spec fn cited_upto(b: BiblioManager, nodes: Seq<Node>, kids: Seq<Vec<usize>>, n: int, kind: Seq<char>) -> Seq<(Seq<char>, BiblioSpec)>
    decreases n,
{
    if n <= 0 {
        Seq::empty()
    } else {
        cited_upto(b, nodes, kids, n - 1, kind) + if citation(nodes[n - 1]) && cited_entry(b, nodes, kids, n - 1) is Some
            && attr_of(nodes[n - 1].attrs@, "data-biblio-type"@) == Some(kind) {
            seq![(cited_key(nodes, kids, n - 1), cited_entry(b, nodes, kids, n - 1)->0)]
        } else {
            Seq::empty()
        }
    }
}

/// A citation whose entry exists is marked normative or informative.
pub open spec fn citation_ok(b: BiblioManager, nodes: Seq<Node>, kids: Seq<Vec<usize>>, i: int) -> bool {
    citation(nodes[i]) && cited_entry(b, nodes, kids, i) is Some ==> (attr_of(nodes[i].attrs@, "data-biblio-type"@)
        == Some("normative"@) || attr_of(nodes[i].attrs@, "data-biblio-type"@) == Some("informative"@))
}

/// Resolves every citation link of the tree, in document order, stopping at
/// the first whose entry exists but whose type is neither normative nor
/// informative.
#[verifier::rlimit(60)]
pub fn process_biblio_links(tree: &mut Tree, biblios: &BiblioManager, cited: &mut Citations) -> (r: Result<(), BiblioTypeError>)
    requires
        old(tree).wf(),
    ensures
        final(tree).wf(),
        final(tree).nodes@.len() == old(tree).nodes@.len(),
        r is Ok <==> forall|i: int| 0 <= i < old(tree).nodes@.len() ==> #[trigger] citation_ok(
            *biblios,
            old(tree).nodes@,
            old(tree).children@,
            i,
        ),
        r is Ok ==> forall|i: int| 0 <= i < old(tree).nodes@.len() ==> if citation(#[trigger] old(tree).nodes@[i])
            && cited_entry(*biblios, old(tree).nodes@, old(tree).children@, i) is Some {
            attr_of(final(tree).nodes@[i].attrs@, "href"@) == Some(
                "#biblio-"@ + name_of(lower_of(cited_key(old(tree).nodes@, old(tree).children@, i))),
            )
        } else {
            final(tree).nodes@[i] == old(tree).nodes@[i]
        },
        r is Ok ==> cite_views(final(cited).normative@) == cite_views(old(cited).normative@) + cited_upto(
            *biblios,
            old(tree).nodes@,
            old(tree).children@,
            old(tree).nodes@.len() as int,
            "normative"@,
        ),
        r is Ok ==> cite_views(final(cited).informative@) == cite_views(old(cited).informative@) + cited_upto(
            *biblios,
            old(tree).nodes@,
            old(tree).children@,
            old(tree).nodes@.len() as int,
            "informative"@,
        ),
{
    proof {
        reveal_strlit("normative");
        reveal_strlit("informative");
        assert("normative"@.len() == 9);
        assert("informative"@.len() == 11);
    }
    let ghost o = tree.nodes@;
    let ghost kids = tree.children@;
    let n = tree.nodes.len();
    let mut i: usize = 0;
    while i < n
        invariant
            tree.wf(),
            tree.nodes@.len() == n,
            n == o.len(),
            o == old(tree).nodes@,
            kids == old(tree).children@,
            tree.children == old(tree).children,
            i <= n,
            same_texts(tree.nodes@, o),
            forall|j: int| i <= j < n ==> #[trigger] tree.nodes@[j] == o[j],
            forall|j: int| 0 <= j < i ==> #[trigger] citation_ok(*biblios, o, kids, j),
            forall|j: int| 0 <= j < i ==> if citation(#[trigger] o[j]) && cited_entry(*biblios, o, kids, j) is Some {
                attr_of(tree.nodes@[j].attrs@, "href"@) == Some("#biblio-"@ + name_of(lower_of(cited_key(o, kids, j))))
            } else {
                tree.nodes@[j] == o[j]
            },
            cite_views(cited.normative@) == cite_views(old(cited).normative@) + cited_upto(*biblios, o, kids, i as int, "normative"@),
            cite_views(cited.informative@) == cite_views(old(cited).informative@) + cited_upto(*biblios, o, kids, i as int, "informative"@),
        decreases n - i,
    {
        proof {
            assert(tree.nodes@[i as int] == o[i as int]);
        }
        let ghost before = tree.nodes@;
        let ghost n0 = cite_views(cited.normative@);
        let ghost i0 = cite_views(cited.informative@);
        if is_citation_link(tree, i) {
            proof {
                lemma_text_same(before, o, kids, i as int);
            }
            match resolve_citation(tree, i, biblios, cited) {
                Ok(()) => {},
                Err(e) => {
                    proof {
                        assert(!citation_ok(*biblios, o, kids, i as int));
                    }
                    return Err(e);
                },
            }
            proof {
                let after = tree.nodes@;
                assert(same_texts(after, o)) by {
                    assert forall|j: int| 0 <= j < after.len() implies (#[trigger] after[j]).is_text == o[j].is_text
                        && after[j].text == o[j].text by {
                        assert(before[j].is_text == o[j].is_text);
                        if j != i {
                            assert(after[j] == before[j]);
                        }
                    }
                }
                assert(n0 + seq![(cited_key(o, kids, i as int), cited_entry(*biblios, o, kids, i as int)->0)] =~= n0.push(
                    (cited_key(o, kids, i as int), cited_entry(*biblios, o, kids, i as int)->0),
                ));
                assert(i0 + seq![(cited_key(o, kids, i as int), cited_entry(*biblios, o, kids, i as int)->0)] =~= i0.push(
                    (cited_key(o, kids, i as int), cited_entry(*biblios, o, kids, i as int)->0),
                ));
                assert(n0 + Seq::<(Seq<char>, BiblioSpec)>::empty() =~= n0);
                assert(i0 + Seq::<(Seq<char>, BiblioSpec)>::empty() =~= i0);
                assert(cite_views(old(cited).normative@) + cited_upto(*biblios, o, kids, i + 1, "normative"@) =~= cite_views(
                    cited.normative@,
                ));
                assert(cite_views(old(cited).informative@) + cited_upto(*biblios, o, kids, i + 1, "informative"@) =~= cite_views(
                    cited.informative@,
                ));
            }
        } else {
            proof {
                assert(cited_upto(*biblios, o, kids, i + 1, "normative"@) =~= cited_upto(*biblios, o, kids, i as int, "normative"@));
                assert(cited_upto(*biblios, o, kids, i + 1, "informative"@) =~= cited_upto(*biblios, o, kids, i as int, "informative"@));
            }
        }
        i = i + 1;
    }
    Ok(())
}

} // verus!
