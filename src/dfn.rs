//! The definition classifier: each definition gets a type, an export mark
//! and an id.
use vstd::prelude::*;
use crate::name::{generate_name, lower_of, name_of};
use crate::metadata::{split_on, split_trim, trims};
use crate::reference::{lookup, RefSpec, ReferenceManager};
use crate::text::{opt_view, views};
use crate::tree::Node;
use crate::tree::{
    agree_upto, attr_of, clone_attrs, closest_attr, closest_export, deduped_id, inherited_export, lemma_closest_export_prefix,
    lemma_text_same, same_texts, export_mark, get_attr, ids_of, insert_attr, text_of, Attr, Tree,
};

verus! {

/// A definition whose type is none of the known ones.
#[derive(Debug, Clone, PartialEq, Eq)]
pub struct DfnError {
    pub dfn_type: String,
}

/// The definition types: `dfn` and those that have a class of their own.
pub open spec fn known_dfn_type(t: Seq<char>) -> bool {
    t == "dfn"@ || t == "property"@ || t == "descriptor"@
}

/// What a generated id starts with, by definition type.
pub open spec fn id_prefix(t: Seq<char>) -> Seq<char> {
    if t == "property"@ {
        "propdef-"@
    } else if t == "descriptor"@ {
        "descdef-"@
    } else {
        Seq::empty()
    }
}

/// The type a definition's attributes give it: `dfn` by default.
pub open spec fn dfn_type_of(attrs: Seq<Attr>) -> Seq<char> {
    match attr_of(attrs, "data-dfn-type"@) {
        Some(t) => t,
        None => "dfn"@,
    }
}


/// What a classified definition's attributes say: its type, whether it is
/// exported, and its id.
pub open spec fn classified(before: Seq<Attr>, after: Seq<Attr>, inherited: Option<bool>, text: Seq<char>) -> bool {
    let t = dfn_type_of(before);
    &&& attr_of(after, "data-dfn-type"@) == Some(t)
    &&& export_mark(after) == match export_mark(before) {
        Some(b) => Some(b),
        None => match inherited {
            Some(b) => Some(b),
            None => Some(t != "dfn"@),
        },
    }
    &&& attr_of(after, "id"@) == match attr_of(before, "id"@) {
        Some(id) => Some(id),
        None => Some(id_prefix(t) + name_of(lower_of(text))),
    }
}

fn lit_eq(s: &String, lit: &str) -> (r: bool)
    ensures
        r == (s@ == lit@),
{
    let l = String::from_str(lit);
    s.eq(&l)
}

/// Gives the definition at node `i` its type, export mark and id.
pub fn classify_dfn(tree: &mut Tree, i: usize) -> (r: Result<(), DfnError>)
    requires
        old(tree).wf(),
        i < old(tree).nodes@.len(),
    ensures
        final(tree).wf(),
        final(tree).children == old(tree).children,
        final(tree).nodes@.len() == old(tree).nodes@.len(),
        forall|j: int| 0 <= j < old(tree).nodes@.len() && j != i ==> #[trigger] final(tree).nodes@[j]
            == old(tree).nodes@[j],
        final(tree).nodes@[i as int].is_text == old(tree).nodes@[i as int].is_text,
        final(tree).nodes@[i as int].text == old(tree).nodes@[i as int].text,
        final(tree).nodes@[i as int].parent == old(tree).nodes@[i as int].parent,
        r is Err ==> *final(tree) == *old(tree),
        r is Err <==> !known_dfn_type(dfn_type_of(old(tree).nodes@[i as int].attrs@)),
        r is Err ==> r->Err_0.dfn_type@ == dfn_type_of(old(tree).nodes@[i as int].attrs@),
        r is Ok ==> classified(
            old(tree).nodes@[i as int].attrs@,
            final(tree).nodes@[i as int].attrs@,
            inherited_export(old(tree).nodes@, i as int),
            text_of(old(tree).nodes@, old(tree).children@, i as int),
        ),
{
    let ghost a0 = tree.nodes@[i as int].attrs@;
    proof {
        reveal_strlit("data-dfn-type");
        reveal_strlit("data-export");
        reveal_strlit("data-noexport");
        reveal_strlit("id");
        reveal_strlit("dfn");
        reveal_strlit("property");
        reveal_strlit("descriptor");
        assert("data-dfn-type"@.len() == 13);
        assert("data-export"@.len() == 11);
        assert("data-noexport"@.len() == 13);
        assert("data-noexport"@[5] != "data-dfn-type"@[5]);
        assert("id"@.len() == 2);
    }
    let type_attr = String::from_str("data-dfn-type");
    let explicit = get_attr(&tree.nodes[i].attrs, &type_attr);
    let dfn_type = match explicit {
        Some(t) => t,
        None => String::from_str("dfn"),
    };
    let is_dfn = lit_eq(&dfn_type, "dfn");
    let is_property = lit_eq(&dfn_type, "property");
    let is_descriptor = lit_eq(&dfn_type, "descriptor");
    if !is_dfn && !is_property && !is_descriptor {
        return Err(DfnError { dfn_type });
    }
    let inherited = tree.closest_export_mark(i);
    let text = tree.text_content(i);
    let mut attrs = clone_attrs(&tree.nodes[i].attrs);
    insert_attr(&mut attrs, type_attr, dfn_type.clone());
    let ghost a1 = attrs@;
    assert(attr_of(a1, "data-export"@) == attr_of(a0, "data-export"@));
    assert(attr_of(a1, "data-noexport"@) == attr_of(a0, "data-noexport"@));
    assert(attr_of(a1, "id"@) == attr_of(a0, "id"@));
    assert(dfn_type@ == dfn_type_of(a0));
    let has_export = get_attr(&tree.nodes[i].attrs, &String::from_str("data-export")).is_some();
    let has_noexport = get_attr(&tree.nodes[i].attrs, &String::from_str("data-noexport")).is_some();
    if !has_export && !has_noexport {
        let exported = match inherited {
            Some(b) => b,
            None => !is_dfn,
        };
        if exported {
            insert_attr(&mut attrs, String::from_str("data-export"), String::new());
        } else {
            insert_attr(&mut attrs, String::from_str("data-noexport"), String::new());
        }
    }
    let ghost a2 = attrs@;
    assert(attr_of(a2, "data-dfn-type"@) == Some(dfn_type_of(a0)));
    assert(attr_of(a2, "id"@) == attr_of(a0, "id"@));
    assert(export_mark(a2) == match export_mark(a0) {
        Some(b) => Some(b),
        None => match inherited_export(old(tree).nodes@, i as int) {
            Some(b) => Some(b),
            None => Some(dfn_type_of(a0) != "dfn"@),
        },
    });
    if get_attr(&tree.nodes[i].attrs, &String::from_str("id")).is_none() {
        let name = generate_name(text.as_str());
        let mut id = if is_property {
            String::from_str("propdef-")
        } else if is_descriptor {
            String::from_str("descdef-")
        } else {
            String::new()
        };
        id.append(name.as_str());
        insert_attr(&mut attrs, String::from_str("id"), id);
    }
    tree.set_attrs(i, attrs);
    Ok(())
}

/// The local reference of the definition at node `d`: its type, `#` and its
/// id, status `local`, and the for-values of its closest `data-dfn-for`.
pub open spec fn dfn_ref(nodes: Seq<Node>, d: int, spec: Option<Seq<char>>) -> RefSpec {
    let a = nodes[d].attrs@;
    RefSpec {
        link_type: dfn_type_of(a),
        spec: spec,
        status: "local"@,
        url: "#"@ + match attr_of(a, "id"@) {
            Some(id) => id,
            None => Seq::empty(),
        },
        link_fors: match closest_attr(nodes, d, "data-dfn-for"@) {
            Some(f) => trims(split_on(f, ',')),
            None => Seq::empty(),
        },
    }
}

/// The local references of the definitions `dfns` whose text is `key`, in order.
pub open spec fn dfn_refs_for(nodes: Seq<Node>, kids: Seq<Vec<usize>>, dfns: Seq<usize>, spec: Option<Seq<char>>, key: Seq<char>) -> Seq<RefSpec>
    decreases dfns.len(),
{
    if dfns.len() == 0 {
        Seq::empty()
    } else {
        dfn_refs_for(nodes, kids, dfns.drop_last(), spec, key) + if text_of(nodes, kids, dfns.last() as int) == key {
            seq![dfn_ref(nodes, dfns.last() as int, spec)]
        } else {
            Seq::empty()
        }
    }
}

/// Classifies every definition of `dfns`, stopping at the first of an
/// unknown type.
pub fn classify_dfns(tree: &mut Tree, dfns: &Vec<usize>) -> (r: Result<(), DfnError>)
    requires
        old(tree).wf(),
        forall|k: int| 0 <= k < dfns@.len() ==> #[trigger] dfns@[k] < old(tree).nodes@.len(),
        forall|k: int, m: int| 0 <= k < m < dfns@.len() ==> #[trigger] dfns@[k] < #[trigger] dfns@[m],
    ensures
        final(tree).wf(),
        final(tree).nodes@.len() == old(tree).nodes@.len(),
        final(tree).children == old(tree).children,
        r is Err <==> exists|k: int| 0 <= k < dfns@.len() && !known_dfn_type(
            dfn_type_of(old(tree).nodes@[#[trigger] dfns@[k] as int].attrs@),
        ),
        r is Ok ==> forall|k: int| 0 <= k < dfns@.len() ==> classified(
            old(tree).nodes@[#[trigger] dfns@[k] as int].attrs@,
            final(tree).nodes@[dfns@[k] as int].attrs@,
            inherited_export(final(tree).nodes@, dfns@[k] as int),
            text_of(old(tree).nodes@, old(tree).children@, dfns@[k] as int),
        ),
        r is Ok ==> forall|j: int| 0 <= j < old(tree).nodes@.len() && !dfns@.contains(j as usize)
            ==> #[trigger] final(tree).nodes@[j] == old(tree).nodes@[j],
{
    let mut k: usize = 0;
    while k < dfns.len()
        invariant
            tree.wf(),
            tree.nodes@.len() == old(tree).nodes@.len(),
            tree.children == old(tree).children,
            k <= dfns@.len(),
            forall|m: int| 0 <= m < dfns@.len() ==> #[trigger] dfns@[m] < tree.nodes@.len(),
            forall|a: int, m: int| 0 <= a < m < dfns@.len() ==> #[trigger] dfns@[a] < #[trigger] dfns@[m],
            same_texts(tree.nodes@, old(tree).nodes@),
            forall|j: int| 0 <= j < tree.nodes@.len() && k < dfns@.len() && j >= dfns@[k as int] ==> #[trigger] tree.nodes@[j]
                == old(tree).nodes@[j],
            forall|j: int| 0 <= j < tree.nodes@.len() && !dfns@.contains(j as usize) ==> #[trigger] tree.nodes@[j]
                == old(tree).nodes@[j],
            forall|m: int| 0 <= m < k ==> known_dfn_type(dfn_type_of(old(tree).nodes@[#[trigger] dfns@[m] as int].attrs@)),
            forall|m: int| 0 <= m < k ==> classified(
                old(tree).nodes@[#[trigger] dfns@[m] as int].attrs@,
                tree.nodes@[dfns@[m] as int].attrs@,
                inherited_export(tree.nodes@, dfns@[m] as int),
                text_of(old(tree).nodes@, old(tree).children@, dfns@[m] as int),
            ),
        decreases dfns@.len() - k,
    {
        let ghost before = tree.nodes@;
        let i = dfns[k];
        proof {
            assert(before[i as int] == old(tree).nodes@[i as int]);
            lemma_text_same(before, old(tree).nodes@, old(tree).children@, i as int);
        }
        match classify_dfn(tree, i) {
            Ok(()) => {},
            Err(e) => {
                proof {
                    assert(!known_dfn_type(dfn_type_of(old(tree).nodes@[dfns@[k as int] as int].attrs@)));
                }
                return Err(e);
            },
        }
        proof {
            let after = tree.nodes@;
            assert(same_texts(after, old(tree).nodes@)) by {
                assert forall|j: int| 0 <= j < after.len() implies (#[trigger] after[j]).is_text == old(tree).nodes@[j].is_text
                    && after[j].text == old(tree).nodes@[j].text by {
                    assert(before[j].is_text == old(tree).nodes@[j].is_text);
                    if j != i {
                        assert(after[j] == before[j]);
                    }
                }
            }
            assert forall|m: int| 0 <= m < k + 1 implies classified(
                old(tree).nodes@[#[trigger] dfns@[m] as int].attrs@,
                after[dfns@[m] as int].attrs@,
                inherited_export(after, dfns@[m] as int),
                text_of(old(tree).nodes@, old(tree).children@, dfns@[m] as int),
            ) by {
                let d = dfns@[m] as int;
                if m < k {
                    assert(dfns@[m] < dfns@[k as int]);
                    assert(d < i);
                    assert(after[d] == before[d]);
                    if let Some(p) = before[d].parent {
                        if (p as int) < d {
                            assert(agree_upto(after, before, p as int)) by {
                                assert forall|j: int| 0 <= j <= p implies #[trigger] after[j] == before[j] by {}
                            }
                            lemma_closest_export_prefix(after, before, p as int);
                        }
                    }
                } else {
                    assert(d == i);
                    if let Some(p) = before[d].parent {
                        if (p as int) < d {
                            assert(agree_upto(after, before, p as int)) by {
                                assert forall|j: int| 0 <= j <= p implies #[trigger] after[j] == before[j] by {}
                            }
                            lemma_closest_export_prefix(after, before, p as int);
                        }
                    }
                }
            }
            assert forall|j: int| 0 <= j < after.len() && k + 1 < dfns@.len() && j >= dfns@[k + 1] implies #[trigger] after[j]
                == old(tree).nodes@[j] by {
                assert(dfns@[k as int] < dfns@[k + 1]);
                assert(after[j] == before[j]);
            }
            assert forall|j: int| 0 <= j < after.len() && !dfns@.contains(j as usize) implies #[trigger] after[j]
                == old(tree).nodes@[j] by {
                if j == i {
                    assert(dfns@[k as int] == i);
                }
                assert(after[j] == before[j]);
            }
        }
        k = k + 1;
    }
    proof {
        assert forall|m: int| !(0 <= m < dfns@.len() && !known_dfn_type(
            dfn_type_of(old(tree).nodes@[#[trigger] dfns@[m] as int].attrs@),
        )) by {}
    }
    Ok(())
}

/// Classifies the definitions, makes every id unique, and records each
/// definition as a local reference under its text.
pub fn process_dfns(tree: &mut Tree, dfns: &Vec<usize>, manager: &mut ReferenceManager) -> (r: Result<(), DfnError>)
    requires
        old(tree).wf(),
        forall|k: int| 0 <= k < dfns@.len() ==> #[trigger] dfns@[k] < old(tree).nodes@.len(),
        forall|k: int, m: int| 0 <= k < m < dfns@.len() ==> #[trigger] dfns@[k] < #[trigger] dfns@[m],
    ensures
        final(tree).wf(),
        final(tree).nodes@.len() == old(tree).nodes@.len(),
        r is Ok ==> forall|k: int| 0 <= k < dfns@.len() ==> ({
            let a = #[trigger] final(tree).nodes@[dfns@[k] as int].attrs@;
            &&& known_dfn_type(dfn_type_of(a))
            &&& attr_of(a, "id"@) is Some
            &&& export_mark(a) is Some
        }),
        r is Err <==> exists|k: int| 0 <= k < dfns@.len() && !known_dfn_type(
            dfn_type_of(old(tree).nodes@[#[trigger] dfns@[k] as int].attrs@),
        ),
        r is Ok ==> forall|key: Seq<char>| #[trigger] lookup(final(manager).local_reference_source.references@, key)
            == lookup(old(manager).local_reference_source.references@, key) + dfn_refs_for(
            final(tree).nodes@,
            final(tree).children@,
            dfns@,
            opt_view(old(manager).spec),
            key,
        ),
{
    match classify_dfns(tree, dfns) {
        Ok(()) => {},
        Err(e) => {
            return Err(e);
        },
    }
    assert(dfns@.take(0) =~= Seq::<usize>::empty());
    assert forall|key: Seq<char>| #[trigger] lookup(manager.local_reference_source.references@, key) == lookup(
        old(manager).local_reference_source.references@,
        key,
    ) + Seq::<RefSpec>::empty() by {
        assert(lookup(manager.local_reference_source.references@, key) + Seq::<RefSpec>::empty() =~= lookup(
            manager.local_reference_source.references@,
            key,
        ));
    }
    let ghost classified_nodes = tree.nodes@;
    tree.dedup_ids();
    proof {
        reveal_strlit("data-dfn-type");
        reveal_strlit("data-export");
        reveal_strlit("data-noexport");
        reveal_strlit("id");
        assert("data-dfn-type"@.len() == 13);
        assert("data-export"@.len() == 11);
        assert("data-noexport"@.len() == 13);
        assert forall|k: int| 0 <= k < dfns@.len() implies ({
            let a = #[trigger] tree.nodes@[dfns@[k] as int].attrs@;
            &&& known_dfn_type(dfn_type_of(a))
            &&& attr_of(a, "id"@) is Some
            &&& export_mark(a) is Some
        }) by {
            let j = dfns@[k] as int;
            let a0 = classified_nodes[j].attrs@;
            let a = tree.nodes@[j].attrs@;
            assert(attr_of(a, "data-dfn-type"@) == attr_of(a0, "data-dfn-type"@));
            assert(attr_of(a, "data-export"@) == attr_of(a0, "data-export"@));
            assert(attr_of(a, "data-noexport"@) == attr_of(a0, "data-noexport"@));
            assert(ids_of(tree.nodes@)[j] == deduped_id(ids_of(classified_nodes), j));
            assert(ids_of(classified_nodes)[j] == attr_of(a0, "id"@));
        }
    }
    let type_attr = String::from_str("data-dfn-type");
    let id_name = String::from_str("id");
    let for_name = String::from_str("data-dfn-for");
    let mut k: usize = 0;
    let ghost done = tree.nodes@;
    let ghost sp = opt_view(manager.spec);
    while k < dfns.len()
        invariant
            tree.wf(),
            tree.nodes@ == done,
            tree.nodes@.len() == old(tree).nodes@.len(),
            type_attr@ == "data-dfn-type"@,
            id_name@ == "id"@,
            for_name@ == "data-dfn-for"@,
            sp == opt_view(old(manager).spec),
            opt_view(manager.spec) == sp,
            k <= dfns@.len(),
            forall|m: int| 0 <= m < dfns@.len() ==> #[trigger] dfns@[m] < tree.nodes@.len(),
            forall|key: Seq<char>| #[trigger] lookup(manager.local_reference_source.references@, key) == lookup(
                old(manager).local_reference_source.references@,
                key,
            ) + dfn_refs_for(tree.nodes@, tree.children@, dfns@.take(k as int), sp, key),
        decreases dfns@.len() - k,
    {
        let i = dfns[k];
        let text = tree.text_content(i);
        let link_type = match get_attr(&tree.nodes[i].attrs, &type_attr) {
            Some(t) => t,
            None => String::from_str("dfn"),
        };
        let id = match get_attr(&tree.nodes[i].attrs, &id_name) {
            Some(v) => v,
            None => String::new(),
        };
        let fors = match tree.closest_attr_value(i, &for_name) {
            Some(f) => split_trim(f.as_str(), ','),
            None => Vec::new(),
        };
        let ghost tv = text@;
        let ghost rf = RefSpec { link_type: link_type@, spec: sp, status: "local"@, url: "#"@ + id@, link_fors: views(fors@) };
        proof {
            let a = tree.nodes@[i as int].attrs@;
            assert(link_type@ == dfn_type_of(a));
            assert(id@ == match attr_of(a, "id"@) {
                Some(x) => x,
                None => Seq::<char>::empty(),
            });
            assert(views(fors@) == match closest_attr(tree.nodes@, i as int, "data-dfn-for"@) {
                Some(f) => trims(split_on(f, ',')),
                None => Seq::<Seq<char>>::empty(),
            });
        }
        assert(rf == dfn_ref(tree.nodes@, i as int, sp));
        manager.add_local_dfn(text, link_type, id.as_str(), fors);
        proof {
            let d = dfns@.take(k + 1);
            assert(d.drop_last() =~= dfns@.take(k as int));
            assert(d.last() == i);
            assert forall|key: Seq<char>| #[trigger] lookup(manager.local_reference_source.references@, key) == lookup(
                old(manager).local_reference_source.references@,
                key,
            ) + dfn_refs_for(tree.nodes@, tree.children@, d, sp, key) by {
                let base = lookup(old(manager).local_reference_source.references@, key);
                if key == tv {
                    assert(base + dfn_refs_for(tree.nodes@, tree.children@, dfns@.take(k as int), sp, key).push(rf) =~= base
                        + dfn_refs_for(tree.nodes@, tree.children@, d, sp, key));
                } else {
                    assert(base + dfn_refs_for(tree.nodes@, tree.children@, d, sp, key) =~= base + dfn_refs_for(
                        tree.nodes@,
                        tree.children@,
                        dfns@.take(k as int),
                        sp,
                        key,
                    ));
                }
            }
        }
        k = k + 1;
    }
    assert(dfns@.take(k as int) =~= dfns@);
    Ok(())
}

} // verus!
