//! Anchor data blocks: indented `key: value` trees written in the document,
//! which declare references to terms defined elsewhere.
use vstd::prelude::*;
use crate::indent::{indent_level, level_of, strip_indent, strip_units};
use crate::name::{generate_name, lower_of, name_of};
use crate::reference::{lookup, ReferenceManager, Reference, RefSpec};
use crate::scan::{find_char, find_from, trim, trim_bounds};
use crate::block::{contains, contains_seq};
use crate::comment::{find_mark, first_occurrence, Line};
use crate::text::{chars_of, matches_at, occurs_at, string_of_range, views};

verus! {

/// One `key: value` line.
#[derive(Debug, Clone, PartialEq)]
pub struct InfoPair {
    pub key: String,
    pub val: String,
}

/// Why an info tree could not be read.
#[derive(Debug, Clone, Copy, PartialEq, Eq, Structural)]
pub enum InfoError {
    /// A line is indented two or more levels deeper than the one before.
    Jump,
    /// A line is not `key: value`.
    NotAPair,
    /// A line too long for its indentation level to be counted.
    LineTooLong,
    /// An anchor without a `type` or a `text`.
    MissingKey,
}

pub open spec fn pair_views(v: Seq<InfoPair>) -> Seq<(Seq<char>, Seq<char>)> {
    v.map_values(|p: InfoPair| (p.key@, p.val@))
}

/// `key: value`, both trimmed; the key is what comes before the first `:`
/// and may not be empty.
pub open spec fn pair_spec(text: Seq<char>) -> Option<(Seq<char>, Seq<char>)> {
    let c = find_from(text, 0, ':');
    if 0 < c < text.len() {
        Some((trim(text.take(c)), trim(text.skip(c + 1))))
    } else {
        None
    }
}

/// The state after some lines: the current path of pairs, one per level,
/// and the infos emitted so far.
pub open spec fn info_step(
    path: Seq<(Seq<char>, Seq<char>)>,
    line: Seq<char>,
    tab_size: nat,
) -> Option<(Seq<(Seq<char>, Seq<char>)>, Option<Seq<(Seq<char>, Seq<char>)>>)> {
    let lvl = indent_level(line, tab_size) as int;
    if lvl >= path.len() + 1 {
        None
    } else {
        match strip_units(line, lvl as nat, tab_size) {
            Some(text) => match pair_spec(text) {
                Some(p) => {
                    let emitted = if lvl < path.len() { Some(path) } else { None };
                    Some((path.take(lvl).push(p), emitted))
                },
                None => None,
            },
            None => None,
        }
    }
}

/// The infos of `lines`, starting from `path`: each is the path of pairs
/// down to a line that is not followed by a deeper one.
pub open spec fn infos_from(
    path: Seq<(Seq<char>, Seq<char>)>,
    lines: Seq<Seq<char>>,
    tab_size: nat,
) -> Option<Seq<Seq<(Seq<char>, Seq<char>)>>>
    decreases lines.len(),
{
    if lines.len() == 0 {
        if path.len() == 0 {
            Some(Seq::empty())
        } else {
            Some(seq![path])
        }
    } else {
        match info_step(path, lines[0], tab_size) {
            Some((next, emitted)) => match infos_from(next, lines.skip(1), tab_size) {
                Some(rest) => match emitted {
                    Some(e) => Some(seq![e] + rest),
                    None => Some(rest),
                },
                None => None,
            },
            None => None,
        }
    }
}

fn parse_pair(text: &[char]) -> (r: Option<InfoPair>)
    ensures
        match pair_spec(text@) {
            Some(p) => r is Some && (r->0.key@, r->0.val@) == p,
            None => r is None,
        },
{
    let c = find_char(text, 0, ':');
    if c == 0 || c >= text.len() {
        return None;
    }
    let (a, b) = trim_bounds(text, 0, c);
    let (d, e) = trim_bounds(text, c + 1, text.len());
    assert(text@.subrange(0, c as int) =~= text@.take(c as int));
    assert(text@.subrange(c + 1, text@.len() as int) =~= text@.skip(c + 1));
    Some(InfoPair { key: string_of_range(text, a, b), val: string_of_range(text, d, e) })
}

fn suffix_from(s: &[char], k: usize) -> (r: Vec<char>)
    requires
        k <= s@.len(),
    ensures
        r@ == s@.skip(k as int),
{
    let mut r: Vec<char> = Vec::new();
    let mut i = k;
    while i < s.len()
        invariant
            k <= i <= s@.len(),
            r@ == s@.subrange(k as int, i as int),
        decreases s@.len() - i,
    {
        r.push(s[i]);
        assert(r@ =~= s@.subrange(k as int, i + 1));
        i = i + 1;
    }
    assert(r@ =~= s@.skip(k as int));
    r
}

fn clone_pairs(v: &Vec<InfoPair>, n: usize) -> (r: Vec<InfoPair>)
    requires
        n <= v@.len(),
    ensures
        pair_views(r@) == pair_views(v@).take(n as int),
{
    let mut r: Vec<InfoPair> = Vec::new();
    let mut i: usize = 0;
    while i < n
        invariant
            i <= n <= v@.len(),
            pair_views(r@) == pair_views(v@).take(i as int),
        decreases n - i,
    {
        let ghost before = pair_views(r@);
        r.push(InfoPair { key: v[i].key.clone(), val: v[i].val.clone() });
        assert(pair_views(r@) =~= before.push(pair_views(v@)[i as int]));
        assert(pair_views(v@).take(i + 1) =~= pair_views(v@).take(i as int).push(pair_views(v@)[i as int]));
        i = i + 1;
    }
    r
}

pub open spec fn info_views(v: Seq<Vec<InfoPair>>) -> Seq<Seq<(Seq<char>, Seq<char>)>> {
    v.map_values(|i: Vec<InfoPair>| pair_views(i@))
}

/// Reads an info tree. Each line is `key: value`; a line indented one level
/// deeper than the one before continues its path, and each path that ends
/// (a line at the same or a shallower level follows, or the lines end)
/// becomes one info.
#[verifier::rlimit(60)]
pub fn parse_info_tree(lines: &Vec<String>, tab_size: u32) -> (r: Result<Vec<Vec<InfoPair>>, InfoError>)
    requires
        tab_size > 0,
    ensures
        r is Ok ==> infos_from(Seq::empty(), views(lines@), tab_size as nat) == Some(info_views(r->Ok_0@)),
        r is Err <==> (!crate::markdown::fits(views(lines@)) || infos_from(Seq::empty(), views(lines@), tab_size as nat) is None),
{
    let ghost all = views(lines@);
    let mut infos: Vec<Vec<InfoPair>> = Vec::new();
    let mut path: Vec<InfoPair> = Vec::new();
    let mut i: usize = 0;
    assert(all.skip(0) =~= all);
    assert(info_views(infos@) =~= Seq::<Seq<(Seq<char>, Seq<char>)>>::empty());
    assert(pair_views(path@) =~= Seq::<(Seq<char>, Seq<char>)>::empty());
    assert(info_views(infos@) + infos_from(Seq::empty(), all, tab_size as nat)->0 =~= infos_from(Seq::empty(), all, tab_size as nat)->0);
    while i < lines.len()
        invariant
            tab_size > 0,
            all == views(lines@),
            i <= lines@.len(),
            forall|j: int| 0 <= j < i ==> (#[trigger] all[j]).len() <= u32::MAX,
            match infos_from(pair_views(path@), all.skip(i as int), tab_size as nat) {
                Some(rest) => infos_from(Seq::empty(), all, tab_size as nat) == Some(info_views(infos@) + rest),
                None => infos_from(Seq::empty(), all, tab_size as nat) is None,
            },
        decreases lines@.len() - i,
    {
        let ghost tail = all.skip(i as int);
        let ghost pv = pair_views(path@);
        assert(tail[0] == lines@[i as int]@);
        assert(tail.skip(1) =~= all.skip(i + 1));
        let s = chars_of(lines[i].as_str());
        if s.len() > 4294967295usize {
            proof {
                assert(views(lines@)[i as int] == lines@[i as int]@);
            }
            return Err(InfoError::LineTooLong);
        }
        let lvl = level_of(&s, tab_size);
        if lvl as usize > path.len() {
            return Err(InfoError::Jump);
        }
        let k = match strip_indent(&s, lvl, tab_size) {
            Some(k) => k,
            None => {
                return Err(InfoError::NotAPair);
            },
        };
        let tc = suffix_from(&s, k);
        let pair = match parse_pair(&tc) {
            Some(p) => p,
            None => {
                return Err(InfoError::NotAPair);
            },
        };
        let ghost before = info_views(infos@);
        let l = lvl as usize;
        if l < path.len() {
            let emitted = clone_pairs(&path, path.len());
            infos.push(emitted);
            assert(pair_views(path@).take(path@.len() as int) =~= pair_views(path@));
            assert(info_views(infos@) =~= before.push(pv));
        }
        let mut next = clone_pairs(&path, l);
        next.push(pair);
        path = next;
        proof {
            assert(pair_views(path@) =~= pv.take(l as int).push((pair.key@, pair.val@)));
        }
        i = i + 1;
    }
    let ghost pv = pair_views(path@);
    let ghost before = info_views(infos@);
    assert(all.skip(i as int) =~= Seq::<Seq<char>>::empty());
    if path.len() > 0 {
        let emitted = clone_pairs(&path, path.len());
        infos.push(emitted);
        assert(pair_views(path@).take(path@.len() as int) =~= pv);
        assert(info_views(infos@) =~= before + seq![pv]);
    } else {
        assert(before + Seq::<Seq<(Seq<char>, Seq<char>)>>::empty() =~= before);
    }
    Ok(infos)
}

/// The first value given for `key`.
pub open spec fn first_value(info: Seq<(Seq<char>, Seq<char>)>, key: Seq<char>) -> Option<Seq<char>>
    decreases info.len(),
{
    if info.len() == 0 {
        None
    } else if info[0].0 == key {
        Some(info[0].1)
    } else {
        first_value(info.skip(1), key)
    }
}

/// All values given for `key`, one after another.
pub open spec fn joined_values(info: Seq<(Seq<char>, Seq<char>)>, key: Seq<char>) -> Seq<char>
    decreases info.len(),
{
    if info.len() == 0 {
        Seq::empty()
    } else {
        joined_values(info.drop_last(), key) + if info.last().0 == key {
            info.last().1
        } else {
            Seq::empty()
        }
    }
}

/// The reference an anchor declares: its type, and a url made of its url
/// prefixes, `#` and the name generated from its text.
pub open spec fn anchor_reference(info: Seq<(Seq<char>, Seq<char>)>) -> RefSpec {
    RefSpec {
        link_type: first_value(info, "type"@)->0,
        spec: None,
        status: "current"@,
        url: joined_values(info, "urlPrefix"@) + "#"@ + name_of(lower_of(first_value(info, "text"@)->0)),
        link_fors: Seq::empty(),
    }
}

fn first_value_exec(info: &Vec<InfoPair>, key: &str) -> (r: Option<String>)
    ensures
        match first_value(pair_views(info@), key@) {
            Some(v) => r is Some && r->0@ == v,
            None => r is None,
        },
{
    let k = String::from_str(key);
    let ghost pv = pair_views(info@);
    let mut i: usize = 0;
    assert(pv.skip(0) =~= pv);
    while i < info.len()
        invariant
            k@ == key@,
            pv == pair_views(info@),
            i <= info@.len(),
            first_value(pv.skip(i as int), key@) == first_value(pv, key@),
        decreases info@.len() - i,
    {
        assert(pv.skip(i as int)[0] == pv[i as int]);
        if info[i].key.eq(&k) {
            return Some(info[i].val.clone());
        }
        assert(pv.skip(i as int).skip(1) =~= pv.skip(i + 1));
        i = i + 1;
    }
    None
}

fn joined_values_exec(info: &Vec<InfoPair>, key: &str) -> (r: String)
    ensures
        r@ == joined_values(pair_views(info@), key@),
{
    let k = String::from_str(key);
    let ghost pv = pair_views(info@);
    let mut out = String::new();
    let mut i: usize = 0;
    while i < info.len()
        invariant
            k@ == key@,
            pv == pair_views(info@),
            i <= info@.len(),
            out@ == joined_values(pv.take(i as int), key@),
        decreases info@.len() - i,
    {
        assert(pv.take(i + 1).drop_last() =~= pv.take(i as int));
        assert(pv.take(i + 1).last() == pv[i as int]);
        if info[i].key.eq(&k) {
            out.append(info[i].val.as_str());
        } else {
            assert(out@ + Seq::<char>::empty() =~= out@);
        }
        i = i + 1;
    }
    assert(pv.take(i as int) =~= pv);
    out
}

/// Stores the reference an anchor declares in the anchor-block source,
/// under the anchor's text. An anchor needs a `type` and a `text`.
pub fn add_anchor(manager: &mut ReferenceManager, info: &Vec<InfoPair>) -> (r: Result<(), InfoError>)
    ensures
        ({
            let pv = pair_views(info@);
            r is Ok == (first_value(pv, "type"@) is Some && first_value(pv, "text"@) is Some)
        }),
        r is Ok ==> ({
            let pv = pair_views(info@);
            let text = first_value(pv, "text"@)->0;
            lookup(final(manager).anchor_block_reference_source.references@, text) == lookup(
                old(manager).anchor_block_reference_source.references@,
                text,
            ).push(anchor_reference(pv))
        }),
        r is Ok ==> forall|k: Seq<char>| k != first_value(pair_views(info@), "text"@)->0 ==> #[trigger] lookup(
            final(manager).anchor_block_reference_source.references@,
            k,
        ) == lookup(old(manager).anchor_block_reference_source.references@, k),
        r is Err ==> *final(manager) == *old(manager),
        final(manager).local_reference_source == old(manager).local_reference_source,
        final(manager).external_reference_source == old(manager).external_reference_source,
{
    let link_type = match first_value_exec(info, "type") {
        Some(t) => t,
        None => {
            return Err(InfoError::MissingKey);
        },
    };
    let link_text = match first_value_exec(info, "text") {
        Some(t) => t,
        None => {
            return Err(InfoError::MissingKey);
        },
    };
    let mut url = joined_values_exec(info, "urlPrefix");
    url.append("#");
    let name = generate_name(link_text.as_str());
    url.append(name.as_str());
    let reference = Reference {
        link_type,
        spec: None,
        status: String::from_str("current"),
        url,
        link_fors: Vec::new(),
    };
    proof {
        assert(views(reference.link_fors@) =~= Seq::<Seq<char>>::empty());
    }
    manager.anchor_block_reference_source.add_reference(link_text, reference);
    Ok(())
}

/// Every anchor has a `type` and a `text`.
pub open spec fn anchors_complete(infos: Seq<Seq<(Seq<char>, Seq<char>)>>) -> bool {
    forall|i: int| 0 <= i < infos.len() ==> first_value(#[trigger] infos[i], "type"@) is Some && first_value(
        infos[i],
        "text"@,
    ) is Some
}

/// The references the anchors declare under the text `k`, in order.
pub open spec fn anchors_for(infos: Seq<Seq<(Seq<char>, Seq<char>)>>, k: Seq<char>) -> Seq<RefSpec>
    decreases infos.len(),
{
    if infos.len() == 0 {
        Seq::empty()
    } else {
        anchors_for(infos.drop_last(), k) + if first_value(infos.last(), "text"@) == Some(k) {
            seq![anchor_reference(infos.last())]
        } else {
            Seq::empty()
        }
    }
}

/// Reads an anchor data block and stores the references it declares. It
/// fails when a line is too long, when the block is not an info tree, or
/// when an anchor has no `type` or `text`; on failure the anchors before
/// the bad one stay stored.
pub fn process_anchors(manager: &mut ReferenceManager, lines: &Vec<String>, tab_size: u32) -> (r: Result<(), InfoError>)
    requires
        tab_size > 0,
    ensures
        ({
            let infos = infos_from(Seq::empty(), views(lines@), tab_size as nat);
            r is Err <==> (!crate::markdown::fits(views(lines@)) || infos is None || !anchors_complete(infos->0))
        }),
        r is Ok ==> forall|k: Seq<char>| #[trigger] lookup(final(manager).anchor_block_reference_source.references@, k)
            == lookup(old(manager).anchor_block_reference_source.references@, k) + anchors_for(
            infos_from(Seq::empty(), views(lines@), tab_size as nat)->0,
            k,
        ),
        final(manager).local_reference_source == old(manager).local_reference_source,
        final(manager).external_reference_source == old(manager).external_reference_source,
{
    let infos = match parse_info_tree(lines, tab_size) {
        Ok(v) => v,
        Err(e) => {
            return Err(e);
        },
    };
    let ghost iv = info_views(infos@);
    let mut i: usize = 0;
    while i < infos.len()
        invariant
            iv == info_views(infos@),
            infos_from(Seq::empty(), views(lines@), tab_size as nat) == Some(iv),
            crate::markdown::fits(views(lines@)),
            i <= infos@.len(),
            manager.local_reference_source == old(manager).local_reference_source,
            manager.external_reference_source == old(manager).external_reference_source,
            forall|m: int| 0 <= m < i ==> first_value(#[trigger] iv[m], "type"@) is Some && first_value(
                iv[m],
                "text"@,
            ) is Some,
            forall|k: Seq<char>| #[trigger] lookup(manager.anchor_block_reference_source.references@, k) == lookup(
                old(manager).anchor_block_reference_source.references@,
                k,
            ) + anchors_for(iv.take(i as int), k),
        decreases infos@.len() - i,
    {
        assert(pair_views(infos@[i as int]@) == iv[i as int]);
        match add_anchor(manager, &infos[i]) {
            Ok(()) => {},
            Err(e) => {
                proof {
                    assert(!(first_value(iv[i as int], "type"@) is Some && first_value(iv[i as int], "text"@) is Some));
                    assert(!anchors_complete(iv));
                }
                return Err(e);
            },
        }
        proof {
            assert(iv.take(i + 1).drop_last() =~= iv.take(i as int));
            assert(iv.take(i + 1).last() == iv[i as int]);
            let text = first_value(iv[i as int], "text"@)->0;
            assert forall|k: Seq<char>| #[trigger] lookup(manager.anchor_block_reference_source.references@, k) == lookup(
                old(manager).anchor_block_reference_source.references@,
                k,
            ) + anchors_for(iv.take(i + 1), k) by {
                if k == text {
                    assert(lookup(old(manager).anchor_block_reference_source.references@, k) + anchors_for(iv.take(i as int), k).push(
                        anchor_reference(iv[i as int]),
                    ) =~= lookup(old(manager).anchor_block_reference_source.references@, k) + anchors_for(iv.take(i + 1), k));
                } else {
                    assert(lookup(old(manager).anchor_block_reference_source.references@, k) + anchors_for(iv.take(i + 1), k)
                        =~= lookup(old(manager).anchor_block_reference_source.references@, k) + anchors_for(iv.take(i as int), k));
                }
            }
        }
        i = i + 1;
    }
    assert(iv.take(i as int) =~= iv);
    assert(anchors_complete(iv));
    Ok(())
}

/// An anchor data block's start tag begins at `i`: `<pre `, then `class=`,
/// then `anchors`, all before the tag's closing `>`.
pub open spec fn anchor_tag_at(s: Seq<char>, i: int) -> bool {
    let g = find_from(s, i + 5, '>');
    &&& occurs_at(s, i, "<pre "@)
    &&& g < s.len()
    &&& match first_occurrence(s, "class="@, i + 5) {
        Some(j) => j + 6 <= g && match first_occurrence(s, "anchors"@, j + 6) {
            Some(k) => k + 7 <= g,
            None => false,
        },
        None => false,
    }
}

/// An anchor data block's start tag begins at `i` or after it.
pub open spec fn anchor_tag_from(s: Seq<char>, i: int) -> bool
    decreases s.len() - i,
{
    if i < 0 || i + 5 > s.len() {
        false
    } else {
        anchor_tag_at(s, i) || anchor_tag_from(s, i + 1)
    }
}

pub open spec fn line_views(lines: Seq<Line>) -> Seq<(int, Seq<char>)> {
    lines.map_values(|l: Line| (l.index as int, l.text@))
}

/// The lines outside anchor data blocks, and the lines of each block that
/// is closed, in order. `block` holds the lines of an open block.
pub open spec fn split_blocks(
    lines: Seq<(int, Seq<char>)>,
    in_block: bool,
    block: Seq<Seq<char>>,
) -> (Seq<(int, Seq<char>)>, Seq<Seq<Seq<char>>>)
    decreases lines.len(),
{
    if lines.len() == 0 {
        (Seq::empty(), Seq::empty())
    } else {
        let t = lines[0].1;
        let rest = lines.skip(1);
        if anchor_tag_from(t, 0) && !in_block {
            split_blocks(rest, true, Seq::empty())
        } else if contains(t, "</pre>"@) && in_block {
            let (kept, blocks) = split_blocks(rest, false, Seq::empty());
            (kept, seq![block] + blocks)
        } else if in_block {
            split_blocks(rest, true, block.push(t))
        } else {
            let (kept, blocks) = split_blocks(rest, false, block);
            (seq![lines[0]] + kept, blocks)
        }
    }
}

fn anchor_tag_at_exec(s: &Vec<char>, i: usize) -> (r: bool)
    requires
        i + 5 <= s@.len(),
    ensures
        r == anchor_tag_at(s@, i as int),
{
    let pre = vec!['<', 'p', 'r', 'e', ' '];
    let class = vec!['c', 'l', 'a', 's', 's', '='];
    let anchors = vec!['a', 'n', 'c', 'h', 'o', 'r', 's'];
    proof {
        reveal_strlit("<pre ");
        reveal_strlit("class=");
        reveal_strlit("anchors");
        assert(pre@ =~= "<pre "@);
        assert(class@ =~= "class="@);
        assert(anchors@ =~= "anchors"@);
    }
    if !matches_at(s, i, &pre) {
        return false;
    }
    assert(s@.len() == s.len());
    let g = find_char(s, i + 5, '>');
    if g >= s.len() {
        return false;
    }
    match find_mark(s, i + 5, &class) {
        Some(j) => {
            if j + 6 > g {
                return false;
            }
            match find_mark(s, j + 6, &anchors) {
                Some(k) => k + 7 <= g,
                None => false,
            }
        },
        None => false,
    }
}

/// Whether the line holds the start tag of an anchor data block.
pub fn opens_anchor_block(line: &str) -> (r: bool)
    ensures
        r == anchor_tag_from(line@, 0),
{
    let s = chars_of(line);
    let mut i: usize = 0;
    while i < s.len() && s.len() - i >= 5
        invariant
            s@ == line@,
            anchor_tag_from(s@, 0) == anchor_tag_from(s@, i as int),
        decreases s@.len() - i,
    {
        if anchor_tag_at_exec(&s, i) {
            return true;
        }
        i = i + 1;
    }
    false
}

/// Takes the anchor data blocks out of the lines: the lines outside them,
/// and the text lines of each closed block.
pub fn transform_data_blocks(lines: &[Line]) -> (r: (Vec<Line>, Vec<Vec<String>>))
    ensures
        ({
            let (kept, blocks) = split_blocks(line_views(lines@), false, Seq::empty());
            line_views(r.0@) == kept && r.1@.map_values(|b: Vec<String>| views(b@)) == blocks
        }),
{
    let ghost all = line_views(lines@);
    let mut kept: Vec<Line> = Vec::new();
    let mut blocks: Vec<Vec<String>> = Vec::new();
    let mut block: Vec<String> = Vec::new();
    let mut in_block = false;
    let close = vec!['<', '/', 'p', 'r', 'e', '>'];
    proof {
        reveal_strlit("</pre>");
        assert(close@ =~= "</pre>"@);
    }
    let mut i: usize = 0;
    assert(all.skip(0) =~= all);
    assert(line_views(kept@) =~= Seq::<(int, Seq<char>)>::empty());
    assert(blocks@.map_values(|b: Vec<String>| views(b@)) =~= Seq::<Seq<Seq<char>>>::empty());
    assert(views(block@) =~= Seq::<Seq<char>>::empty());
    while i < lines.len()
        invariant
            all == line_views(lines@),
            close@ == "</pre>"@,
            i <= lines@.len(),
            !in_block ==> views(block@).len() == 0,
            ({
                let (k1, b1) = split_blocks(all.skip(i as int), in_block, views(block@));
                let (k, b) = split_blocks(all, false, Seq::empty());
                k == line_views(kept@) + k1 && b == blocks@.map_values(|x: Vec<String>| views(x@)) + b1
            }),
        decreases lines@.len() - i,
    {
        let ghost tail = all.skip(i as int);
        let ghost bv = views(block@);
        let ghost kv = line_views(kept@);
        let ghost blv = blocks@.map_values(|x: Vec<String>| views(x@));
        assert(tail[0] == (lines@[i as int].index as int, lines@[i as int].text@));
        assert(tail.skip(1) =~= all.skip(i + 1));
        let text = chars_of(lines[i].text.as_str());
        let opens = opens_anchor_block(lines[i].text.as_str());
        if opens && !in_block {
            in_block = true;
            block = Vec::new();
            assert(views(block@) =~= Seq::<Seq<char>>::empty());
        } else if in_block && contains_seq(&text, &close) {
            let done = block;
            block = Vec::new();
            blocks.push(done);
            in_block = false;
            proof {
                assert(views(block@) =~= Seq::<Seq<char>>::empty());
                let (k1, b1) = split_blocks(all.skip(i + 1), false, Seq::empty());
                assert(blocks@.map_values(|x: Vec<String>| views(x@)) =~= blv.push(bv));
                assert(blv.push(bv) + b1 =~= blv + (seq![bv] + b1));
            }
        } else if in_block {
            block.push(lines[i].text.clone());
            assert(views(block@) =~= bv.push(lines@[i as int].text@));
        } else {
            kept.push(Line { index: lines[i].index, text: lines[i].text.clone() });
            proof {
                let (k1, b1) = split_blocks(all.skip(i + 1), false, bv);
                assert(line_views(kept@) =~= kv.push(tail[0]));
                assert(kv.push(tail[0]) + k1 =~= kv + (seq![tail[0]] + k1));
            }
        }
        i = i + 1;
    }
    proof {
        assert(all.skip(i as int) =~= Seq::<(int, Seq<char>)>::empty());
        assert(line_views(kept@) + Seq::<(int, Seq<char>)>::empty() =~= line_views(kept@));
        assert(blocks@.map_values(|x: Vec<String>| views(x@)) + Seq::<Seq<Seq<char>>>::empty() =~= blocks@.map_values(
            |x: Vec<String>| views(x@),
        ));
    }
    (kept, blocks)
}

} // verus!
