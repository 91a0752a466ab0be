//! Bibliographic entries: a store filled from data files one group at a
//! time, and the resolution of alias entries.
use vstd::prelude::*;
use crate::name::{generate_group_name, group_of, lower_of, lowercase};
use crate::reference::DataError;
use crate::scan::{rtrim_end, rtrim};
use crate::text::{chars_of, clone_opt, clone_strings, contains_str, is_dash, opt_view, str_eq, string_of_range, views};

verus! {

/// What an entry holds: a full record, a preformatted string, or a
/// redirection to another key.
#[derive(Debug, Clone, Copy, PartialEq, Eq, Structural)]
pub enum BiblioFormat {
    Dict,
    Str,
    Alias,
}

/// A bibliographic entry.
#[derive(Debug, Clone)]
pub struct Biblio {
    pub biblio_format: BiblioFormat,
    pub link_text: String,
    pub date: Option<String>,
    pub status: Option<String>,
    pub title: Option<String>,
    pub url: Option<String>,
    pub authors: Vec<String>,
    pub data: Option<String>,
    pub alias_of: Option<String>,
}

/// An entry as plain values.
pub struct BiblioSpec {
    pub biblio_format: BiblioFormat,
    pub link_text: Seq<char>,
    pub date: Option<Seq<char>>,
    pub status: Option<Seq<char>>,
    pub title: Option<Seq<char>>,
    pub url: Option<Seq<char>>,
    pub authors: Seq<Seq<char>>,
    pub data: Option<Seq<char>>,
    pub alias_of: Option<Seq<char>>,
}

impl View for Biblio {
    type V = BiblioSpec;

    open spec fn view(&self) -> BiblioSpec {
        BiblioSpec {
            biblio_format: self.biblio_format,
            link_text: self.link_text@,
            date: opt_view(self.date),
            status: opt_view(self.status),
            title: opt_view(self.title),
            url: opt_view(self.url),
            authors: views(self.authors@),
            data: opt_view(self.data),
            alias_of: opt_view(self.alias_of),
        }
    }
}

/// An entry under its key.
#[derive(Debug)]
pub struct BiblioRecord {
    pub key: String,
    pub biblio: Biblio,
}

/// Entries by key, filled from data files one group of keys at a time.
#[derive(Debug)]
pub struct BiblioSource {
    pub base_path: String,
    pub loaded_groups: Vec<String>,
    pub biblios: Vec<BiblioRecord>,
}

/// The entry stored under `key`: the one stored last.
pub open spec fn lookup_biblio(records: Seq<BiblioRecord>, key: Seq<char>) -> Option<BiblioSpec>
    decreases records.len(),
{
    if records.len() == 0 {
        None
    } else if records.last().key@ == key {
        Some(records.last().biblio@)
    } else {
        lookup_biblio(records.drop_last(), key)
    }
}

/// A copy of an entry.
pub fn clone_biblio(b: &Biblio) -> (c: Biblio)
    ensures
        c@ == b@,
{
    Biblio {
        biblio_format: b.biblio_format,
        link_text: b.link_text.clone(),
        date: clone_opt(&b.date),
        status: clone_opt(&b.status),
        title: clone_opt(&b.title),
        url: clone_opt(&b.url),
        authors: clone_strings(&b.authors),
        data: clone_opt(&b.data),
        alias_of: clone_opt(&b.alias_of),
    }
}
/// First line at or after `i` that is `-`; the length when none is.
pub open spec fn end_line_from(lines: Seq<Seq<char>>, i: int) -> int
    decreases lines.len() - i,
{
    if i < 0 || i >= lines.len() {
        lines.len() as int
    } else if lines[i] == "-"@ {
        i
    } else {
        end_line_from(lines, i + 1)
    }
}

/// The key on a record's first line: after the kind letter and a separator,
/// without trailing whitespace.
pub open spec fn record_key(full: Seq<char>) -> Seq<char> {
    let e = rtrim_end(full, full.len() as int);
    if e > 2 {
        full.subrange(2, e)
    } else {
        Seq::empty()
    }
}

pub open spec fn no_text() -> Option<Seq<char>> {
    None
}

/// The records of a biblio data file. A record's first line is `d`, `s` or
/// `a`, a separator and the key. `d`: link text, date, status, title, url,
/// four more lines, then authors up to a `-` line. `s`: link text, the
/// string, one more line. `a`: link text, the aliased key, one more line.
pub open spec fn biblio_records(lines: Seq<Seq<char>>) -> Option<Seq<(Seq<char>, BiblioSpec)>>
    decreases lines.len(),
{
    if lines.len() == 0 {
        Some(Seq::empty())
    } else {
        let full = lines[0];
        let key = record_key(full);
        if full.len() < 2 {
            None
        } else if full[0] == 'd' {
            let e = end_line_from(lines, 10);
            if lines.len() < 10 || e < 10 || e >= lines.len() {
                None
            } else {
                let b = BiblioSpec {
                    biblio_format: BiblioFormat::Dict,
                    link_text: lines[1],
                    date: Some(lines[2]),
                    status: Some(lines[3]),
                    title: Some(lines[4]),
                    url: Some(lines[5]),
                    authors: lines.subrange(10, e),
                    data: no_text(),
                    alias_of: no_text(),
                };
                match biblio_records(lines.skip(e + 1)) {
                    Some(rest) => Some(seq![(key, b)] + rest),
                    None => None,
                }
            }
        } else if full[0] == 's' || full[0] == 'a' {
            if lines.len() < 4 {
                None
            } else {
                let b = BiblioSpec {
                    biblio_format: if full[0] == 's' { BiblioFormat::Str } else { BiblioFormat::Alias },
                    link_text: lines[1],
                    date: no_text(),
                    status: no_text(),
                    title: no_text(),
                    url: no_text(),
                    authors: Seq::empty(),
                    data: if full[0] == 's' { Some(lines[2]) } else { no_text() },
                    alias_of: if full[0] == 'a' { Some(lines[2]) } else { no_text() },
                };
                match biblio_records(lines.skip(4)) {
                    Some(rest) => Some(seq![(key, b)] + rest),
                    None => None,
                }
            }
        } else {
            None
        }
    }
}

/// The entry the last record for `key` gives, if any record is for it.
pub open spec fn last_record_for(recs: Seq<(Seq<char>, BiblioSpec)>, key: Seq<char>) -> Option<BiblioSpec>
    decreases recs.len(),
{
    if recs.len() == 0 {
        None
    } else if recs.last().0 == key {
        Some(recs.last().1)
    } else {
        last_record_for(recs.drop_last(), key)
    }
}

pub open spec fn biblio_record_views(v: Seq<BiblioRecord>) -> Seq<(Seq<char>, BiblioSpec)> {
    v.map_values(|r: BiblioRecord| (r.key@, r.biblio@))
}
fn key_of(full: &String) -> (r: String)
    ensures
        r@ == record_key(full@),
{
    let s = chars_of(full.as_str());
    let e = rtrim(&s, s.len());
    if e > 2 {
        string_of_range(&s, 2, e)
    } else {
        String::new()
    }
}

/// Reads the records of a biblio data file.
pub fn parse_biblio_data(lines: &Vec<String>) -> (r: Result<Vec<BiblioRecord>, DataError>)
    ensures
        match biblio_records(views(lines@)) {
            Some(recs) => r is Ok && biblio_record_views(r->Ok_0@) == recs,
            None => r is Err,
        },
{
    let ghost all = views(lines@);
    let mut out: Vec<BiblioRecord> = Vec::new();
    let mut pos: usize = 0;
    assert(all.skip(0) =~= all);
    while pos < lines.len()
        invariant
            all == views(lines@),
            pos <= lines@.len(),
            match biblio_records(all.skip(pos as int)) {
                Some(rest) => biblio_records(all) == Some(biblio_record_views(out@) + rest),
                None => biblio_records(all) is None,
            },
        decreases lines@.len() - pos,
    {
        let ghost tail = all.skip(pos as int);
        assert(tail[0] == lines@[pos as int]@);
        let full = chars_of(lines[pos].as_str());
        if full.len() < 2 {
            return Err(DataError);
        }
        let key = key_of(&lines[pos]);
        let kind = full[0];
        let next: usize;
        let biblio: Biblio;
        if kind == 'd' {
            if lines.len() - pos < 10 {
                return Err(DataError);
            }
            let mut e = pos + 10;
            while e < lines.len() && !is_dash(&lines[e])
                invariant
                    pos + 10 <= e <= lines@.len(),
                    all == views(lines@),
                    tail == all.skip(pos as int),
                    end_line_from(tail, 10) == end_line_from(tail, e - pos),
                decreases lines@.len() - e,
            {
                assert(tail[e - pos] == all[e as int]);
                e = e + 1;
            }
            if e >= lines.len() {
                return Err(DataError);
            }
            assert(tail[e - pos] == all[e as int]);
            let mut authors: Vec<String> = Vec::new();
            let mut j = pos + 10;
            while j < e
                invariant
                    pos + 10 <= j <= e < lines@.len(),
                    all == views(lines@),
                    views(authors@) == all.subrange(pos + 10, j as int),
                decreases e - j,
            {
                let c = lines[j].clone();
                let ghost before = views(authors@);
                authors.push(c);
                assert(views(authors@) =~= before.push(all[j as int]));
                j = j + 1;
            }
            assert(tail.subrange(10, e - pos) =~= all.subrange(pos + 10, e as int));
            biblio = Biblio {
                biblio_format: BiblioFormat::Dict,
                link_text: lines[pos + 1].clone(),
                date: Some(lines[pos + 2].clone()),
                status: Some(lines[pos + 3].clone()),
                title: Some(lines[pos + 4].clone()),
                url: Some(lines[pos + 5].clone()),
                authors,
                data: None,
                alias_of: None,
            };
            next = e + 1;
        } else if kind == 's' || kind == 'a' {
            if lines.len() - pos < 4 {
                return Err(DataError);
            }
            let is_str = kind == 's';
            biblio = Biblio {
                biblio_format: if is_str {
                    BiblioFormat::Str
                } else {
                    BiblioFormat::Alias
                },
                link_text: lines[pos + 1].clone(),
                date: None,
                status: None,
                title: None,
                url: None,
                authors: Vec::new(),
                data: if is_str {
                    Some(lines[pos + 2].clone())
                } else {
                    None
                },
                alias_of: if is_str {
                    None
                } else {
                    Some(lines[pos + 2].clone())
                },
            };
            assert(views(biblio.authors@) =~= Seq::<Seq<char>>::empty());
            next = pos + 4;
        } else {
            return Err(DataError);
        }
        let ghost before = biblio_record_views(out@);
        out.push(BiblioRecord { key, biblio });
        proof {
            assert(tail.skip(next - pos) =~= all.skip(next as int));
            assert(biblio_record_views(out@) =~= before.push(biblio_record_views(out@).last()));
            match biblio_records(all.skip(next as int)) {
                Some(rest) => {
                    assert(before.push(biblio_record_views(out@).last()) + rest =~= before + (seq![
                        biblio_record_views(out@).last(),
                    ] + rest));
                },
                None => {},
            }
        }
        pos = next;
    }
    assert(all.skip(pos as int) =~= Seq::<Seq<char>>::empty());
    assert(biblio_record_views(out@) + Seq::<(Seq<char>, BiblioSpec)>::empty() =~= biblio_record_views(out@));
    Ok(out)
}

impl BiblioSource {
    pub fn new(base_path: &str) -> (r: BiblioSource)
        ensures
            r.base_path@ == base_path@,
            r.loaded_groups@.len() == 0,
            r.biblios@.len() == 0,
    {
        BiblioSource { base_path: String::from_str(base_path), loaded_groups: Vec::new(), biblios: Vec::new() }
    }

    /// The entry stored under `key`.
    pub fn fetch_biblio(&self, key: &String) -> (r: Option<Biblio>)
        ensures
            match lookup_biblio(self.biblios@, key@) {
                Some(b) => r is Some && r->0@ == b,
                None => r is None,
            },
    {
        let mut i = self.biblios.len();
        assert(self.biblios@.take(i as int) =~= self.biblios@);
        while i > 0
            invariant
                i <= self.biblios@.len(),
                lookup_biblio(self.biblios@.take(i as int), key@) == lookup_biblio(self.biblios@, key@),
            decreases i,
        {
            let k = i - 1;
            assert(self.biblios@.take(i as int).last() == self.biblios@[k as int]);
            assert(self.biblios@.take(i as int).drop_last() =~= self.biblios@.take(k as int));
            if str_eq(&self.biblios[k].key, key) {
                return Some(clone_biblio(&self.biblios[k].biblio));
            }
            i = k;
        }
        None
    }

    /// Stores `biblio` under `key`, in place of what was stored there.
    pub fn insert(&mut self, key: String, biblio: Biblio)
        ensures
            lookup_biblio(final(self).biblios@, key@) == Some(biblio@),
            forall|k: Seq<char>| k != key@ ==> lookup_biblio(final(self).biblios@, k) == lookup_biblio(
                old(self).biblios@,
                k,
            ),
            final(self).loaded_groups == old(self).loaded_groups,
    {
        let ghost before = self.biblios@;
        self.biblios.push(BiblioRecord { key, biblio });
        assert(self.biblios@.drop_last() =~= before);
    }

    /// The data-file group that must be loaded before `key` can be looked
    /// up: only when nothing is stored under it, and only once per group.
    pub fn group_to_load(&self, key: &String) -> (r: Option<String>)
        ensures
            match r {
                Some(g) => lookup_biblio(self.biblios@, key@) is None && g@ == group_of(lower_of(key@))
                    && !views(self.loaded_groups@).contains(g@),
                None => lookup_biblio(self.biblios@, key@) is Some || views(self.loaded_groups@).contains(
                    group_of(lower_of(key@)),
                ),
            },
    {
        if self.fetch_biblio(key).is_some() {
            return None;
        }
        let group = generate_group_name(key.as_str());
        if contains_str(&self.loaded_groups, &group) {
            None
        } else {
            Some(group)
        }
    }

    /// Stores the records of a group's data file and marks the group loaded.
    pub fn load_group(&mut self, group: String, lines: &Vec<String>) -> (r: Result<(), DataError>)
        ensures
            r is Ok == biblio_records(views(lines@)) is Some,
            r is Ok ==> views(final(self).loaded_groups@) == views(old(self).loaded_groups@).push(group@),
            r is Ok ==> forall|k: Seq<char>| #[trigger] lookup_biblio(final(self).biblios@, k) == match last_record_for(
                biblio_records(views(lines@))->0,
                k,
            ) {
                Some(b) => Some(b),
                None => lookup_biblio(old(self).biblios@, k),
            },
            r is Err ==> final(self).biblios == old(self).biblios,
            r is Err ==> final(self).loaded_groups == old(self).loaded_groups,
    {
        let records = match parse_biblio_data(lines) {
            Ok(v) => v,
            Err(e) => {
                return Err(e);
            },
        };
        let ghost recs = biblio_record_views(records@);
        let mut i: usize = 0;
        while i < records.len()
            invariant
                self.loaded_groups == old(self).loaded_groups,
                recs == biblio_record_views(records@),
                i <= records@.len(),
                forall|k: Seq<char>| #[trigger] lookup_biblio(self.biblios@, k) == match last_record_for(recs.take(i as int), k) {
                    Some(b) => Some(b),
                    None => lookup_biblio(old(self).biblios@, k),
                },
            decreases records@.len() - i,
        {
            let key = records[i].key.clone();
            let b = clone_biblio(&records[i].biblio);
            self.insert(key, b);
            proof {
                assert(recs.take(i + 1).drop_last() =~= recs.take(i as int));
                assert(recs.take(i + 1).last() == recs[i as int]);
            }
            i = i + 1;
        }
        assert(recs.take(i as int) =~= recs);
        let ghost before = views(self.loaded_groups@);
        self.loaded_groups.push(group);
        assert(views(self.loaded_groups@) =~= before.push(group@));
        Ok(())
    }
}


/// The entry a lowercase key resolves to: aliases are followed, each alias
/// key lowercased, at most `fuel` times.
pub open spec fn resolve_biblio(records: Seq<BiblioRecord>, key: Seq<char>, fuel: nat) -> Option<BiblioSpec>
    decreases fuel,
{
    match lookup_biblio(records, key) {
        Some(b) => if b.biblio_format == BiblioFormat::Alias {
            if fuel == 0 {
                None
            } else {
                match b.alias_of {
                    Some(a) => resolve_biblio(records, lower_of(a), (fuel - 1) as nat),
                    None => None,
                }
            }
        } else {
            Some(b)
        },
        None => None,
    }
}

/// Resolving an alias entry gives what resolving its target gives.
pub proof fn lemma_alias_resolves_as_target(records: Seq<BiblioRecord>, key: Seq<char>, target: Seq<char>, fuel: nat)
    requires
        lookup_biblio(records, key) is Some,
        lookup_biblio(records, key)->0.biblio_format == BiblioFormat::Alias,
        lookup_biblio(records, key)->0.alias_of == Some(target),
    ensures
        resolve_biblio(records, key, fuel + 1) == resolve_biblio(records, lower_of(target), fuel),
{
}

/// The entry a lowercase key resolves to, following at most as many aliases
/// as the store holds entries: as many as any chain without a cycle needs.
pub open spec fn resolved_biblio(records: Seq<BiblioRecord>, key: Seq<char>) -> Option<BiblioSpec> {
    resolve_biblio(records, key, records.len())
}



/// The key an alias entry under `key` points to, lowercased.
pub open spec fn alias_next(records: Seq<BiblioRecord>, key: Seq<char>) -> Option<Seq<char>> {
    match lookup_biblio(records, key) {
        Some(b) => if b.biblio_format == BiblioFormat::Alias {
            match b.alias_of {
                Some(a) => Some(lower_of(a)),
                None => None,
            }
        } else {
            None
        },
        None => None,
    }
}

/// The keys met following aliases from `key`, at most `n` steps.
pub open spec fn alias_walk(records: Seq<BiblioRecord>, key: Seq<char>, n: nat) -> Seq<Seq<char>>
    decreases n,
{
    seq![key] + if n > 0 {
        match alias_next(records, key) {
            Some(k) => alias_walk(records, k, (n - 1) as nat),
            None => Seq::empty(),
        }
    } else {
        Seq::empty()
    }
}

proof fn lemma_more_fuel_needs_long_walk(records: Seq<BiblioRecord>, key: Seq<char>, n: nat)
    requires
        resolve_biblio(records, key, n) != resolve_biblio(records, key, n + 1),
    ensures
        alias_walk(records, key, n + 1).len() == n + 2,
        forall|j: int| 0 <= j < n + 2 ==> lookup_biblio(records, #[trigger] alias_walk(records, key, n + 1)[j]) is Some,
    decreases n,
{
    let b = lookup_biblio(records, key)->0;
    let a = b.alias_of->0;
    let next = lower_of(a);
    let w = alias_walk(records, key, n + 1);
    if n == 0 {
        assert(alias_walk(records, next, 0) =~= seq![next]);
        assert(w =~= seq![key, next]);
    } else {
        lemma_more_fuel_needs_long_walk(records, next, (n - 1) as nat);
        let w2 = alias_walk(records, next, n);
        assert(w =~= seq![key] + w2);
        assert forall|j: int| 0 <= j < n + 2 implies lookup_biblio(records, #[trigger] w[j]) is Some by {
            if j > 0 {
                assert(w[j] == w2[j - 1]);
            }
        }
    }
}

pub open spec fn stored_keys(records: Seq<BiblioRecord>) -> Set<Seq<char>> {
    records.map_values(|r: BiblioRecord| r.key@).to_set()
}

proof fn lemma_stored_key(records: Seq<BiblioRecord>, k: Seq<char>)
    requires
        lookup_biblio(records, k) is Some,
    ensures
        stored_keys(records).contains(k),
    decreases records.len(),
{
    let ks = records.map_values(|r: BiblioRecord| r.key@);
    if records.last().key@ == k {
        assert(ks[ks.len() - 1] == k);
    } else {
        lemma_stored_key(records.drop_last(), k);
        let ks2 = records.drop_last().map_values(|r: BiblioRecord| r.key@);
        let i = choose|i: int| 0 <= i < ks2.len() && ks2[i] == k;
        assert(ks[i] == k);
    }
}

/// Resolving an alias gives what resolving its target gives, whenever the
/// aliases followed from the target never return to a key already met.
pub proof fn lemma_alias_resolves_like_acyclic_target(records: Seq<BiblioRecord>, key: Seq<char>, target: Seq<char>)
    requires
        lookup_biblio(records, key) is Some,
        lookup_biblio(records, key)->0.biblio_format == BiblioFormat::Alias,
        lookup_biblio(records, key)->0.alias_of == Some(target),
        alias_walk(records, lower_of(target), records.len()).no_duplicates(),
    ensures
        resolved_biblio(records, key) == resolved_biblio(records, lower_of(target)),
{
    let l = records.len();
    let x = lower_of(target);
    assert(l >= 1);
    lemma_alias_resolves_as_target(records, key, target, (l - 1) as nat);
    if resolve_biblio(records, x, (l - 1) as nat) != resolve_biblio(records, x, l) {
        lemma_more_fuel_needs_long_walk(records, x, (l - 1) as nat);
        let w = alias_walk(records, x, l);
        w.unique_seq_to_set();
        assert(w.to_set().subset_of(stored_keys(records))) by {
            assert forall|k: Seq<char>| w.to_set().contains(k) implies stored_keys(records).contains(k) by {
                let j = choose|j: int| 0 <= j < w.len() && w[j] == k;
                lemma_stored_key(records, k);
            }
        }
        let ks = records.map_values(|r: BiblioRecord| r.key@);
        ks.lemma_cardinality_of_set();
        vstd::seq_lib::seq_to_set_is_finite(ks);
        vstd::set_lib::lemma_len_subset(w.to_set(), stored_keys(records));
        assert(false);
    }
}

/// The biblio store of a document.
#[derive(Debug)]
pub struct BiblioManager {
    pub biblio_source: BiblioSource,
}

impl BiblioManager {
    pub fn new() -> (r: BiblioManager)
        ensures
            r.biblio_source.biblios@.len() == 0,
            r.biblio_source.loaded_groups@.len() == 0,
    {
        BiblioManager { biblio_source: BiblioSource::new("biblio") }
    }

    /// The entry for a citation key, matched without regard to case, with
    /// alias entries followed to what they redirect to; a cycle of aliases
    /// gives none.
    pub fn get_biblio(&self, link_text: &str) -> (r: Option<Biblio>)
        ensures
            match resolved_biblio(self.biblio_source.biblios@, lower_of(link_text@)) {
                Some(b) => r is Some && r->0@ == b,
                None => r is None,
            },
    {
        self.resolve(link_text, self.biblio_source.biblios.len())
    }

    fn resolve(&self, link_text: &str, fuel: usize) -> (r: Option<Biblio>)
        ensures
            match resolve_biblio(self.biblio_source.biblios@, lower_of(link_text@), fuel as nat) {
                Some(b) => r is Some && r->0@ == b,
                None => r is None,
            },
        decreases fuel,
    {
        let key = lowercase(link_text);
        match self.biblio_source.fetch_biblio(&key) {
            Some(b) => {
                if b.biblio_format == BiblioFormat::Alias {
                    if fuel == 0 {
                        return None;
                    }
                    match &b.alias_of {
                        Some(a) => self.resolve(a.as_str(), fuel - 1),
                        None => None,
                    }
                } else {
                    Some(b)
                }
            },
            None => None,
        }
    }
}

} // verus!
