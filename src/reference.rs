//! Reference sources and the query filter pipeline that resolves links.
use vstd::prelude::*;
use crate::name::{generate_group_name, group_of, lower_of};
use crate::text::{clone_opt, clone_strings, contains_str, is_dash, opt_view, str_eq, views};
use crate::variation::{link_text_variations, variations};

verus! {

/// A linkable term: what kind of thing it is, the spec that defines it, its
/// status, where it lives and what it is scoped to.
#[derive(Debug, Clone)]
pub struct Reference {
    pub link_type: String,
    pub spec: Option<String>,
    pub status: String,
    pub url: String,
    pub link_fors: Vec<String>,
}

/// A reference as plain values.
pub struct RefSpec {
    pub link_type: Seq<char>,
    pub spec: Option<Seq<char>>,
    pub status: Seq<char>,
    pub url: Seq<char>,
    pub link_fors: Seq<Seq<char>>,
}
impl View for Reference {
    type V = RefSpec;

    open spec fn view(&self) -> RefSpec {
        RefSpec {
            link_type: self.link_type@,
            spec: opt_view(self.spec),
            status: self.status@,
            url: self.url@,
            link_fors: views(self.link_fors@),
        }
    }
}

pub open spec fn ref_views(v: Seq<Reference>) -> Seq<RefSpec> {
    v.map_values(|r: Reference| r@)
}

/// What a link asks for. `link_fors` of `["/"]` asks for a reference with no
/// for-values; `explicit_for` without `link_fors` asks the same.
#[derive(Debug, Clone)]
pub struct Query {
    pub link_type: String,
    pub link_text: String,
    pub status: Option<String>,
    pub link_fors: Option<Vec<String>>,
    pub explicit_for: bool,
}

/// Which of the three sources this is.
#[derive(Debug, Clone, Copy, PartialEq, Eq, Structural)]
pub enum SourceKind {
    Local,
    AnchorBlock,
    External,
}

/// Match the link text exactly, or also by its inflections.
#[derive(Debug, Clone, Copy, PartialEq, Eq, Structural)]
pub enum QueryMode {
    Exact,
    Inexact,
}

/// The filter stage that left no reference.
#[derive(Debug, Clone, Copy, PartialEq, Eq, Structural)]
pub enum QueryError {
    Text,
    LinkType,
    Status,
    For,
}

/// A data file that does not hold whole records.
#[derive(Debug, Clone, Copy, PartialEq, Eq, Structural)]
pub struct DataError;

/// The references stored under one link text.
#[derive(Debug)]
pub struct Entry {
    pub text: String,
    pub refs: Vec<Reference>,
}

/// A store from link text to references. An external store is filled one
/// group of link texts at a time, each group at most once.
#[derive(Debug)]
pub struct ReferenceSource {
    pub source_kind: SourceKind,
    pub loaded_groups: Vec<String>,
    pub references: Vec<Entry>,
}

/// The references stored under `key`: those of the first entry for it.
pub open spec fn lookup(entries: Seq<Entry>, key: Seq<char>) -> Seq<RefSpec>
    decreases entries.len(),
{
    if entries.len() == 0 {
        Seq::empty()
    } else if entries[0].text@ == key {
        ref_views(entries[0].refs@)
    } else {
        lookup(entries.skip(1), key)
    }
}

/// The references stored under each of `keys`, one key after another.
pub open spec fn lookup_all(entries: Seq<Entry>, keys: Seq<Seq<char>>) -> Seq<RefSpec>
    decreases keys.len(),
{
    if keys.len() == 0 {
        Seq::empty()
    } else {
        lookup_all(entries, keys.drop_last()) + lookup(entries, keys.last())
    }
}

/// A filter stage.
pub enum FilterSpec {
    Type(Seq<char>),
    Status(Seq<char>),
    For(Seq<Seq<char>>),
}

/// A reference's for-values meet a query's: `["/"]` asks for none at all;
/// otherwise one of the query's must be among the reference's.
pub open spec fn for_match(target: Seq<Seq<char>>, test: Seq<Seq<char>>) -> bool {
    if test.len() == 1 && test[0] == "/"@ {
        target.len() == 0
    } else {
        exists|i: int| 0 <= i < test.len() && target.contains(#[trigger] test[i])
    }
}

pub open spec fn passes(r: RefSpec, f: FilterSpec) -> bool {
    match f {
        FilterSpec::Type(t) => r.link_type == t,
        FilterSpec::Status(s) => r.status == s,
        FilterSpec::For(fors) => for_match(r.link_fors, fors),
    }
}

/// The references of `s` that pass `f`, in order.
pub open spec fn keep(s: Seq<RefSpec>, f: FilterSpec) -> Seq<RefSpec>
    decreases s.len(),
{
    if s.len() == 0 {
        s
    } else if passes(s.last(), f) {
        keep(s.drop_last(), f).push(s.last())
    } else {
        keep(s.drop_last(), f)
    }
}

/// A query as plain values.
pub struct QuerySpec {
    pub link_type: Seq<char>,
    pub link_text: Seq<char>,
    pub status: Option<Seq<char>>,
    pub link_fors: Option<Seq<Seq<char>>>,
    pub explicit_for: bool,
}

impl View for Query {
    type V = QuerySpec;

    open spec fn view(&self) -> QuerySpec {
        QuerySpec {
            link_type: self.link_type@,
            link_text: self.link_text@,
            status: opt_view(self.status),
            link_fors: match self.link_fors {
                Some(v) => Some(views(v@)),
                None => None,
            },
            explicit_for: self.explicit_for,
        }
    }
}

/// The filter pipeline on the references fetched for a query.
pub open spec fn filter_spec(fetched: Seq<RefSpec>, q: QuerySpec) -> Result<Seq<RefSpec>, QueryError> {
    let s2 = keep(fetched, FilterSpec::Type(q.link_type));
    let s3 = match q.status {
        Some(st) => keep(s2, FilterSpec::Status(st)),
        None => s2,
    };
    let s4 = match q.link_fors {
        Some(f) => keep(s3, FilterSpec::For(f)),
        None => if q.explicit_for {
            keep(s3, FilterSpec::For(seq!["/"@]))
        } else {
            s3
        },
    };
    if fetched.len() == 0 {
        Err(QueryError::Text)
    } else if s2.len() == 0 {
        Err(QueryError::LinkType)
    } else if s3.len() == 0 {
        Err(QueryError::Status)
    } else if s4.len() == 0 {
        Err(QueryError::For)
    } else {
        Ok(s4)
    }
}

/// The references a query fetches by text before filtering.
pub open spec fn fetched_spec(entries: Seq<Entry>, q: QuerySpec, mode: QueryMode) -> Seq<RefSpec> {
    match mode {
        QueryMode::Exact => lookup(entries, q.link_text),
        QueryMode::Inexact => lookup_all(entries, variations(q.link_type, q.link_text)),
    }
}

/// A query's answer: exactly, and inexactly only when exactly fails.
pub open spec fn query_spec(entries: Seq<Entry>, q: QuerySpec, mode: QueryMode) -> Result<Seq<RefSpec>, QueryError> {
    let exact = filter_spec(fetched_spec(entries, q, QueryMode::Exact), q);
    match mode {
        QueryMode::Exact => exact,
        QueryMode::Inexact => if exact is Ok {
            exact
        } else {
            filter_spec(fetched_spec(entries, q, QueryMode::Inexact), q)
        },
    }
}

pub open spec fn result_views(r: Result<Vec<Reference>, QueryError>) -> Result<Seq<RefSpec>, QueryError> {
    match r {
        Ok(v) => Ok(ref_views(v@)),
        Err(e) => Err(e),
    }
}

/// A query whose for-values are `["/"]` matches only references with no
/// for-values.
pub proof fn lemma_slash_matches_only_unscoped(refs: Seq<RefSpec>)
    ensures
        forall|i: int| 0 <= i < keep(refs, FilterSpec::For(seq!["/"@])).len() ==> (#[trigger] keep(
            refs,
            FilterSpec::For(seq!["/"@]),
        )[i]).link_fors.len() == 0,
        forall|i: int| 0 <= i < refs.len() && (#[trigger] refs[i]).link_fors.len() != 0 ==> !keep(
            refs,
            FilterSpec::For(seq!["/"@]),
        ).contains(refs[i]),
    decreases refs.len(),
{
    let f = FilterSpec::For(seq!["/"@]);
    if refs.len() > 0 {
        lemma_slash_matches_only_unscoped(refs.drop_last());
        let k = keep(refs, f);
        let k0 = keep(refs.drop_last(), f);
        assert forall|i: int| 0 <= i < k.len() implies (#[trigger] k[i]).link_fors.len() == 0 by {
            if i < k0.len() {
                assert(k[i] == k0[i]);
            }
        }
        assert forall|i: int| 0 <= i < refs.len() && (#[trigger] refs[i]).link_fors.len() != 0
            implies !k.contains(refs[i]) by {
            if k.contains(refs[i]) {
                let j = choose|j: int| 0 <= j < k.len() && k[j] == refs[i];
                assert(k[j].link_fors.len() == 0);
            }
        }
    }
}

/// A copy of a reference.
pub fn clone_reference(r: &Reference) -> (c: Reference)
    ensures
        c@ == r@,
{
    Reference {
        link_type: r.link_type.clone(),
        spec: clone_opt(&r.spec),
        status: r.status.clone(),
        url: r.url.clone(),
        link_fors: clone_strings(&r.link_fors),
    }
}
fn is_slash(s: &String) -> (r: bool)
    ensures
        r == (s@ == "/"@),
{
    let slash = String::from_str("/");
    str_eq(s, &slash)
}

/// Whether a reference's for-values meet a query's.
pub fn fors_match(target: &Vec<String>, test: &Vec<String>) -> (r: bool)
    ensures
        r == for_match(views(target@), views(test@)),
{
    if test.len() == 1 && is_slash(&test[0]) {
        return target.len() == 0;
    }
    assert(test@.len() >= 1 ==> views(test@)[0] == test@[0]@);
    let mut i: usize = 0;
    while i < test.len()
        invariant
            i <= test@.len(),
            !(test@.len() == 1 && views(test@)[0] == "/"@),
            forall|j: int| 0 <= j < i ==> !views(target@).contains(#[trigger] views(test@)[j]),
        decreases test@.len() - i,
    {
        assert(views(test@)[i as int] == test@[i as int]@);
        if contains_str(target, &test[i]) {
            assert(views(target@).contains(views(test@)[i as int]));
            return true;
        }
        i = i + 1;
    }
    false
}

/// A filter stage over strings.
pub enum Filter {
    Type(String),
    Status(String),
    For(Vec<String>),
}

pub open spec fn filter_view(f: Filter) -> FilterSpec {
    match f {
        Filter::Type(t) => FilterSpec::Type(t@),
        Filter::Status(s) => FilterSpec::Status(s@),
        Filter::For(v) => FilterSpec::For(views(v@)),
    }
}

fn passes_exec(r: &Reference, f: &Filter) -> (b: bool)
    ensures
        b == passes(r@, filter_view(*f)),
{
    match f {
        Filter::Type(t) => str_eq(&r.link_type, t),
        Filter::Status(s) => str_eq(&r.status, s),
        Filter::For(v) => fors_match(&r.link_fors, v),
    }
}

/// The references that pass `f`, in order.
pub fn filter_references(refs: &Vec<Reference>, f: &Filter) -> (r: Vec<Reference>)
    ensures
        ref_views(r@) == keep(ref_views(refs@), filter_view(*f)),
{
    let mut out: Vec<Reference> = Vec::new();
    let mut i: usize = 0;
    while i < refs.len()
        invariant
            i <= refs@.len(),
            ref_views(out@) == keep(ref_views(refs@).take(i as int), filter_view(*f)),
        decreases refs@.len() - i,
    {
        assert(ref_views(refs@).take(i + 1).drop_last() =~= ref_views(refs@).take(i as int));
        assert(ref_views(refs@).take(i + 1).last() == refs@[i as int]@);
        if passes_exec(&refs[i], f) {
            let ghost before = ref_views(out@);
            out.push(clone_reference(&refs[i]));
            assert(ref_views(out@) =~= before.push(refs@[i as int]@));
        }
        i = i + 1;
    }
    assert(ref_views(refs@).take(i as int) =~= ref_views(refs@));
    out
}

fn clone_references(v: &Vec<Reference>) -> (r: Vec<Reference>)
    ensures
        ref_views(r@) == ref_views(v@),
{
    let mut r: Vec<Reference> = Vec::new();
    let mut i: usize = 0;
    while i < v.len()
        invariant
            i <= v@.len(),
            ref_views(r@) == ref_views(v@).take(i as int),
        decreases v@.len() - i,
    {
        let c = clone_reference(&v[i]);
        let ghost before = ref_views(r@);
        r.push(c);
        assert(ref_views(r@) =~= before.push(v@[i as int]@));
        assert(ref_views(r@) =~= ref_views(v@).take(i + 1));
        i = i + 1;
    }
    assert(ref_views(v@).take(i as int) =~= ref_views(v@));
    r
}

/// The filter pipeline: by link type, by status when the query names one,
/// then by for-values, each stage failing with its own error when it leaves
/// nothing.
pub fn filter_fetched(fetched: Vec<Reference>, query: &Query) -> (r: Result<Vec<Reference>, QueryError>)
    ensures
        result_views(r) == filter_spec(ref_views(fetched@), query@),
{
    if fetched.len() == 0 {
        return Err(QueryError::Text);
    }
    let s2 = filter_references(&fetched, &Filter::Type(query.link_type.clone()));
    if s2.len() == 0 {
        return Err(QueryError::LinkType);
    }
    let s3 = match &query.status {
        Some(st) => filter_references(&s2, &Filter::Status(st.clone())),
        None => s2,
    };
    if s3.len() == 0 {
        return Err(QueryError::Status);
    }
    let s4 = match &query.link_fors {
        Some(f) => filter_references(&s3, &Filter::For(clone_strings(f))),
        None => {
            if query.explicit_for {
                let mut only = Vec::new();
                only.push(String::from_str("/"));
                assert(views(only@) =~= seq!["/"@]);
                filter_references(&s3, &Filter::For(only))
            } else {
                s3
            }
        },
    };
    if s4.len() == 0 {
        return Err(QueryError::For);
    }
    Ok(s4)
}

impl ReferenceSource {
    pub fn new(source_kind: SourceKind) -> (r: ReferenceSource)
        ensures
            r.source_kind == source_kind,
            r.loaded_groups@.len() == 0,
            r.references@.len() == 0,
    {
        ReferenceSource { source_kind, loaded_groups: Vec::new(), references: Vec::new() }
    }

    /// Index of the first entry for `key`.
    fn find_entry(&self, key: &String) -> (r: Option<usize>)
        ensures
            match r {
                Some(i) => i < self.references@.len() && self.references@[i as int].text@ == key@
                    && lookup(self.references@, key@) == ref_views(self.references@[i as int].refs@)
                    && forall|j: int| 0 <= j < i ==> (#[trigger] self.references@[j]).text@ != key@,
                None => lookup(self.references@, key@).len() == 0 && forall|j: int|
                    0 <= j < self.references@.len() ==> (#[trigger] self.references@[j]).text@ != key@,
            },
    {
        let mut i: usize = 0;
        assert(self.references@.skip(0) =~= self.references@);
        while i < self.references.len()
            invariant
                i <= self.references@.len(),
                lookup(self.references@.skip(i as int), key@) == lookup(self.references@, key@),
                forall|j: int| 0 <= j < i ==> (#[trigger] self.references@[j]).text@ != key@,
            decreases self.references@.len() - i,
        {
            assert(self.references@.skip(i as int)[0] == self.references@[i as int]);
            if str_eq(&self.references[i].text, key) {
                return Some(i);
            }
            assert(self.references@.skip(i as int).skip(1) =~= self.references@.skip(i + 1));
            i = i + 1;
        }
        None
    }

    /// The references stored under `link_text`.
    pub fn fetch_references(&self, link_text: &String) -> (r: Vec<Reference>)
        ensures
            ref_views(r@) == lookup(self.references@, link_text@),
    {
        match self.find_entry(link_text) {
            Some(i) => clone_references(&self.references[i].refs),
            None => Vec::new(),
        }
    }

    /// Stores `reference` under `link_text`, after those stored there before.
    pub fn add_reference(&mut self, link_text: String, reference: Reference)
        ensures
            final(self).source_kind == old(self).source_kind,
            final(self).loaded_groups == old(self).loaded_groups,
            lookup(final(self).references@, link_text@) == lookup(old(self).references@, link_text@).push(
                reference@,
            ),
            forall|k: Seq<char>| k != link_text@ ==> lookup(final(self).references@, k) == lookup(
                old(self).references@,
                k,
            ),
    {
        let ghost e0 = self.references@;
        match self.find_entry(&link_text) {
            Some(i) => {
                let ghost old_refs = self.references@[i as int].refs@;
                let mut refs = clone_references(&self.references[i].refs);
                refs.push(reference);
                let t = self.references[i].text.clone();
                self.references.set(i, Entry { text: t, refs });
                proof {
                    assert forall|k: Seq<char>| true implies lookup(self.references@, k) == if k
                        == link_text@ {
                        lookup(e0, k).push(reference@)
                    } else {
                        lookup(e0, k)
                    } by {
                        lemma_lookup_set(e0, i as int, self.references@, k, link_text@);
                    }
                    assert(ref_views(self.references@[i as int].refs@) =~= ref_views(old_refs).push(reference@));
                }
            },
            None => {
                let mut refs = Vec::new();
                refs.push(reference);
                self.references.push(Entry { text: link_text, refs });
                proof {
                    assert(ref_views(self.references@.last().refs@) =~= seq![reference@]);
                    assert forall|k: Seq<char>| true implies lookup(self.references@, k) == if k
                        == link_text@ {
                        seq![reference@]
                    } else {
                        lookup(e0, k)
                    } by {
                        lemma_lookup_push(e0, self.references@, k, link_text@);
                    }
                    assert(Seq::<RefSpec>::empty().push(reference@) =~= seq![reference@]);
                }
            },
        }
    }

    /// The data-file group that must be loaded before `link_text` can be
    /// looked up: only for an external source, only when nothing is stored
    /// under the text, and only once per group.
    pub fn group_to_load(&self, link_text: &String) -> (r: Option<String>)
        ensures
            match r {
                Some(g) => self.source_kind == SourceKind::External && lookup(self.references@, link_text@).len()
                    == 0 && g@ == group_of(lower_of(link_text@)) && !views(self.loaded_groups@).contains(g@),
                None => self.source_kind != SourceKind::External || lookup(self.references@, link_text@).len() > 0
                    || views(self.loaded_groups@).contains(group_of(lower_of(link_text@))),
            },
    {
        if self.source_kind != SourceKind::External {
            return None;
        }
        if self.find_entry(link_text).is_some() {
            let refs = self.fetch_references(link_text);
            if refs.len() > 0 {
                return None;
            }
        }
        let group = generate_group_name(link_text.as_str());
        if contains_str(&self.loaded_groups, &group) {
            None
        } else {
            Some(group)
        }
    }

    /// Stores the records of a group's data file and marks the group loaded.
    pub fn load_group(&mut self, group: String, lines: &Vec<String>) -> (r: Result<(), DataError>)
        ensures
            r is Ok == anchor_records(views(lines@)) is Some,
            r is Ok ==> views(final(self).loaded_groups@) == views(old(self).loaded_groups@).push(group@),
            r is Ok ==> forall|k: Seq<char>| #[trigger] lookup(final(self).references@, k) == lookup(
                old(self).references@,
                k,
            ) + records_for(anchor_records(views(lines@))->0, k),
            r is Err ==> final(self).references == old(self).references,
            r is Err ==> final(self).loaded_groups == old(self).loaded_groups,
            final(self).source_kind == old(self).source_kind,
    {
        let records = match parse_anchor_data(lines) {
            Ok(v) => v,
            Err(e) => {
                return Err(e);
            },
        };
        let ghost recs = record_views(records@);
        let mut i: usize = 0;
        while i < records.len()
            invariant
                self.source_kind == old(self).source_kind,
                self.loaded_groups == old(self).loaded_groups,
                recs == record_views(records@),
                i <= records@.len(),
                forall|k: Seq<char>| #[trigger] lookup(self.references@, k) == lookup(old(self).references@, k)
                    + records_for(recs.take(i as int), k),
            decreases records@.len() - i,
        {
            let text = records[i].0.clone();
            let reference = clone_reference(&records[i].1);
            let ghost before = self.references@;
            self.add_reference(text, reference);
            proof {
                assert(recs.take(i + 1).drop_last() =~= recs.take(i as int));
                assert(recs.take(i + 1).last() == recs[i as int]);
                assert forall|k: Seq<char>| #[trigger] lookup(self.references@, k) == lookup(old(self).references@, k)
                    + records_for(recs.take(i + 1), k) by {
                    if k == recs[i as int].0 {
                        assert(lookup(old(self).references@, k) + records_for(recs.take(i as int), k).push(recs[i as int].1)
                            =~= lookup(old(self).references@, k) + records_for(recs.take(i + 1), k));
                    } else {
                        assert(lookup(old(self).references@, k) + records_for(recs.take(i + 1), k)
                            =~= lookup(old(self).references@, k) + records_for(recs.take(i as int), k));
                    }
                }
            }
            i = i + 1;
        }
        assert(recs.take(i as int) =~= recs);
        let ghost before = views(self.loaded_groups@);
        self.loaded_groups.push(group);
        assert(views(self.loaded_groups@) =~= before.push(group@));
        Ok(())
    }

    /// Runs a query against what is stored.
    pub fn query_references(&self, query: &Query, mode: QueryMode) -> (r: Result<Vec<Reference>, QueryError>)
        ensures
            result_views(r) == query_spec(self.references@, query@, mode),
    {
        let exact = filter_fetched(self.fetch_references(&query.link_text), query);
        match mode {
            QueryMode::Exact => exact,
            QueryMode::Inexact => {
                if exact.is_ok() {
                    exact
                } else {
                    let texts = link_text_variations(query.link_type.as_str(), query.link_text.as_str());
                    let mut all: Vec<Reference> = Vec::new();
                    let mut i: usize = 0;
                    while i < texts.len()
                        invariant
                            i <= texts@.len(),
                            ref_views(all@) == lookup_all(self.references@, views(texts@).take(i as int)),
                        decreases texts@.len() - i,
                    {
                        let mut more = self.fetch_references(&texts[i]);
                        let ghost before = ref_views(all@);
                        let ghost added = ref_views(more@);
                        all.append(&mut more);
                        proof {
                            assert(ref_views(all@) =~= before + added);
                            assert(views(texts@).take(i + 1).drop_last() =~= views(texts@).take(i as int));
                        }
                        i = i + 1;
                    }
                    assert(views(texts@).take(i as int) =~= views(texts@));
                    filter_fetched(all, query)
                }
            },
        }
    }
}

proof fn lemma_lookup_set(e0: Seq<Entry>, i: int, e1: Seq<Entry>, k: Seq<char>, key: Seq<char>)
    requires
        0 <= i < e0.len(),
        e1.len() == e0.len(),
        forall|j: int| 0 <= j < e0.len() && j != i ==> e1[j] == e0[j],
        e0[i].text@ == key,
        e1[i].text@ == key,
        forall|j: int| 0 <= j < i ==> (#[trigger] e0[j]).text@ != key,
    ensures
        lookup(e1, k) == if k == key {
            ref_views(e1[i].refs@)
        } else {
            lookup(e0, k)
        },
    decreases i,
{
    if i > 0 {
        assert(e1[0] == e0[0]);
        assert forall|j: int| 0 <= j < i - 1 implies (#[trigger] e0.skip(1)[j]).text@ != key by {
            assert(e0.skip(1)[j] == e0[j + 1]);
        }
        lemma_lookup_set(e0.skip(1), i - 1, e1.skip(1), k, key);
    } else {
        assert(e1.skip(1) =~= e0.skip(1));
    }
}

proof fn lemma_lookup_push(e0: Seq<Entry>, e1: Seq<Entry>, k: Seq<char>, key: Seq<char>)
    requires
        e1.len() == e0.len() + 1,
        forall|j: int| 0 <= j < e0.len() ==> e1[j] == e0[j],
        forall|j: int| 0 <= j < e0.len() ==> (#[trigger] e0[j]).text@ != key,
        e1.last().text@ == key,
    ensures
        lookup(e1, k) == if k == key {
            ref_views(e1.last().refs@)
        } else {
            lookup(e0, k)
        },
    decreases e0.len(),
{
    if e0.len() > 0 {
        let t0 = e0.skip(1);
        let t1 = e1.skip(1);
        assert(e1[0] == e0[0]);
        assert(e0[0].text@ != key);
        assert forall|j: int| 0 <= j < t0.len() implies t1[j] == t0[j] by {
            assert(t1[j] == e1[j + 1]);
            assert(t0[j] == e0[j + 1]);
        }
        assert forall|j: int| 0 <= j < t0.len() implies (#[trigger] t0[j]).text@ != key by {
            assert(t0[j] == e0[j + 1]);
        }
        assert(t1.last() == e1.last());
        lemma_lookup_push(t0, t1, k, key);
        if e0[0].text@ == k {
            assert(lookup(e1, k) == ref_views(e1[0].refs@));
            assert(lookup(e0, k) == ref_views(e0[0].refs@));
        } else {
            assert(lookup(e1, k) == lookup(t1, k));
            assert(lookup(e0, k) == lookup(t0, k));
        }
    } else {
        assert(e1.skip(1).len() == 0);
        assert(e1[0] == e1.last());
        if k == key {
            assert(lookup(e1, k) == ref_views(e1[0].refs@));
        } else {
            assert(lookup(e1, k) == lookup(e1.skip(1), k));
        }
    }
}

/// First line at or after `i` that is `-`; the length when none is.
pub open spec fn dash_line_from(lines: Seq<Seq<char>>, i: int) -> int
    decreases lines.len() - i,
{
    if i < 0 || i >= lines.len() {
        lines.len() as int
    } else if lines[i] == "-"@ {
        i
    } else {
        dash_line_from(lines, i + 1)
    }
}

/// The records of an anchor data file: a key line, then link type, spec,
/// short name, level, status, url, export and normative lines, then the
/// for-values up to a `-` line. `None` when a record is cut short.
pub open spec fn anchor_records(lines: Seq<Seq<char>>) -> Option<Seq<(Seq<char>, RefSpec)>>
    decreases lines.len(),
{
    if lines.len() == 0 {
        Some(Seq::empty())
    } else if lines.len() < 9 {
        None
    } else {
        let e = dash_line_from(lines, 9);
        if e < 9 || e >= lines.len() {
            None
        } else {
            let rec = (
                lines[0],
                RefSpec {
                    link_type: lines[1],
                    spec: Some(lines[2]),
                    status: lines[5],
                    url: lines[6],
                    link_fors: lines.subrange(9, e),
                },
            );
            match anchor_records(lines.skip(e + 1)) {
                Some(rest) => Some(seq![rec] + rest),
                None => None,
            }
        }
    }
}

/// The references the records give for `key`, in file order.
pub open spec fn records_for(recs: Seq<(Seq<char>, RefSpec)>, key: Seq<char>) -> Seq<RefSpec>
    decreases recs.len(),
{
    if recs.len() == 0 {
        Seq::empty()
    } else {
        records_for(recs.drop_last(), key) + if recs.last().0 == key {
            seq![recs.last().1]
        } else {
            Seq::empty()
        }
    }
}

pub open spec fn record_views(v: Seq<(String, Reference)>) -> Seq<(Seq<char>, RefSpec)> {
    v.map_values(|p: (String, Reference)| (p.0@, p.1@))
}

proof fn lemma_dash_line_bounds(lines: Seq<Seq<char>>, i: int)
    requires
        0 <= i <= lines.len(),
    ensures
        i <= dash_line_from(lines, i) <= lines.len(),
    decreases lines.len() - i,
{
    if i < lines.len() && lines[i] != "-"@ {
        lemma_dash_line_bounds(lines, i + 1);
    }
}

/// Reads the records of an anchor data file.
pub fn parse_anchor_data(lines: &Vec<String>) -> (r: Result<Vec<(String, Reference)>, DataError>)
    ensures
        match anchor_records(views(lines@)) {
            Some(recs) => r is Ok && record_views(r->Ok_0@) == recs,
            None => r is Err,
        },
{
    let ghost all = views(lines@);
    let mut out: Vec<(String, Reference)> = Vec::new();
    let mut pos: usize = 0;
    assert(all.skip(0) =~= all);
    while pos < lines.len()
        invariant
            all == views(lines@),
            pos <= lines@.len(),
            match anchor_records(all.skip(pos as int)) {
                Some(rest) => anchor_records(all) == Some(record_views(out@) + rest),
                None => anchor_records(all) is None,
            },
        decreases lines@.len() - pos,
    {
        let ghost tail = all.skip(pos as int);
        if lines.len() - pos < 9 {
            return Err(DataError);
        }
        let mut e = pos + 9;
        while e < lines.len() && !is_dash(&lines[e])
            invariant
                pos + 9 <= e <= lines@.len(),
                all == views(lines@),
                tail == all.skip(pos as int),
                dash_line_from(tail, 9) == dash_line_from(tail, e - pos),
            decreases lines@.len() - e,
        {
            assert(tail[e - pos] == all[e as int]);
            e = e + 1;
        }
        if e >= lines.len() {
            return Err(DataError);
        }
        assert(tail[e - pos] == all[e as int]);
        let mut fors: Vec<String> = Vec::new();
        let mut j = pos + 9;
        while j < e
            invariant
                pos + 9 <= j <= e < lines@.len(),
                all == views(lines@),
                views(fors@) == all.subrange(pos + 9, j as int),
            decreases e - j,
        {
            let c = lines[j].clone();
            let ghost before = views(fors@);
            fors.push(c);
            assert(views(fors@) =~= before.push(all[j as int]));
            assert(views(fors@) =~= all.subrange(pos + 9, j + 1));
            j = j + 1;
        }
        let reference = Reference {
            link_type: lines[pos + 1].clone(),
            spec: Some(lines[pos + 2].clone()),
            status: lines[pos + 5].clone(),
            url: lines[pos + 6].clone(),
            link_fors: fors,
        };
        let ghost before = record_views(out@);
        out.push((lines[pos].clone(), reference));
        proof {
            assert(tail.subrange(9, e - pos) =~= all.subrange(pos + 9, e as int));
            assert(tail.skip(e - pos + 1) =~= all.skip(e + 1));
            assert(record_views(out@) =~= before.push(
                (
                    all[pos as int],
                    RefSpec {
                        link_type: all[pos + 1],
                        spec: Some(all[pos + 2]),
                        status: all[pos + 5],
                        url: all[pos + 6],
                        link_fors: all.subrange(pos + 9, e as int),
                    },
                ),
            ));
            match anchor_records(all.skip(e + 1)) {
                Some(rest) => {
                    assert(before.push(record_views(out@).last()) + rest =~= before + (seq![
                        record_views(out@).last(),
                    ] + rest));
                },
                None => {},
            }
        }
        pos = e + 1;
    }
    assert(all.skip(pos as int) =~= Seq::<Seq<char>>::empty());
    assert(record_views(out@) + Seq::<(Seq<char>, RefSpec)>::empty() =~= record_views(out@));
    Ok(out)
}
/// The three sources a link is resolved against, and the name of the spec
/// being processed, which local references carry.
#[derive(Debug)]
pub struct ReferenceManager {
    pub local_reference_source: ReferenceSource,
    pub anchor_block_reference_source: ReferenceSource,
    pub external_reference_source: ReferenceSource,
    pub spec: Option<String>,
}

/// The query asked of the local and anchor-block sources: no status.
pub open spec fn without_status(q: QuerySpec) -> QuerySpec {
    QuerySpec { status: None, ..q }
}

/// The first reference of a query's answer.
pub open spec fn first_of(r: Result<Seq<RefSpec>, QueryError>) -> Result<RefSpec, QueryError> {
    match r {
        Ok(v) => Ok(v[0]),
        Err(e) => Err(e),
    }
}

/// What a query resolves to: the first reference of the local source's
/// answer, else of the anchor blocks', else of the external source's, which
/// alone is asked inexactly when `allow_inexact` and is asked for current
/// references only.
pub open spec fn resolution(m: ReferenceManager, q: QuerySpec, allow_inexact: bool) -> Result<RefSpec, QueryError> {
    let local = query_spec(m.local_reference_source.references@, without_status(q), QueryMode::Exact);
    let anchor = query_spec(m.anchor_block_reference_source.references@, without_status(q), QueryMode::Exact);
    let mode = if allow_inexact { QueryMode::Inexact } else { QueryMode::Exact };
    let external = query_spec(m.external_reference_source.references@, QuerySpec { status: Some("current"@), ..q }, mode);
    if local is Ok {
        first_of(local)
    } else if anchor is Ok {
        first_of(anchor)
    } else {
        first_of(external)
    }
}

/// A link whose text the document defines resolves to the document's own
/// definition, whatever the other sources hold.
pub proof fn lemma_local_definition_wins(m: ReferenceManager, q: QuerySpec, allow_inexact: bool)
    requires
        query_spec(m.local_reference_source.references@, without_status(q), QueryMode::Exact) is Ok,
    ensures
        resolution(m, q, allow_inexact) == first_of(
            query_spec(m.local_reference_source.references@, without_status(q), QueryMode::Exact),
        ),
{
}

impl ReferenceManager {
    pub fn new() -> (r: ReferenceManager)
        ensures
            r.local_reference_source.source_kind == SourceKind::Local,
            r.local_reference_source.references@.len() == 0,
            r.anchor_block_reference_source.source_kind == SourceKind::AnchorBlock,
            r.anchor_block_reference_source.references@.len() == 0,
            r.external_reference_source.source_kind == SourceKind::External,
            r.external_reference_source.references@.len() == 0,
            r.spec is None,
    {
        ReferenceManager {
            local_reference_source: ReferenceSource::new(SourceKind::Local),
            anchor_block_reference_source: ReferenceSource::new(SourceKind::AnchorBlock),
            external_reference_source: ReferenceSource::new(SourceKind::External),
            spec: None,
        }
    }

    /// Stores the reference of a definition of this document: its type, its
    /// url `#id` and its for-values, with status `local`.
    pub fn add_local_dfn(&mut self, link_text: String, link_type: String, id: &str, link_fors: Vec<String>)
        ensures
            ({
                let r = RefSpec {
                    link_type: link_type@,
                    spec: opt_view(old(self).spec),
                    status: "local"@,
                    url: "#"@ + id@,
                    link_fors: views(link_fors@),
                };
                lookup(final(self).local_reference_source.references@, link_text@) == lookup(
                    old(self).local_reference_source.references@,
                    link_text@,
                ).push(r)
            }),
            forall|k: Seq<char>| k != link_text@ ==> #[trigger] lookup(final(self).local_reference_source.references@, k)
                == lookup(old(self).local_reference_source.references@, k),
            final(self).spec == old(self).spec,
            final(self).anchor_block_reference_source == old(self).anchor_block_reference_source,
            final(self).external_reference_source == old(self).external_reference_source,
            final(self).local_reference_source.source_kind == old(self).local_reference_source.source_kind,
    {
        let mut url = String::from_str("#");
        url.append(id);
        let reference = Reference {
            link_type,
            spec: clone_opt(&self.spec),
            status: String::from_str("local"),
            url,
            link_fors,
        };
        self.local_reference_source.add_reference(link_text, reference);
    }

    /// Resolves a query: the local source first, then the anchor blocks
    /// (both exactly and regardless of status), then the external source,
    /// inexactly when `allow_inexact`. The first source with an answer wins,
    /// and the first reference of that answer is returned.
    pub fn get_reference(&self, query: &Query, allow_inexact: bool) -> (r: Result<Reference, QueryError>)
        ensures
            match r {
                Ok(x) => resolution(*self, query@, allow_inexact) == Ok::<RefSpec, QueryError>(x@),
                Err(e) => resolution(*self, query@, allow_inexact) == Err::<RefSpec, QueryError>(e),
            },
    {
        let plain = Query {
            link_type: query.link_type.clone(),
            link_text: query.link_text.clone(),
            status: None,
            link_fors: match &query.link_fors {
                Some(f) => Some(clone_strings(f)),
                None => None,
            },
            explicit_for: query.explicit_for,
        };
        assert(plain@ == without_status(query@));
        if let Ok(v) = self.local_reference_source.query_references(&plain, QueryMode::Exact) {
            return Ok(clone_reference(&v[0]));
        }
        if let Ok(v) = self.anchor_block_reference_source.query_references(&plain, QueryMode::Exact) {
            return Ok(clone_reference(&v[0]));
        }
        let mode = if allow_inexact {
            QueryMode::Inexact
        } else {
            QueryMode::Exact
        };
        let current = Query {
            link_type: query.link_type.clone(),
            link_text: query.link_text.clone(),
            status: Some(String::from_str("current")),
            link_fors: match &query.link_fors {
                Some(f) => Some(clone_strings(f)),
                None => None,
            },
            explicit_for: query.explicit_for,
        };
        assert(current@ == (QuerySpec { status: Some("current"@), ..query@ }));
        match self.external_reference_source.query_references(&current, mode) {
            Ok(v) => Ok(clone_reference(&v[0])),
            Err(e) => Err(e),
        }
    }
}

} // verus!
