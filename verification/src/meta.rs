//! Executor metadata and the matcher that evaluates a `Query` against it.
//!
//! A `Tag` is an opaque description of an executor: a scalar string, a list
//! of tags, or a string-keyed map of tags. An `ExecutorMeta` couples a
//! `client_id` with a version and a tag map. Matching is a mutual recursion
//! over the query and the tag shapes, with the three-valued rules of
//! `MatchResult`. A second, lighter matcher takes a plain string pattern of
//! the shape `key:sub` instead of a parsed query.

use vstd::prelude::*;
use crate::query::{MatchResult, Query};

verus! {

broadcast use
    vstd::seq::axiom_seq_index_decreases,
    vstd::std_specs::vec::axiom_vec_index_decreases,
    vstd::std_specs::vec::axiom_vec_decreases_to_view;

/// A string-keyed map of tags, kept as a vector of entries.
///
/// Lookup takes the first entry with the asked-for key, so maps built from
/// distinct keys behave exactly like an associative map.
#[derive(Debug, PartialEq, Eq)]
pub struct TagMap {
    pub entries: Vec<(String, Tag)>,
}

/// An opaque value describing an executor.
#[derive(Debug, PartialEq, Eq)]
pub enum Tag {
    Dict(TagMap),
    List(Vec<Tag>),
    Value(String),
}

/// Per-executor record; identity is the `client_id`.
#[derive(Debug, PartialEq, Eq)]
pub struct ExecutorMeta {
    pub client_id: String,
    pub version: String,
    pub tags: TagMap,
}

/// Something a query can be evaluated against.
pub trait QueryMatcher {
    spec fn spec_qmatches(&self, q: Query) -> MatchResult;

    fn qmatches(&self, query: &Query) -> (r: MatchResult)
        ensures
            r == self.spec_qmatches(*query),
    ;
}

// ------------------------------------------------------------------
// Scalar strings against a query.
// ------------------------------------------------------------------

/// What a scalar string makes of a query: equality for patterns, never a
/// field, and the three-valued combinators for the boolean forms.
pub open spec fn spec_scalar_qmatches(s: String, q: Query) -> MatchResult
    decreases q, 0int,
{
    match q {
        Query::Pattern(p) => if p@ == s@ {
            MatchResult::Match
        } else {
            MatchResult::NoMatch
        },
        Query::FieldPattern(_, _) => MatchResult::NoMatch,
        Query::Wildcard => MatchResult::Match,
        Query::And(qs) => spec_scalar_fold_and(s, qs@, 0),
        Query::Or(qs) => spec_scalar_fold_or(s, qs@, 0),
        Query::Not(sub) => spec_scalar_qmatches(s, *sub).spec_negate(),
    }
}

pub open spec fn spec_scalar_fold_and(s: String, qs: Seq<Query>, i: int) -> MatchResult
    decreases qs, qs.len() - i,
{
    if i < 0 || i >= qs.len() {
        MatchResult::Match
    } else {
        spec_scalar_qmatches(s, qs[i]).spec_bitand(spec_scalar_fold_and(s, qs, i + 1))
    }
}

pub open spec fn spec_scalar_fold_or(s: String, qs: Seq<Query>, i: int) -> MatchResult
    decreases qs, qs.len() - i,
{
    if i < 0 || i >= qs.len() {
        MatchResult::NoMatch
    } else {
        spec_scalar_qmatches(s, qs[i]).spec_bitor(spec_scalar_fold_or(s, qs, i + 1))
    }
}

fn scalar_qmatches(s: &String, q: &Query) -> (r: MatchResult)
    ensures
        r == spec_scalar_qmatches(*s, *q),
    decreases *q, 0int,
{
    match q {
        Query::Pattern(p) => if *p == *s {
            MatchResult::Match
        } else {
            MatchResult::NoMatch
        },
        Query::FieldPattern(_, _) => MatchResult::NoMatch,
        Query::Wildcard => MatchResult::Match,
        Query::And(qs) => scalar_fold_and(s, qs, 0),
        Query::Or(qs) => scalar_fold_or(s, qs, 0),
        Query::Not(sub) => scalar_qmatches(s, sub).negate(),
    }
}

fn scalar_fold_and(s: &String, qs: &Vec<Query>, i: usize) -> (r: MatchResult)
    requires
        i <= qs@.len(),
    ensures
        r == spec_scalar_fold_and(*s, qs@, i as int),
    decreases qs@, qs@.len() - i,
{
    if i == qs.len() {
        MatchResult::Match
    } else {
        scalar_qmatches(s, &qs[i]).bitand(scalar_fold_and(s, qs, i + 1))
    }
}

fn scalar_fold_or(s: &String, qs: &Vec<Query>, i: usize) -> (r: MatchResult)
    requires
        i <= qs@.len(),
    ensures
        r == spec_scalar_fold_or(*s, qs@, i as int),
    decreases qs@, qs@.len() - i,
{
    if i == qs.len() {
        MatchResult::NoMatch
    } else {
        scalar_qmatches(s, &qs[i]).bitor(scalar_fold_or(s, qs, i + 1))
    }
}

impl QueryMatcher for String {
    open spec fn spec_qmatches(&self, q: Query) -> MatchResult {
        spec_scalar_qmatches(*self, q)
    }

    fn qmatches(&self, query: &Query) -> (r: MatchResult) {
        scalar_qmatches(self, query)
    }
}

// ------------------------------------------------------------------
// Tag maps, tag lists and single tags against a query.
// ------------------------------------------------------------------

/// What a map makes of a query: a bare pattern never matches a map, a field
/// pattern descends into the named entry, and the boolean forms recurse on
/// the whole map.
pub open spec fn spec_map_qmatches(m: TagMap, q: Query) -> MatchResult
    decreases m, q, 0int,
{
    match q {
        Query::Pattern(_) => MatchResult::NoMatch,
        Query::FieldPattern(f, sub) => spec_map_field_match(m.entries@, 0, f, *sub),
        Query::Wildcard => MatchResult::Match,
        Query::And(qs) => spec_map_fold_and(m, qs@, 0),
        Query::Or(qs) => spec_map_fold_or(m, qs@, 0),
        Query::Not(sub) => spec_map_qmatches(m, *sub).spec_negate(),
    }
}

/// Looks for the first entry named `f`; delegates to its tag, or reports
/// `NoMatch` when the field is absent.
pub open spec fn spec_map_field_match(
    entries: Seq<(String, Tag)>,
    i: int,
    f: String,
    sub: Query,
) -> MatchResult
    decreases entries, sub, entries.len() - i,
{
    if i < 0 || i >= entries.len() {
        MatchResult::NoMatch
    } else if entries[i].0@ == f@ {
        spec_tag_qmatches(entries[i].1, sub)
    } else {
        spec_map_field_match(entries, i + 1, f, sub)
    }
}

pub open spec fn spec_map_fold_and(m: TagMap, qs: Seq<Query>, i: int) -> MatchResult
    decreases m, qs, qs.len() - i,
{
    if i < 0 || i >= qs.len() {
        MatchResult::Match
    } else {
        spec_map_qmatches(m, qs[i]).spec_bitand(spec_map_fold_and(m, qs, i + 1))
    }
}

pub open spec fn spec_map_fold_or(m: TagMap, qs: Seq<Query>, i: int) -> MatchResult
    decreases m, qs, qs.len() - i,
{
    if i < 0 || i >= qs.len() {
        MatchResult::NoMatch
    } else {
        spec_map_qmatches(m, qs[i]).spec_bitor(spec_map_fold_or(m, qs, i + 1))
    }
}

/// What a list makes of a query: `And` asks every clause to match some
/// element, `Or` asks some clause to match some element, and a veto by any
/// element sticks through the element aggregation.
pub open spec fn spec_list_qmatches(items: Seq<Tag>, q: Query) -> MatchResult
    decreases items, q, items.len() + 1,
{
    match q {
        Query::Wildcard => MatchResult::Match,
        Query::And(cs) => spec_list_fold_and(items, cs@, 0),
        Query::Or(cs) => spec_list_fold_or(items, cs@, 0),
        Query::Not(_) => spec_list_all(items, q, 0),
        Query::Pattern(_) => spec_list_any(items, q, 0),
        Query::FieldPattern(_, _) => spec_list_any(items, q, 0),
    }
}

pub open spec fn spec_list_fold_and(items: Seq<Tag>, cs: Seq<Query>, i: int) -> MatchResult
    decreases items, cs, cs.len() - i,
{
    if i < 0 || i >= cs.len() {
        MatchResult::Match
    } else {
        spec_list_xor(items, cs[i], 0).spec_bitand(spec_list_fold_and(items, cs, i + 1))
    }
}

pub open spec fn spec_list_fold_or(items: Seq<Tag>, cs: Seq<Query>, i: int) -> MatchResult
    decreases items, cs, cs.len() - i,
{
    if i < 0 || i >= cs.len() {
        MatchResult::NoMatch
    } else {
        spec_list_any(items, cs[i], 0).spec_bitor(spec_list_fold_or(items, cs, i + 1))
    }
}

/// Element aggregation for one clause: any veto sticks unless a plain match
/// stands elsewhere.
pub open spec fn spec_list_xor(items: Seq<Tag>, c: Query, j: int) -> MatchResult
    decreases items, c, items.len() - j,
{
    if j < 0 || j >= items.len() {
        MatchResult::NoMatch
    } else {
        spec_tag_qmatches(items[j], c).spec_bitxor(spec_list_xor(items, c, j + 1))
    }
}

/// Disjunction of one clause over the elements.
pub open spec fn spec_list_any(items: Seq<Tag>, c: Query, j: int) -> MatchResult
    decreases items, c, items.len() - j,
{
    if j < 0 || j >= items.len() {
        MatchResult::NoMatch
    } else {
        spec_tag_qmatches(items[j], c).spec_bitor(spec_list_any(items, c, j + 1))
    }
}

/// Conjunction of one clause over the elements.
pub open spec fn spec_list_all(items: Seq<Tag>, c: Query, j: int) -> MatchResult
    decreases items, c, items.len() - j,
{
    if j < 0 || j >= items.len() {
        MatchResult::Match
    } else {
        spec_tag_qmatches(items[j], c).spec_bitand(spec_list_all(items, c, j + 1))
    }
}

/// A tag dispatches on its shape.
pub open spec fn spec_tag_qmatches(t: Tag, q: Query) -> MatchResult
    decreases t, q, 0int,
{
    match t {
        Tag::Dict(m) => spec_map_qmatches(m, q),
        Tag::List(l) => spec_list_qmatches(l@, q),
        Tag::Value(v) => spec_scalar_qmatches(v, q),
    }
}

fn map_qmatches(m: &TagMap, q: &Query) -> (r: MatchResult)
    ensures
        r == spec_map_qmatches(*m, *q),
    decreases *m, *q, 0int,
{
    match q {
        Query::Pattern(_) => MatchResult::NoMatch,
        Query::FieldPattern(f, sub) => map_field_match(&m.entries, 0, f, sub),
        Query::Wildcard => MatchResult::Match,
        Query::And(qs) => map_fold_and(m, qs, 0),
        Query::Or(qs) => map_fold_or(m, qs, 0),
        Query::Not(sub) => map_qmatches(m, sub).negate(),
    }
}

fn map_field_match(entries: &Vec<(String, Tag)>, i: usize, f: &String, sub: &Query) -> (r:
    MatchResult)
    requires
        i <= entries@.len(),
    ensures
        r == spec_map_field_match(entries@, i as int, *f, *sub),
    decreases entries@, *sub, entries@.len() - i,
{
    if i == entries.len() {
        MatchResult::NoMatch
    } else if entries[i].0 == *f {
        tag_qmatches(&entries[i].1, sub)
    } else {
        map_field_match(entries, i + 1, f, sub)
    }
}

fn map_fold_and(m: &TagMap, qs: &Vec<Query>, i: usize) -> (r: MatchResult)
    requires
        i <= qs@.len(),
    ensures
        r == spec_map_fold_and(*m, qs@, i as int),
    decreases *m, qs@, qs@.len() - i,
{
    if i == qs.len() {
        MatchResult::Match
    } else {
        map_qmatches(m, &qs[i]).bitand(map_fold_and(m, qs, i + 1))
    }
}

fn map_fold_or(m: &TagMap, qs: &Vec<Query>, i: usize) -> (r: MatchResult)
    requires
        i <= qs@.len(),
    ensures
        r == spec_map_fold_or(*m, qs@, i as int),
    decreases *m, qs@, qs@.len() - i,
{
    if i == qs.len() {
        MatchResult::NoMatch
    } else {
        map_qmatches(m, &qs[i]).bitor(map_fold_or(m, qs, i + 1))
    }
}

fn list_qmatches(items: &Vec<Tag>, q: &Query) -> (r: MatchResult)
    ensures
        r == spec_list_qmatches(items@, *q),
    decreases items@, *q, items@.len() + 1,
{
    match q {
        Query::Wildcard => MatchResult::Match,
        Query::And(cs) => list_fold_and(items, cs, 0),
        Query::Or(cs) => list_fold_or(items, cs, 0),
        Query::Not(_) => list_all(items, q, 0),
        Query::Pattern(_) => list_any(items, q, 0),
        Query::FieldPattern(_, _) => list_any(items, q, 0),
    }
}

fn list_fold_and(items: &Vec<Tag>, cs: &Vec<Query>, i: usize) -> (r: MatchResult)
    requires
        i <= cs@.len(),
    ensures
        r == spec_list_fold_and(items@, cs@, i as int),
    decreases items@, cs@, cs@.len() - i,
{
    if i == cs.len() {
        MatchResult::Match
    } else {
        list_xor(items, &cs[i], 0).bitand(list_fold_and(items, cs, i + 1))
    }
}

fn list_fold_or(items: &Vec<Tag>, cs: &Vec<Query>, i: usize) -> (r: MatchResult)
    requires
        i <= cs@.len(),
    ensures
        r == spec_list_fold_or(items@, cs@, i as int),
    decreases items@, cs@, cs@.len() - i,
{
    if i == cs.len() {
        MatchResult::NoMatch
    } else {
        list_any(items, &cs[i], 0).bitor(list_fold_or(items, cs, i + 1))
    }
}

fn list_xor(items: &Vec<Tag>, c: &Query, j: usize) -> (r: MatchResult)
    requires
        j <= items@.len(),
    ensures
        r == spec_list_xor(items@, *c, j as int),
    decreases items@, *c, items@.len() - j,
{
    if j == items.len() {
        MatchResult::NoMatch
    } else {
        tag_qmatches(&items[j], c).bitxor(list_xor(items, c, j + 1))
    }
}

fn list_any(items: &Vec<Tag>, c: &Query, j: usize) -> (r: MatchResult)
    requires
        j <= items@.len(),
    ensures
        r == spec_list_any(items@, *c, j as int),
    decreases items@, *c, items@.len() - j,
{
    if j == items.len() {
        MatchResult::NoMatch
    } else {
        tag_qmatches(&items[j], c).bitor(list_any(items, c, j + 1))
    }
}

fn list_all(items: &Vec<Tag>, c: &Query, j: usize) -> (r: MatchResult)
    requires
        j <= items@.len(),
    ensures
        r == spec_list_all(items@, *c, j as int),
    decreases items@, *c, items@.len() - j,
{
    if j == items.len() {
        MatchResult::Match
    } else {
        tag_qmatches(&items[j], c).bitand(list_all(items, c, j + 1))
    }
}

fn tag_qmatches(t: &Tag, q: &Query) -> (r: MatchResult)
    ensures
        r == spec_tag_qmatches(*t, *q),
    decreases *t, *q, 0int,
{
    match t {
        Tag::Dict(m) => map_qmatches(m, q),
        Tag::List(l) => list_qmatches(l, q),
        Tag::Value(v) => scalar_qmatches(v, q),
    }
}

impl QueryMatcher for TagMap {
    open spec fn spec_qmatches(&self, q: Query) -> MatchResult {
        spec_map_qmatches(*self, q)
    }

    fn qmatches(&self, query: &Query) -> (r: MatchResult) {
        map_qmatches(self, query)
    }
}

impl QueryMatcher for Vec<Tag> {
    open spec fn spec_qmatches(&self, q: Query) -> MatchResult {
        spec_list_qmatches(self@, q)
    }

    fn qmatches(&self, query: &Query) -> (r: MatchResult) {
        list_qmatches(self, query)
    }
}

impl QueryMatcher for Tag {
    open spec fn spec_qmatches(&self, q: Query) -> MatchResult {
        spec_tag_qmatches(*self, q)
    }

    fn qmatches(&self, query: &Query) -> (r: MatchResult) {
        tag_qmatches(self, query)
    }
}

// ------------------------------------------------------------------
// Executor metadata against a query.
// ------------------------------------------------------------------

/// One element of the metadata pair under one clause: the client id as a
/// scalar, the tags as a map, aggregated like a two-element list.
pub open spec fn spec_meta_item_xor(m: ExecutorMeta, c: Query) -> MatchResult {
    spec_scalar_qmatches(m.client_id, c).spec_bitxor(
        spec_map_qmatches(m.tags, c).spec_bitxor(MatchResult::NoMatch),
    )
}

pub open spec fn spec_meta_item_or(m: ExecutorMeta, c: Query) -> MatchResult {
    spec_scalar_qmatches(m.client_id, c).spec_bitor(spec_map_qmatches(m.tags, c))
}

pub open spec fn spec_meta_item_and(m: ExecutorMeta, c: Query) -> MatchResult {
    spec_scalar_qmatches(m.client_id, c).spec_bitand(spec_map_qmatches(m.tags, c))
}

pub open spec fn spec_meta_fold_and(m: ExecutorMeta, cs: Seq<Query>, i: int) -> MatchResult
    decreases cs.len() - i,
{
    if i < 0 || i >= cs.len() {
        MatchResult::Match
    } else {
        spec_meta_item_xor(m, cs[i]).spec_bitand(spec_meta_fold_and(m, cs, i + 1))
    }
}

pub open spec fn spec_meta_fold_or(m: ExecutorMeta, cs: Seq<Query>, i: int) -> MatchResult
    decreases cs.len() - i,
{
    if i < 0 || i >= cs.len() {
        MatchResult::NoMatch
    } else {
        spec_meta_item_or(m, cs[i]).spec_bitor(spec_meta_fold_or(m, cs, i + 1))
    }
}

/// Metadata behaves as the two-element collection of its client id and its
/// tag map.
pub open spec fn spec_meta_qmatches(m: ExecutorMeta, q: Query) -> MatchResult {
    match q {
        Query::Wildcard => MatchResult::Match,
        Query::And(cs) => spec_meta_fold_and(m, cs@, 0),
        Query::Or(cs) => spec_meta_fold_or(m, cs@, 0),
        Query::Not(_) => spec_meta_item_and(m, q),
        Query::Pattern(_) => spec_meta_item_or(m, q),
        Query::FieldPattern(_, _) => spec_meta_item_or(m, q),
    }
}

fn meta_item_xor(m: &ExecutorMeta, c: &Query) -> (r: MatchResult)
    ensures
        r == spec_meta_item_xor(*m, *c),
{
    scalar_qmatches(&m.client_id, c).bitxor(map_qmatches(&m.tags, c).bitxor(MatchResult::NoMatch))
}

fn meta_fold_and(m: &ExecutorMeta, cs: &Vec<Query>, i: usize) -> (r: MatchResult)
    requires
        i <= cs@.len(),
    ensures
        r == spec_meta_fold_and(*m, cs@, i as int),
    decreases cs@.len() - i,
{
    if i == cs.len() {
        MatchResult::Match
    } else {
        meta_item_xor(m, &cs[i]).bitand(meta_fold_and(m, cs, i + 1))
    }
}

fn meta_fold_or(m: &ExecutorMeta, cs: &Vec<Query>, i: usize) -> (r: MatchResult)
    requires
        i <= cs@.len(),
    ensures
        r == spec_meta_fold_or(*m, cs@, i as int),
    decreases cs@.len() - i,
{
    if i == cs.len() {
        MatchResult::NoMatch
    } else {
        scalar_qmatches(&m.client_id, &cs[i]).bitor(map_qmatches(&m.tags, &cs[i])).bitor(
            meta_fold_or(m, cs, i + 1),
        )
    }
}

impl QueryMatcher for ExecutorMeta {
    open spec fn spec_qmatches(&self, q: Query) -> MatchResult {
        spec_meta_qmatches(*self, q)
    }

    fn qmatches(&self, query: &Query) -> (r: MatchResult) {
        match query {
            Query::Wildcard => MatchResult::Match,
            Query::And(cs) => meta_fold_and(self, cs, 0),
            Query::Or(cs) => meta_fold_or(self, cs, 0),
            Query::Not(_) => scalar_qmatches(&self.client_id, query).bitand(
                map_qmatches(&self.tags, query),
            ),
            Query::Pattern(_) => scalar_qmatches(&self.client_id, query).bitor(
                map_qmatches(&self.tags, query),
            ),
            Query::FieldPattern(_, _) => scalar_qmatches(&self.client_id, query).bitor(
                map_qmatches(&self.tags, query),
            ),
        }
    }
}

// ------------------------------------------------------------------
// Construction and access.
// ------------------------------------------------------------------

/// First value bound to `key`, if any.
pub open spec fn spec_map_get(entries: Seq<(String, Tag)>, key: Seq<char>) -> Option<Tag>
    decreases entries.len(),
{
    if entries.len() == 0 {
        Option::None
    } else if entries[0].0@ == key {
        Option::Some(entries[0].1)
    } else {
        spec_map_get(entries.drop_first(), key)
    }
}

impl TagMap {
    pub fn new() -> (r: TagMap)
        ensures
            r.entries@.len() == 0,
    {
        TagMap { entries: Vec::new() }
    }

    pub fn insert(&mut self, key: String, value: Tag)
        ensures
            final(self).entries@ == old(self).entries@.push((key, value)),
    {
        self.entries.push((key, value));
    }

    pub fn get(&self, key: &String) -> (r: Option<&Tag>)
        ensures
            match r {
                Option::Some(t) => spec_map_get(self.entries@, key@) == Option::Some(*t),
                Option::None => spec_map_get(self.entries@, key@) is None,
            },
    {
        let mut i: usize = 0;
        proof {
            assert(self.entries@.subrange(0, self.entries@.len() as int) =~= self.entries@);
        }
        while i < self.entries.len()
            invariant
                i <= self.entries@.len(),
                spec_map_get(self.entries@, key@) == spec_map_get(
                    self.entries@.subrange(i as int, self.entries@.len() as int),
                    key@,
                ),
            decreases self.entries@.len() - i,
        {
            proof {
                assert(self.entries@.subrange(i as int, self.entries@.len() as int)[0]
                    == self.entries@[i as int]);
            }
            if self.entries[i].0 == *key {
                return Some(&self.entries[i].1);
            }
            proof {
                assert(self.entries@.subrange(i as int, self.entries@.len() as int).drop_first()
                    =~= self.entries@.subrange(i as int + 1, self.entries@.len() as int));
            }
            i = i + 1;
        }
        proof {
            assert(self.entries@.subrange(
                self.entries@.len() as int,
                self.entries@.len() as int,
            ).len() == 0);
        }
        None
    }
}

/// A map field holds a named sub-value; used by the map matcher and offered
/// to callers that walk metadata themselves.
pub trait FieldExtractable {
    type Field;

    fn extract_field(&self, field: &String) -> Option<&Self::Field>;
}

impl FieldExtractable for TagMap {
    type Field = Tag;

    fn extract_field(&self, field: &String) -> (r: Option<&Tag>)
        ensures
            match r {
                Option::Some(t) => spec_map_get(self.entries@, field@) == Option::Some(*t),
                Option::None => spec_map_get(self.entries@, field@) is None,
            },
    {
        self.get(field)
    }
}

impl ExecutorMeta {
    pub fn new(client_id: String, version: String, tags: TagMap) -> (r: ExecutorMeta)
        ensures
            r.client_id == client_id,
            r.version == version,
            r.tags == tags,
    {
        ExecutorMeta { client_id, version, tags }
    }

    pub fn client_id(&self) -> (r: &String)
        ensures
            r == &self.client_id,
    {
        &self.client_id
    }

    pub fn version(&self) -> (r: &String)
        ensures
            r == &self.version,
    {
        &self.version
    }

    pub fn tags(&self) -> (r: &TagMap)
        ensures
            r == &self.tags,
    {
        &self.tags
    }

    pub fn tags_mut(&mut self) -> (r: &mut TagMap)
        ensures
            *r == old(self).tags,
            final(self).tags == *final(r),
            final(self).client_id == old(self).client_id,
            final(self).version == old(self).version,
    {
        &mut self.tags
    }

    pub open spec fn spec_client_id(&self) -> Seq<char> {
        self.client_id@
    }

    pub open spec fn spec_tags(&self) -> TagMap {
        self.tags
    }
}

} // verus!

verus! {

// ------------------------------------------------------------------
// The string-pattern matcher: `key:sub` patterns instead of a parsed
// query, with `*` as the universal pattern.
// ------------------------------------------------------------------

/// The universal pattern.
pub open spec fn spec_is_wildcard(p: Seq<char>) -> bool {
    p.len() == 1 && p[0] == '*'
}

/// Position of the first `:` in `s` at or after `i`, if any.
pub open spec fn spec_first_colon(s: Seq<char>, i: int) -> Option<int>
    decreases s.len() - i,
{
    if i < 0 || i >= s.len() {
        Option::None
    } else if s[i] == ':' {
        Option::Some(i)
    } else {
        spec_first_colon(s, i + 1)
    }
}

/// What a tag makes of a plain pattern: `*` matches anything; a scalar
/// compares for equality; a list matches if some element does; a map with a
/// `key:sub` pattern looks the key up (`key:*` is accepted outright), and
/// with a plain pattern matches if some entry value does.
pub open spec fn spec_tag_matches(t: Tag, p: Seq<char>) -> bool
    decreases t, 0int,
{
    if spec_is_wildcard(p) {
        true
    } else {
        match t {
            Tag::Value(v) => v@ == p,
            Tag::List(l) => spec_list_any_matches(l@, p, 0),
            Tag::Dict(m) => match spec_first_colon(p, 0) {
                Option::None => spec_entries_any_value_matches(m.entries@, p, 0),
                Option::Some(k) => {
                    let sub = p.subrange(k + 1, p.len() as int);
                    spec_is_wildcard(sub) || spec_entries_key_matches(
                        m.entries@,
                        p.subrange(0, k),
                        sub,
                        0,
                    )
                },
            },
        }
    }
}

pub open spec fn spec_list_any_matches(items: Seq<Tag>, p: Seq<char>, j: int) -> bool
    decreases items, items.len() - j,
{
    if j < 0 || j >= items.len() {
        false
    } else {
        spec_tag_matches(items[j], p) || spec_list_any_matches(items, p, j + 1)
    }
}

pub open spec fn spec_entries_any_value_matches(
    entries: Seq<(String, Tag)>,
    p: Seq<char>,
    j: int,
) -> bool
    decreases entries, entries.len() - j,
{
    if j < 0 || j >= entries.len() {
        false
    } else {
        spec_tag_matches(entries[j].1, p) || spec_entries_any_value_matches(entries, p, j + 1)
    }
}

pub open spec fn spec_entries_key_matches(
    entries: Seq<(String, Tag)>,
    key: Seq<char>,
    sub: Seq<char>,
    j: int,
) -> bool
    decreases entries, entries.len() - j,
{
    if j < 0 || j >= entries.len() {
        false
    } else if entries[j].0@ == key {
        spec_tag_matches(entries[j].1, sub)
    } else {
        spec_entries_key_matches(entries, key, sub, j + 1)
    }
}

/// What a metadata record makes of a plain pattern: `*` matches; `key:sub`
/// looks the key up among the tags; a plain pattern compares with the
/// client id.
pub open spec fn spec_meta_matches(m: ExecutorMeta, p: Seq<char>) -> bool {
    if spec_is_wildcard(p) {
        true
    } else {
        match spec_first_colon(p, 0) {
            Option::Some(k) => spec_entries_key_matches(
                m.tags.entries@,
                p.subrange(0, k),
                p.subrange(k + 1, p.len() as int),
                0,
            ),
            Option::None => m.client_id@ == p,
        }
    }
}

/// Character-wise string comparison.
pub fn str_eq(a: &str, b: &str) -> (r: bool)
    ensures
        r == (a@ == b@),
{
    let a_len = a.unicode_len();
    let b_len = b.unicode_len();
    if a_len != b_len {
        return false;
    }
    let mut i: usize = 0;
    while i < a_len
        invariant
            i <= a_len,
            a_len == a@.len(),
            b_len == b@.len(),
            a_len == b_len,
            forall|k: int| 0 <= k < i ==> a@[k] == b@[k],
        decreases a_len - i,
    {
        if a.get_char(i) != b.get_char(i) {
            return false;
        }
        i = i + 1;
    }
    proof {
        assert(a@ =~= b@);
    }
    true
}

/// Does `p` consist of the single character `*`?
pub fn is_wildcard_pattern(p: &str) -> (r: bool)
    ensures
        r == spec_is_wildcard(p@),
{
    p.unicode_len() == 1 && p.get_char(0) == '*'
}

fn first_colon(s: &str) -> (r: Option<usize>)
    ensures
        match r {
            Option::Some(k) => spec_first_colon(s@, 0) == Option::Some(k as int),
            Option::None => spec_first_colon(s@, 0) is None,
        },
{
    let n = s.unicode_len();
    let mut i: usize = 0;
    while i < n
        invariant
            i <= n,
            n == s@.len(),
            spec_first_colon(s@, 0) == spec_first_colon(s@, i as int),
        decreases n - i,
    {
        if s.get_char(i) == ':' {
            return Some(i);
        }
        i = i + 1;
    }
    None
}

/// Splits a `key:rest` pattern at its first colon.
pub fn colon_split(pattern: &str) -> (r: Option<(String, String)>)
    ensures
        match r {
            Option::Some(parts) => {
                &&& spec_first_colon(pattern@, 0) matches Option::Some(k)
                &&& parts.0@ == pattern@.subrange(
                    0,
                    spec_first_colon(pattern@, 0)->Some_0,
                )
                &&& parts.1@ == pattern@.subrange(
                    spec_first_colon(pattern@, 0)->Some_0 + 1,
                    pattern@.len() as int,
                )
            },
            Option::None => spec_first_colon(pattern@, 0) is None,
        },
{
    match first_colon(pattern) {
        Some(k) => {
            let n = pattern.unicode_len();
            proof {
                lemma_first_colon_in_range(pattern@, 0);
            }
            let key = pattern.substring_char(0, k).to_owned();
            let sub = pattern.substring_char(k + 1, n).to_owned();
            Some((key, sub))
        },
        None => None,
    }
}

proof fn lemma_first_colon_in_range(s: Seq<char>, i: int)
    ensures
        spec_first_colon(s, i) matches Option::Some(k) ==> i <= k < s.len() && s[k] == ':',
    decreases s.len() - i,
{
    if i < 0 || i >= s.len() {
    } else if s[i] == ':' {
    } else {
        lemma_first_colon_in_range(s, i + 1);
    }
}

impl Tag {
    /// Matches this tag against a plain string pattern.
    pub fn matches(&self, pattern: &str) -> (r: bool)
        ensures
            r == spec_tag_matches(*self, pattern@),
        decreases *self, 0int,
    {
        if is_wildcard_pattern(pattern) {
            true
        } else {
            match self {
                Tag::Value(v) => str_eq(v.as_str(), pattern),
                Tag::List(l) => list_any_matches(l, pattern, 0),
                Tag::Dict(m) => match first_colon(pattern) {
                    None => entries_any_value_matches(&m.entries, pattern, 0),
                    Some(k) => {
                        let n = pattern.unicode_len();
                        proof {
                            lemma_first_colon_in_range(pattern@, 0);
                        }
                        let sub = pattern.substring_char(k + 1, n);
                        if is_wildcard_pattern(sub) {
                            true
                        } else {
                            let key = pattern.substring_char(0, k);
                            entries_key_matches(&m.entries, key, sub, 0)
                        }
                    },
                },
            }
        }
    }
}

fn list_any_matches(items: &Vec<Tag>, p: &str, j: usize) -> (r: bool)
    requires
        j <= items@.len(),
    ensures
        r == spec_list_any_matches(items@, p@, j as int),
    decreases items@, items@.len() - j,
{
    if j == items.len() {
        false
    } else {
        items[j].matches(p) || list_any_matches(items, p, j + 1)
    }
}

fn entries_any_value_matches(entries: &Vec<(String, Tag)>, p: &str, j: usize) -> (r: bool)
    requires
        j <= entries@.len(),
    ensures
        r == spec_entries_any_value_matches(entries@, p@, j as int),
    decreases entries@, entries@.len() - j,
{
    if j == entries.len() {
        false
    } else {
        entries[j].1.matches(p) || entries_any_value_matches(entries, p, j + 1)
    }
}

fn entries_key_matches(entries: &Vec<(String, Tag)>, key: &str, sub: &str, j: usize) -> (r: bool)
    requires
        j <= entries@.len(),
    ensures
        r == spec_entries_key_matches(entries@, key@, sub@, j as int),
    decreases entries@, entries@.len() - j,
{
    if j == entries.len() {
        false
    } else if str_eq(entries[j].0.as_str(), key) {
        entries[j].1.matches(sub)
    } else {
        entries_key_matches(entries, key, sub, j + 1)
    }
}

impl ExecutorMeta {
    /// Matches this record against a plain string pattern.
    pub fn matches(&self, pattern: &str) -> (r: bool)
        ensures
            r == spec_meta_matches(*self, pattern@),
    {
        if is_wildcard_pattern(pattern) {
            true
        } else {
            match first_colon(pattern) {
                Some(k) => {
                    let n = pattern.unicode_len();
                    proof {
                        lemma_first_colon_in_range(pattern@, 0);
                    }
                    let key = pattern.substring_char(0, k);
                    let sub = pattern.substring_char(k + 1, n);
                    entries_key_matches(&self.tags.entries, key, sub, 0)
                },
                None => str_eq(self.client_id.as_str(), pattern),
            }
        }
    }
}

} // verus!
