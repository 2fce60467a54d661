//! The fly-to search: named places of the scene matched against a query,
//! case-insensitively, in index order, up to a limit.

use vstd::prelude::*;

use crate::area_switch::nonblank_trimmed;
use crate::text::{
    ascii_lower_char, ascii_lower_seq, chars_of, contains_chars, contains_seq, trim_bounds,
    trimmed, string_of_range,
};

verus! {

#[verifier::external_type_specification]
#[verifier::external_body]
pub struct ExVec3(glam::Vec3);

/// What kind of place a search entry is.
#[derive(Clone, Copy, Debug, PartialEq, Eq, Structural)]
pub enum SearchCategory {
    Address,
    Landmark,
    Poi,
    Road,
    Transit,
}

/// A place that can be searched for: its label, kind and position.
#[derive(Debug)]
pub struct SearchEntry {
    pub label: String,
    pub category: SearchCategory,
    pub position: glam::Vec3,
}

impl SearchEntry {
    /// An entry with the given label, kind and position.
    pub fn new(label: &str, category: SearchCategory, position: glam::Vec3) -> (r: Self)
        ensures
            r.label@ == label@,
            r.category == category,
            r.position == position,
    {
        SearchEntry { label: label.to_string(), category, position }
    }
}

/// The text typed into the search window.
#[derive(Clone, Debug)]
pub struct SearchState {
    pub query: String,
}

impl Default for SearchState {
    /// An empty query.
    fn default() -> (r: Self)
        ensures
            r.query@.len() == 0,
    {
        SearchState { query: String::new() }
    }
}

/// The indices of the labels that contain `q`, in order.
pub open spec fn search_hits(labels: Seq<Seq<char>>, q: Seq<char>) -> Seq<int>
    decreases labels.len(),
{
    if labels.len() == 0 {
        Seq::empty()
    } else {
        let rest = search_hits(labels.drop_last(), q);
        if contains_seq(ascii_lower_seq(labels.last()), q) {
            rest.push(labels.len() - 1)
        } else {
            rest
        }
    }
}

/// The labels of the entries.
pub open spec fn entry_labels(entries: Seq<SearchEntry>) -> Seq<Seq<char>> {
    entries.map_values(|e: SearchEntry| e.label@)
}

/// The indices of the entries a query finds: none for a blank query or a zero
/// limit; otherwise the first `limit` entries whose lowercased label contains
/// the trimmed, lowercased query.
pub open spec fn search_result_indices(entries: Seq<SearchEntry>, query: Seq<char>, limit: nat) -> Seq<
    int,
> {
    let q = ascii_lower_seq(trimmed(query));
    if q.len() == 0 || limit == 0 {
        Seq::empty()
    } else {
        let hits = search_hits(entry_labels(entries), q);
        hits.take(if hits.len() < limit {
            hits.len() as int
        } else {
            limit as int
        })
    }
}

proof fn lemma_hits_bounds(labels: Seq<Seq<char>>, q: Seq<char>)
    ensures
        forall|j: int|
            0 <= j < search_hits(labels, q).len() ==> 0 <= #[trigger] search_hits(labels, q)[j]
                < labels.len(),
    decreases labels.len(),
{
    if labels.len() > 0 {
        lemma_hits_bounds(labels.drop_last(), q);
        let rest = search_hits(labels.drop_last(), q);
        let all = search_hits(labels, q);
        assert forall|j: int| 0 <= j < all.len() implies 0 <= #[trigger] all[j] < labels.len() by {
            if j < rest.len() {
                assert(all[j] == rest[j]);
            }
        }
    }
}

fn lowered(v: &Vec<char>) -> (r: Vec<char>)
    ensures
        r@ == ascii_lower_seq(v@),
{
    let mut r: Vec<char> = Vec::new();
    let mut i: usize = 0;
    while i < v.len()
        invariant
            i <= v.len(),
            r@ == ascii_lower_seq(v@.take(i as int)),
        decreases v.len() - i,
    {
        r.push(ascii_lower_char(v[i]));
        i = i + 1;
        assert(r@ =~= ascii_lower_seq(v@.take(i as int)));
    }
    assert(v@.take(v.len() as int) =~= v@);
    r
}

/// Finds the entries matching `query`: the first `limit` whose label,
/// lowercased, contains the trimmed and lowercased query, in index order.
pub fn search_entries(entries: &[SearchEntry], query: &str, limit: usize) -> (r: Vec<SearchEntry>)
    ensures
        r.len() == search_result_indices(entries@, query@, limit as nat).len(),
        forall|j: int|
            0 <= j < r.len() ==> {
                let k = search_result_indices(entries@, query@, limit as nat)[j];
                &&& 0 <= k < entries.len()
                &&& (#[trigger] r@[j]).label@ == entries@[k].label@
                &&& r@[j].category == entries@[k].category
                &&& r@[j].position == entries@[k].position
            },
{
    let qv = chars_of(query);
    let (a, b) = trim_bounds(&qv);
    let trimmed_query = string_of_range(&qv, a, b);
    let tq = chars_of(trimmed_query.as_str());
    let q = lowered(&tq);
    let ghost qs = ascii_lower_seq(trimmed(query@));
    assert(q@ == qs);
    let mut out: Vec<SearchEntry> = Vec::new();
    if q.len() == 0 || limit == 0 {
        return out;
    }
    let ghost labels = entry_labels(entries@);
    let mut i: usize = 0;
    while i < entries.len() && out.len() < limit
        invariant
            i <= entries.len(),
            q@ == qs,
            qs.len() > 0,
            limit > 0,
            labels == entry_labels(entries@),
            out.len() <= limit,
            out.len() == search_hits(labels.take(i as int), qs).len(),
            forall|j: int|
                0 <= j < out.len() ==> {
                    let k = search_hits(labels.take(i as int), qs)[j];
                    &&& 0 <= k < i
                    &&& (#[trigger] out@[j]).label@ == entries@[k].label@
                    &&& out@[j].category == entries@[k].category
                    &&& out@[j].position == entries@[k].position
                },
        decreases entries.len() - i,
    {
        proof {
            assert(labels.take(i + 1).drop_last() =~= labels.take(i as int));
            assert(labels.take(i + 1).last() == entries@[i as int].label@);
            lemma_hits_bounds(labels.take(i as int), qs);
        }
        let e = &entries[i];
        let lv = chars_of(e.label.as_str());
        let ll = lowered(&lv);
        if contains_chars(&ll, &q) {
            let hit = SearchEntry { label: e.label.clone(), category: e.category, position: e.position };
            out.push(hit);
        }
        i = i + 1;
    }
    proof {
        let hits = search_hits(labels, qs);
        let pre = search_hits(labels.take(i as int), qs);
        lemma_prefix_hits(labels, qs, i as int);
        lemma_hits_bounds(labels, qs);
        if out.len() < limit {
            assert(i == entries.len());
            assert(labels.take(i as int) =~= labels);
        }
    }
    out
}

/// The hits among the first `i` labels are a prefix of all hits, and when
/// all labels are seen they are all hits.
proof fn lemma_prefix_hits(labels: Seq<Seq<char>>, q: Seq<char>, i: int)
    requires
        0 <= i <= labels.len(),
    ensures
        search_hits(labels.take(i), q).len() <= search_hits(labels, q).len(),
        search_hits(labels.take(i), q) == search_hits(labels, q).take(
            search_hits(labels.take(i), q).len() as int,
        ),
    decreases labels.len() - i,
{
    if i < labels.len() {
        lemma_prefix_hits(labels, q, i + 1);
        assert(labels.take(i + 1).drop_last() =~= labels.take(i));
        let a = search_hits(labels.take(i), q);
        let b = search_hits(labels.take(i + 1), q);
        let all = search_hits(labels, q);
        assert(b == all.take(b.len() as int));
        if b.len() == a.len() + 1 {
            assert(a =~= b.drop_last());
            assert(a =~= all.take(a.len() as int));
        } else {
            assert(a == b);
        }
    } else {
        assert(labels.take(i) =~= labels);
        assert(search_hits(labels, q).take(search_hits(labels, q).len() as int) =~= search_hits(
            labels,
            q,
        ));
    }
}

/// The value of a tag, trimmed, or `None` when the tag is absent or blank.
pub fn tag_value(value: Option<&str>) -> (r: Option<String>)
    ensures
        match value {
            Some(v) => match r {
                Some(t) => nonblank_trimmed(v@) == Some(t@),
                None => nonblank_trimmed(v@) is None,
            },
            None => r is None,
        },
{
    match value {
        None => None,
        Some(v) => {
            let cv = chars_of(v);
            let (a, b) = trim_bounds(&cv);
            if a < b {
                Some(string_of_range(&cv, a, b))
            } else {
                None
            }
        },
    }
}

} // verus!
