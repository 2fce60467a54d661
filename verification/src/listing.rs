//! The order prepared areas are listed in: favorites first, then by display
//! name (unnamed areas first), then by cache key, each text compared
//! character by character; areas that tie keep the order they were found in.

use vstd::prelude::*;

use crate::text::chars_of;

verus! {

/// What the listing order of a prepared area depends on.
#[derive(Clone, Debug)]
pub struct PreparedAreaSortKey {
    pub favorite: bool,
    pub display_name: Option<String>,
    pub cache_key: String,
}

/// A sort key as plain values.
pub struct SortKeyView {
    pub favorite: bool,
    pub name: Option<Seq<char>>,
    pub key: Seq<char>,
}

pub open spec fn key_view(k: PreparedAreaSortKey) -> SortKeyView {
    SortKeyView {
        favorite: k.favorite,
        name: match k.display_name {
            Some(n) => Some(n@),
            None => None,
        },
        key: k.cache_key@,
    }
}

pub open spec fn key_views(keys: Seq<PreparedAreaSortKey>) -> Seq<SortKeyView> {
    keys.map_values(|k: PreparedAreaSortKey| key_view(k))
}

/// `a` comes before `b` in lexicographic order of characters (the order of
/// `str`, since UTF-8 keeps the order of code points).
pub open spec fn text_less(a: Seq<char>, b: Seq<char>) -> bool
    decreases a.len(),
{
    if a.len() == 0 {
        b.len() > 0
    } else if b.len() == 0 {
        false
    } else if (a[0] as u32) < (b[0] as u32) {
        true
    } else if (a[0] as u32) > (b[0] as u32) {
        false
    } else {
        text_less(a.drop_first(), b.drop_first())
    }
}

/// Order of optional names: no name first.
pub open spec fn name_less(a: Option<Seq<char>>, b: Option<Seq<char>>) -> bool {
    match (a, b) {
        (None, Some(_)) => true,
        (Some(x), Some(y)) => text_less(x, y),
        _ => false,
    }
}

/// `a` is listed before `b`.
pub open spec fn listed_before(a: SortKeyView, b: SortKeyView) -> bool {
    ||| (a.favorite && !b.favorite)
    ||| (a.favorite == b.favorite && name_less(a.name, b.name))
    ||| (a.favorite == b.favorite && a.name == b.name && text_less(a.key, b.key))
}

/// `order` lists every index of `keys` once, in listing order, with ties in
/// index order.
pub open spec fn listing_order(keys: Seq<SortKeyView>, order: Seq<usize>) -> bool {
    &&& order.len() == keys.len()
    &&& forall|i: int| 0 <= i < order.len() ==> #[trigger] order[i] < keys.len()
    &&& forall|i: int, j: int| 0 <= i < j < order.len() ==> order[i] != order[j]
    &&& forall|i: int, j: int|
        0 <= i < j < order.len() ==> listed_before(keys[order[i] as int], keys[order[j] as int])
            || (keys[order[i] as int] == keys[order[j] as int] && order[i] < order[j])
}

/// Texts are ordered as `str` orders them: `a` comes before `b` exactly when
/// `a` is a proper prefix of `b`, or when at the first position where the two
/// differ `a` has the smaller character.
pub proof fn lemma_text_order_is_lexicographic(a: Seq<char>, b: Seq<char>)
    ensures
        text_less(a, b) <==> (a.len() < b.len() && b.take(a.len() as int) == a) || exists|i: int|
            0 <= i < a.len() && i < b.len() && a.take(i) == b.take(i) && (#[trigger] a[i] as u32)
                < (b[i] as u32),
    decreases a.len(),
{
    if a.len() == 0 {
        assert(b.take(0) =~= a);
    } else if b.len() == 0 {
    } else {
        let x = a[0] as u32;
        let y = b[0] as u32;
        if x < y {
            assert(a.take(0) =~= b.take(0));
            assert((a[0] as u32) < (b[0] as u32));
        } else if x > y {
            if a.len() < b.len() && b.take(a.len() as int) == a {
                assert(b.take(a.len() as int)[0] == a[0]);
            }
            assert forall|i: int|
                0 <= i < a.len() && i < b.len() && a.take(i) == b.take(i) implies !(
                (#[trigger] a[i] as u32) < (b[i] as u32)) by {
                if i > 0 {
                    assert(a.take(i)[0] == b.take(i)[0]);
                }
            }
        } else {
            assert(a[0] == b[0]) by {
                vstd::utf8::char_u32_cast(a[0], a[0] as u32);
                vstd::utf8::char_u32_cast(b[0], b[0] as u32);
            }
            let a1 = a.drop_first();
            let b1 = b.drop_first();
            lemma_text_order_is_lexicographic(a1, b1);
            // The prefix case moves one position along.
            if a.len() < b.len() && b.take(a.len() as int) == a {
                assert(b1.take(a1.len() as int) =~= a1) by {
                    assert forall|k: int| 0 <= k < a1.len() implies (#[trigger] b1.take(
                        a1.len() as int,
                    )[k]) == a1[k] by {
                        assert(b.take(a.len() as int)[k + 1] == a[k + 1]);
                    }
                }
            }
            if a1.len() < b1.len() && b1.take(a1.len() as int) == a1 {
                assert(b.take(a.len() as int) =~= a) by {
                    assert forall|k: int| 0 <= k < a.len() implies (#[trigger] b.take(a.len() as int)[k])
                        == a[k] by {
                        if k > 0 {
                            assert(b1.take(a1.len() as int)[k - 1] == a1[k - 1]);
                        }
                    }
                }
            }
            // So does the first difference.
            if exists|i: int|
                0 <= i < a.len() && i < b.len() && a.take(i) == b.take(i) && (#[trigger] a[i] as u32)
                    < (b[i] as u32) {
                let i = choose|i: int|
                    0 <= i < a.len() && i < b.len() && a.take(i) == b.take(i) && (
                    #[trigger] a[i] as u32) < (b[i] as u32);
                assert(i > 0);
                assert(a1.take(i - 1) =~= b1.take(i - 1)) by {
                    assert forall|k: int| 0 <= k < i - 1 implies (#[trigger] a1.take(i - 1)[k]) == b1.take(
                        i - 1,
                    )[k] by {
                        assert(a.take(i)[k + 1] == b.take(i)[k + 1]);
                    }
                }
                assert(a1[i - 1] == a[i] && b1[i - 1] == b[i]);
            }
            if exists|i: int|
                0 <= i < a1.len() && i < b1.len() && a1.take(i) == b1.take(i) && (
                #[trigger] a1[i] as u32) < (b1[i] as u32) {
                let i = choose|i: int|
                    0 <= i < a1.len() && i < b1.len() && a1.take(i) == b1.take(i) && (
                    #[trigger] a1[i] as u32) < (b1[i] as u32);
                assert(a.take(i + 1) =~= b.take(i + 1)) by {
                    assert forall|k: int| 0 <= k < i + 1 implies (#[trigger] a.take(i + 1)[k]) == b.take(
                        i + 1,
                    )[k] by {
                        if k > 0 {
                            assert(a1.take(i)[k - 1] == b1.take(i)[k - 1]);
                        }
                    }
                }
                assert(a[i + 1] == a1[i] && b[i + 1] == b1[i]);
            }
        }
    }
}

/// A text comes before every longer text that extends it.
pub proof fn lemma_prefix_comes_first(s: Seq<char>, t: Seq<char>)
    requires
        t.len() > 0,
    ensures
        text_less(s, s + t),
{
    lemma_text_order_is_lexicographic(s, s + t);
    assert((s + t).take(s.len() as int) =~= s);
}

pub(crate) proof fn lemma_text_less_irreflexive(a: Seq<char>)
    ensures
        !text_less(a, a),
    decreases a.len(),
{
    if a.len() > 0 {
        lemma_text_less_irreflexive(a.drop_first());
    }
}

pub(crate) proof fn lemma_text_less_transitive(a: Seq<char>, b: Seq<char>, c: Seq<char>)
    requires
        text_less(a, b),
        text_less(b, c),
    ensures
        text_less(a, c),
    decreases a.len(),
{
    if a.len() > 0 && b.len() > 0 && c.len() > 0 {
        let x = a[0] as u32;
        let y = b[0] as u32;
        let z = c[0] as u32;
        if x == y && y == z {
            lemma_text_less_transitive(a.drop_first(), b.drop_first(), c.drop_first());
        }
    }
}

proof fn lemma_name_less_irreflexive(a: Option<Seq<char>>)
    ensures
        !name_less(a, a),
{
    if let Some(x) = a {
        lemma_text_less_irreflexive(x);
    }
}

proof fn lemma_name_less_transitive(a: Option<Seq<char>>, b: Option<Seq<char>>, c: Option<Seq<char>>)
    requires
        name_less(a, b),
        name_less(b, c),
    ensures
        name_less(a, c),
{
    if let (Some(x), Some(y), Some(z)) = (a, b, c) {
        lemma_text_less_transitive(x, y, z);
    }
}

pub(crate) proof fn lemma_text_less_total(a: Seq<char>, b: Seq<char>)
    ensures
        a == b || text_less(a, b) || text_less(b, a),
    decreases a.len(),
{
    if a.len() > 0 && b.len() > 0 {
        if (a[0] as u32) == (b[0] as u32) {
            assert(a[0] == b[0]) by {
                vstd::utf8::char_u32_cast(a[0], a[0] as u32);
                vstd::utf8::char_u32_cast(b[0], b[0] as u32);
            }
            lemma_text_less_total(a.drop_first(), b.drop_first());
            if a.drop_first() == b.drop_first() {
                assert(a =~= seq![a[0]] + a.drop_first());
                assert(b =~= seq![b[0]] + b.drop_first());
            }
        }
    } else if a.len() == 0 && b.len() == 0 {
        assert(a =~= b);
    }
}

proof fn lemma_before_irreflexive(a: SortKeyView)
    ensures
        !listed_before(a, a),
{
    if let Some(n) = a.name {
        lemma_text_less_irreflexive(n);
    }
    lemma_text_less_irreflexive(a.key);
}

proof fn lemma_before_transitive(a: SortKeyView, b: SortKeyView, c: SortKeyView)
    requires
        listed_before(a, b),
        listed_before(b, c),
    ensures
        listed_before(a, c),
{
    if a.favorite == b.favorite && b.favorite == c.favorite {
        lemma_name_less_irreflexive(a.name);
        lemma_name_less_irreflexive(b.name);
        if name_less(a.name, b.name) && name_less(b.name, c.name) {
            lemma_name_less_transitive(a.name, b.name, c.name);
        } else if a.name == b.name && b.name == c.name {
            lemma_text_less_transitive(a.key, b.key, c.key);
        }
    }
}

proof fn lemma_before_total(a: SortKeyView, b: SortKeyView)
    ensures
        a == b || listed_before(a, b) || listed_before(b, a),
{
    lemma_text_less_total(a.key, b.key);
    if let (Some(x), Some(y)) = (a.name, b.name) {
        lemma_text_less_total(x, y);
    }
}

proof fn lemma_before_asymmetric(a: SortKeyView, b: SortKeyView)
    requires
        listed_before(a, b),
    ensures
        !listed_before(b, a),
{
    if listed_before(b, a) {
        lemma_before_transitive(a, b, a);
        lemma_before_irreflexive(a);
    }
}

pub(crate) fn text_less_exec(a: &str, b: &str) -> (r: bool)
    ensures
        r == text_less(a@, b@),
{
    let x = chars_of(a);
    let y = chars_of(b);
    assert(x@.skip(0) =~= x@);
    assert(y@.skip(0) =~= y@);
    let mut i: usize = 0;
    while i < x.len() && i < y.len() && x[i] == y[i]
        invariant
            i <= x.len(),
            i <= y.len(),
            text_less(a@, b@) == text_less(x@.skip(i as int), y@.skip(i as int)),
            x@ == a@,
            y@ == b@,
        decreases x.len() - i,
    {
        assert(x@.skip(i as int).drop_first() =~= x@.skip(i + 1));
        assert(y@.skip(i as int).drop_first() =~= y@.skip(i + 1));
        i = i + 1;
    }
    if i == x.len() {
        i < y.len()
    } else if i == y.len() {
        false
    } else {
        let cx = x[i];
        let cy = y[i];
        proof {
            assert(x@.skip(i as int)[0] == cx);
            assert(y@.skip(i as int)[0] == cy);
            if (cx as u32) == (cy as u32) {
                vstd::utf8::char_u32_cast(cx, cx as u32);
                vstd::utf8::char_u32_cast(cy, cy as u32);
            }
        }
        (cx as u32) < (cy as u32)
    }
}

fn listed_before_exec(a: &PreparedAreaSortKey, b: &PreparedAreaSortKey) -> (r: bool)
    ensures
        r == listed_before(key_view(*a), key_view(*b)),
{
    if a.favorite != b.favorite {
        return a.favorite;
    }
    let names_equal;
    let name_lt = match (&a.display_name, &b.display_name) {
        (None, Some(_)) => {
            names_equal = false;
            true
        },
        (Some(x), Some(y)) => {
            names_equal = crate::text::same_text(x.as_str(), y.as_str());
            text_less_exec(x.as_str(), y.as_str())
        },
        (Some(_), None) => {
            names_equal = false;
            false
        },
        (None, None) => {
            names_equal = true;
            false
        },
    };
    if name_lt {
        return true;
    }
    names_equal && text_less_exec(a.cache_key.as_str(), b.cache_key.as_str())
}

/// The order to list prepared areas in, as indices into `keys`: a stable
/// sort by `listed_before`.
pub fn prepared_listing_order(keys: &Vec<PreparedAreaSortKey>) -> (order: Vec<usize>)
    ensures
        listing_order(key_views(keys@), order@),
{
    let ghost kv = key_views(keys@);
    let mut order: Vec<usize> = Vec::new();
    let mut n: usize = 0;
    while n < keys.len()
        invariant
            n <= keys.len(),
            kv == key_views(keys@),
            kv.len() == keys.len(),
            order.len() == n,
            forall|i: int| 0 <= i < order.len() ==> #[trigger] order@[i] < n,
            forall|i: int, j: int| 0 <= i < j < order.len() ==> order@[i] != order@[j],
            forall|i: int, j: int|
                0 <= i < j < order.len() ==> listed_before(kv[order@[i] as int], kv[order@[j] as int])
                    || (kv[order@[i] as int] == kv[order@[j] as int] && order@[i] < order@[j]),
        decreases keys.len() - n,
    {
        let mut p: usize = 0;
        while p < order.len() && !listed_before_exec(&keys[n], &keys[order[p]])
            invariant
                p <= order.len() == n < keys.len(),
                kv == key_views(keys@),
                forall|i: int| 0 <= i < order.len() ==> #[trigger] order@[i] < n,
                forall|q: int|
                    0 <= q < p ==> !listed_before(kv[n as int], #[trigger] kv[order@[q] as int]),
            decreases order.len() - p,
        {
            assert(kv[n as int] == key_view(keys@[n as int]));
            assert(kv[order@[p as int] as int] == key_view(keys@[order@[p as int] as int]));
            p = p + 1;
        }
        proof {
            if p < order.len() {
                assert(kv[n as int] == key_view(keys@[n as int]));
                assert(kv[order@[p as int] as int] == key_view(keys@[order@[p as int] as int]));
            }
        }
        let ghost old_order = order@;
        order.insert(p, n);
        proof {
            let o = old_order;
            let no = order@;
            assert(no == o.insert(p as int, n));
            assert forall|i: int| 0 <= i < no.len() implies #[trigger] no[i] < n + 1 by {
                if i < p {
                    assert(no[i] == o[i]);
                } else if i > p {
                    assert(no[i] == o[i - 1]);
                }
            }
            assert forall|i: int, j: int| 0 <= i < j < no.len() implies no[i] != no[j] by {
                if i < p && j < p {
                    assert(no[i] == o[i] && no[j] == o[j]);
                } else if i < p && j == p {
                    assert(no[i] == o[i]);
                } else if i < p && j > p {
                    assert(no[i] == o[i] && no[j] == o[j - 1]);
                } else if i == p {
                    assert(no[j] == o[j - 1]);
                } else {
                    assert(no[i] == o[i - 1] && no[j] == o[j - 1]);
                }
            }
            assert forall|i: int, j: int| 0 <= i < j < no.len() implies listed_before(
                kv[no[i] as int],
                kv[no[j] as int],
            ) || (kv[no[i] as int] == kv[no[j] as int] && no[i] < no[j]) by {
                let ki = kv[no[i] as int];
                let kj = kv[no[j] as int];
                if i < p && j < p {
                    assert(no[i] == o[i] && no[j] == o[j]);
                } else if i < p && j == p {
                    assert(no[i] == o[i]);
                    assert(!listed_before(kv[n as int], kv[o[i] as int]));
                    lemma_before_total(ki, kj);
                } else if i < p && j > p {
                    assert(no[i] == o[i] && no[j] == o[j - 1]);
                } else if i == p {
                    assert(no[j] == o[j - 1]);
                    assert(j - 1 >= p);
                    assert(p < o.len());
                    assert(listed_before(kv[n as int], kv[o[p as int] as int]));
                    if j - 1 > p {
                        let kp = kv[o[p as int] as int];
                        if listed_before(kp, kj) {
                            lemma_before_transitive(kv[n as int], kp, kj);
                        }
                    }
                } else {
                    assert(no[i] == o[i - 1] && no[j] == o[j - 1]);
                }
            }
        }
        n = n + 1;
    }
    order
}

/// The listing order is strict between different areas: an area listed
/// before another is never also listed after it, and of two areas with
/// different keys one is always listed first.
pub proof fn lemma_listing_order_is_total(a: SortKeyView, b: SortKeyView)
    ensures
        !listed_before(a, a),
        listed_before(a, b) ==> !listed_before(b, a),
        a != b ==> listed_before(a, b) || listed_before(b, a),
{
    lemma_before_irreflexive(a);
    if listed_before(a, b) {
        lemma_before_asymmetric(a, b);
    }
    lemma_before_total(a, b);
}

} // verus!
