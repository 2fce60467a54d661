//! The last step of making a list of Overture theme names canonical for a
//! cache key: each name once, in character order, so that the order and
//! repetition of a client's list do not change the key.
//!
//! The steps before it are not here: turning an empty list into every theme,
//! mapping aliases to theme names and dropping unknown names belong to the
//! map-data crate's theme type. This module takes the theme names that come
//! out of those steps.

use vstd::prelude::*;

use crate::listing::{
    lemma_text_less_irreflexive, lemma_text_less_total, lemma_text_less_transitive, text_less,
    text_less_exec,
};
use crate::rate_limit::string_views;
use crate::text::same_text;

verus! {

/// Every name is before the next, so none repeats.
pub open spec fn strictly_sorted(names: Seq<Seq<char>>) -> bool {
    forall|i: int, j: int| 0 <= i < j < names.len() ==> text_less(names[i], names[j])
}

/// The canonical list of `names`: the same names, each once, in order.
pub open spec fn canonical_names_of(names: Seq<Seq<char>>, out: Seq<Seq<char>>) -> bool {
    &&& strictly_sorted(out)
    &&& forall|x: Seq<char>| out.contains(x) <==> names.contains(x)
}

/// Sorts theme names and removes repeats. The names are taken as they are:
/// no alias is mapped and no name is dropped or added.
pub fn canonical_theme_names(names: &Vec<String>) -> (r: Vec<String>)
    ensures
        canonical_names_of(string_views(names@), string_views(r@)),
{
    let ghost nv = string_views(names@);
    let mut out: Vec<String> = Vec::new();
    let mut i: usize = 0;
    while i < names.len()
        invariant
            i <= names.len(),
            nv == string_views(names@),
            strictly_sorted(string_views(out@)),
            forall|x: Seq<char>|
                string_views(out@).contains(x) <==> nv.take(i as int).contains(x),
        decreases names.len() - i,
    {
        let name = &names[i];
        let ghost ov = string_views(out@);
        let ghost x = name@;
        assert(nv[i as int] == x);
        let mut p: usize = 0;
        while p < out.len() && text_less_exec(out[p].as_str(), name.as_str())
            invariant
                p <= out.len(),
                ov == string_views(out@),
                x == name@,
                forall|q: int| 0 <= q < p ==> text_less(#[trigger] ov[q], x),
            decreases out.len() - p,
        {
            p = p + 1;
        }
        let present = p < out.len() && same_text(out[p].as_str(), name.as_str());
        proof {
            let t0 = nv.take(i as int);
            let t1 = nv.take(i + 1);
            assert(t1 =~= t0.push(x));
            assert forall|y: Seq<char>| t1.contains(y) <==> (t0.contains(y) || y == x) by {
                if t1.contains(y) {
                    let k = choose|k: int| 0 <= k < t1.len() && t1[k] == y;
                    if k < i {
                        assert(t0[k] == y);
                    }
                }
                if t0.contains(y) {
                    let k = choose|k: int| 0 <= k < t0.len() && t0[k] == y;
                    assert(t1[k] == y);
                }
                if y == x {
                    assert(t1[i as int] == x);
                }
            }
        }
        if !present {
            let ghost before = ov;
            out.insert(p, name.clone());
            proof {
                let nw = string_views(out@);
                assert(nw =~= before.insert(p as int, x));
                if p < before.len() {
                    assert(!text_less(before[p as int], x));
                    lemma_text_less_total(before[p as int], x);
                    assert(before[p as int] != x);
                    assert(text_less(x, before[p as int]));
                }
                assert forall|a: int, b: int| 0 <= a < b < nw.len() implies text_less(
                    nw[a],
                    nw[b],
                ) by {
                    if a < p && b < p {
                        assert(nw[a] == before[a] && nw[b] == before[b]);
                    } else if a < p && b == p {
                        assert(nw[a] == before[a]);
                    } else if a < p && b > p {
                        assert(nw[a] == before[a] && nw[b] == before[b - 1]);
                    } else if a == p {
                        assert(nw[b] == before[b - 1]);
                        if b - 1 > p {
                            lemma_text_less_transitive(x, before[p as int], before[b - 1]);
                        }
                    } else {
                        assert(nw[a] == before[a - 1] && nw[b] == before[b - 1]);
                    }
                }
                assert forall|y: Seq<char>| nw.contains(y) <==> (before.contains(y) || y == x) by {
                    if nw.contains(y) {
                        let k = choose|k: int| 0 <= k < nw.len() && nw[k] == y;
                        if k < p {
                            assert(before[k] == y);
                        } else if k > p {
                            assert(before[k - 1] == y);
                        }
                    }
                    if before.contains(y) {
                        let k = choose|k: int| 0 <= k < before.len() && before[k] == y;
                        if k < p {
                            assert(nw[k] == y);
                        } else {
                            assert(nw[k + 1] == y);
                        }
                    }
                    if y == x {
                        assert(nw[p as int] == x);
                    }
                }
            }
        } else {
            proof {
                assert(ov[p as int] == x);
            }
        }
        i = i + 1;
    }
    proof {
        assert(nv.take(names.len() as int) =~= nv);
    }
    out
}

/// A canonical list is determined by its names alone: two lists with the
/// same names, each strictly sorted, are equal. So the order and repetition
/// of the names a client sends never change the canonical list.
pub proof fn lemma_canonical_names_unique(a: Seq<Seq<char>>, b: Seq<Seq<char>>)
    requires
        strictly_sorted(a),
        strictly_sorted(b),
        forall|x: Seq<char>| a.contains(x) <==> b.contains(x),
    ensures
        a == b,
    decreases a.len() + b.len(),
{
    if a.len() == 0 {
        if b.len() > 0 {
            assert(b.contains(b[0]));
        }
        assert(a =~= b);
    } else if b.len() == 0 {
        assert(a.contains(a[0]));
    } else {
        // The first names are both the least name of the set.
        assert(a.contains(a[0]));
        assert(b.contains(b[0]));
        let ka = choose|k: int| 0 <= k < b.len() && b[k] == a[0];
        let kb = choose|k: int| 0 <= k < a.len() && a[k] == b[0];
        if ka > 0 {
            assert(text_less(b[0], b[ka]));
            if kb > 0 {
                assert(text_less(a[0], a[kb]));
                lemma_text_less_transitive(a[0], b[0], a[0]);
                lemma_text_less_irreflexive(a[0]);
            }
        }
        assert(a[0] == b[0]);
        let a2 = a.drop_first();
        let b2 = b.drop_first();
        assert forall|x: Seq<char>| a2.contains(x) <==> b2.contains(x) by {
            if a2.contains(x) {
                let k = choose|k: int| 0 <= k < a2.len() && a2[k] == x;
                assert(a[k + 1] == x);
                assert(text_less(a[0], x));
                lemma_text_less_irreflexive(x);
                assert(b.contains(x));
                let m = choose|m: int| 0 <= m < b.len() && b[m] == x;
                assert(m != 0);
                assert(b2[m - 1] == x);
            }
            if b2.contains(x) {
                let k = choose|k: int| 0 <= k < b2.len() && b2[k] == x;
                assert(b[k + 1] == x);
                assert(text_less(b[0], x));
                lemma_text_less_irreflexive(x);
                assert(a.contains(x));
                let m = choose|m: int| 0 <= m < a.len() && a[m] == x;
                assert(m != 0);
                assert(a2[m - 1] == x);
            }
        }
        assert forall|i: int, j: int| 0 <= i < j < a2.len() implies text_less(a2[i], a2[j]) by {
            assert(a2[i] == a[i + 1] && a2[j] == a[j + 1]);
        }
        assert forall|i: int, j: int| 0 <= i < j < b2.len() implies text_less(b2[i], b2[j]) by {
            assert(b2[i] == b[i + 1] && b2[j] == b[j + 1]);
        }
        lemma_canonical_names_unique(a2, b2);
        assert(a =~= seq![a[0]] + a2);
        assert(b =~= seq![b[0]] + b2);
    }
}

} // verus!
