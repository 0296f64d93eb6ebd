//! Building the columns of a coverage matrix from keys that may repeat: each
//! key gets one column, and the first occurrence of a key decides which.
use crate::models::coverage_matrix::{find_key, keyed, lemma_keyed_is};
use crate::views::lemma_deep_view_index;
use vstd::prelude::*;
use vstd::string::*;

verus! {

/// No key before place `i` is the key at place `i`.
pub open spec fn is_first_place(keys: Seq<Seq<char>>, i: int) -> bool {
    &&& 0 <= i < keys.len()
    &&& forall|j: int| 0 <= j < i ==> keys[j] != keys[i]
}

/// The first place at which `keys` holds `k`.
pub open spec fn first_place(keys: Seq<Seq<char>>, k: Seq<char>) -> int {
    choose|i: int| is_first_place(keys, i) && keys[i] == k
}

/// The first place of the key that stands at a first place is that place.
pub proof fn lemma_first_place(keys: Seq<Seq<char>>, i: int)
    requires
        is_first_place(keys, i),
    ensures
        first_place(keys, keys[i]) == i,
{
    let f = first_place(keys, keys[i]);
    assert(is_first_place(keys, f) && keys[f] == keys[i]);
    if f < i {
        assert(keys[f] != keys[i]);
    }
    if i < f {
        assert(keys[i] != keys[f]);
    }
}

/// A key that occurs has a first place.
pub proof fn lemma_first_place_exists(keys: Seq<Seq<char>>, i: int)
    requires
        0 <= i < keys.len(),
    ensures
        is_first_place(keys, first_place(keys, keys[i])),
        keys[first_place(keys, keys[i])] == keys[i],
        first_place(keys, keys[i]) <= i,
    decreases i,
{
    if exists|j: int| 0 <= j < i && keys[j] == keys[i] {
        let j = choose|j: int| 0 <= j < i && keys[j] == keys[i];
        lemma_first_place_exists(keys, j);
    } else {
        assert(is_first_place(keys, i));
        lemma_first_place(keys, i);
    }
}

/// The columns that keys with repetitions stand for: one column for each key
/// that occurs, the one that `column_of` gives for the first place of the key.
pub open spec fn first_wins(keys: Seq<Seq<char>>, column_of: spec_fn(int) -> Seq<bool>) -> Map<
    Seq<char>,
    Seq<bool>,
> {
    Map::new(|k: Seq<char>| keys.contains(k), |k: Seq<char>| column_of(first_place(keys, k)))
}

/// The key at place `i` stands at one of `places`.
pub open spec fn represented(keys: Seq<Seq<char>>, places: Seq<int>, i: int) -> bool {
    exists|p: int| 0 <= p < places.len() && keys[#[trigger] places[p]] == keys[i]
}

/// `places` lists, in order, the first places of the keys that stand before
/// place `n`.
pub open spec fn lists_first_places_upto(keys: Seq<Seq<char>>, places: Seq<int>, n: int) -> bool {
    &&& forall|p: int|
        0 <= p < places.len() ==> (#[trigger] places[p]) < n && is_first_place(keys, places[p])
    &&& forall|p: int, q: int| 0 <= p < q < places.len() ==> places[p] < places[q]
    &&& forall|i: int| 0 <= i < n ==> represented(keys, places, i)
}

/// `places` lists, in order, the first places of the keys of `keys`.
pub open spec fn lists_first_places(keys: Seq<Seq<char>>, places: Seq<int>) -> bool {
    lists_first_places_upto(keys, places, keys.len() as int)
}

/// A key that stands at one of the places already listed adds none.
proof fn lemma_place_known(keys: Seq<Seq<char>>, places: Seq<int>, n: int, p: int)
    requires
        0 <= n < keys.len(),
        lists_first_places_upto(keys, places, n),
        0 <= p < places.len(),
        keys[places[p]] == keys[n],
    ensures
        lists_first_places_upto(keys, places, n + 1),
{
    assert forall|i: int| 0 <= i < n + 1 implies represented(keys, places, i) by {
        if i < n {
            assert(represented(keys, places, i));
        } else {
            assert(keys[places[p]] == keys[i]);
        }
    }
}

/// A key that stands at none of the places already listed stands at a first
/// place, which is added to the list.
proof fn lemma_place_new(keys: Seq<Seq<char>>, places: Seq<int>, n: int)
    requires
        0 <= n < keys.len(),
        lists_first_places_upto(keys, places, n),
        forall|p: int| 0 <= p < places.len() ==> keys[#[trigger] places[p]] != keys[n],
    ensures
        lists_first_places_upto(keys, places.push(n), n + 1),
{
    let longer = places.push(n);
    assert forall|j: int| 0 <= j < n implies keys[j] != keys[n] by {
        assert(represented(keys, places, j));
        let p = choose|p: int| 0 <= p < places.len() && keys[#[trigger] places[p]] == keys[j];
        assert(keys[places[p]] != keys[n]);
    }
    assert forall|p: int| 0 <= p < longer.len() implies (#[trigger] longer[p]) < n + 1
        && is_first_place(keys, longer[p]) by {
        if p < places.len() {
            assert(longer[p] == places[p]);
        }
    }
    assert forall|p: int, q: int| 0 <= p < q < longer.len() implies longer[p] < longer[q] by {
        assert(longer[p] == places[p]);
        if q < places.len() {
            assert(longer[q] == places[q]);
        }
    }
    assert forall|i: int| 0 <= i < n + 1 implies represented(keys, longer, i) by {
        if i < n {
            assert(represented(keys, places, i));
            let p = choose|p: int| 0 <= p < places.len() && keys[#[trigger] places[p]] == keys[i];
            assert(longer[p] == places[p]);
            assert(keys[longer[p]] == keys[i]);
        } else {
            assert(keys[longer[places.len() as int]] == keys[i]);
        }
    }
}

/// The places of a list of places, as integers.
pub open spec fn as_places(picked: Seq<usize>) -> Seq<int> {
    picked.map_values(|x: usize| x as int)
}

/// The first places of the keys of `keys`, in order.
pub fn first_places(keys: &Vec<String>) -> (picked: Vec<usize>)
    ensures
        lists_first_places(keys.deep_view(), as_places(picked@)),
        forall|p: int| 0 <= p < picked.len() ==> (#[trigger] picked[p]) < keys.len(),
{
    let ghost ks = keys.deep_view();
    let mut picked: Vec<usize> = Vec::new();
    let mut kept: Vec<String> = Vec::new();
    proof {
        lemma_deep_view_index(*keys);
    }
    let mut i: usize = 0;
    while i < keys.len()
        invariant
            i <= keys.len(),
            ks == keys.deep_view(),
            ks.len() == keys.len(),
            forall|a: int| 0 <= a < keys.len() ==> ks[a] == (#[trigger] keys[a])@,
            kept.len() == picked.len(),
            forall|p: int| 0 <= p < picked.len() ==> (#[trigger] kept[p])@ == ks[picked[p] as int],
            forall|p: int| 0 <= p < picked.len() ==> (#[trigger] picked[p]) < i,
            lists_first_places_upto(ks, as_places(picked@), i as int),
        decreases keys.len() - i,
    {
        let ghost places = as_places(picked@);
        match find_key(&kept, keys[i].as_str()) {
            Some(p) => {
                proof {
                    assert(places[p as int] == picked[p as int]);
                    lemma_place_known(ks, places, i as int, p as int);
                }
            },
            None => {
                proof {
                    lemma_deep_view_index(kept);
                    assert forall|p: int| 0 <= p < places.len() implies ks[#[trigger] places[p]]
                        != ks[i as int] by {
                        assert(places[p] == picked[p]);
                        assert(kept.deep_view()[p] == kept[p]@);
                        if ks[places[p]] == ks[i as int] {
                            assert(kept.deep_view().contains(ks[i as int]));
                        }
                    }
                    lemma_place_new(ks, places, i as int);
                }
                picked.push(i);
                kept.push(keys[i].clone());
                proof {
                    assert(as_places(picked@) =~= places.push(i as int));
                }
            },
        }
        i += 1;
    }
    picked
}

/// Keys taken at the first places, with the columns that belong to those
/// places, stand for `first_wins`.
pub proof fn lemma_first_wins(
    keys: Seq<Seq<char>>,
    places: Seq<int>,
    column_of: spec_fn(int) -> Seq<bool>,
    ks: Seq<Seq<char>>,
    cs: Seq<Seq<bool>>,
)
    requires
        lists_first_places(keys, places),
        ks.len() == places.len(),
        cs.len() == places.len(),
        forall|p: int| 0 <= p < places.len() ==> #[trigger] ks[p] == keys[places[p]],
        forall|p: int| 0 <= p < places.len() ==> #[trigger] cs[p] == column_of(places[p]),
    ensures
        ks.no_duplicates(),
        keyed(ks, cs) == first_wins(keys, column_of),
{
    let target = first_wins(keys, column_of);
    assert forall|a: int, b: int| 0 <= a < ks.len() && 0 <= b < ks.len() && a != b implies ks[a]
        != ks[b] by {
        let lo = if a < b {
            a
        } else {
            b
        };
        let hi = if a < b {
            b
        } else {
            a
        };
        assert(places[lo] < places[hi]);
        assert(is_first_place(keys, places[hi]));
        assert(ks[lo] == keys[places[lo]]);
        assert(ks[hi] == keys[places[hi]]);
    }
    assert forall|k: Seq<char>| target.dom().contains(k) <==> ks.contains(k) by {
        if keys.contains(k) {
            let i = keys.index_of(k);
            assert(0 <= i < keys.len() && keys[i] == k);
            assert(represented(keys, places, i));
            let p = choose|p: int| 0 <= p < places.len() && keys[#[trigger] places[p]] == keys[i];
            assert(ks[p] == k);
        }
        if ks.contains(k) {
            let p = ks.index_of(k);
            assert(0 <= p < ks.len() && ks[p] == k);
            assert(is_first_place(keys, places[p]));
            assert(keys[places[p]] == k);
        }
    }
    assert forall|p: int| 0 <= p < ks.len() implies cs[p] == target[#[trigger] ks[p]] by {
        assert(is_first_place(keys, places[p]));
        lemma_first_place(keys, places[p]);
        assert(keys.contains(keys[places[p]]));
    }
    lemma_keyed_is(ks, cs, target);
}

} // verus!
