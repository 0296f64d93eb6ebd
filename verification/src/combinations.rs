//! Contiguous windows over an ordered sequence.
use vstd::prelude::*;

verus! {

/// Number of contiguous windows of `length` elements in a sequence of `n`
/// elements: none for the empty window and for a window longer than the
/// sequence.
pub open spec fn window_count(n: nat, length: nat) -> nat {
    if length == 0 || n < length {
        0
    } else {
        (n - length + 1) as nat
    }
}

/// Every run of exactly `length` consecutive elements of `s`, in the order in
/// which the runs start.
pub open spec fn windows<A>(s: Seq<A>, length: nat) -> Seq<Seq<A>> {
    Seq::new(window_count(s.len(), length), |i: int| s.subrange(i, i + length))
}

/// All contiguous windows of `pair_len` elements of `haystack`, each element
/// cloned into its window.
pub fn get_pairs_with_length<T: Clone>(pair_len: usize, haystack: &Vec<T>) -> (all_pairs: Vec<
    Vec<T>,
>)
    ensures
        all_pairs.len() == window_count(haystack.len() as nat, pair_len as nat),
        forall|i: int| 0 <= i < all_pairs.len() ==> (#[trigger] all_pairs[i]).len() == pair_len,
        forall|i: int, p: int|
            0 <= i < all_pairs.len() && 0 <= p < pair_len ==> cloned(
                haystack[i + p],
                #[trigger] all_pairs[i][p],
            ),
        (forall|a: T, b: T| cloned(a, b) ==> a == b) ==> all_pairs@.map_values(|w: Vec<T>| w@)
            == windows(haystack@, pair_len as nat),
{
    let mut all_pairs: Vec<Vec<T>> = Vec::new();
    if pair_len == 0 || haystack.len() < pair_len {
        proof {
            assert(all_pairs@.map_values(|w: Vec<T>| w@) =~= windows(
                haystack@,
                pair_len as nat,
            ));
        }
        return all_pairs;
    }
    let number_of_loops: usize = haystack.len() - pair_len + 1;
    let mut i: usize = 0;
    while i < number_of_loops
        invariant
            0 < pair_len <= haystack.len(),
            number_of_loops == haystack.len() - pair_len + 1,
            i <= number_of_loops,
            all_pairs.len() == i,
            forall|k: int| 0 <= k < i ==> (#[trigger] all_pairs[k]).len() == pair_len,
            forall|k: int, p: int|
                0 <= k < i && 0 <= p < pair_len ==> cloned(
                    haystack[k + p],
                    #[trigger] all_pairs[k][p],
                ),
        decreases number_of_loops - i,
    {
        let mut cur_pair: Vec<T> = Vec::new();
        let mut p: usize = 0;
        while p < pair_len
            invariant
                i + pair_len <= haystack.len(),
                p <= pair_len,
                cur_pair.len() == p,
                forall|q: int| 0 <= q < p ==> cloned(haystack[i + q], #[trigger] cur_pair[q]),
            decreases pair_len - p,
        {
            cur_pair.push(haystack[i + p].clone());
            p += 1;
        }
        all_pairs.push(cur_pair);
        i += 1;
    }
    proof {
        if forall|a: T, b: T| cloned(a, b) ==> a == b {
            let got = all_pairs@.map_values(|w: Vec<T>| w@);
            let want = windows(haystack@, pair_len as nat);
            assert(got.len() == want.len());
            assert forall|k: int| 0 <= k < got.len() implies got[k] == want[k] by {
                assert(all_pairs[k].len() == pair_len);
                assert forall|p: int| 0 <= p < pair_len implies got[k][p] == want[k][p] by {
                    assert(cloned(haystack[k + p], all_pairs[k][p]));
                }
                assert(got[k] =~= want[k]);
            }
            assert(got =~= want);
        }
    }
    all_pairs
}

/// The windows of a sequence: for a length of at least one there are
/// `max(0, len - length + 1)` of them and window `i` holds the elements from
/// `i` up to `i + length` in their order; there is none for length zero, and
/// none for a length above that of the sequence.
pub proof fn law_windows<A>(s: Seq<A>, length: nat)
    ensures
        length >= 1 && length <= s.len() ==> windows(s, length).len() == s.len() - length + 1,
        length >= 1 && length > s.len() ==> windows(s, length).len() == 0,
        length == 0 ==> windows(s, length) == Seq::<Seq<A>>::empty(),
        length > s.len() ==> windows(s, length) == Seq::<Seq<A>>::empty(),
        forall|i: int|
            0 <= i < windows(s, length).len() ==> {
                &&& i + length <= s.len()
                &&& (#[trigger] windows(s, length)[i]).len() == length
                &&& forall|p: int|
                    0 <= p < length ==> windows(s, length)[i][p] == #[trigger] s[i + p]
            },
{
    assert(length == 0 || length > s.len() ==> windows(s, length) =~= Seq::<Seq<A>>::empty());
}

} // verus!
