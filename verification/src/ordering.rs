//! The order of transitions, and the ordered set of a list of transitions.
//!
//! Transitions are ordered by source, then target, then label, then kind, then
//! coverage flag. Two transitions are equal where they differ in the coverage
//! flag at most; the ordered set of a list keeps one transition of each class
//! of equal ones, the least, in ascending order.
use crate::models::model::{Transition, TransitionView};
use crate::text::{
    lemma_text_less_asymmetric, lemma_text_less_irreflexive, lemma_text_less_total,
    lemma_text_less_transitive, less_text, same_text, text_less,
};
use crate::views::lemma_push_view;
use vstd::prelude::*;
use vstd::string::*;

verus! {

/// The order of optional texts: none comes before any text, texts as
/// `text_less` orders them.
pub open spec fn kind_less(a: Option<Seq<char>>, b: Option<Seq<char>>) -> bool {
    match (a, b) {
        (None, Some(_)) => true,
        (Some(x), Some(y)) => text_less(x, y),
        _ => false,
    }
}

/// The place of a coverage flag in the order: none, then not covered, then
/// covered.
pub open spec fn flag_rank(flag: Option<bool>) -> int {
    match flag {
        None => 0,
        Some(false) => 1,
        Some(true) => 2,
    }
}

/// The strict order of transitions.
pub open spec fn transition_less(a: TransitionView, b: TransitionView) -> bool {
    if a.source != b.source {
        text_less(a.source, b.source)
    } else if a.target != b.target {
        text_less(a.target, b.target)
    } else if a.label != b.label {
        text_less(a.label, b.label)
    } else if a.kind != b.kind {
        kind_less(a.kind, b.kind)
    } else {
        flag_rank(a.covered) < flag_rank(b.covered)
    }
}

/// `x` put in its place in the ascending list `sorted`. Where the list holds a
/// transition equal to `x`, the lesser of the two stays.
pub open spec fn insert_ordered(sorted: Seq<TransitionView>, x: TransitionView) -> Seq<
    TransitionView,
>
    decreases sorted.len(),
{
    if sorted.len() == 0 {
        seq![x]
    } else {
        let last = sorted.last();
        if last.same_as(x) {
            if transition_less(x, last) {
                sorted.drop_last().push(x)
            } else {
                sorted
            }
        } else if transition_less(last, x) {
            sorted.push(x)
        } else {
            insert_ordered(sorted.drop_last(), x).push(last)
        }
    }
}

/// The ordered set of a list of transitions: its transitions in ascending
/// order, one of each class of equal ones.
pub open spec fn ordered(raw: Seq<TransitionView>) -> Seq<TransitionView>
    decreases raw.len(),
{
    if raw.len() == 0 {
        Seq::empty()
    } else {
        insert_ordered(ordered(raw.drop_last()), raw.last())
    }
}

/// Each transition of the list is below the next, and no two are equal.
pub open spec fn ascending(s: Seq<TransitionView>) -> bool {
    forall|i: int, j: int|
        0 <= i < j < s.len() ==> transition_less(#[trigger] s[i], #[trigger] s[j]) && !s[i].same_as(
            s[j],
        )
}

/// At place `k` the list holds a transition that equals `t` and is not above
/// it.
pub open spec fn holds_equal_at(s: Seq<TransitionView>, t: TransitionView, k: int) -> bool {
    0 <= k < s.len() && s[k].same_as(t) && !transition_less(t, s[k])
}

/// The list holds a transition that equals `t` and is not above it.
pub open spec fn holds_equal(s: Seq<TransitionView>, t: TransitionView) -> bool {
    exists|k: int| holds_equal_at(s, t, k)
}

/// Whether `a` comes before `b` in the order of transitions.
pub fn precedes(a: &Transition, b: &Transition) -> (less: bool)
    ensures
        less == transition_less(a@, b@),
{
    if !same_text(a.source.as_str(), b.source.as_str()) {
        return less_text(a.source.as_str(), b.source.as_str());
    }
    if !same_text(a.target.as_str(), b.target.as_str()) {
        return less_text(a.target.as_str(), b.target.as_str());
    }
    if !same_text(a.attributes.label.as_str(), b.attributes.label.as_str()) {
        return less_text(a.attributes.label.as_str(), b.attributes.label.as_str());
    }
    match &a.attributes._type {
        None => {
            if b.attributes._type.is_some() {
                return true;
            }
        },
        Some(x) => {
            match &b.attributes._type {
                None => {
                    return false;
                },
                Some(y) => {
                    if !same_text(x.as_str(), y.as_str()) {
                        return less_text(x.as_str(), y.as_str());
                    }
                },
            }
        },
    }
    let rank_a: u8 = match a.attributes.covered {
        None => 0,
        Some(false) => 1,
        Some(true) => 2,
    };
    let rank_b: u8 = match b.attributes.covered {
        None => 0,
        Some(false) => 1,
        Some(true) => 2,
    };
    rank_a < rank_b
}

/// Puts `x` in its place in the ascending list `sorted`.
pub fn insert_transition(sorted: &mut Vec<Transition>, x: Transition)
    ensures
        final(sorted).deep_view() == insert_ordered(old(sorted).deep_view(), x@),
    decreases old(sorted).len(),
{
    let ghost before = sorted.deep_view();
    let n = sorted.len();
    if n == 0 {
        sorted.push(x);
        proof {
            assert(sorted.deep_view() =~= seq![x@]);
        }
        return ;
    }
    let equal = sorted[n - 1] == x;
    let x_first = precedes(&x, &sorted[n - 1]);
    let last_first = precedes(&sorted[n - 1], &x);
    proof {
        assert(before.last() == sorted[n - 1]@);
    }
    if equal {
        if x_first {
            sorted.pop();
            let ghost shorter = *sorted;
            sorted.push(x);
            proof {
                lemma_push_view(shorter, *sorted, x);
                assert(shorter.deep_view() =~= before.drop_last());
            }
        }
    } else if last_first {
        let ghost whole = *sorted;
        sorted.push(x);
        proof {
            lemma_push_view(whole, *sorted, x);
        }
    } else {
        let last = sorted.pop().unwrap();
        proof {
            assert(sorted.deep_view() =~= before.drop_last());
            assert(last@ == before.last());
        }
        insert_transition(sorted, x);
        let ghost inserted = *sorted;
        sorted.push(last);
        proof {
            lemma_push_view(inserted, *sorted, last);
        }
    }
}

/// The ordered set of a list of transitions.
pub fn order_transitions(raw: &Vec<Transition>) -> (sorted: Vec<Transition>)
    ensures
        sorted.deep_view() == ordered(raw.deep_view()),
{
    let mut sorted: Vec<Transition> = Vec::new();
    let mut i: usize = 0;
    proof {
        assert(raw.deep_view().take(0) =~= Seq::empty());
        assert(sorted.deep_view() =~= Seq::empty());
    }
    while i < raw.len()
        invariant
            i <= raw.len(),
            sorted.deep_view() == ordered(raw.deep_view().take(i as int)),
        decreases raw.len() - i,
    {
        proof {
            let upto = raw.deep_view().take(i + 1);
            assert(upto.drop_last() =~= raw.deep_view().take(i as int));
            assert(upto.last() == raw[i as int]@);
        }
        insert_transition(&mut sorted, raw[i].clone());
        i += 1;
    }
    proof {
        assert(raw.deep_view().take(raw.len() as int) =~= raw.deep_view());
    }
    sorted
}

/// The order is strict and total on the classes of equal transitions: of two
/// transitions that are not equal, exactly one is below the other.
pub proof fn lemma_less_total(a: TransitionView, b: TransitionView)
    ensures
        !a.same_as(b) ==> (transition_less(a, b) != transition_less(b, a)),
        !(transition_less(a, b) && transition_less(b, a)),
{
    lemma_text_less_total(a.source, b.source);
    lemma_text_less_total(a.target, b.target);
    lemma_text_less_total(a.label, b.label);
    if text_less(a.source, b.source) {
        lemma_text_less_asymmetric(a.source, b.source);
    }
    if text_less(b.source, a.source) {
        lemma_text_less_asymmetric(b.source, a.source);
    }
    if text_less(a.target, b.target) {
        lemma_text_less_asymmetric(a.target, b.target);
    }
    if text_less(b.target, a.target) {
        lemma_text_less_asymmetric(b.target, a.target);
    }
    if text_less(a.label, b.label) {
        lemma_text_less_asymmetric(a.label, b.label);
    }
    if text_less(b.label, a.label) {
        lemma_text_less_asymmetric(b.label, a.label);
    }
    match (a.kind, b.kind) {
        (Some(x), Some(y)) => {
            lemma_text_less_total(x, y);
            if text_less(x, y) {
                lemma_text_less_asymmetric(x, y);
            }
            if text_less(y, x) {
                lemma_text_less_asymmetric(y, x);
            }
        },
        _ => {},
    }
}

/// The order is transitive.
pub proof fn lemma_less_transitive(a: TransitionView, b: TransitionView, c: TransitionView)
    requires
        transition_less(a, b),
        transition_less(b, c),
    ensures
        transition_less(a, c),
{
    lemma_text_less_irreflexive(a.source);
    lemma_text_less_irreflexive(a.target);
    lemma_text_less_irreflexive(a.label);
    if text_less(a.source, b.source) && text_less(b.source, c.source) {
        lemma_text_less_transitive(a.source, b.source, c.source);
    }
    if text_less(a.target, b.target) && text_less(b.target, c.target) {
        lemma_text_less_transitive(a.target, b.target, c.target);
    }
    if text_less(a.label, b.label) && text_less(b.label, c.label) {
        lemma_text_less_transitive(a.label, b.label, c.label);
    }
    match (a.kind, b.kind, c.kind) {
        (Some(x), Some(y), Some(z)) => {
            lemma_text_less_irreflexive(x);
            if text_less(x, y) && text_less(y, z) {
                lemma_text_less_transitive(x, y, z);
            }
        },
        _ => {},
    }
}

/// Equal transitions stand in the same relation to any transition that is
/// not equal to them.
pub proof fn lemma_less_of_equals(a: TransitionView, b: TransitionView, c: TransitionView)
    requires
        a.same_as(b),
        !a.same_as(c),
    ensures
        transition_less(a, c) == transition_less(b, c),
        transition_less(c, a) == transition_less(c, b),
{
}

/// What putting a transition in its place does to an ascending list: the list
/// stays ascending, it holds nothing but what it held and the new transition,
/// and it holds an equal of each of these that is not above it.
pub proof fn lemma_insert_ordered(sorted: Seq<TransitionView>, x: TransitionView)
    requires
        ascending(sorted),
    ensures
        ascending(insert_ordered(sorted, x)),
        forall|i: int|
            0 <= i < insert_ordered(sorted, x).len() ==> sorted.contains(
                #[trigger] insert_ordered(sorted, x)[i],
            ) || insert_ordered(sorted, x)[i] == x,
        forall|i: int|
            0 <= i < sorted.len() ==> holds_equal(insert_ordered(sorted, x), #[trigger] sorted[i]),
        holds_equal(insert_ordered(sorted, x), x),
    decreases sorted.len(),
{
    let out = insert_ordered(sorted, x);
    if sorted.len() == 0 {
        assert(out[0] == x);
        assert(holds_equal_at(out, x, 0));
    } else {
        let last = sorted.last();
        let n = sorted.len() as int;
        let front = sorted.drop_last();
        assert(ascending(front)) by {
            assert forall|i: int, j: int| 0 <= i < j < front.len() implies transition_less(
                #[trigger] front[i],
                #[trigger] front[j],
            ) && !front[i].same_as(front[j]) by {
                assert(front[i] == sorted[i] && front[j] == sorted[j]);
            }
        }
        if last.same_as(x) {
            if transition_less(x, last) {
                assert forall|i: int, j: int| 0 <= i < j < out.len() implies transition_less(
                    #[trigger] out[i],
                    #[trigger] out[j],
                ) && !out[i].same_as(out[j]) by {
                    assert(out[i] == sorted[i]);
                    if j == n - 1 {
                        lemma_less_of_equals(last, x, sorted[i]);
                        assert(transition_less(sorted[i], sorted[n - 1]));
                    } else {
                        assert(out[j] == sorted[j]);
                    }
                }
                assert forall|i: int| 0 <= i < out.len() implies sorted.contains(
                    #[trigger] out[i],
                ) || out[i] == x by {
                    if i < n - 1 {
                        assert(out[i] == sorted[i]);
                    }
                }
                assert forall|i: int| 0 <= i < sorted.len() implies holds_equal(
                    out,
                    #[trigger] sorted[i],
                ) by {
                    if i < n - 1 {
                        assert(out[i] == sorted[i]);
                        assert(holds_equal_at(out, sorted[i], i));
                    } else {
                        lemma_less_total(x, last);
                        assert(holds_equal_at(out, sorted[i], n - 1));
                    }
                }
                assert(holds_equal_at(out, x, n - 1));
            } else {
                assert forall|i: int| 0 <= i < sorted.len() implies holds_equal(
                    out,
                    #[trigger] sorted[i],
                ) by {
                    assert(holds_equal_at(out, sorted[i], i));
                }
                assert(holds_equal_at(out, x, n - 1));
            }
        } else if transition_less(last, x) {
            assert forall|i: int, j: int| 0 <= i < j < out.len() implies transition_less(
                #[trigger] out[i],
                #[trigger] out[j],
            ) && !out[i].same_as(out[j]) by {
                assert(out[i] == sorted[i]);
                if j == n {
                    if i < n - 1 {
                        assert(transition_less(sorted[i], sorted[n - 1]));
                        lemma_less_transitive(sorted[i], last, x);
                        if sorted[i].same_as(x) {
                            lemma_less_of_equals(sorted[i], x, last);
                            lemma_less_total(x, last);
                        }
                    }
                } else {
                    assert(out[j] == sorted[j]);
                }
            }
            assert forall|i: int| 0 <= i < out.len() implies sorted.contains(#[trigger] out[i])
                || out[i] == x by {
                if i < n {
                    assert(out[i] == sorted[i]);
                }
            }
            assert forall|i: int| 0 <= i < sorted.len() implies holds_equal(
                out,
                #[trigger] sorted[i],
            ) by {
                assert(out[i] == sorted[i]);
                assert(holds_equal_at(out, sorted[i], i));
            }
            assert(holds_equal_at(out, x, n));
        } else {
            lemma_insert_ordered(front, x);
            let inner = insert_ordered(front, x);
            lemma_less_total(x, last);
            assert forall|i: int, j: int| 0 <= i < j < out.len() implies transition_less(
                #[trigger] out[i],
                #[trigger] out[j],
            ) && !out[i].same_as(out[j]) by {
                assert(out[i] == inner[i]);
                if j == inner.len() {
                    if front.contains(inner[i]) {
                        let k = front.index_of(inner[i]);
                        assert(0 <= k < front.len() && front[k] == inner[i]);
                        assert(sorted[k] == inner[i]);
                        assert(transition_less(sorted[k], sorted[n - 1]));
                    }
                } else {
                    assert(out[j] == inner[j]);
                }
            }
            assert forall|i: int| 0 <= i < out.len() implies sorted.contains(#[trigger] out[i])
                || out[i] == x by {
                if i < inner.len() {
                    assert(out[i] == inner[i]);
                    if front.contains(inner[i]) {
                        let k = front.index_of(inner[i]);
                        assert(0 <= k < front.len() && front[k] == inner[i]);
                        assert(sorted[k] == inner[i]);
                    }
                } else {
                    assert(sorted[n - 1] == out[i]);
                }
            }
            assert forall|i: int| 0 <= i < sorted.len() implies holds_equal(
                out,
                #[trigger] sorted[i],
            ) by {
                if i < n - 1 {
                    assert(front[i] == sorted[i]);
                    assert(holds_equal(inner, front[i]));
                    let k = choose|k: int| holds_equal_at(inner, front[i], k);
                    assert(out[k] == inner[k]);
                    assert(holds_equal_at(out, sorted[i], k));
                } else {
                    assert(holds_equal_at(out, sorted[i], inner.len() as int));
                }
            }
            let k = choose|k: int| holds_equal_at(inner, x, k);
            assert(out[k] == inner[k]);
            assert(holds_equal_at(out, x, k));
        }
    }
}

/// Of three equal transitions, where the second is not above the first and
/// the third is not above the second, the third is not above the first.
pub proof fn lemma_equal_chain(a: TransitionView, b: TransitionView, c: TransitionView)
    requires
        b.same_as(a),
        !transition_less(a, b),
        c.same_as(b),
        !transition_less(b, c),
    ensures
        c.same_as(a),
        !transition_less(a, c),
{
}

/// A list that holds an equal of each transition of `sorted` that is not above
/// it holds such an equal of whatever `sorted` holds such an equal of.
proof fn lemma_holds_equal_through(
    sorted: Seq<TransitionView>,
    out: Seq<TransitionView>,
    t: TransitionView,
)
    requires
        holds_equal(sorted, t),
        forall|i: int| 0 <= i < sorted.len() ==> holds_equal(out, #[trigger] sorted[i]),
    ensures
        holds_equal(out, t),
{
    let k = choose|k: int| holds_equal_at(sorted, t, k);
    assert(holds_equal(out, sorted[k]));
    let m = choose|m: int| holds_equal_at(out, sorted[k], m);
    lemma_equal_chain(t, sorted[k], out[m]);
    assert(holds_equal_at(out, t, m));
}

/// What `out` holds of `sorted` and `x`, it holds of `front` and `x`, where
/// `sorted` holds only what `front` holds.
proof fn lemma_members_through(
    front: Seq<TransitionView>,
    sorted: Seq<TransitionView>,
    out: Seq<TransitionView>,
    x: TransitionView,
)
    requires
        forall|i: int| 0 <= i < sorted.len() ==> front.contains(#[trigger] sorted[i]),
        forall|i: int| 0 <= i < out.len() ==> sorted.contains(#[trigger] out[i]) || out[i] == x,
    ensures
        forall|i: int| 0 <= i < out.len() ==> front.push(x).contains(#[trigger] out[i]),
{
    let raw = front.push(x);
    assert forall|i: int| 0 <= i < out.len() implies raw.contains(#[trigger] out[i]) by {
        if sorted.contains(out[i]) {
            let k = sorted.index_of(out[i]);
            assert(0 <= k < sorted.len() && sorted[k] == out[i]);
            assert(front.contains(sorted[k]));
            let r = front.index_of(sorted[k]);
            assert(0 <= r < front.len() && front[r] == sorted[k]);
            assert(raw[r] == out[i]);
        } else {
            assert(raw[front.len() as int] == out[i]);
        }
    }
}

/// The ordered set of a list of transitions is ascending, holds only
/// transitions of the list, and holds for each transition of the list an
/// equal one that is not above it.
pub proof fn law_ordered(raw: Seq<TransitionView>)
    ensures
        ascending(ordered(raw)),
        forall|i: int| 0 <= i < ordered(raw).len() ==> raw.contains(#[trigger] ordered(raw)[i]),
        forall|i: int| 0 <= i < raw.len() ==> holds_equal(ordered(raw), #[trigger] raw[i]),
    decreases raw.len(),
{
    if raw.len() > 0 {
        let front = raw.drop_last();
        let sorted = ordered(front);
        let out = ordered(raw);
        law_ordered(front);
        lemma_insert_ordered(sorted, raw.last());
        assert(raw =~= front.push(raw.last()));
        lemma_members_through(front, sorted, out, raw.last());
        assert forall|i: int| 0 <= i < raw.len() implies holds_equal(out, #[trigger] raw[i]) by {
            if i < raw.len() - 1 {
                assert(front[i] == raw[i]);
                lemma_holds_equal_through(sorted, out, raw[i]);
            }
        }
    }
}

} // verus!
