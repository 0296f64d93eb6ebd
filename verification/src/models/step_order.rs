//! The order of steps: by label, then step number, then time, then notes,
//! then the three optional texts. The parameters of a step have no part in
//! it.
use crate::models::test_case::{Label, LabelView, Step, StepView, Timestamp};
use crate::ordering::kind_less;
use crate::text::{less_text, same_optional_text, same_text, same_texts, text_less};
use crate::views::lemma_deep_view_index;
use std::cmp::Ordering;
use vstd::prelude::*;
use vstd::std_specs::cmp::PartialOrdSpecImpl;
use vstd::string::*;

verus! {

/// The order of lists of texts: by the first texts in which they differ, a
/// list before any list that it begins.
pub open spec fn texts_less(a: Seq<Seq<char>>, b: Seq<Seq<char>>) -> bool
    decreases a.len(),
{
    if b.len() == 0 {
        false
    } else if a.len() == 0 {
        true
    } else if a[0] != b[0] {
        text_less(a[0], b[0])
    } else {
        texts_less(a.drop_first(), b.drop_first())
    }
}

/// The order of optional lists of texts: none before any list.
pub open spec fn notes_less(a: Option<Seq<Seq<char>>>, b: Option<Seq<Seq<char>>>) -> bool {
    match (a, b) {
        (None, Some(_)) => true,
        (Some(x), Some(y)) => texts_less(x, y),
        _ => false,
    }
}

/// The order of labels: by name, then direction, then channel.
pub open spec fn label_less(a: LabelView, b: LabelView) -> bool {
    if a.name != b.name {
        text_less(a.name, b.name)
    } else if a.direction != b.direction {
        text_less(a.direction, b.direction)
    } else {
        kind_less(a.channel, b.channel)
    }
}

/// The order of points in time.
pub open spec fn time_less(a: Timestamp, b: Timestamp) -> bool {
    a.seconds < b.seconds || (a.seconds == b.seconds && a.nanoseconds < b.nanoseconds)
}

/// The strict order of steps.
pub open spec fn step_less(a: StepView, b: StepView) -> bool {
    if a.label != b.label {
        label_less(a.label, b.label)
    } else if a.step_number != b.step_number {
        a.step_number < b.step_number
    } else if a.timestamp != b.timestamp {
        time_less(a.timestamp, b.timestamp)
    } else if a.notes != b.notes {
        notes_less(a.notes, b.notes)
    } else if a.state_vector_size != b.state_vector_size {
        kind_less(a.state_vector_size, b.state_vector_size)
    } else if a.advance_duration_ms != b.advance_duration_ms {
        kind_less(a.advance_duration_ms, b.advance_duration_ms)
    } else {
        kind_less(a.physical_label, b.physical_label)
    }
}

/// Lists that begin with the same texts compare as what follows these.
proof fn lemma_texts_less_skip(a: Seq<Seq<char>>, b: Seq<Seq<char>>, i: int)
    requires
        0 <= i <= a.len(),
        i <= b.len(),
        forall|j: int| 0 <= j < i ==> a[j] == b[j],
    ensures
        texts_less(a, b) == texts_less(a.skip(i), b.skip(i)),
    decreases i,
{
    if i > 0 {
        lemma_texts_less_skip(a.drop_first(), b.drop_first(), i - 1);
        assert(a.drop_first().skip(i - 1) =~= a.skip(i));
        assert(b.drop_first().skip(i - 1) =~= b.skip(i));
    } else {
        assert(a.skip(0) =~= a);
        assert(b.skip(0) =~= b);
    }
}

/// Whether an optional text comes before another.
fn optional_text_precedes(a: &Option<String>, b: &Option<String>) -> (less: bool)
    ensures
        less == kind_less(a.deep_view(), b.deep_view()),
{
    match a {
        None => b.is_some(),
        Some(x) => match b {
            None => false,
            Some(y) => less_text(x.as_str(), y.as_str()),
        },
    }
}

/// Whether a list of texts comes before another.
fn texts_precede(a: &Vec<String>, b: &Vec<String>) -> (less: bool)
    ensures
        less == texts_less(a.deep_view(), b.deep_view()),
{
    let ghost x = a.deep_view();
    let ghost y = b.deep_view();
    proof {
        lemma_deep_view_index(*a);
        lemma_deep_view_index(*b);
    }
    let mut i: usize = 0;
    while i < a.len() && i < b.len()
        invariant
            i <= a.len(),
            i <= b.len(),
            x == a.deep_view(),
            y == b.deep_view(),
            x.len() == a.len(),
            y.len() == b.len(),
            forall|j: int| 0 <= j < a.len() ==> x[j] == (#[trigger] a[j])@,
            forall|j: int| 0 <= j < b.len() ==> y[j] == (#[trigger] b[j])@,
            forall|j: int| 0 <= j < i ==> x[j] == y[j],
        decreases a.len() - i,
    {
        if !same_text(a[i].as_str(), b[i].as_str()) {
            proof {
                lemma_texts_less_skip(x, y, i as int);
                assert(x.skip(i as int)[0] == x[i as int]);
                assert(y.skip(i as int)[0] == y[i as int]);
            }
            return less_text(a[i].as_str(), b[i].as_str());
        }
        i += 1;
    }
    proof {
        lemma_texts_less_skip(x, y, i as int);
    }
    i < b.len()
}

/// Whether a label comes before another.
fn label_precedes(a: &Label, b: &Label) -> (less: bool)
    ensures
        less == label_less(a@, b@),
{
    if !same_text(a.name.as_str(), b.name.as_str()) {
        return less_text(a.name.as_str(), b.name.as_str());
    }
    if !same_text(a.direction.as_str(), b.direction.as_str()) {
        return less_text(a.direction.as_str(), b.direction.as_str());
    }
    optional_text_precedes(&a.channel, &b.channel)
}

impl Step {
    /// Whether this step comes before `other` in the order of steps.
    pub fn precedes(&self, other: &Step) -> (less: bool)
        ensures
            less == step_less(self@, other@),
    {
        if self.label != other.label {
            return label_precedes(&self.label, &other.label);
        }
        if self.step_number != other.step_number {
            return self.step_number < other.step_number;
        }
        if self.timestamp != other.timestamp {
            return self.timestamp.seconds < other.timestamp.seconds || (self.timestamp.seconds
                == other.timestamp.seconds && self.timestamp.nanoseconds
                < other.timestamp.nanoseconds);
        }
        match &self.notes {
            None => {
                if other.notes.is_some() {
                    return true;
                }
            },
            Some(mine) => match &other.notes {
                None => {
                    return false;
                },
                Some(theirs) => {
                    if !same_texts(mine, theirs) {
                        return texts_precede(mine, theirs);
                    }
                },
            },
        }
        if !same_optional_text(&self.state_vector_size, &other.state_vector_size) {
            return optional_text_precedes(&self.state_vector_size, &other.state_vector_size);
        }
        if !same_optional_text(&self.advance_duration_ms, &other.advance_duration_ms) {
            return optional_text_precedes(&self.advance_duration_ms, &other.advance_duration_ms);
        }
        optional_text_precedes(&self.physical_label, &other.physical_label)
    }
}

impl PartialOrd for Step {
    fn partial_cmp(&self, other: &Self) -> (order: Option<Ordering>) {
        if self.precedes(other) {
            Some(Ordering::Less)
        } else if other.precedes(self) {
            Some(Ordering::Greater)
        } else {
            Some(Ordering::Equal)
        }
    }
}

impl PartialOrdSpecImpl for Step {
    open spec fn obeys_partial_cmp_spec() -> bool {
        true
    }

    open spec fn partial_cmp_spec(&self, other: &Self) -> Option<Ordering> {
        if step_less(self@, other@) {
            Some(Ordering::Less)
        } else if step_less(other@, self@) {
            Some(Ordering::Greater)
        } else {
            Some(Ordering::Equal)
        }
    }
}

} // verus!
