//! The progress of training, in thousandths, and the rule by which it is
//! reported: a value is reported only where it exceeds every value reported
//! before.
use vstd::arithmetic::div_mod::{lemma_div_is_ordered, lemma_div_multiples_vanish};
use vstd::prelude::*;

verus! {

/// Progress when nothing was done.
pub const NOTHING: u32 = 0;

/// Progress when everything was done.
pub const EVERYTHING: u32 = 1000;

/// Progress when training begins.
pub const TRAINING_BEGINS: u32 = 100;

/// Progress when the stored corpus was read.
pub const CORPUS_READ: u32 = 200;

/// Progress when the matrix of single transitions begins to be built.
pub const SINGLETONS_BEGIN: u32 = 250;

/// Progress when the matrix of single transitions was built and the matrix of
/// windows begins to be built.
pub const PAIRS_BEGIN: u32 = 600;

/// Progress when the matrix of windows was built.
pub const PAIRS_END: u32 = 900;

/// Progress when the trained matrix was published.
pub const PUBLISHED: u32 = 950;

/// Progress when the trained matrix was handed on to be written out.
pub const WRITTEN_OUT: u32 = 980;

/// The greater of `last` and the values of `values`.
pub open spec fn highest(values: Seq<u32>, last: u32) -> u32
    decreases values.len(),
{
    if values.len() == 0 {
        last
    } else {
        let before = highest(values.drop_last(), last);
        if values.last() > before {
            values.last()
        } else {
            before
        }
    }
}

/// The values that are reported when `values` are offered in turn after
/// `last` was reported: each value that exceeds `last` and every value offered
/// before it.
pub open spec fn reported(values: Seq<u32>, last: u32) -> Seq<u32>
    decreases values.len(),
{
    if values.len() == 0 {
        Seq::empty()
    } else {
        let before = reported(values.drop_last(), last);
        if values.last() > highest(values.drop_last(), last) {
            before.push(values.last())
        } else {
            before
        }
    }
}

/// The progress within a phase that goes from `min` to `max`, when `done` of
/// `of` parts of the phase are done: `min` and that share of what lies between
/// the two, rounded down. A phase of no parts is at its beginning, and so is a
/// phase whose end does not lie after its beginning.
pub open spec fn within(done: nat, of: nat, min: u32, max: u32) -> int {
    if of == 0 || max <= min || done > of {
        min as int
    } else {
        min + (max - min) * done / (of as int)
    }
}

/// What was reported last.
#[derive(Debug, Clone, Copy, PartialEq, Eq, Structural)]
pub struct ProgressTracker {
    pub last: u32,
}

impl ProgressTracker {
    /// A tracker that has reported nothing yet.
    pub fn new() -> (tracker: ProgressTracker)
        ensures
            tracker.last == NOTHING,
    {
        ProgressTracker { last: NOTHING }
    }

    /// Forgets what was reported.
    pub fn reset(&mut self)
        ensures
            final(self).last == NOTHING,
    {
        self.last = NOTHING;
    }

    /// Offers a value. It is to be reported where it exceeds what was reported
    /// last, and is then what was reported last.
    pub fn advance(&mut self, progress: u32) -> (report: bool)
        ensures
            report == (progress > old(self).last),
            final(self).last == highest(seq![progress], old(self).last),
            reported(seq![progress], old(self).last) == if report {
                seq![progress]
            } else {
                Seq::<u32>::empty()
            },
    {
        proof {
            lemma_one_value(progress, self.last);
        }
        if progress > self.last {
            self.last = progress;
            true
        } else {
            false
        }
    }
}

/// What offering one value reports.
pub proof fn lemma_one_value(value: u32, last: u32)
    ensures
        highest(seq![value], last) == if value > last {
            value
        } else {
            last
        },
        reported(seq![value], last) == if value > last {
            seq![value]
        } else {
            Seq::<u32>::empty()
        },
{
    reveal_with_fuel(highest, 2);
    reveal_with_fuel(reported, 2);
    assert(seq![value].drop_last() =~= Seq::<u32>::empty());
    assert(Seq::<u32>::empty().push(value) =~= seq![value]);
}

/// The progress within a phase: see `within`.
pub fn interpolate(done: usize, of: usize, min: u32, max: u32) -> (progress: u32)
    ensures
        progress == within(done as nat, of as nat, min, max),
        min <= progress,
        max > min ==> progress <= max,
{
    if of == 0 || max <= min || done > of {
        return min;
    }
    let span: u128 = (max - min) as u128;
    let part: u128 = done as u128;
    let whole: u128 = of as u128;
    assert(span * part <= 0xFFFF_FFFF * 0xFFFF_FFFF_FFFF_FFFF) by (nonlinear_arith)
        requires
            span <= 0xFFFF_FFFF,
            part <= 0xFFFF_FFFF_FFFF_FFFF,
    ;
    assert(span * part <= span * whole) by (nonlinear_arith)
        requires
            part <= whole,
            span >= 0,
    ;
    let share: u128 = span * part / whole;
    proof {
        lemma_div_is_ordered((span * part) as int, (span * whole) as int, whole as int);
        lemma_div_multiples_vanish(span as int, whole as int);
        assert(span * whole == whole * span) by (nonlinear_arith);
    }
    min + share as u32
}

/// The values that the building of a matrix over `runs` runs offers within
/// the phase from `min` to `max`: the beginning of the phase, for a matrix of
/// single transitions the progress before each run, and the end of the phase.
/// A phase whose end does not lie after its beginning offers nothing.
pub open spec fn build_offers(runs: nat, of_windows: bool, min: u32, max: u32) -> Seq<u32> {
    if max <= min {
        Seq::empty()
    } else if of_windows {
        seq![min, max]
    } else {
        seq![min] + Seq::new(runs, |i: int| within(i as nat, runs, min, max) as u32) + seq![max]
    }
}

/// The values that training on `runs` coverage runs offers, in order.
pub open spec fn training_offers(runs: nat) -> Seq<u32> {
    seq![TRAINING_BEGINS, CORPUS_READ] + build_offers(runs, false, SINGLETONS_BEGIN, PAIRS_BEGIN)
        + build_offers(runs, true, PAIRS_BEGIN, PAIRS_END) + seq![PUBLISHED, WRITTEN_OUT]
}

/// Adds to `offers` what the building of a matrix offers.
pub fn offer_build(offers: &mut Vec<u32>, runs: usize, of_windows: bool, min: u32, max: u32)
    ensures
        final(offers)@ == old(offers)@ + build_offers(runs as nat, of_windows, min, max),
{
    let ghost before = offers@;
    if max <= min {
        proof {
            assert(offers@ =~= before + Seq::<u32>::empty());
        }
        return ;
    }
    offers.push(min);
    if !of_windows {
        let mut i: usize = 0;
        while i < runs
            invariant
                i <= runs,
                min < max,
                offers@ == before + seq![min] + Seq::new(
                    i as nat,
                    |k: int| within(k as nat, runs as nat, min, max) as u32,
                ),
            decreases runs - i,
        {
            offers.push(interpolate(i, runs, min, max));
            proof {
                assert(offers@ =~= before + seq![min] + Seq::new(
                    (i + 1) as nat,
                    |k: int| within(k as nat, runs as nat, min, max) as u32,
                ));
            }
            i += 1;
        }
    } else {
        proof {
            assert(offers@ =~= before + seq![min]);
        }
    }
    offers.push(max);
    proof {
        assert(offers@ =~= before + build_offers(runs as nat, of_windows, min, max));
    }
}

/// The values that training on `runs` coverage runs offers, in order.
pub fn offers_of_training(runs: usize) -> (offers: Vec<u32>)
    ensures
        offers@ == training_offers(runs as nat),
{
    let mut offers: Vec<u32> = Vec::new();
    offers.push(TRAINING_BEGINS);
    offers.push(CORPUS_READ);
    proof {
        assert(offers@ =~= seq![TRAINING_BEGINS, CORPUS_READ]);
    }
    offer_build(&mut offers, runs, false, SINGLETONS_BEGIN, PAIRS_BEGIN);
    offer_build(&mut offers, runs, true, PAIRS_BEGIN, PAIRS_END);
    let ghost built = offers@;
    offers.push(PUBLISHED);
    offers.push(WRITTEN_OUT);
    proof {
        assert(offers@ =~= built + seq![PUBLISHED, WRITTEN_OUT]);
    }
    offers
}

impl ProgressTracker {
    /// Offers values in turn and gives those that are to be reported.
    pub fn advance_all(&mut self, offers: &Vec<u32>) -> (reports: Vec<u32>)
        ensures
            reports@ == reported(offers@, old(self).last),
            final(self).last == highest(offers@, old(self).last),
    {
        let ghost last = self.last;
        let mut reports: Vec<u32> = Vec::new();
        proof {
            assert(offers@.take(0) =~= Seq::<u32>::empty());
        }
        let mut i: usize = 0;
        while i < offers.len()
            invariant
                i <= offers.len(),
                reports@ == reported(offers@.take(i as int), last),
                self.last == highest(offers@.take(i as int), last),
            decreases offers.len() - i,
        {
            proof {
                assert(offers@.take(i + 1) =~= offers@.take(i as int).push(offers[i as int]));
                law_reports_in_turn(offers@.take(i as int), offers[i as int], last);
            }
            let ghost so_far = reports@;
            if self.advance(offers[i]) {
                reports.push(offers[i]);
                proof {
                    assert(reports@ =~= so_far + seq![offers[i as int]]);
                }
            } else {
                proof {
                    assert(reports@ =~= so_far + Seq::<u32>::empty());
                }
            }
            i += 1;
        }
        proof {
            assert(offers@.take(offers.len() as int) =~= offers@);
        }
        reports
    }
}

/// What is reported rises: each reported value exceeds the one reported
/// before it, and all of them exceed what was reported last.
pub proof fn law_reports_rise(values: Seq<u32>, last: u32)
    ensures
        forall|i: int|
            0 <= i < reported(values, last).len() ==> last < #[trigger] reported(values, last)[i]
                <= highest(values, last),
        forall|i: int, j: int|
            0 <= i < j < reported(values, last).len() ==> reported(values, last)[i] < reported(
                values,
                last,
            )[j],
        last <= highest(values, last),
    decreases values.len(),
{
    if values.len() > 0 {
        let front = values.drop_last();
        law_reports_rise(front, last);
        let before = reported(front, last);
        let out = reported(values, last);
        assert forall|i: int, j: int| 0 <= i < j < out.len() implies out[i] < out[j] by {
            assert(out[i] == before[i]);
            if j < before.len() {
                assert(out[j] == before[j]);
            }
        }
        assert forall|i: int| 0 <= i < out.len() implies last < #[trigger] out[i] <= highest(
            values,
            last,
        ) by {
            if i < before.len() {
                assert(out[i] == before[i]);
            }
        }
    }
}

/// Offering values one after the other reports what offering them together
/// reports.
pub proof fn law_reports_in_turn(first: Seq<u32>, then: u32, last: u32)
    ensures
        reported(first.push(then), last) == reported(first, last) + reported(
            seq![then],
            highest(first, last),
        ),
        highest(first.push(then), last) == highest(seq![then], highest(first, last)),
{
    assert(first.push(then).drop_last() =~= first);
    lemma_one_value(then, highest(first, last));
    assert(reported(first, last).push(then) =~= reported(first, last) + seq![then]);
    assert(reported(first, last) =~= reported(first, last) + Seq::<u32>::empty());
}

} // verus!
