//! Building coverage matrices from their two sources: coverage runs of the
//! model, and raw traces.
use crate::models::columns::{
    as_places, first_place, first_places, first_wins, is_first_place, lemma_first_place,
    lemma_first_place_exists, lemma_first_wins, represented,
};
use crate::models::coverage_matrix::{find_key, keyed, CoverageMatrix, CoverageMatrixView};
use crate::models::model::{
    transition_key, StsView, TestModel, TestModelView, TraceProperties, Transition,
    TransitionView,
};
use crate::models::test_case::{full_label, Step, StepView, TestCase, TestCaseView};
use crate::text::{join, join_strings};
use crate::views::{lemma_columns_deep_view, lemma_deep_view_index, lemma_push_view};
use vstd::prelude::*;
use vstd::string::*;

verus! {

/// Whether a row covers `key`: the row holds the key, and the flag that stands
/// with the key's first occurrence is set.
pub open spec fn row_covers(keys: Seq<Seq<char>>, flags: Seq<bool>, key: Seq<char>) -> bool {
    keys.contains(key) && flags[first_place(keys, key)]
}

/// One of the first `n` rows holds `key`.
pub open spec fn rows_hold(rows: Seq<Seq<Seq<char>>>, n: int, key: Seq<char>) -> bool {
    exists|r: int| 0 <= r < n && (#[trigger] rows[r]).contains(key)
}

/// The columns of a matrix with one row for each list of keys with flags: a
/// column for each key that occurs in some row, which says row by row whether
/// the row covers the key.
pub open spec fn rows_columns(row_keys: Seq<Seq<Seq<char>>>, row_flags: Seq<Seq<bool>>) -> Map<
    Seq<char>,
    Seq<bool>,
> {
    Map::new(
        |k: Seq<char>| rows_hold(row_keys, row_keys.len() as int, k),
        |k: Seq<char>| Seq::new(row_keys.len(), |r: int| row_covers(row_keys[r], row_flags[r], k)),
    )
}

/// Whether the row given by `keys` and `flags` covers `key`.
fn covers_key(keys: &Vec<String>, flags: &Vec<bool>, key: &str) -> (covered: bool)
    requires
        keys.len() == flags.len(),
    ensures
        covered == row_covers(keys.deep_view(), flags@, key@),
{
    proof {
        lemma_deep_view_index(*keys);
    }
    match find_key(keys, key) {
        Some(i) => {
            proof {
                let ks = keys.deep_view();
                assert(ks[i as int] == key@);
                assert(is_first_place(ks, i as int));
                lemma_first_place(ks, i as int);
            }
            flags[i]
        },
        None => false,
    }
}

/// All keys of all rows, one row after the other.
fn gather_keys(row_keys: &Vec<Vec<String>>) -> (all: Vec<String>)
    ensures
        forall|k: Seq<char>|
            all.deep_view().contains(k) <==> rows_hold(
                row_keys.deep_view(),
                row_keys.len() as int,
                k,
            ),
{
    let ghost rows = row_keys.deep_view();
    let mut all: Vec<String> = Vec::new();
    proof {
        lemma_deep_view_index(*row_keys);
    }
    let mut r: usize = 0;
    while r < row_keys.len()
        invariant
            r <= row_keys.len(),
            rows == row_keys.deep_view(),
            rows.len() == row_keys.len(),
            forall|a: int| 0 <= a < row_keys.len() ==> rows[a] == (#[trigger] row_keys[a]).deep_view(),
            forall|k: Seq<char>| all.deep_view().contains(k) <==> rows_hold(rows, r as int, k),
        decreases row_keys.len() - r,
    {
        let row = &row_keys[r];
        let ghost before = all.deep_view();
        let mut j: usize = 0;
        while j < row.len()
            invariant
                j <= row.len(),
                all.deep_view() == before + row.deep_view().take(j as int),
            decreases row.len() - j,
        {
            let ghost old_all = all;
            let key = row[j].clone();
            all.push(key);
            proof {
                lemma_push_view(old_all, all, key);
                lemma_deep_view_index(*row);
                assert(all.deep_view() =~= before + row.deep_view().take(j + 1));
            }
            j += 1;
        }
        proof {
            assert(row.deep_view().take(row.len() as int) =~= row.deep_view());
            assert forall|k: Seq<char>| all.deep_view().contains(k) <==> rows_hold(
                rows,
                r + 1,
                k,
            ) by {
                let whole = before + rows[r as int];
                if whole.contains(k) {
                    let i = whole.index_of(k);
                    assert(0 <= i < whole.len() && whole[i] == k);
                    if i < before.len() {
                        assert(before[i] == k);
                        assert(before.contains(k));
                        assert(rows_hold(rows, r as int, k));
                        let a = choose|a: int| 0 <= a < r && (#[trigger] rows[a]).contains(k);
                        assert(rows[a].contains(k));
                    } else {
                        assert(rows[r as int][i - before.len()] == k);
                        assert(rows[r as int].contains(k));
                    }
                }
                if rows_hold(rows, r + 1, k) {
                    let a = choose|a: int| 0 <= a < r + 1 && (#[trigger] rows[a]).contains(k);
                    if a < r {
                        assert(rows_hold(rows, r as int, k));
                        assert(before.contains(k));
                        let i = before.index_of(k);
                        assert(0 <= i < before.len() && before[i] == k);
                        assert(whole[i] == k);
                    } else {
                        let i = rows[r as int].index_of(k);
                        assert(0 <= i < rows[r as int].len() && rows[r as int][i] == k);
                        assert(whole[before.len() + i] == k);
                    }
                }
            }
        }
        r += 1;
    }
    all
}

/// The keys and columns of a matrix with one row for each list of keys with
/// flags.
pub fn columns_of_rows(row_keys: &Vec<Vec<String>>, row_flags: &Vec<Vec<bool>>) -> (out: (
    Vec<String>,
    Vec<Vec<bool>>,
))
    requires
        row_keys.len() == row_flags.len(),
        forall|r: int| 0 <= r < row_keys.len() ==> row_keys[r].len() == row_flags[r].len(),
    ensures
        out.0.deep_view().no_duplicates(),
        out.0.len() == out.1.len(),
        forall|c: int| 0 <= c < out.1.len() ==> (#[trigger] out.1[c])@.len() == row_keys.len(),
        keyed(out.0.deep_view(), out.1.deep_view()) == rows_columns(
            row_keys.deep_view(),
            row_flags.deep_view(),
        ),
{
    let all = gather_keys(row_keys);
    let picked = first_places(&all);
    let ghost rk = row_keys.deep_view();
    let ghost rf = row_flags.deep_view();
    let ghost everything = all.deep_view();
    let ghost places = as_places(picked@);
    let ghost column_of = |i: int| Seq::new(rk.len(), |r: int| row_covers(rk[r], rf[r], everything[i]));
    let mut keys: Vec<String> = Vec::new();
    let mut columns: Vec<Vec<bool>> = Vec::new();
    proof {
        lemma_deep_view_index(all);
        lemma_deep_view_index(*row_keys);
        lemma_columns_deep_view(*row_flags);
    }
    let mut p: usize = 0;
    while p < picked.len()
        invariant
            p <= picked.len(),
            rk == row_keys.deep_view(),
            rf == row_flags.deep_view(),
            everything == all.deep_view(),
            places == as_places(picked@),
            column_of == |i: int|
                Seq::new(rk.len(), |r: int| row_covers(rk[r], rf[r], everything[i])),
            row_keys.len() == row_flags.len(),
            rk.len() == row_keys.len(),
            rf.len() == row_flags.len(),
            forall|r: int| 0 <= r < row_keys.len() ==> row_keys[r].len() == row_flags[r].len(),
            forall|r: int| 0 <= r < row_keys.len() ==> rk[r] == (#[trigger] row_keys[r]).deep_view(),
            forall|r: int| 0 <= r < row_flags.len() ==> rf[r] == (#[trigger] row_flags[r])@,
            forall|a: int| 0 <= a < all.len() ==> everything[a] == (#[trigger] all[a])@,
            forall|q: int| 0 <= q < picked.len() ==> (#[trigger] picked[q]) < all.len(),
            keys.len() == p,
            columns.len() == p,
            forall|q: int| 0 <= q < p ==> (#[trigger] keys[q])@ == everything[places[q]],
            forall|q: int| 0 <= q < p ==> (#[trigger] columns[q])@ == column_of(places[q]),
        decreases picked.len() - p,
    {
        let place = picked[p];
        let key = all[place].clone();
        let mut column: Vec<bool> = Vec::new();
        let mut r: usize = 0;
        while r < row_keys.len()
            invariant
                r <= row_keys.len(),
                row_keys.len() == row_flags.len(),
                rk.len() == row_keys.len(),
                forall|a: int| 0 <= a < row_keys.len() ==> row_keys[a].len() == row_flags[a].len(),
                forall|a: int|
                    0 <= a < row_keys.len() ==> rk[a] == (#[trigger] row_keys[a]).deep_view(),
                forall|a: int| 0 <= a < row_flags.len() ==> rf[a] == (#[trigger] row_flags[a])@,
                column.len() == r,
                forall|a: int|
                    0 <= a < r ==> (#[trigger] column[a]) == row_covers(rk[a], rf[a], key@),
            decreases row_keys.len() - r,
        {
            column.push(covers_key(&row_keys[r], &row_flags[r], key.as_str()));
            r += 1;
        }
        proof {
            assert(places[p as int] == place);
            assert(key@ == everything[place as int]);
            assert(column@ =~= column_of(place as int));
        }
        keys.push(key);
        columns.push(column);
        p += 1;
    }
    proof {
        lemma_deep_view_index(keys);
        lemma_columns_deep_view(columns);
        let ks = keys.deep_view();
        let cs = columns.deep_view();
        lemma_first_wins(everything, places, column_of, ks, cs);
        let target = rows_columns(rk, rf);
        let won = first_wins(everything, column_of);
        assert forall|k: Seq<char>| won.dom().contains(k) implies won[k] == target[k] by {
            let i = everything.index_of(k);
            assert(0 <= i < everything.len() && everything[i] == k);
            assert(represented(everything, places, i));
            let q = choose|q: int|
                0 <= q < places.len() && everything[#[trigger] places[q]] == everything[i];
            assert(is_first_place(everything, places[q]));
            lemma_first_place(everything, places[q]);
            assert(everything[first_place(everything, k)] == k);
            assert(won[k] =~= target[k]);
        }
        assert(won =~= target);
        assert forall|c: int| 0 <= c < columns.len() implies (#[trigger] columns[c])@.len()
            == row_keys.len() by {
            assert(columns[c]@ == column_of(places[c]));
        }
    }
    (keys, columns)
}

/// A sub-graph says of its trace that it did not pass.
pub open spec fn graph_failed(graph: StsView) -> bool {
    graph.trace_properties == Some(TraceProperties { passed: Some(false) })
}

/// A coverage run failed where one of its sub-graphs says of its trace that it
/// did not pass.
pub open spec fn run_failed(run: TestModelView) -> bool {
    exists|g: int| 0 <= g < run.stss.len() && graph_failed(#[trigger] run.stss[g])
}

/// The identity of the trace of a coverage run; -1 where it has none.
pub open spec fn run_id(run: TestModelView) -> i64 {
    match run.testcase_id {
        Some(id) => id,
        None => -1i64,
    }
}

/// The column keys of the transitions of a coverage run.
pub open spec fn run_keys(run: TestModelView, use_transition_data: bool) -> Seq<Seq<char>> {
    run.all_transitions().map_values(|t: TransitionView| transition_key(t, use_transition_data))
}

/// The coverage flags of the transitions of a coverage run.
pub open spec fn run_flags(run: TestModelView) -> Seq<bool> {
    run.all_transitions().map_values(|t: TransitionView| t.is_covered())
}

/// The key of a window of transitions: the keys of its transitions, joined by
/// a blank.
pub open spec fn window_key(window: Seq<TransitionView>, use_transition_data: bool) -> Seq<char> {
    join(
        window.map_values(|t: TransitionView| transition_key(t, use_transition_data)),
        " "@,
    )
}

/// A window holds a transition that equals `t`.
pub open spec fn window_holds(window: Seq<TransitionView>, t: TransitionView) -> bool {
    exists|i: int| 0 <= i < window.len() && (#[trigger] window[i]).same_as(t)
}

/// A run covers a window where each of its transitions that the window holds
/// is covered. A run that has none of the window's transitions covers it.
pub open spec fn window_covered(transitions: Seq<TransitionView>, window: Seq<TransitionView>) -> bool {
    forall|j: int|
        0 <= j < transitions.len() && window_holds(window, #[trigger] transitions[j])
            ==> transitions[j].is_covered()
}

/// The matrix of a list of coverage runs. Each run is a row; it failed where
/// `run_failed` says so. Without windows there is one column for each
/// transition key that occurs in some run, which says whether the run has a
/// transition of that key and its first such transition is covered. With
/// windows there is one column for each window key, which says of the first
/// window with that key whether the run covers it.
pub open spec fn model_matrix(
    runs: Seq<TestModelView>,
    windows: Option<Seq<Seq<TransitionView>>>,
    use_transition_data: bool,
) -> CoverageMatrixView {
    CoverageMatrixView {
        error_vector: runs.map_values(|run: TestModelView| run_failed(run)),
        test_id_vector: runs.map_values(|run: TestModelView| run_id(run)),
        data: match windows {
            None => rows_columns(
                runs.map_values(|run: TestModelView| run_keys(run, use_transition_data)),
                runs.map_values(|run: TestModelView| run_flags(run)),
            ),
            Some(ws) => first_wins(
                ws.map_values(|w: Seq<TransitionView>| window_key(w, use_transition_data)),
                |i: int|
                    runs.map_values(|run: TestModelView| window_covered(run.all_transitions(), ws[i])),
            ),
        },
    }
}

/// The outcome of a trace counts as a failure unless it is "passed".
pub open spec fn case_failed(case: TestCaseView) -> bool {
    !case.passed()
}

/// The identity of a trace; -1 where it has none.
pub open spec fn case_id(case: TestCaseView) -> i64 {
    match case.id {
        Some(id) => id,
        None => -1i64,
    }
}

/// The labels of the steps of a trace.
pub open spec fn case_labels(case: TestCaseView, use_transition_data: bool) -> Seq<Seq<char>> {
    case.steps.map_values(|s: StepView| full_label(s, use_transition_data))
}

/// The key of a window of steps: the labels of its steps, joined by ` -> `.
pub open spec fn step_window_key(window: Seq<StepView>, use_transition_data: bool) -> Seq<char> {
    join(window.map_values(|s: StepView| full_label(s, use_transition_data)), " -> "@)
}

/// A trace covers a window of steps where it holds each step of the window,
/// wherever and in whatever order.
pub open spec fn step_window_covered(steps: Seq<StepView>, window: Seq<StepView>) -> bool {
    forall|i: int| 0 <= i < window.len() ==> steps.contains(#[trigger] window[i])
}

/// The matrix of a list of traces. Each trace is a row; it failed unless it
/// passed. Without windows there is one column for each step label that occurs
/// in some trace, which says whether the trace has a step with that label.
/// With windows there is one column for each window key, which says of the
/// first window with that key whether the trace covers it.
pub open spec fn traces_matrix(
    cases: Seq<TestCaseView>,
    windows: Option<Seq<Seq<StepView>>>,
    use_transition_data: bool,
) -> CoverageMatrixView {
    CoverageMatrixView {
        error_vector: cases.map_values(|case: TestCaseView| case_failed(case)),
        test_id_vector: cases.map_values(|case: TestCaseView| case_id(case)),
        data: match windows {
            None => Map::new(
                |k: Seq<char>|
                    exists|r: int|
                        0 <= r < cases.len() && case_labels(
                            #[trigger] cases[r],
                            use_transition_data,
                        ).contains(k),
                |k: Seq<char>|
                    cases.map_values(
                        |case: TestCaseView| case_labels(case, use_transition_data).contains(k),
                    ),
            ),
            Some(ws) => first_wins(
                ws.map_values(|w: Seq<StepView>| step_window_key(w, use_transition_data)),
                |i: int| cases.map_values(|case: TestCaseView| step_window_covered(case.steps, ws[i])),
            ),
        },
    }
}

/// Whether a coverage run failed.
fn failure_of(run: &TestModel) -> (failed: bool)
    ensures
        failed == run_failed(run@),
{
    proof {
        lemma_deep_view_index(run.stss);
    }
    let mut failed = false;
    let mut g: usize = 0;
    while g < run.stss.len()
        invariant
            g <= run.stss.len(),
            run@.stss.len() == run.stss.len(),
            forall|a: int| 0 <= a < run.stss.len() ==> run@.stss[a] == (#[trigger] run.stss[a])@,
            failed == exists|a: int| 0 <= a < g && graph_failed(#[trigger] run@.stss[a]),
        decreases run.stss.len() - g,
    {
        let says_failed = match run.stss[g].trace_properties {
            Some(properties) => match properties.passed {
                Some(passed) => !passed,
                None => false,
            },
            None => false,
        };
        proof {
            assert(says_failed == graph_failed(run@.stss[g as int]));
        }
        if says_failed {
            failed = true;
        }
        g += 1;
    }
    failed
}

/// The column keys of a list of transitions.
fn keys_of(transitions: &Vec<Transition>, use_transition_data: bool) -> (keys: Vec<String>)
    ensures
        keys.deep_view() == transitions.deep_view().map_values(
            |t: TransitionView| transition_key(t, use_transition_data),
        ),
{
    let mut keys: Vec<String> = Vec::new();
    let mut i: usize = 0;
    while i < transitions.len()
        invariant
            i <= transitions.len(),
            keys.len() == i,
            forall|a: int|
                0 <= a < i ==> (#[trigger] keys[a])@ == transition_key(
                    transitions[a]@,
                    use_transition_data,
                ),
        decreases transitions.len() - i,
    {
        keys.push(transitions[i].to_string(use_transition_data));
        i += 1;
    }
    proof {
        lemma_deep_view_index(keys);
        lemma_deep_view_index(*transitions);
        assert(keys.deep_view() =~= transitions.deep_view().map_values(
            |t: TransitionView| transition_key(t, use_transition_data),
        ));
    }
    keys
}

/// The key of a window of transitions.
pub fn key_of_window(window: &Vec<Transition>, use_transition_data: bool) -> (key: String)
    ensures
        key@ == window_key(window.deep_view(), use_transition_data),
{
    let parts = keys_of(window, use_transition_data);
    join_strings(&parts, " ")
}

/// The coverage flags of a list of transitions.
fn flags_of(transitions: &Vec<Transition>) -> (flags: Vec<bool>)
    ensures
        flags@ == transitions.deep_view().map_values(|t: TransitionView| t.is_covered()),
{
    let mut flags: Vec<bool> = Vec::new();
    let mut i: usize = 0;
    while i < transitions.len()
        invariant
            i <= transitions.len(),
            flags.len() == i,
            forall|a: int| 0 <= a < i ==> (#[trigger] flags[a]) == transitions[a]@.is_covered(),
        decreases transitions.len() - i,
    {
        let covered = match transitions[i].attributes.covered {
            Some(flag) => flag,
            None => false,
        };
        flags.push(covered);
        i += 1;
    }
    proof {
        lemma_deep_view_index(*transitions);
        assert(flags@ =~= transitions.deep_view().map_values(
            |t: TransitionView| t.is_covered(),
        ));
    }
    flags
}

/// Whether `window` holds a transition that equals `t`.
fn holds_transition(window: &Vec<Transition>, t: &Transition) -> (holds: bool)
    ensures
        holds == window_holds(window.deep_view(), t@),
{
    proof {
        lemma_deep_view_index(*window);
    }
    let mut i: usize = 0;
    while i < window.len()
        invariant
            i <= window.len(),
            window.deep_view().len() == window.len(),
            forall|a: int| 0 <= a < window.len() ==> window.deep_view()[a] == (#[trigger] window[a])@,
            forall|a: int| 0 <= a < i ==> !(#[trigger] window.deep_view()[a]).same_as(t@),
        decreases window.len() - i,
    {
        if window[i] == *t {
            proof {
                assert(window.deep_view()[i as int].same_as(t@));
            }
            return true;
        }
        i += 1;
    }
    false
}

/// Whether a run with the given transitions covers `window`.
fn covers_window(transitions: &Vec<Transition>, window: &Vec<Transition>) -> (covered: bool)
    ensures
        covered == window_covered(transitions.deep_view(), window.deep_view()),
{
    proof {
        lemma_deep_view_index(*transitions);
    }
    let ghost ts = transitions.deep_view();
    let mut j: usize = 0;
    while j < transitions.len()
        invariant
            j <= transitions.len(),
            ts == transitions.deep_view(),
            ts.len() == transitions.len(),
            forall|a: int| 0 <= a < transitions.len() ==> ts[a] == (#[trigger] transitions[a])@,
            forall|a: int|
                0 <= a < j && window_holds(window.deep_view(), #[trigger] ts[a])
                    ==> ts[a].is_covered(),
        decreases transitions.len() - j,
    {
        let covered = match transitions[j].attributes.covered {
            Some(flag) => flag,
            None => false,
        };
        if !covered && holds_transition(window, &transitions[j]) {
            proof {
                assert(window_holds(window.deep_view(), ts[j as int]) && !ts[j as int].is_covered());
            }
            return false;
        }
        j += 1;
    }
    true
}

/// The transitions of each of `runs`.
fn transitions_of(runs: &Vec<TestModel>) -> (all: Vec<Vec<Transition>>)
    ensures
        all.len() == runs.len(),
        forall|r: int|
            0 <= r < runs.len() ==> (#[trigger] all[r]).deep_view() == runs[r]@.all_transitions(),
{
    let mut all: Vec<Vec<Transition>> = Vec::new();
    let mut r: usize = 0;
    while r < runs.len()
        invariant
            r <= runs.len(),
            all.len() == r,
            forall|a: int|
                0 <= a < r ==> (#[trigger] all[a]).deep_view() == runs[a]@.all_transitions(),
        decreases runs.len() - r,
    {
        all.push(runs[r].all_transitions());
        r += 1;
    }
    all
}

impl CoverageMatrix {
    /// The coverage matrix of a list of coverage runs: without windows the one
    /// with a column for each transition, with windows the one with a column
    /// for each window of transitions.
    pub fn from_model(
        val: &Vec<TestModel>,
        transitions_to_include: Option<&Vec<Vec<Transition>>>,
        use_transition_data: bool,
    ) -> (matrix: CoverageMatrix)
        ensures
            matrix@ == model_matrix(
                val.deep_view(),
                transitions_to_include.deep_view(),
                use_transition_data,
            ),
            matrix@.wf(),
    {
        let ghost runs = val.deep_view();
        proof {
            lemma_deep_view_index(*val);
        }
        let mut error_vector: Vec<bool> = Vec::new();
        let mut test_id_vector: Vec<i64> = Vec::new();
        let mut r: usize = 0;
        while r < val.len()
            invariant
                r <= val.len(),
                runs == val.deep_view(),
                runs.len() == val.len(),
                forall|a: int| 0 <= a < val.len() ==> runs[a] == (#[trigger] val[a])@,
                error_vector.len() == r,
                test_id_vector.len() == r,
                forall|a: int| 0 <= a < r ==> (#[trigger] error_vector[a]) == run_failed(runs[a]),
                forall|a: int| 0 <= a < r ==> (#[trigger] test_id_vector[a]) == run_id(runs[a]),
            decreases val.len() - r,
        {
            error_vector.push(failure_of(&val[r]));
            let id: i64 = match val[r].testcase_id {
                Some(id) => id,
                None => -1,
            };
            test_id_vector.push(id);
            r += 1;
        }
        proof {
            assert(error_vector@ =~= runs.map_values(|run: TestModelView| run_failed(run)));
            assert(test_id_vector@ =~= runs.map_values(|run: TestModelView| run_id(run)));
        }
        let run_transitions = transitions_of(val);
        match transitions_to_include {
            None => {
                let mut row_keys: Vec<Vec<String>> = Vec::new();
                let mut row_flags: Vec<Vec<bool>> = Vec::new();
                let mut r: usize = 0;
                while r < val.len()
                    invariant
                        r <= val.len(),
                        runs == val.deep_view(),
                        runs.len() == val.len(),
                        run_transitions.len() == val.len(),
                        forall|a: int| 0 <= a < val.len() ==> runs[a] == (#[trigger] val[a])@,
                        forall|a: int|
                            0 <= a < val.len() ==> (#[trigger] run_transitions[a]).deep_view()
                                == val[a]@.all_transitions(),
                        row_keys.len() == r,
                        row_flags.len() == r,
                        forall|a: int|
                            0 <= a < r ==> (#[trigger] row_keys[a]).deep_view() == run_keys(
                                runs[a],
                                use_transition_data,
                            ),
                        forall|a: int| 0 <= a < r ==> (#[trigger] row_flags[a])@ == run_flags(runs[a]),
                    decreases val.len() - r,
                {
                    row_keys.push(keys_of(&run_transitions[r], use_transition_data));
                    row_flags.push(flags_of(&run_transitions[r]));
                    r += 1;
                }
                proof {
                    lemma_deep_view_index(row_keys);
                    lemma_columns_deep_view(row_flags);
                    assert(row_keys.deep_view() =~= runs.map_values(
                        |run: TestModelView| run_keys(run, use_transition_data),
                    ));
                    assert(row_flags.deep_view() =~= runs.map_values(
                        |run: TestModelView| run_flags(run),
                    ));
                    assert forall|a: int| 0 <= a < row_keys.len() implies row_keys[a].len()
                        == row_flags[a].len() by {
                        lemma_deep_view_index(row_keys[a]);
                    }
                }
                let (keys, columns) = columns_of_rows(&row_keys, &row_flags);
                proof {
                    lemma_columns_deep_view(columns);
                }
                CoverageMatrix::from_parts(error_vector, test_id_vector, keys, columns)
            },
            Some(windows) => {
                let ghost ws = windows.deep_view();
                proof {
                    lemma_deep_view_index(*windows);
                }
                let mut all_keys: Vec<String> = Vec::new();
                let mut i: usize = 0;
                while i < windows.len()
                    invariant
                        i <= windows.len(),
                        ws == windows.deep_view(),
                        ws.len() == windows.len(),
                        forall|a: int|
                            0 <= a < windows.len() ==> ws[a] == (#[trigger] windows[a]).deep_view(),
                        all_keys.len() == i,
                        forall|a: int|
                            0 <= a < i ==> (#[trigger] all_keys[a])@ == window_key(
                                ws[a],
                                use_transition_data,
                            ),
                    decreases windows.len() - i,
                {
                    all_keys.push(key_of_window(&windows[i], use_transition_data));
                    i += 1;
                }
                let ghost everything = all_keys.deep_view();
                let ghost column_of = |i: int|
                    runs.map_values(
                        |run: TestModelView| window_covered(run.all_transitions(), ws[i]),
                    );
                proof {
                    lemma_deep_view_index(all_keys);
                    assert(everything =~= ws.map_values(
                        |w: Seq<TransitionView>| window_key(w, use_transition_data),
                    ));
                }
                let picked = first_places(&all_keys);
                let ghost places = as_places(picked@);
                let mut keys: Vec<String> = Vec::new();
                let mut columns: Vec<Vec<bool>> = Vec::new();
                let mut p: usize = 0;
                while p < picked.len()
                    invariant
                        p <= picked.len(),
                        runs == val.deep_view(),
                        runs.len() == val.len(),
                        run_transitions.len() == val.len(),
                        ws == windows.deep_view(),
                        ws.len() == windows.len(),
                        all_keys.len() == windows.len(),
                        everything == all_keys.deep_view(),
                        places == as_places(picked@),
                        column_of == |i: int|
                            runs.map_values(
                                |run: TestModelView| window_covered(run.all_transitions(), ws[i]),
                            ),
                        forall|a: int| 0 <= a < val.len() ==> runs[a] == (#[trigger] val[a])@,
                        forall|a: int|
                            0 <= a < val.len() ==> (#[trigger] run_transitions[a]).deep_view()
                                == val[a]@.all_transitions(),
                        forall|a: int|
                            0 <= a < windows.len() ==> ws[a] == (#[trigger] windows[a]).deep_view(),
                        forall|a: int|
                            0 <= a < all_keys.len() ==> everything[a] == (#[trigger] all_keys[a])@,
                        forall|q: int| 0 <= q < picked.len() ==> (#[trigger] picked[q]) < all_keys.len(),
                        keys.len() == p,
                        columns.len() == p,
                        forall|q: int| 0 <= q < p ==> (#[trigger] keys[q])@ == everything[places[q]],
                        forall|q: int|
                            0 <= q < p ==> (#[trigger] columns[q])@ == column_of(places[q]),
                    decreases picked.len() - p,
                {
                    let place = picked[p];
                    let window = &windows[place];
                    let mut column: Vec<bool> = Vec::new();
                    let mut r: usize = 0;
                    while r < val.len()
                        invariant
                            r <= val.len(),
                            runs.len() == val.len(),
                            run_transitions.len() == val.len(),
                            forall|a: int| 0 <= a < val.len() ==> runs[a] == (#[trigger] val[a])@,
                            forall|a: int|
                                0 <= a < val.len() ==> (#[trigger] run_transitions[a]).deep_view()
                                    == val[a]@.all_transitions(),
                            column.len() == r,
                            forall|a: int|
                                0 <= a < r ==> (#[trigger] column[a]) == window_covered(
                                    runs[a].all_transitions(),
                                    window.deep_view(),
                                ),
                        decreases val.len() - r,
                    {
                        column.push(covers_window(&run_transitions[r], window));
                        r += 1;
                    }
                    proof {
                        assert(places[p as int] == place);
                        assert(window.deep_view() == ws[place as int]);
                        assert(column@ =~= column_of(place as int));
                    }
                    keys.push(all_keys[place].clone());
                    columns.push(column);
                    p += 1;
                }
                proof {
                    lemma_deep_view_index(keys);
                    lemma_columns_deep_view(columns);
                    lemma_first_wins(
                        everything,
                        places,
                        column_of,
                        keys.deep_view(),
                        columns.deep_view(),
                    );
                    assert forall|c: int| 0 <= c < columns.len() implies (
                    #[trigger] columns.deep_view()[c]).len() == error_vector.len() by {
                        assert(columns[c]@ == column_of(places[c]));
                    }
                }
                CoverageMatrix::from_parts(error_vector, test_id_vector, keys, columns)
            },
        }
    }
}

/// Whether `steps` holds a step that equals `step`.
pub fn holds_step(steps: &Vec<Step>, step: &Step) -> (holds: bool)
    ensures
        holds == steps.deep_view().contains(step@),
{
    proof {
        lemma_deep_view_index(*steps);
    }
    let mut i: usize = 0;
    while i < steps.len()
        invariant
            i <= steps.len(),
            steps.deep_view().len() == steps.len(),
            forall|a: int| 0 <= a < steps.len() ==> steps.deep_view()[a] == (#[trigger] steps[a])@,
            forall|a: int| 0 <= a < i ==> steps.deep_view()[a] != step@,
        decreases steps.len() - i,
    {
        if steps[i] == *step {
            proof {
                assert(steps.deep_view()[i as int] == step@);
            }
            return true;
        }
        i += 1;
    }
    false
}

/// Whether a trace with the given steps covers `window`.
fn covers_steps(steps: &Vec<Step>, window: &Vec<Step>) -> (covered: bool)
    ensures
        covered == step_window_covered(steps.deep_view(), window.deep_view()),
{
    proof {
        lemma_deep_view_index(*window);
    }
    let mut i: usize = 0;
    while i < window.len()
        invariant
            i <= window.len(),
            window.deep_view().len() == window.len(),
            forall|a: int| 0 <= a < window.len() ==> window.deep_view()[a] == (#[trigger] window[a])@,
            forall|a: int|
                0 <= a < i ==> steps.deep_view().contains(#[trigger] window.deep_view()[a]),
        decreases window.len() - i,
    {
        if !holds_step(steps, &window[i]) {
            proof {
                assert(!steps.deep_view().contains(window.deep_view()[i as int]));
            }
            return false;
        }
        i += 1;
    }
    true
}

/// A list of `n` flags that are all set.
fn all_set(n: usize) -> (flags: Vec<bool>)
    ensures
        flags.len() == n,
        forall|a: int| 0 <= a < n ==> #[trigger] flags[a],
{
    let mut flags: Vec<bool> = Vec::new();
    let mut i: usize = 0;
    while i < n
        invariant
            i <= n,
            flags.len() == i,
            forall|a: int| 0 <= a < i ==> #[trigger] flags[a],
        decreases n - i,
    {
        flags.push(true);
        i += 1;
    }
    flags
}

impl CoverageMatrix {
    /// The coverage matrix of a list of traces: without windows the one with a
    /// column for each step label, with windows the one with a column for each
    /// window of steps.
    pub fn from_traces(
        test_cases: &Vec<TestCase>,
        steps_to_include: Option<&Vec<Vec<Step>>>,
        use_transition_data: bool,
    ) -> (matrix: CoverageMatrix)
        ensures
            matrix@ == traces_matrix(
                test_cases.deep_view(),
                steps_to_include.deep_view(),
                use_transition_data,
            ),
            matrix@.wf(),
    {
        let ghost cases = test_cases.deep_view();
        proof {
            lemma_deep_view_index(*test_cases);
        }
        let mut error_vector: Vec<bool> = Vec::new();
        let mut test_id_vector: Vec<i64> = Vec::new();
        let mut r: usize = 0;
        while r < test_cases.len()
            invariant
                r <= test_cases.len(),
                cases == test_cases.deep_view(),
                cases.len() == test_cases.len(),
                forall|a: int| 0 <= a < test_cases.len() ==> cases[a] == (#[trigger] test_cases[a])@,
                error_vector.len() == r,
                test_id_vector.len() == r,
                forall|a: int| 0 <= a < r ==> (#[trigger] error_vector[a]) == case_failed(cases[a]),
                forall|a: int| 0 <= a < r ==> (#[trigger] test_id_vector[a]) == case_id(cases[a]),
            decreases test_cases.len() - r,
        {
            error_vector.push(!test_cases[r].has_passed());
            let id: i64 = match test_cases[r].id {
                Some(id) => id,
                None => -1,
            };
            test_id_vector.push(id);
            r += 1;
        }
        proof {
            assert(error_vector@ =~= cases.map_values(|case: TestCaseView| case_failed(case)));
            assert(test_id_vector@ =~= cases.map_values(|case: TestCaseView| case_id(case)));
        }
        match steps_to_include {
            None => {
                let mut row_keys: Vec<Vec<String>> = Vec::new();
                let mut row_flags: Vec<Vec<bool>> = Vec::new();
                let mut r: usize = 0;
                while r < test_cases.len()
                    invariant
                        r <= test_cases.len(),
                        cases == test_cases.deep_view(),
                        cases.len() == test_cases.len(),
                        forall|a: int|
                            0 <= a < test_cases.len() ==> cases[a] == (#[trigger] test_cases[a])@,
                        row_keys.len() == r,
                        row_flags.len() == r,
                        forall|a: int|
                            0 <= a < r ==> (#[trigger] row_keys[a]).deep_view() == case_labels(
                                cases[a],
                                use_transition_data,
                            ),
                        forall|a: int|
                            0 <= a < r ==> (#[trigger] row_flags[a]).len() == row_keys[a].len()
                                && forall|b: int| 0 <= b < row_flags[a].len() ==> row_flags[a][b],
                    decreases test_cases.len() - r,
                {
                    let labels = test_cases[r].get_steps(use_transition_data);
                    let flags = all_set(labels.len());
                    row_keys.push(labels);
                    row_flags.push(flags);
                    r += 1;
                }
                let (keys, columns) = columns_of_rows(&row_keys, &row_flags);
                proof {
                    lemma_deep_view_index(row_keys);
                    lemma_columns_deep_view(row_flags);
                    lemma_columns_deep_view(columns);
                    let rk = row_keys.deep_view();
                    let rf = row_flags.deep_view();
                    let built = rows_columns(rk, rf);
                    let target = traces_matrix(cases, None, use_transition_data).data;
                    assert forall|k: Seq<char>| built.dom().contains(k) <==> target.dom().contains(
                        k,
                    ) by {
                        if built.dom().contains(k) {
                            let a = choose|a: int| 0 <= a < rk.len() && (#[trigger] rk[a]).contains(k);
                            assert(case_labels(cases[a], use_transition_data).contains(k));
                        }
                        if target.dom().contains(k) {
                            let a = choose|a: int|
                                0 <= a < cases.len() && case_labels(
                                    #[trigger] cases[a],
                                    use_transition_data,
                                ).contains(k);
                            assert(rk[a].contains(k));
                        }
                    }
                    assert forall|k: Seq<char>| built.dom().contains(k) implies built[k]
                        == target[k] by {
                        assert forall|a: int| 0 <= a < rk.len() implies row_covers(
                            rk[a],
                            rf[a],
                            k,
                        ) == case_labels(cases[a], use_transition_data).contains(k) by {
                            if rk[a].contains(k) {
                                let i = rk[a].index_of(k);
                                assert(0 <= i < rk[a].len() && rk[a][i] == k);
                                lemma_first_place_exists(rk[a], i);
                                lemma_deep_view_index(row_keys[a]);
                                assert(row_flags[a][first_place(rk[a], k)]);
                            }
                        }
                        assert(built[k] =~= target[k]);
                    }
                    assert(built =~= target);
                }
                CoverageMatrix::from_parts(error_vector, test_id_vector, keys, columns)
            },
            Some(windows) => {
                let ghost ws = windows.deep_view();
                proof {
                    lemma_deep_view_index(*windows);
                }
                let mut all_keys: Vec<String> = Vec::new();
                let mut i: usize = 0;
                while i < windows.len()
                    invariant
                        i <= windows.len(),
                        ws == windows.deep_view(),
                        ws.len() == windows.len(),
                        forall|a: int|
                            0 <= a < windows.len() ==> ws[a] == (#[trigger] windows[a]).deep_view(),
                        all_keys.len() == i,
                        forall|a: int|
                            0 <= a < i ==> (#[trigger] all_keys[a])@ == step_window_key(
                                ws[a],
                                use_transition_data,
                            ),
                    decreases windows.len() - i,
                {
                    let window = &windows[i];
                    let mut labels: Vec<String> = Vec::new();
                    let mut j: usize = 0;
                    while j < window.len()
                        invariant
                            j <= window.len(),
                            labels.len() == j,
                            forall|a: int|
                                0 <= a < j ==> (#[trigger] labels[a])@ == full_label(
                                    window[a]@,
                                    use_transition_data,
                                ),
                        decreases window.len() - j,
                    {
                        labels.push(window[j].get_full_label(use_transition_data));
                        j += 1;
                    }
                    proof {
                        lemma_deep_view_index(labels);
                        lemma_deep_view_index(*window);
                        assert(labels.deep_view() =~= window.deep_view().map_values(
                            |s: StepView| full_label(s, use_transition_data),
                        ));
                    }
                    all_keys.push(join_strings(&labels, " -> "));
                    i += 1;
                }
                let ghost everything = all_keys.deep_view();
                let ghost column_of = |i: int|
                    cases.map_values(|case: TestCaseView| step_window_covered(case.steps, ws[i]));
                proof {
                    lemma_deep_view_index(all_keys);
                    assert(everything =~= ws.map_values(
                        |w: Seq<StepView>| step_window_key(w, use_transition_data),
                    ));
                }
                let picked = first_places(&all_keys);
                let ghost places = as_places(picked@);
                let mut keys: Vec<String> = Vec::new();
                let mut columns: Vec<Vec<bool>> = Vec::new();
                let mut p: usize = 0;
                while p < picked.len()
                    invariant
                        p <= picked.len(),
                        cases == test_cases.deep_view(),
                        cases.len() == test_cases.len(),
                        ws == windows.deep_view(),
                        ws.len() == windows.len(),
                        all_keys.len() == windows.len(),
                        everything == all_keys.deep_view(),
                        places == as_places(picked@),
                        column_of == |i: int|
                            cases.map_values(
                                |case: TestCaseView| step_window_covered(case.steps, ws[i]),
                            ),
                        forall|a: int|
                            0 <= a < test_cases.len() ==> cases[a] == (#[trigger] test_cases[a])@,
                        forall|a: int|
                            0 <= a < windows.len() ==> ws[a] == (#[trigger] windows[a]).deep_view(),
                        forall|a: int|
                            0 <= a < all_keys.len() ==> everything[a] == (#[trigger] all_keys[a])@,
                        forall|q: int| 0 <= q < picked.len() ==> (#[trigger] picked[q]) < all_keys.len(),
                        keys.len() == p,
                        columns.len() == p,
                        forall|q: int| 0 <= q < p ==> (#[trigger] keys[q])@ == everything[places[q]],
                        forall|q: int|
                            0 <= q < p ==> (#[trigger] columns[q])@ == column_of(places[q]),
                    decreases picked.len() - p,
                {
                    let place = picked[p];
                    let window = &windows[place];
                    let mut column: Vec<bool> = Vec::new();
                    let mut r: usize = 0;
                    while r < test_cases.len()
                        invariant
                            r <= test_cases.len(),
                            cases.len() == test_cases.len(),
                            forall|a: int|
                                0 <= a < test_cases.len() ==> cases[a] == (#[trigger] test_cases[a])@,
                            column.len() == r,
                            forall|a: int|
                                0 <= a < r ==> (#[trigger] column[a]) == step_window_covered(
                                    cases[a].steps,
                                    window.deep_view(),
                                ),
                        decreases test_cases.len() - r,
                    {
                        column.push(covers_steps(&test_cases[r].steps, window));
                        r += 1;
                    }
                    proof {
                        assert(places[p as int] == place);
                        assert(window.deep_view() == ws[place as int]);
                        assert(column@ =~= column_of(place as int));
                    }
                    keys.push(all_keys[place].clone());
                    columns.push(column);
                    p += 1;
                }
                proof {
                    lemma_deep_view_index(keys);
                    lemma_columns_deep_view(columns);
                    lemma_first_wins(
                        everything,
                        places,
                        column_of,
                        keys.deep_view(),
                        columns.deep_view(),
                    );
                    assert forall|c: int| 0 <= c < columns.len() implies (
                    #[trigger] columns.deep_view()[c]).len() == error_vector.len() by {
                        assert(columns[c]@ == column_of(places[c]));
                    }
                }
                CoverageMatrix::from_parts(error_vector, test_id_vector, keys, columns)
            },
        }
    }
}

/// The matrix of a list of coverage runs and the matrix of a list of traces
/// are well-formed: each of their columns has one entry for each run.
pub proof fn law_source_matrices_well_formed(
    runs: Seq<TestModelView>,
    transition_windows: Option<Seq<Seq<TransitionView>>>,
    cases: Seq<TestCaseView>,
    step_windows: Option<Seq<Seq<StepView>>>,
    use_transition_data: bool,
)
    ensures
        model_matrix(runs, transition_windows, use_transition_data).wf(),
        model_matrix(runs, transition_windows, use_transition_data).number_of_tests()
            == runs.len(),
        traces_matrix(cases, step_windows, use_transition_data).wf(),
        traces_matrix(cases, step_windows, use_transition_data).number_of_tests() == cases.len(),
{
}

} // verus!
