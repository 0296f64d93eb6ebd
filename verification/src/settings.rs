//! What the analysis is configured with.
use crate::correlation::{first_true, lemma_first_true, lemma_no_true};
use crate::models::test_case::{ParamValue, ParamValueView};
use crate::text::{parse_integer, parsed_integer, same_text};
use crate::views::lemma_deep_view_index;
use config::ConfigError;
use vstd::prelude::*;
use vstd::string::*;

verus! {

/// A similarity threshold, held as the fraction `numerator / denominator`. A
/// denominator of zero makes it a threshold that no similarity exceeds, unless
/// the numerator is negative.
#[derive(Debug, Clone, Copy, PartialEq, Eq, Structural)]
pub struct Threshold {
    pub numerator: i32,
    pub denominator: u32,
}

impl Threshold {
    pub fn new(numerator: i32, denominator: u32) -> (threshold: Threshold)
        ensures
            threshold.numerator == numerator,
            threshold.denominator == denominator,
    {
        Threshold { numerator, denominator }
    }
}

/// The settings of the analysis.
#[derive(Debug)]
pub struct Analysis {
    pub similarity_threshold: Threshold,
    pub progress_endpoint: String,
    pub use_thread_for_progress: bool,
    pub use_thread_for_training: bool,
    pub number_of_pairs_to_include_for_order: i32,
    pub use_steps_instead_of_transitions_for_analysis: bool,
    pub use_transition_data: bool,
    pub return_highest_similarity_if_nothing_found: bool,
}

/// What an `Analysis` stands for.
pub struct AnalysisView {
    pub similarity_threshold: Threshold,
    pub progress_endpoint: Seq<char>,
    pub use_thread_for_progress: bool,
    pub use_thread_for_training: bool,
    pub number_of_pairs_to_include_for_order: i32,
    pub use_steps_instead_of_transitions_for_analysis: bool,
    pub use_transition_data: bool,
    pub return_highest_similarity_if_nothing_found: bool,
}

impl DeepView for Analysis {
    type V = AnalysisView;

    open spec fn deep_view(&self) -> AnalysisView {
        AnalysisView {
            similarity_threshold: self.similarity_threshold,
            progress_endpoint: self.progress_endpoint@,
            use_thread_for_progress: self.use_thread_for_progress,
            use_thread_for_training: self.use_thread_for_training,
            number_of_pairs_to_include_for_order: self.number_of_pairs_to_include_for_order,
            use_steps_instead_of_transitions_for_analysis: self.use_steps_instead_of_transitions_for_analysis,
            use_transition_data: self.use_transition_data,
            return_highest_similarity_if_nothing_found: self.return_highest_similarity_if_nothing_found,
        }
    }
}

impl View for Analysis {
    type V = AnalysisView;

    open spec fn view(&self) -> AnalysisView {
        self.deep_view()
    }
}

/// The settings that hold where nothing else was configured: a threshold of
/// three quarters, no pairs, labels without transition data, nothing on a
/// background worker.
pub open spec fn default_analysis() -> AnalysisView {
    AnalysisView {
        similarity_threshold: Threshold { numerator: 3, denominator: 4 },
        progress_endpoint: "http://localhost/analyse/train/progress"@,
        use_thread_for_progress: false,
        use_thread_for_training: false,
        number_of_pairs_to_include_for_order: 0,
        use_steps_instead_of_transitions_for_analysis: false,
        use_transition_data: false,
        return_highest_similarity_if_nothing_found: false,
    }
}

impl Clone for Analysis {
    fn clone(&self) -> (copy: Self)
        ensures
            copy@ == self@,
    {
        Analysis {
            similarity_threshold: self.similarity_threshold,
            progress_endpoint: self.progress_endpoint.clone(),
            use_thread_for_progress: self.use_thread_for_progress,
            use_thread_for_training: self.use_thread_for_training,
            number_of_pairs_to_include_for_order: self.number_of_pairs_to_include_for_order,
            use_steps_instead_of_transitions_for_analysis: self.use_steps_instead_of_transitions_for_analysis,
            use_transition_data: self.use_transition_data,
            return_highest_similarity_if_nothing_found: self.return_highest_similarity_if_nothing_found,
        }
    }
}

impl Analysis {
    pub fn set_similarity_threshold(&mut self, x: Threshold)
        ensures
            final(self)@ == (AnalysisView { similarity_threshold: x, ..old(self)@ }),
    {
        self.similarity_threshold = x;
    }

    pub fn set_progress_endpoint(&mut self, x: String)
        ensures
            final(self)@ == (AnalysisView { progress_endpoint: x@, ..old(self)@ }),
    {
        self.progress_endpoint = x;
    }

    pub fn set_use_thread_for_training(&mut self, x: bool)
        ensures
            final(self)@ == (AnalysisView { use_thread_for_training: x, ..old(self)@ }),
    {
        self.use_thread_for_training = x;
    }
}

/// The settings that can be set at run time from a map of names and values.
#[derive(Debug, Clone, Copy, PartialEq, Eq, Structural)]
pub enum Setting {
    ProgressEndpoint,
    UseThreadForTraining,
    UseStepsInsteadOfTransitionsForAnalysis,
    UseTransitionData,
    NumberOfPairsToIncludeForOrder,
    ReturnHighestSimilarityIfNothingFound,
}

/// The name under which a setting stands in a map.
pub open spec fn setting_name(setting: Setting) -> Seq<char> {
    match setting {
        Setting::ProgressEndpoint => "progress_endpoint"@,
        Setting::UseThreadForTraining => "use_thread_for_training"@,
        Setting::UseStepsInsteadOfTransitionsForAnalysis => "use_steps_instead_of_transitions_for_analysis"@,
        Setting::UseTransitionData => "use_transition_data"@,
        Setting::NumberOfPairsToIncludeForOrder => "number_of_pairs_to_include_for_order"@,
        Setting::ReturnHighestSimilarityIfNothingFound => "return_highest_similarity_if_nothing_found"@,
    }
}

/// The value that a map gives for a name: that of the first entry with the
/// name.
pub open spec fn looked_up(map: Seq<(Seq<char>, ParamValueView)>, name: Seq<char>) -> Option<
    ParamValueView,
> {
    match first_true(map.map_values(|e: (Seq<char>, ParamValueView)| e.0 == name)) {
        Some(i) => Some(map[i].1),
        None => None,
    }
}

/// The boolean that a value stands for: a boolean itself, or the text `true`
/// or `false`.
pub open spec fn as_flag(value: ParamValueView) -> Option<bool> {
    match value {
        ParamValueView::Bool(b) => Some(b),
        ParamValueView::Text(s) => if s == "true"@ {
            Some(true)
        } else if s == "false"@ {
            Some(false)
        } else {
            None
        },
        _ => None,
    }
}

/// A 64-bit integer as a 32-bit integer, where it is one.
pub open spec fn narrowed(parsed: Option<i64>) -> Option<i32> {
    match parsed {
        Some(n) => if -0x8000_0000 <= n <= 0x7FFF_FFFF {
            Some(n as i32)
        } else {
            None
        },
        None => None,
    }
}

/// The 32-bit integer that a value stands for: a number or a text that is the
/// decimal notation of one.
pub open spec fn as_count(value: ParamValueView) -> Option<i32> {
    narrowed(
        match value {
            ParamValueView::Number(s) => parsed_integer(s),
            ParamValueView::Text(s) => parsed_integer(s),
            _ => None,
        },
    )
}

/// The text that a value stands for: a text itself.
pub open spec fn as_text(value: ParamValueView) -> Option<Seq<char>> {
    match value {
        ParamValueView::Text(s) => Some(s),
        _ => None,
    }
}

/// The map names a setting and gives it a value that cannot be read.
pub open spec fn unreadable(map: Seq<(Seq<char>, ParamValueView)>, setting: Setting) -> bool {
    match looked_up(map, setting_name(setting)) {
        Some(value) => match setting {
            Setting::ProgressEndpoint => as_text(value) is None,
            Setting::NumberOfPairsToIncludeForOrder => as_count(value) is None,
            _ => as_flag(value) is None,
        },
        None => false,
    }
}

/// The flag that a map gives for a setting, or the one that holds already
/// where the map does not name the setting or its value cannot be read.
pub open spec fn updated_flag(
    map: Seq<(Seq<char>, ParamValueView)>,
    setting: Setting,
    held: bool,
) -> bool {
    match looked_up(map, setting_name(setting)) {
        Some(value) => match as_flag(value) {
            Some(flag) => flag,
            None => held,
        },
        None => held,
    }
}

/// The settings after a map of names and values was applied to them. A
/// setting that the map does not name stays, and so does one whose value
/// cannot be read. The threshold and the use of a worker for progress are not
/// set from a map.
pub open spec fn applied(held: AnalysisView, map: Seq<(Seq<char>, ParamValueView)>) -> AnalysisView {
    AnalysisView {
        similarity_threshold: held.similarity_threshold,
        progress_endpoint: match looked_up(map, setting_name(Setting::ProgressEndpoint)) {
            Some(value) => match as_text(value) {
                Some(text) => text,
                None => held.progress_endpoint,
            },
            None => held.progress_endpoint,
        },
        use_thread_for_progress: held.use_thread_for_progress,
        use_thread_for_training: updated_flag(
            map,
            Setting::UseThreadForTraining,
            held.use_thread_for_training,
        ),
        number_of_pairs_to_include_for_order: match looked_up(
            map,
            setting_name(Setting::NumberOfPairsToIncludeForOrder),
        ) {
            Some(value) => match as_count(value) {
                Some(count) => count,
                None => held.number_of_pairs_to_include_for_order,
            },
            None => held.number_of_pairs_to_include_for_order,
        },
        use_steps_instead_of_transitions_for_analysis: updated_flag(
            map,
            Setting::UseStepsInsteadOfTransitionsForAnalysis,
            held.use_steps_instead_of_transitions_for_analysis,
        ),
        use_transition_data: updated_flag(map, Setting::UseTransitionData, held.use_transition_data),
        return_highest_similarity_if_nothing_found: updated_flag(
            map,
            Setting::ReturnHighestSimilarityIfNothingFound,
            held.return_highest_similarity_if_nothing_found,
        ),
    }
}

/// The settings in the order in which a map is applied to them.
pub open spec fn settings_in_order() -> Seq<Setting> {
    seq![
        Setting::ProgressEndpoint,
        Setting::UseThreadForTraining,
        Setting::UseStepsInsteadOfTransitionsForAnalysis,
        Setting::UseTransitionData,
        Setting::NumberOfPairsToIncludeForOrder,
        Setting::ReturnHighestSimilarityIfNothingFound,
    ]
}

/// The settings that a map gives an unreadable value for, in order.
pub open spec fn refused(map: Seq<(Seq<char>, ParamValueView)>) -> Seq<Setting> {
    settings_in_order().filter(|setting: Setting| unreadable(map, setting))
}

/// The value that a map gives for a name.
pub fn look_up<'a>(map: &'a Vec<(String, ParamValue)>, name: &str) -> (found: Option<&'a ParamValue>)
    ensures
        found.deep_view() == looked_up(map.deep_view(), name@),
{
    let ghost flags = map.deep_view().map_values(|e: (Seq<char>, ParamValueView)| e.0 == name@);
    proof {
        lemma_deep_view_index(*map);
    }
    let mut i: usize = 0;
    while i < map.len()
        invariant
            i <= map.len(),
            map.deep_view().len() == map.len(),
            forall|a: int| 0 <= a < map.len() ==> map.deep_view()[a] == (#[trigger] map[a]).deep_view(),
            flags == map.deep_view().map_values(|e: (Seq<char>, ParamValueView)| e.0 == name@),
            forall|a: int| 0 <= a < i ==> !flags[a],
        decreases map.len() - i,
    {
        if same_text(map[i].0.as_str(), name) {
            proof {
                assert(flags[i as int]);
                lemma_first_true(flags, i as int);
            }
            return Some(&map[i].1);
        }
        i += 1;
    }
    proof {
        lemma_no_true(flags);
    }
    None
}

/// The boolean that a value stands for.
pub fn parse_bool(val: &ParamValue) -> (parsed: Option<bool>)
    ensures
        parsed == as_flag(val@),
{
    match val {
        ParamValue::Bool(value) => Some(*value),
        ParamValue::Text(text) => {
            if same_text(text.as_str(), "true") {
                Some(true)
            } else if same_text(text.as_str(), "false") {
                Some(false)
            } else {
                None
            }
        },
        _ => None,
    }
}

/// A parsed integer as a 32-bit integer: the integer itself where it lies
/// within 32 bits, none where it does not or where nothing was parsed.
pub fn narrow(parsed: Option<i64>) -> (count: Option<i32>)
    ensures
        count == narrowed(parsed),
{
    match parsed {
        Some(n) => {
            if -0x8000_0000 <= n && n <= 0x7FFF_FFFF {
                Some(n as i32)
            } else {
                None
            }
        },
        None => None,
    }
}

/// The 32-bit integer that a value stands for.
pub fn parse_i32(val: &ParamValue) -> (parsed: Option<i32>)
    ensures
        parsed == as_count(val@),
{
    match val {
        ParamValue::Number(text) => narrow(parse_integer(text.as_str())),
        ParamValue::Text(text) => narrow(parse_integer(text.as_str())),
        _ => narrow(None),
    }
}

impl Analysis {
    /// Reads one flag from a map; notes the setting where its value cannot be
    /// read.
    fn flag_from_map(
        map: &Vec<(String, ParamValue)>,
        setting: Setting,
        name: &str,
        held: bool,
        failed: &mut Vec<Setting>,
    ) -> (flag: bool)
        requires
            name@ == setting_name(setting),
            setting != Setting::ProgressEndpoint,
            setting != Setting::NumberOfPairsToIncludeForOrder,
        ensures
            flag == updated_flag(map.deep_view(), setting, held),
            final(failed)@ == if unreadable(map.deep_view(), setting) {
                old(failed)@.push(setting)
            } else {
                old(failed)@
            },
    {
        match look_up(map, name) {
            Some(value) => match parse_bool(value) {
                Some(flag) => flag,
                None => {
                    failed.push(setting);
                    held
                },
            },
            None => held,
        }
    }

    /// Applies a map of names and values to the settings. A setting whose
    /// value cannot be read stays as it is; these settings are returned.
    pub fn parse_from_map(&mut self, settings_map: &Vec<(String, ParamValue)>) -> (failed: Vec<
        Setting,
    >)
        ensures
            final(self)@ == applied(old(self)@, settings_map.deep_view()),
            failed@ == refused(settings_map.deep_view()),
    {
        let ghost map = settings_map.deep_view();
        let ghost order = settings_in_order();
        let ghost unread = |setting: Setting| unreadable(map, setting);
        let mut failed: Vec<Setting> = Vec::new();
        proof {
            assert(order.take(0).filter(unread) =~= Seq::<Setting>::empty());
        }
        match look_up(settings_map, "progress_endpoint") {
            Some(value) => match value {
                ParamValue::Text(text) => {
                    self.progress_endpoint = text.clone();
                },
                _ => {
                    failed.push(Setting::ProgressEndpoint);
                },
            },
            None => {},
        }
        proof {
            lemma_filter_step(order, unread, 0);
        }
        self.use_thread_for_training = Analysis::flag_from_map(
            settings_map,
            Setting::UseThreadForTraining,
            "use_thread_for_training",
            self.use_thread_for_training,
            &mut failed,
        );
        proof {
            lemma_filter_step(order, unread, 1);
        }
        self.use_steps_instead_of_transitions_for_analysis = Analysis::flag_from_map(
            settings_map,
            Setting::UseStepsInsteadOfTransitionsForAnalysis,
            "use_steps_instead_of_transitions_for_analysis",
            self.use_steps_instead_of_transitions_for_analysis,
            &mut failed,
        );
        proof {
            lemma_filter_step(order, unread, 2);
        }
        self.use_transition_data = Analysis::flag_from_map(
            settings_map,
            Setting::UseTransitionData,
            "use_transition_data",
            self.use_transition_data,
            &mut failed,
        );
        proof {
            lemma_filter_step(order, unread, 3);
        }
        match look_up(settings_map, "number_of_pairs_to_include_for_order") {
            Some(value) => match parse_i32(value) {
                Some(count) => {
                    self.number_of_pairs_to_include_for_order = count;
                },
                None => {
                    failed.push(Setting::NumberOfPairsToIncludeForOrder);
                },
            },
            None => {},
        }
        proof {
            lemma_filter_step(order, unread, 4);
        }
        self.return_highest_similarity_if_nothing_found = Analysis::flag_from_map(
            settings_map,
            Setting::ReturnHighestSimilarityIfNothingFound,
            "return_highest_similarity_if_nothing_found",
            self.return_highest_similarity_if_nothing_found,
            &mut failed,
        );
        proof {
            lemma_filter_step(order, unread, 5);
            assert(order.take(6) =~= order);
        }
        failed
    }
}

/// Filtering the first `i + 1` items is filtering the first `i` and adding
/// item `i` where it passes.
pub proof fn lemma_filter_step<A>(s: Seq<A>, keep: spec_fn(A) -> bool, i: int)
    requires
        0 <= i < s.len(),
    ensures
        s.take(i + 1).filter(keep) == if keep(s[i]) {
            s.take(i).filter(keep).push(s[i])
        } else {
            s.take(i).filter(keep)
        },
{
    assert(s.take(i + 1) =~= s.take(i).push(s[i]));
    s.take(i).lemma_filter_push(s[i], keep);
}

impl Default for Analysis {
    fn default() -> (analysis: Analysis)
        ensures
            analysis@ == default_analysis(),
    {
        Analysis {
            similarity_threshold: Threshold { numerator: 3, denominator: 4 },
            progress_endpoint: String::from_str("http://localhost/analyse/train/progress"),
            use_thread_for_progress: false,
            use_thread_for_training: false,
            number_of_pairs_to_include_for_order: 0,
            use_steps_instead_of_transitions_for_analysis: false,
            use_transition_data: false,
            return_highest_similarity_if_nothing_found: false,
        }
    }
}

/// All settings of the service.
#[derive(Debug)]
pub struct Settings {
    pub debug: bool,
    pub analysis: Analysis,
}

impl Clone for Settings {
    fn clone(&self) -> (copy: Self)
        ensures
            copy.debug == self.debug,
            copy.analysis@ == self.analysis@,
    {
        Settings { debug: self.debug, analysis: self.analysis.clone() }
    }
}

/// The error with which loading a configuration fails.
#[verifier::external_type_specification]
#[verifier::external_body]
pub struct ExConfigError(config::ConfigError);

impl Settings {
    /// The settings that were loaded, or the default settings where loading
    /// them failed.
    pub fn unwrap(wrapped: Result<Settings, ConfigError>) -> (settings: Settings)
        ensures
            match wrapped {
                Ok(loaded) => settings == loaded,
                Err(_) => !settings.debug && settings.analysis@ == default_analysis(),
            },
    {
        match wrapped {
            Ok(s) => s,
            Err(_) => Settings { debug: false, analysis: Analysis::default() },
        }
    }
}

} // verus!
