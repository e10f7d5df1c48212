//! Probe results and the wire shapes a relay reports to the controller.

use vstd::prelude::*;

verus! {

/// Abstract value of an optional string.
pub open spec fn opt_str_view(o: Option<String>) -> Option<Seq<char>> {
    match o {
        Some(s) => Some(s@),
        None => None,
    }
}

/// How a single probe ended.
#[derive(Clone, Copy, PartialEq, Eq, Structural, Debug)]
pub enum ResultCategory {
    Success,
    Warning,
    Fail,
}

/// Abstract value of a [`MetricSample`].
pub ghost struct MetricSampleView {
    pub name: Seq<char>,
    pub value: Seq<char>,
}

/// One numeric observation a probe made, as decimal text.
#[derive(Debug, Clone)]
pub struct MetricSample {
    pub name: String,
    pub value: String,
}

impl View for MetricSample {
    type V = MetricSampleView;

    open spec fn view(&self) -> MetricSampleView {
        MetricSampleView { name: self.name@, value: self.value@ }
    }
}

/// Abstract value of a [`TestResult`].
pub ghost struct TestResultView {
    pub target: Seq<char>,
    pub result: ResultCategory,
    pub metrics: Option<Seq<MetricSampleView>>,
}

/// What one probe reported about one target.
#[derive(Debug)]
pub struct TestResult {
    pub target: String,
    pub result: ResultCategory,
    pub metrics: Option<Vec<MetricSample>>,
}

impl View for TestResult {
    type V = TestResultView;

    open spec fn view(&self) -> TestResultView {
        TestResultView {
            target: self.target@,
            result: self.result,
            metrics: match self.metrics {
                Some(ref v) => Some(v@.map_values(|m: MetricSample| m@)),
                None => None,
            },
        }
    }
}

impl TestResult {
    /// A successful probe without metrics.
    pub fn success(target_name: String) -> (r: TestResult)
        ensures
            r@.target == target_name@,
            r@.result == ResultCategory::Success,
            r@.metrics is None,
    {
        TestResult { target: target_name, result: ResultCategory::Success, metrics: None }
    }

    /// A degraded probe without metrics.
    pub fn warning(target_name: String) -> (r: TestResult)
        ensures
            r@.target == target_name@,
            r@.result == ResultCategory::Warning,
            r@.metrics is None,
    {
        TestResult { target: target_name, result: ResultCategory::Warning, metrics: None }
    }

    /// A failed probe without metrics.
    pub fn fail(target_name: String) -> (r: TestResult)
        ensures
            r@.target == target_name@,
            r@.result == ResultCategory::Fail,
            r@.metrics is None,
    {
        TestResult { target: target_name, result: ResultCategory::Fail, metrics: None }
    }

    /// A probe result with an explicit category and metrics.
    pub fn build(target_name: String, result: ResultCategory, metrics: Option<Vec<MetricSample>>)
        -> (r: TestResult)
        ensures
            r@.target == target_name@,
            r@.result == result,
            (r@.metrics matches Some(ms) <==> metrics matches Some(_)),
            metrics matches Some(v) ==> r@.metrics == Some(v@.map_values(|m: MetricSample| m@)),
    {
        TestResult { target: target_name, result, metrics }
    }
}

/// Abstract value of a [`MetricInput`].
pub ghost struct MetricInputView {
    pub name: Seq<char>,
    pub labels: Seq<(Seq<char>, Seq<char>)>,
    pub metric: Seq<char>,
}

/// A labelled metric carried by a heartbeat, its value as decimal text.
#[derive(Debug)]
pub struct MetricInput {
    pub name: String,
    pub labels: Vec<(String, String)>,
    pub metric: String,
}

impl View for MetricInput {
    type V = MetricInputView;

    open spec fn view(&self) -> MetricInputView {
        MetricInputView {
            name: self.name@,
            labels: self.labels@.map_values(|p: (String, String)| p@),
            metric: self.metric@,
        }
    }
}

/// Abstract value of a [`GroupResultInput`].
pub ghost struct GroupResultInputView {
    pub name: Seq<char>,
    pub working: bool,
    pub has_warnings: bool,
    pub error_message: Option<Seq<char>>,
    pub error_detail: Option<Seq<char>>,
    pub metrics: Seq<MetricInputView>,
}

/// One group's aggregated heartbeat entry, relay to controller.
#[derive(Debug)]
pub struct GroupResultInput {
    pub name: String,
    pub working: bool,
    pub has_warnings: bool,
    pub error_message: Option<String>,
    pub error_detail: Option<String>,
    pub metrics: Vec<MetricInput>,
}

impl View for GroupResultInput {
    type V = GroupResultInputView;

    open spec fn view(&self) -> GroupResultInputView {
        GroupResultInputView {
            name: self.name@,
            working: self.working,
            has_warnings: self.has_warnings,
            error_message: opt_str_view(self.error_message),
            error_detail: opt_str_view(self.error_detail),
            metrics: self.metrics@.map_values(|m: MetricInput| m@),
        }
    }
}

/// The earliest wire shape: a group name and whether it works.
#[derive(Debug)]
pub struct GroupResult {
    pub name: String,
    pub working: bool,
}

} // verus!
