//! Relay-side logic: aggregate probe outcomes into heartbeat entries, build
//! controller routes and Kuma pings, and react to the config version the
//! controller piggybacks on every heartbeat response.

use vstd::prelude::*;
use vstd::string::*;

use crate::error::Error;
use crate::model::{GroupResultInput, MetricInput, MetricInputView, MetricSampleView, TestResult,
    TestResultView, ResultCategory};
use crate::text::{dec_str_of, u64_to_dec};

verus! {

/// Abstract value of one probe outcome.
pub open spec fn outcome_view(o: Result<TestResult, Error>) -> Result<
    TestResultView,
    crate::error::ErrorView,
> {
    match o {
        Ok(t) => Ok(t@),
        Err(e) => Err(e@),
    }
}

/// Abstract values of a group's probe outcomes, each with its descriptor.
pub open spec fn outcomes_view(os: Seq<(String, Result<TestResult, Error>)>) -> Seq<
    (Seq<char>, Result<TestResultView, crate::error::ErrorView>),
> {
    os.map_values(|p: (String, Result<TestResult, Error>)| (p.0@, outcome_view(p.1)))
}

/// A group works when no probe failed and none errored.
pub open spec fn group_working(
    os: Seq<(Seq<char>, Result<TestResultView, crate::error::ErrorView>)>,
) -> bool {
    forall|i: int|
        0 <= i < os.len() ==> match (#[trigger] os[i]).1 {
            Ok(t) => t.result != ResultCategory::Fail,
            Err(_) => false,
        }
}

/// A group warns when some probe warned.
pub open spec fn group_has_warnings(
    os: Seq<(Seq<char>, Result<TestResultView, crate::error::ErrorView>)>,
) -> bool {
    exists|i: int|
        0 <= i < os.len() && match (#[trigger] os[i]).1 {
            Ok(t) => t.result == ResultCategory::Warning,
            Err(_) => false,
        }
}

/// The error fields the first `n` outcomes leave behind: a failed probe sets
/// the message, an errored probe sets message and detail; only the last such
/// outcome is preserved.
pub open spec fn error_fields(
    os: Seq<(Seq<char>, Result<TestResultView, crate::error::ErrorView>)>,
    n: int,
) -> (Option<Seq<char>>, Option<Seq<char>>)
    decreases n,
{
    if n <= 0 {
        (None, None)
    } else {
        let prev = error_fields(os, n - 1);
        match os[n - 1].1 {
            Ok(t) => if t.result == ResultCategory::Fail {
                (Some("test '"@ + os[n - 1].0 + "' failed"@), prev.1)
            } else {
                prev
            },
            Err(e) => (Some(e.message), e.details),
        }
    }
}

/// The heartbeat metrics the outcomes carry, in order, each labelled with
/// its probe's target.
pub open spec fn metrics_of_outcomes(
    os: Seq<(Seq<char>, Result<TestResultView, crate::error::ErrorView>)>,
) -> Seq<MetricInputView>
    decreases os.len(),
{
    if os.len() == 0 {
        Seq::empty()
    } else {
        metrics_of_outcomes(os.drop_last()) + outcome_metrics(os.last().1)
    }
}

/// The heartbeat metrics one outcome carries.
pub open spec fn outcome_metrics(
    o: Result<TestResultView, crate::error::ErrorView>,
) -> Seq<MetricInputView> {
    match o {
        Ok(t) => match t.metrics {
            Some(ms) => ms.map_values(
                |m: MetricSampleView| MetricInputView {
                    name: m.name,
                    labels: seq![("test_target"@, t.target)],
                    metric: m.value,
                },
            ),
            None => Seq::empty(),
        },
        Err(_) => Seq::empty(),
    }
}

/// The last `ping_rtt` value among a result's metrics.
pub open spec fn last_ping_in(ms: Seq<MetricSampleView>) -> Option<Seq<char>>
    decreases ms.len(),
{
    if ms.len() == 0 {
        None
    } else if ms.last().name == "ping_rtt"@ {
        Some(ms.last().value)
    } else {
        last_ping_in(ms.drop_last())
    }
}

/// The last `ping_rtt` value among a group's outcomes.
pub open spec fn last_ping_of(
    os: Seq<(Seq<char>, Result<TestResultView, crate::error::ErrorView>)>,
) -> Option<Seq<char>>
    decreases os.len(),
{
    if os.len() == 0 {
        None
    } else {
        let tail_ping = match os.last().1 {
            Ok(t) => match t.metrics {
                Some(ms) => last_ping_in(ms),
                None => None,
            },
            Err(_) => None,
        };
        match tail_ping {
            Some(v) => Some(v),
            None => last_ping_of(os.drop_last()),
        }
    }
}

/// Aggregate one group's probe outcomes into its heartbeat entry, and hand
/// back the group's last observed `ping_rtt` for the Kuma ping.
pub fn evaluate_group(name: String, outcomes: &Vec<(String, Result<TestResult, Error>)>) -> (r: (
    GroupResultInput,
    Option<String>,
))
    ensures
        ({
            let ov = outcomes_view(outcomes@);
            &&& r.0.name == name
            &&& r.0.working == group_working(ov)
            &&& r.0.has_warnings == group_has_warnings(ov)
            &&& crate::model::opt_str_view(r.0.error_message) == error_fields(
                ov,
                ov.len() as int,
            ).0
            &&& crate::model::opt_str_view(r.0.error_detail) == error_fields(
                ov,
                ov.len() as int,
            ).1
            &&& r.0.metrics@.map_values(|m: MetricInput| m@) == metrics_of_outcomes(ov)
            &&& crate::model::opt_str_view(r.1) == last_ping_of(ov)
        }),
{
    let ghost ov = outcomes_view(outcomes@);
    let mut working = true;
    let mut has_warnings = false;
    let mut error_message: Option<String> = None;
    let mut error_detail: Option<String> = None;
    let mut metrics: Vec<MetricInput> = Vec::new();
    let mut last_ping: Option<String> = None;
    let n = outcomes.len();
    let mut i: usize = 0;
    while i < n
        invariant
            0 <= i <= n,
            n == outcomes@.len(),
            ov == outcomes_view(outcomes@),
            ov.len() == n,
            working == group_working(ov.take(i as int)),
            has_warnings == group_has_warnings(ov.take(i as int)),
            crate::model::opt_str_view(error_message) == error_fields(ov, i as int).0,
            crate::model::opt_str_view(error_detail) == error_fields(ov, i as int).1,
            metrics@.map_values(|m: MetricInput| m@) == metrics_of_outcomes(ov.take(i as int)),
            crate::model::opt_str_view(last_ping) == last_ping_of(ov.take(i as int)),
        decreases n - i,
    {
        let pair = &outcomes[i];
        let ghost prev_metrics = metrics@;
        proof {
            assert(ov[i as int] == (pair.0@, outcome_view(pair.1)));
            assert(ov.take(i + 1).drop_last() =~= ov.take(i as int));
            assert(ov.take(i + 1).last() == ov[i as int]);
        }
        match &pair.1 {
            Ok(test) => {
                if matches!(test.result, ResultCategory::Fail) {
                    let mut msg = "test '".to_owned();
                    msg.append(pair.0.as_str());
                    msg.append("' failed");
                    proof {
                        assert(msg@ =~= "test '"@ + ov[i as int].0 + "' failed"@);
                    }
                    error_message = Some(msg);
                    working = false;
                } else if matches!(test.result, ResultCategory::Warning) {
                    has_warnings = true;
                }
                match &test.metrics {
                    Some(samples) => {
                        let m_count = samples.len();
                        let mut j: usize = 0;
                        while j < m_count
                            invariant
                                0 <= j <= m_count,
                                0 <= i < ov.len(),
                                ov[i as int].1 matches Ok(tv) && tv.metrics matches Some(ms)
                                    && ms == samples@.map_values(|m: crate::model::MetricSample| m@)
                                    && ms.len() == m_count && tv.target == test.target@,
                                m_count == samples@.len(),
                                metrics@.map_values(|m: MetricInput| m@) == metrics_of_outcomes(
                                    ov.take(i as int),
                                ) + outcome_metrics(ov[i as int].1).take(j as int),
                                crate::model::opt_str_view(last_ping) == (match last_ping_in(
                                    samples@.map_values(|m: crate::model::MetricSample| m@).take(
                                        j as int,
                                    ),
                                ) {
                                    Some(v) => Some(v),
                                    None => last_ping_of(ov.take(i as int)),
                                }),
                            decreases m_count - j,
                        {
                            let sample = &samples[j];
                            if crate::text::str_equal(sample.name.as_str(), "ping_rtt") {
                                last_ping = Some(sample.value.clone());
                            }
                            let mut labels: Vec<(String, String)> = Vec::new();
                            labels.push(("test_target".to_owned(), test.target.clone()));
                            let entry = MetricInput {
                                name: sample.name.clone(),
                                labels,
                                metric: sample.value.clone(),
                            };
                            proof {
                                let ms = samples@.map_values(
                                    |m: crate::model::MetricSample| m@,
                                );
                                assert(entry@ == outcome_metrics(ov[i as int].1)[j as int]) by {
                                    assert(entry@.labels =~= seq![
                                        ("test_target"@, test.target@),
                                    ]);
                                }
                                assert(ms.take(j + 1).drop_last() =~= ms.take(j as int));
                                assert(ms.take(j + 1).last() == ms[j as int]);
                            }
                            let ghost mprev = metrics@;
                            metrics.push(entry);
                            proof {
                                let a = metrics_of_outcomes(ov.take(i as int));
                                let b = outcome_metrics(ov[i as int].1);
                                assert(metrics@ == mprev.push(entry));
                                assert(b.len() == m_count);
                                assert(b.take(j as int).len() == j);
                                assert(b.take(j + 1).len() == j + 1);
                                assert(mprev.map_values(|m: MetricInput| m@).len() == mprev.len());
                                assert(mprev.map_values(|m: MetricInput| m@).len() == (a + b.take(
                                    j as int,
                                )).len());
                                assert(mprev.len() == a.len() + j);
                                assert forall|q: int|
                                    0 <= q < metrics@.len() implies (#[trigger] metrics@[q])@ == (
                                a + b.take(j + 1))[q] by {
                                    if q < mprev.len() {
                                        assert(metrics@[q] == mprev[q]);
                                        assert(mprev[q]@ == mprev.map_values(
                                            |m: MetricInput| m@,
                                        )[q]);
                                        assert(mprev.map_values(|m: MetricInput| m@)[q] == (a
                                            + b.take(j as int))[q]);
                                        if q >= a.len() {
                                            assert(b.take(j as int)[q - a.len()] == b[q
                                                - a.len()]);
                                            assert(b.take(j + 1)[q - a.len()] == b[q - a.len()]);
                                        }
                                    } else {
                                        assert(metrics@[q] == entry);
                                        assert((a + b.take(j + 1))[q] == b[j as int]);
                                    }
                                }
                                assert(metrics@.map_values(|m: MetricInput| m@) =~= a + b.take(
                                    j + 1,
                                ));
                            }
                            j += 1;
                        }
                        proof {
                            let ms = samples@.map_values(|m: crate::model::MetricSample| m@);
                            assert(ms.take(m_count as int) =~= ms);
                            assert(outcome_metrics(ov[i as int].1).take(m_count as int)
                                =~= outcome_metrics(ov[i as int].1));
                        }
                    },
                    None => {
                        proof {
                            assert(outcome_metrics(ov[i as int].1) =~= Seq::<
                                MetricInputView,
                            >::empty());
                        }
                    },
                }
            },
            Err(err) => {
                working = false;
                error_message = Some(err.message.clone());
                error_detail = crate::storage::copy_opt_string(&err.details);
                proof {
                    assert(outcome_metrics(ov[i as int].1) =~= Seq::<MetricInputView>::empty());
                }
            },
        }
        proof {
            assert(metrics@.map_values(|m: MetricInput| m@) =~= metrics_of_outcomes(
                ov.take(i + 1),
            ));
            if group_working(ov.take(i + 1)) {
                assert(group_working(ov.take(i as int)));
            }
            if group_has_warnings(ov.take(i as int)) {
                assert(group_has_warnings(ov.take(i + 1)));
            }
            assert(crate::model::opt_str_view(last_ping) == last_ping_of(ov.take(i + 1)));
        }
        i += 1;
    }
    proof {
        assert(ov.take(n as int) =~= ov);
    }
    (
        GroupResultInput {
            name,
            working,
            has_warnings,
            error_message,
            error_detail,
            metrics,
        },
        last_ping,
    )
}

/// How many heartbeat entries are unstable: failing or warning.
pub open spec fn unstable_count(rs: Seq<crate::model::GroupResultInputView>) -> int
    decreases rs.len(),
{
    if rs.len() == 0 {
        0
    } else {
        unstable_count(rs.drop_last()) + if rs.last().has_warnings || !rs.last().working {
            1int
        } else {
            0
        }
    }
}

/// Count the unstable heartbeat entries.
pub fn count_unstable(results: &Vec<GroupResultInput>) -> (r: usize)
    ensures
        r == unstable_count(crate::storage::results_view(results@)),
{
    let ghost rv = crate::storage::results_view(results@);
    let mut count: usize = 0;
    let n = results.len();
    let mut i: usize = 0;
    while i < n
        invariant
            0 <= i <= n,
            n == results@.len(),
            rv == crate::storage::results_view(results@),
            rv.len() == n,
            count <= i,
            count == unstable_count(rv.take(i as int)),
        decreases n - i,
    {
        let g = &results[i];
        proof {
            assert(rv.take(i + 1).drop_last() =~= rv.take(i as int));
            assert(rv.take(i + 1).last() == rv[i as int]);
        }
        if g.has_warnings || !g.working {
            count += 1;
        }
        i += 1;
    }
    proof {
        assert(rv.take(n as int) =~= rv);
    }
    count
}

/// The Kuma status message: healthy when no entry is unstable, else the
/// count of unstable entries.
pub fn kuma_message(total: usize, unstable: usize) -> (r: String)
    ensures
        unstable == 0 ==> r@ == "OK "@ + dec_str_of(total as nat) + " healthy"@,
        unstable != 0 ==> r@ == "WARN "@ + dec_str_of(unstable as nat) + " unstable"@,
{
    if unstable == 0 {
        let mut msg = "OK ".to_owned();
        let count_text = u64_to_dec(total as u64);
        msg.append(count_text.as_str());
        msg.append(" healthy");
        proof {
            assert(msg@ =~= "OK "@ + dec_str_of(total as nat) + " healthy"@);
        }
        msg
    } else {
        let mut msg = "WARN ".to_owned();
        let count_text = u64_to_dec(unstable as u64);
        msg.append(count_text.as_str());
        msg.append(" unstable");
        proof {
            assert(msg@ =~= "WARN "@ + dec_str_of(unstable as nat) + " unstable"@);
        }
        msg
    }
}

/// The full Kuma ping URL, with the measured ping attached when one exists.
pub fn kuma_query_url(kuma_url: &str, message: &str, last_ping: &Option<String>) -> (r: String)
    ensures
        r@ == kuma_url@ + "?status=up&msg="@ + message@ + (match last_ping {
            Some(p) => "&ping="@ + p@,
            None => Seq::<char>::empty(),
        }),
{
    let mut url = kuma_url.to_owned();
    url.append("?status=up&msg=");
    url.append(message);
    match last_ping {
        Some(p) => {
            url.append("&ping=");
            url.append(p.as_str());
        },
        None => (),
    }
    proof {
        assert(url@ =~= kuma_url@ + "?status=up&msg="@ + message@ + (match last_ping {
            Some(p) => "&ping="@ + p@,
            None => Seq::<char>::empty(),
        }));
    }
    url
}

/// The relay endpoint on the controller for one region.
pub fn relay_route(base_url: &str, region_name: &str) -> (r: String)
    ensures
        r@ == base_url@ + "/api/v1/relay/"@ + region_name@,
{
    let mut route = base_url.to_owned();
    route.append("/api/v1/relay/");
    route.append(region_name);
    proof {
        assert(route@ =~= base_url@ + "/api/v1/relay/"@ + region_name@);
    }
    route
}

/// The bearer form of an authorization token.
pub fn bearer_header(token: &str) -> (r: String)
    ensures
        r@ == "Bearer "@ + token@,
{
    let mut header = "Bearer ".to_owned();
    header.append(token);
    header
}

/// The version change a heartbeat response announces: the header's value
/// exactly when it is present and differs from the last known version.
pub fn version_change(header: Option<String>, last_update: &str) -> (r: Option<String>)
    ensures
        match header {
            Some(h) => if h@ != last_update@ {
                r == Some(h)
            } else {
                r is None
            },
            None => r is None,
        },
{
    match header {
        Some(h) => {
            if !crate::text::str_equal(h.as_str(), last_update) {
                Some(h)
            } else {
                None
            }
        },
        None => None,
    }
}

/// Whether an announced version change triggers a live config reload: only
/// once a version is already known.
pub fn should_reload(new_version: &Option<String>, last_update: &str) -> (r: bool)
    ensures
        r == (new_version is Some && last_update@.len() > 0),
{
    new_version.is_some() && !last_update.is_empty()
}

/// What the relay demands of the controller's configuration answer.
pub fn check_conf_status(status: u16, status_text: &str) -> (r: Result<(), Error>)
    ensures
        status == 200 <==> r is Ok,
        r matches Err(e) ==> e@.message == "Expected status code 200, found "@ + status_text@
            && e@.details is None,
{
    if status == 200 {
        Ok(())
    } else {
        let mut msg = "Expected status code 200, found ".to_owned();
        msg.append(status_text);
        Err(Error::basic(msg))
    }
}

/// What the relay demands of a Kuma ping answer.
pub fn check_kuma_status(status: u16, status_text: &str) -> (r: Result<(), Error>)
    ensures
        status == 200 <==> r is Ok,
        r matches Err(e) ==> e@.message == "Expected 200 for Kuma update, found "@ + status_text@
            && e@.details is None,
{
    if status == 200 {
        Ok(())
    } else {
        let mut msg = "Expected 200 for Kuma update, found ".to_owned();
        msg.append(status_text);
        Err(Error::basic(msg))
    }
}

} // verus!
