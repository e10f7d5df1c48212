//! Probe runners: descriptor matching and result interpretation.
//!
//! A descriptor is a whitespace-separated string whose first token selects
//! the runner: `ping <target>`, `dns <target>`, `http <domain>`.  Running a
//! probe reaches the network; interpreting what came back is pure, and is
//! what this module verifies.

use vstd::prelude::*;
use vstd::string::*;

use crate::config::{all_digits, dec_value, is_dec_digit};
use crate::error::Error;
use crate::model::{MetricSample, ResultCategory, TestResult};
use crate::text::{
    dec_str_of, first_index_of, first_match_index, has_prefix, lemma_first_index_of,
    lemma_first_match_index, lemma_strip_trailing_zeros, str_find_char, str_find_sub,
    str_has_prefix, strip_trailing_zeros, u64_to_dec,
};

verus! {

/// The second whitespace-separated token of a descriptor, present exactly
/// when the descriptor has a space.
pub open spec fn token_after_space(s: Seq<char>) -> Option<Seq<char>> {
    match first_index_of(s, ' ') {
        Some(i) => {
            let tail = s.skip(i + 1);
            match first_index_of(tail, ' ') {
                Some(k) => Some(tail.subrange(0, k)),
                None => Some(tail),
            }
        },
        None => None,
    }
}

/// Extract the second token of a descriptor.
pub fn split_target(test: &str) -> (r: Option<String>)
    ensures
        match r {
            Some(t) => token_after_space(test@) == Some(t@),
            None => token_after_space(test@) is None,
        },
{
    proof {
        lemma_first_index_of(test@, ' ');
    }
    let n = test.unicode_len();
    match str_find_char(test, ' ') {
        Some(i) => {
            let tail = test.substring_char(i + 1, n);
            proof {
                assert(tail@ =~= test@.skip(i + 1));
                lemma_first_index_of(tail@, ' ');
            }
            match str_find_char(tail, ' ') {
                Some(k) => Some(tail.substring_char(0, k).to_owned()),
                None => Some(tail.to_owned()),
            }
        },
        None => None,
    }
}

/// The first output line that opens with `rtt`, if any.
pub open spec fn rtt_line_of(s: Seq<char>) -> Option<Seq<char>>
    decreases s.len(),
    via rtt_line_of_decreases
{
    match first_index_of(s, '\n') {
        Some(i) => if has_prefix(s.subrange(0, i), "rtt"@) {
            Some(s.subrange(0, i))
        } else {
            rtt_line_of(s.skip(i + 1))
        },
        None => if has_prefix(s, "rtt"@) {
            Some(s)
        } else {
            None
        },
    }
}

#[via_fn]
proof fn rtt_line_of_decreases(s: Seq<char>) {
    lemma_first_index_of(s, '\n');
}

/// Find the first output line that opens with `rtt`.
pub fn first_rtt_line(s: &str) -> (r: Option<String>)
    ensures
        match r {
            Some(l) => rtt_line_of(s@) == Some(l@),
            None => rtt_line_of(s@) is None,
        },
    decreases s@.len(),
{
    proof {
        lemma_first_index_of(s@, '\n');
    }
    let n = s.unicode_len();
    match str_find_char(s, '\n') {
        Some(i) => {
            let line = s.substring_char(0, i);
            if str_has_prefix(line, "rtt") {
                Some(line.to_owned())
            } else {
                let rest = s.substring_char(i + 1, n);
                proof {
                    assert(rest@ =~= s@.skip(i + 1));
                }
                first_rtt_line(rest)
            }
        },
        None => {
            if str_has_prefix(s, "rtt") {
                Some(s.to_owned())
            } else {
                None
            }
        },
    }
}

/// The rtt figure of a ping summary: on the `rtt` line, the text between
/// the first ` = ` and the next one, cut at its first slash.
pub open spec fn rtt_value_text(stdout: Seq<char>) -> Option<Seq<char>> {
    match rtt_line_of(stdout) {
        Some(line) => match first_match_index(line, " = "@) {
            Some(i) => {
                let tail = line.skip(i + 3);
                let tok = match first_match_index(tail, " = "@) {
                    Some(k) => tail.subrange(0, k),
                    None => tail,
                };
                match first_index_of(tok, '/') {
                    Some(c) => Some(tok.subrange(0, c)),
                    None => Some(tok),
                }
            },
            None => None,
        },
        None => None,
    }
}

/// Extract the rtt figure from a ping's standard output.
pub fn extract_rtt_text(stdout: &str) -> (r: Option<String>)
    ensures
        match r {
            Some(v) => rtt_value_text(stdout@) == Some(v@),
            None => rtt_value_text(stdout@) is None,
        },
{
    let line = match first_rtt_line(stdout) {
        Some(l) => l,
        None => {
            return None;
        },
    };
    proof {
        reveal_strlit(" = ");
        assert(" = "@.len() == 3);
    }
    let line_len = line.as_str().unicode_len();
    let i = match str_find_sub(line.as_str(), " = ") {
        Some(i) => i,
        None => {
            return None;
        },
    };
    proof {
        lemma_first_match_index(line@, " = "@);
    }
    let tail = line.as_str().substring_char(i + 3, line_len);
    proof {
        assert(tail@ =~= line@.skip(i + 3));
    }
    let tok = match str_find_sub(tail, " = ") {
        Some(k) => {
            proof {
                lemma_first_match_index(tail@, " = "@);
            }
            tail.substring_char(0, k)
        },
        None => tail,
    };
    match str_find_char(tok, '/') {
        Some(c) => {
            proof {
                lemma_first_index_of(tok@, '/');
            }
            Some(tok.substring_char(0, c).to_owned())
        },
        None => Some(tok.to_owned()),
    }
}

/// The sign-stripped part of a decimal literal.
pub open spec fn decimal_body(s: Seq<char>) -> Seq<char> {
    if s.len() > 0 && (s[0] == '+' || s[0] == '-') {
        s.skip(1)
    } else {
        s
    }
}

/// Every character is a digit or a dot.
pub open spec fn all_digit_or_dot(s: Seq<char>) -> bool {
    forall|i: int| 0 <= i < s.len() ==> is_dec_digit(#[trigger] s[i]) || s[i] == '.'
}

/// No two positions both carry a dot.
pub open spec fn at_most_one_dot(s: Seq<char>) -> bool {
    forall|i: int, j: int| 0 <= i < j < s.len() ==> !(#[trigger] s[i] == '.' && #[trigger] s[j] == '.')
}

/// Some character is a digit.
pub open spec fn has_digit(s: Seq<char>) -> bool {
    exists|i: int| 0 <= i < s.len() && is_dec_digit(#[trigger] s[i])
}

/// A plain decimal literal: an optional sign, then digits with at most one
/// dot among them.
pub open spec fn is_plain_decimal(s: Seq<char>) -> bool {
    let b = decimal_body(s);
    b.len() > 0 && all_digit_or_dot(b) && at_most_one_dot(b) && has_digit(b)
}

/// The digits before the dot.
pub open spec fn int_part(b: Seq<char>) -> Seq<char> {
    match first_index_of(b, '.') {
        Some(i) => b.subrange(0, i),
        None => b,
    }
}

/// Whether a plain decimal denotes at least one hundred.
pub open spec fn decimal_at_least_100(s: Seq<char>) -> bool {
    !(s.len() > 0 && s[0] == '-') && dec_value(int_part(decimal_body(s))) >= 100
}

/// Classify a decimal literal: `None` when it is not plain decimal text,
/// otherwise whether it denotes at least one hundred.
pub fn classify_decimal(v: &str) -> (r: Option<bool>)
    ensures
        match r {
            Some(ge) => is_plain_decimal(v@) && ge == decimal_at_least_100(v@),
            None => !is_plain_decimal(v@),
        },
{
    let n = v.unicode_len();
    let start: usize = if n > 0 && (v.get_char(0) == '+' || v.get_char(0) == '-') {
        1
    } else {
        0
    };
    let negative = n > 0 && v.get_char(0) == '-';
    let ghost body = decimal_body(v@);
    proof {
        assert(body =~= v@.skip(start as int));
    }
    if n == start {
        return None;
    }
    let mut acc: u64 = 0;
    let mut dot_at: Option<usize> = None;
    let mut seen_digit = false;
    let mut i: usize = start;
    while i < n
        invariant
            start <= i <= n,
            start <= 1,
            n == v@.len(),
            body == v@.skip(start as int),
            body == decimal_body(v@),
            body.len() == n - start,
            forall|j: int|
                0 <= j < i - start ==> is_dec_digit(#[trigger] body[j]) || body[j] == '.',
            match dot_at {
                Some(d) => (d as int) < i - start && body[d as int] == '.' && forall|j: int|
                    0 <= j < i - start && j != d as int ==> body[j] != '.',
                None => forall|j: int| 0 <= j < i - start ==> body[j] != '.',
            },
            seen_digit == exists|j: int|
                0 <= j < i - start && is_dec_digit(#[trigger] body[j]),
            all_digits(
                body.take(
                    match dot_at {
                        Some(d) => d as int,
                        None => i - start,
                    },
                ),
            ),
            acc <= 1000,
            (acc < 100 && acc == dec_value(
                body.take(
                    match dot_at {
                        Some(d) => d as int,
                        None => i - start,
                    },
                ),
            )) || (acc >= 100 && dec_value(
                body.take(
                    match dot_at {
                        Some(d) => d as int,
                        None => i - start,
                    },
                ),
            ) >= 100),
        decreases n - i,
    {
        let c = v.get_char(i);
        proof {
            assert(body[i - start] == v@[i as int]);
        }
        if c == '.' {
            if dot_at.is_some() {
                proof {
                    let d = dot_at->Some_0 as int;
                    assert(body[d] == '.');
                    assert(body[i - start] == '.');
                    assert(!at_most_one_dot(body));
                }
                return None;
            }
            dot_at = Some(i - start);
        } else if '0' <= c && c <= '9' {
            seen_digit = true;
            proof {
                assert(is_dec_digit(body[i - start]));
            }
            if dot_at.is_none() {
                let d: u64 = ((c as u32) - 48) as u64;
                let ghost p = i - start;
                proof {
                    assert(body.take(p + 1).drop_last() =~= body.take(p as int));
                    assert(body.take(p + 1).last() == body[p as int]);
                    assert(body[p as int] == v@[i as int]);
                }
                if acc < 100 {
                    acc = acc * 10 + d;
                } else {
                    proof {
                        assert(dec_value(body.take(p + 1)) == dec_value(body.take(p as int)) * 10
                            + crate::config::digit_val(body[p as int]));
                        assert(dec_value(body.take(p as int)) * 10 >= 1000) by (nonlinear_arith)
                            requires
                                dec_value(body.take(p as int)) >= 100,
                        ;
                    }
                }
            }
        } else {
            proof {
                assert(body[i - start] == v@[i as int]);
                assert(!all_digit_or_dot(body));
            }
            return None;
        }
        i += 1;
    }
    if !seen_digit {
        return None;
    }
    proof {
        lemma_first_index_of(body, '.');
        match dot_at {
            Some(d) => {
                assert(first_index_of(body, '.') == Some(d as int));
                assert(int_part(body) =~= body.take(d as int));
            },
            None => {
                assert(first_index_of(body, '.') is None);
                assert(int_part(body) =~= body.take(n - start));
            },
        }
        assert(is_plain_decimal(v@));
    }
    Some(!negative && acc >= 100)
}

/// A decimal literal with its fraction trimmed: trailing zeros after the
/// dot dropped, then a bare trailing dot dropped.
pub open spec fn normalized_decimal(s: Seq<char>) -> Seq<char> {
    if first_index_of(s, '.') is Some {
        let t = strip_trailing_zeros(s);
        if t.len() > 0 && t.last() == '.' {
            t.drop_last()
        } else {
            t
        }
    } else {
        s
    }
}

/// Trim a decimal literal the way a shortest float rendering would.
pub fn normalize_decimal(v: &str) -> (r: String)
    ensures
        r@ == normalized_decimal(v@),
{
    proof {
        lemma_strip_trailing_zeros(v@);
    }
    let n = v.unicode_len();
    match str_find_char(v, '.') {
        Some(_) => {
            let mut end: usize = n;
            while end > 0 && v.get_char(end - 1) == '0'
                invariant
                    0 <= end <= n,
                    n == v@.len(),
                    forall|j: int| end <= j < n ==> v@[j] == '0',
                decreases end,
            {
                end -= 1;
            }
            proof {
                let t = strip_trailing_zeros(v@);
                assert(end as int == t.len()) by {
                    if (end as int) < t.len() {
                        assert(v@[t.len() - 1] == '0');
                        assert(t.last() != '0');
                        assert(t.last() == v@[t.len() - 1]);
                    }
                    if (end as int) > t.len() {
                        assert(v@[end - 1] == '0');
                    }
                }
                assert(t =~= v@.take(end as int));
            }
            let final_end: usize = if end > 0 && v.get_char(end - 1) == '.' {
                end - 1
            } else {
                end
            };
            let r = v.substring_char(0, final_end).to_owned();
            proof {
                assert(r@ =~= normalized_decimal(v@));
            }
            r
        },
        None => v.to_owned(),
    }
}

/// The ping probe: run the system ping once and read its summary.
pub struct PingTest {}

impl PingTest {
    /// A ping runner.
    pub fn new() -> (r: Self) {
        PingTest {  }
    }

    /// A descriptor is a ping probe when it opens with `ping`.
    pub fn matches(&self, test: &str) -> (r: bool)
        ensures
            r == has_prefix(test@, "ping"@),
    {
        str_has_prefix(test, "ping")
    }

    /// The target a ping descriptor names.
    pub fn parse_target(&self, test: &str) -> (r: Result<String, Error>)
        ensures
            match r {
                Ok(t) => token_after_space(test@) == Some(t@),
                Err(e) => token_after_space(test@) is None && e@.message == "Ping test failed"@
                    && e@.details == Some("The ping command expects a valid target"@),
            },
    {
        match split_target(test) {
            Some(t) => Ok(t),
            None => Err(
                Error::new(
                    "Ping test failed".to_owned(),
                    "The ping command expects a valid target".to_owned(),
                ),
            ),
        }
    }

    /// Interpret one finished ping run.  A failed exit is a plain `Fail`;
    /// otherwise the summary's first rtt figure decides: below a hundred
    /// milliseconds is `Success`, at or above it `Warning`, and in both
    /// cases the figure is attached as the `ping_rtt` metric.  An
    /// unreadable summary is surfaced as an error.
    pub fn evaluate(&self, target: &str, exit_success: bool, stdout: &str) -> (r: Result<
        TestResult,
        Error,
    >)
        ensures
            !exit_success ==> (r matches Ok(t) && t@.target == target@ && t@.result
                == ResultCategory::Fail && t@.metrics is None),
            exit_success ==> match rtt_value_text(stdout@) {
                Some(v) => {
                    if is_plain_decimal(v) {
                        match r {
                            Ok(t) => {
                                &&& t@.target == target@
                                &&& t@.result == (if decimal_at_least_100(v) {
                                    ResultCategory::Warning
                                } else {
                                    ResultCategory::Success
                                })
                                &&& match t@.metrics {
                                    Some(ms) => ms.len() == 1 && ms[0].name == "ping_rtt"@
                                        && ms[0].value == normalized_decimal(v),
                                    None => false,
                                }
                            },
                            Err(_) => false,
                        }
                    } else {
                        match r {
                            Ok(_) => false,
                            Err(e) => e@.message == "Failed to ping"@ && e@.details == Some(
                                "invalid float literal"@,
                            ),
                        }
                    }
                },
                None => match r {
                    Ok(_) => false,
                    Err(e) => e@.message == "Failed to ping"@ && e@.details == Some(
                        "invalid float literal"@,
                    ),
                },
            },
    {
        if !exit_success {
            return Ok(TestResult::fail(target.to_owned()));
        }
        match extract_rtt_text(stdout) {
            Some(v) => match classify_decimal(v.as_str()) {
                Some(ge100) => {
                    let value = normalize_decimal(v.as_str());
                    let mut metrics: Vec<MetricSample> = Vec::new();
                    metrics.push(MetricSample { name: "ping_rtt".to_owned(), value });
                    let category = if ge100 {
                        ResultCategory::Warning
                    } else {
                        ResultCategory::Success
                    };
                    Ok(TestResult::build(target.to_owned(), category, Some(metrics)))
                },
                None => Err(
                    Error::new("Failed to ping".to_owned(), "invalid float literal".to_owned()),
                ),
            },
            None => Err(
                Error::new("Failed to ping".to_owned(), "invalid float literal".to_owned()),
            ),
        }
    }
}

/// What an HTTP request attempt came back with.
pub enum HttpOutcome {
    Response { status: u16, latency_ms: u64 },
    TransportFailure,
}

/// The http probe: request `http://<domain>` and read the status code.
pub struct HttpTest {}

impl HttpTest {
    /// An http runner.
    pub fn new() -> (r: Self) {
        HttpTest {  }
    }

    /// A descriptor is an http probe when it opens with `http`.
    pub fn matches(&self, test: &str) -> (r: bool)
        ensures
            r == has_prefix(test@, "http"@),
    {
        str_has_prefix(test, "http")
    }

    /// The domain an http descriptor names.
    pub fn parse_target(&self, test: &str) -> (r: Result<String, Error>)
        ensures
            match r {
                Ok(t) => token_after_space(test@) == Some(t@),
                Err(e) => token_after_space(test@) is None && e@.message == "HTTP test failed"@
                    && e@.details == Some("The HTTP command expects a target"@),
            },
    {
        match split_target(test) {
            Some(t) => Ok(t),
            None => Err(
                Error::new(
                    "HTTP test failed".to_owned(),
                    "The HTTP command expects a target".to_owned(),
                ),
            ),
        }
    }

    /// The URL an http probe requests: plain `http` before the domain, no
    /// scheme inference.
    pub fn build_url(&self, domain: &str) -> (r: String)
        ensures
            r@ == "http://"@ + domain@,
    {
        let mut url = "http://".to_owned();
        url.append(domain);
        url
    }

    /// Interpret one finished http request.  A 4xx or 5xx answer is a
    /// `Warning`, any other answer a `Success`, both carrying the measured
    /// latency as the `http_latency` metric; a transport failure is `Fail`.
    pub fn evaluate(&self, target: &str, outcome: HttpOutcome) -> (r: TestResult)
        ensures
            match outcome {
                HttpOutcome::Response { status, latency_ms } => {
                    &&& r@.target == target@
                    &&& r@.result == (if 400 <= status <= 599 {
                        ResultCategory::Warning
                    } else {
                        ResultCategory::Success
                    })
                    &&& match r@.metrics {
                        Some(ms) => ms.len() == 1 && ms[0].name == "http_latency"@ && ms[0].value
                            == dec_str_of(latency_ms as nat),
                        None => false,
                    }
                },
                HttpOutcome::TransportFailure => r@.target == target@ && r@.result
                    == ResultCategory::Fail && r@.metrics is None,
            },
    {
        match outcome {
            HttpOutcome::Response { status, latency_ms } => {
                let category = if 400 <= status && status <= 599 {
                    ResultCategory::Warning
                } else {
                    ResultCategory::Success
                };
                let mut metrics: Vec<MetricSample> = Vec::new();
                metrics.push(
                    MetricSample { name: "http_latency".to_owned(), value: u64_to_dec(latency_ms) },
                );
                TestResult::build(target.to_owned(), category, Some(metrics))
            },
            HttpOutcome::TransportFailure => TestResult::fail(target.to_owned()),
        }
    }
}

/// The dns probe: a reserved descriptor that is not supported yet, but must
/// still match so it does not fall through to "command not found".
pub struct DnsTest {}

impl DnsTest {
    /// A dns runner.
    pub fn new() -> (r: Self) {
        DnsTest {  }
    }

    /// A descriptor is a dns probe when it opens with `dns`.
    pub fn matches(&self, test: &str) -> (r: bool)
        ensures
            r == has_prefix(test@, "dns"@),
    {
        str_has_prefix(test, "dns")
    }

    /// Running a dns probe always reports that the command is unsupported.
    pub fn execute(&self, _test: &str) -> (r: Result<TestResult, Error>)
        ensures
            r matches Err(e) && e@.message == "DNS test failed"@ && e@.details == Some(
                "The 'dns' command is not supported yet"@,
            ),
    {
        Err(
            Error::new(
                "DNS test failed".to_owned(),
                "The 'dns' command is not supported yet".to_owned(),
            ),
        )
    }
}

/// Which runner a descriptor selects.
#[derive(Clone, Copy, PartialEq, Eq, Structural, Debug)]
pub enum ProbeKind {
    Ping,
    Dns,
    Http,
    Unknown,
}

/// The ordered set of probe runners.
pub struct TestRunner {
    pub ping: PingTest,
    pub http: HttpTest,
    pub dns: DnsTest,
}

impl TestRunner {
    /// A runner set with the fixed dispatch order ping, dns, http.
    pub fn new() -> (r: Self) {
        TestRunner { ping: PingTest::new(), http: HttpTest::new(), dns: DnsTest::new() }
    }

    /// Dispatch a descriptor by prefix, in the order ping, dns, http.
    pub fn select_runner(&self, test: &str) -> (r: ProbeKind)
        ensures
            (r == ProbeKind::Ping) == has_prefix(test@, "ping"@),
            (r == ProbeKind::Dns) == (!has_prefix(test@, "ping"@) && has_prefix(test@, "dns"@)),
            (r == ProbeKind::Http) == (!has_prefix(test@, "ping"@) && !has_prefix(test@, "dns"@)
                && has_prefix(test@, "http"@)),
            (r == ProbeKind::Unknown) == (!has_prefix(test@, "ping"@) && !has_prefix(
                test@,
                "dns"@,
            ) && !has_prefix(test@, "http"@)),
    {
        if self.ping.matches(test) {
            ProbeKind::Ping
        } else if self.dns.matches(test) {
            ProbeKind::Dns
        } else if self.http.matches(test) {
            ProbeKind::Http
        } else {
            ProbeKind::Unknown
        }
    }

    /// The error a descriptor no runner matches yields.
    pub fn unknown_test_error(&self, test: &str) -> (r: Error)
        ensures
            r@.message == "Test '"@ + test@ + "' failed, command not found"@,
            r@.details is None,
    {
        let mut message = "Test '".to_owned();
        message.append(test);
        message.append("' failed, command not found");
        proof {
            assert(message@ =~= "Test '"@ + test@ + "' failed, command not found"@);
        }
        Error::basic(message)
    }
}

} // verus!
