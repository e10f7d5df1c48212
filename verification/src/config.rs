//! Runtime configuration of the controller, and the time-string parser the
//! derived thresholds rest on.
//!
//! Time strings such as `20ms`, `10s`, `3m` or `2h` become milliseconds; a
//! bare integer already is milliseconds.  A region's silence threshold is
//! `interval_ms * miss_threshold + 1000`, a group's incident threshold
//! `interval_ms * fail_threshold + 1000`.

use vstd::prelude::*;
use vstd::string::*;

use crate::storage::{copy_opt_string, copy_string_vec};
use crate::text::str_equal;

verus! {

/// How the controller process itself is set up.
#[derive(Debug)]
pub struct ServerConf {
    pub config_path: String,
    pub port: u16,
    pub address: String,
    pub token: String,
    pub telegram_token: Option<String>,
    pub telegram_chat: Option<String>,
}

/// An alert medium entry as written by the operator.
#[derive(Debug)]
pub struct AlerterConfigInput {
    pub name: String,
    pub medium: String,
    pub chat_env: Option<String>,
    pub token_env: Option<String>,
    pub recipients_env: Option<String>,
}

/// A group entry as written by the operator.
#[derive(Debug)]
pub struct GroupConfigInput {
    pub name: String,
    pub fail_threshold: Option<u64>,
    pub tests: Vec<String>,
}

/// A region entry as written by the operator.
#[derive(Debug)]
pub struct RegionConfigInput {
    pub name: String,
    pub send_interval: Option<String>,
    pub miss_threshold: Option<u64>,
    pub kuma_url: Option<String>,
    pub groups: Vec<GroupConfigInput>,
}

/// The whole configuration as written by the operator.
#[derive(Debug)]
pub struct ConfigInput {
    pub alerters: Option<Vec<AlerterConfigInput>>,
    pub regions: Vec<RegionConfigInput>,
}

/// A group with its derived incident threshold.
#[derive(Debug)]
pub struct GroupConfig {
    pub name: String,
    pub threshold_ms: u64,
    pub tests: Vec<String>,
}

/// A region with its derived cadence and silence threshold.
#[derive(Debug)]
pub struct RegionConfig {
    pub name: String,
    pub interval_ms: u64,
    pub threshold_ms: u64,
    pub kuma_url: Option<String>,
    pub groups: Vec<GroupConfig>,
}

/// An alert medium entry in derived form.
#[derive(Debug)]
pub struct AlertConfig {
    pub name: String,
    pub medium: String,
    pub chat_env: Option<String>,
    pub token_env: Option<String>,
    pub recipients_env: Option<String>,
}

/// The derived configuration the controller runs on.
#[derive(Debug)]
pub struct Config {
    pub version: String,
    pub alerters: Vec<AlertConfig>,
    pub regions: Vec<RegionConfig>,
}

/// A decimal digit.
pub open spec fn is_dec_digit(c: char) -> bool {
    '0' <= c && c <= '9'
}

/// The value of a decimal digit.
pub open spec fn digit_val(c: char) -> int {
    c as int - 48
}

/// The value of a digit string, most significant digit first.
pub open spec fn dec_value(s: Seq<char>) -> int
    decreases s.len(),
{
    if s.len() == 0 {
        0
    } else {
        dec_value(s.drop_last()) * 10 + digit_val(s.last())
    }
}

/// Every character is a decimal digit.
pub open spec fn all_digits(s: Seq<char>) -> bool {
    forall|i: int| 0 <= i < s.len() ==> is_dec_digit(#[trigger] s[i])
}

/// The digits of a numeral, after any single leading plus sign.
pub open spec fn numeral_body(s: Seq<char>) -> Seq<char> {
    if s.len() > 0 && s[0] == '+' {
        s.skip(1)
    } else {
        s
    }
}

/// A numeral that a `u64` holds: an optional plus sign, then digits.
pub open spec fn is_u64_numeral(s: Seq<char>) -> bool {
    let b = numeral_body(s);
    b.len() > 0 && all_digits(b) && dec_value(b) <= u64::MAX
}

/// The value of a `u64` numeral.
pub open spec fn numeral_value(s: Seq<char>) -> int {
    dec_value(numeral_body(s))
}

/// Digit strings have nonnegative values.
proof fn lemma_dec_value_nonneg(s: Seq<char>)
    requires
        all_digits(s),
    ensures
        dec_value(s) >= 0,
    decreases s.len(),
{
    if s.len() > 0 {
        assert(all_digits(s.drop_last()));
        lemma_dec_value_nonneg(s.drop_last());
    }
}

/// A digit string is worth at least any of its prefixes.
proof fn lemma_dec_value_prefix(s: Seq<char>, m: int)
    requires
        all_digits(s),
        0 <= m <= s.len(),
    ensures
        dec_value(s.take(m)) <= dec_value(s),
    decreases s.len(),
{
    if m < s.len() {
        assert(all_digits(s.drop_last()));
        assert(s.drop_last().take(m) =~= s.take(m));
        lemma_dec_value_prefix(s.drop_last(), m);
        lemma_dec_value_nonneg(s.drop_last());
        assert(dec_value(s) == dec_value(s.drop_last()) * 10 + digit_val(s.last()));
        assert(dec_value(s.drop_last()) * 10 >= dec_value(s.drop_last())) by (nonlinear_arith)
            requires
                dec_value(s.drop_last()) >= 0,
        ;
        assert(digit_val(s.last()) >= 0);
    } else {
        assert(s.take(m) =~= s);
    }
}

/// Parse an unsigned numeral: an optional plus sign, then digits, fitting a
/// `u64`.
pub fn parse_u64(s: &str) -> (r: Option<u64>)
    ensures
        match r {
            Some(v) => is_u64_numeral(s@) && v == numeral_value(s@),
            None => !is_u64_numeral(s@),
        },
{
    let n = s.unicode_len();
    let start: usize = if n > 0 && s.get_char(0) == '+' {
        1
    } else {
        0
    };
    let ghost body = numeral_body(s@);
    proof {
        assert(body =~= s@.skip(start as int));
    }
    if n == start {
        return None;
    }
    let mut acc: u64 = 0;
    let mut i: usize = start;
    while i < n
        invariant
            start <= i <= n,
            n == s@.len(),
            start < n,
            body == s@.skip(start as int),
            body == numeral_body(s@),
            body.len() == n - start,
            forall|j: int| 0 <= j < i - start ==> is_dec_digit(#[trigger] body[j]),
            all_digits(body.take(i - start)),
            acc == dec_value(body.take(i - start)),
        decreases n - i,
    {
        let c = s.get_char(i);
        if !('0' <= c && c <= '9') {
            proof {
                assert(!is_dec_digit(c));
                assert(body[i - start] == s@[i as int]);
                assert(!is_dec_digit(body[i - start]));
                assert(!all_digits(body));
                assert(!is_u64_numeral(s@));
            }
            return None;
        }
        let d: u64 = ((c as u32) - 48) as u64;
        let next = match acc.checked_mul(10) {
            Some(x) => x.checked_add(d),
            None => None,
        };
        match next {
            Some(x) => {
                proof {
                    assert(body.take(i - start + 1).drop_last() =~= body.take(i - start));
                    assert(body.take(i - start + 1).last() == body[i - start]);
                    assert(body[i - start] == s@[i as int]);
                }
                acc = x;
            },
            None => {
                proof {
                    assert(body.take(i - start + 1).drop_last() =~= body.take(i - start));
                    assert(body.take(i - start + 1).last() == body[i - start]);
                    assert(body[i - start] == s@[i as int]);
                    if is_u64_numeral(s@) {
                        assert(all_digits(body));
                        lemma_dec_value_prefix(body, i - start + 1);
                        assert(dec_value(body.take(i - start + 1)) > u64::MAX);
                    }
                }
                return None;
            },
        }
        i += 1;
    }
    proof {
        assert(body.take(n - start) =~= body);
    }
    Some(acc)
}

/// What a time string is worth in milliseconds, if anything.
pub open spec fn parse_ms_spec(s: Seq<char>) -> Option<u64> {
    let n = s.len() as int;
    if n >= 2 && s[n - 2] == 'm' && s[n - 1] == 's' {
        let b = s.subrange(0, n - 2);
        if is_u64_numeral(b) {
            Some(numeral_value(b) as u64)
        } else {
            None
        }
    } else if n >= 1 && s[n - 1] == 's' {
        let b = s.subrange(0, n - 1);
        if is_u64_numeral(b) && numeral_value(b) * 1000 <= u64::MAX {
            Some((numeral_value(b) * 1000) as u64)
        } else {
            None
        }
    } else if n >= 1 && s[n - 1] == 'm' {
        let b = s.subrange(0, n - 1);
        if is_u64_numeral(b) && numeral_value(b) * 60000 <= u64::MAX {
            Some((numeral_value(b) * 60000) as u64)
        } else {
            None
        }
    } else if n >= 1 && s[n - 1] == 'h' {
        let b = s.subrange(0, n - 1);
        if is_u64_numeral(b) && numeral_value(b) * 3600000 <= u64::MAX {
            Some((numeral_value(b) * 3600000) as u64)
        } else {
            None
        }
    } else {
        if is_u64_numeral(s) {
            Some(numeral_value(s) as u64)
        } else {
            None
        }
    }
}

/// The error a rejected time string yields, named after its unit suffix.
pub open spec fn parse_ms_err(s: Seq<char>) -> Seq<char> {
    let n = s.len() as int;
    if n >= 2 && s[n - 2] == 'm' && s[n - 1] == 's' {
        "invalid milliseconds"@
    } else if n >= 1 && s[n - 1] == 's' {
        "invalid seconds"@
    } else if n >= 1 && s[n - 1] == 'm' {
        "invalid minutes"@
    } else if n >= 1 && s[n - 1] == 'h' {
        "invalid hours"@
    } else {
        "invalid milliseconds"@
    }
}

/// Parse a time string into milliseconds.  `20ms`, `10s`, `3m` and `2h` are
/// unit forms; a bare integer is already milliseconds.  Negative numbers,
/// fractions, unknown suffixes and values that overflow a `u64` of
/// milliseconds are rejected.
pub fn parse_to_milliseconds(time_arg: &str) -> (r: Result<u64, &'static str>)
    ensures
        match r {
            Ok(v) => parse_ms_spec(time_arg@) == Some(v),
            Err(e) => parse_ms_spec(time_arg@) is None && e@ == parse_ms_err(time_arg@),
        },
{
    let n = time_arg.unicode_len();
    if n >= 2 && time_arg.get_char(n - 2) == 'm' && time_arg.get_char(n - 1) == 's' {
        let b = time_arg.substring_char(0, n - 2);
        return match parse_u64(b) {
            Some(v) => Ok(v),
            None => Err("invalid milliseconds"),
        };
    }
    if n >= 1 && time_arg.get_char(n - 1) == 's' {
        let b = time_arg.substring_char(0, n - 1);
        return match parse_u64(b) {
            Some(v) => match v.checked_mul(1000) {
                Some(ms) => Ok(ms),
                None => Err("invalid seconds"),
            },
            None => Err("invalid seconds"),
        };
    }
    if n >= 1 && time_arg.get_char(n - 1) == 'm' {
        let b = time_arg.substring_char(0, n - 1);
        return match parse_u64(b) {
            Some(v) => match v.checked_mul(60000) {
                Some(ms) => Ok(ms),
                None => Err("invalid minutes"),
            },
            None => Err("invalid minutes"),
        };
    }
    if n >= 1 && time_arg.get_char(n - 1) == 'h' {
        let b = time_arg.substring_char(0, n - 1);
        return match parse_u64(b) {
            Some(v) => match v.checked_mul(3600000) {
                Some(ms) => Ok(ms),
                None => Err("invalid hours"),
            },
            None => Err("invalid hours"),
        };
    }
    match parse_u64(time_arg) {
        Some(v) => Ok(v),
        None => Err("invalid milliseconds"),
    }
}

/// The interval string a region entry declares, or the default.
pub open spec fn interval_text(ri: RegionConfigInput) -> Seq<char> {
    match ri.send_interval {
        Some(s) => s@,
        None => "10s"@,
    }
}

/// The miss threshold a region entry declares, or the default.
pub open spec fn region_miss(ri: RegionConfigInput) -> u64 {
    match ri.miss_threshold {
        Some(m) => m,
        None => 3u64,
    }
}

/// The fail threshold a group entry declares, or the default.
pub open spec fn group_fail(gi: GroupConfigInput) -> u64 {
    match gi.fail_threshold {
        Some(f) => f,
        None => 3u64,
    }
}

/// The parsed interval of a region entry whose interval parses.
pub open spec fn region_interval_of(ri: RegionConfigInput) -> u64 {
    parse_ms_spec(interval_text(ri))->Some_0
}

/// The silence threshold a region entry derives: interval times miss
/// threshold, plus a second of slack.
pub open spec fn region_threshold_calc(iv: u64, ri: RegionConfigInput) -> int {
    iv as int * region_miss(ri) as int + 1000
}

/// The incident threshold a group entry derives: interval times fail
/// threshold, plus a second of slack.
pub open spec fn group_threshold_calc(iv: u64, gi: GroupConfigInput) -> int {
    iv as int * group_fail(gi) as int + 1000
}

/// Whether a region entry derives cleanly: its interval parses and every
/// derived threshold fits a `u64`.
pub open spec fn region_input_ok(ri: RegionConfigInput) -> bool {
    &&& parse_ms_spec(interval_text(ri)) is Some
    &&& region_threshold_calc(region_interval_of(ri), ri) <= u64::MAX
    &&& forall|j: int|
        0 <= j < ri.groups@.len() ==> group_threshold_calc(
            region_interval_of(ri),
            #[trigger] ri.groups@[j],
        ) <= u64::MAX
}

/// The error a region entry that does not derive yields.
pub open spec fn region_input_err(ri: RegionConfigInput) -> Seq<char> {
    if parse_ms_spec(interval_text(ri)) is None {
        parse_ms_err(interval_text(ri))
    } else {
        "interval overflow"@
    }
}

/// Whether a derived region matches its entry: same name and kuma url, the
/// parsed interval, and the documented threshold arithmetic for the region
/// and each group.
pub open spec fn derived_region_ok(ri: RegionConfigInput, rc: RegionConfig) -> bool {
    &&& rc.name@ == ri.name@
    &&& rc.interval_ms == region_interval_of(ri)
    &&& rc.threshold_ms as int == region_threshold_calc(region_interval_of(ri), ri)
    &&& crate::model::opt_str_view(rc.kuma_url) == crate::model::opt_str_view(ri.kuma_url)
    &&& rc.groups@.len() == ri.groups@.len()
    &&& forall|j: int|
        0 <= j < ri.groups@.len() ==> {
            let gi = ri.groups@[j];
            let gc = #[trigger] rc.groups@[j];
            &&& gc.name@ == gi.name@
            &&& gc.threshold_ms as int == group_threshold_calc(region_interval_of(ri), gi)
            &&& gc.tests@ == gi.tests@
        }
}

impl Config {
    /// Derive the runtime configuration from the operator's input, stamping
    /// it with the given version.  Fails on the first region whose interval
    /// does not parse or whose thresholds overflow.
    #[verifier::rlimit(100)]
    #[verifier::spinoff_prover]
    pub fn try_from_input(input: &ConfigInput, version: String) -> (r: Result<
        Config,
        &'static str,
    >)
        ensures
            r is Ok <==> (forall|i: int|
                0 <= i < input.regions@.len() ==> region_input_ok(#[trigger] input.regions@[i])),
            match r {
                Ok(c) => {
                    &&& c.version == version
                    &&& c.regions@.len() == input.regions@.len()
                    &&& forall|i: int|
                        0 <= i < input.regions@.len() ==> derived_region_ok(
                            #[trigger] input.regions@[i],
                            c.regions@[i],
                        )
                    &&& match input.alerters {
                        Some(al) => c.alerters@.len() == al@.len() && forall|i: int|
                            0 <= i < al@.len() ==> {
                                let ai = al@[i];
                                let ac = #[trigger] c.alerters@[i];
                                &&& ac.name == ai.name
                                &&& ac.medium == ai.medium
                                &&& ac.chat_env == ai.chat_env
                                &&& ac.token_env == ai.token_env
                                &&& ac.recipients_env == ai.recipients_env
                            },
                        None => c.alerters@.len() == 0,
                    }
                },
                Err(e) => exists|i: int|
                    0 <= i < input.regions@.len() && !region_input_ok(
                        #[trigger] input.regions@[i],
                    ) && (forall|j: int|
                        0 <= j < i ==> region_input_ok(#[trigger] input.regions@[j])) && e@
                        == region_input_err(input.regions@[i]),
            },
    {
        let mut regions: Vec<RegionConfig> = Vec::new();
        let n = input.regions.len();
        let mut i: usize = 0;
        while i < n
            invariant
                0 <= i <= n,
                n == input.regions@.len(),
                regions@.len() == i,
                forall|j: int|
                    0 <= j < i ==> region_input_ok(#[trigger] input.regions@[j])
                        && derived_region_ok(input.regions@[j], regions@[j]),
            decreases n - i,
        {
            let ri = &input.regions[i];
            let interval_str: &str = match &ri.send_interval {
                Some(sv) => sv.as_str(),
                None => "10s",
            };
            proof {
                assert(interval_str@ == interval_text(input.regions@[i as int]));
            }
            let interval_ms = match parse_to_milliseconds(interval_str) {
                Ok(v) => v,
                Err(e) => {
                    proof {
                        assert(!region_input_ok(input.regions@[i as int]));
                    }
                    return Err(e);
                },
            };
            let mut groups: Vec<GroupConfig> = Vec::new();
            let gn = ri.groups.len();
            let mut j: usize = 0;
            while j < gn
                invariant
                    0 <= j <= gn,
                    0 <= i < input.regions@.len(),
                    n == input.regions@.len(),
                    *ri == input.regions@[i as int],
                    forall|p: int|
                        0 <= p < i ==> region_input_ok(#[trigger] input.regions@[p]),
                    gn == ri.groups@.len(),
                    groups@.len() == j,
                    parse_ms_spec(interval_text(input.regions@[i as int])) == Some(interval_ms),
                    forall|q: int|
                        0 <= q < j ==> group_threshold_calc(
                            interval_ms,
                            (#[trigger] ri.groups@[q]),
                        ) <= u64::MAX,
                    forall|q: int|
                        0 <= q < j ==> (#[trigger] groups@[q]).name@ == ri.groups@[q].name@,
                    forall|q: int|
                        0 <= q < j ==> (#[trigger] groups@[q]).threshold_ms as int
                            == group_threshold_calc(interval_ms, ri.groups@[q]),
                    forall|q: int|
                        0 <= q < j ==> (#[trigger] groups@[q]).tests@ == ri.groups@[q].tests@,
                decreases gn - j,
            {
                let gi = &ri.groups[j];
                let fail = match gi.fail_threshold {
                    Some(f) => f,
                    None => 3,
                };
                let prod = match interval_ms.checked_mul(fail) {
                    Some(p) => p,
                    None => {
                        proof {
                            assert(!region_input_ok(input.regions@[i as int]));
                        }
                        return Err("interval overflow");
                    },
                };
                let threshold = match prod.checked_add(1000) {
                    Some(t) => t,
                    None => {
                        proof {
                            assert(!region_input_ok(input.regions@[i as int]));
                        }
                        return Err("interval overflow");
                    },
                };
                let gc = GroupConfig {
                    name: gi.name.clone(),
                    threshold_ms: threshold,
                    tests: copy_string_vec(&gi.tests),
                };
                proof {
                    assert(*gi == ri.groups@[j as int]);
                    assert(fail == group_fail(ri.groups@[j as int]));
                    assert(gc.name@ == ri.groups@[j as int].name@);
                    assert(gc.tests@ == ri.groups@[j as int].tests@);
                    assert(gc.threshold_ms as int == group_threshold_calc(
                        interval_ms,
                        ri.groups@[j as int],
                    ));
                }
                let ghost gprev = groups@;
                groups.push(gc);
                proof {
                    assert forall|q: int|
                        0 <= q < j + 1 implies {
                        &&& group_threshold_calc(interval_ms, ri.groups@[q]) <= u64::MAX
                        &&& (#[trigger] groups@[q]).name@ == ri.groups@[q].name@
                        &&& groups@[q].threshold_ms as int == group_threshold_calc(
                            interval_ms,
                            ri.groups@[q],
                        )
                        &&& groups@[q].tests@ == ri.groups@[q].tests@
                    } by {
                        if q < j {
                            assert(groups@[q] == gprev[q]);
                        } else {
                            assert(groups@[q] == gc);
                        }
                    }
                }
                j += 1;
            }
            let miss = match ri.miss_threshold {
                Some(m) => m,
                None => 3,
            };
            let prod = match interval_ms.checked_mul(miss) {
                Some(p) => p,
                None => {
                    proof {
                        assert(!region_input_ok(input.regions@[i as int]));
                    }
                    return Err("interval overflow");
                },
            };
            let threshold = match prod.checked_add(1000) {
                Some(t) => t,
                None => {
                    proof {
                        assert(!region_input_ok(input.regions@[i as int]));
                    }
                    return Err("interval overflow");
                },
            };
            let region = RegionConfig {
                name: ri.name.clone(),
                interval_ms,
                threshold_ms: threshold,
                kuma_url: copy_opt_string(&ri.kuma_url),
                groups,
            };
            proof {
                assert(region_input_ok(input.regions@[i as int]));
                assert(derived_region_ok(input.regions@[i as int], region));
            }
            regions.push(region);
            i += 1;
        }
        let alerters: Vec<AlertConfig> = match &input.alerters {
            Some(al) => {
                let mut out: Vec<AlertConfig> = Vec::new();
                let an = al.len();
                let mut a: usize = 0;
                while a < an
                    invariant
                        0 <= a <= an,
                        an == al@.len(),
                        out@.len() == a,
                        forall|q: int|
                            0 <= q < a ==> {
                                let ai = al@[q];
                                let ac = #[trigger] out@[q];
                                &&& ac.name == ai.name
                                &&& ac.medium == ai.medium
                                &&& ac.chat_env == ai.chat_env
                                &&& ac.token_env == ai.token_env
                                &&& ac.recipients_env == ai.recipients_env
                            },
                    decreases an - a,
                {
                    let ai = &al[a];
                    out.push(
                        AlertConfig {
                            name: ai.name.clone(),
                            medium: ai.medium.clone(),
                            chat_env: copy_opt_string(&ai.chat_env),
                            token_env: copy_opt_string(&ai.token_env),
                            recipients_env: copy_opt_string(&ai.recipients_env),
                        },
                    );
                    a += 1;
                }
                out
            },
            None => Vec::new(),
        };
        Ok(Config { version, alerters, regions })
    }

    /// The configuration of one region, by name; the first match wins.
    pub fn export_region(&self, region_name: &str) -> (r: Option<&RegionConfig>)
        ensures
            match r {
                Some(rc) => exists|i: int|
                    0 <= i < self.regions@.len() && (#[trigger] self.regions@[i]).name@
                        == region_name@ && *rc == self.regions@[i],
                None => forall|i: int|
                    0 <= i < self.regions@.len() ==> (#[trigger] self.regions@[i]).name@
                        != region_name@,
            },
    {
        let n = self.regions.len();
        let mut i: usize = 0;
        while i < n
            invariant
                0 <= i <= n,
                n == self.regions@.len(),
                forall|j: int|
                    0 <= j < i ==> (#[trigger] self.regions@[j]).name@ != region_name@,
            decreases n - i,
        {
            if str_equal(self.regions[i].name.as_str(), region_name) {
                return Some(&self.regions[i]);
            }
            i += 1;
        }
        None
    }
}

} // verus!
