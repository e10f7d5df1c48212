//! Controller-side service helpers: request authorization, error bodies,
//! the Prometheus exporter rendering, and store initialization.

use vstd::prelude::*;
use vstd::string::*;

use crate::clock::MAX_TIMESTAMP_MS;
use crate::config::Config;
use crate::storage::{FullMetric, MemoryStorage, StoredMetricView};
use crate::text::str_equal;

verus! {

/// An HTTP error body: status code, message, details.
#[derive(Debug)]
pub struct ServerErr {
    pub status: u16,
    pub message: String,
    pub details: Vec<String>,
}

impl ServerErr {
    /// Build a HTTP '400 Bad Request' error.
    pub fn _bad_request(message: String) -> (r: ServerErr)
        ensures
            r.status == 400,
            r.message == message,
            r.details@.len() == 0,
    {
        ServerErr { status: 400, message, details: Vec::new() }
    }

    /// Build a HTTP '401 Unauthorized' error.
    pub fn unauthorized(message: String) -> (r: ServerErr)
        ensures
            r.status == 401,
            r.message == message,
            r.details@.len() == 0,
    {
        ServerErr { status: 401, message, details: Vec::new() }
    }

    /// Build a HTTP '404 Not Found' error.
    pub fn not_found(message: String) -> (r: ServerErr)
        ensures
            r.status == 404,
            r.message == message,
            r.details@.len() == 0,
    {
        ServerErr { status: 404, message, details: Vec::new() }
    }
}

/// Admit a request exactly when its authorization header is the configured
/// bearer token; anything else is a 401.
pub fn check_authorization(header: Option<&str>, token: &str) -> (r: Result<(), ServerErr>)
    ensures
        r is Ok <==> (header matches Some(h) && h@ == "Bearer "@ + token@),
        r matches Err(e) ==> e.status == 401 && e.message@ == "Invalid authentication"@,
{
    match header {
        Some(h) => {
            let mut expected = "Bearer ".to_owned();
            expected.append(token);
            if str_equal(h, expected.as_str()) {
                Ok(())
            } else {
                Err(ServerErr::unauthorized("Invalid authentication".to_owned()))
            }
        },
        None => Err(ServerErr::unauthorized("Invalid authentication".to_owned())),
    }
}

/// One rendered label: `key="value"`.
pub open spec fn label_text(l: (Seq<char>, Seq<char>)) -> Seq<char> {
    l.0 + "=\""@ + l.1 + "\""@
}

/// Rendered labels joined with commas.
pub open spec fn labels_joined(ls: Seq<(Seq<char>, Seq<char>)>) -> Seq<char>
    decreases ls.len(),
{
    if ls.len() == 0 {
        Seq::empty()
    } else if ls.len() == 1 {
        label_text(ls[0])
    } else {
        labels_joined(ls.drop_last()) + ","@ + label_text(ls.last())
    }
}

/// One exporter line: `watchdog_<name>{k="v",…} <value>` and a newline.
pub open spec fn metric_line(m: StoredMetricView) -> Seq<char> {
    "watchdog_"@ + m.name + "{"@ + labels_joined(m.labels) + "} "@ + m.metric + "\n"@
}

/// A block of exporter lines, in order.
pub open spec fn metric_block(ms: Seq<StoredMetricView>) -> Seq<char>
    decreases ms.len(),
{
    if ms.len() == 0 {
        Seq::empty()
    } else {
        metric_block(ms.drop_last()) + metric_line(ms.last())
    }
}

/// Render one metric's exporter line.
fn render_metric_line(m: &FullMetric) -> (r: String)
    ensures
        r@ == metric_line(m@),
{
    let mut line = "watchdog_".to_owned();
    line.append(m.name.as_str());
    line.append("{");
    let n = m.labels.len();
    let mut joined = String::new();
    let mut i: usize = 0;
    while i < n
        invariant
            0 <= i <= n,
            n == m.labels@.len(),
            joined@ == labels_joined(m@.labels.take(i as int)),
        decreases n - i,
    {
        proof {
            assert(m@.labels.take(i + 1).drop_last() =~= m@.labels.take(i as int));
            assert(m@.labels.take(i + 1).last() == m@.labels[i as int]);
        }
        if i > 0 {
            joined.append(",");
        }
        let pair = &m.labels[i];
        joined.append(pair.0.as_str());
        joined.append("=\"");
        joined.append(pair.1.as_str());
        joined.append("\"");
        proof {
            assert(joined@ =~= labels_joined(m@.labels.take(i + 1)));
        }
        i += 1;
    }
    proof {
        assert(m@.labels.take(n as int) =~= m@.labels);
    }
    line.append(joined.as_str());
    line.append("} ");
    line.append(m.metric.as_str());
    line.append("\n");
    proof {
        assert(line@ =~= metric_line(m@));
    }
    line
}

/// Render a block of exporter lines.
fn render_metric_block(ms: &Vec<FullMetric>) -> (r: String)
    ensures
        r@ == metric_block(ms@.map_values(|m: FullMetric| m@)),
{
    let ghost mv = ms@.map_values(|m: FullMetric| m@);
    let mut out = String::new();
    let n = ms.len();
    let mut i: usize = 0;
    while i < n
        invariant
            0 <= i <= n,
            n == ms@.len(),
            mv == ms@.map_values(|m: FullMetric| m@),
            mv.len() == n,
            out@ == metric_block(mv.take(i as int)),
        decreases n - i,
    {
        proof {
            assert(mv.take(i + 1).drop_last() =~= mv.take(i as int));
            assert(mv.take(i + 1).last() == mv[i as int]);
        }
        let line = render_metric_line(&ms[i]);
        out.append(line.as_str());
        proof {
            assert(out@ =~= metric_block(mv.take(i + 1)));
        }
        i += 1;
    }
    proof {
        assert(mv.take(n as int) =~= mv);
    }
    out
}

/// Render the whole exporter page: region metrics first, then test
/// metrics, the blocks separated by a blank line.
pub fn render_prometheus(region_metrics: &Vec<FullMetric>, test_metrics: &Vec<FullMetric>) -> (r:
    String)
    ensures
        r@ == metric_block(region_metrics@.map_values(|m: FullMetric| m@)) + "\n"@ + metric_block(
            test_metrics@.map_values(|m: FullMetric| m@),
        ) + "\n"@,
{
    let mut out = render_metric_block(region_metrics);
    out.append("\n");
    let tests = render_metric_block(test_metrics);
    out.append(tests.as_str());
    out.append("\n");
    proof {
        assert(out@ =~= metric_block(region_metrics@.map_values(|m: FullMetric| m@)) + "\n"@
            + metric_block(test_metrics@.map_values(|m: FullMetric| m@)) + "\n"@);
    }
    out
}

/// Create every configured region and group in the store, in `Initial`
/// state with the given time.
pub fn init_storage_regions(storage: &mut MemoryStorage, config: &Config, now_ms: i64)
    requires
        old(storage).wf(),
        0 <= now_ms <= MAX_TIMESTAMP_MS,
    ensures
        final(storage).wf(),
        final(storage).incident_log() == old(storage).incident_log(),
        final(storage).next_incident_id() == old(storage).next_incident_id(),
        forall|i: int|
            0 <= i < config.regions@.len() ==> {
                &&& final(storage).regions().contains_key((#[trigger] config.regions@[i]).name@)
                &&& final(storage).regions()[config.regions@[i].name@].status
                    == crate::storage::RegionState::Initial
                &&& final(storage).regions()[config.regions@[i].name@].updated_at == now_ms
                &&& final(storage).links().contains_key(config.regions@[i].name@)
            },
        forall|i: int, j: int|
            0 <= i < config.regions@.len() && 0 <= j < config.regions@[i].groups@.len() ==> {
                let k = crate::storage::group_key_spec(
                    (#[trigger] config.regions@[i]).name@,
                    (#[trigger] config.regions@[i].groups@[j]).name@,
                );
                &&& final(storage).groups().contains_key(k)
                &&& final(storage).groups()[k].status == crate::storage::GroupState::Initial
                &&& final(storage).groups()[k].updated_at == now_ms
                &&& final(storage).groups()[k].last_metrics@.len() == 0
                &&& final(storage).groups()[k].last_error is None
            },
{
    let region_count = config.regions.len();
    let mut i: usize = 0;
    while i < region_count
        invariant
            0 <= i <= region_count,
            region_count == config.regions@.len(),
            storage.wf(),
            0 <= now_ms <= MAX_TIMESTAMP_MS,
            storage.incident_log() == old(storage).incident_log(),
            storage.next_incident_id() == old(storage).next_incident_id(),
            forall|p: int|
                0 <= p < i ==> {
                    &&& storage.regions().contains_key((#[trigger] config.regions@[p]).name@)
                    &&& storage.regions()[config.regions@[p].name@].status
                        == crate::storage::RegionState::Initial
                    &&& storage.regions()[config.regions@[p].name@].updated_at == now_ms
                    &&& storage.links().contains_key(config.regions@[p].name@)
                },
            forall|p: int, q: int|
                0 <= p < i && 0 <= q < config.regions@[p].groups@.len() ==> {
                    let k = crate::storage::group_key_spec(
                        (#[trigger] config.regions@[p]).name@,
                        (#[trigger] config.regions@[p].groups@[q]).name@,
                    );
                    &&& storage.groups().contains_key(k)
                    &&& storage.groups()[k].status == crate::storage::GroupState::Initial
                    &&& storage.groups()[k].updated_at == now_ms
                    &&& storage.groups()[k].last_metrics@.len() == 0
                    &&& storage.groups()[k].last_error is None
                },
        decreases region_count - i,
    {
        let region = &config.regions[i];
        let mut linked_groups: Vec<String> = Vec::new();
        let group_count = region.groups.len();
        let mut j: usize = 0;
        while j < group_count
            invariant
                0 <= j <= group_count,
                0 <= i < config.regions@.len(),
                *region == config.regions@[i as int],
                group_count == region.groups@.len(),
                storage.wf(),
                0 <= now_ms <= MAX_TIMESTAMP_MS,
                linked_groups@.len() == j,
                forall|q: int|
                    0 <= q < j ==> #[trigger] linked_groups@[q] == region.groups@[q].name,
                storage.incident_log() == old(storage).incident_log(),
                storage.next_incident_id() == old(storage).next_incident_id(),
                forall|p: int|
                    0 <= p < i ==> {
                        &&& storage.regions().contains_key(
                            (#[trigger] config.regions@[p]).name@,
                        )
                        &&& storage.regions()[config.regions@[p].name@].status
                            == crate::storage::RegionState::Initial
                        &&& storage.regions()[config.regions@[p].name@].updated_at == now_ms
                        &&& storage.links().contains_key(config.regions@[p].name@)
                    },
                forall|p: int, q: int|
                    0 <= p < i && 0 <= q < config.regions@[p].groups@.len() ==> {
                        let k = crate::storage::group_key_spec(
                            (#[trigger] config.regions@[p]).name@,
                            (#[trigger] config.regions@[p].groups@[q]).name@,
                        );
                        &&& storage.groups().contains_key(k)
                        &&& storage.groups()[k].status == crate::storage::GroupState::Initial
                        &&& storage.groups()[k].updated_at == now_ms
                        &&& storage.groups()[k].last_metrics@.len() == 0
                        &&& storage.groups()[k].last_error is None
                    },
                forall|q: int|
                    0 <= q < j ==> {
                        let k = crate::storage::group_key_spec(
                            config.regions@[i as int].name@,
                            (#[trigger] region.groups@[q]).name@,
                        );
                        &&& storage.groups().contains_key(k)
                        &&& storage.groups()[k].status == crate::storage::GroupState::Initial
                        &&& storage.groups()[k].updated_at == now_ms
                        &&& storage.groups()[k].last_metrics@.len() == 0
                        &&& storage.groups()[k].last_error is None
                    },
            decreases group_count - j,
        {
            let group = &region.groups[j];
            storage.init_group(region.name.as_str(), group.name.as_str(), now_ms);
            linked_groups.push(group.name.clone());
            j += 1;
        }
        storage.init_region(region.name.as_str(), linked_groups, now_ms);
        i += 1;
    }
}

} // verus!
