//! The controller's in-memory state store.
//!
//! Regions and groups are keyed by name; the composite key
//! `"<region>.<group>"` identifies a group.  Incidents are an append-only
//! log whose ids start at 0 and stay consecutive — that is part of the
//! store's well-formedness and is preserved by every operation.

use vstd::prelude::*;
use vstd::string::*;

use crate::clock::{format_rfc3339, rfc3339_of, MAX_TIMESTAMP_MS};
use crate::dict::Dict;
use crate::error::Error;
use crate::model::{opt_str_view, GroupResultInput, GroupResultInputView, MetricInput, MetricInputView};
use crate::text::{first_index_of, last_index_of, lemma_first_index_of, lemma_last_index_of, str_equal, str_find_char, str_rfind_char};

verus! {

/// Health of a region.
#[derive(Clone, Copy, PartialEq, Eq, Structural, Debug)]
pub enum RegionState {
    Initial,
    Up,
    Warn,
    Down,
}

/// Health of a group.
#[derive(Clone, Copy, PartialEq, Eq, Structural, Debug)]
pub enum GroupState {
    Initial,
    Up,
    Warn,
    Down,
    Incident,
}

/// A region's stored state.
#[derive(Clone, Copy, PartialEq, Eq, Structural, Debug)]
pub struct RegionStatus {
    pub status: RegionState,
    pub updated_at: i64,
}

/// The groups linked to a region, fixed at initialization.
pub struct RegionMetadata {
    pub linked_groups: Vec<String>,
}

/// Abstract value of a stored or exported metric.
#[verifier::ext_equal]
pub ghost struct StoredMetricView {
    pub name: Seq<char>,
    pub labels: Seq<(Seq<char>, Seq<char>)>,
    pub metric: Seq<char>,
}

/// A stored metric of a group.
#[derive(Debug)]
pub struct GroupMetrics {
    pub name: String,
    pub labels: Vec<(String, String)>,
    pub metric: String,
}

impl View for GroupMetrics {
    type V = StoredMetricView;

    open spec fn view(&self) -> StoredMetricView {
        StoredMetricView {
            name: self.name@,
            labels: self.labels@.map_values(|p: (String, String)| p@),
            metric: self.metric@,
        }
    }
}

/// A metric enriched with its region and group labels, ready for export.
#[derive(Debug)]
pub struct FullMetric {
    pub name: String,
    pub labels: Vec<(String, String)>,
    pub metric: String,
}

impl View for FullMetric {
    type V = StoredMetricView;

    open spec fn view(&self) -> StoredMetricView {
        StoredMetricView {
            name: self.name@,
            labels: self.labels@.map_values(|p: (String, String)| p@),
            metric: self.metric@,
        }
    }
}

/// Abstract values of a stored metric list.
pub open spec fn metrics_view(s: Seq<GroupMetrics>) -> Seq<StoredMetricView> {
    s.map_values(|m: GroupMetrics| m@)
}

/// A group's stored state.
#[derive(Debug)]
pub struct GroupStatus {
    pub status: GroupState,
    pub updated_at: i64,
    pub last_metrics: Vec<GroupMetrics>,
    pub last_error: Option<String>,
}

/// One appended incident.
#[derive(Debug)]
pub struct IncidentRecord {
    pub id: u32,
    pub message: String,
    pub timestamp: i64,
    pub error_message: Option<String>,
    pub error_details: Option<String>,
}

/// The composite key of a group inside a region.
pub open spec fn group_key_spec(region: Seq<char>, group: Seq<char>) -> Seq<char> {
    region + seq!['.'] + group
}

/// Join a region and group name into the composite group key.
pub fn group_key(region: &str, group: &str) -> (r: String)
    ensures
        r@ == group_key_spec(region@, group@),
{
    let mut s = region.to_owned();
    s.append(".");
    s.append(group);
    proof {
        reveal_strlit(".");
        assert(s@ =~= group_key_spec(region@, group@));
    }
    s
}

/// Copy an optional string, preserving its value.
pub fn copy_opt_string(o: &Option<String>) -> (r: Option<String>)
    ensures
        r == *o,
{
    match o {
        Some(s) => Some(s.clone()),
        None => None,
    }
}

/// Copy a label list, preserving its value.
pub fn copy_labels(v: &Vec<(String, String)>) -> (r: Vec<(String, String)>)
    ensures
        r@ == v@,
{
    let mut out: Vec<(String, String)> = Vec::new();
    let n = v.len();
    let mut i: usize = 0;
    while i < n
        invariant
            0 <= i <= n,
            n == v@.len(),
            out@ =~= v@.take(i as int),
        decreases n - i,
    {
        let pair = &v[i];
        out.push((pair.0.clone(), pair.1.clone()));
        proof {
            assert(out@ =~= v@.take(i + 1int));
        }
        i += 1;
    }
    proof {
        assert(v@.take(n as int) =~= v@);
    }
    out
}

/// Copy a stored metric list, preserving its abstract value.
pub fn copy_group_metrics(v: &Vec<GroupMetrics>) -> (r: Vec<GroupMetrics>)
    ensures
        metrics_view(r@) == metrics_view(v@),
{
    let mut out: Vec<GroupMetrics> = Vec::new();
    let n = v.len();
    let mut i: usize = 0;
    while i < n
        invariant
            0 <= i <= n,
            n == v@.len(),
            out@.len() == i,
            forall|j: int| 0 <= j < i ==> #[trigger] out@[j]@ == v@[j]@,
        decreases n - i,
    {
        let m = &v[i];
        let copied = GroupMetrics {
            name: m.name.clone(),
            labels: copy_labels(&m.labels),
            metric: m.metric.clone(),
        };
        proof {
            assert(copied@ == v@[i as int]@);
        }
        out.push(copied);
        i += 1;
    }
    proof {
        assert(metrics_view(out@) =~= metrics_view(v@));
    }
    out
}

/// Copy a list of strings, preserving its value.
pub fn copy_string_vec(v: &Vec<String>) -> (r: Vec<String>)
    ensures
        r@ == v@,
{
    let mut out: Vec<String> = Vec::new();
    let n = v.len();
    let mut i: usize = 0;
    while i < n
        invariant
            0 <= i <= n,
            n == v@.len(),
            out@.len() == i,
            forall|j: int| 0 <= j < i ==> #[trigger] out@[j] == v@[j],
        decreases n - i,
    {
        out.push(v[i].clone());
        i += 1;
    }
    proof {
        assert(out@ =~= v@);
    }
    out
}

/// Whether `k` is the composite key of one of the first `n` linked groups.
pub open spec fn linked_key_upto(
    links: Seq<String>,
    region: Seq<char>,
    k: Seq<char>,
    n: int,
) -> bool {
    exists|i: int| 0 <= i < n && k == group_key_spec(region, links[i]@)
}

/// Whether `k` is the composite key of one of the linked groups.
pub open spec fn linked_key(links: Seq<String>, region: Seq<char>, k: Seq<char>) -> bool {
    linked_key_upto(links, region, k, links.len() as int)
}

/// Keys outside the first `n` linked groups are untouched between two group
/// maps.
pub open spec fn untouched_outside_links(
    links: Seq<String>,
    region: Seq<char>,
    now: Map<Seq<char>, GroupStatus>,
    before: Map<Seq<char>, GroupStatus>,
    n: int,
) -> bool {
    forall|k: Seq<char>|
        !(#[trigger] linked_key_upto(links, region, k, n)) ==> ((now.contains_key(k)
            <==> before.contains_key(k)) && (before.contains_key(k) ==> now[k] == before[k]))
}

/// The status names a region summary may carry.
pub open spec fn region_state_name(s: RegionState) -> Seq<char> {
    match s {
        RegionState::Initial => "initial"@,
        RegionState::Up => "up"@,
        RegionState::Warn => "warn"@,
        RegionState::Down => "down"@,
    }
}

/// The status names a group summary may carry.
pub open spec fn group_state_name(s: GroupState) -> Seq<char> {
    match s {
        GroupState::Initial => "initial"@,
        GroupState::Up => "up"@,
        GroupState::Warn => "warn"@,
        GroupState::Down => "down"@,
        GroupState::Incident => "incident"@,
    }
}

/// The numeric encoding of a region state in the exporter.
pub open spec fn region_state_metric(s: RegionState) -> Seq<char> {
    match s {
        RegionState::Down => "0"@,
        RegionState::Initial => "1"@,
        RegionState::Warn => "2"@,
        RegionState::Up => "3"@,
    }
}

/// A region, rendered for the API.
#[derive(Debug)]
pub struct RegionSummaryItem {
    pub name: String,
    pub status: String,
    pub last_update: String,
}

/// A group, rendered for the API.
#[derive(Debug)]
pub struct GroupSummaryItem {
    pub name: String,
    pub status: String,
    pub last_update: String,
}

/// The whole store, rendered for the API.
#[derive(Debug)]
pub struct RegionSummary {
    pub regions: Vec<RegionSummaryItem>,
    pub groups: Vec<GroupSummaryItem>,
    pub incidents: Vec<IncidentItem>,
}

/// Abstract values of a label list.
pub open spec fn labels_view(s: Seq<(String, String)>) -> Seq<(Seq<char>, Seq<char>)> {
    s.map_values(|p: (String, String)| p@)
}

/// Position of a label key in a label list, if present.
pub open spec fn label_index(ls: Seq<(Seq<char>, Seq<char>)>, k: Seq<char>) -> Option<int>
    decreases ls.len(),
{
    if ls.len() == 0 {
        None
    } else if ls[0].0 == k {
        Some(0int)
    } else {
        match label_index(ls.skip(1), k) {
            Some(i) => Some(i + 1),
            None => None,
        }
    }
}

/// What `label_index` returns: the least position carrying the key.
pub proof fn lemma_label_index(ls: Seq<(Seq<char>, Seq<char>)>, k: Seq<char>)
    ensures
        match label_index(ls, k) {
            Some(i) => 0 <= i < ls.len() && ls[i].0 == k && forall|j: int|
                0 <= j < i ==> ls[j].0 != k,
            None => forall|j: int| 0 <= j < ls.len() ==> ls[j].0 != k,
        },
    decreases ls.len(),
{
    if ls.len() > 0 && ls[0].0 != k {
        lemma_label_index(ls.skip(1), k);
        if label_index(ls.skip(1), k) is Some {
            let i = label_index(ls.skip(1), k)->Some_0;
            assert(ls.skip(1)[i] == ls[i + 1]);
            assert forall|j: int| 0 <= j < i + 1 implies ls[j].0 != k by {
                if j >= 1 {
                    assert(ls.skip(1)[j - 1].0 != k);
                    assert(ls.skip(1)[j - 1] == ls[j]);
                }
            }
        } else {
            assert forall|j: int| 0 <= j < ls.len() implies ls[j].0 != k by {
                if j >= 1 {
                    assert(ls.skip(1)[j - 1].0 != k);
                    assert(ls.skip(1)[j - 1] == ls[j]);
                }
            }
        }
    }
}

/// A label list with one key set: replaced in place, or appended at the end.
pub open spec fn set_label(ls: Seq<(Seq<char>, Seq<char>)>, k: Seq<char>, v: Seq<char>) -> Seq<
    (Seq<char>, Seq<char>),
> {
    match label_index(ls, k) {
        Some(i) => ls.update(i, (k, v)),
        None => ls.push((k, v)),
    }
}

/// Copy a label list with one key set.
pub fn with_label(ls: &Vec<(String, String)>, key: &str, value: &str) -> (r: Vec<(String, String)>)
    ensures
        labels_view(r@) == set_label(labels_view(ls@), key@, value@),
{
    proof {
        lemma_label_index(labels_view(ls@), key@);
    }
    let n = ls.len();
    let mut pos: Option<usize> = None;
    let mut i: usize = 0;
    while i < n
        invariant
            0 <= i <= n,
            n == ls@.len(),
            match pos {
                Some(p) => p < n && labels_view(ls@)[p as int].0 == key@ && forall|j: int|
                    0 <= j < p ==> labels_view(ls@)[j].0 != key@,
                None => forall|j: int| 0 <= j < i ==> labels_view(ls@)[j].0 != key@,
            },
        decreases n - i,
    {
        if pos.is_none() && str_equal(ls[i].0.as_str(), key) {
            pos = Some(i);
        }
        i += 1;
    }
    match pos {
        Some(p) => {
            proof {
                assert(label_index(labels_view(ls@), key@) == Some(p as int));
            }
            let mut out: Vec<(String, String)> = Vec::new();
            let mut j: usize = 0;
            while j < n
                invariant
                    0 <= j <= n,
                    n == ls@.len(),
                    p < n,
                    out@.len() == j,
                    forall|q: int|
                        0 <= q < j ==> #[trigger] out@[q]@ == (if q == p as int {
                            (key@, value@)
                        } else {
                            ls@[q]@
                        }),
                decreases n - j,
            {
                if j == p {
                    out.push((key.to_owned(), value.to_owned()));
                } else {
                    let pair = &ls[j];
                    out.push((pair.0.clone(), pair.1.clone()));
                }
                j += 1;
            }
            proof {
                assert(labels_view(out@) =~= set_label(labels_view(ls@), key@, value@));
            }
            out
        },
        None => {
            proof {
                assert(label_index(labels_view(ls@), key@) is None);
            }
            let mut out = copy_labels(ls);
            out.push((key.to_owned(), value.to_owned()));
            proof {
                assert(labels_view(out@) =~= set_label(labels_view(ls@), key@, value@));
            }
            out
        },
    }
}

/// The region label a composite key yields: the part before the first dot.
pub open spec fn region_label_of(key: Seq<char>) -> Seq<char> {
    match first_index_of(key, '.') {
        Some(i) => key.subrange(0, i),
        None => key,
    }
}

/// The group label a composite key yields: the part after the last dot.
pub open spec fn group_label_of(key: Seq<char>) -> Seq<char> {
    match last_index_of(key, '.') {
        Some(i) => key.subrange(i + 1, key.len() as int),
        None => key,
    }
}

/// Extract the region label from a composite key.
pub fn split_region_label(key: &str) -> (r: String)
    ensures
        r@ == region_label_of(key@),
{
    proof {
        lemma_first_index_of(key@, '.');
    }
    match str_find_char(key, '.') {
        Some(i) => key.substring_char(0, i).to_owned(),
        None => key.to_owned(),
    }
}

/// Extract the group label from a composite key.
pub fn split_group_label(key: &str) -> (r: String)
    ensures
        r@ == group_label_of(key@),
{
    proof {
        lemma_last_index_of(key@, '.');
    }
    let n = key.unicode_len();
    match str_rfind_char(key, '.') {
        Some(i) => key.substring_char(i + 1, n).to_owned(),
        None => key.to_owned(),
    }
}

/// A stored metric enriched with the region and group labels of its key.
pub open spec fn enriched_metric(m: StoredMetricView, key: Seq<char>) -> StoredMetricView {
    StoredMetricView {
        name: m.name,
        labels: set_label(
            set_label(m.labels, "region"@, region_label_of(key)),
            "group"@,
            group_label_of(key),
        ),
        metric: m.metric,
    }
}

/// The exporter metrics one group entry yields.
pub open spec fn group_test_metrics(item: (String, GroupStatus)) -> Seq<StoredMetricView> {
    metrics_view(item.1.last_metrics@).map_values(
        |m: StoredMetricView| enriched_metric(m, item.0@),
    )
}

/// The exporter metrics all group entries yield, in entry order.
pub open spec fn test_metric_seq(items: Seq<(String, GroupStatus)>) -> Seq<StoredMetricView>
    decreases items.len(),
{
    if items.len() == 0 {
        Seq::empty()
    } else {
        test_metric_seq(items.drop_last()) + group_test_metrics(items.last())
    }
}

/// One incident, rendered for the API.
#[derive(Debug)]
pub struct IncidentItem {
    pub id: u32,
    pub message: String,
    pub timestamp: String,
    pub error_message: Option<String>,
    pub error_details: Option<String>,
}

/// The group state a heartbeat entry maps to.
pub open spec fn mapped_state(g: GroupResultInputView) -> GroupState {
    if !g.working {
        GroupState::Down
    } else if g.has_warnings {
        GroupState::Warn
    } else {
        GroupState::Up
    }
}

/// Abstract values of a heartbeat body.
pub open spec fn results_view(rs: Seq<GroupResultInput>) -> Seq<GroupResultInputView> {
    rs.map_values(|g: GroupResultInput| g@)
}

/// Whether any of the first `n` entries reports a failure or a warning.
pub open spec fn has_warning_upto(rs: Seq<GroupResultInputView>, n: int) -> bool {
    exists|i: int| 0 <= i < n && (!(#[trigger] rs[i]).working || rs[i].has_warnings)
}

/// Whether any entry reports a failure or a warning.
pub open spec fn heartbeat_has_warning(rs: Seq<GroupResultInputView>) -> bool {
    has_warning_upto(rs, rs.len() as int)
}

/// Entry names are pairwise distinct.
pub open spec fn distinct_names(rs: Seq<GroupResultInputView>) -> bool {
    forall|i: int, j: int| 0 <= i < j < rs.len() ==> rs[i].name != rs[j].name
}

/// Whether `k` is the key of one of the first `n` entries.
pub open spec fn result_key_upto(
    rs: Seq<GroupResultInputView>,
    region: Seq<char>,
    k: Seq<char>,
    n: int,
) -> bool {
    exists|i: int| 0 <= i < n && k == group_key_spec(region, (#[trigger] rs[i]).name)
}

/// Keys not named by the first `n` entries are untouched between two group
/// maps.
pub open spec fn untouched_outside_results(
    rs: Seq<GroupResultInputView>,
    region: Seq<char>,
    now: Map<Seq<char>, GroupStatus>,
    before: Map<Seq<char>, GroupStatus>,
    n: int,
) -> bool {
    forall|k: Seq<char>|
        !(#[trigger] result_key_upto(rs, region, k, n)) ==> ((now.contains_key(k)
            <==> before.contains_key(k)) && (before.contains_key(k) ==> now[k] == before[k]))
}

/// The stored metrics a heartbeat entry carries.
pub open spec fn input_metrics_view(ms: Seq<MetricInputView>) -> Seq<StoredMetricView> {
    ms.map_values(
        |m: MetricInputView| StoredMetricView { name: m.name, labels: m.labels, metric: m.metric },
    )
}

/// What one heartbeat entry does to the group map: a failing entry leaves a
/// group already in `Incident` untouched; a `Down` refresh of an unknown
/// group fails and changes nothing; any other entry refreshes the group.
pub open spec fn group_heartbeat_outcome(
    before: Map<Seq<char>, GroupStatus>,
    after: Map<Seq<char>, GroupStatus>,
    region: Seq<char>,
    g: GroupResultInputView,
    now_ms: i64,
) -> bool {
    let k = group_key_spec(region, g.name);
    if !g.working && before.contains_key(k) && before[k].status == GroupState::Incident {
        after.contains_key(k) && after[k] == before[k]
    } else if mapped_state(g) == GroupState::Down && !before.contains_key(k) {
        !after.contains_key(k)
    } else {
        &&& after.contains_key(k)
        &&& after[k].status == mapped_state(g)
        &&& after[k].updated_at == if mapped_state(g) == GroupState::Down {
            before[k].updated_at
        } else {
            now_ms
        }
        &&& metrics_view(after[k].last_metrics@) == input_metrics_view(g.metrics)
        &&& opt_str_view(after[k].last_error) == g.error_message
    }
}

/// Composite keys of one region are injective in the group name.
pub proof fn lemma_group_key_injective(region: Seq<char>, a: Seq<char>, b: Seq<char>)
    ensures
        group_key_spec(region, a) == group_key_spec(region, b) ==> a == b,
{
    if group_key_spec(region, a) == group_key_spec(region, b) {
        assert(group_key_spec(region, a).len() == region.len() + 1 + a.len());
        assert(group_key_spec(region, b).len() == region.len() + 1 + b.len());
        assert(a.len() == b.len());
        assert forall|x: int| 0 <= x < a.len() implies a[x] == b[x] by {
            assert(group_key_spec(region, a)[region.len() + 1 + x] == a[x]);
            assert(group_key_spec(region, b)[region.len() + 1 + x] == b[x]);
        }
        assert(a =~= b);
    }
}

/// Convert heartbeat metrics into stored metrics, preserving their values.
pub fn convert_metric_inputs(ms: &Vec<MetricInput>) -> (r: Vec<GroupMetrics>)
    ensures
        metrics_view(r@) == input_metrics_view(ms@.map_values(|m: MetricInput| m@)),
{
    let mut out: Vec<GroupMetrics> = Vec::new();
    let n = ms.len();
    let mut i: usize = 0;
    while i < n
        invariant
            0 <= i <= n,
            n == ms@.len(),
            out@.len() == i,
            forall|j: int|
                0 <= j < i ==> #[trigger] out@[j]@ == (StoredMetricView {
                    name: ms@[j]@.name,
                    labels: ms@[j]@.labels,
                    metric: ms@[j]@.metric,
                }),
        decreases n - i,
    {
        let m = &ms[i];
        out.push(
            GroupMetrics {
                name: m.name.clone(),
                labels: copy_labels(&m.labels),
                metric: m.metric.clone(),
            },
        );
        i += 1;
    }
    proof {
        assert(metrics_view(out@) =~= input_metrics_view(ms@.map_values(|m: MetricInput| m@)));
    }
    out
}

/// The in-memory store behind the controller.
pub struct MemoryStorage {
    region_storage: Dict<RegionStatus>,
    region_metadata: Dict<RegionMetadata>,
    group_storage: Dict<GroupStatus>,
    incidents: Vec<IncidentRecord>,
    last_incident_id: u32,
}

impl MemoryStorage {
    /// Region states by region name.
    pub closed spec fn regions(&self) -> Map<Seq<char>, RegionStatus> {
        self.region_storage.table()
    }

    /// Region entries in insertion order.
    pub closed spec fn region_items(&self) -> Seq<(String, RegionStatus)> {
        self.region_storage.items()
    }

    /// Linked-group lists by region name.
    pub closed spec fn links(&self) -> Map<Seq<char>, RegionMetadata> {
        self.region_metadata.table()
    }

    /// Group states by composite key.
    pub closed spec fn groups(&self) -> Map<Seq<char>, GroupStatus> {
        self.group_storage.table()
    }

    /// Group entries in insertion order.
    pub closed spec fn group_items(&self) -> Seq<(String, GroupStatus)> {
        self.group_storage.items()
    }

    /// The incident log, oldest first.
    pub closed spec fn incident_log(&self) -> Seq<IncidentRecord> {
        self.incidents@
    }

    /// The id the next appended incident will get.
    pub closed spec fn next_incident_id(&self) -> u32 {
        self.last_incident_id
    }

    /// Well-formedness: unique keys, a dense incident log whose ids are the
    /// positions, and timestamps inside the range formatters accept.
    pub closed spec fn wf(&self) -> bool {
        &&& self.region_storage.wf()
        &&& self.region_metadata.wf()
        &&& self.group_storage.wf()
        &&& self.incidents@.len() == self.last_incident_id as int
        &&& forall|i: int|
            0 <= i < self.incidents@.len() ==> #[trigger] self.incidents@[i].id == i as u32
        &&& forall|i: int|
            0 <= i < self.incidents@.len() ==> 0 <= #[trigger] self.incidents@[i].timestamp
                <= MAX_TIMESTAMP_MS
        &&& forall|k: Seq<char>|
            self.regions().dom().contains(k) ==> 0 <= #[trigger] self.regions()[k].updated_at
                <= MAX_TIMESTAMP_MS
        &&& forall|k: Seq<char>|
            self.groups().dom().contains(k) ==> 0 <= #[trigger] self.groups()[k].updated_at
                <= MAX_TIMESTAMP_MS
    }

    /// A fresh, empty store.
    pub fn new() -> (s: MemoryStorage)
        ensures
            s.wf(),
            s.regions() == Map::<Seq<char>, RegionStatus>::empty(),
            s.links() == Map::<Seq<char>, RegionMetadata>::empty(),
            s.groups() == Map::<Seq<char>, GroupStatus>::empty(),
            s.incident_log() == Seq::<IncidentRecord>::empty(),
            s.next_incident_id() == 0,
            s.region_items() == Seq::<(String, RegionStatus)>::empty(),
            s.group_items() == Seq::<(String, GroupStatus)>::empty(),
    {
        MemoryStorage {
            region_storage: Dict::new(),
            region_metadata: Dict::new(),
            group_storage: Dict::new(),
            incidents: Vec::new(),
            last_incident_id: 0,
        }
    }

    /// Create a region in `Initial` state and record its linked groups.
    pub fn init_region(&mut self, region: &str, linked_groups: Vec<String>, now_ms: i64)
        requires
            old(self).wf(),
            0 <= now_ms <= MAX_TIMESTAMP_MS,
        ensures
            final(self).wf(),
            final(self).regions() == old(self).regions().insert(
                region@,
                (RegionStatus { status: RegionState::Initial, updated_at: now_ms }),
            ),
            final(self).links() == old(self).links().insert(
                region@,
                (RegionMetadata { linked_groups }),
            ),
            final(self).groups() == old(self).groups(),
            final(self).incident_log() == old(self).incident_log(),
            final(self).next_incident_id() == old(self).next_incident_id(),
    {
        self.region_storage.insert(
            region.to_owned(),
            RegionStatus { status: RegionState::Initial, updated_at: now_ms },
        );
        self.region_metadata.insert(region.to_owned(), RegionMetadata { linked_groups });
    }

    /// Create a group in `Initial` state, with no metrics and no error.
    pub fn init_group(&mut self, region: &str, group: &str, now_ms: i64)
        requires
            old(self).wf(),
            0 <= now_ms <= MAX_TIMESTAMP_MS,
        ensures
            final(self).wf(),
            final(self).groups() == old(self).groups().insert(
                group_key_spec(region@, group@),
                final(self).groups()[group_key_spec(region@, group@)],
            ),
            final(self).groups()[group_key_spec(region@, group@)].status == GroupState::Initial,
            final(self).groups()[group_key_spec(region@, group@)].updated_at == now_ms,
            final(self).groups()[group_key_spec(region@, group@)].last_metrics@
                == Seq::<GroupMetrics>::empty(),
            final(self).groups()[group_key_spec(region@, group@)].last_error is None,
            final(self).regions() == old(self).regions(),
            final(self).links() == old(self).links(),
            final(self).incident_log() == old(self).incident_log(),
            final(self).next_incident_id() == old(self).next_incident_id(),
    {
        let key = group_key(region, group);
        self.group_storage.insert(
            key,
            GroupStatus {
                status: GroupState::Initial,
                updated_at: now_ms,
                last_metrics: Vec::new(),
                last_error: None,
            },
        );
    }

    /// Read a region's state.
    pub fn get_region_status(&self, region: &str) -> (r: Option<&RegionStatus>)
        requires
            self.wf(),
        ensures
            match r {
                Some(s) => self.regions().contains_key(region@) && *s == self.regions()[region@],
                None => !self.regions().contains_key(region@),
            },
    {
        self.region_storage.get(region)
    }

    /// Read a group's state.
    pub fn get_group_status(&self, region: &str, group: &str) -> (r: Option<&GroupStatus>)
        requires
            self.wf(),
        ensures
            match r {
                Some(s) => self.groups().contains_key(group_key_spec(region@, group@)) && *s
                    == self.groups()[group_key_spec(region@, group@)],
                None => !self.groups().contains_key(group_key_spec(region@, group@)),
            },
    {
        let key = group_key(region, group);
        self.group_storage.get(key.as_str())
    }

    /// Refresh a region from a heartbeat: `Warn` when any group warned or
    /// failed, `Up` otherwise, stamped with the given time.
    pub fn refresh_region(&mut self, region: &str, has_warnings: bool, now_ms: i64)
        requires
            old(self).wf(),
            0 <= now_ms <= MAX_TIMESTAMP_MS,
        ensures
            final(self).wf(),
            final(self).regions() == old(self).regions().insert(
                region@,
                (RegionStatus {
                    status: if has_warnings {
                        RegionState::Warn
                    } else {
                        RegionState::Up
                    },
                    updated_at: now_ms,
                }),
            ),
            final(self).links() == old(self).links(),
            final(self).groups() == old(self).groups(),
            final(self).incident_log() == old(self).incident_log(),
            final(self).next_incident_id() == old(self).next_incident_id(),
    {
        let status = if has_warnings {
            RegionState::Warn
        } else {
            RegionState::Up
        };
        self.region_storage.insert(region.to_owned(), RegionStatus { status, updated_at: now_ms });
    }

    /// Refresh a group from a heartbeat.  A `Down` refresh keeps the old
    /// timestamp, so the group's silence keeps ageing towards its incident
    /// threshold; any other state stamps the given time.  Metrics and error
    /// are replaced in all cases.  Fails only when a `Down` refresh names a
    /// group that was never initialized.
    pub fn refresh_group(
        &mut self,
        region: &str,
        group: &str,
        status: GroupState,
        last_metrics: Vec<GroupMetrics>,
        last_error: Option<String>,
        now_ms: i64,
    ) -> (r: Result<(), Error>)
        requires
            old(self).wf(),
            0 <= now_ms <= MAX_TIMESTAMP_MS,
        ensures
            final(self).wf(),
            final(self).regions() == old(self).regions(),
            final(self).links() == old(self).links(),
            final(self).incident_log() == old(self).incident_log(),
            final(self).next_incident_id() == old(self).next_incident_id(),
            status != GroupState::Down ==> r is Ok,
            ({
                let k = group_key_spec(region@, group@);
                let before = old(self).groups();
                ((status == GroupState::Up || status == GroupState::Warn)
                    && before.contains_key(k) && now_ms > before[k].updated_at)
                    ==> final(self).groups()[k].updated_at > before[k].updated_at
            }),
            ({
                let k = group_key_spec(region@, group@);
                match r {
                    Ok(_) => {
                        &&& final(self).groups() == old(self).groups().insert(
                            k,
                            final(self).groups()[k],
                        )
                        &&& final(self).groups()[k].status == status
                        &&& final(self).groups()[k].last_metrics == last_metrics
                        &&& final(self).groups()[k].last_error == last_error
                        &&& final(self).groups()[k].updated_at == if status == GroupState::Down {
                            old(self).groups()[k].updated_at
                        } else {
                            now_ms
                        }
                        &&& status == GroupState::Down ==> old(self).groups().contains_key(k)
                    },
                    Err(e) => {
                        &&& status == GroupState::Down
                        &&& !old(self).groups().contains_key(k)
                        &&& final(self).groups() == old(self).groups()
                        &&& e@.message == "Could not find group storage "@ + k
                        &&& e@.details is None
                    },
                }
            }),
    {
        let key = group_key(region, group);
        let updated_at: i64 = if matches!(status, GroupState::Down) {
            match self.group_storage.get(key.as_str()) {
                Some(old_status) => old_status.updated_at,
                None => {
                    let mut msg = "Could not find group storage ".to_owned();
                    msg.append(key.as_str());
                    return Err(Error::basic(msg));
                },
            }
        } else {
            now_ms
        };
        self.group_storage.insert(
            key,
            GroupStatus { status, updated_at, last_metrics, last_error },
        );
        Ok(())
    }

    /// Append an incident with the next id.
    fn push_incident(&mut self, message: String, error_message: Option<String>, now_ms: i64)
        requires
            old(self).wf(),
            0 <= now_ms <= MAX_TIMESTAMP_MS,
            old(self).next_incident_id() < u32::MAX,
        ensures
            final(self).wf(),
            final(self).regions() == old(self).regions(),
            final(self).links() == old(self).links(),
            final(self).groups() == old(self).groups(),
            final(self).incident_log() == old(self).incident_log().push(
                final(self).incident_log().last(),
            ),
            final(self).incident_log().last().id == old(self).next_incident_id(),
            final(self).incident_log().last().message == message,
            final(self).incident_log().last().timestamp == now_ms,
            final(self).incident_log().last().error_message == error_message,
            final(self).incident_log().last().error_details is None,
            final(self).next_incident_id() == old(self).next_incident_id() + 1,
    {
        let record = IncidentRecord {
            id: self.last_incident_id,
            message,
            timestamp: now_ms,
            error_message,
            error_details: None,
        };
        self.incidents.push(record);
        self.last_incident_id += 1;
    }

    /// Declare a region down: keep its timestamp, cascade every linked group
    /// to `Incident` stamped now, and append one incident naming the silence
    /// threshold.
    pub fn trigger_region_incident(&mut self, region: &str, ms_threshold: u64, now_ms: i64) -> (r:
        Result<(), Error>)
        requires
            old(self).wf(),
            0 <= now_ms <= MAX_TIMESTAMP_MS,
            old(self).next_incident_id() < u32::MAX,
        ensures
            final(self).wf(),
            final(self).links() == old(self).links(),
            r is Ok <==> (old(self).regions().contains_key(region@) && old(
                self,
            ).links().contains_key(region@)),
            match r {
                Ok(_) => {
                    let links = old(self).links()[region@].linked_groups@;
                    &&& final(self).regions() == old(self).regions().insert(
                        region@,
                        (RegionStatus {
                            status: RegionState::Down,
                            updated_at: old(self).regions()[region@].updated_at,
                        }),
                    )
                    &&& forall|idx: int|
                        0 <= idx < links.len() ==> {
                            let k = group_key_spec(region@, (#[trigger] links[idx])@);
                            &&& final(self).groups().contains_key(k)
                            &&& final(self).groups()[k].status == GroupState::Incident
                            &&& final(self).groups()[k].updated_at == now_ms
                            &&& final(self).groups()[k].last_metrics@.len() == 0
                            &&& final(self).groups()[k].last_error is None
                        }
                    &&& untouched_outside_links(
                        links,
                        region@,
                        final(self).groups(),
                        old(self).groups(),
                        links.len() as int,
                    )
                    &&& final(self).incident_log() == old(self).incident_log().push(
                        final(self).incident_log().last(),
                    )
                    &&& final(self).incident_log().last().id == old(self).next_incident_id()
                    &&& final(self).incident_log().last().message@ == "Region "@ + region@
                        + " is DOWN"@
                    &&& final(self).incident_log().last().timestamp == now_ms
                    &&& opt_str_view(final(self).incident_log().last().error_message) == Some(
                        "Region relay has not sent heartbeat in time ("@ + crate::text::dec_str_of(
                            ms_threshold as nat,
                        ) + "ms threshold exceeded)"@,
                    )
                    &&& final(self).incident_log().last().error_details is None
                    &&& final(self).next_incident_id() == old(self).next_incident_id() + 1
                },
                Err(e) => {
                    &&& final(self).groups() == old(self).groups()
                    &&& final(self).incident_log() == old(self).incident_log()
                    &&& final(self).next_incident_id() == old(self).next_incident_id()
                    &&& e@.details is None
                    &&& if old(self).regions().contains_key(region@) {
                        &&& final(self).regions() == old(self).regions().insert(
                            region@,
                            (RegionStatus {
                                status: RegionState::Down,
                                updated_at: old(self).regions()[region@].updated_at,
                            }),
                        )
                        &&& e@.message == "Could not find region metadata "@ + region@
                    } else {
                        &&& final(self).regions() == old(self).regions()
                        &&& e@.message == "Could not find region storage "@ + region@
                    }
                },
            },
    {
        let old_status: RegionStatus = match self.region_storage.get(region) {
            Some(s) => *s,
            None => {
                let mut msg = "Could not find region storage ".to_owned();
                msg.append(region);
                return Err(Error::basic(msg));
            },
        };
        self.region_storage.insert(
            region.to_owned(),
            RegionStatus { status: RegionState::Down, updated_at: old_status.updated_at },
        );
        let names: Vec<String> = match self.region_metadata.get(region) {
            Some(md) => copy_string_vec(&md.linked_groups),
            None => {
                let mut msg = "Could not find region metadata ".to_owned();
                msg.append(region);
                return Err(Error::basic(msg));
            },
        };
        let ghost links = names@;
        let ghost groups_before = self.groups();
        let ghost regions_snapshot = self.regions();
        let ghost links_snapshot = self.links();
        let ghost log_snapshot = self.incident_log();
        let ghost id_snapshot = self.next_incident_id();
        let count = names.len();
        let mut idx: usize = 0;
        while idx < count
            invariant
                0 <= idx <= count,
                count == links.len(),
                names@ == links,
                self.wf(),
                0 <= now_ms <= MAX_TIMESTAMP_MS,
                self.regions() == regions_snapshot,
                self.links() == links_snapshot,
                self.incident_log() == log_snapshot,
                self.next_incident_id() == id_snapshot,
                forall|j: int|
                    0 <= j < idx ==> {
                        let k = group_key_spec(region@, (#[trigger] links[j])@);
                        &&& self.groups().contains_key(k)
                        &&& self.groups()[k].status == GroupState::Incident
                        &&& self.groups()[k].updated_at == now_ms
                        &&& self.groups()[k].last_metrics@.len() == 0
                        &&& self.groups()[k].last_error is None
                    },
                untouched_outside_links(links, region@, self.groups(), groups_before, idx as int),
            decreases count - idx,
        {
            let key = group_key(region, names[idx].as_str());
            let ghost pre_groups = self.groups();
            let ghost k0 = group_key_spec(region@, links[idx as int]@);
            self.group_storage.insert(
                key,
                GroupStatus {
                    status: GroupState::Incident,
                    updated_at: now_ms,
                    last_metrics: Vec::new(),
                    last_error: None,
                },
            );
            proof {
                assert(self.groups() =~= pre_groups.insert(
                    k0,
                    self.groups()[k0],
                ));
                assert(linked_key_upto(links, region@, k0, idx + 1));
                assert(untouched_outside_links(
                    links,
                    region@,
                    self.groups(),
                    groups_before,
                    idx + 1,
                )) by {
                    assert forall|k: Seq<char>|
                        !(#[trigger] linked_key_upto(links, region@, k, idx + 1)) implies ((
                    self.groups().contains_key(k) <==> groups_before.contains_key(k)) && (
                    groups_before.contains_key(k) ==> self.groups()[k] == groups_before[k])) by {
                        assert(k != k0);
                        assert(!linked_key_upto(links, region@, k, idx as int));
                        assert(self.groups().contains_key(k) <==> pre_groups.contains_key(k));
                        assert(pre_groups.contains_key(k) <==> groups_before.contains_key(k));
                    }
                }
            }
            idx += 1;
        }
        let mut message = "Region ".to_owned();
        message.append(region);
        message.append(" is DOWN");
        let mut error_message = "Region relay has not sent heartbeat in time (".to_owned();
        let threshold_text = crate::text::u64_to_dec(ms_threshold);
        error_message.append(threshold_text.as_str());
        error_message.append("ms threshold exceeded)");
        proof {
            assert(message@ =~= "Region "@ + region@ + " is DOWN"@);
            assert(error_message@ =~= "Region relay has not sent heartbeat in time ("@
                + crate::text::dec_str_of(ms_threshold as nat) + "ms threshold exceeded)"@);
        }
        self.push_incident(message, Some(error_message), now_ms);
        Ok(())
    }

    /// Promote a down group to `Incident`: keep its timestamp, metrics and
    /// error, and append one incident referencing that error.
    pub fn trigger_group_incident(&mut self, region: &str, group: &str, now_ms: i64) -> (r: Result<
        (),
        Error,
    >)
        requires
            old(self).wf(),
            0 <= now_ms <= MAX_TIMESTAMP_MS,
            old(self).next_incident_id() < u32::MAX,
        ensures
            final(self).wf(),
            final(self).regions() == old(self).regions(),
            final(self).links() == old(self).links(),
            r is Ok <==> old(self).groups().contains_key(group_key_spec(region@, group@)),
            ({
                let k = group_key_spec(region@, group@);
                match r {
                    Ok(_) => {
                        &&& final(self).groups() == old(self).groups().insert(
                            k,
                            final(self).groups()[k],
                        )
                        &&& final(self).groups()[k].status == GroupState::Incident
                        &&& final(self).groups()[k].updated_at == old(self).groups()[k].updated_at
                        &&& metrics_view(final(self).groups()[k].last_metrics@) == metrics_view(
                            old(self).groups()[k].last_metrics@,
                        )
                        &&& final(self).groups()[k].last_error == old(self).groups()[k].last_error
                        &&& final(self).incident_log() == old(self).incident_log().push(
                            final(self).incident_log().last(),
                        )
                        &&& final(self).incident_log().last().id == old(self).next_incident_id()
                        &&& final(self).incident_log().last().message@ == "Group "@ + k
                            + " is DOWN"@
                        &&& final(self).incident_log().last().timestamp == now_ms
                        &&& opt_str_view(final(self).incident_log().last().error_message) == Some(
                            "Triggered from group relay ("@ + (match old(
                                self,
                            ).groups()[k].last_error {
                                Some(s) => s@,
                                None => "-"@,
                            }) + ")"@,
                        )
                        &&& final(self).incident_log().last().error_details is None
                        &&& final(self).next_incident_id() == old(self).next_incident_id() + 1
                    },
                    Err(e) => {
                        &&& final(self).groups() == old(self).groups()
                        &&& final(self).incident_log() == old(self).incident_log()
                        &&& final(self).next_incident_id() == old(self).next_incident_id()
                        &&& e@.message == "Could not find group storage "@ + k
                        &&& e@.details is None
                    },
                }
            }),
    {
        let key = group_key(region, group);
        let found: Option<(i64, Vec<GroupMetrics>, Option<String>)> = match self.group_storage.get(
            key.as_str(),
        ) {
            Some(old_status) => Some(
                (
                    old_status.updated_at,
                    copy_group_metrics(&old_status.last_metrics),
                    copy_opt_string(&old_status.last_error),
                ),
            ),
            None => None,
        };
        let (updated_at, last_metrics, last_error) = match found {
            Some(t) => t,
            None => {
                let mut msg = "Could not find group storage ".to_owned();
                msg.append(key.as_str());
                return Err(Error::basic(msg));
            },
        };
        let last_error_text: String = match &last_error {
            Some(s) => s.clone(),
            None => "-".to_owned(),
        };
        self.group_storage.insert(
            key.clone(),
            GroupStatus {
                status: GroupState::Incident,
                updated_at,
                last_metrics,
                last_error,
            },
        );
        let mut message = "Group ".to_owned();
        message.append(key.as_str());
        message.append(" is DOWN");
        let mut error_message = "Triggered from group relay (".to_owned();
        error_message.append(last_error_text.as_str());
        error_message.append(")");
        proof {
            assert(message@ =~= "Group "@ + group_key_spec(region@, group@) + " is DOWN"@);
        }
        self.push_incident(message, Some(error_message), now_ms);
        Ok(())
    }

    /// How many incidents have been appended.
    pub fn incident_count(&self) -> (n: u32)
        ensures
            n == self.next_incident_id(),
    {
        self.last_incident_id
    }

    /// Render the whole incident log for the API, oldest first.
    pub fn find_incidents(&self) -> (r: Vec<IncidentItem>)
        requires
            self.wf(),
        ensures
            r@.len() == self.incident_log().len(),
            forall|i: int|
                0 <= i < r@.len() ==> {
                    &&& (#[trigger] r@[i]).id == self.incident_log()[i].id
                    &&& r@[i].message == self.incident_log()[i].message
                    &&& r@[i].timestamp@ == rfc3339_of(self.incident_log()[i].timestamp as int)
                    &&& r@[i].error_message == self.incident_log()[i].error_message
                    &&& r@[i].error_details == self.incident_log()[i].error_details
                },
    {
        let mut out: Vec<IncidentItem> = Vec::new();
        let n = self.incidents.len();
        let mut i: usize = 0;
        while i < n
            invariant
                0 <= i <= n,
                self.wf(),
                n == self.incident_log().len(),
                out@.len() == i,
                forall|j: int|
                    0 <= j < i ==> {
                        &&& (#[trigger] out@[j]).id == self.incident_log()[j].id
                        &&& out@[j].message == self.incident_log()[j].message
                        &&& out@[j].timestamp@ == rfc3339_of(
                            self.incident_log()[j].timestamp as int,
                        )
                        &&& out@[j].error_message == self.incident_log()[j].error_message
                        &&& out@[j].error_details == self.incident_log()[j].error_details
                    },
            decreases n - i,
        {
            let rec = &self.incidents[i];
            out.push(
                IncidentItem {
                    id: rec.id,
                    message: rec.message.clone(),
                    timestamp: format_rfc3339(rec.timestamp),
                    error_message: copy_opt_string(&rec.error_message),
                    error_details: copy_opt_string(&rec.error_details),
                },
            );
            i += 1;
        }
        out
    }

    /// Fetch one incident by id.  Ids are dense positions in the log, so the
    /// id exists exactly when it is below the log's length.
    pub fn get_incident(&self, incident_id: u32) -> (r: Option<IncidentItem>)
        requires
            self.wf(),
        ensures
            r is Some <==> (incident_id as int) < self.incident_log().len(),
            match r {
                Some(item) => {
                    &&& item.id == incident_id
                    &&& item.message == self.incident_log()[incident_id as int].message
                    &&& item.timestamp@ == rfc3339_of(
                        self.incident_log()[incident_id as int].timestamp as int,
                    )
                    &&& item.error_message == self.incident_log()[
                        incident_id as int
                    ].error_message
                    &&& item.error_details == self.incident_log()[
                        incident_id as int
                    ].error_details
                },
                None => true,
            },
    {
        let n = self.incidents.len();
        if (incident_id as usize) < n {
            let rec = &self.incidents[incident_id as usize];
            Some(
                IncidentItem {
                    id: rec.id,
                    message: rec.message.clone(),
                    timestamp: format_rfc3339(rec.timestamp),
                    error_message: copy_opt_string(&rec.error_message),
                    error_details: copy_opt_string(&rec.error_details),
                },
            )
        } else {
            None
        }
    }

    /// Snapshot every region, group and incident into a serializable
    /// summary.  Every region status rendered is one of `initial`, `up`,
    /// `warn`, `down`; every group status is one of those or `incident`.
    pub fn compute_analytics(&self) -> (r: RegionSummary)
        requires
            self.wf(),
        ensures
            r.regions@.len() == self.region_items().len(),
            forall|i: int|
                0 <= i < r.regions@.len() ==> {
                    &&& (#[trigger] r.regions@[i]).name == self.region_items()[i].0
                    &&& r.regions@[i].status@ == region_state_name(self.region_items()[i].1.status)
                    &&& r.regions@[i].last_update@ == rfc3339_of(
                        self.region_items()[i].1.updated_at as int,
                    )
                },
            r.groups@.len() == self.group_items().len(),
            forall|i: int|
                0 <= i < r.groups@.len() ==> {
                    &&& (#[trigger] r.groups@[i]).name == self.group_items()[i].0
                    &&& r.groups@[i].status@ == group_state_name(self.group_items()[i].1.status)
                    &&& r.groups@[i].last_update@ == rfc3339_of(
                        self.group_items()[i].1.updated_at as int,
                    )
                },
            forall|i: int|
                0 <= i < r.regions@.len() ==> (#[trigger] r.regions@[i]).status@ == "initial"@
                    || r.regions@[i].status@ == "up"@ || r.regions@[i].status@ == "warn"@
                    || r.regions@[i].status@ == "down"@,
            forall|i: int|
                0 <= i < r.groups@.len() ==> (#[trigger] r.groups@[i]).status@ == "initial"@
                    || r.groups@[i].status@ == "up"@ || r.groups@[i].status@ == "warn"@
                    || r.groups@[i].status@ == "down"@ || r.groups@[i].status@ == "incident"@,
            r.incidents@.len() == self.incident_log().len(),
            forall|i: int|
                0 <= i < r.incidents@.len() ==> {
                    &&& (#[trigger] r.incidents@[i]).id == self.incident_log()[i].id
                    &&& r.incidents@[i].message == self.incident_log()[i].message
                    &&& r.incidents@[i].timestamp@ == rfc3339_of(
                        self.incident_log()[i].timestamp as int,
                    )
                },
    {
        let mut regions: Vec<RegionSummaryItem> = Vec::new();
        let region_count = self.region_storage.len();
        let mut i: usize = 0;
        while i < region_count
            invariant
                0 <= i <= region_count,
                self.wf(),
                region_count == self.region_items().len(),
                regions@.len() == i,
                forall|j: int|
                    0 <= j < i ==> {
                        &&& (#[trigger] regions@[j]).name == self.region_items()[j].0
                        &&& regions@[j].status@ == region_state_name(
                            self.region_items()[j].1.status,
                        )
                        &&& regions@[j].last_update@ == rfc3339_of(
                            self.region_items()[j].1.updated_at as int,
                        )
                    },
            decreases region_count - i,
        {
            let name = self.region_storage.key_at(i).clone();
            let value = self.region_storage.value_at(i);
            let status: String = match value.status {
                RegionState::Up => "up".to_owned(),
                RegionState::Down => "down".to_owned(),
                RegionState::Initial => "initial".to_owned(),
                RegionState::Warn => "warn".to_owned(),
            };
            proof {
                self.region_storage.lemma_table_index(i as int);
            }
            let last_update = format_rfc3339(value.updated_at);
            regions.push(RegionSummaryItem { name, status, last_update });
            i += 1;
        }
        let mut groups: Vec<GroupSummaryItem> = Vec::new();
        let group_count = self.group_storage.len();
        let mut g: usize = 0;
        while g < group_count
            invariant
                0 <= g <= group_count,
                self.wf(),
                group_count == self.group_items().len(),
                groups@.len() == g,
                forall|j: int|
                    0 <= j < g ==> {
                        &&& (#[trigger] groups@[j]).name == self.group_items()[j].0
                        &&& groups@[j].status@ == group_state_name(self.group_items()[j].1.status)
                        &&& groups@[j].last_update@ == rfc3339_of(
                            self.group_items()[j].1.updated_at as int,
                        )
                    },
            decreases group_count - g,
        {
            let name = self.group_storage.key_at(g).clone();
            let value = self.group_storage.value_at(g);
            let status: String = match value.status {
                GroupState::Up => "up".to_owned(),
                GroupState::Warn => "warn".to_owned(),
                GroupState::Down => "down".to_owned(),
                GroupState::Incident => "incident".to_owned(),
                GroupState::Initial => "initial".to_owned(),
            };
            proof {
                self.group_storage.lemma_table_index(g as int);
            }
            let last_update = format_rfc3339(value.updated_at);
            groups.push(GroupSummaryItem { name, status, last_update });
            g += 1;
        }
        let incidents = self.find_incidents();
        RegionSummary { regions, groups, incidents }
    }

    /// One exporter metric per region: name `region`, a `region_name` label,
    /// and the numeric encoding of the state.
    pub fn collect_region_metrics(&self) -> (r: Vec<FullMetric>)
        requires
            self.wf(),
        ensures
            r@.len() == self.region_items().len(),
            forall|i: int|
                0 <= i < r@.len() ==> {
                    &&& (#[trigger] r@[i]).name@ == "region"@
                    &&& r@[i].labels@.len() == 1
                    &&& r@[i].labels@[0].0@ == "region_name"@
                    &&& r@[i].labels@[0].1 == self.region_items()[i].0
                    &&& r@[i].metric@ == region_state_metric(self.region_items()[i].1.status)
                },
    {
        let mut metrics: Vec<FullMetric> = Vec::new();
        let region_count = self.region_storage.len();
        let mut i: usize = 0;
        while i < region_count
            invariant
                0 <= i <= region_count,
                self.wf(),
                region_count == self.region_items().len(),
                metrics@.len() == i,
                forall|j: int|
                    0 <= j < i ==> {
                        &&& (#[trigger] metrics@[j]).name@ == "region"@
                        &&& metrics@[j].labels@.len() == 1
                        &&& metrics@[j].labels@[0].0@ == "region_name"@
                        &&& metrics@[j].labels@[0].1 == self.region_items()[j].0
                        &&& metrics@[j].metric@ == region_state_metric(
                            self.region_items()[j].1.status,
                        )
                    },
            decreases region_count - i,
        {
            let name = self.region_storage.key_at(i).clone();
            let value = self.region_storage.value_at(i);
            let metric_value: String = match value.status {
                RegionState::Up => "3".to_owned(),
                RegionState::Down => "0".to_owned(),
                RegionState::Initial => "1".to_owned(),
                RegionState::Warn => "2".to_owned(),
            };
            let mut labels: Vec<(String, String)> = Vec::new();
            labels.push(("region_name".to_owned(), name));
            metrics.push(FullMetric { name: "region".to_owned(), labels, metric: metric_value });
            i += 1;
        }
        metrics
    }

    /// One exporter metric per stored group metric, in entry order, each
    /// enriched with the `region` and `group` labels split out of the
    /// composite key.
    pub fn collect_test_metrics(&self) -> (r: Vec<FullMetric>)
        requires
            self.wf(),
        ensures
            r@.map_values(|fm: FullMetric| fm@) == test_metric_seq(self.group_items()),
    {
        let mut out: Vec<FullMetric> = Vec::new();
        let group_count = self.group_storage.len();
        let mut i: usize = 0;
        while i < group_count
            invariant
                0 <= i <= group_count,
                self.wf(),
                group_count == self.group_items().len(),
                out@.map_values(|fm: FullMetric| fm@) == test_metric_seq(
                    self.group_items().take(i as int),
                ),
            decreases group_count - i,
        {
            let key = self.group_storage.key_at(i);
            let value = self.group_storage.value_at(i);
            let region_part = split_region_label(key.as_str());
            let group_part = split_group_label(key.as_str());
            let m_count = value.last_metrics.len();
            let mut j: usize = 0;
            while j < m_count
                invariant
                    0 <= j <= m_count,
                    self.wf(),
                    0 <= i < self.group_items().len(),
                    group_count == self.group_items().len(),
                    *key == self.group_items()[i as int].0,
                    *value == self.group_items()[i as int].1,
                    region_part@ == region_label_of(key@),
                    group_part@ == group_label_of(key@),
                    m_count == value.last_metrics@.len(),
                    out@.map_values(|fm: FullMetric| fm@) == test_metric_seq(
                        self.group_items().take(i as int),
                    ) + group_test_metrics(self.group_items()[i as int]).take(j as int),
                decreases m_count - j,
            {
                let m = &value.last_metrics[j];
                let lab1 = with_label(&m.labels, "region", region_part.as_str());
                let lab2 = with_label(&lab1, "group", group_part.as_str());
                let fm = FullMetric {
                    name: m.name.clone(),
                    labels: lab2,
                    metric: m.metric.clone(),
                };
                proof {
                    assert(fm@ == enriched_metric(m@, key@));
                    assert(group_test_metrics(self.group_items()[i as int])[j as int]
                        == enriched_metric(m@, key@));
                }
                let ghost prev = out@;
                out.push(fm);
                proof {
                    let a = test_metric_seq(self.group_items().take(i as int));
                    let b = group_test_metrics(self.group_items()[i as int]);
                    assert(out@ == prev.push(fm));
                    assert(b.len() == m_count);
                    assert(b.take(j as int).len() == j);
                    assert(b.take(j + 1int).len() == j + 1);
                    assert(prev.map_values(|fm: FullMetric| fm@).len() == prev.len());
                    assert(prev.map_values(|fm: FullMetric| fm@).len() == (a + b.take(
                        j as int,
                    )).len());
                    assert(prev.len() == a.len() + j);
                    assert forall|q: int| 0 <= q < out@.len() implies (#[trigger] out@[q])@ == (
                    a + b.take(j + 1int))[q] by {
                        if q < prev.len() {
                            assert(out@[q] == prev[q]);
                            assert(prev[q]@ == prev.map_values(|fm: FullMetric| fm@)[q]);
                            assert(prev.map_values(|fm: FullMetric| fm@)[q] == (a + b.take(
                                j as int,
                            ))[q]);
                            if q >= a.len() {
                                assert(b.take(j as int)[q - a.len()] == b[q - a.len()]);
                                assert(b.take(j + 1int)[q - a.len()] == b[q - a.len()]);
                            }
                        } else {
                            assert(out@[q] == fm);
                            assert((a + b.take(j + 1int))[q] == b[j as int]);
                        }
                    }
                    assert(out@.map_values(|fm: FullMetric| fm@) =~= a + b.take(j + 1int));
                }
                j += 1;
            }
            proof {
                assert(group_test_metrics(self.group_items()[i as int]).take(m_count as int)
                    =~= group_test_metrics(self.group_items()[i as int]));
                assert(self.group_items().take(i + 1int).drop_last() =~= self.group_items().take(
                    i as int,
                ));
                assert(self.group_items().take(i + 1int).last() == self.group_items()[i as int]);
                assert(out@.map_values(|fm: FullMetric| fm@) =~= test_metric_seq(
                    self.group_items().take(i + 1int),
                ));
            }
            i += 1;
        }
        proof {
            assert(self.group_items().take(group_count as int) =~= self.group_items());
        }
        out
    }

    /// Apply one heartbeat body: refresh every named group (skipping a
    /// failing group already in `Incident`), then refresh the region to
    /// `Warn` when any entry warned or failed and `Up` otherwise.  Returns
    /// whether the region was `Down` before the refresh, and the storage
    /// consistency errors the refreshes raised.
    pub fn apply_region_update(
        &mut self,
        region: &str,
        results: &Vec<GroupResultInput>,
        now_ms: i64,
    ) -> (r: (bool, Vec<Error>))
        requires
            old(self).wf(),
            0 <= now_ms <= MAX_TIMESTAMP_MS,
        ensures
            final(self).wf(),
            final(self).links() == old(self).links(),
            final(self).incident_log() == old(self).incident_log(),
            final(self).next_incident_id() == old(self).next_incident_id(),
            r.0 == (old(self).regions().contains_key(region@) && old(
                self,
            ).regions()[region@].status == RegionState::Down),
            final(self).regions() == old(self).regions().insert(
                region@,
                (RegionStatus {
                    status: if heartbeat_has_warning(results_view(results@)) {
                        RegionState::Warn
                    } else {
                        RegionState::Up
                    },
                    updated_at: now_ms,
                }),
            ),
            untouched_outside_results(
                results_view(results@),
                region@,
                final(self).groups(),
                old(self).groups(),
                results@.len() as int,
            ),
            distinct_names(results_view(results@)) ==> forall|i: int|
                0 <= i < results@.len() ==> group_heartbeat_outcome(
                    old(self).groups(),
                    final(self).groups(),
                    region@,
                    #[trigger] results_view(results@)[i],
                    now_ms,
                ),
            distinct_names(results_view(results@)) ==> forall|i: int|
                {
                    let k = group_key_spec(region@, results_view(results@)[i].name);
                    (0 <= i < results@.len() && !(#[trigger] results_view(results@)[i]).working
                        && old(self).groups().contains_key(k) && old(self).groups()[k].status
                        == GroupState::Incident) ==> (final(self).groups()[k] == old(
                        self,
                    ).groups()[k] && final(self).groups()[k].updated_at == old(
                        self,
                    ).groups()[k].updated_at && final(self).groups()[k].status
                        == GroupState::Incident)
                },
    {
        let ghost rv = results_view(results@);
        let ghost groups_before = self.groups();
        let ghost regions_before = self.regions();
        let ghost links_before = self.links();
        let ghost log_before = self.incident_log();
        let ghost id_before = self.next_incident_id();
        let region_was_down = match self.get_region_status(region) {
            Some(st) => matches!(st.status, RegionState::Down),
            None => false,
        };
        let mut errors: Vec<Error> = Vec::new();
        let mut has_warning = false;
        let n = results.len();
        let mut i: usize = 0;
        while i < n
            invariant
                0 <= i <= n,
                n == results@.len(),
                rv == results_view(results@),
                rv.len() == n,
                self.wf(),
                0 <= now_ms <= MAX_TIMESTAMP_MS,
                self.regions() == regions_before,
                self.links() == links_before,
                self.incident_log() == log_before,
                self.next_incident_id() == id_before,
                has_warning == has_warning_upto(rv, i as int),
                untouched_outside_results(rv, region@, self.groups(), groups_before, i as int),
                distinct_names(rv) ==> forall|j: int|
                    0 <= j < i ==> group_heartbeat_outcome(
                        groups_before,
                        self.groups(),
                        region@,
                        #[trigger] rv[j],
                        now_ms,
                    ),
            decreases n - i,
        {
            let g = &results[i];
            if !g.working || g.has_warnings {
                has_warning = true;
            }
            proof {
                if !rv[i as int].working || rv[i as int].has_warnings {
                    assert(has_warning_upto(rv, i + 1));
                }
                if has_warning_upto(rv, i + 1) && !(!rv[i as int].working
                    || rv[i as int].has_warnings) {
                    let w = choose|w: int|
                        0 <= w < i + 1 && (!(#[trigger] rv[w]).working || rv[w].has_warnings);
                    assert(0 <= w < i && (!rv[w].working || rv[w].has_warnings));
                    assert(has_warning_upto(rv, i as int));
                }
            }
            let state = if !g.working {
                GroupState::Down
            } else if g.has_warnings {
                GroupState::Warn
            } else {
                GroupState::Up
            };
            let skip = if !g.working {
                match self.get_group_status(region, g.name.as_str()) {
                    Some(st) => matches!(st.status, GroupState::Incident),
                    None => false,
                }
            } else {
                false
            };
            let ghost pre_groups = self.groups();
            let ghost k_i = group_key_spec(region@, rv[i as int].name);
            if !skip {
                let metrics = convert_metric_inputs(&g.metrics);
                let last_error = copy_opt_string(&g.error_message);
                match self.refresh_group(
                    region,
                    g.name.as_str(),
                    state,
                    metrics,
                    last_error,
                    now_ms,
                ) {
                    Ok(_) => (),
                    Err(e) => errors.push(e),
                }
            }
            proof {
                assert(result_key_upto(rv, region@, k_i, i + 1));
                assert(untouched_outside_results(rv, region@, self.groups(), groups_before, i + 1))
                    by {
                    assert forall|k: Seq<char>|
                        !(#[trigger] result_key_upto(rv, region@, k, i + 1)) implies ((
                    self.groups().contains_key(k) <==> groups_before.contains_key(k)) && (
                    groups_before.contains_key(k) ==> self.groups()[k] == groups_before[k])) by {
                        assert(k != k_i);
                        assert(!result_key_upto(rv, region@, k, i as int));
                        assert(self.groups().contains_key(k) <==> pre_groups.contains_key(k));
                    }
                }
                if distinct_names(rv) {
                    assert forall|q: int| 0 <= q < rv.len() && q != i implies group_key_spec(
                        region@,
                        rv[q].name,
                    ) != k_i by {
                        lemma_group_key_injective(region@, rv[q].name, rv[i as int].name);
                    }
                    assert(!result_key_upto(rv, region@, k_i, i as int));
                    assert(pre_groups.contains_key(k_i) <==> groups_before.contains_key(k_i));
                    assert(groups_before.contains_key(k_i) ==> pre_groups[k_i]
                        == groups_before[k_i]);
                    assert(group_heartbeat_outcome(
                        groups_before,
                        self.groups(),
                        region@,
                        rv[i as int],
                        now_ms,
                    ));
                    assert forall|j: int| 0 <= j < i + 1 implies group_heartbeat_outcome(
                        groups_before,
                        self.groups(),
                        region@,
                        #[trigger] rv[j],
                        now_ms,
                    ) by {
                        if j < i {
                            let kj = group_key_spec(region@, rv[j].name);
                            assert(kj != k_i);
                            assert(self.groups().contains_key(kj) <==> pre_groups.contains_key(
                                kj,
                            ));
                            assert(pre_groups.contains_key(kj) ==> self.groups()[kj]
                                == pre_groups[kj]);
                        }
                    }
                }
            }
            i += 1;
        }
        proof {
            assert(has_warning == heartbeat_has_warning(rv));
        }
        self.refresh_region(region, has_warning, now_ms);
        (region_was_down, errors)
    }
}

impl MemoryStorage {
    /// What well-formedness gives callers: a dense incident log and
    /// timestamps inside the range formatters accept.
    pub proof fn lemma_wf_bounds(&self)
        requires
            self.wf(),
        ensures
            self.incident_log().len() == self.next_incident_id() as int,
            forall|k: Seq<char>|
                self.regions().dom().contains(k) ==> 0 <= #[trigger] self.regions()[k].updated_at
                    <= MAX_TIMESTAMP_MS,
            forall|k: Seq<char>|
                self.groups().dom().contains(k) ==> 0 <= #[trigger] self.groups()[k].updated_at
                    <= MAX_TIMESTAMP_MS,
    {
    }
}

/// Incident ids form the sequence 0, 1, 2, …: strictly increasing,
/// consecutive, and starting at 0, in every well-formed store.
pub proof fn lemma_incident_ids_consecutive(s: &MemoryStorage)
    requires
        s.wf(),
    ensures
        forall|i: int|
            0 <= i < s.incident_log().len() ==> #[trigger] s.incident_log()[i].id == i as u32,
        forall|i: int, j: int|
            0 <= i < j < s.incident_log().len() ==> s.incident_log()[i].id < s.incident_log()[
                j
            ].id,
{
}

} // verus!
