//! The watchdog sweep: heartbeats that stopped arriving become incidents.
//!
//! A healthy region that has been silent beyond its threshold is declared
//! down, cascading its groups; a down group that stayed down beyond its own
//! threshold is promoted to an incident.  `Initial` entities have never
//! reported, and `Down` regions and `Incident` groups have already raised
//! their incident, so all of those are left alone.

use vstd::prelude::*;

use crate::clock::MAX_TIMESTAMP_MS;
use crate::config::RegionConfig;
use crate::storage::{group_key_spec, GroupState, MemoryStorage, RegionState, RegionStatus};

verus! {

/// Milliseconds granted when a configured region threshold cannot be
/// represented as a signed duration.
pub const DEFAULT_REGION_MS: i64 = 10 * 1000;

/// Milliseconds granted when a configured group threshold cannot be
/// represented as a signed duration.
pub const DEFAULT_GROUP_MS: i64 = 10 * 1000;

/// A configured threshold as a signed duration, or the fallback.
pub open spec fn threshold_or(t: u64, default: i64) -> i64 {
    if t <= i64::MAX as u64 {
        t as i64
    } else {
        default
    }
}

/// A healthy region whose heartbeat has been silent beyond its threshold.
pub open spec fn region_expired(st: RegionStatus, threshold_ms: u64, now_ms: i64) -> bool {
    (st.status == RegionState::Up || st.status == RegionState::Warn) && now_ms - st.updated_at
        > threshold_or(threshold_ms, DEFAULT_REGION_MS)
}

/// A down group that has stayed down beyond its threshold.
pub open spec fn group_expired(
    status: GroupState,
    updated_at: i64,
    threshold_ms: u64,
    now_ms: i64,
) -> bool {
    status == GroupState::Down && now_ms - updated_at > threshold_or(
        threshold_ms,
        DEFAULT_GROUP_MS,
    )
}

/// Decide whether a region's silence has crossed its threshold.
pub fn check_region_expired(st: &RegionStatus, threshold_ms: u64, now_ms: i64) -> (r: bool)
    requires
        0 <= st.updated_at <= MAX_TIMESTAMP_MS,
        0 <= now_ms <= MAX_TIMESTAMP_MS,
    ensures
        r == region_expired(*st, threshold_ms, now_ms),
{
    let healthy = matches!(st.status, RegionState::Up) || matches!(st.status, RegionState::Warn);
    let threshold: i64 = if threshold_ms <= i64::MAX as u64 {
        threshold_ms as i64
    } else {
        DEFAULT_REGION_MS
    };
    healthy && now_ms - st.updated_at > threshold
}

/// Decide whether a group has stayed down beyond its threshold.
pub fn check_group_expired(status: GroupState, updated_at: i64, threshold_ms: u64, now_ms: i64)
    -> (r: bool)
    requires
        0 <= updated_at <= MAX_TIMESTAMP_MS,
        0 <= now_ms <= MAX_TIMESTAMP_MS,
    ensures
        r == group_expired(status, updated_at, threshold_ms, now_ms),
{
    let threshold: i64 = if threshold_ms <= i64::MAX as u64 {
        threshold_ms as i64
    } else {
        DEFAULT_GROUP_MS
    };
    matches!(status, GroupState::Down) && now_ms - updated_at > threshold
}

/// Region names are pairwise distinct.
pub open spec fn distinct_region_names(rs: Seq<RegionConfig>) -> bool {
    forall|i: int, j: int| 0 <= i < j < rs.len() ==> rs[i].name@ != rs[j].name@
}

/// Whether `k` names one of the first `n` configured regions.
pub open spec fn config_name_upto(rs: Seq<RegionConfig>, k: Seq<char>, n: int) -> bool {
    exists|i: int| 0 <= i < n && k == (#[trigger] rs[i]).name@
}

/// Region entries not named by the first `n` configured regions are
/// untouched between two region maps.
pub open spec fn untouched_regions_outside(
    rs: Seq<RegionConfig>,
    now_map: Map<Seq<char>, RegionStatus>,
    before: Map<Seq<char>, RegionStatus>,
    n: int,
) -> bool {
    forall|k: Seq<char>|
        !(#[trigger] config_name_upto(rs, k, n)) ==> ((now_map.contains_key(k)
            <==> before.contains_key(k)) && (before.contains_key(k) ==> now_map[k] == before[k]))
}

/// What one sweep does to one configured region's entry, judged against the
/// store as the sweep began: an expired region ends up down with its
/// timestamp kept, any other region keeps its entry.
pub open spec fn region_sweep_outcome(
    before: Map<Seq<char>, RegionStatus>,
    after: Map<Seq<char>, RegionStatus>,
    rc: RegionConfig,
    now_ms: i64,
) -> bool {
    let name = rc.name@;
    if before.contains_key(name) && region_expired(before[name], rc.threshold_ms, now_ms) {
        &&& after.contains_key(name)
        &&& after[name].status == RegionState::Down
        &&& after[name].updated_at == before[name].updated_at
    } else {
        &&& (after.contains_key(name) <==> before.contains_key(name))
        &&& (before.contains_key(name) ==> after[name] == before[name])
    }
}

/// The alert raised when a region goes down.
pub fn region_alert_message(region_name: &str) -> (r: String)
    ensures
        r@ == "Network DOWN on region "@ + region_name@,
{
    let mut msg = "Network DOWN on region ".to_owned();
    msg.append(region_name);
    msg
}

/// The alert raised when a group goes down.
pub fn group_alert_message(region_name: &str, group_name: &str) -> (r: String)
    ensures
        r@ == "Network DOWN on group "@ + group_key_spec(region_name@, group_name@),
{
    let mut msg = "Network DOWN on group ".to_owned();
    let key = crate::storage::group_key(region_name, group_name);
    msg.append(key.as_str());
    proof {
        assert(msg@ =~= "Network DOWN on group "@ + group_key_spec(region_name@, group_name@));
    }
    msg
}

/// One watchdog pass over every configured region and group: expired
/// regions and groups trigger their incidents in the store, and the pass
/// hands back the alert messages to dispatch, in order.  The incident log
/// only grows; nothing already logged changes.
pub fn scheduler_tick(
    storage: &mut MemoryStorage,
    conf_regions: &Vec<RegionConfig>,
    now_ms: i64,
) -> (r: Vec<String>)
    requires
        old(storage).wf(),
        0 <= now_ms <= MAX_TIMESTAMP_MS,
    ensures
        final(storage).wf(),
        final(storage).links() == old(storage).links(),
        final(storage).incident_log().len() >= old(storage).incident_log().len(),
        forall|k: int|
            0 <= k < old(storage).incident_log().len() ==> final(storage).incident_log()[k]
                == old(storage).incident_log()[k],
        final(storage).next_incident_id() >= old(storage).next_incident_id(),
        untouched_regions_outside(
            conf_regions@,
            final(storage).regions(),
            old(storage).regions(),
            conf_regions@.len() as int,
        ),
        (distinct_region_names(conf_regions@) && final(storage).next_incident_id() < u32::MAX)
            ==> forall|i: int|
            0 <= i < conf_regions@.len() ==> region_sweep_outcome(
                old(storage).regions(),
                final(storage).regions(),
                #[trigger] conf_regions@[i],
                now_ms,
            ),
{
    let ghost log0 = storage.incident_log();
    let ghost links0 = storage.links();
    let ghost id0 = storage.next_incident_id();
    let ghost regions0 = storage.regions();
    let ghost rv = conf_regions@;
    proof {
        storage.lemma_wf_bounds();
    }
    let mut messages: Vec<String> = Vec::new();
    let region_count = conf_regions.len();
    let mut i: usize = 0;
    while i < region_count
        invariant
            0 <= i <= region_count,
            region_count == conf_regions@.len(),
            storage.wf(),
            0 <= now_ms <= MAX_TIMESTAMP_MS,
            storage.links() == links0,
            storage.incident_log().len() >= log0.len(),
            forall|k: int|
                0 <= k < log0.len() ==> #[trigger] storage.incident_log()[k] == log0[k],
            storage.next_incident_id() >= id0,
            rv == conf_regions@,
            untouched_regions_outside(rv, storage.regions(), regions0, i as int),
            distinct_region_names(rv) ==> forall|p: int|
                0 <= p < i ==> (storage.next_incident_id() < u32::MAX ==> region_sweep_outcome(
                    regions0,
                    storage.regions(),
                    #[trigger] rv[p],
                    now_ms,
                )),
        decreases region_count - i,
    {
        let region = &conf_regions[i];
        proof {
            storage.lemma_wf_bounds();
        }
        let expired = match storage.get_region_status(region.name.as_str()) {
            Some(st) => {
                let st_copy: RegionStatus = *st;
                check_region_expired(&st_copy, region.threshold_ms, now_ms)
            },
            None => false,
        };
        let ghost regions_pre = storage.regions();
        proof {
            assert(config_name_upto(rv, rv[i as int].name@, i + 1));
            if distinct_region_names(rv) {
                assert(!config_name_upto(rv, rv[i as int].name@, i as int));
            }
        }
        if expired {
            if storage.incident_count() < u32::MAX {
                let _ = storage.trigger_region_incident(
                    region.name.as_str(),
                    region.threshold_ms,
                    now_ms,
                );
            }
            messages.push(region_alert_message(region.name.as_str()));
        }
        proof {
            assert(untouched_regions_outside(rv, storage.regions(), regions0, i + 1)) by {
                assert forall|k: Seq<char>|
                    !(#[trigger] config_name_upto(rv, k, i + 1)) implies ((
                storage.regions().contains_key(k) <==> regions0.contains_key(k)) && (
                regions0.contains_key(k) ==> storage.regions()[k] == regions0[k])) by {
                    assert(k != rv[i as int].name@);
                    assert(!config_name_upto(rv, k, i as int));
                    assert(storage.regions().contains_key(k) <==> regions_pre.contains_key(k));
                    assert(regions_pre.contains_key(k) ==> storage.regions()[k]
                        == regions_pre[k]);
                }
            }
            if distinct_region_names(rv) && storage.next_incident_id() < u32::MAX {
                assert(region_sweep_outcome(
                    regions0,
                    storage.regions(),
                    rv[i as int],
                    now_ms,
                )) by {
                    assert(regions_pre.contains_key(rv[i as int].name@)
                        <==> regions0.contains_key(rv[i as int].name@));
                    assert(regions0.contains_key(rv[i as int].name@) ==> regions_pre[rv[
                        i as int
                    ].name@] == regions0[rv[i as int].name@]);
                }
            }
        }
        let ghost regions_mid = storage.regions();
        let ghost id_mid = storage.next_incident_id();
        let group_count = region.groups.len();
        let mut j: usize = 0;
        while j < group_count
            invariant
                0 <= j <= group_count,
                0 <= i < conf_regions@.len(),
                *region == conf_regions@[i as int],
                group_count == region.groups@.len(),
                storage.wf(),
                0 <= now_ms <= MAX_TIMESTAMP_MS,
                storage.links() == links0,
                storage.incident_log().len() >= log0.len(),
                forall|k: int|
                    0 <= k < log0.len() ==> #[trigger] storage.incident_log()[k] == log0[k],
                storage.next_incident_id() >= id0,
                storage.next_incident_id() >= id_mid,
                storage.regions() == regions_mid,
            decreases group_count - j,
        {
            let group = &region.groups[j];
            proof {
                storage.lemma_wf_bounds();
            }
            let found: Option<(GroupState, i64)> = match storage.get_group_status(
                region.name.as_str(),
                group.name.as_str(),
            ) {
                Some(st) => Some((st.status, st.updated_at)),
                None => None,
            };
            let group_is_expired = match found {
                Some((status, updated_at)) => check_group_expired(
                    status,
                    updated_at,
                    group.threshold_ms,
                    now_ms,
                ),
                None => false,
            };
            if group_is_expired {
                if storage.incident_count() < u32::MAX {
                    let _ = storage.trigger_group_incident(
                        region.name.as_str(),
                        group.name.as_str(),
                        now_ms,
                    );
                }
                messages.push(group_alert_message(region.name.as_str(), group.name.as_str()));
            }
            j += 1;
        }
        proof {
            if distinct_region_names(rv) {
                assert forall|p: int|
                    0 <= p < i + 1 implies (storage.next_incident_id() < u32::MAX
                    ==> region_sweep_outcome(
                    regions0,
                    storage.regions(),
                    #[trigger] rv[p],
                    now_ms,
                )) by {
                    if storage.next_incident_id() < u32::MAX {
                        assert(id_mid < u32::MAX);
                    }
                }
            }
        }
        i += 1;
    }
    messages
}

} // verus!
