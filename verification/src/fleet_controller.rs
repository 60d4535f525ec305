//! Reconciling a fleet: from what was observed to the services to apply, the services to remove,
//! and the status to write.
use crate::clock::{age_secs, Moment};
use crate::fleet_model;
use crate::fleet_model::Situation;
use crate::fleet_placement::{fresh_signal, select_replacement_node, NodeCandidate};
use crate::fleet_planning;
use crate::fleet_planning::{find_candidate, placements_fit, plan_initial_placements};
use crate::fleet_types;
use crate::fleet_types::{
    fleet_phase_for, placement_phase_for, surplus_hysteresis, FleetService, FleetServiceStatus,
    NodeState, PlacementDecisionInputs, PlacementStatus, PlacementStrategy,
};
use crate::names::{NameMap, NameSet};
use crate::objects;
use crate::objects::{copy_text, copy_texts, ObjectMeta};
use crate::slots;
use crate::slots::{child_name_of, entries_of, slot_index_of, Pin};
use crate::text::same_text;
use crate::{VllmService, VllmServiceSpec, WarmupStrategy};
use std::collections::BTreeMap;
use vstd::prelude::*;

verus! {

/// The field manager under which the fleet applies its services, and their managed-by label.
pub const FLEET_MANAGER: &'static str = "fleet-controller";

/// The label that names the fleet of a service.
pub const FLEET_LABEL: &'static str = "inference.michelecampi.dev/fleet";

/// Seconds until a fleet is looked at again.
pub const REQUEUE_SECS: u64 = 30;

/// Seconds until a fleet is looked at again after a failure.
pub const ERROR_REQUEUE_SECS: u64 = 10;

/// Why a reconcile of a fleet fails.
#[derive(Clone, Copy, Debug, PartialEq, Eq, Structural)]
pub enum FleetError {
    /// The cluster's API failed.
    Kube,
    /// The fleet has no namespace.
    MissingNamespace,
}

impl FleetError {
    /// The label under which the failure is counted.
    pub fn metric_label(&self) -> (r: &'static str)
        ensures
            r@ == match *self {
                FleetError::Kube => "kube"@,
                FleetError::MissingNamespace => "missing_namespace"@,
            },
    {
        match self {
            FleetError::Kube => "kube",
            FleetError::MissingNamespace => "missing_namespace",
        }
    }
}

/// The candidate that a node's report amounts to. A node that was never reported on is none.
pub fn node_state_to_candidate(node: &NodeState, now: &Moment) -> (r: Option<NodeCandidate>)
    requires
        now.valid(),
    ensures
        r is Some <==> node.status is Some,
        r is Some ==> fleet_model::candidate_matches(r->0, *node, *now),
{
    match &node.status {
        Some(status) => Some(
            NodeCandidate {
                name: node.metadata.name_any(),
                warmth: status.warmth,
                gpu_utilization: status.gpu_utilization,
                active_service_count: status.active_service_count,
                kv_cache_hit_rate: status.kv_cache_hit_rate,
                kv_cache_hit_rate_age_secs: age_secs(&status.kv_cache_hit_rate_observed_at, now),
                tokens_per_joule: status.tokens_per_joule,
                tokens_per_joule_age_secs: age_secs(&status.tokens_per_joule_observed_at, now),
            },
        ),
        None => None,
    }
}

/// What the nodes' reports amount to.
#[derive(Debug)]
pub struct NodeObservation {
    /// The nodes that have been reported on.
    pub candidates: Vec<NodeCandidate>,
    /// The names of those that are about to be taken away.
    pub preempted: NameSet,
}

/// Reads the nodes' reports. All ages are taken at the same point in time.
pub fn observe_nodes(states: &[NodeState], now: &Moment) -> (r: NodeObservation)
    requires
        now.valid(),
    ensures
        r.preempted@ == fleet_model::noticed(states@),
        ({
            let known = states@.filter(fleet_model::reported());
            &&& r.candidates@.len() == known.len()
            &&& forall|i: int|
                0 <= i < known.len() ==> fleet_model::candidate_matches(
                    #[trigger] r.candidates@[i],
                    known[i],
                    *now,
                )
        }),
{
    let mut candidates: Vec<NodeCandidate> = Vec::new();
    let mut preempted = NameSet::new();
    let mut i: usize = 0;
    let ghost known = fleet_model::reported();
    proof {
        assert(fleet_model::noticed(states@.take(0)) =~= Set::<Seq<char>>::empty());
    }
    while i < states.len()
        invariant
            i <= states@.len(),
            now.valid(),
            known == fleet_model::reported(),
            preempted@ == fleet_model::noticed(states@.take(i as int)),
            candidates@.len() == states@.take(i as int).filter(known).len(),
            forall|j: int|
                0 <= j < candidates@.len() ==> fleet_model::candidate_matches(
                    #[trigger] candidates@[j],
                    states@.take(i as int).filter(known)[j],
                    *now,
                ),
        decreases states@.len() - i,
    {
        let node = &states[i];
        proof {
            assert(states@.take(i + 1) == states@.take(i as int).push(*node));
            states@.take(i as int).lemma_filter_push(*node, known);
            noticed_grows(states@.take(i as int), *node);
        }
        if let Some(c) = node_state_to_candidate(node, now) {
            candidates.push(c);
        }
        if let Some(status) = &node.status {
            if status.spot.preemption_notice_detected {
                preempted.insert(node.metadata.name_any());
            }
        }
        i = i + 1;
    }
    proof {
        assert(states@.take(states@.len() as int) == states@);
    }
    NodeObservation { candidates, preempted }
}

/// One more node adds its name, if it is about to be taken away.
pub proof fn noticed_grows(states: Seq<NodeState>, node: NodeState)
    ensures
        fleet_model::noticed(states.push(node)) == (if fleet_model::has_notice(node) {
            fleet_model::noticed(states).insert(node.metadata.any_name())
        } else {
            fleet_model::noticed(states)
        }),
{
    let after = states.push(node);
    let grown = if fleet_model::has_notice(node) {
        fleet_model::noticed(states).insert(node.metadata.any_name())
    } else {
        fleet_model::noticed(states)
    };
    assert forall|n: Seq<char>| fleet_model::noticed(after).contains(n) == grown.contains(n) by {
        if fleet_model::noticed(states).contains(n) {
            let i = choose|i: int|
                0 <= i < states.len() && fleet_model::has_notice(#[trigger] states[i])
                    && states[i].metadata.any_name() == n;
            assert(after[i] == states[i]);
        }
        if fleet_model::noticed(after).contains(n) {
            let i = choose|i: int|
                0 <= i < after.len() && fleet_model::has_notice(#[trigger] after[i])
                    && after[i].metadata.any_name() == n;
            if i < states.len() {
                assert(states[i] == after[i]);
            }
        }
        if fleet_model::has_notice(node) && n == node.metadata.any_name() {
            assert(after[states.len() as int] == node);
        }
    }
    assert(fleet_model::noticed(after) =~= grown);
}

/// What the planner ranked the given node on.
pub fn decision_inputs(
    candidates: &[NodeCandidate],
    node: &str,
    strategy: &PlacementStrategy,
    horizon_secs: Option<i64>,
) -> (r: Option<PlacementDecisionInputs>)
    ensures
        fleet_types::decided_view(r) == fleet_model::decision(
            candidates@,
            node@,
            *strategy,
            horizon_secs,
        ),
{
    match find_candidate(candidates, node) {
        Some(k) => {
            let c = &candidates[k];
            Some(
                PlacementDecisionInputs {
                    strategy: strategy.label().to_string(),
                    warmth: Some(c.warmth.label().to_string()),
                    tokens_per_joule: fresh_signal(
                        c.tokens_per_joule,
                        c.tokens_per_joule_age_secs,
                        horizon_secs,
                    ),
                    kv_cache_hit_rate: fresh_signal(
                        c.kv_cache_hit_rate,
                        c.kv_cache_hit_rate_age_secs,
                        horizon_secs,
                    ),
                    gpu_utilization: c.gpu_utilization,
                    active_service_count: c.active_service_count,
                },
            )
        },
        None => None,
    }
}

/// The nodes that the fleet's services are pinned to.
pub fn current_placements(children: &[VllmService]) -> (r: BTreeMap<usize, String>)
    ensures
        slots::pins_in(r@) == fleet_model::pins_of(children@),
{
    let mut current: BTreeMap<usize, String> = BTreeMap::new();
    let mut i: usize = 0;
    proof {
        slots::empty_map_has_no_pins(usize::MAX + 1);
    }
    while i < children.len()
        invariant
            i <= children@.len(),
            slots::pins_in(current@) == fleet_model::pins_of(children@.take(i as int)),
        decreases children@.len() - i,
    {
        let child = &children[i];
        proof {
            assert(children@.take(i + 1).drop_last() == children@.take(i as int));
        }
        if let Some(slot) = slot_index_of(child.metadata.name_any().as_str()) {
            if let Some(node) = &child.spec.node_name {
                proof {
                    slots::inserting_pins_the_slot(current@, slot, *node);
                }
                current.insert(slot, node.clone());
            }
        }
        i = i + 1;
    }
    proof {
        assert(children@.take(children@.len() as int) == children@);
    }
    current
}

/// Whether the service of the given name is there and ready.
pub fn is_child_ready(children: &[VllmService], name: &str) -> (r: bool)
    ensures
        r == fleet_model::child_ready(children@, name@),
{
    let mut k: usize = children.len();
    proof {
        assert(children@.take(children@.len() as int) == children@);
    }
    while k > 0
        invariant
            k <= children@.len(),
            fleet_model::child_ready(children@, name@) == fleet_model::child_ready(
                children@.take(k as int),
                name@,
            ),
        decreases k,
    {
        proof {
            assert(children@.take(k as int).drop_last() == children@.take(k - 1));
        }
        k = k - 1;
        if same_text(children[k].metadata.name_any().as_str(), name) {
            return match &children[k].status {
                Some(status) => same_text(status.phase.as_str(), "Ready"),
                None => false,
            };
        }
    }
    false
}

/// The position of what was last recorded of the placement of the given service.
fn last_record_of(previous: &[PlacementStatus], child: &str) -> (r: Option<usize>)
    ensures
        match r {
            Some(k) => k < previous@.len() && fleet_model::last_record(
                fleet_types::placements_view(previous@),
                child@,
            ) == Some(previous@[k as int]@),
            None => fleet_model::last_record(
                fleet_types::placements_view(previous@),
                child@,
            ) is None,
        },
{
    let ghost views = fleet_types::placements_view(previous@);
    let mut k: usize = previous.len();
    proof {
        assert(views.take(views.len() as int) == views);
    }
    while k > 0
        invariant
            k <= previous@.len(),
            views == fleet_types::placements_view(previous@),
            fleet_model::last_record(views, child@) == fleet_model::last_record(
                views.take(k as int),
                child@,
            ),
        decreases k,
    {
        proof {
            assert(views.take(k as int).drop_last() == views.take(k - 1));
            assert(views.take(k as int).last() == previous@[k - 1]@);
        }
        k = k - 1;
        if same_text(previous[k].vllm_service_ref.as_str(), child) {
            return Some(k);
        }
    }
    None
}

/// What the placement of the given service was last recorded to have been decided on.
fn last_decision_of(previous: &[PlacementStatus], child: &str) -> (r: Option<
    PlacementDecisionInputs,
>)
    ensures
        fleet_types::decided_view(r) == fleet_model::last_decision(
            fleet_types::placements_view(previous@),
            child@,
        ),
{
    let ghost views = fleet_types::placements_view(previous@);
    let mut k: usize = previous.len();
    proof {
        assert(views.take(views.len() as int) == views);
    }
    while k > 0
        invariant
            k <= previous@.len(),
            views == fleet_types::placements_view(previous@),
            fleet_model::last_decision(views, child@) == fleet_model::last_decision(
                views.take(k as int),
                child@,
            ),
        decreases k,
    {
        proof {
            assert(views.take(k as int).drop_last() == views.take(k - 1));
            assert(views.take(k as int).last() == previous@[k - 1]@);
        }
        k = k - 1;
        if same_text(previous[k].vllm_service_ref.as_str(), child) {
            if let Some(d) = &previous[k].decided_on {
                return Some(d.clone());
            }
        }
    }
    None
}

/// One more pin adds one to the number of its node.
proof fn own_count_grows(pins: Seq<Pin>, pin: Pin, node: Seq<char>)
    ensures
        fleet_model::own_count(pins.push(pin), node) == fleet_model::own_count(pins, node) + (
        if pin.1 == node {
            1nat
        } else {
            0
        }),
{
    pins.lemma_filter_push(pin, fleet_model::pinned_to(node));
}

/// The number of this fleet's slots pinned to each node. The fleet knows where it has placed
/// services, whether or not the nodes' reporters have noticed.
pub fn own_placements_per_node(current: &BTreeMap<usize, String>) -> (r: NameMap<i32>)
    requires
        slots::pins_in(current@).len() <= i32::MAX,
    ensures
        r.wf(),
        r@ == fleet_model::own_counts(slots::pins_in(current@)),
{
    let entries = entries_of(current);
    let ghost pins = slots::pins_in(current@);
    let mut counts: NameMap<i32> = NameMap::new();
    let mut i: usize = 0;
    proof {
        reveal(Seq::filter);
        assert(fleet_model::own_counts(pins.take(0)) =~= Map::<Seq<char>, i32>::empty());
    }
    while i < entries.len()
        invariant
            i <= entries@.len(),
            pins == slots::entries_view(entries@),
            pins.len() <= i32::MAX,
            counts.wf(),
            counts@ == fleet_model::own_counts(pins.take(i as int)),
        decreases entries@.len() - i,
    {
        let ghost node = pins[i as int].1;
        let ghost seen = pins.take(i as int);
        proof {
            seen.lemma_filter_len(fleet_model::pinned_to(node));
            assert(pins.take(i + 1) == seen.push(pins[i as int]));
        }
        let name = entries[i].1.as_str();
        let known: i32 = match counts.get(name) {
            Some(n) => n,
            None => 0,
        };
        counts.insert(name, known + 1);
        proof {
            let after = fleet_model::own_counts(pins.take(i + 1));
            assert forall|n: Seq<char>| #[trigger]
                counts@.dom().contains(n) == after.dom().contains(n) by {
                own_count_grows(seen, pins[i as int], n);
            }
            assert forall|n: Seq<char>| after.dom().contains(n) implies #[trigger] counts@[n]
                == after[n] by {
                own_count_grows(seen, pins[i as int], n);
                seen.lemma_filter_len(fleet_model::pinned_to(n));
            }
            assert(counts@ =~= after);
        }
        i = i + 1;
    }
    proof {
        assert(pins.take(pins.len() as int) == pins);
    }
    counts
}

/// The candidates with the fleet's own load. An unmeasured load becomes known where the fleet has
/// services of its own, so such a node then ranks above an equally warm one that is free but
/// unmeasured.
pub fn with_own_load(candidates: &[NodeCandidate], current: &BTreeMap<usize, String>) -> (r: Vec<NodeCandidate>)
    requires
        slots::pins_in(current@).len() <= i32::MAX,
        forall|i: int|
            0 <= i < candidates@.len() ==> fleet_model::own_count(
                slots::pins_in(current@),
                (#[trigger] candidates@[i]).name@,
            ) == 0 || fleet_planning::service_count(candidates@[i]) + fleet_model::own_count(
                slots::pins_in(current@),
                candidates@[i].name@,
            ) <= i32::MAX,
    ensures
        r@ == candidates@.map_values(fleet_model::own_load_added(slots::pins_in(current@))),
{
    let counts = own_placements_per_node(current);
    let mut out: Vec<NodeCandidate> = Vec::new();
    let mut i: usize = 0;
    while i < candidates.len()
        invariant
            i <= candidates@.len(),
            slots::pins_in(current@).len() <= i32::MAX,
            counts.wf(),
            counts@ == fleet_model::own_counts(slots::pins_in(current@)),
            forall|j: int|
                0 <= j < candidates@.len() ==> fleet_model::own_count(
                    slots::pins_in(current@),
                    (#[trigger] candidates@[j]).name@,
                ) == 0 || fleet_planning::service_count(candidates@[j]) + fleet_model::own_count(
                    slots::pins_in(current@),
                    candidates@[j].name@,
                ) <= i32::MAX,
            out@ == candidates@.take(i as int).map_values(fleet_model::own_load_added(slots::pins_in(current@))),
        decreases candidates@.len() - i,
    {
        let mut c = candidates[i].clone();
        proof {
            assert(candidates@.take(i + 1) == candidates@.take(i as int).push(candidates@[i as int]));
            slots::pins_in(current@).lemma_filter_len(fleet_model::pinned_to(c.name@));
        }
        if let Some(own) = counts.get(c.name.as_str()) {
            let known: i32 = match c.active_service_count {
                Some(n) => n,
                None => 0,
            };
            c.active_service_count = Some(known + own);
        }
        out.push(c);
        i = i + 1;
    }
    proof {
        assert(candidates@.take(candidates@.len() as int) == candidates@);
    }
    out
}

/// The candidates that are not about to be taken away.
pub fn healthy_candidates(candidates: &[NodeCandidate], preempted: &NameSet) -> (r: Vec<
    NodeCandidate,
>)
    ensures
        r@ == candidates@.filter(fleet_model::stays(preempted@)),
{
    let mut out: Vec<NodeCandidate> = Vec::new();
    let mut i: usize = 0;
    proof {
        reveal(Seq::filter);
    }
    while i < candidates.len()
        invariant
            i <= candidates@.len(),
            out@ == candidates@.take(i as int).filter(fleet_model::stays(preempted@)),
        decreases candidates@.len() - i,
    {
        let c = &candidates[i];
        proof {
            assert(candidates@.take(i + 1) == candidates@.take(i as int).push(*c));
            candidates@.take(i as int).lemma_filter_push(*c, fleet_model::stays(preempted@));
        }
        if !preempted.contains(c.name.as_str()) {
            out.push(c.clone());
        }
        i = i + 1;
    }
    proof {
        assert(candidates@.take(candidates@.len() as int) == candidates@);
    }
    out
}

/// Whether a placement is on the move.
fn is_on_the_move(p: &PlacementStatus, preempted: &NameSet) -> (r: bool)
    ensures
        r == fleet_model::on_the_move(preempted@)(p@),
{
    (same_text(p.phase.as_str(), "Draining") || same_text(p.phase.as_str(), "Rescheduling"))
        && !preempted.contains(p.node_ref.as_str())
}

/// The number of placements that are on the move.
pub fn moves_in_flight(placements: &[PlacementStatus], preempted: &NameSet) -> (r: usize)
    ensures
        r == fleet_types::placements_view(placements@).filter(
            fleet_model::on_the_move(preempted@),
        ).len(),
        r <= placements@.len(),
{
    let ghost views = fleet_types::placements_view(placements@);
    let ghost test = fleet_model::on_the_move(preempted@);
    let mut n: usize = 0;
    let mut i: usize = 0;
    proof {
        reveal(Seq::filter);
    }
    while i < placements.len()
        invariant
            n <= i <= placements@.len(),
            views == fleet_types::placements_view(placements@),
            test == fleet_model::on_the_move(preempted@),
            n == views.take(i as int).filter(test).len(),
        decreases placements@.len() - i,
    {
        proof {
            assert(views.take(i + 1) == views.take(i as int).push(placements@[i as int]@));
            views.take(i as int).lemma_filter_push(placements@[i as int]@, test);
        }
        if is_on_the_move(&placements[i], preempted) {
            n = n + 1;
        }
        i = i + 1;
    }
    proof {
        assert(views.take(views.len() as int) == views);
    }
    n
}

/// The pins, once the moves are made. A pin to a node that is about to be taken away moves if there
/// is a node to go to and the budget is not used up; otherwise it is held where it is.
fn settle(
    Ghost(s): Ghost<Situation>,
    current: &BTreeMap<usize, String>,
    healthy: &[NodeCandidate],
    preempted: &NameSet,
    fleet: &FleetService,
    in_flight: usize,
) -> (r: BTreeMap<usize, String>)
    requires
        *fleet == s.fleet,
        slots::pins_in(current@) == s.pins(),
        healthy@ == s.healthy(),
        preempted@ == s.preempted,
        in_flight == s.in_flight(),
    ensures
        slots::pins_in(r@) == s.settled(),
{
    let cap: i32 = fleet.spec.hysteresis.max_concurrent_reschedules;
    let allowed: usize = if cap < 0 { 0 } else { cap as usize };
    let budget: usize = if allowed > in_flight { allowed - in_flight } else { 0 };
    let mut started: usize = 0;
    let entries = entries_of(current);
    let mut out: BTreeMap<usize, String> = BTreeMap::new();
    let mut k: usize = 0;
    proof {
        slots::pins_in_are_the_map(current@);
        slots::empty_map_has_no_pins(usize::MAX + 1);
        assert(s.settled().take(0) =~= Seq::<Pin>::empty());
    }
    while k < entries.len()
        invariant
            k <= entries@.len(),
            slots::entries_view(entries@) == s.pins(),
            slots::ascending(s.pins()),
            healthy@ == s.healthy(),
            preempted@ == s.preempted,
            *fleet == s.fleet,
            budget == s.budget(),
            started <= budget,
            started == (if s.movable_before(k as int) < s.budget() {
                s.movable_before(k as int)
            } else {
                s.budget()
            }),
            0 <= s.movable_before(k as int),
            slots::pins_in(out@) == s.settled().take(k as int),
        decreases entries@.len() - k,
    {
        let slot: usize = entries[k].0;
        let node = entries[k].1;
        proof {
            assert(s.pins()[k as int] == (slot as int, node@));
        }
        let mut target: Option<String> = None;
        if started < budget && preempted.contains(node.as_str()) {
            target = select_replacement_node(
                healthy,
                node.as_str(),
                &fleet.spec.placement.strategy,
                fleet.spec.placement.signal_max_age_seconds,
            );
            if target.is_some() {
                started = started + 1;
            }
        }
        let chosen = match target {
            Some(t) => t,
            None => node.clone(),
        };
        proof {
            let done = s.settled().take(k as int);
            assert(s.settled()[k as int] == (slot as int, chosen@));
            assert(s.settled().take(k + 1) =~= done.push((slot as int, chosen@)));
            if k > 0 {
                assert(done.last() == s.settled()[k - 1]);
                assert(s.pins()[k - 1].0 < s.pins()[k as int].0);
            }
            slots::inserting_pins_the_slot(out@, slot, chosen);
        }
        out.insert(slot, chosen);
        k = k + 1;
    }
    proof {
        assert(s.settled().take(s.settled().len() as int) =~= s.settled());
    }
    out
}

/// Moving a pin moves no slot: the same slots are pinned before and after.
proof fn settled_slots_are_pinned(s: Situation, slot: int)
    requires
        slots::ascending(s.pins()),
    ensures
        slots::ascending(s.settled()),
        slots::node_of(s.settled(), slot) is Some <==> slots::node_of(s.pins(), slot) is Some,
{
    let a = s.pins();
    let b = s.settled();
    assert forall|i: int, j: int| 0 <= i < j < b.len() implies (#[trigger] b[i]).0 < (
    #[trigger] b[j]).0 by {
        assert(a[i].0 < a[j].0);
    }
    slots::node_of_is_the_pin(a, slot);
    slots::node_of_is_the_pin(b, slot);
    if slots::node_of(a, slot) is Some {
        let k = choose|k: int|
            0 <= k < a.len() && #[trigger] a[k] == (slot, slots::node_of(a, slot)->0);
        assert(b[k].0 == slot);
    }
    if slots::node_of(b, slot) is Some {
        let k = choose|k: int|
            0 <= k < b.len() && #[trigger] b[k] == (slot, slots::node_of(b, slot)->0);
        assert(a[k].0 == slot);
    }
}

/// The number of slots below `desired` that are not pinned.
fn count_missing(
    Ghost(s): Ghost<Situation>,
    current: &BTreeMap<usize, String>,
    desired: usize,
) -> (r: usize)
    requires
        slots::pins_in(current@) == s.pins(),
        desired == s.desired(),
    ensures
        r == s.missing_below(s.desired()),
        r <= desired,
{
    let mut n: usize = 0;
    let mut i: usize = 0;
    while i < desired
        invariant
            n <= i <= desired,
            slots::pins_in(current@) == s.pins(),
            n == s.missing_below(i as int),
        decreases desired - i,
    {
        proof {
            slots::pins_in_are_the_map(current@);
            assert(slots::node_of(s.pins(), i as int) == slots::node_in(current@, i));
        }
        if current.get(&i).is_none() {
            n = n + 1;
        }
        i = i + 1;
    }
    n
}

/// The number of pinned slots beyond those asked for.
fn count_surplus(
    Ghost(s): Ghost<Situation>,
    current: &BTreeMap<usize, String>,
    desired: usize,
) -> (r: usize)
    requires
        slots::pins_in(current@) == s.pins(),
        desired == s.desired(),
    ensures
        r == s.surplus().len(),
{
    let entries = entries_of(current);
    let ghost far = fleet_model::beyond(s.desired());
    let mut n: usize = 0;
    let mut k: usize = 0;
    proof {
        reveal(Seq::filter);
    }
    while k < entries.len()
        invariant
            n <= k <= entries@.len(),
            slots::entries_view(entries@) == s.pins(),
            desired == s.desired(),
            far == fleet_model::beyond(s.desired()),
            n == s.pins().take(k as int).filter(far).len(),
        decreases entries@.len() - k,
    {
        proof {
            let seen = s.pins().take(k as int);
            assert(s.pins().take(k + 1) == seen.push(s.pins()[k as int]));
            seen.lemma_filter_push(s.pins()[k as int], far);
        }
        if entries[k].0 >= desired {
            n = n + 1;
        }
        k = k + 1;
    }
    proof {
        assert(s.pins().take(s.pins().len() as int) == s.pins());
    }
    n
}

/// The slots that get a service, with their nodes: a pinned slot keeps its pin, and the others take
/// the planned nodes in turn.
fn fill_slots(
    Ghost(s): Ghost<Situation>,
    settled: &BTreeMap<usize, String>,
    fresh: &Vec<String>,
    desired: usize,
) -> (r: Vec<(usize, String)>)
    requires
        slots::ascending(s.pins()),
        slots::pins_in(settled@) == s.settled(),
        objects::texts_view(fresh@) == s.fresh_nodes(),
        desired == s.desired(),
    ensures
        slots::pins_view(r@) == s.filled(),
{
    let mut out: Vec<(usize, String)> = Vec::new();
    let mut next: usize = 0;
    let mut i: usize = 0;
    proof {
        assert(slots::pins_view(out@) =~= s.filled_below(0));
    }
    while i < desired
        invariant
            i <= desired,
            slots::ascending(s.pins()),
                slots::pins_in(settled@) == s.settled(),
            objects::texts_view(fresh@) == s.fresh_nodes(),
            next <= fresh@.len(),
            next == s.missing_below(i as int) || (next == fresh@.len() && next <= s.missing_below(
                i as int,
            )),
            slots::pins_view(out@) == s.filled_below(i as int),
        decreases desired - i,
    {
        proof {
            settled_slots_are_pinned(s, i as int);
            slots::pins_in_are_the_map(settled@);
            assert(slots::node_of(s.settled(), i as int) == slots::node_in(settled@, i));
        }
        let ghost seen = slots::pins_view(out@);
        match settled.get(&i) {
            Some(node) => {
                out.push((i, node.clone()));
                proof {
                    assert(slots::pins_view(out@) =~= seen.push((i as int, node@)));
                }
            },
            None => {
                if next < fresh.len() {
                    proof {
                        assert(s.fresh_nodes()[next as int] == fresh@[next as int]@);
                    }
                    out.push((i, fresh[next].clone()));
                    proof {
                        assert(slots::pins_view(out@) =~= seen.push(
                            (i as int, fresh@[next as int]@),
                        ));
                    }
                    next = next + 1;
                }
            },
        }
        i = i + 1;
    }
    out
}

/// Whether a service is the one that the fleet wants for a slot on a node: the fleet's model and
/// template, one replica, pinned to the node, under the slot's name, owned by the fleet.
pub open spec fn is_owned_service(
    v: VllmService,
    fleet: FleetService,
    slot: nat,
    node: Seq<char>,
) -> bool {
    let m = v.metadata;
    let t = fleet.spec.template;
    &&& objects::text_view(m.name) == Some(slots::child_name(fleet.metadata.any_name(), slot))
    &&& m.generate_name is None
    &&& m.namespace == fleet.metadata.namespace
    &&& m.uid is None
    &&& objects::labels_view(m.labels@) == seq![
        ("app.kubernetes.io/managed-by"@, FLEET_MANAGER@),
        (FLEET_LABEL@, fleet.metadata.any_name()),
    ]
    &&& objects::owners_view(m.owner_references@) == seq![
        fleet.metadata.owner_view("FleetService"@),
    ]
    &&& v.spec.model@ == fleet.spec.model@
    &&& v.spec.replicas == 1
    &&& v.spec.warmup_strategy == WarmupStrategy::Eager
    &&& v.spec.image@ == t.image@
    &&& v.spec.gpu == t.gpu
    &&& v.spec.health_path@ == t.health_path@
    &&& v.spec.runtime_class_name == t.runtime_class_name
    &&& v.spec.extra_args@ == t.extra_args@
    &&& v.spec.model_cache_host_path == t.model_cache_host_path
    &&& objects::text_view(v.spec.node_name) == Some(node)
    &&& v.status is None
}

/// The service that the fleet wants for a slot on a node. A fleet without a namespace has none.
pub fn build_owned_vllm_service(fleet: &FleetService, slot: usize, node: &str) -> (r: Result<
    VllmService,
    FleetError,
>)
    requires
        fleet.metadata.namespace is Some ==> fleet.metadata.can_own(),
    ensures
        match r {
            Ok(v) => fleet.metadata.namespace is Some && is_owned_service(
                v,
                *fleet,
                slot as nat,
                node@,
            ),
            Err(e) => fleet.metadata.namespace is None && e == FleetError::MissingNamespace,
        },
{
    if fleet.metadata.namespace.is_none() {
        return Err(FleetError::MissingNamespace);
    }
    let fleet_name = fleet.metadata.name_any();
    let t = &fleet.spec.template;
    let spec = VllmServiceSpec {
        model: fleet.spec.model.clone(),
        replicas: 1,
        warmup_strategy: WarmupStrategy::default(),
        image: t.image.clone(),
        gpu: t.gpu,
        health_path: t.health_path.clone(),
        runtime_class_name: copy_text(&t.runtime_class_name),
        extra_args: copy_texts(&t.extra_args),
        model_cache_host_path: copy_text(&t.model_cache_host_path),
        node_name: Some(node.to_owned()),
    };
    let name = child_name_of(fleet_name.as_str(), slot);
    let mut labels: Vec<(String, String)> = Vec::new();
    labels.push(("app.kubernetes.io/managed-by".to_string(), FLEET_MANAGER.to_string()));
    labels.push((FLEET_LABEL.to_string(), fleet_name));
    let mut owner_references = Vec::new();
    if let Some(owner) = fleet.metadata.controller_owner_ref("FleetService") {
        owner_references.push(owner);
    }
    proof {
        assert(objects::labels_view(labels@) =~= seq![
            ("app.kubernetes.io/managed-by"@, FLEET_MANAGER@),
            (FLEET_LABEL@, fleet.metadata.any_name()),
        ]);
        assert(objects::owners_view(owner_references@) =~= seq![
            fleet.metadata.owner_view("FleetService"@),
        ]);
    }
    Ok(
        VllmService {
            metadata: ObjectMeta {
                name: Some(name),
                generate_name: None,
                namespace: copy_text(&fleet.metadata.namespace),
                uid: None,
                labels,
                owner_references,
            },
            spec,
            status: None,
        },
    )
}

/// The phase that the placement of a service was last recorded in.
fn previous_phase_of<'a>(previous: &'a [PlacementStatus], child: &str) -> (r: &'a str)
    ensures
        r@ == match fleet_model::last_record(fleet_types::placements_view(previous@), child@) {
            Some(p) => p.phase,
            None => "Pending"@,
        },
{
    match last_record_of(previous, child) {
        Some(k) => previous[k].phase.as_str(),
        None => "Pending",
    }
}

/// The number of reconciles for which the placement of a service was recorded as surplus.
fn previous_surplus_of(previous: &[PlacementStatus], child: &str) -> (r: i32)
    ensures
        r == match fleet_model::last_record(fleet_types::placements_view(previous@), child@) {
            Some(p) => p.surplus_reconciles,
            None => 0,
        },
{
    match last_record_of(previous, child) {
        Some(k) => previous[k].surplus_reconciles,
        None => 0,
    }
}

/// The record of a slot that gets a service.
fn record_placement(
    Ghost(s): Ghost<Situation>,
    fleet: &FleetService,
    previous: &[PlacementStatus],
    children: &[VllmService],
    loaded: &[NodeCandidate],
    slot: usize,
    node: &str,
    slot_preempted: bool,
    keeps_pin: bool,
) -> (r: PlacementStatus)
    requires
        *fleet == s.fleet,
        fleet_types::placements_view(previous@) == s.previous(),
        children@ == s.children,
        loaded@ == s.loaded(),
        slot_preempted == s.slot_preempted(slot as int),
        keeps_pin == s.keeps_pin((slot as int, node@)),
    ensures
        r@ == s.placement((slot as int, node@)),
{
    let child = child_name_of(fleet.metadata.name_any().as_str(), slot);
    let ready = is_child_ready(children, child.as_str());
    let phase = placement_phase_for(
        previous_phase_of(previous, child.as_str()),
        ready,
        slot_preempted,
    );
    let recorded = if keeps_pin { last_decision_of(previous, child.as_str()) } else { None };
    let decided = match recorded {
        Some(d) => Some(d),
        None => decision_inputs(
            loaded,
            node,
            &fleet.spec.placement.strategy,
            fleet.spec.placement.signal_max_age_seconds,
        ),
    };
    PlacementStatus {
        vllm_service_ref: child,
        node_ref: node.to_owned(),
        phase: phase.to_string(),
        last_transition_time: String::new(),
        stable_since: String::new(),
        surplus_reconciles: 0,
        decided_on: decided,
    }
}

/// The record of a surplus slot that is still there.
fn record_surplus(
    Ghost(s): Ghost<Situation>,
    fleet: &FleetService,
    previous: &[PlacementStatus],
    children: &[VllmService],
    slot: usize,
    node: &str,
    surplus_reconciles: i32,
) -> (r: PlacementStatus)
    requires
        *fleet == s.fleet,
        fleet_types::placements_view(previous@) == s.previous(),
        children@ == s.children,
        surplus_reconciles == s.surplus_outcome(slot as int).0,
    ensures
        r@ == s.surplus_placement((slot as int, node@)),
{
    let child = child_name_of(fleet.metadata.name_any().as_str(), slot);
    let ready = is_child_ready(children, child.as_str());
    let phase = placement_phase_for(previous_phase_of(previous, child.as_str()), ready, false);
    let decided = last_decision_of(previous, child.as_str());
    PlacementStatus {
        vllm_service_ref: child,
        node_ref: node.to_owned(),
        phase: phase.to_string(),
        last_transition_time: String::new(),
        stable_since: String::new(),
        surplus_reconciles,
        decided_on: decided,
    }
}

/// The records of the slots that get a service.
fn record_placements(
    Ghost(s): Ghost<Situation>,
    fleet: &FleetService,
    previous: &[PlacementStatus],
    children: &[VllmService],
    loaded: &[NodeCandidate],
    preempted: &NameSet,
    current: &BTreeMap<usize, String>,
    filled: &[(usize, String)],
) -> (r: Vec<PlacementStatus>)
    requires
        *fleet == s.fleet,
        fleet_types::placements_view(previous@) == s.previous(),
        children@ == s.children,
        loaded@ == s.loaded(),
        preempted@ == s.preempted,
        slots::pins_in(current@) == s.pins(),
        slots::pins_view(filled@) == s.filled(),
    ensures
        fleet_types::placements_view(r@) == s.filled().map_values(s.recorded()),
{
    let mut out: Vec<PlacementStatus> = Vec::new();
    let mut k: usize = 0;
    while k < filled.len()
        invariant
            k <= filled@.len(),
            *fleet == s.fleet,
            fleet_types::placements_view(previous@) == s.previous(),
            children@ == s.children,
            loaded@ == s.loaded(),
            preempted@ == s.preempted,
            slots::pins_in(current@) == s.pins(),
            slots::pins_view(filled@) == s.filled(),
            out@.len() == k,
            forall|j: int| 0 <= j < k ==> (#[trigger] out@[j])@ == s.placement(slots::pins_view(filled@)[j]),
        decreases filled@.len() - k,
    {
        let slot: usize = filled[k].0;
        proof {
            slots::pins_in_are_the_map(current@);
            assert(slots::node_of(s.pins(), slot as int) == slots::node_in(current@, slot));
        }
        let (slot_preempted, keeps_pin) = match current.get(&slot) {
            Some(node) => (
                preempted.contains(node.as_str()),
                same_text(node.as_str(), filled[k].1.as_str()),
            ),
            None => (false, false),
        };
        let p = record_placement(
            Ghost(s),
            fleet,
            previous,
            children,
            loaded,
            slot,
            filled[k].1.as_str(),
            slot_preempted,
            keeps_pin,
        );
        proof {
            assert(slots::pins_view(filled@)[k as int] == (slot as int, filled@[k as int].1@));
        }
        out.push(p);
        k = k + 1;
    }
    proof {
        assert(fleet_types::placements_view(out@) =~= s.filled().map_values(s.recorded()));
    }
    out
}

/// The surplus slots: the records of those that are still there, and the names of the services of
/// those that go.
fn record_surplus_slots(
    Ghost(s): Ghost<Situation>,
    fleet: &FleetService,
    previous: &[PlacementStatus],
    children: &[VllmService],
    current: &BTreeMap<usize, String>,
    desired: usize,
) -> (r: (Vec<PlacementStatus>, Vec<String>))
    requires
        *fleet == s.fleet,
        fleet_types::placements_view(previous@) == s.previous(),
        children@ == s.children,
        slots::pins_in(current@) == s.pins(),
        desired == s.desired(),
    ensures
        fleet_types::placements_view(r.0@) == s.surplus().filter(s.lingers()).map_values(
            s.surplus_recorded(),
        ),
        objects::texts_view(r.1@) == s.removals(),
{
    let entries = entries_of(current);
    let mut kept: Vec<PlacementStatus> = Vec::new();
    let mut gone: Vec<String> = Vec::new();
    let mut k: usize = 0;
    let ghost far = fleet_model::beyond(s.desired());
    proof {
        reveal(Seq::filter);
        let none = s.pins().take(0).filter(far);
        assert(fleet_types::placements_view(kept@) =~= none.filter(s.lingers()).map_values(
            s.surplus_recorded(),
        ));
        assert(objects::texts_view(gone@) =~= none.filter(s.goes()).map_values(s.child_of_pin()));
    }
    while k < entries.len()
        invariant
            k <= entries@.len(),
            *fleet == s.fleet,
            fleet_types::placements_view(previous@) == s.previous(),
            children@ == s.children,
            slots::entries_view(entries@) == s.pins(),
            desired == s.desired(),
            far == fleet_model::beyond(s.desired()),
            fleet_types::placements_view(kept@) == s.pins().take(k as int).filter(far).filter(
                s.lingers(),
            ).map_values(s.surplus_recorded()),
            objects::texts_view(gone@) == s.pins().take(k as int).filter(far).filter(
                s.goes(),
            ).map_values(s.child_of_pin()),
        decreases entries@.len() - k,
    {
        let slot: usize = entries[k].0;
        let node = entries[k].1;
        let ghost pin: Pin = (slot as int, node@);
        let ghost seen = s.pins().take(k as int);
        let ghost kept_before = kept@;
        let ghost gone_before = gone@;
        proof {
            assert(s.pins()[k as int] == pin);
            assert(s.pins().take(k + 1) == seen.push(pin));
            seen.lemma_filter_push(pin, far);
            seen.filter(far).lemma_filter_push(pin, s.lingers());
            seen.filter(far).lemma_filter_push(pin, s.goes());
        }
        if slot >= desired {
            let child = child_name_of(fleet.metadata.name_any().as_str(), slot);
            let outcome = surplus_hysteresis(
                previous_surplus_of(previous, child.as_str()),
                true,
                fleet.spec.hysteresis.stable_reconciles_required,
            );
            if outcome.1 {
                gone.push(child);
                proof {
                    assert(objects::texts_view(gone@) =~= objects::texts_view(gone_before).push(
                        s.child(pin.0),
                    ));
                    assert(seen.filter(far).filter(s.goes()).push(pin).map_values(s.child_of_pin())
                        =~= seen.filter(far).filter(s.goes()).map_values(s.child_of_pin()).push(
                        s.child(pin.0),
                    ));
                }
            } else {
                let p = record_surplus(
                    Ghost(s),
                    fleet,
                    previous,
                    children,
                    slot,
                    node.as_str(),
                    outcome.0,
                );
                kept.push(p);
                proof {
                    assert(fleet_types::placements_view(kept@) =~= fleet_types::placements_view(
                        kept_before,
                    ).push(s.surplus_placement(pin)));
                    assert(seen.filter(far).filter(s.lingers()).push(pin).map_values(
                        s.surplus_recorded(),
                    ) =~= seen.filter(far).filter(s.lingers()).map_values(
                        s.surplus_recorded(),
                    ).push(s.surplus_placement(pin)));
                }
            }
        }
        k = k + 1;
    }
    proof {
        assert(s.pins().take(s.pins().len() as int) == s.pins());
    }
    (kept, gone)
}

/// Whether a status says what a situation amounts to.
pub open spec fn status_matches(st: FleetServiceStatus, s: Situation) -> bool {
    &&& st.phase@ == s.phase()
    &&& st.ready_replicas == s.ready_count()
    &&& st.desired_replicas == s.fleet.spec.replicas
    &&& st.replicas == s.placements().len()
    &&& st.warming_replicas == s.warming_count()
    &&& st.active_reschedules == s.moving_count()
    &&& fleet_types::placements_view(st.placements@) == s.placements()
}

/// The status that a list of placements amounts to.
fn summarize(
    Ghost(s): Ghost<Situation>,
    replicas: i32,
    placements: Vec<PlacementStatus>,
    preempted: &NameSet,
) -> (r: FleetServiceStatus)
    requires
        replicas == s.fleet.spec.replicas,
        preempted@ == s.preempted,
        fleet_types::placements_view(placements@) == s.placements(),
        s.placements().len() <= i32::MAX,
    ensures
        status_matches(r, s),
{
    let ghost views = s.placements();
    let mut ready: usize = 0;
    let mut warming: usize = 0;
    let mut holds = false;
    let mut i: usize = 0;
    proof {
        reveal(Seq::filter);
    }
    while i < placements.len()
        invariant
            i <= placements@.len(),
            preempted@ == s.preempted,
            views == s.placements(),
            fleet_types::placements_view(placements@) == views,
            ready <= i,
            warming <= i,
            ready == views.take(i as int).filter(fleet_model::is_ready()).len(),
            warming == views.take(i as int).filter(fleet_model::is_warming()).len(),
            holds == exists|j: int|
                0 <= j < i && fleet_model::held(#[trigger] views[j], s.preempted),
        decreases placements@.len() - i,
    {
        let p = &placements[i];
        proof {
            assert(views[i as int] == p@);
            assert(views.take(i + 1) == views.take(i as int).push(p@));
            views.take(i as int).lemma_filter_push(p@, fleet_model::is_ready());
            views.take(i as int).lemma_filter_push(p@, fleet_model::is_warming());
        }
        if same_text(p.phase.as_str(), "Ready") {
            ready = ready + 1;
        }
        if same_text(p.phase.as_str(), "Pending") || same_text(p.phase.as_str(), "Warming") {
            warming = warming + 1;
        }
        if same_text(p.phase.as_str(), "Draining") && preempted.contains(p.node_ref.as_str()) {
            holds = true;
        }
        i = i + 1;
    }
    proof {
        assert(views.take(views.len() as int) == views);
    }
    let moving = moves_in_flight(placements.as_slice(), preempted);
    let total: usize = placements.len();
    FleetServiceStatus {
        phase: fleet_phase_for(replicas, ready as i32, holds).to_string(),
        ready_replicas: ready as i32,
        desired_replicas: replicas,
        replicas: total as i32,
        warming_replicas: warming as i32,
        active_reschedules: moving as i32,
        placements,
    }
}

/// What a reconcile of a fleet does.
#[derive(Debug)]
pub struct FleetPlan {
    /// The services to apply, in order of slots.
    pub apply: Vec<VllmService>,
    /// The names of the services to remove.
    pub remove: Vec<String>,
    /// The status to write.
    pub status: FleetServiceStatus,
}

/// Whether a plan is what a situation calls for.
pub open spec fn plan_matches(p: FleetPlan, s: Situation) -> bool {
    &&& p.apply@.len() == s.filled().len()
    &&& forall|i: int|
        0 <= i < s.filled().len() ==> is_owned_service(
            #[trigger] p.apply@[i],
            s.fleet,
            s.filled()[i].0 as nat,
            s.filled()[i].1,
        )
    &&& objects::texts_view(p.remove@) == s.removals()
    &&& status_matches(p.status, s)
}

/// What was observed of a fleet.
pub open spec fn situation(
    fleet: FleetService,
    nodes: NodeObservation,
    children: Seq<VllmService>,
) -> Situation {
    Situation {
        fleet,
        candidates: nodes.candidates@,
        preempted: nodes.preempted@,
        children,
    }
}

/// The services of the slots that get one.
fn build_services(fleet: &FleetService, filled: &[(usize, String)]) -> (r: Vec<VllmService>)
    requires
        fleet.metadata.namespace is Some,
        slots::pins_view(filled@).len() > 0 ==> fleet.metadata.can_own(),
    ensures
        r@.len() == slots::pins_view(filled@).len(),
        forall|i: int|
            0 <= i < slots::pins_view(filled@).len() ==> is_owned_service(
                #[trigger] r@[i],
                *fleet,
                slots::pins_view(filled@)[i].0 as nat,
                slots::pins_view(filled@)[i].1,
            ),
{
    let mut out: Vec<VllmService> = Vec::new();
    let mut k: usize = 0;
    while k < filled.len()
        invariant
            k <= filled@.len(),
            fleet.metadata.namespace is Some,
            slots::pins_view(filled@).len() > 0 ==> fleet.metadata.can_own(),
            out@.len() == k,
            forall|i: int|
                0 <= i < k ==> is_owned_service(
                    #[trigger] out@[i],
                    *fleet,
                    slots::pins_view(filled@)[i].0 as nat,
                    slots::pins_view(filled@)[i].1,
                ),
        decreases filled@.len() - k,
    {
        proof {
            assert(slots::pins_view(filled@).len() == filled@.len());
        }
        let slot: usize = filled[k].0;
        let built = build_owned_vllm_service(fleet, slot, filled[k].1.as_str());
        match built {
            Ok(service) => {
                proof {
                    assert(slots::pins_view(filled@)[k as int] == (slot as int, filled@[k as int].1@));
                }
                out.push(service);
            },
            Err(_) => {
                return out;
            },
        }
        k = k + 1;
    }
    out
}

/// Decides what a reconcile of a fleet does, from what was observed. A fleet without a namespace
/// cannot be reconciled; while no node has been reported on, nothing is touched.
pub fn plan_fleet(
    fleet: &FleetService,
    nodes: &NodeObservation,
    children: &[VllmService],
) -> (r: Result<Option<FleetPlan>, FleetError>)
    requires
        fleet.metadata.namespace is Some && nodes.candidates@.len() > 0 ==> {
            let s = situation(*fleet, *nodes, children@);
            s.countable() && (s.filled().len() > 0 ==> fleet.metadata.can_own())
        },
    ensures
        match r {
            Err(e) => fleet.metadata.namespace is None && e == FleetError::MissingNamespace,
            Ok(None) => fleet.metadata.namespace is Some && nodes.candidates@.len() == 0,
            Ok(Some(p)) => fleet.metadata.namespace is Some && nodes.candidates@.len() > 0
                && plan_matches(p, situation(*fleet, *nodes, children@)),
        },
{
    if fleet.metadata.namespace.is_none() {
        return Err(FleetError::MissingNamespace);
    }
    if nodes.candidates.len() == 0 {
        return Ok(None);
    }
    let ghost s = situation(*fleet, *nodes, children@);
    let none: Vec<PlacementStatus> = Vec::new();
    let previous: &[PlacementStatus] = match &fleet.status {
        Some(status) => status.placements.as_slice(),
        None => none.as_slice(),
    };
    proof {
        assert(fleet_types::placements_view(previous@) =~= s.previous());
        crate::fleet_laws::pins_are_in_order(s.children);
        crate::fleet_laws::pins_are_bounded(s);
    }
    let desired: usize = if fleet.spec.replicas < 0 { 0 } else { fleet.spec.replicas as usize };
    let current = current_placements(children);
    let loaded = with_own_load(nodes.candidates.as_slice(), &current);
    let healthy = healthy_candidates(loaded.as_slice(), &nodes.preempted);
    let in_flight = moves_in_flight(previous, &nodes.preempted);
    let settled = settle(
        Ghost(s),
        &current,
        healthy.as_slice(),
        &nodes.preempted,
        fleet,
        in_flight,
    );
    let missing = count_missing(Ghost(s), &current, desired);
    let fresh = plan_initial_placements(
        missing as i32,
        healthy.as_slice(),
        &fleet.spec.placement.strategy,
        fleet.spec.placement.signal_max_age_seconds,
    );
    let filled = fill_slots(Ghost(s), &settled, &fresh, desired);
    let apply = build_services(fleet, filled.as_slice());
    let mut placements = record_placements(
        Ghost(s),
        fleet,
        previous,
        children,
        loaded.as_slice(),
        &nodes.preempted,
        &current,
        filled.as_slice(),
    );
    let (mut kept, remove) = record_surplus_slots(
        Ghost(s),
        fleet,
        previous,
        children,
        &current,
        desired,
    );
    let ghost first = placements@;
    let ghost second = kept@;
    placements.append(&mut kept);
    proof {
        assert(fleet_types::placements_view(placements@) =~= fleet_types::placements_view(first)
            + fleet_types::placements_view(second));
    }
    proof {
        crate::fleet_laws::placements_are_bounded(s);
    }
    let status = summarize(Ghost(s), fleet.spec.replicas, placements, &nodes.preempted);
    Ok(Some(FleetPlan { apply, remove, status }))
}

/// Whether the load of each candidate can be counted with the fleet's own services added.
fn own_load_fits(candidates: &[NodeCandidate], current: &BTreeMap<usize, String>) -> (r: bool)
    requires
        slots::pins_in(current@).len() <= i32::MAX,
    ensures
        r == forall|i: int|
            0 <= i < candidates@.len() ==> fleet_model::own_count(
                slots::pins_in(current@),
                (#[trigger] candidates@[i]).name@,
            ) == 0 || fleet_planning::service_count(candidates@[i]) + fleet_model::own_count(
                slots::pins_in(current@),
                candidates@[i].name@,
            ) <= i32::MAX,
{
    let counts = own_placements_per_node(current);
    let mut i: usize = 0;
    while i < candidates.len()
        invariant
            i <= candidates@.len(),
            slots::pins_in(current@).len() <= i32::MAX,
            counts.wf(),
            counts@ == fleet_model::own_counts(slots::pins_in(current@)),
            forall|j: int|
                0 <= j < i ==> fleet_model::own_count(
                    slots::pins_in(current@),
                    (#[trigger] candidates@[j]).name@,
                ) == 0 || fleet_planning::service_count(candidates@[j]) + fleet_model::own_count(
                    slots::pins_in(current@),
                    candidates@[j].name@,
                ) <= i32::MAX,
        decreases candidates@.len() - i,
    {
        let c = &candidates[i];
        proof {
            slots::pins_in(current@).lemma_filter_len(fleet_model::pinned_to(c.name@));
        }
        if let Some(own) = counts.get(c.name.as_str()) {
            let known: i32 = match c.active_service_count {
                Some(n) => n,
                None => 0,
            };
            if known as i64 + own as i64 > i32::MAX as i64 {
                proof {
                    assert(fleet_planning::service_count(candidates@[i as int]) == known);
                }
                return false;
            }
        }
        i = i + 1;
    }
    true
}

/// Whether all that a plan for the fleet has to count fits the numbers it is counted in.
pub fn is_countable(
    fleet: &FleetService,
    nodes: &NodeObservation,
    children: &[VllmService],
) -> (r: bool)
    ensures
        r == situation(*fleet, *nodes, children@).countable(),
{
    let ghost s = situation(*fleet, *nodes, children@);
    let desired: usize = if fleet.spec.replicas < 0 { 0 } else { fleet.spec.replicas as usize };
    let current = current_placements(children);
    let surplus = count_surplus(Ghost(s), &current, desired);
    if surplus as u128 + desired as u128 > i32::MAX as u128 {
        return false;
    }
    proof {
        crate::fleet_laws::pins_are_bounded(s);
    }
    if !own_load_fits(nodes.candidates.as_slice(), &current) {
        return false;
    }
    let loaded = with_own_load(nodes.candidates.as_slice(), &current);
    let healthy = healthy_candidates(loaded.as_slice(), &nodes.preempted);
    let missing = count_missing(Ghost(s), &current, desired);
    placements_fit(
        missing as i32,
        healthy.as_slice(),
        &fleet.spec.placement.strategy,
        fleet.spec.placement.signal_max_age_seconds,
    )
}

/// Whether a plan for the fleet has services to apply; the fleet must then be known by name and uid.
pub fn has_services_to_apply(
    fleet: &FleetService,
    nodes: &NodeObservation,
    children: &[VllmService],
) -> (r: bool)
    ensures
        r == (situation(*fleet, *nodes, children@).filled().len() > 0),
{
    let ghost s = situation(*fleet, *nodes, children@);
    proof {
        crate::fleet_laws::some_slot_is_filled(s);
    }
    if fleet.spec.replicas <= 0 {
        return false;
    }
    let current = current_placements(children);
    let entries = entries_of(&current);
    let mut k: usize = 0;
    while k < entries.len()
        invariant
            k <= entries@.len(),
            slots::entries_view(entries@) == s.pins(),
            *fleet == s.fleet,
            fleet.spec.replicas > 0,
            forall|j: int| 0 <= j < k ==> (#[trigger] s.pins()[j]).0 >= s.desired(),
            (exists|j: int| 0 <= j < s.pins().len() && (#[trigger] s.pins()[j]).0 < s.desired())
                ==> s.filled().len() > 0,
            s == situation(*fleet, *nodes, children@),
        decreases entries@.len() - k,
    {
        proof {
            assert(s.pins()[k as int].0 == entries@[k as int].0);
        }
        if entries[k].0 < fleet.spec.replicas as usize {
            return true;
        }
        k = k + 1;
    }
    let mut i: usize = 0;
    while i < nodes.candidates.len()
        invariant
            i <= nodes.candidates@.len(),
            s == situation(*fleet, *nodes, children@),
            forall|j: int|
                0 <= j < i ==> s.preempted.contains((#[trigger] s.candidates[j]).name@),
            (exists|j: int|
                0 <= j < s.candidates.len() && !s.preempted.contains(
                    (#[trigger] s.candidates[j]).name@,
                )) ==> s.filled().len() > 0,
        decreases nodes.candidates@.len() - i,
    {
        if !nodes.preempted.contains(nodes.candidates[i].name.as_str()) {
            proof {
                assert(!s.preempted.contains(s.candidates[i as int].name@));
            }
            return true;
        }
        i = i + 1;
    }
    false
}

/// The fleet's namespace.
pub fn fleet_namespace(fleet: &FleetService) -> (r: Result<String, FleetError>)
    ensures
        match r {
            Ok(ns) => fleet.metadata.namespace == Some(ns),
            Err(e) => fleet.metadata.namespace is None && e == FleetError::MissingNamespace,
        },
{
    match &fleet.metadata.namespace {
        Some(ns) => Ok(ns.clone()),
        None => Err(FleetError::MissingNamespace),
    }
}

/// The label selector that finds a fleet's services.
pub fn child_selector(fleet_name: &str) -> (r: String)
    ensures
        r@ == FLEET_LABEL@ + "="@ + fleet_name@,
{
    let mut selector = FLEET_LABEL.to_string();
    selector.append("=");
    selector.append(fleet_name);
    selector
}

/// Whether a change of a node wakes a fleet: every fleet in the node's namespace is woken.
pub fn wakes(node: &ObjectMeta, fleet: &ObjectMeta) -> (r: bool)
    ensures
        r == (objects::text_view(node.namespace) == objects::text_view(fleet.namespace)),
{
    match (&node.namespace, &fleet.namespace) {
        (Some(a), Some(b)) => same_text(a.as_str(), b.as_str()),
        (None, None) => true,
        _ => false,
    }
}

} // verus!
