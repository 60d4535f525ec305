//! What the steps of a reconcile make of what they are given.
use crate::choice_laws;
use crate::clock;
use crate::clock::Moment;
use crate::fleet_controller;
use crate::fleet_controller::{FleetError, NodeObservation};
use crate::fleet_laws;
use crate::fleet_model;
use crate::fleet_placement::NodeCandidate;
use crate::fleet_planning;
use crate::fleet_types;
use crate::fleet_types::{
    FleetService, NodeState, PlacementDecisionInputs, PlacementStatus, PlacementStrategy, Warmth,
};
use crate::names::{NameMap, NameSet};
use crate::objects;
use crate::objects::ObjectMeta;
use crate::slots;
use crate::slots::Pin;
use crate::text;
use crate::{VllmService, WarmupStrategy};
use std::collections::BTreeMap;
use vstd::prelude::*;

verus! {

/// Whole seconds between two points in time outside leap seconds: the nanoseconds between them, with
/// the fraction dropped towards zero.
pub proof fn ages_are_whole_seconds(observed: &Option<Moment>, now: &Moment, r: Option<i64>)
    requires
        call_ensures(clock::age_of, (observed, now), r),
    ensures
        r is Some <==> observed is Some,
        observed is Some && observed->0.nanos < 1_000_000_000 && now.nanos < 1_000_000_000 ==> {
            let d = (now.secs - observed->0.secs) * 1_000_000_000 + (now.nanos
                - observed->0.nanos);
            &&& d >= 0 ==> r->0 * 1_000_000_000 <= d < (r->0 + 1) * 1_000_000_000
            &&& d < 0 ==> (r->0 - 1) * 1_000_000_000 < d <= r->0 * 1_000_000_000
        },
        observed is Some && *now == observed->0 ==> r->0 == 0,
{
}

/// The age of a measurement follows its stamp: none without a stamp, none where the stamp cannot be
/// read, and else the seconds from the moment that it denotes.
pub proof fn ages_follow_the_stamp(
    observed_at: &Option<String>,
    now: &Moment,
    r: Option<i64>,
    m: Option<Moment>,
    age: Option<i64>,
)
    requires
        call_ensures(clock::age_secs, (observed_at, now), r),
        now.valid(),
        m is Some ==> m->0.valid(),
        observed_at is None ==> m is None,
        observed_at is Some ==> clock::parts(m) == clock::rfc3339_instant(observed_at->0@),
        call_ensures(clock::age_of, (&m, now), age),
    ensures
        r == age,
        observed_at is None ==> r is None,
        m is None ==> r is None,
{
    if m is Some {
        assert(clock::rfc3339_instant(observed_at->0@) == Some((m->0.secs, m->0.nanos)));
        assert(Moment { secs: m->0.secs, nanos: m->0.nanos } == m->0);
    }
}

/// Which points in time there are: those of the calendar, with nanoseconds beyond a second only in a
/// leap second.
pub proof fn moments_lie_in_the_calendar(secs: i64, nanos: u32, r: Option<Moment>)
    requires
        call_ensures(Moment::new, (secs, nanos), r),
    ensures
        r is Some ==> r->0.secs == secs && r->0.nanos == nanos,
        r is Some <==> -8_334_601_228_800 <= secs <= 8_210_266_876_799 && (nanos < 1_000_000_000 || (
        nanos < 2_000_000_000 && secs as int % 60 == 59)),
{
}

/// Whether a candidate says of a node what its reporter said: name, warmth, load and signals as they
/// are, and the ages of the two efficiency signals, each by its own stamp.
pub open spec fn says_what_was_reported(c: NodeCandidate, node: NodeState, now: Moment) -> bool {
    let st = node.status->0;
    &&& node.status is Some
    &&& c.name@ == node.metadata.any_name()
    &&& c.warmth == st.warmth
    &&& c.gpu_utilization == st.gpu_utilization
    &&& c.active_service_count == st.active_service_count
    &&& c.kv_cache_hit_rate == st.kv_cache_hit_rate
    &&& c.tokens_per_joule == st.tokens_per_joule
    &&& c.kv_cache_hit_rate_age_secs == clock::stamp_age(
        objects::text_view(st.kv_cache_hit_rate_observed_at),
        now,
    )
    &&& c.tokens_per_joule_age_secs == clock::stamp_age(
        objects::text_view(st.tokens_per_joule_observed_at),
        now,
    )
}

/// A node is a candidate exactly if it was reported on, and the candidate says what was reported.
pub proof fn reported_nodes_are_candidates(
    node: &NodeState,
    now: &Moment,
    r: Option<NodeCandidate>,
)
    requires
        call_ensures(fleet_controller::node_state_to_candidate, (node, now), r),
    ensures
        r is Some <==> node.status is Some,
        r is Some ==> says_what_was_reported(r->0, *node, *now),
{
}

/// One more node in the list: where it was reported on, it is one more candidate behind the others;
/// where it has a notice, its name is one more that is about to be taken away; and nothing else
/// changes.
pub proof fn nodes_are_observed_one_by_one(
    states: &[NodeState],
    more: &[NodeState],
    node: NodeState,
    now: &Moment,
    r: NodeObservation,
    rm: NodeObservation,
    name: Seq<char>,
)
    requires
        more@ == states@.push(node),
        call_ensures(fleet_controller::observe_nodes, (states, now), r),
        call_ensures(fleet_controller::observe_nodes, (more, now), rm),
    ensures
        rm.candidates@.len() == r.candidates@.len() + (if node.status is Some {
            1int
        } else {
            0
        }),
        node.status is Some ==> says_what_was_reported(rm.candidates@.last(), node, *now),
        forall|i: int|
            0 <= i < r.candidates@.len() ==> {
                let (a, b) = (#[trigger] r.candidates@[i], rm.candidates@[i]);
                &&& a.name@ == b.name@
                &&& a.warmth == b.warmth
                &&& a.gpu_utilization == b.gpu_utilization
                &&& a.active_service_count == b.active_service_count
                &&& a.kv_cache_hit_rate == b.kv_cache_hit_rate
                &&& a.kv_cache_hit_rate_age_secs == b.kv_cache_hit_rate_age_secs
                &&& a.tokens_per_joule == b.tokens_per_joule
                &&& a.tokens_per_joule_age_secs == b.tokens_per_joule_age_secs
            },
        rm.preempted@.contains(name) <==> r.preempted@.contains(name) || (node.status is Some
            && node.status->0.spot.preemption_notice_detected && node.metadata.any_name() == name),
{
    let test = fleet_model::reported();
    states@.lemma_filter_push(node, test);
    let known = states@.filter(test);
    let all = more@.filter(test);
    assert forall|i: int| 0 <= i < r.candidates@.len() implies {
        let (a, b) = (#[trigger] r.candidates@[i], rm.candidates@[i]);
        &&& a.name@ == b.name@
        &&& a.warmth == b.warmth
        &&& a.gpu_utilization == b.gpu_utilization
        &&& a.active_service_count == b.active_service_count
        &&& a.kv_cache_hit_rate == b.kv_cache_hit_rate
        &&& a.kv_cache_hit_rate_age_secs == b.kv_cache_hit_rate_age_secs
        &&& a.tokens_per_joule == b.tokens_per_joule
        &&& a.tokens_per_joule_age_secs == b.tokens_per_joule_age_secs
    } by {
        assert(all[i] == known[i]);
        assert(fleet_model::candidate_matches(r.candidates@[i], known[i], *now));
        assert(fleet_model::candidate_matches(rm.candidates@[i], all[i], *now));
    }
    if node.status is Some {
        let last = rm.candidates@.len() - 1;
        assert(all[last] == node);
        assert(fleet_model::candidate_matches(rm.candidates@[last], all[last], *now));
    }
    fleet_controller::noticed_grows(states@, node);
}

/// No nodes, no candidates, and none to be taken away.
pub proof fn nothing_is_observed_of_nothing(
    states: &[NodeState],
    now: &Moment,
    r: NodeObservation,
    name: Seq<char>,
)
    requires
        states@.len() == 0,
        call_ensures(fleet_controller::observe_nodes, (states, now), r),
    ensures
        r.candidates@.len() == 0,
        !r.preempted@.contains(name),
{
    reveal(Seq::filter);
}

/// What is recorded of a decision is what the planner saw of the node: the strategy and the node's
/// warmth by name, its load as it was, and its efficiency signals as far as they count. Of a node
/// that is not a candidate nothing is recorded; of several with one name the first.
pub proof fn decisions_are_recorded_as_seen(
    candidates: &[NodeCandidate],
    node: &str,
    strategy: &PlacementStrategy,
    horizon_secs: Option<i64>,
    r: Option<PlacementDecisionInputs>,
    k: int,
)
    requires
        call_ensures(
            fleet_controller::decision_inputs,
            (candidates, node, strategy, horizon_secs),
            r,
        ),
    ensures
        r is None <==> forall|j: int|
            0 <= j < candidates@.len() ==> (#[trigger] candidates@[j]).name@ != node@,
        0 <= k < candidates@.len() && candidates@[k].name@ == node@ && (forall|j: int|
            0 <= j < k ==> (#[trigger] candidates@[j]).name@ != node@) ==> {
            let c = candidates@[k];
            &&& r is Some
            &&& r->0.strategy@ == (match *strategy {
                PlacementStrategy::WarmthFirst => "WarmthFirst"@,
                PlacementStrategy::Spread => "Spread"@,
                PlacementStrategy::BinPack => "BinPack"@,
                PlacementStrategy::EfficiencyAware => "EfficiencyAware"@,
            })
            &&& r->0.warmth is Some
            &&& r->0.warmth->0@ == (match c.warmth {
                Warmth::Cold => "Cold"@,
                Warmth::Warming => "Warming"@,
                Warmth::Warm => "Warm"@,
            })
            &&& r->0.gpu_utilization == c.gpu_utilization
            &&& r->0.active_service_count == c.active_service_count
            &&& r->0.kv_cache_hit_rate == (if choice_laws::counts(
                c.kv_cache_hit_rate_age_secs,
                horizon_secs,
            ) {
                c.kv_cache_hit_rate
            } else {
                None
            })
            &&& r->0.tokens_per_joule == (if choice_laws::counts(
                c.tokens_per_joule_age_secs,
                horizon_secs,
            ) {
                c.tokens_per_joule
            } else {
                None
            })
        },
{
    let s = candidates@;
    if exists|j: int| 0 <= j < s.len() && (#[trigger] s[j]).name@ == node@ {
        let j = choose|j: int| 0 <= j < s.len() && (#[trigger] s[j]).name@ == node@;
        fleet_planning::first_named_exists(s, node@, j);
        let f = fleet_planning::first_named(s, node@);
        assert(r is Some);
        if 0 <= k < s.len() && s[k].name@ == node@ && (forall|j: int|
            0 <= j < k ==> (#[trigger] s[j]).name@ != node@) {
            assert(f < k ==> s[f].name@ != node@);
            assert(k < f ==> s[k].name@ != node@);
            assert(k == f);
            assert(fleet_types::decided_view(r) == Some(r->0@));
            assert(objects::text_view(r->0.warmth) is Some);
        }
    } else {
        assert forall|i: int| !fleet_planning::is_first_named(s, node@, i) by {}
    }
}

/// A slot is pinned to the node of the last service that fills it and has a node; the pins are those
/// and no others.
pub proof fn pins_are_read_off_the_services(
    children: &[VllmService],
    r: BTreeMap<usize, String>,
    slot: usize,
)
    requires
        call_ensures(fleet_controller::current_placements, (children,), r),
    ensures
        r@.contains_key(slot) <==> fleet_laws::last_pin(children@, slot as int) is Some,
        r@.contains_key(slot) ==> r@[slot]@ == fleet_laws::last_pin(children@, slot as int)->0,
{
    slots::pins_in_are_the_map(r@);
    fleet_laws::services_are_the_source_of_pins(children@, slot as int);
    assert(slots::node_of(slots::pins_in(r@), slot as int) == slots::node_in(r@, slot));
}

/// One more service in the list pins the slot that its name names to its node, if it has both, and
/// changes no other pin.
pub proof fn services_pin_their_slot(
    children: Seq<VllmService>,
    child: VllmService,
    slot: int,
)
    ensures
        fleet_laws::last_pin(Seq::empty(), slot) is None,
        fleet_laws::last_pin(children.push(child), slot) == (if slots::slot_of(
            child.metadata.any_name(),
        ) == Some(slot) && child.spec.node_name is Some {
            Some(child.spec.node_name->0@)
        } else {
            fleet_laws::last_pin(children, slot)
        }),
{
    let all = children.push(child);
    assert(all.drop_last() =~= children);
    assert(all.last() == child);
}

/// A service is ready if the last one of its name says so in its status; one that is not there, or
/// has no status, is not.
pub proof fn the_last_service_of_a_name_says_whether_it_is_ready(
    children: &[VllmService],
    name: &str,
    r: bool,
    more: &[VllmService],
    child: VllmService,
    rm: bool,
)
    requires
        call_ensures(fleet_controller::is_child_ready, (children, name), r),
        more@ == children@.push(child),
        call_ensures(fleet_controller::is_child_ready, (more, name), rm),
    ensures
        children@.len() == 0 ==> !r,
        child.metadata.any_name() != name@ ==> rm == r,
        child.metadata.any_name() == name@ ==> rm == (child.status is Some
            && child.status->0.phase@ == "Ready"@),
{
    assert(more@.drop_last() =~= children@);
    assert(more@.last() == child);
}

/// One more pinned slot is one more service on its node, and changes the count of no other node.
pub proof fn own_services_are_counted_by_node(
    current: &BTreeMap<usize, String>,
    more: &BTreeMap<usize, String>,
    slot: usize,
    node: String,
    r: NameMap<i32>,
    rm: NameMap<i32>,
    asked: Seq<char>,
)
    requires
        !current@.contains_key(slot),
        more@ == current@.insert(slot, node),
        slots::pins_in(more@).len() <= i32::MAX,
        call_ensures(fleet_controller::own_placements_per_node, (current,), r),
        call_ensures(fleet_controller::own_placements_per_node, (more,), rm),
    ensures
        asked != node@ ==> rm@.contains_key(asked) == r@.contains_key(asked),
        asked != node@ && r@.contains_key(asked) ==> rm@[asked] == r@[asked],
        rm@.contains_key(node@),
        r@.contains_key(node@) ==> rm@[node@] == r@[node@] + 1,
        !r@.contains_key(node@) ==> rm@[node@] == 1,
{
    let pins = slots::pins_in(current@);
    slots::inserting_pins_the_slot(current@, slot, node);
    slots::pins_in_are_the_map(current@);
    assert(slots::node_of(pins, slot as int) == slots::node_in(current@, slot));
    counted_once_more(pins, slot as int, node@, asked);
    counted_once_more(pins, slot as int, node@, node@);
    let all = slots::pins_in(more@);
    all.lemma_filter_len(fleet_model::pinned_to(asked));
    all.lemma_filter_len(fleet_model::pinned_to(node@));
}

/// A new pin counts on its node only.
pub proof fn counted_once_more(pins: Seq<Pin>, slot: int, node: Seq<char>, asked: Seq<char>)
    requires
        slots::ascending(pins),
        slots::node_of(pins, slot) is None,
    ensures
        fleet_model::own_count(slots::pinned(pins, slot, node), asked) == fleet_model::own_count(
            pins,
            asked,
        ) + (if asked == node {
            1nat
        } else {
            0
        }),
    decreases pins.len(),
{
    let test = fleet_model::pinned_to(asked);
    if pins.len() == 0 || pins.last().0 < slot {
        pins.lemma_filter_push((slot, node), test);
    } else {
        slots::node_of_is_the_pin(pins, slot);
        assert(pins[pins.len() - 1].0 != slot);
        let front = pins.drop_last();
        assert(slots::ascending(front));
        counted_once_more(front, slot, node, asked);
        let inner = slots::pinned(front, slot, node);
        inner.lemma_filter_push(pins.last(), test);
        front.lemma_filter_push(pins.last(), test);
        assert(front.push(pins.last()) =~= pins);
    }
}

/// Nothing pinned, nothing counted.
pub proof fn without_pins_nothing_is_counted(
    current: &BTreeMap<usize, String>,
    r: NameMap<i32>,
    asked: Seq<char>,
)
    requires
        current@ == Map::<usize, String>::empty(),
        call_ensures(fleet_controller::own_placements_per_node, (current,), r),
    ensures
        !r@.contains_key(asked),
{
    reveal(Seq::filter);
    slots::empty_map_has_no_pins(usize::MAX + 1);
}

/// The fleet's own services are added to the load of the nodes that they are pinned to: such a node
/// has as many more, an unmeasured load counting as none; and all else stays as it was reported.
pub proof fn own_services_are_added_to_the_load(
    candidates: &[NodeCandidate],
    current: &BTreeMap<usize, String>,
    r: Vec<NodeCandidate>,
    counts: NameMap<i32>,
    i: int,
)
    requires
        call_ensures(fleet_controller::with_own_load, (candidates, current), r),
        call_ensures(fleet_controller::own_placements_per_node, (current,), counts),
        slots::pins_in(current@).len() <= i32::MAX,
        0 <= i < candidates@.len(),
        counts@.contains_key(candidates@[i].name@) ==> fleet_planning::service_count(candidates@[i])
            + counts@[candidates@[i].name@] <= i32::MAX,
    ensures
        r@.len() == candidates@.len(),
        ({
            let (a, b) = (candidates@[i], r@[i]);
            &&& b.name == a.name
            &&& b.warmth == a.warmth
            &&& b.gpu_utilization == a.gpu_utilization
            &&& b.kv_cache_hit_rate == a.kv_cache_hit_rate
            &&& b.kv_cache_hit_rate_age_secs == a.kv_cache_hit_rate_age_secs
            &&& b.tokens_per_joule == a.tokens_per_joule
            &&& b.tokens_per_joule_age_secs == a.tokens_per_joule_age_secs
            &&& !counts@.contains_key(a.name@) ==> b.active_service_count
                == a.active_service_count
            &&& counts@.contains_key(a.name@) ==> b.active_service_count is Some
                && b.active_service_count->0 == counts@[a.name@] + (if a.active_service_count
                is Some {
                a.active_service_count->0 as int
            } else {
                0
            })
        }),
{
    let pins = slots::pins_in(current@);
    pins.lemma_filter_len(fleet_model::pinned_to(candidates@[i].name@));
    assert(r@[i] == fleet_model::with_own_load(candidates@[i], pins));
}

/// The nodes that services may be put on are the candidates that are not about to be taken away, in
/// order.
pub proof fn nodes_about_to_go_are_left_out(
    candidates: &[NodeCandidate],
    preempted: &NameSet,
    r: Vec<NodeCandidate>,
)
    requires
        call_ensures(fleet_controller::healthy_candidates, (candidates, preempted), r),
    ensures
        r@ == candidates@.filter(|c: NodeCandidate| !preempted@.contains(c.name@)),
        forall|i: int|
            0 <= i < candidates@.len() && !preempted@.contains((#[trigger] candidates@[i]).name@)
                ==> r@.contains(candidates@[i]),
        forall|i: int|
            0 <= i < r@.len() ==> !preempted@.contains((#[trigger] r@[i]).name@)
                && candidates@.contains(r@[i]),
{
    let test = |c: NodeCandidate| !preempted@.contains(c.name@);
    let keep = fleet_model::stays(preempted@);
    assert(test =~= keep);
    assert forall|i: int|
        0 <= i < candidates@.len() && !preempted@.contains(
            (#[trigger] candidates@[i]).name@,
        ) implies r@.contains(candidates@[i]) by {
        assert(keep(candidates@[i]));
        candidates@.lemma_filter_contains(keep, i);
    }
    assert forall|i: int| 0 <= i < r@.len() implies !preempted@.contains((#[trigger] r@[i]).name@)
        && candidates@.contains(r@[i]) by {
        assert(keep(r@[i]));
        assert(r@.contains(r@[i]));
        candidates@.lemma_filter_contains_rev(keep, r@[i]);
    }
}

/// A placement is under way if it drains or is rescheduled on a node that stays: one more such record
/// is one more, and any other record is none.
pub proof fn moves_under_way_are_counted(
    placements: &[PlacementStatus],
    preempted: &NameSet,
    r: usize,
    more: &[PlacementStatus],
    p: PlacementStatus,
    rm: usize,
)
    requires
        call_ensures(fleet_controller::moves_in_flight, (placements, preempted), r),
        more@ == placements@.push(p),
        call_ensures(fleet_controller::moves_in_flight, (more, preempted), rm),
    ensures
        placements@.len() == 0 ==> r == 0,
        rm == r + (if (p.phase@ == "Draining"@ || p.phase@ == "Rescheduling"@)
            && !preempted@.contains(p.node_ref@) {
            1int
        } else {
            0
        }),
{
    let test = fleet_model::on_the_move(preempted@);
    let a = fleet_types::placements_view(placements@);
    assert(fleet_types::placements_view(more@) =~= a.push(p@));
    a.lemma_filter_push(p@, test);
    if placements@.len() == 0 {
        reveal(Seq::filter);
    }
}

/// The service of a slot: under the slot's name, in the fleet's namespace, labelled and owned by the
/// fleet, pinned to the node, one replica with a fast cold start, and in all else as the fleet and its
/// template say.
pub open spec fn is_the_fleets_service(
    v: VllmService,
    fleet: FleetService,
    slot: int,
    node: Seq<char>,
) -> bool {
    let m = v.metadata;
    let t = fleet.spec.template;
    let name = fleet.metadata.any_name();
    &&& m.name is Some && m.name->0@ == name + seq!['-'] + text::decimal(slot as nat)
    &&& m.generate_name is None
    &&& m.uid is None
    &&& m.namespace == fleet.metadata.namespace
    &&& m.labels@.len() == 2
    &&& m.labels@[0].0@ == "app.kubernetes.io/managed-by"@
    &&& m.labels@[0].1@ == "fleet-controller"@
    &&& m.labels@[1].0@ == "inference.michelecampi.dev/fleet"@
    &&& m.labels@[1].1@ == name
    &&& m.owner_references@.len() == 1
    &&& m.owner_references@[0].kind@ == "FleetService"@
    &&& m.owner_references@[0].api_version@ == "inference.michelecampi.dev/v1alpha1"@
    &&& m.owner_references@[0].name@ == fleet.metadata.name->0@
    &&& m.owner_references@[0].uid@ == fleet.metadata.uid->0@
    &&& m.owner_references@[0].controller
    &&& v.spec.node_name is Some && v.spec.node_name->0@ == node
    &&& v.spec.replicas == 1
    &&& v.spec.warmup_strategy == WarmupStrategy::Eager
    &&& v.spec.model@ == fleet.spec.model@
    &&& v.spec.image@ == t.image@
    &&& v.spec.gpu == t.gpu
    &&& v.spec.health_path@ == t.health_path@
    &&& v.spec.runtime_class_name == t.runtime_class_name
    &&& v.spec.extra_args@ == t.extra_args@
    &&& v.spec.model_cache_host_path == t.model_cache_host_path
    &&& v.status is None
}

/// What the contract of a built service says, field by field.
pub proof fn owned_services_are_seen(
    v: VllmService,
    fleet: FleetService,
    slot: int,
    node: Seq<char>,
)
    requires
        0 <= slot,
        fleet_controller::is_owned_service(v, fleet, slot as nat, node),
    ensures
        is_the_fleets_service(v, fleet, slot, node),
{
    let l = objects::labels_view(v.metadata.labels@);
    assert(l.len() == v.metadata.labels@.len());
    assert(l[0] == (v.metadata.labels@[0].0@, v.metadata.labels@[0].1@));
    assert(l[1] == (v.metadata.labels@[1].0@, v.metadata.labels@[1].1@));
    let o = objects::owners_view(v.metadata.owner_references@);
    assert(o.len() == v.metadata.owner_references@.len());
    assert(o[0] == v.metadata.owner_references@[0]@);
}

/// `build_owned_vllm_service` builds that service, and refuses exactly a fleet without a namespace.
pub proof fn services_are_built_from_the_template(
    fleet: &FleetService,
    slot: usize,
    node: &str,
    r: Result<VllmService, FleetError>,
)
    requires
        call_ensures(fleet_controller::build_owned_vllm_service, (fleet, slot, node), r),
    ensures
        fleet.metadata.namespace is None ==> r == Err::<VllmService, FleetError>(
            FleetError::MissingNamespace,
        ),
        fleet.metadata.namespace is Some ==> r is Ok && is_the_fleets_service(
            r->Ok_0,
            *fleet,
            slot as int,
            node@,
        ),
{
    if r is Ok {
        owned_services_are_seen(r->Ok_0, *fleet, slot as int, node@);
    }
}

/// The services that a fleet looks for are those that it labels: the selector is the label's key and
/// the fleet's name. A fleet works in its namespace, and is woken by the nodes in it.
pub proof fn fleets_find_their_own(
    name: &str,
    selector: String,
    fleet: &FleetService,
    namespace: Result<String, FleetError>,
    a: &ObjectMeta,
    b: &ObjectMeta,
    woken: bool,
    e: &FleetError,
    label: &'static str,
)
    requires
        call_ensures(fleet_controller::child_selector, (name,), selector),
        call_ensures(fleet_controller::fleet_namespace, (fleet,), namespace),
        call_ensures(fleet_controller::wakes, (a, b), woken),
        call_ensures(FleetError::metric_label, (e,), label),
    ensures
        selector@ == "inference.michelecampi.dev/fleet"@ + "="@ + name@,
        fleet.metadata.namespace is Some ==> namespace is Ok && namespace->Ok_0@
            == fleet.metadata.namespace->0@,
        fleet.metadata.namespace is None ==> namespace == Err::<String, FleetError>(
            FleetError::MissingNamespace,
        ),
        woken <==> (a.namespace is None && b.namespace is None) || (a.namespace is Some
            && b.namespace is Some && a.namespace->0@ == b.namespace->0@),
        *e == FleetError::Kube ==> label@ == "kube"@,
        *e == FleetError::MissingNamespace ==> label@ == "missing_namespace"@,
{
}

/// A placement's next phase: draining while there is a notice; rescheduled after draining or
/// preemption; ready with its service; warming where it was ready before; else pending.
pub proof fn placements_go_through_their_phases(
    current: &str,
    node_ready: bool,
    notice: bool,
    r: &'static str,
)
    requires
        call_ensures(fleet_types::placement_phase_for, (current, node_ready, notice), r),
    ensures
        notice ==> r@ == "Draining"@,
        !notice && (current@ == "Draining"@ || current@ == "Preempted"@) ==> r@
            == "Rescheduling"@,
        !notice && current@ != "Draining"@ && current@ != "Preempted"@ && node_ready ==> r@
            == "Ready"@,
        !notice && current@ == "Ready"@ && !node_ready ==> r@ == "Warming"@,
        !notice && current@ != "Draining"@ && current@ != "Preempted"@ && current@ != "Ready"@
            && !node_ready ==> r@ == "Pending"@,
{
    fleet_laws::phases_are_distinct();
    reveal_strlit("Preempted");
    reveal_strlit("Ready");
    assert("Preempted"@.len() == 9 && "Ready"@.len() == 5);
}

/// A fleet's phase: degraded while a placement is held, else ready with as many ready as asked for,
/// else placing.
pub proof fn fleets_are_degraded_ready_or_placing(
    desired: i32,
    ready: i32,
    held: bool,
    r: &'static str,
)
    requires
        call_ensures(fleet_types::fleet_phase_for, (desired, ready, held), r),
    ensures
        held ==> r@ == "Degraded"@,
        !held && ready >= desired ==> r@ == "Ready"@,
        !held && ready < desired ==> r@ == "Placing"@,
{
}

/// A surplus placement counts one reconcile more, up to the largest count, and is to be removed once
/// the count reaches what is required; one that is asked for counts none and stays.
pub proof fn surplus_is_counted_and_reset(
    previous: i32,
    surplus: bool,
    required: i32,
    r: (i32, bool),
)
    requires
        call_ensures(fleet_types::surplus_hysteresis, (previous, surplus, required), r),
    ensures
        !surplus ==> r.0 == 0 && !r.1,
        surplus && previous < i32::MAX ==> r.0 == previous + 1,
        surplus && previous == i32::MAX ==> r.0 == i32::MAX,
        surplus ==> r.1 == (r.0 >= required),
{
}

/// The name of a slot's service is the fleet's name, a dash and the slot's number, and leads back to
/// the slot.
pub proof fn slot_names_lead_back(fleet: &str, slot: usize, r: String, s: &str, back: Option<usize>)
    requires
        call_ensures(slots::child_name_of, (fleet, slot), r),
        s@ == r@,
        call_ensures(slots::slot_index_of, (s,), back),
    ensures
        back == Some(slot),
        r@ == fleet@ + seq!['-'] + text::decimal(slot as nat),
{
    slots::child_name_leads_back(fleet@, slot);
}

/// A name names the slot that the numeral behind its last dash stands for; without a dash, or with
/// anything but a numeral behind it, it names none.
pub proof fn names_name_slots_by_their_last_part(
    s: &str,
    r: Option<usize>,
    front: Seq<char>,
    tail: &str,
    n: Option<usize>,
)
    requires
        call_ensures(slots::slot_index_of, (s,), r),
        call_ensures(text::parse_usize, (tail,), n),
        !tail@.contains('-'),
    ensures
        s@ == front + seq!['-'] + tail@ ==> r == n,
        s@ == tail@ ==> r is None,
{
    if s@ == front + seq!['-'] + tail@ {
        let k = front.len() as int;
        assert(s@[k] == '-');
        assert forall|j: int| k < j < s@.len() implies #[trigger] s@[j] != '-' by {
            assert(s@[j] == tail@[j - k - 1]);
            assert(tail@.contains(tail@[j - k - 1]));
        }
        assert(slots::is_last_dash(s@, k));
        let d = choose|d: int| slots::is_last_dash(s@, d);
        assert(d < k ==> s@[k] != '-');
        assert(d > k ==> s@[d] != '-');
        assert(s@.skip(k + 1) =~= tail@);
    }
    if s@ == tail@ {
        assert forall|d: int| !slots::is_last_dash(s@, d) by {
            if 0 <= d < s@.len() {
                assert(tail@.contains(s@[d]));
            }
        }
    }
}

/// The entries of a map of pins: each pinned slot once, in ascending order, with its node.
pub proof fn pins_are_walked_in_order(
    nodes: &BTreeMap<usize, String>,
    r: Vec<(usize, &String)>,
    slot: usize,
)
    requires
        call_ensures(slots::entries_of, (nodes,), r),
    ensures
        forall|i: int, j: int|
            0 <= i < j < r@.len() ==> (#[trigger] r@[i]).0 < (#[trigger] r@[j]).0,
        forall|i: int|
            0 <= i < r@.len() ==> nodes@.contains_key((#[trigger] r@[i]).0) && nodes@[r@[i].0]@
                == r@[i].1@,
        nodes@.contains_key(slot) ==> exists|i: int|
            0 <= i < r@.len() && (#[trigger] r@[i]).0 == slot,
{
    let pins = slots::pins_in(nodes@);
    slots::pins_in_are_the_map(nodes@);
    assert(slots::entries_view(r@).len() == r@.len());
    assert forall|i: int| 0 <= i < r@.len() implies nodes@.contains_key((#[trigger] r@[i]).0)
        && nodes@[r@[i].0]@ == r@[i].1@ by {
        assert(pins[i] == (r@[i].0 as int, r@[i].1@));
        slots::node_of_is_the_pin(pins, r@[i].0 as int);
        assert(slots::node_of(pins, r@[i].0 as int) == slots::node_in(nodes@, r@[i].0));
    }
    assert forall|i: int, j: int| 0 <= i < j < r@.len() implies (#[trigger] r@[i]).0 < (
    #[trigger] r@[j]).0 by {
        assert(pins[i].0 < pins[j].0);
    }
    if nodes@.contains_key(slot) {
        slots::node_of_is_the_pin(pins, slot as int);
        assert(slots::node_of(pins, slot as int) == slots::node_in(nodes@, slot));
        let i = choose|i: int|
            0 <= i < pins.len() && #[trigger] pins[i] == (
                slot as int,
                slots::node_of(pins, slot as int)->0,
            );
        assert(r@[i].0 == slot);
    }
}

/// Records of what nodes were chosen on that say the same agree in all that they hold.
pub proof fn decisions_that_say_the_same_agree(
    a: Option<PlacementDecisionInputs>,
    b: Option<PlacementDecisionInputs>,
)
    requires
        fleet_types::decided_view(a) == fleet_types::decided_view(b),
    ensures
        a is Some <==> b is Some,
        a is Some ==> {
            let x = a->0;
            let y = b->0;
            &&& x.strategy@ == y.strategy@
            &&& x.warmth is Some <==> y.warmth is Some
            &&& x.warmth is Some ==> x.warmth->0@ == y.warmth->0@
            &&& x.tokens_per_joule == y.tokens_per_joule
            &&& x.kv_cache_hit_rate == y.kv_cache_hit_rate
            &&& x.gpu_utilization == y.gpu_utilization
            &&& x.active_service_count == y.active_service_count
        },
{
    if a is Some {
        assert(a->0@ == b->0@);
        assert(objects::text_view(a->0.warmth) == objects::text_view(b->0.warmth));
    }
}

/// Lists of texts and of labels that say the same agree text by text.
pub proof fn lists_that_say_the_same_agree(
    a: Seq<String>,
    b: Seq<String>,
    k: Seq<(String, String)>,
    l: Seq<(String, String)>,
    i: int,
)
    requires
        objects::texts_view(a) == objects::texts_view(b),
        objects::labels_view(k) == objects::labels_view(l),
    ensures
        a.len() == b.len(),
        0 <= i < a.len() ==> a[i]@ == b[i]@,
        k.len() == l.len(),
        0 <= i < k.len() ==> k[i].0@ == l[i].0@ && k[i].1@ == l[i].1@,
{
    assert(objects::texts_view(a).len() == a.len() && objects::texts_view(b).len() == b.len());
    assert(objects::labels_view(k).len() == k.len() && objects::labels_view(l).len() == l.len());
    if 0 <= i < a.len() {
        assert(objects::texts_view(a)[i] == objects::texts_view(b)[i]);
    }
    if 0 <= i < k.len() {
        assert(objects::labels_view(k)[i] == objects::labels_view(l)[i]);
    }
}

} // verus!
