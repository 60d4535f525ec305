//! What a reconcile of a fleet does, in terms of the fleet, the nodes and the services that it is
//! given and of the plan that it returns.
use crate::controller_laws;
use crate::fleet_controller;
use crate::fleet_controller::{FleetError, FleetPlan, NodeObservation};
use crate::fleet_laws;
use crate::fleet_model;
use crate::fleet_model::Situation;
use crate::fleet_placement;
use crate::fleet_placement::NodeCandidate;
use crate::fleet_planning;
use crate::fleet_types;
use crate::fleet_types::{FleetService, PlacementStatus};
use crate::objects;
use crate::slots;
use crate::VllmService;
use std::collections::BTreeMap;
use vstd::prelude::*;

verus! {

/// When there is a plan: a fleet without a namespace is refused; while no node was reported on
/// nothing is done; and else there is one.
pub proof fn fleets_with_a_namespace_and_nodes_are_planned(
    fleet: &FleetService,
    nodes: &NodeObservation,
    children: &[VllmService],
    r: Result<Option<FleetPlan>, FleetError>,
)
    requires
        call_ensures(fleet_controller::plan_fleet, (fleet, nodes, children), r),
    ensures
        fleet.metadata.namespace is None <==> r is Err,
        r is Err ==> r->Err_0 == FleetError::MissingNamespace,
        fleet.metadata.namespace is Some && nodes.candidates@.len() == 0 ==> r is Ok && r->Ok_0
            is None,
        fleet.metadata.namespace is Some && nodes.candidates@.len() > 0 ==> r is Ok && r->Ok_0
            is Some,
{
}

/// Whether a plan is the one that is made for a fleet.
pub open spec fn planned(
    fleet: &FleetService,
    nodes: &NodeObservation,
    children: &[VllmService],
    p: FleetPlan,
) -> bool {
    call_ensures(
        fleet_controller::plan_fleet,
        (fleet, nodes, children),
        Ok::<Option<FleetPlan>, FleetError>(Some(p)),
    )
}

/// The number of slots that a fleet asks for.
pub open spec fn asked(fleet: &FleetService) -> int {
    if fleet.spec.replicas < 0 {
        0
    } else {
        fleet.spec.replicas as int
    }
}

/// Whether a plan puts the service of a slot on a node.
pub open spec fn puts(p: FleetPlan, fleet: &FleetService, slot: int, node: Seq<char>) -> bool {
    exists|i: int|
        0 <= i < p.apply@.len() && controller_laws::is_the_fleets_service(
            #[trigger] p.apply@[i],
            *fleet,
            slot,
            node,
        )
}

proof fn situation_of(
    fleet: &FleetService,
    nodes: &NodeObservation,
    children: &[VllmService],
    p: FleetPlan,
) -> (s: Situation)
    requires
        planned(fleet, nodes, children, p),
    ensures
        s == fleet_controller::situation(*fleet, *nodes, children@),
        fleet_controller::plan_matches(p, s),
        s.desired() == asked(fleet),
        forall|slot: int| #[trigger]
            slots::node_of(s.pins(), slot) == fleet_laws::last_pin(children@, slot),
{
    let s = fleet_controller::situation(*fleet, *nodes, children@);
    assert forall|slot: int| #[trigger]
        slots::node_of(s.pins(), slot) == fleet_laws::last_pin(children@, slot) by {
        fleet_laws::services_are_the_source_of_pins(children@, slot);
    }
    s
}

proof fn slot_is_put(p: FleetPlan, s: Situation, fleet: &FleetService, slot: int)
    requires
        fleet_controller::plan_matches(p, s),
        s.fleet == *fleet,
        0 <= slot < s.desired(),
        s.node_for(slot) is Some,
    ensures
        puts(p, fleet, slot, s.node_for(slot)->0),
{
    let i = fleet_laws::filled_contains(s, s.desired(), slot);
    assert(fleet_controller::is_owned_service(
        p.apply@[i],
        s.fleet,
        s.filled()[i].0 as nat,
        s.filled()[i].1,
    ));
    controller_laws::owned_services_are_seen(p.apply@[i], *fleet, slot, s.node_for(slot)->0);
}

/// The services to apply are services of the fleet, for slots that are asked for, in ascending order
/// and each slot once.
pub proof fn services_are_applied_in_order_of_slots(
    fleet: &FleetService,
    nodes: &NodeObservation,
    children: &[VllmService],
    p: FleetPlan,
    i: int,
    j: int,
)
    requires
        planned(fleet, nodes, children, p),
        0 <= i < j <= p.apply@.len(),
    ensures
        ({
            let v = p.apply@[i];
            let slot = slots::slot_of(v.metadata.any_name());
            &&& slot is Some
            &&& 0 <= slot->0 < asked(fleet)
            &&& v.spec.node_name is Some
            &&& controller_laws::is_the_fleets_service(
                v,
                *fleet,
                slot->0,
                v.spec.node_name->0@,
            )
            &&& j < p.apply@.len() ==> slots::slot_of(p.apply@[j].metadata.any_name()) is Some
                && slot->0 < slots::slot_of(p.apply@[j].metadata.any_name())->0
        }),
{
    let s = situation_of(fleet, nodes, children, p);
    fleet_laws::filled_is_in_order(s, s.desired());
    assert forall|k: int| 0 <= k < p.apply@.len() implies controller_laws::is_the_fleets_service(
        #[trigger] p.apply@[k],
        *fleet,
        s.filled()[k].0,
        s.filled()[k].1,
    ) && slots::slot_of(p.apply@[k].metadata.any_name()) == Some(s.filled()[k].0) by {
        let pin = s.filled()[k];
        assert(fleet_controller::is_owned_service(
            p.apply@[k],
            s.fleet,
            s.filled()[k].0 as nat,
            s.filled()[k].1,
        ));
        controller_laws::owned_services_are_seen(p.apply@[k], *fleet, pin.0, pin.1);
        slots::child_name_leads_back(s.name(), pin.0 as usize);
    }
    let v = p.apply@[i];
    if j < p.apply@.len() {
        let w = p.apply@[j];
        assert(s.filled()[i].0 < s.filled()[j].0);
    }
}

/// A slot that is pinned to a node that stays keeps it, whatever else is reported.
pub proof fn a_pinned_service_stays_where_it_is(
    fleet: &FleetService,
    nodes: &NodeObservation,
    children: &[VllmService],
    p: FleetPlan,
    slot: int,
)
    requires
        planned(fleet, nodes, children, p),
        0 <= slot < asked(fleet),
        fleet_laws::last_pin(children@, slot) is Some,
        !nodes.preempted@.contains(fleet_laws::last_pin(children@, slot)->0),
    ensures
        puts(p, fleet, slot, fleet_laws::last_pin(children@, slot)->0),
{
    let s = situation_of(fleet, nodes, children, p);
    assert(slots::node_of(s.pins(), slot) == fleet_laws::last_pin(children@, slot));
    fleet_laws::stable_pins_stay(s, slot);
    slot_is_put(p, s, fleet, slot);
}

/// A slot that is asked for gets a service, unless it is not pinned and every reported node is about
/// to be taken away.
pub proof fn every_slot_asked_for_gets_a_service(
    fleet: &FleetService,
    nodes: &NodeObservation,
    children: &[VllmService],
    p: FleetPlan,
    slot: int,
    k: int,
)
    requires
        planned(fleet, nodes, children, p),
        0 <= slot < asked(fleet),
        fleet_laws::last_pin(children@, slot) is Some || (0 <= k < nodes.candidates@.len()
            && !nodes.preempted@.contains(nodes.candidates@[k].name@)),
    ensures
        exists|node: Seq<char>| puts(p, fleet, slot, node),
{
    let s = situation_of(fleet, nodes, children, p);
    assert(slots::node_of(s.pins(), slot) == fleet_laws::last_pin(children@, slot));
    if slots::node_of(s.pins(), slot) is Some {
        let m = fleet_laws::pin_position(s, slot);
    } else {
        let test = fleet_model::stays(s.preempted);
        assert(s.loaded()[k].name@ == s.candidates[k].name@);
        assert(test(s.loaded()[k]));
        s.loaded().lemma_filter_contains(test, k);
        assert(s.healthy().len() > 0);
        fleet_laws::every_slot_is_filled(s, slot);
    }
    slot_is_put(p, s, fleet, slot);
}

/// The nodes that the planner may choose from are the reported ones with the fleet's own services
/// added to their load, without those about to be taken away.
pub open spec fn planner_sees(
    nodes: &NodeObservation,
    children: &[VllmService],
    reported: &[NodeCandidate],
    current: BTreeMap<usize, String>,
    loaded: Vec<NodeCandidate>,
    all: &[NodeCandidate],
    healthy: Vec<NodeCandidate>,
) -> bool {
    &&& reported@ == nodes.candidates@
    &&& call_ensures(fleet_controller::current_placements, (children,), current)
    &&& call_ensures(fleet_controller::with_own_load, (reported, &current), loaded)
    &&& all@ == loaded@
    &&& call_ensures(fleet_controller::healthy_candidates, (all, &nodes.preempted), healthy)
}

/// A slot whose node is about to be taken away is held there, or goes to the node that replaces it:
/// the one that `select_replacement_node` selects for it, by the fleet's strategy and horizon, from
/// the nodes that the planner may choose from. Where none is selected, it is held.
pub proof fn a_preempted_service_moves_to_its_replacement_or_is_held(
    fleet: &FleetService,
    nodes: &NodeObservation,
    children: &[VllmService],
    p: FleetPlan,
    slot: int,
    reported: &[NodeCandidate],
    current: BTreeMap<usize, String>,
    loaded: Vec<NodeCandidate>,
    all: &[NodeCandidate],
    healthy: Vec<NodeCandidate>,
    choices: &[NodeCandidate],
    lost: &str,
    target: Option<String>,
)
    requires
        planned(fleet, nodes, children, p),
        0 <= slot < asked(fleet),
        planner_sees(nodes, children, reported, current, loaded, all, healthy),
        choices@ == healthy@,
        fleet_laws::last_pin(children@, slot) == Some(lost@),
        nodes.preempted@.contains(lost@),
        call_ensures(
            fleet_placement::select_replacement_node,
            (
                choices,
                lost,
                &fleet.spec.placement.strategy,
                fleet.spec.placement.signal_max_age_seconds,
            ),
            target,
        ),
    ensures
        puts(p, fleet, slot, lost@) || (target is Some && puts(p, fleet, slot, target->0@)),
{
    let s = situation_of(fleet, nodes, children, p);
    assert(slots::node_of(s.pins(), slot) == Some(lost@));
    let k = fleet_laws::pin_position(s, slot);
    assert(choices@ == s.healthy()) by {
        assert(slots::pins_in(current@) == s.pins());
        assert(loaded@ == s.loaded());
    }
    assert(objects::text_view(target) == s.replacement_for(k));
    assert(s.node_for(slot) == Some(s.settled_pin(k).1));
    slot_is_put(p, s, fleet, slot);
}

/// The slots below `slot` that no service is pinned for.
pub open spec fn unpinned_below(children: Seq<VllmService>, slot: int) -> Set<int> {
    Set::new(|t: int| 0 <= t < slot && fleet_laws::last_pin(children, t) is None)
}

proof fn unpinned_are_missing(s: Situation, slot: int)
    requires
        0 <= slot,
    ensures
        unpinned_below(s.children, slot).finite(),
        unpinned_below(s.children, slot).len() == s.missing_below(slot),
    decreases slot,
{
    let all = unpinned_below(s.children, slot);
    if slot == 0 {
        assert(all =~= Set::<int>::empty());
    } else {
        unpinned_are_missing(s, slot - 1);
        fleet_laws::services_are_the_source_of_pins(s.children, slot - 1);
        let less = unpinned_below(s.children, slot - 1);
        if fleet_laws::last_pin(s.children, slot - 1) is None {
            assert(all =~= less.insert(slot - 1));
            assert(!less.contains(slot - 1));
        } else {
            assert(all =~= less);
        }
    }
}

/// The slots that are not pinned get the nodes that `plan_initial_placements` plans for as many slots,
/// by the fleet's strategy and horizon, over the nodes that the planner may choose from: the lowest
/// such slot the first node, and so on.
pub proof fn new_services_go_where_the_batch_is_planned(
    fleet: &FleetService,
    nodes: &NodeObservation,
    children: &[VllmService],
    p: FleetPlan,
    slot: int,
    reported: &[NodeCandidate],
    current: BTreeMap<usize, String>,
    loaded: Vec<NodeCandidate>,
    all: &[NodeCandidate],
    healthy: Vec<NodeCandidate>,
    choices: &[NodeCandidate],
    missing: i32,
    batch: Vec<String>,
)
    requires
        planned(fleet, nodes, children, p),
        0 <= slot < asked(fleet),
        planner_sees(nodes, children, reported, current, loaded, all, healthy),
        choices@ == healthy@,
        fleet_laws::last_pin(children@, slot) is None,
        missing == unpinned_below(children@, asked(fleet)).len(),
        call_ensures(
            fleet_planning::plan_initial_placements,
            (
                missing,
                choices,
                &fleet.spec.placement.strategy,
                fleet.spec.placement.signal_max_age_seconds,
            ),
            batch,
        ),
    ensures
        ({
            let rank = unpinned_below(children@, slot).len();
            &&& rank < batch@.len() ==> puts(p, fleet, slot, batch@[rank as int]@)
            &&& rank >= batch@.len() ==> forall|node: Seq<char>| !puts(p, fleet, slot, node)
        }),
{
    let s = situation_of(fleet, nodes, children, p);
    assert(slots::node_of(s.pins(), slot) is None);
    unpinned_are_missing(s, slot);
    unpinned_are_missing(s, asked(fleet));
    fleet_laws::settled_adds_no_slot(s, slot);
    assert(choices@ == s.healthy()) by {
        assert(slots::pins_in(current@) == s.pins());
        assert(loaded@ == s.loaded());
    }
    let views = objects::texts_view(batch@);
    assert(views == s.fresh_nodes());
    assert(views.len() == batch@.len());
    let rank = s.missing_below(slot) as int;
    if rank < batch@.len() {
        assert(views[rank] == batch@[rank]@);
        slot_is_put(p, s, fleet, slot);
    } else {
        fleet_laws::filled_is_in_order(s, s.desired());
        assert forall|node: Seq<char>| !puts(p, fleet, slot, node) by {
            if puts(p, fleet, slot, node) {
                let i = choose|i: int|
                    0 <= i < p.apply@.len() && controller_laws::is_the_fleets_service(
                        #[trigger] p.apply@[i],
                        *fleet,
                        slot,
                        node,
                    );
                let pin = s.filled()[i];
                assert(fleet_controller::is_owned_service(
                    p.apply@[i],
                    s.fleet,
                    s.filled()[i].0 as nat,
                    s.filled()[i].1,
                ));
                slots::child_names_are_distinct(s.name(), pin.0 as usize, slot as usize);
                assert(s.node_for(pin.0) == Some(pin.1));
            }
        }
    }
}

/// Which services a plan removes: those of slots beyond the ones asked for whose surplus was counted
/// for as many reconciles, this one with them, as the fleet requires.
pub proof fn surplus_services_are_removed_when_due(
    fleet: &FleetService,
    nodes: &NodeObservation,
    children: &[VllmService],
    p: FleetPlan,
    slot: usize,
    counted: i32,
    outcome: (i32, bool),
    name: Seq<char>,
)
    requires
        planned(fleet, nodes, children, p),
        name == slots::child_name(fleet.metadata.any_name(), slot as nat),
        is_last_count(fleet, name, counted as int),
        call_ensures(
            fleet_types::surplus_hysteresis,
            (counted, true, fleet.spec.hysteresis.stable_reconciles_required),
            outcome,
        ),
    ensures
        (exists|i: int| 0 <= i < p.remove@.len() && (#[trigger] p.remove@[i])@ == name) <==> slot
            >= asked(fleet) && fleet_laws::last_pin(children@, slot as int) is Some && outcome.1,
{
    let s = situation_of(fleet, nodes, children, p);
    assert(slots::node_of(s.pins(), slot as int) == fleet_laws::last_pin(
        children@,
        slot as int,
    ));
    last_count_is_found(fleet, s, name, counted as int);
    fleet_laws::removed_services_are_named(s, slot as int);
    let views = objects::texts_view(p.remove@);
    assert(views.len() == p.remove@.len());
    if s.removals().contains(name) {
        let i = choose|i: int| 0 <= i < views.len() && views[i] == name;
        assert(p.remove@[i]@ == name);
    }
    if exists|i: int| 0 <= i < p.remove@.len() && (#[trigger] p.remove@[i])@ == name {
        let i = choose|i: int| 0 <= i < p.remove@.len() && (#[trigger] p.remove@[i])@ == name;
        assert(views[i] == name);
    }
}

/// Whether record `k` of the fleet's status is the last one of the given service.
pub open spec fn is_last_record(fleet: &FleetService, name: Seq<char>, k: int) -> bool {
    &&& fleet.status is Some
    &&& 0 <= k < fleet.status->0.placements@.len()
    &&& fleet.status->0.placements@[k].vllm_service_ref@ == name
    &&& forall|j: int|
        k < j < fleet.status->0.placements@.len() ==> (
        #[trigger] fleet.status->0.placements@[j]).vllm_service_ref@ != name
}

/// Whether the fleet's status has no record of the given service.
pub open spec fn has_no_record(fleet: &FleetService, name: Seq<char>) -> bool {
    fleet.status is Some ==> forall|j: int|
        0 <= j < fleet.status->0.placements@.len() ==> (
        #[trigger] fleet.status->0.placements@[j]).vllm_service_ref@ != name
}

/// Whether record `k` of the fleet's status is the last one of the given service that says what its
/// node was chosen on.
pub open spec fn is_last_decision(fleet: &FleetService, name: Seq<char>, k: int) -> bool {
    &&& fleet.status is Some
    &&& 0 <= k < fleet.status->0.placements@.len()
    &&& fleet.status->0.placements@[k].vllm_service_ref@ == name
    &&& fleet.status->0.placements@[k].decided_on is Some
    &&& forall|j: int|
        k < j < fleet.status->0.placements@.len() ==> (
        #[trigger] fleet.status->0.placements@[j]).vllm_service_ref@ != name
            || fleet.status->0.placements@[j].decided_on is None
}

/// Whether no record of the given service says what its node was chosen on.
pub open spec fn has_no_decision(fleet: &FleetService, name: Seq<char>) -> bool {
    fleet.status is Some ==> forall|j: int|
        0 <= j < fleet.status->0.placements@.len() ==> (
        #[trigger] fleet.status->0.placements@[j]).vllm_service_ref@ != name
            || fleet.status->0.placements@[j].decided_on is None
}

/// Whether a number is the surplus count last recorded of a service, none recorded counting as zero.
pub open spec fn is_last_count(fleet: &FleetService, name: Seq<char>, n: int) -> bool {
    ||| has_no_record(fleet, name) && n == 0
    ||| exists|k: int|
        #[trigger] is_last_record(fleet, name, k)
            && fleet.status->0.placements@[k].surplus_reconciles == n
}

/// Whether a text is the phase last recorded of a service, none recorded counting as pending.
pub open spec fn is_last_phase(fleet: &FleetService, name: Seq<char>, phase: Seq<char>) -> bool {
    ||| has_no_record(fleet, name) && phase == "Pending"@
    ||| exists|k: int|
        #[trigger] is_last_record(fleet, name, k) && fleet.status->0.placements@[k].phase@ == phase
}

proof fn last_record_is_found(fleet: &FleetService, s: Situation, name: Seq<char>)
    requires
        s.fleet == *fleet,
    ensures
        has_no_record(fleet, name) <==> fleet_model::last_record(s.previous(), name) is None,
        forall|k: int| #[trigger]
            is_last_record(fleet, name, k) ==> fleet_model::last_record(s.previous(), name) == Some(
                fleet.status->0.placements@[k]@,
            ),
{
    if fleet.status is Some {
        let records = fleet.status->0.placements@;
        last_record_among(records, name);
        assert forall|k: int| #[trigger] is_last_record(fleet, name, k) implies
            fleet_model::last_record(s.previous(), name) == Some(records[k]@) by {
            assert(records[k].vllm_service_ref@ == name);
        }
    }
}

proof fn last_record_among(records: Seq<PlacementStatus>, name: Seq<char>)
    ensures
        ({
            let found = fleet_model::last_record(fleet_types::placements_view(records), name);
            &&& found is None <==> forall|j: int|
                0 <= j < records.len() ==> (#[trigger] records[j]).vllm_service_ref@ != name
            &&& forall|k: int|
                0 <= k < records.len() && (#[trigger] records[k]).vllm_service_ref@ == name && (
                forall|j: int|
                    k < j < records.len() ==> (#[trigger] records[j]).vllm_service_ref@ != name)
                    ==> found == Some(records[k]@)
        }),
    decreases records.len(),
{
    if records.len() > 0 {
        let front = records.drop_last();
        last_record_among(front, name);
        assert(fleet_types::placements_view(records).drop_last() =~= fleet_types::placements_view(
            front,
        ));
        assert(fleet_types::placements_view(records).last() == records.last()@);
        let found = fleet_model::last_record(fleet_types::placements_view(records), name);
        let last = records.len() - 1;
        if records[last].vllm_service_ref@ == name {
            assert(found == Some(records[last]@));
            assert forall|k: int|
                0 <= k < records.len() && (#[trigger] records[k]).vllm_service_ref@ == name && (
                forall|j: int|
                    k < j < records.len() ==> (#[trigger] records[j]).vllm_service_ref@
                        != name) implies found == Some(records[k]@) by {
                assert(k < last ==> records[last].vllm_service_ref@ != name);
            }
        } else {
            assert forall|k: int|
                0 <= k < records.len() && (#[trigger] records[k]).vllm_service_ref@ == name && (
                forall|j: int|
                    k < j < records.len() ==> (#[trigger] records[j]).vllm_service_ref@
                        != name) implies found == Some(records[k]@) by {
                assert(front[k] == records[k]);
                assert forall|j: int| k < j < front.len() implies (
                #[trigger] front[j]).vllm_service_ref@ != name by {
                    assert(front[j] == records[j]);
                }
            }
            if found is None {
                assert forall|j: int| 0 <= j < records.len() implies (
                #[trigger] records[j]).vllm_service_ref@ != name by {
                    if j < last {
                        assert(front[j] == records[j]);
                    }
                }
            }
            if forall|j: int|
                0 <= j < records.len() ==> (#[trigger] records[j]).vllm_service_ref@ != name {
                assert forall|j: int| 0 <= j < front.len() implies (
                #[trigger] front[j]).vllm_service_ref@ != name by {
                    assert(front[j] == records[j]);
                }
            }
        }
    }
}

proof fn last_count_is_found(fleet: &FleetService, s: Situation, name: Seq<char>, n: int)
    requires
        s.fleet == *fleet,
        is_last_count(fleet, name, n),
    ensures
        s.previous_surplus(name) == n,
{
    last_record_is_found(fleet, s, name);
    if !has_no_record(fleet, name) {
        let k = choose|k: int|
            #[trigger] is_last_record(fleet, name, k)
                && fleet.status->0.placements@[k].surplus_reconciles == n;
        assert(is_last_record(fleet, name, k));
    } else if n != 0 {
        let k = choose|k: int|
            #[trigger] is_last_record(fleet, name, k)
                && fleet.status->0.placements@[k].surplus_reconciles == n;
        assert(fleet.status->0.placements@[k].vllm_service_ref@ == name);
    }
}

proof fn last_phase_is_found(fleet: &FleetService, s: Situation, name: Seq<char>, phase: Seq<char>)
    requires
        s.fleet == *fleet,
        is_last_phase(fleet, name, phase),
    ensures
        s.previous_phase(name) == phase,
{
    last_record_is_found(fleet, s, name);
    if !has_no_record(fleet, name) {
        let k = choose|k: int|
            #[trigger] is_last_record(fleet, name, k) && fleet.status->0.placements@[k].phase@
                == phase;
        assert(is_last_record(fleet, name, k));
    } else if phase != "Pending"@ {
        let k = choose|k: int|
            #[trigger] is_last_record(fleet, name, k) && fleet.status->0.placements@[k].phase@
                == phase;
        assert(fleet.status->0.placements@[k].vllm_service_ref@ == name);
    }
}

/// The status records each service that is applied, in order: its name and node, no surplus, and the
/// phase that follows from the one last recorded, from whether its service is ready, and from whether
/// the node that its slot was pinned to is about to be taken away.
pub proof fn applied_services_are_recorded(
    fleet: &FleetService,
    nodes: &NodeObservation,
    children: &[VllmService],
    p: FleetPlan,
    i: int,
    name: &str,
    before: &str,
    ready: bool,
    phase: &'static str,
)
    requires
        planned(fleet, nodes, children, p),
        0 <= i < p.apply@.len(),
        name@ == p.apply@[i].metadata.any_name(),
        is_last_phase(fleet, name@, before@),
        call_ensures(fleet_controller::is_child_ready, (children, name), ready),
        call_ensures(
            fleet_types::placement_phase_for,
            (
                before,
                ready,
                is_preempted(nodes, children, slots::slot_of(name@)),
            ),
            phase,
        ),
    ensures
        p.status.placements@.len() >= p.apply@.len(),
        ({
            let r = p.status.placements@[i];
            &&& r.vllm_service_ref@ == name@
            &&& r.node_ref@ == p.apply@[i].spec.node_name->0@
            &&& r.surplus_reconciles == 0
            &&& r.phase@ == phase@
            &&& r.last_transition_time@.len() == 0
            &&& r.stable_since@.len() == 0
        }),
{
    let s = situation_of(fleet, nodes, children, p);
    fleet_laws::filled_is_in_order(s, s.desired());
    let pin = s.filled()[i];
    assert(fleet_controller::is_owned_service(
        p.apply@[i],
        s.fleet,
        s.filled()[i].0 as nat,
        s.filled()[i].1,
    ));
    assert(0 <= pin.0 < s.desired());
    slots::child_name_leads_back(s.name(), pin.0 as usize);
    assert(name@ == s.child(pin.0));
    assert(slots::node_of(s.pins(), pin.0) == fleet_laws::last_pin(children@, pin.0));
    last_phase_is_found(fleet, s, name@, before@);
    let views = fleet_types::placements_view(p.status.placements@);
    assert(views.len() == p.status.placements@.len());
    assert(s.placements()[i] == s.placement(pin));
    assert(views[i] == p.status.placements@[i]@);
}

/// Whether a slot is pinned to a node that is about to be taken away.
pub open spec fn is_preempted(
    nodes: &NodeObservation,
    children: &[VllmService],
    slot: Option<int>,
) -> bool {
    &&& slot is Some
    &&& fleet_laws::last_pin(children@, slot->0) is Some
    &&& nodes.preempted@.contains(fleet_laws::last_pin(children@, slot->0)->0)
}

/// What a service is recorded to have been placed on: where it stays on its node and something was
/// recorded, that; and else what `decision_inputs` gives of its node now, by the fleet's strategy and
/// horizon, with the fleet's own services in the load.
pub proof fn placements_are_recorded_with_their_grounds(
    fleet: &FleetService,
    nodes: &NodeObservation,
    children: &[VllmService],
    p: FleetPlan,
    i: int,
    reported: &[NodeCandidate],
    current: BTreeMap<usize, String>,
    loaded: Vec<NodeCandidate>,
    all: &[NodeCandidate],
    healthy: Vec<NodeCandidate>,
    node: &str,
    now: Option<fleet_types::PlacementDecisionInputs>,
    k: int,
)
    requires
        planned(fleet, nodes, children, p),
        0 <= i < p.apply@.len(),
        planner_sees(nodes, children, reported, current, loaded, all, healthy),
        node@ == p.apply@[i].spec.node_name->0@,
        call_ensures(
            fleet_controller::decision_inputs,
            (
                all,
                node,
                &fleet.spec.placement.strategy,
                fleet.spec.placement.signal_max_age_seconds,
            ),
            now,
        ),
    ensures
        p.status.placements@.len() >= p.apply@.len(),
        ({
            let name = p.apply@[i].metadata.any_name();
            let slot = slots::slot_of(name)->0;
            let r = p.status.placements@[i];
            let stays = fleet_laws::last_pin(children@, slot) == Some(node@);
            &&& !stays || has_no_decision(fleet, name) ==> fleet_types::decided_view(r.decided_on)
                == fleet_types::decided_view(now)
            &&& stays && is_last_decision(fleet, name, k) ==> fleet_types::decided_view(
                r.decided_on,
            ) == fleet_types::decided_view(fleet.status->0.placements@[k].decided_on)
        }),
{
    let s = situation_of(fleet, nodes, children, p);
    fleet_laws::filled_is_in_order(s, s.desired());
    let pin = s.filled()[i];
    let name = p.apply@[i].metadata.any_name();
    assert(fleet_controller::is_owned_service(
        p.apply@[i],
        s.fleet,
        s.filled()[i].0 as nat,
        s.filled()[i].1,
    ));
    slots::child_name_leads_back(s.name(), pin.0 as usize);
    assert(name == s.child(pin.0));
    assert(node@ == pin.1);
    assert(slots::node_of(s.pins(), pin.0) == fleet_laws::last_pin(children@, pin.0));
    assert(slots::pins_in(current@) == s.pins());
    assert(all@ == s.loaded());
    let views = fleet_types::placements_view(p.status.placements@);
    assert(views.len() == p.status.placements@.len());
    assert(s.placements()[i] == s.placement(pin));
    assert(views[i] == p.status.placements@[i]@);
    if fleet.status is Some {
        let records = fleet.status->0.placements@;
        if has_no_decision(fleet, name) {
            no_decision_among(records, name);
        } else if is_last_decision(fleet, name, k) {
            last_decision_among(records, name, k);
        }
    }
}

proof fn no_decision_among(records: Seq<PlacementStatus>, name: Seq<char>)
    requires
        forall|j: int|
            0 <= j < records.len() ==> (#[trigger] records[j]).vllm_service_ref@ != name
                || records[j].decided_on is None,
    ensures
        fleet_model::last_decision(fleet_types::placements_view(records), name) is None,
    decreases records.len(),
{
    if records.len() > 0 {
        let front = records.drop_last();
        assert forall|j: int| 0 <= j < front.len() implies (
        #[trigger] front[j]).vllm_service_ref@ != name || front[j].decided_on is None by {
            assert(front[j] == records[j]);
        }
        no_decision_among(front, name);
        let views = fleet_types::placements_view(records);
        assert(views.drop_last() =~= fleet_types::placements_view(front));
        assert(views.last() == records[records.len() - 1]@);
    }
}

proof fn last_decision_among(records: Seq<PlacementStatus>, name: Seq<char>, k: int)
    requires
        0 <= k < records.len(),
        records[k].vllm_service_ref@ == name,
        records[k].decided_on is Some,
        forall|j: int|
            k < j < records.len() ==> (#[trigger] records[j]).vllm_service_ref@ != name
                || records[j].decided_on is None,
    ensures
        fleet_model::last_decision(fleet_types::placements_view(records), name)
            == fleet_types::decided_view(records[k].decided_on),
    decreases records.len(),
{
    let front = records.drop_last();
    let views = fleet_types::placements_view(records);
    assert(views.drop_last() =~= fleet_types::placements_view(front));
    assert(views.last() == records[records.len() - 1]@);
    if k < records.len() - 1 {
        assert(front[k] == records[k]);
        assert forall|j: int| k < j < front.len() implies (
        #[trigger] front[j]).vllm_service_ref@ != name || front[j].decided_on is None by {
            assert(front[j] == records[j]);
        }
        last_decision_among(front, name, k);
    }
}

/// A surplus service that is not removed is recorded behind those that are applied: under its name, on
/// its node, with its count, with the phase that follows from the one last recorded and from whether
/// it is ready, and with what its node was last recorded to have been chosen on.
pub proof fn surplus_services_are_recorded_until_removed(
    fleet: &FleetService,
    nodes: &NodeObservation,
    children: &[VllmService],
    p: FleetPlan,
    slot: usize,
    name: &str,
    counted: i32,
    outcome: (i32, bool),
    before: &str,
    ready: bool,
    phase: &'static str,
    d: int,
)
    requires
        planned(fleet, nodes, children, p),
        slot >= asked(fleet),
        fleet_laws::last_pin(children@, slot as int) is Some,
        name@ == slots::child_name(fleet.metadata.any_name(), slot as nat),
        is_last_count(fleet, name@, counted as int),
        call_ensures(
            fleet_types::surplus_hysteresis,
            (counted, true, fleet.spec.hysteresis.stable_reconciles_required),
            outcome,
        ),
        !outcome.1,
        is_last_phase(fleet, name@, before@),
        call_ensures(fleet_controller::is_child_ready, (children, name), ready),
        call_ensures(fleet_types::placement_phase_for, (before, ready, false), phase),
    ensures
        exists|i: int|
            p.apply@.len() <= i < p.status.placements@.len() && {
                let r = #[trigger] p.status.placements@[i];
                &&& r.vllm_service_ref@ == name@
                &&& r.node_ref@ == fleet_laws::last_pin(children@, slot as int)->0
                &&& r.surplus_reconciles == outcome.0
                &&& r.phase@ == phase@
                &&& r.last_transition_time@.len() == 0
                &&& r.stable_since@.len() == 0
                &&& has_no_decision(fleet, name@) ==> r.decided_on is None
                &&& is_last_decision(fleet, name@, d) ==> fleet_types::decided_view(r.decided_on)
                    == fleet_types::decided_view(fleet.status->0.placements@[d].decided_on)
            },
{
    let s = situation_of(fleet, nodes, children, p);
    assert(slots::node_of(s.pins(), slot as int) == fleet_laws::last_pin(
        children@,
        slot as int,
    ));
    last_count_is_found(fleet, s, name@, counted as int);
    last_phase_is_found(fleet, s, name@, before@);
    let k = fleet_laws::pin_position(s, slot as int);
    let pin = s.pins()[k];
    fleet_laws::surplus_is_recorded_or_removed(s, k);
    if fleet.status is Some {
        let records = fleet.status->0.placements@;
        if has_no_decision(fleet, name@) {
            no_decision_among(records, name@);
        } else if is_last_decision(fleet, name@, d) {
            last_decision_among(records, name@, d);
        }
    }
    let all = s.placements();
    let i = choose|i: int| 0 <= i < all.len() && all[i] == s.surplus_placement(pin);
    let views = fleet_types::placements_view(p.status.placements@);
    assert(views.len() == p.status.placements@.len());
    assert(views[i] == p.status.placements@[i]@);
    assert(i >= s.filled().len()) by {
        if i < s.filled().len() {
            fleet_laws::filled_is_in_order(s, s.desired());
            let other = s.filled()[i];
            assert(all[i] == s.placement(other));
            slots::child_names_are_distinct(s.name(), other.0 as usize, slot);
        }
    }
}

/// Every record of a plan is of a service that it applies or of a surplus slot that is pinned.
pub proof fn nothing_else_is_recorded(
    fleet: &FleetService,
    nodes: &NodeObservation,
    children: &[VllmService],
    p: FleetPlan,
    i: int,
)
    requires
        planned(fleet, nodes, children, p),
        p.apply@.len() <= i < p.status.placements@.len(),
    ensures
        ({
            let r = p.status.placements@[i];
            let slot = slots::slot_of(r.vllm_service_ref@);
            &&& slot is Some
            &&& slot->0 >= asked(fleet)
            &&& fleet_laws::last_pin(children@, slot->0) == Some(r.node_ref@)
            &&& i > p.apply@.len() ==> slots::slot_of(
                p.status.placements@[i - 1].vllm_service_ref@,
            ) is Some && slots::slot_of(p.status.placements@[i - 1].vllm_service_ref@)->0
                < slot->0
        }),
{
    let s = situation_of(fleet, nodes, children, p);
    fleet_laws::placements_are_in_order(s);
    let views = fleet_types::placements_view(p.status.placements@);
    assert(views.len() == p.status.placements@.len());
    assert(views[i] == p.status.placements@[i]@);
    let n = s.filled().len() as int;
    let kept = s.surplus().filter(s.lingers());
    let pin = fleet_laws::placement_pins(s)[i];
    assert(pin == kept[i - n]);
    assert(kept.contains(pin));
    s.surplus().lemma_filter_contains_rev(s.lingers(), pin);
    let far = fleet_model::beyond(s.desired());
    let j = choose|j: int| 0 <= j < s.surplus().len() && s.surplus()[j] == pin;
    assert(far(s.surplus()[j]));
    assert(s.surplus().contains(pin));
    s.pins().lemma_filter_contains_rev(far, pin);
    let k = choose|k: int| 0 <= k < s.pins().len() && s.pins()[k] == pin;
    fleet_laws::pins_are_in_order(s.children);
    slots::node_of_is_the_pin(s.pins(), pin.0);
    assert(s.pins()[k].0 == pin.0);
    assert(slots::node_of(s.pins(), pin.0) == fleet_laws::last_pin(children@, pin.0));
    assert(slots::slot_of(s.placements()[i].vllm_service_ref) == Some(pin.0));
    if i > n {
        assert(views[i - 1] == p.status.placements@[i - 1]@);
        assert(slots::slot_of(s.placements()[i - 1].vllm_service_ref) == Some(
            fleet_laws::placement_pins(s)[i - 1].0,
        ));
        assert(fleet_laws::placement_pins(s)[i - 1].0 < pin.0);
    }
}

/// The status counts its own records: how many there are; how many are ready, pending or warming, and
/// on the move on a node that stays; what was asked for; and the phase that follows from the ready ones
/// and from whether one is held on a node that is about to be taken away.
pub proof fn the_status_counts_its_records(
    fleet: &FleetService,
    nodes: &NodeObservation,
    children: &[VllmService],
    p: FleetPlan,
    held: bool,
    phase: &'static str,
)
    requires
        planned(fleet, nodes, children, p),
        held == exists|i: int|
            0 <= i < p.status.placements@.len() && (#[trigger] p.status.placements@[i]).phase@
                == "Draining"@ && nodes.preempted@.contains(p.status.placements@[i].node_ref@),
        call_ensures(
            fleet_types::fleet_phase_for,
            (fleet.spec.replicas, p.status.ready_replicas, held),
            phase,
        ),
    ensures
        p.status.desired_replicas == fleet.spec.replicas,
        p.status.replicas == p.status.placements@.len(),
        p.status.ready_replicas == fleet_types::placements_view(p.status.placements@).filter(
            |r: fleet_types::PlacementView| r.phase == "Ready"@,
        ).len(),
        p.status.warming_replicas == fleet_types::placements_view(p.status.placements@).filter(
            |r: fleet_types::PlacementView| r.phase == "Pending"@ || r.phase == "Warming"@,
        ).len(),
        p.status.active_reschedules == fleet_types::placements_view(p.status.placements@).filter(
            |r: fleet_types::PlacementView|
                (r.phase == "Draining"@ || r.phase == "Rescheduling"@)
                    && !nodes.preempted@.contains(r.node_ref),
        ).len(),
        p.status.phase@ == phase@,
{
    let s = situation_of(fleet, nodes, children, p);
    let views = fleet_types::placements_view(p.status.placements@);
    assert(views.len() == p.status.placements@.len());
    assert((|r: fleet_types::PlacementView| r.phase == "Ready"@) =~= fleet_model::is_ready());
    assert((|r: fleet_types::PlacementView| r.phase == "Pending"@ || r.phase == "Warming"@)
        =~= fleet_model::is_warming());
    assert((|r: fleet_types::PlacementView|
        (r.phase == "Draining"@ || r.phase == "Rescheduling"@) && !nodes.preempted@.contains(
            r.node_ref,
        )) =~= fleet_model::on_the_move(s.preempted));
    if held {
        let i = choose|i: int|
            0 <= i < p.status.placements@.len() && (#[trigger] p.status.placements@[i]).phase@
                == "Draining"@ && nodes.preempted@.contains(p.status.placements@[i].node_ref@);
        assert(views[i] == p.status.placements@[i]@);
        assert(fleet_model::held(s.placements()[i], s.preempted));
    }
    if s.holds() {
        let i = choose|i: int|
            0 <= i < s.placements().len() && fleet_model::held(
                #[trigger] s.placements()[i],
                s.preempted,
            );
        assert(views[i] == p.status.placements@[i]@);
        assert(p.status.placements@[i].phase@ == "Draining"@);
    }
}

/// Which services of a plan move: those whose slot was pinned, to another node.
pub open spec fn is_moved(children: Seq<VllmService>) -> spec_fn(VllmService) -> bool {
    |v: VllmService|
        {
            let slot = slots::slot_of(v.metadata.any_name());
            &&& slot is Some
            &&& fleet_laws::last_pin(children, slot->0) is Some
            &&& v.spec.node_name is Some
            &&& v.spec.node_name->0@ != fleet_laws::last_pin(children, slot->0)->0
        }
}

/// The number of moves that a fleet may start: its bound, less those that are under way.
pub open spec fn may_start(fleet: &FleetService, under_way: usize) -> int {
    let cap = fleet.spec.hysteresis.max_concurrent_reschedules;
    if cap < 0 || cap < under_way {
        0
    } else {
        cap - under_way
    }
}

/// Whether a list of records is that of a fleet's status, empty where it has none.
pub open spec fn are_records_of(records: Seq<PlacementStatus>, fleet: &FleetService) -> bool {
    if fleet.status is Some {
        records == fleet.status->0.placements@
    } else {
        records.len() == 0
    }
}

/// The name of a service.
pub open spec fn name_of_service() -> spec_fn(VllmService) -> Seq<char> {
    |v: VllmService| v.metadata.any_name()
}

proof fn filtered_names_differ(all: Seq<VllmService>, test: spec_fn(VllmService) -> bool)
    requires
        all.map_values(name_of_service()).no_duplicates(),
    ensures
        all.filter(test).map_values(name_of_service()).no_duplicates(),
    decreases all.len(),
{
    reveal(Seq::filter);
    if all.len() > 0 {
        let front = all.drop_last();
        let names = all.map_values(name_of_service());
        assert(front.map_values(name_of_service()) =~= names.drop_last());
        filtered_names_differ(front, test);
        let kept = front.filter(test);
        let kept_names = kept.map_values(name_of_service());
        let out = all.filter(test);
        assert forall|i: int, j: int| 0 <= i < j < out.len() implies #[trigger] out.map_values(
            name_of_service(),
        )[i] != #[trigger] out.map_values(name_of_service())[j] by {
            if j < kept.len() {
                assert(kept_names[i] != kept_names[j]);
            } else {
                assert(kept.contains(kept[i]));
                front.lemma_filter_contains_rev(test, kept[i]);
                let k = choose|k: int| 0 <= k < front.len() && front[k] == kept[i];
                assert(names[k] != names[all.len() - 1]);
                assert(names[k] == kept[i].metadata.any_name());
            }
        }
    }
}

proof fn applied_names_differ(p: FleetPlan, s: Situation)
    requires
        fleet_controller::plan_matches(p, s),
    ensures
        p.apply@.map_values(name_of_service()).no_duplicates(),
        forall|i: int|
            0 <= i < p.apply@.len() ==> (#[trigger] p.apply@[i]).metadata.any_name() == s.child(
                s.filled()[i].0,
            ) && p.apply@[i].spec.node_name is Some && p.apply@[i].spec.node_name->0@
                == s.filled()[i].1 && slots::slot_of(p.apply@[i].metadata.any_name()) == Some(
                s.filled()[i].0,
            ),
{
    fleet_laws::filled_is_in_order(s, s.desired());
    let names = p.apply@.map_values(name_of_service());
    assert forall|i: int| 0 <= i < p.apply@.len() implies (
    #[trigger] p.apply@[i]).metadata.any_name() == s.child(s.filled()[i].0)
        && p.apply@[i].spec.node_name is Some && p.apply@[i].spec.node_name->0@ == s.filled()[i].1
        && slots::slot_of(p.apply@[i].metadata.any_name()) == Some(s.filled()[i].0) by {
        assert(fleet_controller::is_owned_service(
            p.apply@[i],
            s.fleet,
            s.filled()[i].0 as nat,
            s.filled()[i].1,
        ));
        slots::child_name_leads_back(s.name(), s.filled()[i].0 as usize);
    }
    assert forall|i: int, j: int| 0 <= i < j < names.len() implies #[trigger] names[i]
        != #[trigger] names[j] by {
        assert(s.filled()[i].0 < s.filled()[j].0);
        assert(names[i] == p.apply@[i].metadata.any_name());
        assert(names[j] == p.apply@[j].metadata.any_name());
    }
}

proof fn under_way_is_in_flight(
    fleet: &FleetService,
    nodes: &NodeObservation,
    s: Situation,
    records: &[PlacementStatus],
    under_way: usize,
)
    requires
        s.fleet == *fleet,
        s.preempted == nodes.preempted@,
        are_records_of(records@, fleet),
        call_ensures(fleet_controller::moves_in_flight, (records, &nodes.preempted), under_way),
    ensures
        s.in_flight() == under_way,
        s.budget() == may_start(fleet, under_way),
{
    assert(fleet_types::placements_view(records@) =~= s.previous());
}

/// No more moves are started than the fleet's bound leaves of those that are under way.
pub proof fn no_more_moves_are_started_than_allowed(
    fleet: &FleetService,
    nodes: &NodeObservation,
    children: &[VllmService],
    p: FleetPlan,
    records: &[PlacementStatus],
    under_way: usize,
)
    requires
        planned(fleet, nodes, children, p),
        are_records_of(records@, fleet),
        call_ensures(fleet_controller::moves_in_flight, (records, &nodes.preempted), under_way),
    ensures
        p.apply@.filter(is_moved(children@)).len() <= may_start(fleet, under_way),
{
    let s = situation_of(fleet, nodes, children, p);
    under_way_is_in_flight(fleet, nodes, s, records, under_way);
    let test = is_moved(children@);
    let moved = p.apply@.filter(test);
    let names = moved.map_values(name_of_service());
    applied_names_differ(p, s);
    filtered_names_differ(p.apply@, test);
    let n = s.pins().len() as int;
    let started = fleet_laws::moved_names(s, n);
    fleet_laws::moved_names_are_the_moves(s, n);
    fleet_laws::filled_is_in_order(s, s.desired());
    assert forall|i: int| 0 <= i < names.len() implies started.contains(#[trigger] names[i]) by {
        let v = moved[i];
        assert(test(v));
        assert(moved.contains(v));
        p.apply@.lemma_filter_contains_rev(test, v);
        let j = choose|j: int| 0 <= j < p.apply@.len() && p.apply@[j] == v;
        let pin = s.filled()[j];
        assert(slots::node_of(s.pins(), pin.0) == fleet_laws::last_pin(children@, pin.0));
        let k = fleet_laws::pin_position(s, pin.0);
        assert(s.node_for(pin.0) == Some(pin.1));
        assert(s.moved(k));
        assert(names[i] == s.child(s.pins()[k].0));
    }
    fleet_laws::names_fit(names, started);
    fleet_laws::moves_up_to(s, n);
}

/// A service that could move and does not waits for those before it: as many moves are started as the
/// bound leaves, all of lower slots.
pub proof fn a_service_is_held_only_where_the_bound_is_used_up(
    fleet: &FleetService,
    nodes: &NodeObservation,
    children: &[VllmService],
    p: FleetPlan,
    slot: int,
    reported: &[NodeCandidate],
    current: BTreeMap<usize, String>,
    loaded: Vec<NodeCandidate>,
    all: &[NodeCandidate],
    healthy: Vec<NodeCandidate>,
    choices: &[NodeCandidate],
    lost: &str,
    target: Option<String>,
    records: &[PlacementStatus],
    under_way: usize,
)
    requires
        planned(fleet, nodes, children, p),
        0 <= slot < asked(fleet),
        planner_sees(nodes, children, reported, current, loaded, all, healthy),
        choices@ == healthy@,
        fleet_laws::last_pin(children@, slot) == Some(lost@),
        nodes.preempted@.contains(lost@),
        call_ensures(
            fleet_placement::select_replacement_node,
            (
                choices,
                lost,
                &fleet.spec.placement.strategy,
                fleet.spec.placement.signal_max_age_seconds,
            ),
            target,
        ),
        target is Some,
        are_records_of(records@, fleet),
        call_ensures(fleet_controller::moves_in_flight, (records, &nodes.preempted), under_way),
        !puts(p, fleet, slot, target->0@),
    ensures
        p.apply@.filter(is_moved(children@)).len() == may_start(fleet, under_way),
        forall|i: int|
            0 <= i < p.apply@.len() && is_moved(children@)(#[trigger] p.apply@[i])
                ==> slots::slot_of(p.apply@[i].metadata.any_name())->0 < slot,
{
    no_more_moves_are_started_than_allowed(fleet, nodes, children, p, records, under_way);
    let s = situation_of(fleet, nodes, children, p);
    under_way_is_in_flight(fleet, nodes, s, records, under_way);
    assert(slots::node_of(s.pins(), slot) == Some(lost@));
    let k = fleet_laws::pin_position(s, slot);
    assert(choices@ == s.healthy()) by {
        assert(slots::pins_in(current@) == s.pins());
        assert(loaded@ == s.loaded());
    }
    assert(objects::text_view(target) == s.replacement_for(k));
    assert(s.movable(k));
    if s.moved(k) {
        slot_is_put(p, s, fleet, slot);
    }
    assert(s.movable_before(k) >= s.budget());
    fleet_laws::moves_up_to(s, k);
    fleet_laws::moved_names_are_the_moves(s, k);
    let waited_for = fleet_laws::moved_names(s, k);
    assert(waited_for.len() == s.budget());
    let test = is_moved(children@);
    let moved = p.apply@.filter(test);
    let names = moved.map_values(name_of_service());
    applied_names_differ(p, s);
    fleet_laws::pins_are_in_order(s.children);
    moved_names_differ(s, k);
    assert forall|i: int| 0 <= i < waited_for.len() implies names.contains(
        #[trigger] waited_for[i],
    ) by {
        let j = moved_name_has_a_pin(s, k, i);
        let pin = s.pins()[j];
        assert(pin.0 < s.pins()[k].0);
        let f = moved_slot_is_filled(s, j);
        let v = p.apply@[f];
        assert(slots::node_of(s.pins(), pin.0) == fleet_laws::last_pin(children@, pin.0));
        assert(test(v));
        p.apply@.lemma_filter_contains(test, f);
        assert(moved.contains(v));
        let m = choose|m: int| 0 <= m < moved.len() && moved[m] == v;
        assert(names[m] == waited_for[i]);
    }
    fleet_laws::names_fit(waited_for, names);
    assert(names.len() == moved.len());
    assert forall|i: int| 0 <= i < p.apply@.len() && test(#[trigger] p.apply@[i]) implies
        slots::slot_of(p.apply@[i].metadata.any_name())->0 < slot by {
        fleet_laws::filled_is_in_order(s, s.desired());
        let pin = s.filled()[i];
        assert(slots::node_of(s.pins(), pin.0) == fleet_laws::last_pin(children@, pin.0));
        let m = fleet_laws::pin_position(s, pin.0);
        assert(s.node_for(pin.0) == Some(pin.1));
        assert(s.moved(m));
        if m >= k {
            movable_grows(s, k, m);
        }
        assert(s.pins()[m].0 < s.pins()[k].0);
    }
}

proof fn movable_grows(s: Situation, a: int, b: int)
    requires
        0 <= a <= b,
    ensures
        s.movable_before(a) <= s.movable_before(b),
    decreases b - a,
{
    if a < b {
        movable_grows(s, a, b - 1);
    }
}

proof fn moved_name_has_a_pin(s: Situation, k: int, i: int) -> (j: int)
    requires
        0 <= k,
        0 <= i < fleet_laws::moved_names(s, k).len(),
    ensures
        0 <= j < k,
        s.moved(j),
        fleet_laws::moved_names(s, k)[i] == s.child(s.pins()[j].0),
    decreases k,
{
    if s.moved(k - 1) && i == fleet_laws::moved_names(s, k).len() - 1 {
        k - 1
    } else {
        moved_name_has_a_pin(s, k - 1, i)
    }
}

proof fn moved_names_differ(s: Situation, k: int)
    requires
        slots::ascending(s.pins()),
        forall|i: int| 0 <= i < s.pins().len() ==> 0 <= (#[trigger] s.pins()[i]).0 <= usize::MAX,
        0 <= k <= s.pins().len(),
    ensures
        fleet_laws::moved_names(s, k).no_duplicates(),
    decreases k,
{
    if k > 0 {
        moved_names_differ(s, k - 1);
        let front = fleet_laws::moved_names(s, k - 1);
        let out = fleet_laws::moved_names(s, k);
        assert forall|i: int, j: int| 0 <= i < j < out.len() implies #[trigger] out[i]
            != #[trigger] out[j] by {
            if j < front.len() {
                assert(front[i] != front[j]);
            } else {
                let m = moved_name_has_a_pin(s, k - 1, i);
                assert(s.pins()[m].0 < s.pins()[k - 1].0);
                if out[i] == out[j] {
                    slots::child_names_are_distinct(
                        s.name(),
                        s.pins()[m].0 as usize,
                        s.pins()[k - 1].0 as usize,
                    );
                }
            }
        }
    }
}

proof fn moved_slot_is_filled(s: Situation, j: int) -> (f: int)
    requires
        0 <= j < s.pins().len(),
        s.pins()[j].0 < s.desired(),
        s.moved(j),
    ensures
        0 <= f < s.filled().len(),
        s.filled()[f].0 == s.pins()[j].0,
        slots::node_of(s.pins(), s.pins()[j].0) == Some(s.pins()[j].1),
        s.filled()[f].1 != s.pins()[j].1,
{
    fleet_laws::pins_are_in_order(s.children);
    let pin = s.pins()[j];
    slots::node_of_is_the_pin(s.pins(), pin.0);
    let m = fleet_laws::pin_position(s, pin.0);
    assert(m == j) by {
        assert(m < j ==> s.pins()[m].0 < s.pins()[j].0);
        assert(j < m ==> s.pins()[j].0 < s.pins()[m].0);
    }
    crate::placement_laws::replacement_is_healthy(
        s.healthy(),
        pin.1,
        s.strategy(),
        s.horizon(),
    );
    fleet_laws::filled_contains(s, s.desired(), pin.0)
}

/// Whether there are services to apply: exactly if the plan has some. They are foreseen from the
/// fleet, the nodes and the services alone.
pub proof fn services_to_apply_are_foreseen(
    fleet: &FleetService,
    nodes: &NodeObservation,
    children: &[VllmService],
    p: FleetPlan,
    foreseen: bool,
)
    requires
        planned(fleet, nodes, children, p),
        call_ensures(fleet_controller::has_services_to_apply, (fleet, nodes, children), foreseen),
    ensures
        foreseen <==> p.apply@.len() > 0,
        foreseen <==> asked(fleet) > 0 && ((exists|slot: int|
            0 <= slot < asked(fleet) && #[trigger] fleet_laws::last_pin(children@, slot) is Some)
            || (exists|k: int|
            0 <= k < nodes.candidates@.len() && !nodes.preempted@.contains(
                (#[trigger] nodes.candidates@[k]).name@,
            ))),
{
    let s = situation_of(fleet, nodes, children, p);
    fleet_laws::some_slot_is_filled(s);
    fleet_laws::pins_are_in_order(s.children);
    if exists|slot: int|
        0 <= slot < asked(fleet) && #[trigger] fleet_laws::last_pin(children@, slot) is Some {
        let slot = choose|slot: int|
            0 <= slot < asked(fleet) && #[trigger] fleet_laws::last_pin(children@, slot) is Some;
        assert(slots::node_of(s.pins(), slot) == fleet_laws::last_pin(children@, slot));
        let k = fleet_laws::pin_position(s, slot);
        assert(s.pins()[k].0 < s.desired());
    }
    if exists|k: int| 0 <= k < s.pins().len() && (#[trigger] s.pins()[k]).0 < s.desired() {
        let k = choose|k: int|
            0 <= k < s.pins().len() && (#[trigger] s.pins()[k]).0 < s.desired();
        let slot = s.pins()[k].0;
        slots::node_of_is_the_pin(s.pins(), slot);
        assert(slots::node_of(s.pins(), slot) == fleet_laws::last_pin(children@, slot));
    }
    if exists|k: int|
        0 <= k < nodes.candidates@.len() && !nodes.preempted@.contains(
            (#[trigger] nodes.candidates@[k]).name@,
        ) {
        let k = choose|k: int|
            0 <= k < nodes.candidates@.len() && !nodes.preempted@.contains(
                (#[trigger] nodes.candidates@[k]).name@,
            );
        assert(s.candidates[k] == nodes.candidates@[k]);
    }
    if exists|i: int|
        0 <= i < s.candidates.len() && !s.preempted.contains((#[trigger] s.candidates[i]).name@) {
        let i = choose|i: int|
            0 <= i < s.candidates.len() && !s.preempted.contains(
                (#[trigger] s.candidates[i]).name@,
            );
        assert(nodes.candidates@[i] == s.candidates[i]);
    }
}

/// A fleet of ordinary size can be counted: where the slots asked for and the services that there are
/// fit together, and fit with the load of every reported node.
pub proof fn fleets_of_ordinary_size_can_be_counted(
    fleet: &FleetService,
    nodes: &NodeObservation,
    children: &[VllmService],
    r: bool,
)
    requires
        call_ensures(fleet_controller::is_countable, (fleet, nodes, children), r),
        asked(fleet) + children@.len() <= i32::MAX,
        forall|i: int|
            0 <= i < nodes.candidates@.len() && (#[trigger] nodes.candidates@[i]).active_service_count
                is Some ==> nodes.candidates@[i].active_service_count->0 + asked(fleet)
                + children@.len() <= i32::MAX,
    ensures
        r,
{
    let s = fleet_controller::situation(*fleet, *nodes, children@);
    fleet_laws::pins_are_in_order(s.children);
    s.pins().lemma_filter_len(fleet_model::beyond(s.desired()));
    assert forall|i: int| 0 <= i < s.candidates.len() implies fleet_planning::service_count(
        #[trigger] s.candidates[i],
    ) + asked(fleet) + fleet_model::own_count(s.pins(), s.candidates[i].name@) <= i32::MAX by {
        let c = nodes.candidates@[i];
        s.pins().lemma_filter_len(fleet_model::pinned_to(c.name@));
    }
    missing_is_bounded(s, s.desired());
    let missing = s.missing_below(s.desired());
    assert forall|h: int| 0 <= h < s.healthy().len() implies fleet_planning::service_count(
        #[trigger] s.healthy()[h],
    ) + missing <= i32::MAX by {
        let i = fleet_laws::healthy_is_a_candidate(s, h);
        assert(fleet_planning::service_count(s.candidates[i]) + asked(fleet)
            + fleet_model::own_count(s.pins(), s.candidates[i].name@) <= i32::MAX);
    }
    fleet_planning::bounded_counts_fit(s.healthy(), missing, s.strategy(), s.horizon());
}

proof fn missing_is_bounded(s: Situation, slot: int)
    requires
        0 <= slot,
    ensures
        s.missing_below(slot) <= slot,
    decreases slot,
{
    if slot > 0 {
        missing_is_bounded(s, slot - 1);
    }
}

/// Nothing but surplus services is removed, each once and in order of slots.
pub proof fn nothing_else_is_removed(
    fleet: &FleetService,
    nodes: &NodeObservation,
    children: &[VllmService],
    p: FleetPlan,
    i: int,
    j: int,
)
    requires
        planned(fleet, nodes, children, p),
        0 <= i < j <= p.remove@.len(),
    ensures
        ({
            let slot = slots::slot_of(p.remove@[i]@);
            &&& slot is Some
            &&& slot->0 >= asked(fleet)
            &&& fleet_laws::last_pin(children@, slot->0) is Some
            &&& p.remove@[i]@ == slots::child_name(fleet.metadata.any_name(), slot->0 as nat)
            &&& j < p.remove@.len() ==> slots::slot_of(p.remove@[j]@) is Some && slot->0
                < slots::slot_of(p.remove@[j]@)->0
        }),
{
    let s = situation_of(fleet, nodes, children, p);
    let gone = s.surplus().filter(s.goes());
    let far = fleet_model::beyond(s.desired());
    let views = objects::texts_view(p.remove@);
    assert(views.len() == p.remove@.len());
    fleet_laws::pins_are_in_order(s.children);
    fleet_laws::filter_keeps_order(s.pins(), far);
    fleet_laws::filter_keeps_order(s.surplus(), s.goes());
    assert forall|k: int| 0 <= k < gone.len() implies slots::slot_of(
        (#[trigger] p.remove@[k])@,
    ) == Some(gone[k].0) && gone[k].0 >= asked(fleet) && fleet_laws::last_pin(
        children@,
        gone[k].0,
    ) is Some && p.remove@[k]@ == s.child(gone[k].0) by {
        let pin = gone[k];
        assert(views[k] == p.remove@[k]@);
        assert(s.removals()[k] == s.child(pin.0));
        assert(s.surplus().contains(gone[k]));
        let a = choose|a: int| 0 <= a < s.surplus().len() && s.surplus()[a] == pin;
        assert(far(s.surplus()[a]));
        assert(s.pins().contains(s.surplus()[a]));
        let b = choose|b: int| 0 <= b < s.pins().len() && s.pins()[b] == pin;
        slots::node_of_is_the_pin(s.pins(), pin.0);
        assert(s.pins()[b].0 == pin.0);
        assert(slots::node_of(s.pins(), pin.0) == fleet_laws::last_pin(children@, pin.0));
        slots::child_name_leads_back(s.name(), pin.0 as usize);
    }
    let first = p.remove@[i];
    if j < p.remove@.len() {
        let second = p.remove@[j];
        assert(gone[i].0 < gone[j].0);
    }
}

} // verus!
