//! What holds of every reconcile of a fleet.
use crate::fleet_controller;
use crate::fleet_controller::FleetPlan;
use crate::fleet_model;
use crate::fleet_model::Situation;
use crate::fleet_placement::NodeCandidate;
use crate::fleet_planning;
use crate::fleet_types;
use crate::fleet_types::{PlacementView, Warmth};
use crate::objects;
use crate::placement_laws;
use crate::slots;
use crate::slots::Pin;
use crate::VllmService;
use vstd::prelude::*;

verus! {

/// The node of the last service in a list that fills the given slot and has a node.
pub open spec fn last_pin(children: Seq<VllmService>, slot: int) -> Option<Seq<char>>
    decreases children.len(),
{
    if children.len() == 0 {
        None
    } else {
        let c = children.last();
        if slots::slot_of(c.metadata.any_name()) == Some(slot) && c.spec.node_name is Some {
            Some(c.spec.node_name->0@)
        } else {
            last_pin(children.drop_last(), slot)
        }
    }
}

/// The pins of a list of services are in order of slots, no more than the services, and for slots
/// that a machine can count.
pub proof fn pins_are_in_order(children: Seq<VllmService>)
    ensures
        slots::ascending(fleet_model::pins_of(children)),
        fleet_model::pins_of(children).len() <= children.len(),
        forall|i: int|
            0 <= i < fleet_model::pins_of(children).len() ==> 0 <= (
            #[trigger] fleet_model::pins_of(children)[i]).0 <= usize::MAX,
    decreases children.len(),
{
    if children.len() > 0 {
        pins_are_in_order(children.drop_last());
        let front = fleet_model::pins_of(children.drop_last());
        let c = children.last();
        match (slots::slot_of(c.metadata.any_name()), c.spec.node_name) {
            (Some(slot), Some(node)) => {
                slots::pinned_keeps_order(front, slot, node@);
                let after = slots::pinned(front, slot, node@);
                assert forall|i: int| 0 <= i < after.len() implies 0 <= (#[trigger] after[i]).0
                    <= usize::MAX by {
                    if after[i].0 != slot {
                        let j = choose|j: int| 0 <= j < front.len() && front[j] == after[i];
                        assert(front[j].0 == after[i].0);
                    }
                }
            },
            _ => {},
        }
    }
}

/// A slot is pinned to the node of the last service that fills it: the services are the source of
/// truth.
pub proof fn services_are_the_source_of_pins(children: Seq<VllmService>, slot: int)
    ensures
        slots::node_of(fleet_model::pins_of(children), slot) == last_pin(children, slot),
    decreases children.len(),
{
    if children.len() > 0 {
        let front = children.drop_last();
        services_are_the_source_of_pins(front, slot);
        pins_are_in_order(front);
        let c = children.last();
        match (slots::slot_of(c.metadata.any_name()), c.spec.node_name) {
            (Some(other), Some(node)) => {
                slots::pinning_changes_one_slot(
                    fleet_model::pins_of(front),
                    other,
                    node@,
                    slot,
                );
            },
            _ => {},
        }
    }
}

/// The position of a slot's pin.
pub proof fn pin_position(s: Situation, slot: int) -> (k: int)
    requires
        slots::node_of(s.pins(), slot) is Some,
    ensures
        0 <= k < s.pins().len(),
        s.pins()[k] == (slot, slots::node_of(s.pins(), slot)->0),
        slots::node_of(s.settled(), slot) == Some(s.settled_pin(k).1),
{
    pins_are_in_order(s.children);
    slots::node_of_is_the_pin(s.pins(), slot);
    let k = choose|k: int|
        0 <= k < s.pins().len() && #[trigger] s.pins()[k] == (
            slot,
            slots::node_of(s.pins(), slot)->0,
        );
    settled_is_in_order(s);
    slots::node_of_is_the_pin(s.settled(), slot);
    assert(s.settled()[k].0 == slot);
    k
}

/// The pins are still in order once the moves are made.
pub proof fn settled_is_in_order(s: Situation)
    ensures
        slots::ascending(s.settled()),
{
    pins_are_in_order(s.children);
    assert forall|i: int, j: int| 0 <= i < j < s.settled().len() implies (
    #[trigger] s.settled()[i]).0 < (#[trigger] s.settled()[j]).0 by {
        assert(s.pins()[i].0 < s.pins()[j].0);
    }
}

/// A slot that was not pinned is not pinned by the moves.
pub proof fn settled_adds_no_slot(s: Situation, slot: int)
    requires
        slots::node_of(s.pins(), slot) is None,
    ensures
        slots::node_of(s.settled(), slot) is None,
{
    pins_are_in_order(s.children);
    settled_is_in_order(s);
    slots::node_of_is_the_pin(s.settled(), slot);
    slots::node_of_is_the_pin(s.pins(), slot);
    if slots::node_of(s.settled(), slot) is Some {
        let k = choose|k: int|
            0 <= k < s.settled().len() && #[trigger] s.settled()[k] == (
                slot,
                slots::node_of(s.settled(), slot)->0,
            );
        assert(s.pins()[k].0 == slot);
    }
}

/// A placement does not move unless its node is about to be taken away: neither warmth, nor load,
/// nor a node's disappearance moves it.
pub proof fn stable_pins_stay(s: Situation, slot: int)
    requires
        slots::node_of(s.pins(), slot) is Some,
        !s.preempted.contains(slots::node_of(s.pins(), slot)->0),
    ensures
        s.node_for(slot) == slots::node_of(s.pins(), slot),
{
    let k = pin_position(s, slot);
}

/// A placement that moves goes to a reported node that is not about to be taken away and is not
/// cold.
pub proof fn moves_go_to_healthy_nodes(s: Situation, slot: int)
    requires
        slots::node_of(s.pins(), slot) is Some,
        s.node_for(slot) != slots::node_of(s.pins(), slot),
    ensures
        s.node_for(slot) is Some,
        s.preempted.contains(slots::node_of(s.pins(), slot)->0),
        !s.preempted.contains(s.node_for(slot)->0),
        exists|i: int|
            0 <= i < s.candidates.len() && (#[trigger] s.candidates[i]).name@ == s.node_for(slot)->0
                && s.candidates[i].warmth != Warmth::Cold,
{
    let k = pin_position(s, slot);
    let node = slots::node_of(s.pins(), slot)->0;
    assert(s.moved(k));
    placement_laws::replacement_is_healthy(s.healthy(), node, s.strategy(), s.horizon());
    let target = s.node_for(slot)->0;
    let h = choose|h: int|
        0 <= h < s.healthy().len() && (#[trigger] s.healthy()[h]).name@ == target
            && s.healthy()[h].warmth != Warmth::Cold;
    let i = healthy_is_a_candidate(s, h);
}

/// A candidate that a service may be put on is one of the reported nodes, and is not about to be
/// taken away.
pub proof fn healthy_is_a_candidate(s: Situation, h: int) -> (i: int)
    requires
        0 <= h < s.healthy().len(),
    ensures
        0 <= i < s.candidates.len(),
        s.healthy()[h] == fleet_model::with_own_load(s.candidates[i], s.pins()),
        s.candidates[i].name@ == s.healthy()[h].name@,
        s.candidates[i].warmth == s.healthy()[h].warmth,
        !s.preempted.contains(s.healthy()[h].name@),
{
    let test = fleet_model::stays(s.preempted);
    assert(test(s.healthy()[h]));
    assert(s.healthy().contains(s.healthy()[h]));
    s.loaded().lemma_filter_contains_rev(test, s.healthy()[h]);
    let i = choose|i: int| 0 <= i < s.loaded().len() && s.loaded()[i] == s.healthy()[h];
    i
}

/// A new slot is never put on a node that is about to be taken away, but on a reported one that
/// stays.
pub proof fn new_slots_avoid_preempted_nodes(s: Situation, slot: int)
    requires
        slots::node_of(s.pins(), slot) is None,
        s.node_for(slot) is Some,
    ensures
        !s.preempted.contains(s.node_for(slot)->0),
        exists|i: int|
            0 <= i < s.candidates.len() && (#[trigger] s.candidates[i]).name@ == s.node_for(
                slot,
            )->0,
{
    settled_adds_no_slot(s, slot);
    let m = s.missing_below(slot) as int;
    fleet_planning::plan_stays_within_candidates(
        s.healthy(),
        s.missing_below(s.desired()),
        s.strategy(),
        s.horizon(),
        m,
    );
    let h = choose|h: int|
        0 <= h < s.healthy().len() && (#[trigger] s.healthy()[h]).name@ == s.fresh_nodes()[m];
    let i = healthy_is_a_candidate(s, h);
}

/// The number of pins that move, among the first `k`.
pub open spec fn moves_among(s: Situation, k: int) -> int
    decreases k,
{
    if k <= 0 {
        0
    } else {
        moves_among(s, k - 1) + (if s.moved(k - 1) {
            1int
        } else {
            0
        })
    }
}

/// The moves are bounded: the placements that start to move and those that were on the move
/// already are together no more than the bound that the fleet sets, unless the latter alone exceed
/// it, and then none starts to move.
pub proof fn moves_are_bounded(s: Situation)
    ensures
        ({
            let cap = fleet_model::at_least_zero(
                s.fleet.spec.hysteresis.max_concurrent_reschedules as int,
            );
            let started = moves_among(s, s.pins().len() as int);
            &&& s.in_flight() <= cap ==> s.in_flight() + started <= cap
            &&& s.in_flight() > cap ==> started == 0
        }),
{
    moves_up_to(s, s.pins().len() as int);
}

pub proof fn moves_up_to(s: Situation, k: int)
    requires
        0 <= k,
    ensures
        moves_among(s, k) == (if s.movable_before(k) < s.budget() {
            s.movable_before(k)
        } else {
            s.budget()
        }),
        0 <= s.movable_before(k),
    decreases k,
{
    if k > 0 {
        moves_up_to(s, k - 1);
    }
}

/// The names of the services whose pins move, among the first `k`.
pub open spec fn moved_names(s: Situation, k: int) -> Seq<Seq<char>>
    decreases k,
{
    if k <= 0 {
        Seq::empty()
    } else if s.moved(k - 1) {
        moved_names(s, k - 1).push(s.child(s.pins()[k - 1].0))
    } else {
        moved_names(s, k - 1)
    }
}

pub proof fn moved_names_are_the_moves(s: Situation, k: int)
    requires
        0 <= k,
    ensures
        moved_names(s, k).len() == moves_among(s, k),
        forall|j: int|
            0 <= j < k && #[trigger] s.moved(j) ==> moved_names(s, k).contains(
                s.child(s.pins()[j].0),
            ),
    decreases k,
{
    if k > 0 {
        moved_names_are_the_moves(s, k - 1);
        let front = moved_names(s, k - 1);
        let all = moved_names(s, k);
        assert forall|j: int| 0 <= j < k && #[trigger] s.moved(j) implies all.contains(
            s.child(s.pins()[j].0),
        ) by {
            if j == k - 1 {
                assert(all[all.len() - 1] == s.child(s.pins()[j].0));
            } else {
                assert(front.contains(s.child(s.pins()[j].0)));
                let i = choose|i: int|
                    0 <= i < front.len() && front[i] == s.child(s.pins()[j].0);
                assert(all[i] == front[i]);
            }
        }
    }
}

/// A list of different names that all stand in another list is no longer than that.
pub proof fn names_fit(a: Seq<Seq<char>>, b: Seq<Seq<char>>)
    requires
        a.no_duplicates(),
        forall|i: int| 0 <= i < a.len() ==> b.contains(#[trigger] a[i]),
    ensures
        a.len() <= b.len(),
{
    a.unique_seq_to_set();
    b.lemma_cardinality_of_set();
    assert forall|x: Seq<char>| a.to_set().contains(x) implies b.to_set().contains(x) by {
        let i = choose|i: int| 0 <= i < a.len() && a[i] == x;
        assert(b.contains(a[i]));
    }
    vstd::set_lib::lemma_len_subset(a.to_set(), b.to_set());
}

/// The name of the service of a placement.
pub open spec fn service_name() -> spec_fn(PlacementView) -> Seq<char> {
    |p: PlacementView| p.vllm_service_ref
}

/// Whether the records are up to date: a placement that drains on a node about to be taken away is
/// still pinned there, and none is in the phase that no reconcile writes.
pub open spec fn records_are_current(s: Situation) -> bool {
    forall|i: int|
        0 <= i < s.previous().len() ==> {
            let r = #[trigger] s.previous()[i];
            &&& r.phase != "Preempted"@
            &&& fleet_model::held(r, s.preempted) ==> slots::slot_of(r.vllm_service_ref) is Some
                && slots::node_of(s.pins(), slots::slot_of(r.vllm_service_ref)->0) == Some(
                r.node_ref,
            )
        }
}

/// The last record of a service is among the records.
proof fn last_record_is_recorded(records: Seq<PlacementView>, child: Seq<char>) -> (i: int)
    requires
        fleet_model::last_record(records, child) is Some,
    ensures
        0 <= i < records.len(),
        records[i] == fleet_model::last_record(records, child)->0,
        records[i].vllm_service_ref == child,
    decreases records.len(),
{
    if records.last().vllm_service_ref == child {
        records.len() - 1
    } else {
        last_record_is_recorded(records.drop_last(), child)
    }
}

/// What a filter keeps of a list of placements was in the list, and different services stay
/// different.
proof fn filter_keeps_names(p: Seq<PlacementView>, test: spec_fn(PlacementView) -> bool)
    requires
        p.map_values(service_name()).no_duplicates(),
    ensures
        p.filter(test).map_values(service_name()).no_duplicates(),
        forall|i: int| 0 <= i < p.filter(test).len() ==> p.contains(#[trigger] p.filter(test)[i]),
    decreases p.len(),
{
    reveal(Seq::filter);
    if p.len() > 0 {
        let front = p.drop_last();
        let names = p.map_values(service_name());
        assert(front.map_values(service_name()) =~= names.drop_last());
        filter_keeps_names(front, test);
        let kept = front.filter(test);
        assert forall|i: int| 0 <= i < kept.len() implies p.contains(#[trigger] kept[i])
            && kept[i].vllm_service_ref != p.last().vllm_service_ref by {
            assert(front.contains(kept[i]));
            let j = choose|j: int| 0 <= j < front.len() && front[j] == kept[i];
            assert(p[j] == kept[i]);
            assert(names[j] != names[p.len() - 1]);
        }
        assert(p.contains(p.last())) by {
            assert(p[p.len() - 1] == p.last());
        }
        let all = p.filter(test);
        let kept_names = kept.map_values(service_name());
        assert forall|i: int, j: int| 0 <= i < j < all.len() implies #[trigger] all.map_values(
            service_name(),
        )[i] != #[trigger] all.map_values(service_name())[j] by {
            if j < kept.len() {
                assert(kept_names[i] != kept_names[j]);
            } else {
                assert(kept[i].vllm_service_ref != p.last().vllm_service_ref);
            }
        }
    }
}

/// A placement that is on the move in the status either starts to move now or was on the move
/// already.
proof fn moving_started_or_was_moving(s: Situation, i: int)
    requires
        records_are_current(s),
        0 <= i < s.placements().len(),
        fleet_model::on_the_move(s.preempted)(s.placements()[i]),
    ensures
        moved_names(s, s.pins().len() as int).contains(s.placements()[i].vllm_service_ref)
            || s.previous().filter(fleet_model::on_the_move(s.preempted)).map_values(
            service_name(),
        ).contains(s.placements()[i].vllm_service_ref),
{
    phases_are_distinct();
    placements_are_in_order(s);
    pins_are_in_order(s.children);
    moved_names_are_the_moves(s, s.pins().len() as int);
    let test = fleet_model::on_the_move(s.preempted);
    let pin = placement_pins(s)[i];
    let child = s.child(pin.0);
    let n = s.filled().len() as int;
    let kept = s.surplus().filter(s.lingers());
    filled_is_in_order(s, s.desired());
    slots::node_of_is_the_pin(s.pins(), pin.0);
    if i < n {
        assert(s.placements()[i] == s.placement(pin));
        assert(s.node_for(s.filled()[i].0) == Some(s.filled()[i].1));
    } else {
        let far = fleet_model::beyond(s.desired());
        filter_keeps_order(s.pins(), far);
        filter_keeps_order(s.surplus(), s.lingers());
        assert(s.placements()[i] == s.surplus_placement(pin));
        assert(s.surplus().contains(kept[i - n]));
        let j = choose|j: int| 0 <= j < s.surplus().len() && s.surplus()[j] == pin;
        assert(s.pins().contains(s.surplus()[j]));
        let k = choose|k: int| 0 <= k < s.pins().len() && s.pins()[k] == pin;
        assert(s.pins()[k].0 == pin.0);
        assert(slots::node_of(s.pins(), pin.0) == Some(pin.1));
    }
    if i < n && s.slot_preempted(pin.0) {
        let k = pin_position(s, pin.0);
        assert(s.moved(k));
    } else {
        assert(s.previous_phase(child) == "Draining"@ || s.previous_phase(child) == "Preempted"@);
        assert("Pending"@ != "Preempted"@) by {
            reveal_strlit("Pending");
            reveal_strlit("Preempted");
            assert("Pending"@.len() == 7 && "Preempted"@.len() == 9);
        }
        let j = last_record_is_recorded(s.previous(), child);
        let r = s.previous()[j];
        assert(r.phase == "Draining"@);
        assert(slots::slot_of(child) == Some(pin.0));
        assert(!s.preempted.contains(r.node_ref));
        assert(test(r));
        let moving = s.previous().filter(test);
        assert(moving.contains(r));
        let m = choose|m: int| 0 <= m < moving.len() && moving[m] == r;
        assert(moving.map_values(service_name())[m] == child);
    }
}

/// The moves that the status counts are bounded as well: those that it says are under way are no
/// more than the bound that the fleet sets, unless more were under way already, and then no more
/// than those.
pub proof fn active_reschedules_are_bounded(p: FleetPlan, s: Situation)
    requires
        fleet_controller::plan_matches(p, s),
        records_are_current(s),
    ensures
        ({
            let cap = fleet_model::at_least_zero(
                s.fleet.spec.hysteresis.max_concurrent_reschedules as int,
            );
            p.status.active_reschedules <= (if s.in_flight() > cap {
                s.in_flight()
            } else {
                cap
            })
        }),
{
    let test = fleet_model::on_the_move(s.preempted);
    let all = s.placements();
    let names = all.map_values(service_name());
    let moving = all.filter(test);
    let started = moved_names(s, s.pins().len() as int);
    let before = s.previous().filter(test).map_values(service_name());
    placements_are_in_order(s);
    assert forall|i: int, j: int| 0 <= i < j < names.len() implies #[trigger] names[i]
        != #[trigger] names[j] by {
        assert(placement_pins(s)[i].0 < placement_pins(s)[j].0);
        assert(names[i] == all[i].vllm_service_ref && names[j] == all[j].vllm_service_ref);
    }
    filter_keeps_names(all, test);
    let listed = moving.map_values(service_name());
    let sources = started + before;
    assert forall|i: int| 0 <= i < listed.len() implies sources.contains(#[trigger] listed[i]) by {
        assert(all.contains(moving[i]));
        assert(test(moving[i]));
        let k = choose|k: int| 0 <= k < all.len() && all[k] == moving[i];
        moving_started_or_was_moving(s, k);
        let name = moving[i].vllm_service_ref;
        if started.contains(name) {
            let m = choose|m: int| 0 <= m < started.len() && started[m] == name;
            assert(sources[m] == name);
        } else {
            let m = choose|m: int| 0 <= m < before.len() && before[m] == name;
            assert(sources[started.len() + m] == name);
        }
    }
    names_fit(listed, sources);
    moved_names_are_the_moves(s, s.pins().len() as int);
    moves_are_bounded(s);
}

/// The names of the phases are different words.
pub proof fn phases_are_distinct()
    ensures
        "Draining"@ != "Rescheduling"@,
        "Draining"@ != "Ready"@,
        "Draining"@ != "Pending"@,
        "Draining"@ != "Warming"@,
        "Draining"@ != "Preempted"@,
        "Rescheduling"@ != "Ready"@,
        "Rescheduling"@ != "Pending"@,
        "Rescheduling"@ != "Warming"@,
        "Ready"@ != "Pending"@,
        "Ready"@ != "Warming"@,
        "Ready"@ != "Placing"@,
        "Ready"@ != "Degraded"@,
        "Pending"@ != "Warming"@,
        "Placing"@ != "Degraded"@,
{
    reveal_strlit("Draining");
    reveal_strlit("Rescheduling");
    reveal_strlit("Ready");
    reveal_strlit("Pending");
    reveal_strlit("Warming");
    reveal_strlit("Preempted");
    reveal_strlit("Placing");
    reveal_strlit("Degraded");
    assert("Draining"@[0] == 'D');
    assert("Rescheduling"@[0] == 'R' && "Rescheduling"@.len() == 12);
    assert("Ready"@[0] == 'R' && "Ready"@.len() == 5);
    assert("Pending"@[0] == 'P' && "Pending"@[1] == 'e');
    assert("Warming"@[0] == 'W');
    assert("Preempted"@[0] == 'P');
    assert("Placing"@[0] == 'P' && "Placing"@[1] == 'l');
    assert("Degraded"@[0] == 'D' && "Degraded"@[1] == 'e');
    assert("Draining"@[1] == 'r');
}

/// A notice takes priority: the placement drains, whatever its phase was and however ready its
/// service is.
pub proof fn preemption_takes_priority(current: Seq<char>, node_ready: bool)
    ensures
        fleet_types::next_placement_phase(current, node_ready, true) == "Draining"@,
{
}

/// A placement that drained is rescheduled once the notice is gone, and from there becomes ready
/// as soon as its service is.
pub proof fn draining_leads_back_to_ready(node_ready: bool)
    ensures
        fleet_types::next_placement_phase("Draining"@, node_ready, false) == "Rescheduling"@,
        fleet_types::next_placement_phase("Rescheduling"@, true, false) == "Ready"@,
{
    phases_are_distinct();
    reveal_strlit("Preempted");
    reveal_strlit("Rescheduling");
    assert("Preempted"@[0] == 'P' && "Rescheduling"@[0] == 'R');
}

/// A placement is called warming only when it was ready and its service no longer is: a new one
/// goes from pending straight to ready.
pub proof fn warming_comes_from_ready_only(current: Seq<char>, node_ready: bool, notice: bool)
    ensures
        fleet_types::next_placement_phase(current, node_ready, notice) == "Warming"@ <==> current
            == "Ready"@ && !node_ready && !notice,
{
    phases_are_distinct();
    reveal_strlit("Preempted");
    reveal_strlit("Ready");
    assert("Preempted"@[0] == 'P' && "Ready"@[0] == 'R');
}

/// The place of a slot among the filled ones.
pub proof fn filled_contains(s: Situation, n: int, slot: int) -> (k: int)
    requires
        0 <= slot < n,
        s.node_for(slot) is Some,
    ensures
        0 <= k < s.filled_below(n).len(),
        s.filled_below(n)[k] == (slot, s.node_for(slot)->0),
    decreases n,
{
    if slot == n - 1 {
        s.filled_below(n).len() - 1
    } else {
        filled_contains(s, n - 1, slot)
    }
}

/// The filled slots are in order, below the bound, and each has the node that it was given.
pub proof fn filled_is_in_order(s: Situation, n: int)
    requires
        0 <= n,
    ensures
        slots::ascending(s.filled_below(n)),
        s.filled_below(n).len() <= n,
        forall|k: int|
            0 <= k < s.filled_below(n).len() ==> 0 <= (#[trigger] s.filled_below(n)[k]).0 < n
                && s.node_for(s.filled_below(n)[k].0) == Some(s.filled_below(n)[k].1),
    decreases n,
{
    if n > 0 {
        filled_is_in_order(s, n - 1);
    }
}

/// A placement that is held on a node about to be taken away is shown: it drains where it is, and
/// the fleet is degraded.
pub proof fn holding_is_shown(s: Situation, slot: int)
    requires
        0 <= slot < s.desired(),
        s.slot_preempted(slot),
        s.node_for(slot) == slots::node_of(s.pins(), slot),
    ensures
        s.holds(),
        s.phase() == "Degraded"@,
{
    let k = filled_contains(s, s.desired(), slot);
    let pin = s.filled()[k];
    assert(s.placements()[k] == s.placement(pin));
    assert(fleet_model::held(s.placements()[k], s.preempted));
}

/// Where no reported node is healthy enough to go to, no placement moves: each is held.
pub proof fn without_a_target_nothing_moves(s: Situation, slot: int)
    requires
        slots::node_of(s.pins(), slot) is Some,
        forall|i: int|
            0 <= i < s.candidates.len() ==> s.preempted.contains(
                (#[trigger] s.candidates[i]).name@,
            ) || s.candidates[i].warmth == Warmth::Cold,
    ensures
        s.node_for(slot) == slots::node_of(s.pins(), slot),
{
    let k = pin_position(s, slot);
    let node = slots::node_of(s.pins(), slot)->0;
    placement_laws::no_replacement_when_none_is_healthy(
        s.healthy(),
        node,
        s.strategy(),
        s.horizon(),
    );
    assert forall|h: int| 0 <= h < s.healthy().len() implies (#[trigger] s.healthy()[h]).name@
        == node || s.healthy()[h].warmth == Warmth::Cold by {
        let i = healthy_is_a_candidate(s, h);
        assert(s.candidates[i].name@ == s.healthy()[h].name@);
    }
}

/// Every slot asked for gets a service, as long as some reported node is not about to be taken
/// away.
pub proof fn every_slot_is_filled(s: Situation, slot: int)
    requires
        0 <= slot < s.desired(),
        s.healthy().len() > 0,
    ensures
        s.node_for(slot) is Some,
{
    if slots::node_of(s.pins(), slot) is Some {
        let k = pin_position(s, slot);
    } else {
        settled_adds_no_slot(s, slot);
        fleet_planning::plan_fills_every_slot(
            s.healthy(),
            s.missing_below(s.desired()),
            s.strategy(),
            s.horizon(),
        );
        missing_grows(s, slot + 1, s.desired());
    }
}

pub proof fn missing_grows(s: Situation, a: int, b: int)
    requires
        a <= b,
    ensures
        s.missing_below(a) <= s.missing_below(b),
    decreases b - a,
{
    if a < b {
        missing_grows(s, a, b - 1);
    }
}

/// A placement that starts to move is on the move in the status that is written, where the next
/// reconcile finds it when it counts the moves under way.
pub proof fn started_moves_are_recorded(s: Situation, slot: int)
    requires
        0 <= slot < s.desired(),
        slots::node_of(s.pins(), slot) is Some,
        s.node_for(slot) != slots::node_of(s.pins(), slot),
    ensures
        exists|i: int|
            0 <= i < s.placements().len() && (#[trigger] s.placements()[i]).vllm_service_ref
                == s.child(slot) && s.placements()[i].node_ref == s.node_for(slot)->0
                && s.placements()[i].phase == "Draining"@ && fleet_model::on_the_move(s.preempted)(
                s.placements()[i],
            ),
{
    moves_go_to_healthy_nodes(s, slot);
    let k = filled_contains(s, s.desired(), slot);
    let pin = s.filled()[k];
    assert(s.placements()[k] == s.placement(pin));
    assert(fleet_model::on_the_move(s.preempted)(s.placements()[k]));
}

/// The three counts agree: the placements that are ready, being brought up, and on the move are
/// different ones, and no more than there are.
pub proof fn counts_are_disjoint(s: Situation)
    ensures
        s.ready_count() + s.warming_count() + s.moving_count() <= s.placements().len(),
{
    phases_are_distinct();
    let p = s.placements();
    disjoint_filters(
        p,
        fleet_model::is_ready(),
        fleet_model::is_warming(),
        fleet_model::on_the_move(s.preempted),
    );
}

proof fn disjoint_filters(
    p: Seq<PlacementView>,
    a: spec_fn(PlacementView) -> bool,
    b: spec_fn(PlacementView) -> bool,
    c: spec_fn(PlacementView) -> bool,
)
    requires
        forall|x: PlacementView| !(#[trigger] a(x) && b(x)),
        forall|x: PlacementView| !(#[trigger] b(x) && c(x)),
        forall|x: PlacementView| !(#[trigger] c(x) && a(x)),
    ensures
        p.filter(a).len() + p.filter(b).len() + p.filter(c).len() <= p.len(),
    decreases p.len(),
{
    reveal(Seq::filter);
    if p.len() > 0 {
        disjoint_filters(p.drop_last(), a, b, c);
    }
}

/// A placement that is asked for is not counted as surplus; while it stays on its node, what the
/// node was chosen on is kept once it was recorded.
pub proof fn records_in_range(s: Situation, pin: Pin)
    ensures
        s.placement(pin).surplus_reconciles == 0,
        s.keeps_pin(pin) && fleet_model::last_decision(s.previous(), s.child(pin.0)) is Some
            ==> s.placement(pin).decided_on == fleet_model::last_decision(
            s.previous(),
            s.child(pin.0),
        ),
{
}

/// A slot whose node is chosen in this reconcile, because it moves or because it is new, is recorded
/// with what is known of the chosen node now, whatever was recorded of the slot before.
pub proof fn chosen_now_is_recorded_now(s: Situation, slot: int)
    requires
        0 <= slot < s.desired(),
        s.node_for(slot) is Some,
        s.node_for(slot) != slots::node_of(s.pins(), slot),
    ensures
        exists|i: int|
            0 <= i < s.placements().len() && (#[trigger] s.placements()[i]).vllm_service_ref
                == s.child(slot) && s.placements()[i].node_ref == s.node_for(slot)->0
                && s.placements()[i].decided_on == fleet_model::decision(
                s.loaded(),
                s.node_for(slot)->0,
                s.strategy(),
                s.horizon(),
            ),
{
    let k = filled_contains(s, s.desired(), slot);
    assert(s.placements()[k] == s.placement(s.filled()[k]));
}

/// The surplus count of a placement that was surplus for `n` reconciles in a row.
pub open spec fn surplus_after(n: nat, required: int) -> (int, bool)
    decreases n,
{
    if n == 0 {
        (0, false)
    } else {
        fleet_types::surplus_step(surplus_after((n - 1) as nat, required).0, true, required)
    }
}

/// A surplus placement goes exactly when it was surplus for the required number of reconciles in a
/// row, and not before.
pub proof fn surplus_goes_after_required_reconciles(n: nat, required: int)
    requires
        0 < n <= i32::MAX,
    ensures
        surplus_after(n, required) == (n as int, n >= required),
    decreases n,
{
    if n > 1 {
        surplus_goes_after_required_reconciles((n - 1) as nat, required);
    } else {
        assert(surplus_after(0, required) == (0int, false));
    }
}

/// A placement that is asked for again starts counting afresh.
pub proof fn surplus_count_is_reset(previous: int, required: int)
    ensures
        fleet_types::surplus_step(previous, false, required) == (0int, false),
{
}

/// Only slots beyond those asked for are removed, and only when their time has come.
pub proof fn only_surplus_is_removed(s: Situation, i: int)
    requires
        0 <= i < s.removals().len(),
    ensures
        exists|k: int|
            0 <= k < s.pins().len() && (#[trigger] s.pins()[k]).0 >= s.desired()
                && s.surplus_outcome(s.pins()[k].0).1 && s.removals()[i] == s.child(s.pins()[k].0),
{
    let far = fleet_model::beyond(s.desired());
    let gone = s.surplus().filter(s.goes());
    let pin = gone[i];
    assert(s.goes()(pin));
    assert(gone.contains(pin));
    s.surplus().lemma_filter_contains_rev(s.goes(), pin);
    let j = choose|j: int| 0 <= j < s.surplus().len() && s.surplus()[j] == pin;
    assert(far(s.surplus()[j]));
    s.pins().lemma_filter_contains_rev(far, pin);
    let k = choose|k: int| 0 <= k < s.pins().len() && s.pins()[k] == pin;
    assert(s.pins()[k].0 >= s.desired());
}

/// A surplus slot is either still recorded or removed, and its record counts the reconcile.
pub proof fn surplus_is_recorded_or_removed(s: Situation, k: int)
    requires
        0 <= k < s.pins().len(),
        s.pins()[k].0 >= s.desired(),
    ensures
        ({
            let pin = s.pins()[k];
            if s.surplus_outcome(pin.0).1 {
                s.removals().contains(s.child(pin.0))
            } else {
                s.placements().contains(s.surplus_placement(pin))
            }
        }),
{
    let pin = s.pins()[k];
    let far = fleet_model::beyond(s.desired());
    assert(far(pin));
    assert(s.surplus().contains(pin));
    let j = choose|j: int| 0 <= j < s.surplus().len() && s.surplus()[j] == pin;
    if s.surplus_outcome(pin.0).1 {
        let gone = s.surplus().filter(s.goes());
        assert(s.goes()(s.surplus()[j]));
        assert(gone.contains(pin));
        let i = choose|i: int| 0 <= i < gone.len() && gone[i] == pin;
        assert(s.removals()[i] == s.child(pin.0));
    } else {
        let kept = s.surplus().filter(s.lingers());
        assert(s.lingers()(s.surplus()[j]));
        assert(kept.contains(pin));
        let i = choose|i: int| 0 <= i < kept.len() && kept[i] == pin;
        let front = s.filled().map_values(s.recorded());
        assert(s.placements()[front.len() + i] == s.surplus_placement(pin));
    }
}

/// What a filter keeps of an ascending list of pins is ascending, and was in the list.
pub proof fn filter_keeps_order(pins: Seq<Pin>, test: spec_fn(Pin) -> bool)
    requires
        slots::ascending(pins),
    ensures
        slots::ascending(pins.filter(test)),
        forall|i: int|
            0 <= i < pins.filter(test).len() ==> pins.contains(#[trigger] pins.filter(test)[i]),
    decreases pins.len(),
{
    reveal(Seq::filter);
    if pins.len() > 0 {
        let front = pins.drop_last();
        assert(slots::ascending(front));
        filter_keeps_order(front, test);
        let kept = front.filter(test);
        assert forall|i: int| 0 <= i < kept.len() implies (#[trigger] kept[i]).0 < pins.last().0
            && pins.contains(kept[i]) by {
            assert(front.contains(kept[i]));
            let j = choose|j: int| 0 <= j < front.len() && front[j] == kept[i];
            assert(pins[j] == kept[i]);
        }
        assert(pins.contains(pins.last())) by {
            assert(pins[pins.len() - 1] == pins.last());
        }
    }
}

/// The slots of the placements, in the order in which they are recorded.
pub open spec fn placement_pins(s: Situation) -> Seq<Pin> {
    s.filled() + s.surplus().filter(s.lingers())
}

/// The placements are recorded in order of slots, each slot once, under the names of their
/// services.
pub proof fn placements_are_in_order(s: Situation)
    ensures
        slots::ascending(placement_pins(s)),
        s.placements().len() == placement_pins(s).len(),
        forall|i: int|
            0 <= i < s.placements().len() ==> slots::slot_of(
                (#[trigger] s.placements()[i]).vllm_service_ref,
            ) == Some(placement_pins(s)[i].0) && s.placements()[i].node_ref
                == placement_pins(s)[i].1,
{
    let n = s.filled().len() as int;
    let far = fleet_model::beyond(s.desired());
    pins_are_in_order(s.children);
    filled_is_in_order(s, s.desired());
    filter_keeps_order(s.pins(), far);
    filter_keeps_order(s.surplus(), s.lingers());
    let kept = s.surplus().filter(s.lingers());
    let all = placement_pins(s);
    assert forall|i: int| 0 <= i < kept.len() implies s.desired() <= (#[trigger] kept[i]).0
        <= usize::MAX by {
        assert(s.surplus().contains(kept[i]));
        let j = choose|j: int| 0 <= j < s.surplus().len() && s.surplus()[j] == kept[i];
        assert(far(s.surplus()[j]));
        assert(s.pins().contains(s.surplus()[j]));
        let k = choose|k: int| 0 <= k < s.pins().len() && s.pins()[k] == kept[i];
        assert(s.pins()[k].0 <= usize::MAX);
    }
    assert forall|i: int, j: int| 0 <= i < j < all.len() implies (#[trigger] all[i]).0 < (
    #[trigger] all[j]).0 by {
        if j < n {
            assert(s.filled()[i].0 < s.filled()[j].0);
        } else if i < n {
            assert(s.filled()[i].0 < s.desired());
            assert(kept[j - n].0 >= s.desired());
        } else {
            assert(kept[i - n].0 < kept[j - n].0);
        }
    }
    assert forall|i: int| 0 <= i < s.placements().len() implies slots::slot_of(
        (#[trigger] s.placements()[i]).vllm_service_ref,
    ) == Some(all[i].0) && s.placements()[i].node_ref == all[i].1 by {
        let pin = all[i];
        if i < n {
            assert(s.filled()[i] == pin);
            assert(s.placements()[i] == s.placement(pin));
        } else {
            assert(kept[i - n] == pin);
            assert(s.placements()[i] == s.surplus_placement(pin));
        }
        assert(0 <= pin.0 <= usize::MAX);
        slots::child_name_leads_back(s.name(), pin.0 as usize);
    }
}

/// A fleet at rest stays at rest: where the pinned slots are exactly those asked for, and no node
/// of theirs is about to be taken away, every slot keeps its node and nothing is removed.
pub proof fn a_fleet_at_rest_stays(s: Situation)
    requires
        s.pins().len() == s.desired(),
        forall|i: int| 0 <= i < s.pins().len() ==> (#[trigger] s.pins()[i]).0 == i,
        forall|i: int|
            0 <= i < s.pins().len() ==> !s.preempted.contains((#[trigger] s.pins()[i]).1),
    ensures
        s.filled() == s.pins(),
        s.removals() == Seq::<Seq<char>>::empty(),
{
    rest_up_to(s, s.desired());
    assert(s.pins().take(s.desired()) == s.pins());
    if s.removals().len() > 0 {
        only_surplus_is_removed(s, 0);
    }
    assert(s.removals() =~= Seq::<Seq<char>>::empty());
}

proof fn rest_up_to(s: Situation, n: int)
    requires
        0 <= n <= s.pins().len(),
        forall|i: int| 0 <= i < s.pins().len() ==> (#[trigger] s.pins()[i]).0 == i,
        forall|i: int|
            0 <= i < s.pins().len() ==> !s.preempted.contains((#[trigger] s.pins()[i]).1),
    ensures
        s.filled_below(n) == s.pins().take(n),
    decreases n,
{
    if n > 0 {
        rest_up_to(s, n - 1);
        pins_are_in_order(s.children);
        slots::node_of_is_the_pin(s.pins(), n - 1);
        assert(s.pins()[n - 1].0 == n - 1);
        stable_pins_stay(s, n - 1);
        assert(s.pins().take(n) =~= s.pins().take(n - 1).push(s.pins()[n - 1]));
    } else {
        assert(s.filled_below(0) =~= s.pins().take(0));
    }
}

/// A replacement and a new slot see the load that the fleet itself has put on a node, even where
/// the node's reporter has not seen it.
pub proof fn own_load_is_seen(c: NodeCandidate, pins: Seq<Pin>)
    requires
        fleet_planning::service_count(c) + fleet_model::own_count(pins, c.name@) <= i32::MAX,
    ensures
        fleet_planning::service_count(fleet_model::with_own_load(c, pins))
            == fleet_planning::service_count(c) + fleet_model::own_count(pins, c.name@),
        fleet_model::own_count(pins, c.name@) == 0 ==> fleet_model::with_own_load(c, pins) == c,
{
}

/// There are no more placements than slots asked for and surplus slots.
pub proof fn placements_are_bounded(s: Situation)
    ensures
        s.placements().len() <= s.desired() + s.surplus().len(),
{
    filled_is_in_order(s, s.desired());
    s.surplus().lemma_filter_len(s.lingers());
}

/// There are no more pinned slots than slots asked for and surplus slots.
pub proof fn pins_are_bounded(s: Situation)
    ensures
        s.pins().len() <= s.desired() + s.surplus().len(),
{
    pins_are_in_order(s.children);
    pins_up_to(s, s.pins().len() as int);
    assert(s.pins().take(s.pins().len() as int) == s.pins());
}

proof fn pins_up_to(s: Situation, k: int)
    requires
        slots::ascending(s.pins()),
        forall|i: int| 0 <= i < s.pins().len() ==> 0 <= (#[trigger] s.pins()[i]).0,
        0 <= k <= s.pins().len(),
    ensures
        ({
            let n = s.pins().take(k).filter(fleet_model::beyond(s.desired())).len();
            &&& k <= s.desired() + n
            &&& k > 0 && s.pins()[k - 1].0 < s.desired() ==> k <= s.pins()[k - 1].0 + 1
        }),
    decreases k,
{
    let far = fleet_model::beyond(s.desired());
    if k > 0 {
        pins_up_to(s, k - 1);
        let seen = s.pins().take(k - 1);
        assert(s.pins().take(k) == seen.push(s.pins()[k - 1]));
        seen.lemma_filter_push(s.pins()[k - 1], far);
        if k > 1 {
            assert(s.pins()[k - 2].0 < s.pins()[k - 1].0);
        }
    }
}

/// A placement that is held uses up none of the bound on moves: a mass reclaim cannot block the
/// moves by the placements that it makes drain.
pub proof fn holding_uses_no_budget(p: PlacementView, preempted: Set<Seq<char>>)
    requires
        fleet_model::held(p, preempted),
    ensures
        !fleet_model::on_the_move(preempted)(p),
{
}

/// As long as the bound allows a move and some slot that is asked for can move, one does: a service
/// that is applied goes to another node than the one that its slot was pinned to.
pub proof fn a_move_starts_when_it_can(s: Situation, k: int)
    requires
        0 <= k < s.pins().len(),
        s.pins()[k].0 < s.desired(),
        s.movable(k),
        s.budget() > 0,
    ensures
        exists|i: int|
            0 <= i < s.filled().len() && slots::node_of(
                s.pins(),
                (#[trigger] s.filled()[i]).0,
            ) is Some && slots::node_of(s.pins(), s.filled()[i].0) != Some(s.filled()[i].1),
    decreases k,
{
    if s.movable_before(k) == 0 {
        let pin = s.pins()[k];
        assert(s.moved(k));
        pins_are_in_order(s.children);
        slots::node_of_is_the_pin(s.pins(), pin.0);
        let m = pin_position(s, pin.0);
        assert(m == k) by {
            assert(m < k ==> s.pins()[m].0 < s.pins()[k].0);
            assert(k < m ==> s.pins()[k].0 < s.pins()[m].0);
        }
        placement_laws::replacement_is_healthy(s.healthy(), pin.1, s.strategy(), s.horizon());
        let h = choose|h: int|
            0 <= h < s.healthy().len() && (#[trigger] s.healthy()[h]).name@
                == s.replacement_for(k)->0 && s.healthy()[h].warmth != Warmth::Cold;
        let c = healthy_is_a_candidate(s, h);
        let i = filled_contains(s, s.desired(), pin.0);
        assert(s.filled()[i].0 == pin.0);
    } else {
        let j = earlier_movable(s, k);
        pins_are_in_order(s.children);
        assert(s.pins()[j].0 < s.pins()[k].0);
        a_move_starts_when_it_can(s, j);
    }
}

proof fn earlier_movable(s: Situation, k: int) -> (j: int)
    requires
        0 <= k,
        s.movable_before(k) != 0,
    ensures
        0 <= j < k,
        s.movable(j),
    decreases k,
{
    if s.movable(k - 1) {
        k - 1
    } else {
        earlier_movable(s, k - 1)
    }
}

/// The services that a plan applies are pinned as the plan says: read back, they give the slots
/// and nodes that the plan filled.
pub proof fn applied_services_read_back(p: FleetPlan, s: Situation)
    requires
        fleet_controller::plan_matches(p, s),
    ensures
        fleet_model::pins_of(p.apply@) == s.filled(),
{
    applied_up_to(p, s, s.filled().len() as int);
    assert(p.apply@.take(p.apply@.len() as int) == p.apply@);
    assert(s.filled().take(s.filled().len() as int) == s.filled());
}

proof fn applied_up_to(p: FleetPlan, s: Situation, n: int)
    requires
        fleet_controller::plan_matches(p, s),
        0 <= n <= s.filled().len(),
    ensures
        fleet_model::pins_of(p.apply@.take(n)) == s.filled().take(n),
    decreases n,
{
    if n == 0 {
        assert(fleet_model::pins_of(p.apply@.take(0)) =~= s.filled().take(0));
    } else {
        applied_up_to(p, s, n - 1);
        filled_is_in_order(s, s.desired());
        let c = p.apply@[n - 1];
        let pin = s.filled()[n - 1];
        let front = s.filled().take(n - 1);
        assert(p.apply@.take(n).drop_last() == p.apply@.take(n - 1));
        assert(p.apply@.take(n).last() == c);
        assert(fleet_controller::is_owned_service(c, s.fleet, pin.0 as nat, pin.1));
        assert(0 <= pin.0 < s.desired());
        slots::child_name_leads_back(s.name(), pin.0 as usize);
        assert(c.metadata.any_name() == slots::child_name(s.name(), pin.0 as nat));
        assert(n > 1 ==> front.last().0 < pin.0);
        assert(fleet_model::pins_of(p.apply@.take(n)) == front.push(pin));
        assert(s.filled().take(n) =~= front.push(pin));
    }
}

/// A reconcile is idempotent: once a plan that fills every slot was applied, and as long as none of
/// its nodes is about to be taken away and no more or fewer slots are asked for, the next
/// reconcile fills the same slots with the same nodes and removes nothing, whatever else changed.
pub proof fn reconcile_is_idempotent(p: FleetPlan, s: Situation, next: Situation)
    requires
        fleet_controller::plan_matches(p, s),
        s.filled().len() == s.desired(),
        next.children == p.apply@,
        next.desired() == s.desired(),
        forall|i: int|
            0 <= i < s.filled().len() ==> !next.preempted.contains((#[trigger] s.filled()[i]).1),
    ensures
        next.filled() == s.filled(),
        next.removals() == Seq::<Seq<char>>::empty(),
{
    applied_services_read_back(p, s);
    filled_is_in_order(s, s.desired());
    full_means_each_slot(s, s.desired());
    assert forall|i: int| 0 <= i < next.pins().len() implies (#[trigger] next.pins()[i]).0
        == i by {
        assert(s.filled()[i].0 == i);
    }
    a_fleet_at_rest_stays(next);
}

/// Where as many slots are filled as there are, the filled ones are all of them in order.
proof fn full_means_each_slot(s: Situation, n: int)
    requires
        0 <= n,
        s.filled_below(n).len() == n,
    ensures
        forall|i: int| 0 <= i < n ==> (#[trigger] s.filled_below(n)[i]).0 == i,
    decreases n,
{
    if n > 0 {
        filled_is_in_order(s, n - 1);
        full_means_each_slot(s, n - 1);
    }
}

/// In a list in which no service is recorded twice, the last record of a service is its record, and
/// so is what it was decided on.
proof fn last_record_is_the_record(records: Seq<PlacementView>, i: int)
    requires
        0 <= i < records.len(),
        forall|a: int, b: int|
            0 <= a < b < records.len() ==> (#[trigger] records[a]).vllm_service_ref != (
            #[trigger] records[b]).vllm_service_ref,
    ensures
        fleet_model::last_record(records, records[i].vllm_service_ref) == Some(records[i]),
        fleet_model::last_decision(records, records[i].vllm_service_ref) == records[i].decided_on,
    decreases records.len(),
{
    let front = records.drop_last();
    if i < records.len() - 1 {
        assert(front[i] == records[i]);
        assert(records[i].vllm_service_ref != records.last().vllm_service_ref);
        last_record_is_the_record(front, i);
    } else {
        no_decision_without_record(front, records[i].vllm_service_ref);
    }
}

proof fn no_decision_without_record(records: Seq<PlacementView>, child: Seq<char>)
    requires
        forall|a: int|
            0 <= a < records.len() ==> (#[trigger] records[a]).vllm_service_ref != child,
    ensures
        fleet_model::last_decision(records, child) is None,
    decreases records.len(),
{
    if records.len() > 0 {
        assert(records[records.len() - 1].vllm_service_ref != child);
        no_decision_without_record(records.drop_last(), child);
    }
}

/// What a reconcile writes is what the next one reads: each placement is found in the phase, with
/// the count and on the grounds that were recorded, and the moves under way are those that the
/// status counts.
pub proof fn status_carries_over(p: FleetPlan, s: Situation, next: Situation, i: int)
    requires
        fleet_controller::plan_matches(p, s),
        next.fleet.status == Some(p.status),
        0 <= i < s.placements().len(),
    ensures
        next.previous() == s.placements(),
        next.preempted == s.preempted ==> next.in_flight() == p.status.active_reschedules,
        ({
            let child = s.placements()[i].vllm_service_ref;
            &&& next.previous_phase(child) == s.placements()[i].phase
            &&& next.previous_surplus(child) == s.placements()[i].surplus_reconciles
            &&& fleet_model::last_decision(next.previous(), child) == s.placements()[i].decided_on
        }),
{
    placements_are_in_order(s);
    let r = s.placements();
    assert forall|a: int, b: int| 0 <= a < b < r.len() implies (#[trigger] r[a]).vllm_service_ref
        != (#[trigger] r[b]).vllm_service_ref by {
        assert(placement_pins(s)[a].0 < placement_pins(s)[b].0);
    }
    last_record_is_the_record(r, i);
}

/// A surplus is counted over consecutive reconciles: a slot that was surplus and still is counts
/// one more, and a slot that was asked for in between starts at one.
pub proof fn surplus_counts_consecutive_reconciles(
    p: FleetPlan,
    s: Situation,
    next: Situation,
    i: int,
)
    requires
        fleet_controller::plan_matches(p, s),
        next.fleet.status == Some(p.status),
        next.name() == s.name(),
        0 <= i < s.placements().len(),
    ensures
        ({
            let slot = placement_pins(s)[i].0;
            next.surplus_outcome(slot) == fleet_types::surplus_step(
                if i < s.filled().len() {
                    0
                } else {
                    s.surplus_outcome(slot).0
                },
                true,
                next.fleet.spec.hysteresis.stable_reconciles_required as int,
            )
        }),
{
    status_carries_over(p, s, next, i);
    let pin = placement_pins(s)[i];
    if i < s.filled().len() {
        assert(s.placements()[i] == s.placement(pin));
    } else {
        assert(s.placements()[i] == s.surplus_placement(pin));
    }
}

/// Whether a slot has a service although it is not asked for.
pub open spec fn is_surplus(s: Situation, slot: int) -> bool {
    slot >= s.desired() && slots::node_of(s.pins(), slot) is Some
}

/// Whether the service of a slot is removed as surplus.
pub open spec fn is_removed(s: Situation, slot: int) -> bool {
    is_surplus(s, slot) && s.surplus_outcome(slot).1
}

/// A service is removed as surplus exactly if its name is among those to be removed.
pub proof fn removed_services_are_named(s: Situation, slot: int)
    requires
        0 <= slot <= usize::MAX,
    ensures
        is_removed(s, slot) <==> s.removals().contains(s.child(slot)),
{
    pins_are_in_order(s.children);
    slots::node_of_is_the_pin(s.pins(), slot);
    if is_removed(s, slot) {
        let k = choose|k: int|
            0 <= k < s.pins().len() && #[trigger] s.pins()[k] == (
                slot,
                slots::node_of(s.pins(), slot)->0,
            );
        surplus_is_recorded_or_removed(s, k);
    }
    if s.removals().contains(s.child(slot)) {
        let i = choose|i: int| 0 <= i < s.removals().len() && s.removals()[i] == s.child(slot);
        only_surplus_is_removed(s, i);
        let k = choose|k: int|
            0 <= k < s.pins().len() && (#[trigger] s.pins()[k]).0 >= s.desired()
                && s.surplus_outcome(s.pins()[k].0).1 && s.removals()[i] == s.child(s.pins()[k].0);
        assert(0 <= s.pins()[k].0 <= usize::MAX);
        slots::child_names_are_distinct(s.name(), slot as usize, s.pins()[k].0 as usize);
    }
}

/// Whether a list of situations is a run of reconciles of one fleet from its first on: each plan is
/// what its situation calls for, and each situation but the first finds the status that was written
/// before it. All else may change from one reconcile to the next.
pub open spec fn is_run(run: Seq<Situation>, plans: Seq<FleetPlan>) -> bool {
    &&& run.len() == plans.len()
    &&& forall|k: int|
        0 <= k < run.len() ==> fleet_controller::plan_matches(
            #[trigger] plans[k],
            run[k],
        )
    &&& run.len() > 0 ==> run[0].fleet.status is None
    &&& forall|k: int|
        0 < k < run.len() ==> (#[trigger] run[k]).fleet.status == Some(plans[k - 1].status)
            && run[k].name() == run[k - 1].name()
}

/// The number of reconciles in a row, up to the `k`-th, in which a slot was surplus and was not
/// removed before the `k`-th.
pub open spec fn surplus_streak(run: Seq<Situation>, slot: int, k: int) -> int
    decreases k,
{
    if k < 0 || !is_surplus(run[k], slot) {
        0
    } else if k > 0 && !is_removed(run[k - 1], slot) {
        surplus_streak(run, slot, k - 1) + 1
    } else {
        1
    }
}

/// What the next reconcile finds of a slot's surplus count: the count, if the slot was surplus and
/// stayed, and else nothing.
proof fn surplus_found_next(p: FleetPlan, s: Situation, next: Situation, slot: int)
    requires
        fleet_controller::plan_matches(p, s),
        next.fleet.status == Some(p.status),
        next.name() == s.name(),
        0 <= slot <= usize::MAX,
    ensures
        next.previous_surplus(next.child(slot)) == (if is_surplus(s, slot) && !is_removed(s, slot) {
            s.surplus_outcome(slot).0
        } else {
            0
        }),
{
    let child = s.child(slot);
    let r = s.placements();
    placements_are_in_order(s);
    pins_are_in_order(s.children);
    slots::child_name_leads_back(s.name(), slot as usize);
    assert(next.previous() == r);
    if is_surplus(s, slot) && !is_removed(s, slot) {
        slots::node_of_is_the_pin(s.pins(), slot);
        let k = choose|k: int|
            0 <= k < s.pins().len() && #[trigger] s.pins()[k] == (
                slot,
                slots::node_of(s.pins(), slot)->0,
            );
        surplus_is_recorded_or_removed(s, k);
        let i = choose|i: int| 0 <= i < r.len() && r[i] == s.surplus_placement(s.pins()[k]);
        status_carries_over(p, s, next, i);
    } else if exists|i: int| 0 <= i < r.len() && (#[trigger] r[i]).vllm_service_ref == child {
        let i = choose|i: int|
            0 <= i < r.len() && (#[trigger] r[i]).vllm_service_ref == child;
        status_carries_over(p, s, next, i);
        let pin = placement_pins(s)[i];
        assert(slots::slot_of(r[i].vllm_service_ref) == Some(pin.0));
        assert(pin.0 == slot);
        if i < s.filled().len() {
            assert(r[i] == s.placement(pin));
        } else {
            let far = fleet_model::beyond(s.desired());
            let kept = s.surplus().filter(s.lingers());
            let j = i - s.filled().len();
            assert(kept[j] == pin);
            assert(s.lingers()(kept[j]));
            assert(kept.contains(pin));
            s.surplus().lemma_filter_contains_rev(s.lingers(), pin);
            let m = choose|m: int| 0 <= m < s.surplus().len() && s.surplus()[m] == pin;
            assert(far(s.surplus()[m]));
            s.pins().lemma_filter_contains_rev(far, pin);
            let k = choose|k: int| 0 <= k < s.pins().len() && s.pins()[k] == pin;
            slots::node_of_is_the_pin(s.pins(), slot);
            assert(s.pins()[k].0 == slot);
        }
    } else {
        no_record_without_placement(r, child);
    }
}

proof fn no_record_without_placement(records: Seq<PlacementView>, child: Seq<char>)
    requires
        forall|i: int|
            0 <= i < records.len() ==> (#[trigger] records[i]).vllm_service_ref != child,
    ensures
        fleet_model::last_record(records, child) is None,
    decreases records.len(),
{
    if records.len() > 0 {
        assert(records[records.len() - 1].vllm_service_ref != child);
        no_record_without_placement(records.drop_last(), child);
    }
}

/// Over a whole run, the count of a surplus slot is the number of reconciles in a row for which it
/// has been surplus, as far as it can be counted.
pub proof fn surplus_count_is_the_streak(
    run: Seq<Situation>,
    plans: Seq<FleetPlan>,
    slot: int,
    k: int,
)
    requires
        is_run(run, plans),
        0 <= k < run.len(),
        0 <= slot <= usize::MAX,
        is_surplus(run[k], slot),
    ensures
        surplus_streak(run, slot, k) >= 1,
        run[k].surplus_outcome(slot).0 == (if surplus_streak(run, slot, k) <= i32::MAX {
            surplus_streak(run, slot, k)
        } else {
            i32::MAX as int
        }),
    decreases k,
{
    if k > 0 {
        assert(fleet_controller::plan_matches(plans[k - 1], run[k - 1]));
        surplus_found_next(plans[k - 1], run[k - 1], run[k], slot);
        if is_surplus(run[k - 1], slot) {
            surplus_count_is_the_streak(run, plans, slot, k - 1);
        } else {
            assert(surplus_streak(run, slot, k - 1) == 0);
        }
    } else {
        assert(fleet_model::last_record(run[0].previous(), run[0].child(slot)) is None);
    }
}

/// In every reconcile of a streak the slot was surplus.
proof fn surplus_throughout_the_streak(run: Seq<Situation>, slot: int, k: int, j: int)
    requires
        0 <= k,
        k - surplus_streak(run, slot, k) < j <= k,
    ensures
        0 <= j,
        is_surplus(run[j], slot),
        j < k ==> !is_removed(run[j], slot),
    decreases k,
{
    if j < k {
        surplus_throughout_the_streak(run, slot, k - 1, j);
    }
}

/// Over a whole run, a plan removes the service of a slot exactly when it is surplus and has been so
/// for the required number of reconciles in a row; so whenever it is removed, it was surplus in each
/// of the last that many reconciles.
pub proof fn removal_waits_for_the_required_reconciles(
    run: Seq<Situation>,
    plans: Seq<FleetPlan>,
    slot: int,
    k: int,
)
    requires
        is_run(run, plans),
        0 <= k < run.len(),
        0 <= slot <= usize::MAX,
    ensures
        ({
            let required = run[k].fleet.spec.hysteresis.stable_reconciles_required;
            &&& objects::texts_view(plans[k].remove@).contains(run[k].child(slot)) <==> is_removed(
                run[k],
                slot,
            )
            &&& is_removed(run[k], slot) <==> is_surplus(run[k], slot) && surplus_streak(
                run,
                slot,
                k,
            ) >= required
            &&& is_removed(run[k], slot) ==> required <= k + 1 && forall|j: int|
                k - required < j <= k ==> 0 <= j && is_surplus(#[trigger] run[j], slot)
        }),
{
    let required = run[k].fleet.spec.hysteresis.stable_reconciles_required;
    assert(fleet_controller::plan_matches(plans[k], run[k]));
    removed_services_are_named(run[k], slot);
    if is_surplus(run[k], slot) {
        surplus_count_is_the_streak(run, plans, slot, k);
        if is_removed(run[k], slot) {
            assert forall|j: int| k - required < j <= k implies 0 <= j && is_surplus(
                #[trigger] run[j],
                slot,
            ) by {
                surplus_throughout_the_streak(run, slot, k, j);
            }
            if required > 0 {
                surplus_throughout_the_streak(run, slot, k, k - required + 1);
            }
        }
    }
}

/// Some slot gets a service exactly if slots are asked for and either one of them is pinned or some
/// reported node is not about to be taken away.
pub proof fn some_slot_is_filled(s: Situation)
    ensures
        s.filled().len() > 0 <==> s.desired() > 0 && ((exists|k: int|
            0 <= k < s.pins().len() && (#[trigger] s.pins()[k]).0 < s.desired()) || (exists|i: int|
            0 <= i < s.candidates.len() && !s.preempted.contains(
                (#[trigger] s.candidates[i]).name@,
            ))),
{
    pins_are_in_order(s.children);
    filled_is_in_order(s, s.desired());
    if s.filled().len() > 0 {
        let pin = s.filled()[0];
        assert(0 <= pin.0 < s.desired());
        if slots::node_of(s.pins(), pin.0) is Some {
            let k = pin_position(s, pin.0);
            assert(s.pins()[k].0 < s.desired());
        } else {
            new_slots_avoid_preempted_nodes(s, pin.0);
        }
    }
    if s.desired() > 0 {
        if exists|k: int| 0 <= k < s.pins().len() && (#[trigger] s.pins()[k]).0 < s.desired() {
            let k = choose|k: int|
                0 <= k < s.pins().len() && (#[trigger] s.pins()[k]).0 < s.desired();
            let slot = s.pins()[k].0;
            slots::node_of_is_the_pin(s.pins(), slot);
            let m = pin_position(s, slot);
            let f = filled_contains(s, s.desired(), slot);
        } else if exists|i: int|
            0 <= i < s.candidates.len() && !s.preempted.contains(
                (#[trigger] s.candidates[i]).name@,
            ) {
            let i = choose|i: int|
                0 <= i < s.candidates.len() && !s.preempted.contains(
                    (#[trigger] s.candidates[i]).name@,
                );
            let test = fleet_model::stays(s.preempted);
            assert(s.loaded()[i].name@ == s.candidates[i].name@);
            assert(test(s.loaded()[i]));
            s.loaded().lemma_filter_contains(test, i);
            assert(s.healthy().len() > 0);
            every_slot_is_filled(s, 0);
            let f = filled_contains(s, s.desired(), 0);
        }
    }
}

/// Whether the services are found where the reconcile before recorded them.
pub open spec fn found_as_recorded(before: Situation, after: Situation) -> bool {
    forall|i: int|
        0 <= i < placement_pins(before).len() ==> slots::node_of(
            after.pins(),
            (#[trigger] placement_pins(before)[i]).0,
        ) == Some(placement_pins(before)[i].1)
}

/// Whether the `j`-th reconcile of a run finds the services where the one before recorded them, and
/// every node about to be taken away that was so then.
pub open spec fn goes_on_quietly(run: Seq<Situation>, j: int) -> bool {
    &&& found_as_recorded(run[j - 1], run[j])
    &&& run[j - 1].preempted.subset_of(run[j].preempted)
}

/// What a stricter test keeps of a list is no more.
proof fn stricter_keeps_fewer(
    p: Seq<PlacementView>,
    strict: spec_fn(PlacementView) -> bool,
    lax: spec_fn(PlacementView) -> bool,
)
    requires
        forall|x: PlacementView| #[trigger] strict(x) ==> lax(x),
    ensures
        p.filter(strict).len() <= p.filter(lax).len(),
    decreases p.len(),
{
    reveal(Seq::filter);
    if p.len() > 0 {
        stricter_keeps_fewer(p.drop_last(), strict, lax);
    }
}

/// What a reconcile recorded is up to date in the next one, and no more moves are under way then
/// than it counted.
proof fn records_stay_current(p: FleetPlan, before: Situation, s: Situation)
    requires
        fleet_controller::plan_matches(p, before),
        s.fleet.status == Some(p.status),
        found_as_recorded(before, s),
        before.preempted.subset_of(s.preempted),
    ensures
        records_are_current(s),
        s.in_flight() <= before.moving_count(),
{
    assert(s.previous() == before.placements());
    placements_are_in_order(before);
    no_reconcile_writes_preempted();
    stricter_keeps_fewer(
        before.placements(),
        fleet_model::on_the_move(s.preempted),
        fleet_model::on_the_move(before.preempted),
    );
    assert forall|i: int| 0 <= i < s.previous().len() implies {
        let r = #[trigger] s.previous()[i];
        &&& r.phase != "Preempted"@
        &&& fleet_model::held(r, s.preempted) ==> slots::slot_of(r.vllm_service_ref) is Some
            && slots::node_of(s.pins(), slots::slot_of(r.vllm_service_ref)->0) == Some(r.node_ref)
    } by {
        let pin = placement_pins(before)[i];
        assert(before.placements()[i].node_ref == pin.1);
        if i < before.filled().len() {
            assert(before.placements()[i] == before.placement(pin));
        } else {
            assert(before.placements()[i] == before.surplus_placement(pin));
        }
    }
}

/// Over a whole run, the moves that the status counts never exceed the bound: as long as the bound
/// stays what it is, the services are found where they were recorded, and no notice is withdrawn.
/// (Where one is, the placements that were held until then count as moves at once.)
pub proof fn active_reschedules_never_exceed_the_bound(
    run: Seq<Situation>,
    plans: Seq<FleetPlan>,
    cap: int,
    k: int,
)
    requires
        is_run(run, plans),
        0 <= k < run.len(),
        forall|j: int|
            0 <= j < run.len() ==> fleet_model::at_least_zero(
                (#[trigger] run[j]).fleet.spec.hysteresis.max_concurrent_reschedules as int,
            ) == cap,
        forall|j: int| 0 < j < run.len() ==> #[trigger] goes_on_quietly(run, j),
    ensures
        plans[k].status.active_reschedules <= cap,
    decreases k,
{
    let s = run[k];
    assert(fleet_controller::plan_matches(plans[k], s));
    if k == 0 {
        reveal(Seq::filter);
        assert(s.previous().len() == 0);
    } else {
        active_reschedules_never_exceed_the_bound(run, plans, cap, k - 1);
        assert(fleet_controller::plan_matches(plans[k - 1], run[k - 1]));
        assert(goes_on_quietly(run, k));
        records_stay_current(plans[k - 1], run[k - 1], s);
    }
    active_reschedules_are_bounded(plans[k], s);
}

proof fn no_reconcile_writes_preempted()
    ensures
        forall|current: Seq<char>, node_ready: bool, notice: bool| #[trigger]
            fleet_types::next_placement_phase(current, node_ready, notice) != "Preempted"@,
{
    reveal_strlit("Draining");
    reveal_strlit("Rescheduling");
    reveal_strlit("Ready");
    reveal_strlit("Warming");
    reveal_strlit("Pending");
    reveal_strlit("Preempted");
    assert("Preempted"@.len() == 9);
    assert("Draining"@.len() == 8 && "Rescheduling"@.len() == 12 && "Ready"@.len() == 5);
    assert("Warming"@.len() == 7 && "Pending"@.len() == 7);
}

} // verus!
