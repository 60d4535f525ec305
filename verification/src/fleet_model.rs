//! What a reconcile of a fleet amounts to, as a function of what was observed.
use crate::clock;
use crate::clock::Moment;
use crate::fleet_placement;
use crate::fleet_placement::NodeCandidate;
use crate::fleet_planning;
use crate::fleet_types;
use crate::fleet_types::{
    DecisionView, FleetService, NodeState, PlacementStrategy, PlacementView,
};
use crate::objects;
use crate::slots;
use crate::slots::Pin;
use crate::VllmService;
use vstd::prelude::*;

verus! {

/// Whether the candidate says what the node's reporter said of the node.
pub open spec fn candidate_matches(c: NodeCandidate, node: NodeState, now: Moment) -> bool {
    node.status is Some && {
        let st = node.status->0;
        &&& c.name@ == node.metadata.any_name()
        &&& c.warmth == st.warmth
        &&& c.gpu_utilization == st.gpu_utilization
        &&& c.active_service_count == st.active_service_count
        &&& c.kv_cache_hit_rate == st.kv_cache_hit_rate
        &&& c.kv_cache_hit_rate_age_secs == clock::stamp_age(
            objects::text_view(st.kv_cache_hit_rate_observed_at),
            now,
        )
        &&& c.tokens_per_joule == st.tokens_per_joule
        &&& c.tokens_per_joule_age_secs == clock::stamp_age(
            objects::text_view(st.tokens_per_joule_observed_at),
            now,
        )
    }
}

/// Which nodes have been reported on.
pub open spec fn reported() -> spec_fn(NodeState) -> bool {
    |n: NodeState| n.status is Some
}

/// Whether a node is about to be taken away.
pub open spec fn has_notice(n: NodeState) -> bool {
    n.status is Some && n.status->0.spot.preemption_notice_detected
}

/// The names of the nodes that are about to be taken away.
pub open spec fn noticed(states: Seq<NodeState>) -> Set<Seq<char>> {
    Set::new(
        |name: Seq<char>|
            exists|i: int|
                0 <= i < states.len() && has_notice(#[trigger] states[i])
                    && states[i].metadata.any_name() == name,
    )
}

/// The pins that a list of services amounts to. A service whose name names no slot, or that has no
/// node, counts for nothing; of several services for one slot the last counts.
pub open spec fn pins_of(children: Seq<VllmService>) -> Seq<Pin>
    decreases children.len(),
{
    if children.len() == 0 {
        Seq::empty()
    } else {
        let front = pins_of(children.drop_last());
        let c = children.last();
        match (slots::slot_of(c.metadata.any_name()), c.spec.node_name) {
            (Some(slot), Some(node)) => slots::pinned(front, slot, node@),
            _ => front,
        }
    }
}

/// Whether a service reports that it is ready.
pub open spec fn reports_ready(child: VllmService) -> bool {
    child.status is Some && child.status->0.phase@ == "Ready"@
}

/// Whether the service of the given name is there and ready.
pub open spec fn child_ready(children: Seq<VllmService>, name: Seq<char>) -> bool
    decreases children.len(),
{
    if children.len() == 0 {
        false
    } else if children.last().metadata.any_name() == name {
        reports_ready(children.last())
    } else {
        child_ready(children.drop_last(), name)
    }
}

/// What was last recorded of the placement of the given service.
pub open spec fn last_record(previous: Seq<PlacementView>, child: Seq<char>) -> Option<
    PlacementView,
>
    decreases previous.len(),
{
    if previous.len() == 0 {
        None
    } else if previous.last().vllm_service_ref == child {
        Some(previous.last())
    } else {
        last_record(previous.drop_last(), child)
    }
}

/// What the placement of the given service was last recorded to have been decided on.
pub open spec fn last_decision(previous: Seq<PlacementView>, child: Seq<char>) -> Option<
    DecisionView,
>
    decreases previous.len(),
{
    if previous.len() == 0 {
        None
    } else if previous.last().vllm_service_ref == child && previous.last().decided_on is Some {
        previous.last().decided_on
    } else {
        last_decision(previous.drop_last(), child)
    }
}

/// Whether a placement is on the move: draining or being rescheduled, on a node that stays. One
/// that drains on a node that is about to be taken away is held, not moved.
pub open spec fn on_the_move(preempted: Set<Seq<char>>) -> spec_fn(PlacementView) -> bool {
    |p: PlacementView|
        (p.phase == "Draining"@ || p.phase == "Rescheduling"@) && !preempted.contains(p.node_ref)
}

/// Whether a placement is held: draining on a node that is about to be taken away.
pub open spec fn held(p: PlacementView, preempted: Set<Seq<char>>) -> bool {
    p.phase == "Draining"@ && preempted.contains(p.node_ref)
}

/// Whether a placement is ready.
pub open spec fn is_ready() -> spec_fn(PlacementView) -> bool {
    |p: PlacementView| p.phase == "Ready"@
}

/// Whether a placement is being brought up.
pub open spec fn is_warming() -> spec_fn(PlacementView) -> bool {
    |p: PlacementView| p.phase == "Pending"@ || p.phase == "Warming"@
}

/// Whether a pin is to the given node.
pub open spec fn pinned_to(node: Seq<char>) -> spec_fn(Pin) -> bool {
    |p: Pin| p.1 == node
}

/// The number of slots that are pinned to a node.
pub open spec fn own_count(pins: Seq<Pin>, node: Seq<char>) -> nat {
    pins.filter(pinned_to(node)).len()
}

/// The number of slots that are pinned to each node that has any.
pub open spec fn own_counts(pins: Seq<Pin>) -> Map<Seq<char>, i32> {
    Map::new(
        |node: Seq<char>| own_count(pins, node) > 0,
        |node: Seq<char>| own_count(pins, node) as i32,
    )
}

/// The candidate with the services that the fleet itself has pinned to it added to its load. Where
/// there are none, an unmeasured load stays unmeasured.
pub open spec fn with_own_load(c: NodeCandidate, pins: Seq<Pin>) -> NodeCandidate {
    if own_count(pins, c.name@) > 0 {
        fleet_planning::with_services(c, own_count(pins, c.name@) as int)
    } else {
        c
    }
}

/// Adds the fleet's own load to a candidate.
pub open spec fn own_load_added(pins: Seq<Pin>) -> spec_fn(NodeCandidate) -> NodeCandidate {
    |c: NodeCandidate| with_own_load(c, pins)
}

/// Whether a candidate is not about to be taken away.
pub open spec fn stays(preempted: Set<Seq<char>>) -> spec_fn(NodeCandidate) -> bool {
    |c: NodeCandidate| !preempted.contains(c.name@)
}

/// Whether a slot is beyond those that are asked for.
pub open spec fn beyond(desired: int) -> spec_fn(Pin) -> bool {
    |p: Pin| p.0 >= desired
}

/// What the planner ranked a node on: its signals, as far as the horizon lets them through.
pub open spec fn decision(
    candidates: Seq<NodeCandidate>,
    node: Seq<char>,
    strategy: PlacementStrategy,
    horizon_secs: Option<i64>,
) -> Option<DecisionView> {
    if exists|i: int| fleet_planning::is_first_named(candidates, node, i) {
        let c = candidates[fleet_planning::first_named(candidates, node)];
        Some(
            DecisionView {
                strategy: strategy.spec_label(),
                warmth: Some(c.warmth.spec_label()),
                tokens_per_joule: fleet_placement::fresh(
                    c.tokens_per_joule,
                    c.tokens_per_joule_age_secs,
                    horizon_secs,
                ),
                kv_cache_hit_rate: fleet_placement::fresh(
                    c.kv_cache_hit_rate,
                    c.kv_cache_hit_rate_age_secs,
                    horizon_secs,
                ),
                gpu_utilization: c.gpu_utilization,
                active_service_count: c.active_service_count,
            },
        )
    } else {
        None
    }
}

/// `n`, or zero if it is negative.
pub open spec fn at_least_zero(n: int) -> int {
    if n < 0 {
        0
    } else {
        n
    }
}

/// What was observed when a fleet is reconciled: the fleet, the nodes that have been reported on,
/// the names of those about to be taken away, and the fleet's services.
pub ghost struct Situation {
    pub fleet: FleetService,
    pub candidates: Seq<NodeCandidate>,
    pub preempted: Set<Seq<char>>,
    pub children: Seq<VllmService>,
}

impl Situation {
    /// The fleet's name.
    pub open spec fn name(self) -> Seq<char> {
        self.fleet.metadata.any_name()
    }

    /// The number of slots asked for.
    pub open spec fn desired(self) -> int {
        at_least_zero(self.fleet.spec.replicas as int)
    }

    /// How the fleet chooses nodes.
    pub open spec fn strategy(self) -> PlacementStrategy {
        self.fleet.spec.placement.strategy
    }

    /// The age beyond which the fleet takes an efficiency signal for never observed.
    pub open spec fn horizon(self) -> Option<i64> {
        self.fleet.spec.placement.signal_max_age_seconds
    }

    /// The placements as the fleet last recorded them.
    pub open spec fn previous(self) -> Seq<PlacementView> {
        match self.fleet.status {
            Some(st) => fleet_types::placements_view(st.placements@),
            None => Seq::empty(),
        }
    }

    /// The pins of the fleet's services.
    pub open spec fn pins(self) -> Seq<Pin> {
        pins_of(self.children)
    }

    /// The candidates with the fleet's own load.
    pub open spec fn loaded(self) -> Seq<NodeCandidate> {
        self.candidates.map_values(own_load_added(self.pins()))
    }

    /// The candidates that a service may be put on.
    pub open spec fn healthy(self) -> Seq<NodeCandidate> {
        self.loaded().filter(stays(self.preempted))
    }

    /// The number of placements that were on the move already.
    pub open spec fn in_flight(self) -> int {
        self.previous().filter(on_the_move(self.preempted)).len() as int
    }

    /// The number of moves that may be started.
    pub open spec fn budget(self) -> int {
        at_least_zero(
            at_least_zero(self.fleet.spec.hysteresis.max_concurrent_reschedules as int)
                - self.in_flight(),
        )
    }

    /// Where the service of the `k`-th pin could go.
    pub open spec fn replacement_for(self, k: int) -> Option<Seq<char>> {
        fleet_placement::replacement(
            self.healthy(),
            self.pins()[k].1,
            self.strategy(),
            self.horizon(),
        )
    }

    /// Whether the `k`-th pin is to a node that is about to be taken away, and there is a node to go
    /// to.
    pub open spec fn movable(self, k: int) -> bool {
        self.preempted.contains(self.pins()[k].1) && self.replacement_for(k) is Some
    }

    /// The number of movable pins before the `k`-th.
    pub open spec fn movable_before(self, k: int) -> int
        decreases k,
    {
        if k <= 0 {
            0
        } else {
            self.movable_before(k - 1) + (if self.movable(k - 1) {
                1int
            } else {
                0
            })
        }
    }

    /// Whether the `k`-th pin moves: it is movable, and the moves of those before it leave some of
    /// the budget.
    pub open spec fn moved(self, k: int) -> bool {
        self.movable(k) && self.movable_before(k) < self.budget()
    }

    /// The `k`-th pin, once the moves are made.
    pub open spec fn settled_pin(self, k: int) -> Pin {
        (
            self.pins()[k].0,
            if self.moved(k) {
                self.replacement_for(k)->0
            } else {
                self.pins()[k].1
            },
        )
    }

    /// The pins, once the moves are made.
    pub open spec fn settled(self) -> Seq<Pin> {
        Seq::new(self.pins().len(), |k: int| self.settled_pin(k))
    }

    /// The number of slots below `slot` that are not pinned.
    pub open spec fn missing_below(self, slot: int) -> nat
        decreases slot,
    {
        if slot <= 0 {
            0
        } else {
            self.missing_below(slot - 1) + (if slots::node_of(self.pins(), slot - 1) is None {
                1nat
            } else {
                0
            })
        }
    }

    /// The nodes planned for the slots that are not pinned.
    pub open spec fn fresh_nodes(self) -> Seq<Seq<char>> {
        fleet_planning::plan(
            self.healthy(),
            self.missing_below(self.desired()),
            self.strategy(),
            self.horizon(),
        )
    }

    /// The node of a slot, if there is one for it.
    pub open spec fn node_for(self, slot: int) -> Option<Seq<char>> {
        match slots::node_of(self.settled(), slot) {
            Some(node) => Some(node),
            None => if self.missing_below(slot) < self.fresh_nodes().len() {
                Some(self.fresh_nodes()[self.missing_below(slot) as int])
            } else {
                None
            },
        }
    }

    /// The slots below `slot` that get a service, with their nodes.
    pub open spec fn filled_below(self, slot: int) -> Seq<Pin>
        decreases slot,
    {
        if slot <= 0 {
            Seq::empty()
        } else {
            match self.node_for(slot - 1) {
                Some(node) => self.filled_below(slot - 1).push((slot - 1, node)),
                None => self.filled_below(slot - 1),
            }
        }
    }

    /// The slots that get a service, with their nodes.
    pub open spec fn filled(self) -> Seq<Pin> {
        self.filled_below(self.desired())
    }

    /// The name of the service of a slot.
    pub open spec fn child(self, slot: int) -> Seq<char> {
        slots::child_name(self.name(), slot as nat)
    }

    /// The phase that the placement of a service was last recorded in.
    pub open spec fn previous_phase(self, child: Seq<char>) -> Seq<char> {
        match last_record(self.previous(), child) {
            Some(p) => p.phase,
            None => "Pending"@,
        }
    }

    /// The number of reconciles for which the placement of a service was recorded as surplus.
    pub open spec fn previous_surplus(self, child: Seq<char>) -> int {
        match last_record(self.previous(), child) {
            Some(p) => p.surplus_reconciles,
            None => 0,
        }
    }

    /// Whether a slot was pinned to a node that is about to be taken away.
    pub open spec fn slot_preempted(self, slot: int) -> bool {
        match slots::node_of(self.pins(), slot) {
            Some(node) => self.preempted.contains(node),
            None => false,
        }
    }

    /// Whether a slot stays on the node that it was pinned to.
    pub open spec fn keeps_pin(self, pin: Pin) -> bool {
        slots::node_of(self.pins(), pin.0) == Some(pin.1)
    }

    /// What the node of a slot was chosen on. A slot that stays where it was keeps what was recorded
    /// when its node was chosen; for a slot whose node is chosen now, or of which nothing was
    /// recorded, it is what is known of the node now.
    pub open spec fn grounds(self, pin: Pin) -> Option<DecisionView> {
        let recorded = last_decision(self.previous(), self.child(pin.0));
        if self.keeps_pin(pin) && recorded is Some {
            recorded
        } else {
            decision(self.loaded(), pin.1, self.strategy(), self.horizon())
        }
    }

    /// What is recorded of a slot that gets a service.
    pub open spec fn placement(self, pin: Pin) -> PlacementView {
        let child = self.child(pin.0);
        PlacementView {
            vllm_service_ref: child,
            node_ref: pin.1,
            phase: fleet_types::next_placement_phase(
                self.previous_phase(child),
                child_ready(self.children, child),
                self.slot_preempted(pin.0),
            ),
            last_transition_time: Seq::empty(),
            stable_since: Seq::empty(),
            surplus_reconciles: 0,
            decided_on: self.grounds(pin),
        }
    }

    /// What becomes of a slot beyond those asked for: its count of reconciles, and whether it goes.
    pub open spec fn surplus_outcome(self, slot: int) -> (int, bool) {
        fleet_types::surplus_step(
            self.previous_surplus(self.child(slot)),
            true,
            self.fleet.spec.hysteresis.stable_reconciles_required as int,
        )
    }

    /// What is recorded of a slot beyond those asked for that is still there.
    pub open spec fn surplus_placement(self, pin: Pin) -> PlacementView {
        let child = self.child(pin.0);
        PlacementView {
            vllm_service_ref: child,
            node_ref: pin.1,
            phase: fleet_types::next_placement_phase(
                self.previous_phase(child),
                child_ready(self.children, child),
                false,
            ),
            last_transition_time: Seq::empty(),
            stable_since: Seq::empty(),
            surplus_reconciles: self.surplus_outcome(pin.0).0,
            decided_on: last_decision(self.previous(), child),
        }
    }

    /// The pins of slots beyond those asked for.
    pub open spec fn surplus(self) -> Seq<Pin> {
        self.pins().filter(beyond(self.desired()))
    }

    /// Which surplus pins stay for now.
    pub open spec fn lingers(self) -> spec_fn(Pin) -> bool {
        |p: Pin| !self.surplus_outcome(p.0).1
    }

    /// Which surplus pins go.
    pub open spec fn goes(self) -> spec_fn(Pin) -> bool {
        |p: Pin| self.surplus_outcome(p.0).1
    }

    /// The record of a slot that gets a service.
    pub open spec fn recorded(self) -> spec_fn(Pin) -> PlacementView {
        |p: Pin| self.placement(p)
    }

    /// The record of a surplus slot that is still there.
    pub open spec fn surplus_recorded(self) -> spec_fn(Pin) -> PlacementView {
        |p: Pin| self.surplus_placement(p)
    }

    /// The name of the service of a pin.
    pub open spec fn child_of_pin(self) -> spec_fn(Pin) -> Seq<char> {
        |p: Pin| self.child(p.0)
    }

    /// The placements, as they are recorded.
    pub open spec fn placements(self) -> Seq<PlacementView> {
        self.filled().map_values(self.recorded()) + self.surplus().filter(
            self.lingers(),
        ).map_values(self.surplus_recorded())
    }

    /// The names of the services that are removed.
    pub open spec fn removals(self) -> Seq<Seq<char>> {
        self.surplus().filter(self.goes()).map_values(self.child_of_pin())
    }

    /// Whether some placement is held on a node that is about to be taken away.
    pub open spec fn holds(self) -> bool {
        exists|i: int|
            0 <= i < self.placements().len() && held(
                #[trigger] self.placements()[i],
                self.preempted,
            )
    }

    /// The number of placements that are ready.
    pub open spec fn ready_count(self) -> nat {
        self.placements().filter(is_ready()).len()
    }

    /// The number of placements that are being brought up.
    pub open spec fn warming_count(self) -> nat {
        self.placements().filter(is_warming()).len()
    }

    /// The number of placements that are on the move.
    pub open spec fn moving_count(self) -> nat {
        self.placements().filter(on_the_move(self.preempted)).len()
    }

    /// The phase of the fleet.
    pub open spec fn phase(self) -> Seq<char> {
        fleet_types::fleet_phase(
            self.fleet.spec.replicas as int,
            self.ready_count() as int,
            self.holds(),
        )
    }

    /// Whether all that has to be counted fits the numbers it is counted in.
    pub open spec fn countable(self) -> bool {
        &&& self.desired() + self.surplus().len() <= i32::MAX
        &&& forall|i: int|
            0 <= i < self.candidates.len() ==> own_count(
                self.pins(),
                (#[trigger] self.candidates[i]).name@,
            ) == 0 || fleet_planning::service_count(self.candidates[i]) + own_count(
                self.pins(),
                self.candidates[i].name@,
            ) <= i32::MAX
        &&& fleet_planning::plan_fits(
            self.healthy(),
            self.missing_below(self.desired()),
            self.strategy(),
            self.horizon(),
        )
    }
}

} // verus!
