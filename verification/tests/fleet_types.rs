use vllm_coldstart_operator::fleet_types::{
    default_gpu, default_health_path, default_max_concurrent_reschedules,
    default_max_spot_fraction, default_report_interval, default_stable_reconciles,
    fleet_phase_for, placement_phase_for, surplus_hysteresis, FleetServiceStatus,
    FleetServiceTemplate, HysteresisSpec, NodePoolSpec, NodeStateSpec, NodeStateStatus,
    PlacementSpec, PlacementStrategy, SpotStatus, Warmth,
};

#[test]
fn preemption_notice_forces_draining_even_if_warm() {
    assert_eq!(placement_phase_for("Ready", true, true), "Draining");
}

#[test]
fn draining_moves_to_rescheduling_next_reconcile() {
    assert_eq!(
        placement_phase_for("Draining", false, false),
        "Rescheduling"
    );
}

#[test]
fn preempted_moves_to_rescheduling() {
    assert_eq!(
        placement_phase_for("Preempted", false, false),
        "Rescheduling"
    );
}

#[test]
fn node_ready_reaches_ready_from_any_non_draining_phase() {
    assert_eq!(placement_phase_for("Pending", true, false), "Ready");
    assert_eq!(placement_phase_for("Rescheduling", true, false), "Ready");
}

#[test]
fn ready_drops_to_warming_when_node_not_ready() {
    assert_eq!(placement_phase_for("Ready", false, false), "Warming");
}

#[test]
fn unknown_or_pending_stays_pending_without_node_ready() {
    assert_eq!(placement_phase_for("Pending", false, false), "Pending");
    assert_eq!(placement_phase_for("Warming", false, false), "Pending");
}

#[test]
fn fleet_ready_when_all_desired_ready() {
    assert_eq!(fleet_phase_for(2, 2, false), "Ready");
}

#[test]
fn fleet_degraded_when_any_drain_and_hold() {
    assert_eq!(fleet_phase_for(2, 1, true), "Degraded");
    assert_eq!(fleet_phase_for(2, 2, true), "Degraded");
}

#[test]
fn fleet_placing_until_all_ready_and_vacuously_ready_at_zero() {
    assert_eq!(fleet_phase_for(2, 1, false), "Placing");
    assert_eq!(fleet_phase_for(0, 0, false), "Ready");
}

#[test]
fn surplus_is_removed_on_the_required_reconcile() {
    assert_eq!(surplus_hysteresis(0, true, 3), (1, false));
    assert_eq!(surplus_hysteresis(1, true, 3), (2, false));
    assert_eq!(surplus_hysteresis(2, true, 3), (3, true));
}

#[test]
fn surplus_count_starts_afresh_when_the_slot_is_wanted_again() {
    assert_eq!(surplus_hysteresis(2, false, 3), (0, false));
}

#[test]
fn surplus_count_does_not_run_over() {
    assert_eq!(
        surplus_hysteresis(i32::MAX, true, i32::MAX),
        (i32::MAX, true)
    );
}

#[test]
fn surplus_goes_at_once_when_no_wait_is_asked_for() {
    assert_eq!(surplus_hysteresis(0, true, 0), (1, true));
}

#[test]
fn defaults_are_those_of_the_schema() {
    assert_eq!(default_gpu(), 1);
    assert_eq!(default_health_path(), "/health");
    assert_eq!(f32::from_bits(default_max_spot_fraction().bits), 0.5);
    assert_eq!(default_stable_reconciles(), 3);
    assert_eq!(default_max_concurrent_reschedules(), 1);
    assert_eq!(default_report_interval(), 15);
    let h = HysteresisSpec::default();
    assert_eq!(h.stable_reconciles_required, 3);
    assert_eq!(h.max_concurrent_reschedules, 1);
    assert_eq!(NodeStateSpec::default().report_interval_seconds, 15);
    assert_eq!(
        PlacementSpec::default().strategy,
        PlacementStrategy::WarmthFirst
    );
    assert_eq!(PlacementSpec::default().signal_max_age_seconds, None);
    assert_eq!(Warmth::default(), Warmth::Cold);
}

#[test]
fn empty_values_are_empty() {
    let t = FleetServiceTemplate::default();
    assert_eq!(t.gpu, 0);
    assert!(t.image.is_empty() && t.health_path.is_empty() && t.extra_args.is_empty());
    let pool = NodePoolSpec::default();
    assert!(pool.selector.is_empty());
    assert!(!pool.spot_policy.enabled);
    let st = FleetServiceStatus::default();
    assert!(st.phase.is_empty() && st.placements.is_empty());
    assert_eq!(st.replicas, 0);
    let n = NodeStateStatus::default();
    assert_eq!(n.warmth, Warmth::Cold);
    assert_eq!(n.gpu_utilization, None);
    let spot = SpotStatus::default();
    assert!(!spot.preemption_notice_detected && spot.preemption_notice_time.is_empty());
}

#[test]
fn labels_are_the_names_of_the_variants() {
    assert_eq!(PlacementStrategy::WarmthFirst.label(), "WarmthFirst");
    assert_eq!(PlacementStrategy::Spread.label(), "Spread");
    assert_eq!(PlacementStrategy::BinPack.label(), "BinPack");
    assert_eq!(PlacementStrategy::EfficiencyAware.label(), "EfficiencyAware");
    assert_eq!(Warmth::Cold.label(), "Cold");
    assert_eq!(Warmth::Warming.label(), "Warming");
    assert_eq!(Warmth::Warm.label(), "Warm");
}
