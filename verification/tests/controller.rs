use std::collections::BTreeMap;
use vllm_coldstart_operator::clock::Moment;
use vllm_coldstart_operator::fleet_controller::{
    build_owned_vllm_service, child_selector, current_placements, decision_inputs,
    fleet_namespace, has_services_to_apply, healthy_candidates, is_countable, is_child_ready, moves_in_flight,
    node_state_to_candidate, observe_nodes, own_placements_per_node, plan_fleet, wakes,
    with_own_load, FleetError, FleetPlan, NodeObservation,
};
use vllm_coldstart_operator::fleet_placement::NodeCandidate;
use vllm_coldstart_operator::fleet_types::{
    FleetService, FleetServiceSpec, FleetServiceStatus, FleetServiceTemplate, HysteresisSpec,
    NodePoolSpec, NodeState, NodeStateSpec, NodeStateStatus, PlacementSpec, PlacementStatus,
    PlacementStrategy, Warmth,
};
use vllm_coldstart_operator::names::NameSet;
use vllm_coldstart_operator::objects::ObjectMeta;
use vllm_coldstart_operator::signal::Signal;
use vllm_coldstart_operator::slots::{child_name_of, entries_of, slot_index_of};
use vllm_coldstart_operator::{VllmService, VllmServiceSpec, VllmServiceStatus, WarmupStrategy};

fn signal(v: f32) -> Signal {
    Signal { bits: v.to_bits() }
}

fn meta(name: &str) -> ObjectMeta {
    ObjectMeta {
        name: Some(name.to_string()),
        generate_name: None,
        namespace: Some("default".to_string()),
        uid: Some("00000000-0000-0000-0000-000000000002".to_string()),
        labels: vec![],
        owner_references: vec![],
    }
}

fn cand(name: &str, tpj: Option<f32>, age: Option<i64>) -> NodeCandidate {
    NodeCandidate {
        name: name.to_string(),
        warmth: Warmth::Warm,
        gpu_utilization: Some(signal(42.0)),
        active_service_count: Some(1),
        kv_cache_hit_rate: Some(signal(0.5)),
        kv_cache_hit_rate_age_secs: age,
        tokens_per_joule: tpj.map(signal),
        tokens_per_joule_age_secs: age,
    }
}

fn fleet(replicas: i32) -> FleetService {
    FleetService {
        metadata: meta("rehearsal"),
        spec: FleetServiceSpec {
            model: "facebook/opt-125m".to_string(),
            replicas,
            template: FleetServiceTemplate {
                runtime_class_name: None,
                extra_args: vec![],
                gpu: 0,
                health_path: "/health".to_string(),
                image: "llmd-sim-rehearsal:v0.8.2".to_string(),
                model_cache_host_path: None,
            },
            node_pool: NodePoolSpec::default(),
            placement: PlacementSpec::default(),
            hysteresis: HysteresisSpec::default(),
        },
        status: None,
    }
}

fn child(name: &str, node: &str, phase: &str) -> VllmService {
    VllmService {
        metadata: meta(name),
        spec: VllmServiceSpec {
            model: "facebook/opt-125m".to_string(),
            replicas: 1,
            warmup_strategy: WarmupStrategy::Eager,
            image: "llmd-sim-rehearsal:v0.8.2".to_string(),
            gpu: 0,
            health_path: "/health".to_string(),
            runtime_class_name: None,
            extra_args: vec![],
            model_cache_host_path: None,
            node_name: Some(node.to_string()),
        },
        status: Some(VllmServiceStatus {
            phase: phase.to_string(),
            message: String::new(),
        }),
    }
}

fn nodes(list: &[(&str, Warmth, bool)]) -> NodeObservation {
    let mut preempted = NameSet::new();
    let mut candidates = vec![];
    for (name, warmth, notice) in list {
        let mut c = cand(name, None, None);
        c.warmth = *warmth;
        c.active_service_count = Some(0);
        candidates.push(c);
        if *notice {
            preempted.insert(name.to_string());
        }
    }
    NodeObservation {
        candidates,
        preempted,
    }
}

fn plan(f: &FleetService, n: &NodeObservation, children: &[VllmService]) -> FleetPlan {
    assert!(is_countable(f, n, children));
    plan_fleet(f, n, children)
        .expect("has a namespace")
        .expect("has candidates")
}

fn pins(p: &FleetPlan) -> Vec<(String, String)> {
    p.apply
        .iter()
        .map(|v| {
            (
                v.metadata.name.clone().unwrap(),
                v.spec.node_name.clone().unwrap(),
            )
        })
        .collect()
}

fn phases(p: &FleetPlan) -> Vec<&str> {
    p.status.placements.iter().map(|p| p.phase.as_str()).collect()
}

fn pin(slot: usize, node: &str) -> (String, String) {
    (format!("rehearsal-{slot}"), node.to_string())
}

#[test]
fn decision_inputs_record_what_the_planner_ranked_on() {
    let candidates = vec![cand("node-a", Some(9.5), Some(10))];
    let d = decision_inputs(
        &candidates,
        "node-a",
        &PlacementStrategy::EfficiencyAware,
        Some(600),
    )
    .expect("candidate exists");
    assert_eq!(d.tokens_per_joule, Some(signal(9.5)));
    assert_eq!(d.gpu_utilization, Some(signal(42.0)));
    assert!(d.strategy.contains("EfficiencyAware"));
    assert_eq!(d.warmth.as_deref(), Some("Warm"));
    assert_eq!(d.active_service_count, Some(1));
}

#[test]
fn decision_inputs_report_an_expired_signal_as_absent() {
    let candidates = vec![cand("node-a", Some(9.5), Some(3600))];
    let d = decision_inputs(
        &candidates,
        "node-a",
        &PlacementStrategy::EfficiencyAware,
        Some(60),
    )
    .unwrap();
    assert_eq!(d.tokens_per_joule, None);
    assert_eq!(d.kv_cache_hit_rate, None);
    assert_eq!(d.gpu_utilization, Some(signal(42.0)));
}

#[test]
fn decision_inputs_none_for_an_unknown_node() {
    let candidates = vec![cand("node-a", Some(1.0), Some(0))];
    assert!(decision_inputs(
        &candidates,
        "node-gone",
        &PlacementStrategy::WarmthFirst,
        None
    )
    .is_none());
}

#[test]
fn own_placements_counted_per_node() {
    let mut current = BTreeMap::new();
    current.insert(0, "node-a".to_string());
    current.insert(1, "node-a".to_string());
    current.insert(2, "node-b".to_string());
    let counts = own_placements_per_node(&current);
    assert_eq!(counts.get("node-a"), Some(2));
    assert_eq!(counts.get("node-b"), Some(1));
    assert_eq!(counts.get("node-c"), None);
}

#[test]
fn owned_child_carries_template_image_and_pinned_node() {
    let child = build_owned_vllm_service(&fleet(2), 0, "fleet-test-worker").expect("child");
    assert_eq!(child.spec.image, "llmd-sim-rehearsal:v0.8.2");
    assert_eq!(child.spec.node_name.as_deref(), Some("fleet-test-worker"));
    assert_eq!(child.metadata.name.as_deref(), Some("rehearsal-0"));
    assert_eq!(child.spec.model, "facebook/opt-125m");
    assert_eq!(child.spec.replicas, 1);
    assert_eq!(child.metadata.namespace.as_deref(), Some("default"));
    assert_eq!(
        child.metadata.labels,
        vec![
            (
                "app.kubernetes.io/managed-by".to_string(),
                "fleet-controller".to_string()
            ),
            (
                "inference.michelecampi.dev/fleet".to_string(),
                "rehearsal".to_string()
            ),
        ]
    );
    let owner = &child.metadata.owner_references[0];
    assert_eq!(owner.kind, "FleetService");
    assert_eq!(owner.uid, "00000000-0000-0000-0000-000000000002");
}

#[test]
fn a_fleet_without_a_namespace_is_refused() {
    let mut f = fleet(1);
    f.metadata.namespace = None;
    let n = nodes(&[("a", Warmth::Warm, false)]);
    assert_eq!(plan_fleet(&f, &n, &[]).err(), Some(FleetError::MissingNamespace));
    assert_eq!(
        build_owned_vllm_service(&f, 0, "a").err(),
        Some(FleetError::MissingNamespace)
    );
    assert_eq!(fleet_namespace(&f), Err(FleetError::MissingNamespace));
    assert_eq!(fleet_namespace(&fleet(1)), Ok("default".to_string()));
    assert_eq!(FleetError::MissingNamespace.metric_label(), "missing_namespace");
    assert_eq!(FleetError::Kube.metric_label(), "kube");
}

#[test]
fn without_reported_nodes_nothing_is_touched() {
    let n = nodes(&[]);
    assert!(plan_fleet(&fleet(3), &n, &[child("rehearsal-9", "x", "Ready")])
        .unwrap()
        .is_none());
}

#[test]
fn new_slots_are_spread_and_recorded() {
    let n = nodes(&[("a", Warmth::Warm, false), ("b", Warmth::Warm, false)]);
    let p = plan(&fleet(2), &n, &[]);
    assert_eq!(pins(&p), vec![pin(0, "b"), pin(1, "a")]);
    assert_eq!(phases(&p), vec!["Pending", "Pending"]);
    assert!(p.remove.is_empty());
    assert_eq!(p.status.phase, "Placing");
    assert_eq!(p.status.replicas, 2);
    assert_eq!(p.status.warming_replicas, 2);
    assert_eq!(p.status.ready_replicas, 0);
    assert_eq!(p.status.desired_replicas, 2);
    let d = p.status.placements[0].decided_on.as_ref().unwrap();
    assert_eq!(d.strategy, "WarmthFirst");
}

#[test]
fn pins_do_not_move_for_warmth() {
    let n = nodes(&[("a", Warmth::Cold, false), ("b", Warmth::Warm, false)]);
    let p = plan(
        &fleet(1),
        &n,
        &[child("rehearsal-0", "a", "Ready")],
    );
    assert_eq!(pins(&p), vec![pin(0, "a")]);
    assert_eq!(phases(&p), vec!["Ready"]);
    assert_eq!(p.status.phase, "Ready");
}

#[test]
fn a_pin_to_a_node_that_is_not_reported_stays() {
    let n = nodes(&[("b", Warmth::Warm, false)]);
    let p = plan(&fleet(1), &n, &[child("rehearsal-0", "gone", "Ready")]);
    assert_eq!(pins(&p), vec![pin(0, "gone")]);
    assert!(p.status.placements[0].decided_on.is_none());
}

#[test]
fn a_preempted_pin_moves_within_the_bound() {
    let n = nodes(&[
        ("a", Warmth::Warm, true),
        ("b", Warmth::Warm, false),
    ]);
    let children = [
        child("rehearsal-0", "a", "Ready"),
        child("rehearsal-1", "a", "Ready"),
    ];
    let p = plan(&fleet(2), &n, &children);
    assert_eq!(pins(&p), vec![pin(0, "b"), pin(1, "a")]);
    assert_eq!(phases(&p), vec!["Draining", "Draining"]);
    assert_eq!(p.status.active_reschedules, 1);
    assert_eq!(p.status.phase, "Degraded");

    let mut wide = fleet(2);
    wide.spec.hysteresis.max_concurrent_reschedules = 2;
    let p = plan(&wide, &n, &children);
    assert_eq!(pins(&p), vec![pin(0, "b"), pin(1, "b")]);
    assert_eq!(p.status.active_reschedules, 2);
    assert_eq!(p.status.phase, "Placing");
}

#[test]
fn moves_under_way_use_up_the_bound() {
    let n = nodes(&[
        ("a", Warmth::Warm, true),
        ("b", Warmth::Warm, false),
        ("c", Warmth::Warm, false),
    ]);
    let mut f = fleet(2);
    f.status = Some(FleetServiceStatus {
        placements: vec![record("rehearsal-1", "c", "Draining", 0)],
        ..FleetServiceStatus::default()
    });
    let children = [
        child("rehearsal-0", "a", "Ready"),
        child("rehearsal-1", "c", "Warming"),
    ];
    let p = plan(&f, &n, &children);
    assert_eq!(pins(&p), vec![pin(0, "a"), pin(1, "c")]);
    assert_eq!(phases(&p), vec!["Draining", "Rescheduling"]);
    assert_eq!(p.status.active_reschedules, 1);
}

fn record(child: &str, node: &str, phase: &str, surplus: i32) -> PlacementStatus {
    PlacementStatus {
        vllm_service_ref: child.to_string(),
        node_ref: node.to_string(),
        phase: phase.to_string(),
        last_transition_time: String::new(),
        stable_since: String::new(),
        surplus_reconciles: surplus,
        decided_on: None,
    }
}

#[test]
fn a_preempted_pin_is_held_when_only_cold_nodes_are_left() {
    let n = nodes(&[("a", Warmth::Warm, true), ("b", Warmth::Cold, false)]);
    let p = plan(&fleet(1), &n, &[child("rehearsal-0", "a", "Ready")]);
    assert_eq!(pins(&p), vec![pin(0, "a")]);
    assert_eq!(phases(&p), vec!["Draining"]);
    assert_eq!(p.status.active_reschedules, 0);
    assert_eq!(p.status.phase, "Degraded");
}

#[test]
fn new_slots_avoid_nodes_about_to_be_taken_away() {
    let n = nodes(&[("a", Warmth::Warm, true), ("b", Warmth::Cold, false)]);
    let p = plan(&fleet(2), &n, &[]);
    assert_eq!(pins(&p), vec![pin(0, "b"), pin(1, "b")]);
    let all = nodes(&[("a", Warmth::Warm, true)]);
    let p = plan(&fleet(2), &all, &[]);
    assert!(p.apply.is_empty());
    assert_eq!(p.status.replicas, 0);
    assert_eq!(p.status.phase, "Placing");
}

#[test]
fn own_load_steers_new_slots_to_the_free_node() {
    let n = nodes(&[("a", Warmth::Warm, false), ("b", Warmth::Warm, false)]);
    let p = plan(&fleet(2), &n, &[child("rehearsal-0", "b", "Ready")]);
    assert_eq!(pins(&p), vec![pin(0, "b"), pin(1, "a")]);
}

#[test]
fn surplus_waits_and_then_goes() {
    let n = nodes(&[("a", Warmth::Warm, false)]);
    let children = [
        child("rehearsal-0", "a", "Ready"),
        child("rehearsal-10", "a", "Ready"),
        child("rehearsal-2", "a", "Warming"),
    ];
    let mut f = fleet(1);
    let p = plan(&f, &n, &children);
    assert!(p.remove.is_empty());
    let names: Vec<&str> = p
        .status
        .placements
        .iter()
        .map(|p| p.vllm_service_ref.as_str())
        .collect();
    assert_eq!(names, vec!["rehearsal-0", "rehearsal-2", "rehearsal-10"]);
    let counts: Vec<i32> = p
        .status
        .placements
        .iter()
        .map(|p| p.surplus_reconciles)
        .collect();
    assert_eq!(counts, vec![0, 1, 1]);
    assert_eq!(p.status.replicas, 3);
    assert_eq!(p.status.ready_replicas, 2);

    f.status = Some(FleetServiceStatus {
        placements: vec![
            record("rehearsal-2", "a", "Ready", 2),
            record("rehearsal-10", "a", "Ready", 1),
        ],
        ..FleetServiceStatus::default()
    });
    let p = plan(&f, &n, &children);
    assert_eq!(p.remove, vec!["rehearsal-2".to_string()]);
    assert_eq!(p.status.replicas, 2);
    assert_eq!(p.status.placements[1].surplus_reconciles, 2);
}

#[test]
fn the_record_of_a_decision_is_kept() {
    let n = nodes(&[("a", Warmth::Warm, false)]);
    let first = plan(&fleet(1), &n, &[]);
    let mut f = fleet(1);
    f.status = Some(first.status);
    let mut later = nodes(&[("a", Warmth::Cold, false)]);
    later.candidates[0].gpu_utilization = Some(signal(7.0));
    let p = plan(&f, &later, &[child("rehearsal-0", "a", "Ready")]);
    let d = p.status.placements[0].decided_on.as_ref().unwrap();
    assert_eq!(d.warmth.as_deref(), Some("Warm"));
    assert_eq!(d.gpu_utilization, Some(signal(42.0)));
}

#[test]
fn a_fleet_at_rest_is_left_alone() {
    let n = nodes(&[("a", Warmth::Warm, false), ("b", Warmth::Warm, false)]);
    let children = [
        child("rehearsal-0", "a", "Ready"),
        child("rehearsal-1", "a", "Ready"),
    ];
    let p = plan(&fleet(2), &n, &children);
    assert_eq!(pins(&p), vec![pin(0, "a"), pin(1, "a")]);
    assert!(p.remove.is_empty());
    assert_eq!(p.status.phase, "Ready");
}

#[test]
fn counts_that_would_run_over_are_found() {
    let mut n = nodes(&[("a", Warmth::Warm, false)]);
    n.candidates[0].active_service_count = Some(i32::MAX - 1);
    assert!(is_countable(&fleet(1), &n, &[]));
    assert!(!is_countable(&fleet(2), &n, &[]));
    assert!(is_countable(&fleet(1), &n, &[child("rehearsal-0", "a", "Ready")]));
    assert!(!is_countable(&fleet(2), &n, &[child("rehearsal-0", "a", "Ready")]));
    let two = [
        child("rehearsal-0", "a", "Ready"),
        child("rehearsal-1", "a", "Ready"),
    ];
    assert!(!is_countable(&fleet(2), &n, &two));
    let far = format!("rehearsal-{}", i32::MAX);
    assert!(!is_countable(&fleet(i32::MAX), &n, &[child(&far, "b", "Ready")]));
    assert!(is_countable(&fleet(0), &n, &[child(&far, "b", "Ready")]));
}

#[test]
fn unmeasured_load_stays_unmeasured_without_own_services() {
    let mut a = cand("a", None, None);
    a.active_service_count = None;
    let mut b = cand("b", None, None);
    b.active_service_count = None;
    let mut current = BTreeMap::new();
    current.insert(4, "b".to_string());
    let out = with_own_load(&[a, b], &current);
    assert_eq!(out[0].active_service_count, None);
    assert_eq!(out[1].active_service_count, Some(1));
}

#[test]
fn helpers_read_services_and_records() {
    let children = [
        child("rehearsal-0", "a", "Ready"),
        child("rehearsal-x", "b", "Ready"),
        child("rehearsal-0", "c", "Warming"),
    ];
    let m = current_placements(&children);
    assert_eq!(m.len(), 1);
    assert_eq!(m.get(&0).map(|s| s.as_str()), Some("c"));
    assert!(!is_child_ready(&children, "rehearsal-0"));
    assert!(is_child_ready(&children, "rehearsal-x"));
    assert!(!is_child_ready(&children, "rehearsal-7"));
    let mut gone = NameSet::new();
    gone.insert("a".to_string());
    let list = [
        record("r-0", "a", "Draining", 0),
        record("r-1", "b", "Draining", 0),
        record("r-2", "b", "Rescheduling", 0),
        record("r-3", "b", "Ready", 0),
    ];
    assert_eq!(moves_in_flight(&list, &gone), 2);
    let healthy = healthy_candidates(&[cand("a", None, None), cand("b", None, None)], &gone);
    assert_eq!(healthy.len(), 1);
    assert_eq!(healthy[0].name, "b");
    assert_eq!(child_selector("f"), "inference.michelecampi.dev/fleet=f");
}

#[test]
fn a_node_wakes_the_fleets_of_its_namespace() {
    let a = meta("a");
    let mut b = meta("b");
    assert!(wakes(&a, &b));
    b.namespace = Some("other".to_string());
    assert!(!wakes(&a, &b));
    b.namespace = None;
    assert!(!wakes(&a, &b));
}

fn state(name: &str, hit_at: Option<&str>, notice: bool) -> NodeState {
    let mut status = NodeStateStatus::default();
    status.warmth = Warmth::Warm;
    status.kv_cache_hit_rate = Some(signal(0.5));
    status.kv_cache_hit_rate_observed_at = hit_at.map(|t| t.to_string());
    status.tokens_per_joule_observed_at = Some("not a time".to_string());
    status.spot.preemption_notice_detected = notice;
    NodeState {
        metadata: meta(name),
        spec: NodeStateSpec::default(),
        status: Some(status),
    }
}

#[test]
fn reports_become_candidates() {
    // 2026-07-04T10:00:00Z
    let now = Moment::new(1_783_159_200, 0).unwrap();
    let mut silent = state("silent", None, true);
    silent.status = None;
    let states = [
        state("a", Some("2026-07-04T09:59:00+00:00"), false),
        silent,
        state("b", Some("2026-07-04T12:00:30.5+02:00"), true),
    ];
    let o = observe_nodes(&states, &now);
    assert_eq!(o.candidates.len(), 2);
    assert_eq!(o.candidates[0].name, "a");
    assert_eq!(o.candidates[0].kv_cache_hit_rate_age_secs, Some(60));
    assert_eq!(o.candidates[0].tokens_per_joule_age_secs, None);
    assert_eq!(o.candidates[1].kv_cache_hit_rate_age_secs, Some(-30));
    assert!(o.preempted.contains("b"));
    assert!(!o.preempted.contains("a"));
    assert!(!o.preempted.contains("silent"));
    assert!(node_state_to_candidate(&states[1], &now).is_none());
}

#[test]
fn child_names_lead_back_to_slots() {
    for slot in [0usize, 7, 10, 12345, usize::MAX] {
        let name = child_name_of("a-1-b", slot);
        assert_eq!(name, format!("a-1-b-{slot}"));
        assert_eq!(slot_index_of(&name), Some(slot));
    }
    assert_eq!(slot_index_of("fleet"), None);
    assert_eq!(slot_index_of("fleet-"), None);
    assert_eq!(slot_index_of("fleet-x"), None);
    assert_eq!(slot_index_of("fleet-+3"), Some(3));
    assert_eq!(slot_index_of("fleet-007"), Some(7));
    assert_eq!(slot_index_of("fleet-99999999999999999999"), None);
}

#[test]
fn slots_are_kept_in_order() {
    let mut m = BTreeMap::new();
    for (slot, node) in [(5, "x"), (1, "y"), (9, "z"), (5, "w"), (0, "v")] {
        m.insert(slot, node.to_string());
    }
    let all: Vec<(usize, &str)> = entries_of(&m).iter().map(|(s, n)| (*s, n.as_str())).collect();
    assert_eq!(all, vec![(0, "v"), (1, "y"), (5, "w"), (9, "z")]);
}

fn reconciled(f: &FleetService, p: &FleetPlan) -> FleetService {
    let mut next = f.clone();
    next.status = Some(p.status.clone());
    next
}

#[test]
fn a_second_reconcile_changes_nothing() {
    let n = nodes(&[
        ("a", Warmth::Warm, false),
        ("b", Warmth::Warming, false),
        ("c", Warmth::Warm, false),
    ]);
    let first = plan(&fleet(4), &n, &[]);
    let mut other = nodes(&[("a", Warmth::Cold, false), ("z", Warmth::Warm, false)]);
    other.candidates[1].active_service_count = None;
    let second = plan(&reconciled(&fleet(4), &first), &other, &first.apply);
    assert_eq!(pins(&second), pins(&first));
    assert!(second.remove.is_empty());
}

#[test]
fn surplus_goes_after_three_reconciles_in_a_row() {
    let n = nodes(&[("a", Warmth::Warm, false)]);
    let children = [
        child("rehearsal-0", "a", "Ready"),
        child("rehearsal-1", "a", "Ready"),
    ];
    let mut f = fleet(1);
    for expected in [1, 2] {
        let p = plan(&f, &n, &children);
        assert!(p.remove.is_empty());
        assert_eq!(p.status.placements[1].surplus_reconciles, expected);
        f = reconciled(&f, &p);
    }
    let gone = plan(&f, &n, &children);
    assert_eq!(gone.remove, vec!["rehearsal-1".to_string()]);

    // Asked for again in between, the slot starts counting afresh.
    f.spec.replicas = 2;
    let wanted = plan(&f, &n, &children);
    assert_eq!(wanted.status.placements[1].surplus_reconciles, 0);
    f = reconciled(&f, &wanted);
    f.spec.replicas = 1;
    let p = plan(&f, &n, &children);
    assert!(p.remove.is_empty());
    assert_eq!(p.status.placements[1].surplus_reconciles, 1);
}

#[test]
fn a_reclaim_is_worked_off_one_move_at_a_time() {
    let n = nodes(&[
        ("a", Warmth::Warm, true),
        ("b", Warmth::Warm, false),
        ("c", Warmth::Warm, false),
    ]);
    let children = [
        child("rehearsal-0", "a", "Ready"),
        child("rehearsal-1", "a", "Ready"),
    ];
    let f = fleet(2);
    let first = plan(&f, &n, &children);
    assert_eq!(pins(&first), vec![pin(0, "c"), pin(1, "a")]);
    assert_eq!(first.status.active_reschedules, 1);

    let f = reconciled(&f, &first);
    let second = plan(&f, &n, &first.apply);
    assert_eq!(pins(&second), pins(&first));
    assert_eq!(phases(&second), vec!["Rescheduling", "Draining"]);

    let f = reconciled(&f, &second);
    let moved = [
        child("rehearsal-0", "c", "Ready"),
        child("rehearsal-1", "a", "Ready"),
    ];
    let third = plan(&f, &n, &moved);
    assert_eq!(phases(&third), vec!["Ready", "Draining"]);
    assert_eq!(third.status.active_reschedules, 0);

    let f = reconciled(&f, &third);
    let fourth = plan(&f, &n, &moved);
    assert_eq!(pins(&fourth), vec![pin(0, "c"), pin(1, "b")]);
    assert_eq!(fourth.status.phase, "Placing");
}

#[test]
fn a_moved_slot_is_recorded_with_what_its_new_node_was_chosen_on() {
    let before = nodes(&[("a", Warmth::Warm, false)]);
    let first = plan(&fleet(2), &before, &[]);
    assert_eq!(pins(&first), vec![pin(0, "a"), pin(1, "a")]);
    let mut n = nodes(&[("a", Warmth::Warm, true), ("b", Warmth::Warming, false)]);
    n.candidates[0].gpu_utilization = Some(signal(1.0));
    n.candidates[1].gpu_utilization = Some(signal(9.0));
    let p = plan(&reconciled(&fleet(2), &first), &n, &first.apply);
    assert_eq!(pins(&p), vec![pin(0, "b"), pin(1, "a")]);
    let moved = p.status.placements[0].decided_on.as_ref().unwrap();
    assert_eq!(moved.warmth.as_deref(), Some("Warming"));
    assert_eq!(moved.gpu_utilization, Some(signal(9.0)));
    let held = p.status.placements[1].decided_on.as_ref().unwrap();
    assert_eq!(held.gpu_utilization, Some(signal(42.0)));
}

#[test]
fn a_slot_that_is_planned_again_is_recorded_anew() {
    let before = nodes(&[("a", Warmth::Warm, false)]);
    let first = plan(&fleet(1), &before, &[]);
    let mut n = nodes(&[("a", Warmth::Cold, false)]);
    n.candidates[0].gpu_utilization = Some(signal(3.0));
    let p = plan(&reconciled(&fleet(1), &first), &n, &[]);
    let d = p.status.placements[0].decided_on.as_ref().unwrap();
    assert_eq!(d.warmth.as_deref(), Some("Cold"));
    assert_eq!(d.gpu_utilization, Some(signal(3.0)));
}

#[test]
fn services_to_apply_are_foreseen() {
    let n = nodes(&[("a", Warmth::Warm, true)]);
    let free = nodes(&[("a", Warmth::Warm, true), ("b", Warmth::Cold, false)]);
    let near = [child("rehearsal-0", "a", "Ready")];
    let far = [child("rehearsal-7", "a", "Ready")];
    for replicas in [-1, 0, 1, 2] {
        for nodes in [&n, &free] {
            for children in [&[][..], &near[..], &far[..]] {
                let f = fleet(replicas);
                let p = plan(&f, nodes, children);
                assert_eq!(
                    has_services_to_apply(&f, nodes, children),
                    !p.apply.is_empty()
                );
            }
        }
    }
}

#[test]
fn active_reschedules_never_exceed_the_bound() {
    for cap in [0, 1, 2] {
        let mut f = fleet(5);
        f.spec.hysteresis.max_concurrent_reschedules = cap;
        let before = nodes(&[("a", Warmth::Warm, false), ("b", Warmth::Warm, false)]);
        let first = plan(&f, &before, &[]);
        let during = nodes(&[
            ("a", Warmth::Warm, true),
            ("b", Warmth::Warm, true),
            ("c", Warmth::Warm, false),
        ]);
        f = reconciled(&f, &first);
        let mut services = first.apply;
        for _ in 0..20 {
            let p = plan(&f, &during, &services);
            assert!(p.status.active_reschedules <= cap);
            f = reconciled(&f, &p);
            services = p.apply;
            for s in services.iter_mut() {
                s.status = Some(VllmServiceStatus {
                    phase: "Ready".to_string(),
                    message: String::new(),
                });
            }
        }
        let moved = services
            .iter()
            .filter(|s| s.spec.node_name.as_deref() == Some("c"))
            .count();
        assert_eq!(moved, if cap == 0 { 0 } else { 5 });
    }
}

#[test]
fn held_placements_count_as_moves_once_the_notice_is_withdrawn() {
    let held = nodes(&[("a", Warmth::Warm, true), ("b", Warmth::Cold, false)]);
    let children = [
        child("rehearsal-0", "a", "Ready"),
        child("rehearsal-1", "a", "Ready"),
    ];
    let mut f = fleet(2);
    f.spec.hysteresis.max_concurrent_reschedules = 1;
    let p = plan(&f, &held, &children);
    assert_eq!(phases(&p), vec!["Draining", "Draining"]);
    assert_eq!(p.status.active_reschedules, 0);
    let free = nodes(&[("a", Warmth::Warm, false), ("b", Warmth::Cold, false)]);
    let p = plan(&reconciled(&f, &p), &free, &children);
    assert_eq!(phases(&p), vec!["Rescheduling", "Rescheduling"]);
    assert_eq!(p.status.active_reschedules, 2);
}

#[test]
fn a_slot_that_is_asked_for_moves_before_a_surplus_one() {
    let n = nodes(&[("a", Warmth::Warm, true), ("c", Warmth::Warm, false)]);
    let children = [
        child("rehearsal-0", "a", "Ready"),
        child("rehearsal-7", "a", "Ready"),
    ];
    let mut f = fleet(1);
    f.spec.hysteresis.max_concurrent_reschedules = 1;
    let p = plan(&f, &n, &children);
    assert_eq!(pins(&p), vec![pin(0, "c")]);
    assert_eq!(p.status.active_reschedules, 1);
}
