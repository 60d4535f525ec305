use vllm_coldstart_operator::fleet_placement::{
    select_node_efficiency_aware, select_node_for_placement, select_node_with_strategy,
    select_replacement_node, NodeCandidate,
};
use vllm_coldstart_operator::fleet_planning::plan_initial_placements;
use vllm_coldstart_operator::fleet_types::{PlacementStrategy, Warmth};
use vllm_coldstart_operator::signal::Signal;

fn signal(v: f32) -> Signal {
    Signal { bits: v.to_bits() }
}

fn candidate(name: &str, warmth: Warmth, util: f32, count: i32) -> NodeCandidate {
    eff(name, warmth, util, count, None, None)
}

fn eff(
    name: &str,
    warmth: Warmth,
    util: f32,
    count: i32,
    hit: Option<f32>,
    tpj: Option<f32>,
) -> NodeCandidate {
    NodeCandidate {
        name: name.to_string(),
        warmth,
        gpu_utilization: Some(signal(util)),
        active_service_count: Some(count),
        kv_cache_hit_rate: hit.map(signal),
        kv_cache_hit_rate_age_secs: None,
        tokens_per_joule: tpj.map(signal),
        tokens_per_joule_age_secs: None,
    }
}

#[test]
fn empty_candidates_returns_none() {
    assert!(select_node_for_placement(&[]).is_none());
}

#[test]
fn warm_node_beats_cold_node_regardless_of_load() {
    let candidates = vec![
        candidate("cold-idle", Warmth::Cold, 0.0, 0),
        candidate("warm-loaded", Warmth::Warm, 90.0, 5),
    ];
    let chosen = select_node_for_placement(&candidates).unwrap();
    assert_eq!(chosen.name, "warm-loaded");
}

#[test]
fn ties_on_warmth_break_on_active_service_count() {
    let candidates = vec![
        candidate("warm-busy", Warmth::Warm, 50.0, 4),
        candidate("warm-idle", Warmth::Warm, 50.0, 1),
    ];
    let chosen = select_node_for_placement(&candidates).unwrap();
    assert_eq!(chosen.name, "warm-idle");
}

#[test]
fn ties_on_warmth_and_count_break_on_gpu_utilization() {
    let candidates = vec![
        candidate("warm-hot", Warmth::Warm, 80.0, 2),
        candidate("warm-cool", Warmth::Warm, 20.0, 2),
    ];
    let chosen = select_node_for_placement(&candidates).unwrap();
    assert_eq!(chosen.name, "warm-cool");
}

#[test]
fn single_candidate_is_always_chosen() {
    let candidates = vec![candidate("only-node", Warmth::Cold, 99.0, 10)];
    let chosen = select_node_for_placement(&candidates).unwrap();
    assert_eq!(chosen.name, "only-node");
}

#[test]
fn replacement_excludes_preempted_and_picks_warmest_survivor() {
    let candidates = vec![
        candidate("preempted", Warmth::Warm, 0.1, 0),
        candidate("survivor-warm", Warmth::Warm, 0.2, 0),
        candidate("survivor-warming", Warmth::Warming, 0.1, 0),
    ];
    let chosen = select_replacement_node(
        &candidates,
        "preempted",
        &PlacementStrategy::WarmthFirst,
        None,
    );
    assert_eq!(chosen, Some("survivor-warm".to_string()));
}

#[test]
fn replacement_holds_when_only_cold_survivors() {
    let candidates = vec![
        candidate("preempted", Warmth::Warm, 0.1, 0),
        candidate("cold-a", Warmth::Cold, 0.0, 0),
        candidate("cold-b", Warmth::Cold, 0.0, 0),
    ];
    assert_eq!(
        select_replacement_node(
            &candidates,
            "preempted",
            &PlacementStrategy::WarmthFirst,
            None
        ),
        None
    );
}

#[test]
fn replacement_holds_when_preempted_was_the_only_node() {
    let candidates = vec![candidate("preempted", Warmth::Warm, 0.1, 0)];
    assert_eq!(
        select_replacement_node(
            &candidates,
            "preempted",
            &PlacementStrategy::WarmthFirst,
            None
        ),
        None
    );
}

#[test]
fn ea_warmth_dominates_perfect_efficiency_signals() {
    let candidates = vec![
        eff("cold-perfect", Warmth::Cold, 0.0, 0, Some(0.99), Some(50.0)),
        eff("warm-unmeasured", Warmth::Warm, 90.0, 5, None, None),
    ];
    let chosen = select_node_efficiency_aware(&candidates, None).unwrap();
    assert_eq!(chosen.name, "warm-unmeasured");
}

#[test]
fn ea_hit_rate_beats_tokens_per_joule_within_class() {
    let candidates = vec![
        eff("high-tpj", Warmth::Warm, 10.0, 1, Some(0.30), Some(90.0)),
        eff("high-hit", Warmth::Warm, 80.0, 4, Some(0.70), Some(5.0)),
    ];
    let chosen = select_node_efficiency_aware(&candidates, None).unwrap();
    assert_eq!(chosen.name, "high-hit");
}

#[test]
fn ea_tokens_per_joule_breaks_hit_rate_tie() {
    let candidates = vec![
        eff("low-tpj", Warmth::Warm, 10.0, 1, Some(0.50), Some(5.0)),
        eff("high-tpj", Warmth::Warm, 80.0, 4, Some(0.50), Some(9.0)),
    ];
    let chosen = select_node_efficiency_aware(&candidates, None).unwrap();
    assert_eq!(chosen.name, "high-tpj");
}

#[test]
fn ea_measured_beats_unmeasured_within_class() {
    let candidates = vec![
        eff("unmeasured", Warmth::Warm, 5.0, 0, None, None),
        eff("measured-poor", Warmth::Warm, 50.0, 3, Some(0.05), None),
    ];
    let chosen = select_node_efficiency_aware(&candidates, None).unwrap();
    assert_eq!(chosen.name, "measured-poor");
}

#[test]
fn ea_invalid_signal_degrades_to_absent() {
    let candidates = vec![
        eff(
            "nan-hit",
            Warmth::Warm,
            5.0,
            0,
            Some(f32::NAN),
            Some(f32::INFINITY),
        ),
        eff("neg-hit", Warmth::Warm, 5.0, 0, Some(-0.2), Some(-1.0)),
        eff("valid", Warmth::Warm, 80.0, 4, Some(0.10), Some(0.5)),
    ];
    let chosen = select_node_efficiency_aware(&candidates, None).unwrap();
    assert_eq!(chosen.name, "valid");
}

#[test]
fn ea_no_signals_degenerates_to_warmth_then_util_then_count() {
    let candidates = vec![
        eff("high-util", Warmth::Warm, 80.0, 1, None, None),
        eff("low-util", Warmth::Warm, 20.0, 4, None, None),
    ];
    let chosen = select_node_efficiency_aware(&candidates, None).unwrap();
    assert_eq!(chosen.name, "low-util");
}

#[test]
fn ea_dispatch_selects_comparator_per_strategy() {
    let candidates = vec![
        eff("good-cache-busy", Warmth::Warm, 50.0, 4, Some(0.80), None),
        eff("bad-cache-idle", Warmth::Warm, 50.0, 1, Some(0.20), None),
    ];
    let ea = select_node_with_strategy(&candidates, &PlacementStrategy::EfficiencyAware, None);
    let wf = select_node_with_strategy(&candidates, &PlacementStrategy::WarmthFirst, None);
    assert_eq!(ea.unwrap().name, "good-cache-busy");
    assert_eq!(wf.unwrap().name, "bad-cache-idle");
}

#[test]
fn the_last_of_equals_is_chosen() {
    let candidates = vec![
        candidate("first", Warmth::Warm, 10.0, 1),
        candidate("second", Warmth::Warm, 10.0, 1),
        candidate("cold", Warmth::Cold, 10.0, 1),
    ];
    assert_eq!(select_node_for_placement(&candidates).unwrap().name, "second");
}

#[test]
fn unmeasured_load_ranks_below_any_measured_load() {
    let mut idle = candidate("unmeasured", Warmth::Warm, 0.0, 0);
    idle.gpu_utilization = None;
    idle.active_service_count = None;
    let busy = candidate("busy", Warmth::Warm, 99.0, 30);
    let candidates = vec![busy, idle];
    assert_eq!(select_node_for_placement(&candidates).unwrap().name, "busy");
    assert_eq!(
        select_node_efficiency_aware(&candidates, None).unwrap().name,
        "busy"
    );
}

#[test]
fn utilization_that_is_not_finite_is_unusable_to_efficiency_aware_only() {
    let candidates = vec![
        candidate("lowest", Warmth::Warm, f32::NEG_INFINITY, 1),
        candidate("half", Warmth::Warm, 50.0, 1),
    ];
    assert_eq!(select_node_for_placement(&candidates).unwrap().name, "lowest");
    assert_eq!(
        select_node_efficiency_aware(&candidates, None).unwrap().name,
        "half"
    );
    let candidates = vec![
        candidate("half", Warmth::Warm, 50.0, 1),
        candidate("broken", Warmth::Warm, f32::NAN, 1),
    ];
    assert_eq!(select_node_for_placement(&candidates).unwrap().name, "half");
}

#[test]
fn spread_and_bin_pack_choose_as_warmth_first() {
    let candidates = vec![
        eff("idle", Warmth::Warm, 50.0, 0, Some(0.1), None),
        eff("cached", Warmth::Warm, 50.0, 3, Some(0.9), None),
    ];
    for s in [PlacementStrategy::Spread, PlacementStrategy::BinPack] {
        assert_eq!(
            select_node_with_strategy(&candidates, &s, Some(1)).unwrap().name,
            "idle"
        );
    }
}

#[test]
fn zero_slots_returns_empty() {
    let candidates = vec![candidate("a", Warmth::Warm, 10.0, 0)];
    assert!(
        plan_initial_placements(0, &candidates, &PlacementStrategy::WarmthFirst, None).is_empty()
    );
}

#[test]
fn no_candidates_returns_empty_regardless_of_slots() {
    assert!(plan_initial_placements(3, &[], &PlacementStrategy::WarmthFirst, None).is_empty());
}

#[test]
fn single_warm_node_absorbs_multiple_slots() {
    let candidates = vec![candidate("only", Warmth::Warm, 10.0, 0)];
    let plan = plan_initial_placements(3, &candidates, &PlacementStrategy::WarmthFirst, None);
    assert_eq!(plan, vec!["only", "only", "only"]);
}

#[test]
fn two_equally_warm_nodes_spread_load_across_slots() {
    let candidates = vec![
        candidate("node-a", Warmth::Warm, 10.0, 0),
        candidate("node-b", Warmth::Warm, 10.0, 0),
    ];
    let plan = plan_initial_placements(2, &candidates, &PlacementStrategy::WarmthFirst, None);
    assert_eq!(plan.len(), 2);
    assert_ne!(plan[0], plan[1]);
}

#[test]
fn more_slots_than_capacity_returns_partial_plan_when_candidates_exhausted() {
    let candidates = vec![candidate("only", Warmth::Cold, 0.0, 0)];
    let plan = plan_initial_placements(5, &candidates, &PlacementStrategy::WarmthFirst, None);
    assert_eq!(plan.len(), 5);
}

#[test]
fn strategy_threads_through_to_selection() {
    let mut low = candidate("low-cache", Warmth::Warm, 0.2, 1);
    low.kv_cache_hit_rate = Some(signal(0.10));
    let mut high = candidate("high-cache", Warmth::Warm, 0.2, 1);
    high.kv_cache_hit_rate = Some(signal(0.90));
    let candidates = vec![low, high];
    let plan = plan_initial_placements(1, &candidates, &PlacementStrategy::EfficiencyAware, None);
    assert_eq!(plan, vec!["high-cache".to_string()]);
}

#[test]
fn negative_slots_ask_for_none() {
    let candidates = vec![candidate("a", Warmth::Warm, 10.0, 0)];
    assert!(
        plan_initial_placements(-2, &candidates, &PlacementStrategy::WarmthFirst, None).is_empty()
    );
}

#[test]
fn a_batch_over_three_even_nodes_uses_each_once() {
    let candidates = vec![
        candidate("a", Warmth::Warm, 10.0, 7),
        candidate("b", Warmth::Warm, 30.0, 7),
        candidate("c", Warmth::Warm, 20.0, 7),
    ];
    let plan = plan_initial_placements(3, &candidates, &PlacementStrategy::WarmthFirst, None);
    assert_eq!(plan, vec!["a", "c", "b"]);
}

#[test]
fn a_batch_evens_out_unequal_loads_and_leaves_colder_nodes_alone() {
    let candidates = vec![
        candidate("a", Warmth::Warm, 10.0, 4),
        candidate("b", Warmth::Warm, 10.0, 1),
        candidate("c", Warmth::Warming, 0.0, 0),
        candidate("d", Warmth::Warm, 10.0, 2),
    ];
    let plan = plan_initial_placements(8, &candidates, &PlacementStrategy::BinPack, None);
    let placed = |n: &str| plan.iter().filter(|p| *p == n).count();
    assert_eq!((placed("a"), placed("b"), placed("c"), placed("d")), (1, 4, 0, 3));
}

#[test]
fn a_batch_over_unmeasured_nodes_lands_on_one() {
    let unmeasured = |n: &str| {
        let mut c = candidate(n, Warmth::Warm, 10.0, 0);
        c.active_service_count = None;
        c
    };
    let candidates = vec![unmeasured("a"), unmeasured("b")];
    let plan = plan_initial_placements(2, &candidates, &PlacementStrategy::WarmthFirst, None);
    assert_eq!(plan, vec!["b", "b"]);
}
