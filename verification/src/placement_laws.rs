//! What holds of every choice of a node.
use crate::fleet_placement;
use crate::fleet_placement::NodeCandidate;
use crate::fleet_types::{PlacementStrategy, Warmth};
use crate::signal::Signal;
use vstd::prelude::*;

verus! {

/// Some candidate is chosen, unless there are none.
pub proof fn some_candidate_is_chosen(
    candidates: Seq<NodeCandidate>,
    strategy: PlacementStrategy,
    horizon_secs: Option<i64>,
)
    requires
        candidates.len() > 0,
    ensures
        fleet_placement::is_choice(
            candidates,
            strategy,
            horizon_secs,
            fleet_placement::choice(candidates, strategy, horizon_secs),
        ),
    decreases candidates.len(),
{
    let last = candidates.len() - 1;
    if last == 0 {
        assert(fleet_placement::is_choice(candidates, strategy, horizon_secs, 0));
    } else {
        let front = candidates.drop_last();
        some_candidate_is_chosen(front, strategy, horizon_secs);
        let b = fleet_placement::choice(front, strategy, horizon_secs);
        let tb = fleet_placement::tiers(candidates[b], strategy, horizon_secs);
        let tl = fleet_placement::tiers(candidates[last], strategy, horizon_secs);
        assert forall|j: int| 0 <= j < last implies !fleet_placement::lower(
            tb,
            #[trigger] fleet_placement::tiers(candidates[j], strategy, horizon_secs),
        ) by {
            assert(front[j] == candidates[j]);
        }
        assert forall|j: int| b < j < last implies fleet_placement::lower(
            #[trigger] fleet_placement::tiers(candidates[j], strategy, horizon_secs),
            tb,
        ) by {
            assert(front[j] == candidates[j]);
        }
        if fleet_placement::lower(tl, tb) {
            assert(fleet_placement::is_choice(candidates, strategy, horizon_secs, b));
        } else {
            assert(fleet_placement::is_choice(candidates, strategy, horizon_secs, last));
        }
    }
}

/// Warmth dominates: under every strategy and horizon, and whatever the other signals say, no
/// candidate is warmer than the chosen one.
pub proof fn warmth_dominates(
    candidates: Seq<NodeCandidate>,
    strategy: PlacementStrategy,
    horizon_secs: Option<i64>,
    j: int,
)
    requires
        0 <= j < candidates.len(),
    ensures
        fleet_placement::warmth_class(candidates[j].warmth) <= fleet_placement::warmth_class(
            candidates[fleet_placement::choice(candidates, strategy, horizon_secs)].warmth,
        ),
{
    some_candidate_is_chosen(candidates, strategy, horizon_secs);
    let t = fleet_placement::tiers(candidates[j], strategy, horizon_secs);
}

/// Any two strategies choose from the same class of warmth.
pub proof fn strategies_agree_on_warmth(
    candidates: Seq<NodeCandidate>,
    a: PlacementStrategy,
    b: PlacementStrategy,
    horizon_a: Option<i64>,
    horizon_b: Option<i64>,
)
    requires
        candidates.len() > 0,
    ensures
        candidates[fleet_placement::choice(candidates, a, horizon_a)].warmth
            == candidates[fleet_placement::choice(candidates, b, horizon_b)].warmth,
{
    some_candidate_is_chosen(candidates, a, horizon_a);
    some_candidate_is_chosen(candidates, b, horizon_b);
    warmth_dominates(candidates, a, horizon_a, fleet_placement::choice(candidates, b, horizon_b));
    warmth_dominates(candidates, b, horizon_b, fleet_placement::choice(candidates, a, horizon_a));
}

/// Two candidates rank equally under the efficiency-aware strategy exactly if that strategy sees
/// the same of both: the order of the keys is total.
pub proof fn efficiency_order_is_total(
    a: NodeCandidate,
    b: NodeCandidate,
    horizon_secs: Option<i64>,
)
    ensures
        ({
            let s = PlacementStrategy::EfficiencyAware;
            let ta = fleet_placement::tiers(a, s, horizon_secs);
            let tb = fleet_placement::tiers(b, s, horizon_secs);
            let same = fleet_placement::efficiency_key(a, horizon_secs)
                == fleet_placement::efficiency_key(b, horizon_secs);
            &&& (ta == tb) == same
            &&& same || fleet_placement::lower(ta, tb) || fleet_placement::lower(tb, ta)
            &&& !(fleet_placement::lower(ta, tb) && fleet_placement::lower(tb, ta))
        }),
{
    let ka = fleet_placement::efficiency_key(a, horizon_secs);
    let kb = fleet_placement::efficiency_key(b, horizon_secs);
    let ta = fleet_placement::key_tiers(ka);
    let tb = fleet_placement::key_tiers(kb);
    if ta == tb {
        assert(ka.kv_cache_hit_rate == kb.kv_cache_hit_rate);
        assert(ka.tokens_per_joule == kb.tokens_per_joule);
        assert(ka.gpu_utilization == kb.gpu_utilization);
        assert(ka.active_service_count == kb.active_service_count);
        assert(ka.warmth == kb.warmth);
    }
}

/// The order in which the candidates are listed does not matter: where no two rank equally, the
/// same candidate is chosen from every arrangement of them.
pub proof fn listing_order_does_not_matter(
    a: Seq<NodeCandidate>,
    b: Seq<NodeCandidate>,
    strategy: PlacementStrategy,
    horizon_secs: Option<i64>,
)
    requires
        a.len() > 0,
        a.to_multiset() == b.to_multiset(),
        forall|i: int, j: int|
            0 <= i < j < a.len() ==> #[trigger] fleet_placement::tiers(a[i], strategy, horizon_secs)
                != #[trigger] fleet_placement::tiers(a[j], strategy, horizon_secs),
    ensures
        a[fleet_placement::choice(a, strategy, horizon_secs)]
            == b[fleet_placement::choice(b, strategy, horizon_secs)],
{
    vstd::seq_lib::to_multiset_len(a);
    vstd::seq_lib::to_multiset_len(b);
    some_candidate_is_chosen(a, strategy, horizon_secs);
    some_candidate_is_chosen(b, strategy, horizon_secs);
    let i = fleet_placement::choice(a, strategy, horizon_secs);
    let j = fleet_placement::choice(b, strategy, horizon_secs);
    vstd::seq_lib::to_multiset_contains(a, b[j]);
    vstd::seq_lib::to_multiset_contains(b, b[j]);
    vstd::seq_lib::to_multiset_contains(a, a[i]);
    vstd::seq_lib::to_multiset_contains(b, a[i]);
    assert(a.contains(a[i]));
    assert(b.contains(b[j]));
    let k = choose|k: int| 0 <= k < a.len() && a[k] == b[j];
    let m = choose|m: int| 0 <= m < b.len() && b[m] == a[i];
    let ti = fleet_placement::tiers(a[i], strategy, horizon_secs);
    let tk = fleet_placement::tiers(a[k], strategy, horizon_secs);
    let tm = fleet_placement::tiers(b[m], strategy, horizon_secs);
    let tj = fleet_placement::tiers(b[j], strategy, horizon_secs);
    assert(!fleet_placement::lower(ti, tk));
    assert(!fleet_placement::lower(tj, tm));
    assert(ti == tk);
    assert(i == k);
}

/// The candidate without the signals that the horizon rules out.
pub open spec fn without_expired(c: NodeCandidate, horizon_secs: i64) -> NodeCandidate {
    NodeCandidate {
        kv_cache_hit_rate: fleet_placement::fresh(
            c.kv_cache_hit_rate,
            c.kv_cache_hit_rate_age_secs,
            Some(horizon_secs),
        ),
        tokens_per_joule: fleet_placement::fresh(
            c.tokens_per_joule,
            c.tokens_per_joule_age_secs,
            Some(horizon_secs),
        ),
        ..c
    }
}

/// The same candidates rank the same way, so the same one is chosen.
pub proof fn equal_tiers_equal_choice(
    a: Seq<NodeCandidate>,
    b: Seq<NodeCandidate>,
    strategy_a: PlacementStrategy,
    strategy_b: PlacementStrategy,
    horizon_a: Option<i64>,
    horizon_b: Option<i64>,
)
    requires
        a.len() > 0,
        a.len() == b.len(),
        forall|i: int|
            0 <= i < a.len() ==> #[trigger] fleet_placement::tiers(a[i], strategy_a, horizon_a)
                == fleet_placement::tiers(b[i], strategy_b, horizon_b),
    ensures
        fleet_placement::choice(a, strategy_a, horizon_a) == fleet_placement::choice(
            b,
            strategy_b,
            horizon_b,
        ),
{
    some_candidate_is_chosen(a, strategy_a, horizon_a);
    some_candidate_is_chosen(b, strategy_b, horizon_b);
    let i = fleet_placement::choice(a, strategy_a, horizon_a);
    let j = fleet_placement::choice(b, strategy_b, horizon_b);
    let tai = fleet_placement::tiers(a[i], strategy_a, horizon_a);
    let taj = fleet_placement::tiers(a[j], strategy_a, horizon_a);
    let tbi = fleet_placement::tiers(b[i], strategy_b, horizon_b);
    let tbj = fleet_placement::tiers(b[j], strategy_b, horizon_b);
    assert(i < j ==> fleet_placement::lower(taj, tai));
    assert(j < i ==> fleet_placement::lower(tbi, tbj));
}

/// A signal beyond the horizon ranks exactly as one that was never observed: taking all such
/// signals away changes no choice.
pub proof fn expired_is_never_observed(
    candidates: Seq<NodeCandidate>,
    strategy: PlacementStrategy,
    horizon_secs: i64,
)
    requires
        candidates.len() > 0,
    ensures
        fleet_placement::choice(candidates, strategy, Some(horizon_secs))
            == fleet_placement::choice(
            candidates.map_values(|c: NodeCandidate| without_expired(c, horizon_secs)),
            strategy,
            Some(horizon_secs),
        ),
{
    let stripped = candidates.map_values(|c: NodeCandidate| without_expired(c, horizon_secs));
    equal_tiers_equal_choice(
        candidates,
        stripped,
        strategy,
        strategy,
        Some(horizon_secs),
        Some(horizon_secs),
    );
}

/// The horizon touches the two efficiency signals only: where both are absent everywhere, it
/// changes no choice.
pub proof fn horizon_leaves_load_alone(
    candidates: Seq<NodeCandidate>,
    strategy: PlacementStrategy,
    horizon_a: Option<i64>,
    horizon_b: Option<i64>,
)
    requires
        candidates.len() > 0,
        forall|i: int|
            0 <= i < candidates.len() ==> (#[trigger] candidates[i]).kv_cache_hit_rate is None
                && candidates[i].tokens_per_joule is None,
    ensures
        fleet_placement::choice(candidates, strategy, horizon_a) == fleet_placement::choice(
            candidates,
            strategy,
            horizon_b,
        ),
{
    equal_tiers_equal_choice(candidates, candidates, strategy, strategy, horizon_a, horizon_b);
}

/// The strategies other than the efficiency-aware one choose alike, and do not look at the
/// horizon.
pub proof fn other_strategies_are_warmth_first(
    candidates: Seq<NodeCandidate>,
    strategy: PlacementStrategy,
    horizon_secs: Option<i64>,
)
    requires
        candidates.len() > 0,
        strategy != PlacementStrategy::EfficiencyAware,
    ensures
        fleet_placement::choice(candidates, strategy, horizon_secs) == fleet_placement::choice(
            candidates,
            PlacementStrategy::WarmthFirst,
            None,
        ),
{
    equal_tiers_equal_choice(
        candidates,
        candidates,
        strategy,
        PlacementStrategy::WarmthFirst,
        horizon_secs,
        None,
    );
}

/// Fail-open: where no candidate has an efficiency signal, the efficiency-aware strategy ranks by
/// warmth, then the least utilization, then the fewest active services.
pub proof fn without_signals_ranks_by_load(
    a: NodeCandidate,
    b: NodeCandidate,
    horizon_secs: Option<i64>,
)
    requires
        a.kv_cache_hit_rate is None,
        a.tokens_per_joule is None,
        b.kv_cache_hit_rate is None,
        b.tokens_per_joule is None,
    ensures
        fleet_placement::lower(
            fleet_placement::tiers(a, PlacementStrategy::EfficiencyAware, horizon_secs),
            fleet_placement::tiers(b, PlacementStrategy::EfficiencyAware, horizon_secs),
        ) == fleet_placement::lower(
            (
                fleet_placement::warmth_class(a.warmth),
                fleet_placement::load_tier(
                    fleet_placement::utilization_in_domain(a.gpu_utilization),
                ),
                fleet_placement::count_tier(a.active_service_count),
                0,
                0,
            ),
            (
                fleet_placement::warmth_class(b.warmth),
                fleet_placement::load_tier(
                    fleet_placement::utilization_in_domain(b.gpu_utilization),
                ),
                fleet_placement::count_tier(b.active_service_count),
                0,
                0,
            ),
        ),
{
}

/// What was measured ranks above what was not: any observed value, however poor, has a higher
/// tier than an absent one.
pub proof fn observed_ranks_above_absent(signal: Signal, count: i32)
    ensures
        fleet_placement::gain_tier(None) < fleet_placement::gain_tier(Some(signal)),
        fleet_placement::load_tier(None) < fleet_placement::load_tier(Some(signal)),
        fleet_placement::count_tier(None) < fleet_placement::count_tier(Some(count)),
{
}

/// Among numbers, more efficiency and less load rank higher.
pub proof fn tiers_follow_numbers(a: Signal, b: Signal)
    requires
        a.finite(),
        b.finite(),
        a.number() < b.number(),
    ensures
        fleet_placement::gain_tier(Some(a)) < fleet_placement::gain_tier(Some(b)),
        fleet_placement::load_tier(Some(b)) < fleet_placement::load_tier(Some(a)),
{
    crate::signal::order_follows_number(a, b);
}

/// A replacement is one of the candidates, is not the node that it replaces, and is not cold.
pub proof fn replacement_is_healthy(
    candidates: Seq<NodeCandidate>,
    preempted_node: Seq<char>,
    strategy: PlacementStrategy,
    horizon_secs: Option<i64>,
)
    ensures
        ({
            let r = fleet_placement::replacement(
                candidates,
                preempted_node,
                strategy,
                horizon_secs,
            );
            r is Some ==> r->0 != preempted_node && exists|i: int|
                0 <= i < candidates.len() && (#[trigger] candidates[i]).name@ == r->0
                    && candidates[i].warmth != Warmth::Cold
        }),
{
    let keep = fleet_placement::may_replace(preempted_node);
    let s = fleet_placement::survivors(candidates, preempted_node);
    if s.len() > 0 {
        some_candidate_is_chosen(s, strategy, horizon_secs);
        let k = fleet_placement::choice(s, strategy, horizon_secs);
        assert(keep(s[k]));
        assert(s.contains(s[k]));
        candidates.lemma_filter_contains_rev(keep, s[k]);
        let i = choose|i: int| 0 <= i < candidates.len() && candidates[i] == s[k];
        assert(candidates[i].name@ == s[k].name@);
    }
}

/// There is no replacement exactly if every candidate is cold or is the node to be replaced.
pub proof fn no_replacement_when_none_is_healthy(
    candidates: Seq<NodeCandidate>,
    preempted_node: Seq<char>,
    strategy: PlacementStrategy,
    horizon_secs: Option<i64>,
)
    ensures
        fleet_placement::replacement(candidates, preempted_node, strategy, horizon_secs) is None
            <==> forall|i: int|
            0 <= i < candidates.len() ==> (#[trigger] candidates[i]).name@ == preempted_node
                || candidates[i].warmth == Warmth::Cold,
{
    let keep = fleet_placement::may_replace(preempted_node);
    let s = fleet_placement::survivors(candidates, preempted_node);
    if s.len() == 0 {
        assert forall|i: int| 0 <= i < candidates.len() implies (#[trigger] candidates[i]).name@
            == preempted_node || candidates[i].warmth == Warmth::Cold by {
            if keep(candidates[i]) {
                assert(s.contains(candidates[i]));
            }
        }
    } else {
        assert(keep(s[0]));
        assert(s.contains(s[0]));
        candidates.lemma_filter_contains_rev(keep, s[0]);
        let i = choose|i: int| 0 <= i < candidates.len() && candidates[i] == s[0];
        assert(keep(candidates[i]));
    }
}

/// Warmth-first spares busy nodes: of the candidates as warm as the chosen one, none whose load is
/// known has fewer active services.
pub proof fn least_loaded_is_chosen(
    candidates: Seq<NodeCandidate>,
    strategy: PlacementStrategy,
    horizon_secs: Option<i64>,
    j: int,
)
    requires
        0 <= j < candidates.len(),
        strategy != PlacementStrategy::EfficiencyAware,
        candidates[j].warmth == candidates[fleet_placement::choice(
            candidates,
            strategy,
            horizon_secs,
        )].warmth,
        candidates[j].active_service_count is Some,
    ensures
        ({
            let c = candidates[fleet_placement::choice(candidates, strategy, horizon_secs)];
            c.active_service_count is Some && c.active_service_count->0
                <= candidates[j].active_service_count->0
        }),
{
    some_candidate_is_chosen(candidates, strategy, horizon_secs);
    let t = fleet_placement::tiers(candidates[j], strategy, horizon_secs);
}

/// Efficiency-aware placement prefers a warm cache: of the candidates as warm as the chosen one,
/// none with a usable hit rate has a better one.
pub proof fn best_hit_rate_is_chosen(
    candidates: Seq<NodeCandidate>,
    horizon_secs: Option<i64>,
    j: int,
)
    requires
        0 <= j < candidates.len(),
        candidates[j].warmth == candidates[fleet_placement::choice(
            candidates,
            PlacementStrategy::EfficiencyAware,
            horizon_secs,
        )].warmth,
        fleet_placement::efficiency_key(candidates[j], horizon_secs).kv_cache_hit_rate is Some,
    ensures
        ({
            let c = candidates[fleet_placement::choice(
                candidates,
                PlacementStrategy::EfficiencyAware,
                horizon_secs,
            )];
            let best = fleet_placement::efficiency_key(c, horizon_secs).kv_cache_hit_rate;
            let other = fleet_placement::efficiency_key(
                candidates[j],
                horizon_secs,
            ).kv_cache_hit_rate;
            best is Some && other->0.number() <= best->0.number()
        }),
{
    let strategy = PlacementStrategy::EfficiencyAware;
    some_candidate_is_chosen(candidates, strategy, horizon_secs);
    let c = candidates[fleet_placement::choice(candidates, strategy, horizon_secs)];
    let t = fleet_placement::tiers(candidates[j], strategy, horizon_secs);
    let best = fleet_placement::efficiency_key(c, horizon_secs).kv_cache_hit_rate;
    let other = fleet_placement::efficiency_key(candidates[j], horizon_secs).kv_cache_hit_rate;
    observed_ranks_above_absent(other->0, 0);
    assert(best is Some);
    crate::signal::order_follows_number(other->0, best->0);
}

} // verus!
