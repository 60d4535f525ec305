//! What the chosen node must satisfy, in terms of what the nodes report.
use crate::fleet_placement;
use crate::fleet_placement::NodeCandidate;
use crate::fleet_types::{PlacementStrategy, Warmth};
use crate::placement_laws;
use crate::signal;
use crate::signal::Signal;
use vstd::prelude::*;

verus! {

/// Whether a measurement of the given age counts: any does where no horizon is set; where one is,
/// its age must be known, not negative, and not beyond the horizon.
pub open spec fn counts(age_secs: Option<i64>, horizon_secs: Option<i64>) -> bool {
    horizon_secs is None || (age_secs is Some && 0 <= age_secs->0 && age_secs->0
        <= horizon_secs->0)
}

/// Whether a candidate has a hit rate to be ranked by: a number from zero to one that counts.
pub open spec fn has_hit_rate(c: NodeCandidate, horizon_secs: Option<i64>) -> bool {
    &&& c.kv_cache_hit_rate is Some
    &&& counts(c.kv_cache_hit_rate_age_secs, horizon_secs)
    &&& c.kv_cache_hit_rate->0.finite()
    &&& 0 <= c.kv_cache_hit_rate->0.number()
    &&& c.kv_cache_hit_rate->0.number() <= (Signal { bits: 0x3f80_0000 }).number()
}

/// Whether a candidate has tokens per joule to be ranked by: a number of at least zero that counts.
pub open spec fn has_tokens_per_joule(c: NodeCandidate, horizon_secs: Option<i64>) -> bool {
    &&& c.tokens_per_joule is Some
    &&& counts(c.tokens_per_joule_age_secs, horizon_secs)
    &&& c.tokens_per_joule->0.finite()
    &&& 0 <= c.tokens_per_joule->0.number()
}

/// Whether a candidate has a utilization that is a number.
pub open spec fn has_utilization(c: NodeCandidate) -> bool {
    c.gpu_utilization is Some && c.gpu_utilization->0.finite()
}

/// Whether two candidates do not differ in their hit rates: they have the same one, or both none.
pub open spec fn same_hit_rate(
    a: NodeCandidate,
    b: NodeCandidate,
    horizon_secs: Option<i64>,
) -> bool {
    if has_hit_rate(a, horizon_secs) {
        has_hit_rate(b, horizon_secs) && a.kv_cache_hit_rate == b.kv_cache_hit_rate
    } else {
        !has_hit_rate(b, horizon_secs)
    }
}

/// Whether two candidates do not differ in their tokens per joule.
pub open spec fn same_tokens_per_joule(
    a: NodeCandidate,
    b: NodeCandidate,
    horizon_secs: Option<i64>,
) -> bool {
    if has_tokens_per_joule(a, horizon_secs) {
        has_tokens_per_joule(b, horizon_secs) && a.tokens_per_joule == b.tokens_per_joule
    } else {
        !has_tokens_per_joule(b, horizon_secs)
    }
}

/// Whether two candidates do not differ in their utilizations, as far as these are numbers.
pub open spec fn same_utilization(a: NodeCandidate, b: NodeCandidate) -> bool {
    if has_utilization(a) {
        has_utilization(b) && a.gpu_utilization == b.gpu_utilization
    } else {
        !has_utilization(b)
    }
}

/// What is let through of a signal, and what counts of it: all that the horizon does not rule out,
/// as far as it is in its range.
pub proof fn signals_count_within_horizon_and_range(
    value: Option<Signal>,
    age_secs: Option<i64>,
    horizon_secs: Option<i64>,
)
    ensures
        counts(age_secs, horizon_secs) ==> fleet_placement::fresh(value, age_secs, horizon_secs)
            == value,
        !counts(age_secs, horizon_secs) ==> fleet_placement::fresh(
            value,
            age_secs,
            horizon_secs,
        ) is None,
        fleet_placement::hit_rate_in_domain(value) == (if value is Some && (value->0.bits
            <= 0x3f80_0000 || value->0.bits == 0x8000_0000) {
            value
        } else {
            None
        }),
        fleet_placement::tokens_per_joule_in_domain(value) == (if value is Some && (value->0.bits
            < 0x7f80_0000 || value->0.bits == 0x8000_0000) {
            value
        } else {
            None
        }),
        fleet_placement::utilization_in_domain(value) == (if value is Some && (value->0.bits
            < 0x7f80_0000 || 0x8000_0000 <= value->0.bits < 0xff80_0000) {
            value
        } else {
            None
        }),
{
    if value is Some {
        signal::fractions_by_bits(value->0);
        signal::measurements_follow_the_format(value->0);
    }
}

/// The key that the efficiency-aware order looks at shows each signal that counts, and no other;
/// the load as it was reported; and the warmth, a warmer node having the higher number.
pub proof fn the_key_shows_what_counts(
    c: NodeCandidate,
    horizon_secs: Option<i64>,
)
    ensures
        ({
            let k = fleet_placement::efficiency_key(c, horizon_secs);
            &&& k.kv_cache_hit_rate == (if has_hit_rate(c, horizon_secs) {
                c.kv_cache_hit_rate
            } else {
                None
            })
            &&& k.tokens_per_joule == (if has_tokens_per_joule(c, horizon_secs) {
                c.tokens_per_joule
            } else {
                None
            })
            &&& k.gpu_utilization == (if has_utilization(c) {
                c.gpu_utilization
            } else {
                None
            })
            &&& k.active_service_count == c.active_service_count
            &&& k.warmth == (match c.warmth {
                Warmth::Cold => 0u8,
                Warmth::Warming => 1,
                Warmth::Warm => 2,
            })
        }),
        fleet_placement::warmth_class(c.warmth) == (match c.warmth {
            Warmth::Cold => 0int,
            Warmth::Warming => 1,
            Warmth::Warm => 2,
        }),
{
}

/// The place of a chosen candidate.
proof fn place_of_chosen(
    candidates: Seq<NodeCandidate>,
    strategy: PlacementStrategy,
    horizon_secs: Option<i64>,
    c: NodeCandidate,
) -> (i: int)
    requires
        fleet_placement::chosen(candidates, strategy, horizon_secs, Some(&c)),
    ensures
        candidates[i] == c,
        fleet_placement::is_choice(candidates, strategy, horizon_secs, i),
{
    fleet_placement::choice(candidates, strategy, horizon_secs)
}

/// One of the candidates is chosen, unless there are none, and no two are.
pub proof fn one_candidate_is_chosen(
    candidates: Seq<NodeCandidate>,
    strategy: PlacementStrategy,
    horizon_secs: Option<i64>,
)
    ensures
        fleet_placement::chosen(candidates, strategy, horizon_secs, None) <==> candidates.len()
            == 0,
        candidates.len() > 0 ==> exists|i: int|
            0 <= i < candidates.len() && fleet_placement::chosen(
                candidates,
                strategy,
                horizon_secs,
                Some(&#[trigger] candidates[i]),
            ),
        forall|a: NodeCandidate, b: NodeCandidate|
            #![trigger
                fleet_placement::chosen(candidates, strategy, horizon_secs, Some(&a)),
                fleet_placement::chosen(candidates, strategy, horizon_secs, Some(&b))
            ]
            fleet_placement::chosen(candidates, strategy, horizon_secs, Some(&a))
                && fleet_placement::chosen(candidates, strategy, horizon_secs, Some(&b)) ==> a == b
                && candidates.contains(a),
{
    if candidates.len() > 0 {
        placement_laws::some_candidate_is_chosen(candidates, strategy, horizon_secs);
        let i = fleet_placement::choice(candidates, strategy, horizon_secs);
        assert(fleet_placement::chosen(candidates, strategy, horizon_secs, Some(&candidates[i])));
    }
}

/// Warmth comes first under every strategy: a warm node is chosen before any other, and a cold one
/// only where all are cold.
pub proof fn the_warmest_is_chosen(
    candidates: Seq<NodeCandidate>,
    strategy: PlacementStrategy,
    horizon_secs: Option<i64>,
    c: NodeCandidate,
    j: int,
)
    requires
        fleet_placement::chosen(candidates, strategy, horizon_secs, Some(&c)),
        0 <= j < candidates.len(),
    ensures
        candidates[j].warmth == Warmth::Warm ==> c.warmth == Warmth::Warm,
        candidates[j].warmth == Warmth::Warming ==> c.warmth != Warmth::Cold,
{
    let i = place_of_chosen(candidates, strategy, horizon_secs, c);
    let t = fleet_placement::tiers(candidates[j], strategy, horizon_secs);
}

/// Efficiency-aware, the hit rate comes second: of the equally warm candidates none has a better
/// one than the chosen candidate, which has one if any of them has.
pub proof fn the_best_hit_rate_is_chosen(
    candidates: Seq<NodeCandidate>,
    horizon_secs: Option<i64>,
    c: NodeCandidate,
    j: int,
)
    requires
        fleet_placement::chosen(
            candidates,
            PlacementStrategy::EfficiencyAware,
            horizon_secs,
            Some(&c),
        ),
        0 <= j < candidates.len(),
        candidates[j].warmth == c.warmth,
        has_hit_rate(candidates[j], horizon_secs),
    ensures
        has_hit_rate(c, horizon_secs),
        candidates[j].kv_cache_hit_rate->0.number() <= c.kv_cache_hit_rate->0.number(),
{
    let s = PlacementStrategy::EfficiencyAware;
    let i = place_of_chosen(candidates, s, horizon_secs, c);
    let t = fleet_placement::tiers(candidates[j], s, horizon_secs);
    if has_hit_rate(c, horizon_secs) {
        signal::order_follows_number(
            candidates[j].kv_cache_hit_rate->0,
            c.kv_cache_hit_rate->0,
        );
    }
}

/// Efficiency-aware, the tokens per joule come third: of the equally warm candidates with the same
/// hit rate, or none as the chosen one, none has more tokens per joule than the chosen candidate,
/// which has a figure if any of them has.
pub proof fn the_most_tokens_per_joule_are_chosen(
    candidates: Seq<NodeCandidate>,
    horizon_secs: Option<i64>,
    c: NodeCandidate,
    j: int,
)
    requires
        fleet_placement::chosen(
            candidates,
            PlacementStrategy::EfficiencyAware,
            horizon_secs,
            Some(&c),
        ),
        0 <= j < candidates.len(),
        candidates[j].warmth == c.warmth,
        same_hit_rate(candidates[j], c, horizon_secs),
        has_tokens_per_joule(candidates[j], horizon_secs),
    ensures
        has_tokens_per_joule(c, horizon_secs),
        candidates[j].tokens_per_joule->0.number() <= c.tokens_per_joule->0.number(),
{
    let s = PlacementStrategy::EfficiencyAware;
    let i = place_of_chosen(candidates, s, horizon_secs, c);
    let t = fleet_placement::tiers(candidates[j], s, horizon_secs);
    if has_tokens_per_joule(c, horizon_secs) {
        signal::order_follows_number(candidates[j].tokens_per_joule->0, c.tokens_per_joule->0);
    }
}

/// Efficiency-aware, the utilization comes fourth: of the equally warm and equally efficient
/// candidates none is less utilized than the chosen one, whose utilization is a number if that of
/// any of them is.
pub proof fn the_least_utilized_of_the_efficient_is_chosen(
    candidates: Seq<NodeCandidate>,
    horizon_secs: Option<i64>,
    c: NodeCandidate,
    j: int,
)
    requires
        fleet_placement::chosen(
            candidates,
            PlacementStrategy::EfficiencyAware,
            horizon_secs,
            Some(&c),
        ),
        0 <= j < candidates.len(),
        candidates[j].warmth == c.warmth,
        same_hit_rate(candidates[j], c, horizon_secs),
        same_tokens_per_joule(candidates[j], c, horizon_secs),
        has_utilization(candidates[j]),
    ensures
        has_utilization(c),
        c.gpu_utilization->0.number() <= candidates[j].gpu_utilization->0.number(),
{
    let s = PlacementStrategy::EfficiencyAware;
    let i = place_of_chosen(candidates, s, horizon_secs, c);
    let t = fleet_placement::tiers(candidates[j], s, horizon_secs);
    if has_utilization(c) {
        signal::order_follows_number(c.gpu_utilization->0, candidates[j].gpu_utilization->0);
    }
}

/// Efficiency-aware, the active services come last: of the candidates that are equal in all else
/// none has fewer than the chosen one, whose number is known if that of any of them is.
pub proof fn the_fewest_services_of_the_efficient_are_chosen(
    candidates: Seq<NodeCandidate>,
    horizon_secs: Option<i64>,
    c: NodeCandidate,
    j: int,
)
    requires
        fleet_placement::chosen(
            candidates,
            PlacementStrategy::EfficiencyAware,
            horizon_secs,
            Some(&c),
        ),
        0 <= j < candidates.len(),
        candidates[j].warmth == c.warmth,
        same_hit_rate(candidates[j], c, horizon_secs),
        same_tokens_per_joule(candidates[j], c, horizon_secs),
        same_utilization(candidates[j], c),
        candidates[j].active_service_count is Some,
    ensures
        c.active_service_count is Some,
        c.active_service_count->0 <= candidates[j].active_service_count->0,
{
    let s = PlacementStrategy::EfficiencyAware;
    let i = place_of_chosen(candidates, s, horizon_secs, c);
    let t = fleet_placement::tiers(candidates[j], s, horizon_secs);
}

/// Efficiency-aware, of the candidates that are equal in all that counts the last one is chosen.
pub proof fn the_last_of_equally_efficient_is_chosen(
    candidates: Seq<NodeCandidate>,
    horizon_secs: Option<i64>,
    c: NodeCandidate,
)
    requires
        fleet_placement::chosen(
            candidates,
            PlacementStrategy::EfficiencyAware,
            horizon_secs,
            Some(&c),
        ),
    ensures
        exists|i: int|
            0 <= i < candidates.len() && #[trigger] candidates[i] == c && forall|j: int|
                i < j < candidates.len() ==> !((#[trigger] candidates[j]).warmth == c.warmth
                    && same_hit_rate(candidates[j], c, horizon_secs) && same_tokens_per_joule(
                    candidates[j],
                    c,
                    horizon_secs,
                ) && same_utilization(candidates[j], c) && candidates[j].active_service_count
                    == c.active_service_count),
{
    let s = PlacementStrategy::EfficiencyAware;
    let i = place_of_chosen(candidates, s, horizon_secs, c);
    assert forall|j: int| i < j < candidates.len() implies !((#[trigger] candidates[j]).warmth
        == c.warmth && same_hit_rate(candidates[j], c, horizon_secs) && same_tokens_per_joule(
        candidates[j],
        c,
        horizon_secs,
    ) && same_utilization(candidates[j], c) && candidates[j].active_service_count
        == c.active_service_count) by {
        let t = fleet_placement::tiers(candidates[j], s, horizon_secs);
    }
}

/// Under the other strategies the active services come second: of the equally warm candidates none
/// has fewer than the chosen one, whose number is known if that of any of them is.
pub proof fn the_fewest_services_are_chosen(
    candidates: Seq<NodeCandidate>,
    strategy: PlacementStrategy,
    horizon_secs: Option<i64>,
    c: NodeCandidate,
    j: int,
)
    requires
        strategy != PlacementStrategy::EfficiencyAware,
        fleet_placement::chosen(candidates, strategy, horizon_secs, Some(&c)),
        0 <= j < candidates.len(),
        candidates[j].warmth == c.warmth,
        candidates[j].active_service_count is Some,
    ensures
        c.active_service_count is Some,
        c.active_service_count->0 <= candidates[j].active_service_count->0,
{
    let i = place_of_chosen(candidates, strategy, horizon_secs, c);
    let t = fleet_placement::tiers(candidates[j], strategy, horizon_secs);
}

/// Under the other strategies the utilization comes third: of the equally warm candidates with as
/// many active services none is less utilized than the chosen one, which has a utilization if any
/// of them has. Numbers are compared by size; what is not a number has its place in the order of
/// all measurements.
pub proof fn the_least_utilized_is_chosen(
    candidates: Seq<NodeCandidate>,
    strategy: PlacementStrategy,
    horizon_secs: Option<i64>,
    c: NodeCandidate,
    j: int,
)
    requires
        strategy != PlacementStrategy::EfficiencyAware,
        fleet_placement::chosen(candidates, strategy, horizon_secs, Some(&c)),
        0 <= j < candidates.len(),
        candidates[j].warmth == c.warmth,
        candidates[j].active_service_count == c.active_service_count,
        candidates[j].gpu_utilization is Some,
    ensures
        c.gpu_utilization is Some,
        c.gpu_utilization->0.order() <= candidates[j].gpu_utilization->0.order(),
        has_utilization(c) && has_utilization(candidates[j]) ==> c.gpu_utilization->0.number()
            <= candidates[j].gpu_utilization->0.number(),
{
    let i = place_of_chosen(candidates, strategy, horizon_secs, c);
    let t = fleet_placement::tiers(candidates[j], strategy, horizon_secs);
    if has_utilization(c) && has_utilization(candidates[j]) {
        signal::order_follows_number(c.gpu_utilization->0, candidates[j].gpu_utilization->0);
    }
}

/// Under the other strategies, of the candidates that are equal in warmth and load the last one is
/// chosen, whatever their efficiency.
pub proof fn the_last_of_equally_loaded_is_chosen(
    candidates: Seq<NodeCandidate>,
    strategy: PlacementStrategy,
    horizon_secs: Option<i64>,
    c: NodeCandidate,
)
    requires
        strategy != PlacementStrategy::EfficiencyAware,
        fleet_placement::chosen(candidates, strategy, horizon_secs, Some(&c)),
    ensures
        exists|i: int|
            0 <= i < candidates.len() && #[trigger] candidates[i] == c && forall|j: int|
                i < j < candidates.len() ==> !((#[trigger] candidates[j]).warmth == c.warmth
                    && candidates[j].active_service_count == c.active_service_count
                    && candidates[j].gpu_utilization == c.gpu_utilization),
{
    let i = place_of_chosen(candidates, strategy, horizon_secs, c);
    assert forall|j: int| i < j < candidates.len() implies !((#[trigger] candidates[j]).warmth
        == c.warmth && candidates[j].active_service_count == c.active_service_count
        && candidates[j].gpu_utilization == c.gpu_utilization) by {
        let t = fleet_placement::tiers(candidates[j], strategy, horizon_secs);
    }
}

/// A candidate that is worse than another one in the list is never chosen, so that taking it off
/// the list changes nothing: whoever is chosen from a list is chosen from every part of the list
/// that still has them.
pub proof fn leaving_out_others_changes_nothing(
    candidates: Seq<NodeCandidate>,
    strategy: PlacementStrategy,
    horizon_secs: Option<i64>,
    c: NodeCandidate,
    k: int,
)
    requires
        fleet_placement::chosen(candidates, strategy, horizon_secs, Some(&c)),
        0 <= k < candidates.len(),
        candidates[k] != c,
    ensures
        fleet_placement::chosen(candidates.remove(k), strategy, horizon_secs, Some(&c)),
{
    let i = place_of_chosen(candidates, strategy, horizon_secs, c);
    let rest = candidates.remove(k);
    let m = if i < k { i } else { i - 1 };
    assert(rest[m] == c);
    assert forall|j: int| 0 <= j < rest.len() implies !fleet_placement::lower(
        fleet_placement::tiers(rest[m], strategy, horizon_secs),
        #[trigger] fleet_placement::tiers(rest[j], strategy, horizon_secs),
    ) by {
        let o = if j < k { j } else { j + 1 };
        assert(rest[j] == candidates[o]);
    }
    assert forall|j: int| m < j < rest.len() implies fleet_placement::lower(
        #[trigger] fleet_placement::tiers(rest[j], strategy, horizon_secs),
        fleet_placement::tiers(rest[m], strategy, horizon_secs),
    ) by {
        let o = if j < k { j } else { j + 1 };
        assert(rest[j] == candidates[o]);
    }
    assert(fleet_placement::is_choice(rest, strategy, horizon_secs, m));
    fleet_placement::choice_is_unique(
        rest,
        strategy,
        horizon_secs,
        m,
        fleet_placement::choice(rest, strategy, horizon_secs),
    );
}

/// Whether a candidate is a survivor of the loss of a node: another node, and not a cold one.
pub open spec fn survives(c: NodeCandidate, lost: Seq<char>) -> bool {
    c.name@ != lost && c.warmth != Warmth::Cold
}

/// The place, among the candidates, of the one that gives the replacement.
proof fn place_of_replacement(
    candidates: Seq<NodeCandidate>,
    lost: Seq<char>,
    strategy: PlacementStrategy,
    horizon_secs: Option<i64>,
) -> (c: NodeCandidate)
    requires
        fleet_placement::replacement(candidates, lost, strategy, horizon_secs) is Some,
    ensures
        candidates.contains(c),
        survives(c, lost),
        fleet_placement::replacement(candidates, lost, strategy, horizon_secs) == Some(c.name@),
        fleet_placement::chosen(
            fleet_placement::survivors(candidates, lost),
            strategy,
            horizon_secs,
            Some(&c),
        ),
{
    let keep = fleet_placement::may_replace(lost);
    let s = fleet_placement::survivors(candidates, lost);
    placement_laws::some_candidate_is_chosen(s, strategy, horizon_secs);
    let k = fleet_placement::choice(s, strategy, horizon_secs);
    assert(keep(s[k]));
    assert(s.contains(s[k]));
    candidates.lemma_filter_contains_rev(keep, s[k]);
    s[k]
}

/// A survivor stands among the survivors.
proof fn place_among_survivors(candidates: Seq<NodeCandidate>, lost: Seq<char>, j: int) -> (k: int)
    requires
        0 <= j < candidates.len(),
        survives(candidates[j], lost),
    ensures
        0 <= k < fleet_placement::survivors(candidates, lost).len(),
        fleet_placement::survivors(candidates, lost)[k] == candidates[j],
{
    let keep = fleet_placement::may_replace(lost);
    let s = fleet_placement::survivors(candidates, lost);
    assert(keep(candidates[j]));
    candidates.lemma_filter_contains(keep, j);
    choose|k: int| 0 <= k < s.len() && s[k] == candidates[j]
}

/// The replacement is what the fleet's own strategy and horizon choose from the survivors.
pub proof fn replacement_is_the_choice_among_survivors(
    candidates: Seq<NodeCandidate>,
    lost: Seq<char>,
    strategy: PlacementStrategy,
    horizon_secs: Option<i64>,
    c: NodeCandidate,
)
    requires
        fleet_placement::chosen(
            candidates.filter(
                |n: NodeCandidate| n.name@ != lost && n.warmth != Warmth::Cold,
            ),
            strategy,
            horizon_secs,
            Some(&c),
        ),
    ensures
        fleet_placement::replacement(candidates, lost, strategy, horizon_secs) == Some(c.name@),
{
    let test = |n: NodeCandidate| n.name@ != lost && n.warmth != Warmth::Cold;
    assert(test =~= fleet_placement::may_replace(lost));
}

/// Where the lost node is not a candidate and no candidate is cold, the replacement is the node
/// that the strategy would choose anyway.
pub proof fn replacement_is_the_ordinary_choice(
    candidates: Seq<NodeCandidate>,
    lost: Seq<char>,
    strategy: PlacementStrategy,
    horizon_secs: Option<i64>,
    c: NodeCandidate,
)
    requires
        forall|i: int| 0 <= i < candidates.len() ==> survives(#[trigger] candidates[i], lost),
        fleet_placement::chosen(candidates, strategy, horizon_secs, Some(&c)),
    ensures
        fleet_placement::replacement(candidates, lost, strategy, horizon_secs) == Some(c.name@),
{
    all_survive(candidates, lost);
}

proof fn all_survive(candidates: Seq<NodeCandidate>, lost: Seq<char>)
    requires
        forall|i: int| 0 <= i < candidates.len() ==> survives(#[trigger] candidates[i], lost),
    ensures
        fleet_placement::survivors(candidates, lost) == candidates,
    decreases candidates.len(),
{
    reveal(Seq::filter);
    let keep = fleet_placement::may_replace(lost);
    if candidates.len() > 0 {
        let front = candidates.drop_last();
        assert forall|i: int| 0 <= i < front.len() implies survives(#[trigger] front[i], lost) by {
            assert(front[i] == candidates[i]);
        }
        all_survive(front, lost);
        assert(survives(candidates[candidates.len() - 1], lost));
        assert(candidates =~= front.push(candidates.last()));
    } else {
        assert(candidates.filter(keep) =~= candidates);
    }
}

/// The lost node itself and cold nodes have no say in the replacement: with or without one of
/// them, it is the same.
pub proof fn unfit_nodes_do_not_affect_the_replacement(
    candidates: Seq<NodeCandidate>,
    lost: Seq<char>,
    strategy: PlacementStrategy,
    horizon_secs: Option<i64>,
    k: int,
)
    requires
        0 <= k < candidates.len(),
        candidates[k].name@ == lost || candidates[k].warmth == Warmth::Cold,
    ensures
        fleet_placement::replacement(candidates.remove(k), lost, strategy, horizon_secs)
            == fleet_placement::replacement(candidates, lost, strategy, horizon_secs),
{
    let keep = fleet_placement::may_replace(lost);
    let a = candidates.take(k);
    let b = candidates.skip(k + 1);
    let one = seq![candidates[k]];
    assert(candidates =~= a + one + b);
    assert(candidates.remove(k) =~= a + b);
    Seq::filter_distributes_over_add(a + one, b, keep);
    Seq::filter_distributes_over_add(a, one, keep);
    Seq::filter_distributes_over_add(a, b, keep);
    assert(one.filter(keep) =~= Seq::<NodeCandidate>::empty()) by {
        reveal(Seq::filter);
        assert(one.drop_last() =~= Seq::<NodeCandidate>::empty());
        assert(one.drop_last().filter(keep) =~= Seq::<NodeCandidate>::empty());
        assert(!keep(one.last()));
    }
    assert(a.filter(keep) + one.filter(keep) =~= a.filter(keep));
}

/// No survivor is better than the replacement. Under every strategy none is warmer. Efficiency-aware,
/// none that is as warm has a better hit rate; under the other strategies none that is as warm has
/// fewer active services.
pub proof fn no_survivor_is_better_than_the_replacement(
    candidates: Seq<NodeCandidate>,
    lost: Seq<char>,
    strategy: PlacementStrategy,
    horizon_secs: Option<i64>,
)
    requires
        fleet_placement::replacement(candidates, lost, strategy, horizon_secs) is Some,
    ensures
        exists|i: int|
            0 <= i < candidates.len() && survives(#[trigger] candidates[i], lost)
                && fleet_placement::replacement(candidates, lost, strategy, horizon_secs) == Some(
                candidates[i].name@,
            ) && forall|j: int|
                0 <= j < candidates.len() && survives(#[trigger] candidates[j], lost) ==> {
                    let (c, other) = (candidates[i], candidates[j]);
                    &&& other.warmth == Warmth::Warm ==> c.warmth == Warmth::Warm
                    &&& strategy == PlacementStrategy::EfficiencyAware && other.warmth == c.warmth
                        && has_hit_rate(other, horizon_secs) ==> has_hit_rate(c, horizon_secs)
                        && other.kv_cache_hit_rate->0.number()
                        <= c.kv_cache_hit_rate->0.number()
                    &&& strategy != PlacementStrategy::EfficiencyAware && other.warmth == c.warmth
                        && other.active_service_count is Some ==> c.active_service_count is Some
                        && c.active_service_count->0 <= other.active_service_count->0
                },
{
    let c = place_of_replacement(candidates, lost, strategy, horizon_secs);
    let i = choose|i: int| 0 <= i < candidates.len() && candidates[i] == c;
    let s = fleet_placement::survivors(candidates, lost);
    assert(survives(candidates[i], lost));
    assert forall|j: int| 0 <= j < candidates.len() && survives(#[trigger] candidates[j], lost)
        implies {
        let other = candidates[j];
        &&& other.warmth == Warmth::Warm ==> c.warmth == Warmth::Warm
        &&& strategy == PlacementStrategy::EfficiencyAware && other.warmth == c.warmth
            && has_hit_rate(other, horizon_secs) ==> has_hit_rate(c, horizon_secs)
            && other.kv_cache_hit_rate->0.number() <= c.kv_cache_hit_rate->0.number()
        &&& strategy != PlacementStrategy::EfficiencyAware && other.warmth == c.warmth
            && other.active_service_count is Some ==> c.active_service_count is Some
            && c.active_service_count->0 <= other.active_service_count->0
    } by {
        let k = place_among_survivors(candidates, lost, j);
        the_warmest_is_chosen(s, strategy, horizon_secs, c, k);
        if strategy == PlacementStrategy::EfficiencyAware {
            if candidates[j].warmth == c.warmth && has_hit_rate(candidates[j], horizon_secs) {
                the_best_hit_rate_is_chosen(s, horizon_secs, c, k);
            }
        } else if candidates[j].warmth == c.warmth && candidates[j].active_service_count is Some {
            the_fewest_services_are_chosen(s, strategy, horizon_secs, c, k);
        }
    }
}

/// Efficiency-aware, the tokens per joule decide between survivors that are equally warm and have
/// the same hit rate, or none.
pub proof fn the_replacement_has_the_most_tokens_per_joule(
    candidates: Seq<NodeCandidate>,
    lost: Seq<char>,
    horizon_secs: Option<i64>,
)
    requires
        fleet_placement::replacement(
            candidates,
            lost,
            PlacementStrategy::EfficiencyAware,
            horizon_secs,
        ) is Some,
    ensures
        exists|i: int|
            0 <= i < candidates.len() && survives(#[trigger] candidates[i], lost)
                && fleet_placement::replacement(
                candidates,
                lost,
                PlacementStrategy::EfficiencyAware,
                horizon_secs,
            ) == Some(candidates[i].name@) && forall|j: int|
                0 <= j < candidates.len() && survives(#[trigger] candidates[j], lost)
                    && candidates[j].warmth == candidates[i].warmth && same_hit_rate(
                    candidates[j],
                    candidates[i],
                    horizon_secs,
                ) && has_tokens_per_joule(candidates[j], horizon_secs) ==> has_tokens_per_joule(
                    candidates[i],
                    horizon_secs,
                ) && candidates[j].tokens_per_joule->0.number()
                    <= candidates[i].tokens_per_joule->0.number(),
{
    let strategy = PlacementStrategy::EfficiencyAware;
    let c = place_of_replacement(candidates, lost, strategy, horizon_secs);
    let i = choose|i: int| 0 <= i < candidates.len() && candidates[i] == c;
    let s = fleet_placement::survivors(candidates, lost);
    assert(survives(candidates[i], lost));
    assert forall|j: int|
        0 <= j < candidates.len() && survives(#[trigger] candidates[j], lost)
            && candidates[j].warmth == c.warmth && same_hit_rate(candidates[j], c, horizon_secs)
            && has_tokens_per_joule(candidates[j], horizon_secs) implies has_tokens_per_joule(
        c,
        horizon_secs,
    ) && candidates[j].tokens_per_joule->0.number() <= c.tokens_per_joule->0.number() by {
        let k = place_among_survivors(candidates, lost, j);
        the_most_tokens_per_joule_are_chosen(s, horizon_secs, c, k);
    }
}

/// What `select_node_efficiency_aware` returns: nothing for an empty list, and else one of the
/// candidates. No candidate is warmer; none that is as warm has a better hit rate; of those with the
/// same hit rate none has more tokens per joule; of those with the same tokens per joule none is
/// less utilized; and of those with the same utilization none has fewer active services.
pub proof fn efficiency_aware_selection(
    candidates: &[NodeCandidate],
    horizon_secs: Option<i64>,
    r: Option<&NodeCandidate>,
    j: int,
)
    requires
        call_ensures(
            fleet_placement::select_node_efficiency_aware,
            (candidates, horizon_secs),
            r,
        ),
        0 <= j < candidates@.len(),
    ensures
        r is Some,
        candidates@.contains(*r->0),
        ({
            let (c, other) = (*r->0, candidates@[j]);
            let level = other.warmth == c.warmth;
            let level_2 = level && same_hit_rate(other, c, horizon_secs);
            let level_3 = level_2 && same_tokens_per_joule(other, c, horizon_secs);
            let level_4 = level_3 && same_utilization(other, c);
            &&& other.warmth == Warmth::Warm ==> c.warmth == Warmth::Warm
            &&& other.warmth == Warmth::Warming ==> c.warmth != Warmth::Cold
            &&& level && has_hit_rate(other, horizon_secs) ==> has_hit_rate(c, horizon_secs)
                && other.kv_cache_hit_rate->0.number() <= c.kv_cache_hit_rate->0.number()
            &&& level_2 && has_tokens_per_joule(other, horizon_secs) ==> has_tokens_per_joule(
                c,
                horizon_secs,
            ) && other.tokens_per_joule->0.number() <= c.tokens_per_joule->0.number()
            &&& level_3 && has_utilization(other) ==> has_utilization(c)
                && c.gpu_utilization->0.number() <= other.gpu_utilization->0.number()
            &&& level_4 && other.active_service_count is Some ==> c.active_service_count is Some
                && c.active_service_count->0 <= other.active_service_count->0
        }),
{
    let s = candidates@;
    let c = *r->0;
    let other = s[j];
    assert(fleet_placement::chosen(
        s,
        PlacementStrategy::EfficiencyAware,
        horizon_secs,
        Some(&c),
    ));
    the_warmest_is_chosen(s, PlacementStrategy::EfficiencyAware, horizon_secs, c, j);
    if other.warmth == c.warmth {
        if has_hit_rate(other, horizon_secs) {
            the_best_hit_rate_is_chosen(s, horizon_secs, c, j);
        }
        if same_hit_rate(other, c, horizon_secs) {
            if has_tokens_per_joule(other, horizon_secs) {
                the_most_tokens_per_joule_are_chosen(s, horizon_secs, c, j);
            }
            if same_tokens_per_joule(other, c, horizon_secs) {
                if has_utilization(other) {
                    the_least_utilized_of_the_efficient_is_chosen(s, horizon_secs, c, j);
                }
                if same_utilization(other, c) && other.active_service_count is Some {
                    the_fewest_services_of_the_efficient_are_chosen(s, horizon_secs, c, j);
                }
            }
        }
    }
}

/// What `select_node_for_placement` returns: nothing for an empty list, and else one of the
/// candidates. No candidate is warmer; none that is as warm has fewer active services; and of those
/// with as many none is less utilized.
pub proof fn warmth_first_selection(
    candidates: &[NodeCandidate],
    r: Option<&NodeCandidate>,
    j: int,
)
    requires
        call_ensures(fleet_placement::select_node_for_placement, (candidates,), r),
        0 <= j < candidates@.len(),
    ensures
        r is Some,
        candidates@.contains(*r->0),
        ({
            let (c, other) = (*r->0, candidates@[j]);
            let level = other.warmth == c.warmth;
            let level_2 = level && other.active_service_count == c.active_service_count;
            &&& other.warmth == Warmth::Warm ==> c.warmth == Warmth::Warm
            &&& other.warmth == Warmth::Warming ==> c.warmth != Warmth::Cold
            &&& level && other.active_service_count is Some ==> c.active_service_count is Some
                && c.active_service_count->0 <= other.active_service_count->0
            &&& level_2 && other.gpu_utilization is Some ==> c.gpu_utilization is Some
                && c.gpu_utilization->0.order() <= other.gpu_utilization->0.order()
            &&& level_2 && has_utilization(other) && has_utilization(c)
                ==> c.gpu_utilization->0.number() <= other.gpu_utilization->0.number()
        }),
{
    let s = candidates@;
    let c = *r->0;
    let other = s[j];
    let w = PlacementStrategy::WarmthFirst;
    assert(fleet_placement::chosen(s, w, None, Some(&c)));
    the_warmest_is_chosen(s, w, None, c, j);
    if other.warmth == c.warmth {
        if other.active_service_count is Some {
            the_fewest_services_are_chosen(s, w, None, c, j);
        }
        if other.active_service_count == c.active_service_count && other.gpu_utilization is Some {
            the_least_utilized_is_chosen(s, w, None, c, j);
        }
    }
}

/// Nothing is selected from an empty list, by any of the three selections.
pub proof fn nothing_is_selected_from_nothing(
    candidates: &[NodeCandidate],
    strategy: &PlacementStrategy,
    horizon_secs: Option<i64>,
    a: Option<&NodeCandidate>,
    b: Option<&NodeCandidate>,
    c: Option<&NodeCandidate>,
)
    requires
        candidates@.len() == 0,
        call_ensures(fleet_placement::select_node_for_placement, (candidates,), a),
        call_ensures(fleet_placement::select_node_efficiency_aware, (candidates, horizon_secs), b),
        call_ensures(
            fleet_placement::select_node_with_strategy,
            (candidates, strategy, horizon_secs),
            c,
        ),
    ensures
        a is None,
        b is None,
        c is None,
{
}

/// `select_node_with_strategy` honours the strategy and the horizon: efficiency-aware it selects
/// what `select_node_efficiency_aware` does within that horizon, and under every other strategy what
/// `select_node_for_placement` does.
pub proof fn selection_honours_the_strategy(
    candidates: &[NodeCandidate],
    strategy: &PlacementStrategy,
    horizon_secs: Option<i64>,
    r: Option<&NodeCandidate>,
    efficient: Option<&NodeCandidate>,
    warm: Option<&NodeCandidate>,
)
    requires
        call_ensures(
            fleet_placement::select_node_with_strategy,
            (candidates, strategy, horizon_secs),
            r,
        ),
        call_ensures(
            fleet_placement::select_node_efficiency_aware,
            (candidates, horizon_secs),
            efficient,
        ),
        call_ensures(fleet_placement::select_node_for_placement, (candidates,), warm),
    ensures
        r == (if *strategy == PlacementStrategy::EfficiencyAware {
            efficient
        } else {
            warm
        }),
{
    if candidates@.len() > 0 && *strategy != PlacementStrategy::EfficiencyAware {
        placement_laws::other_strategies_are_warmth_first(candidates@, *strategy, horizon_secs);
    }
}

/// Of candidates that are equal in all that counts, the last one is selected: behind the place of
/// the selected one there is none that is equal to it.
pub proof fn the_last_of_equals_is_selected(
    candidates: &[NodeCandidate],
    strategy: &PlacementStrategy,
    horizon_secs: Option<i64>,
    r: Option<&NodeCandidate>,
)
    requires
        call_ensures(
            fleet_placement::select_node_with_strategy,
            (candidates, strategy, horizon_secs),
            r,
        ),
        r is Some,
    ensures
        exists|i: int|
            0 <= i < candidates@.len() && #[trigger] candidates@[i] == *r->0 && forall|j: int|
                i < j < candidates@.len() ==> (#[trigger] candidates@[j]).warmth != r->0.warmth
                    || candidates@[j].active_service_count != r->0.active_service_count
                    || candidates@[j].gpu_utilization != r->0.gpu_utilization
                    || candidates@[j].kv_cache_hit_rate != r->0.kv_cache_hit_rate
                    || candidates@[j].tokens_per_joule != r->0.tokens_per_joule
                    || candidates@[j].kv_cache_hit_rate_age_secs
                    != r->0.kv_cache_hit_rate_age_secs || candidates@[j].tokens_per_joule_age_secs
                    != r->0.tokens_per_joule_age_secs,
{
    let s = candidates@;
    let c = *r->0;
    let i = place_of_chosen(s, *strategy, horizon_secs, c);
    assert forall|j: int| i < j < s.len() implies (#[trigger] s[j]).warmth != c.warmth
        || s[j].active_service_count != c.active_service_count || s[j].gpu_utilization
        != c.gpu_utilization || s[j].kv_cache_hit_rate != c.kv_cache_hit_rate
        || s[j].tokens_per_joule != c.tokens_per_joule || s[j].kv_cache_hit_rate_age_secs
        != c.kv_cache_hit_rate_age_secs || s[j].tokens_per_joule_age_secs
        != c.tokens_per_joule_age_secs by {
        let t = fleet_placement::tiers(s[j], *strategy, horizon_secs);
        assert(fleet_placement::lower(t, fleet_placement::tiers(c, *strategy, horizon_secs)));
    }
}

/// `select_replacement_node` honours the strategy and the horizon as `select_node_with_strategy`
/// does: asked for the same over the candidates that are neither the lost node nor cold, they agree.
pub proof fn replacement_honours_the_strategy(
    candidates: &[NodeCandidate],
    lost: &str,
    strategy: &PlacementStrategy,
    horizon_secs: Option<i64>,
    r: Option<String>,
    survivors: &[NodeCandidate],
    selected: Option<&NodeCandidate>,
)
    requires
        call_ensures(
            fleet_placement::select_replacement_node,
            (candidates, lost, strategy, horizon_secs),
            r,
        ),
        survivors@ == candidates@.filter(
            |n: NodeCandidate| n.name@ != lost@ && n.warmth != Warmth::Cold,
        ),
        call_ensures(
            fleet_placement::select_node_with_strategy,
            (survivors, strategy, horizon_secs),
            selected,
        ),
    ensures
        r is Some <==> selected is Some,
        r is Some ==> r->0@ == selected->0.name@,
{
    let test = |n: NodeCandidate| n.name@ != lost@ && n.warmth != Warmth::Cold;
    assert(test =~= fleet_placement::may_replace(lost@));
    assert(survivors@ == fleet_placement::survivors(candidates@, lost@));
}

/// The two gates and the key, as they are computed: `fresh_signal`, the three range tests,
/// `comparison_key_within` and `comparison_key`.
pub proof fn the_gates_let_through_what_counts(
    value: Option<Signal>,
    age_secs: Option<i64>,
    horizon_secs: Option<i64>,
    fresh: Option<Signal>,
    hit_rate: Option<Signal>,
    tokens: Option<Signal>,
    utilization: Option<Signal>,
)
    requires
        call_ensures(fleet_placement::fresh_signal, (value, age_secs, horizon_secs), fresh),
        call_ensures(fleet_placement::valid_hit_rate, (value,), hit_rate),
        call_ensures(fleet_placement::valid_tokens_per_joule, (value,), tokens),
        call_ensures(fleet_placement::valid_utilization, (value,), utilization),
    ensures
        fresh == (if counts(age_secs, horizon_secs) {
            value
        } else {
            None
        }),
        hit_rate is Some ==> hit_rate == value,
        hit_rate is Some <==> value is Some && (value->0.bits <= 0x3f80_0000 || value->0.bits
            == 0x8000_0000),
        tokens is Some ==> tokens == value,
        tokens is Some <==> value is Some && (value->0.bits < 0x7f80_0000 || value->0.bits
            == 0x8000_0000),
        utilization is Some ==> utilization == value,
        utilization is Some <==> value is Some && (value->0.bits < 0x7f80_0000 || 0x8000_0000
            <= value->0.bits < 0xff80_0000),
{
    signals_count_within_horizon_and_range(value, age_secs, horizon_secs);
}

/// Two candidates have the same key exactly if the efficiency-aware order cannot tell them apart.
pub proof fn equal_keys_are_equal_in_all_that_counts(
    a: &NodeCandidate,
    b: &NodeCandidate,
    horizon_secs: Option<i64>,
    ka: fleet_placement::ComparisonKey,
    kb: fleet_placement::ComparisonKey,
    ka_unlimited: fleet_placement::ComparisonKey,
)
    requires
        call_ensures(fleet_placement::comparison_key_within, (a, horizon_secs), ka),
        call_ensures(fleet_placement::comparison_key_within, (b, horizon_secs), kb),
        call_ensures(fleet_placement::comparison_key, (a,), ka_unlimited),
    ensures
        ka == kb <==> a.warmth == b.warmth && same_hit_rate(*a, *b, horizon_secs)
            && same_tokens_per_joule(*a, *b, horizon_secs) && same_utilization(*a, *b)
            && a.active_service_count == b.active_service_count,
        horizon_secs is None ==> ka_unlimited == ka,
        ka.kv_cache_hit_rate is Some <==> has_hit_rate(*a, horizon_secs),
        ka.kv_cache_hit_rate is Some ==> ka.kv_cache_hit_rate == a.kv_cache_hit_rate,
        ka.tokens_per_joule is Some <==> has_tokens_per_joule(*a, horizon_secs),
        ka.tokens_per_joule is Some ==> ka.tokens_per_joule == a.tokens_per_joule,
        ka.gpu_utilization is Some <==> has_utilization(*a),
        ka.gpu_utilization is Some ==> ka.gpu_utilization == a.gpu_utilization,
        ka.active_service_count == a.active_service_count,
        ka.warmth < kb.warmth <==> (a.warmth == Warmth::Cold && b.warmth != Warmth::Cold) || (
        a.warmth == Warmth::Warming && b.warmth == Warmth::Warm),
{
}

/// A warmer node has the higher rank.
pub proof fn warmer_nodes_rank_higher(a: &Warmth, ra: u8)
    requires
        call_ensures(fleet_placement::warmth_rank, (a,), ra),
    ensures
        *a == Warmth::Cold ==> ra == 0,
        *a == Warmth::Warming ==> ra == 1,
        *a == Warmth::Warm ==> ra == 2,
{
}

/// The tests on measurements, and the comparison of readings, by their bit patterns.
pub proof fn measurements_are_tested_by_bits(
    s: &Signal,
    key: i64,
    finite: bool,
    non_negative: bool,
    fraction: bool,
    a: &signal::Reading,
    b: &signal::Reading,
    grew: bool,
)
    requires
        call_ensures(Signal::order_key, (s,), key),
        call_ensures(Signal::is_finite, (s,), finite),
        call_ensures(Signal::is_non_negative, (s,), non_negative),
        call_ensures(Signal::is_fraction, (s,), fraction),
        call_ensures(signal::Reading::grew_to, (a, b), grew),
    ensures
        s.bits < 0x8000_0000 ==> key == s.bits,
        s.bits >= 0x8000_0000 ==> key == 0x7fff_ffff - s.bits,
        finite <==> s.bits < 0x7f80_0000 || 0x8000_0000 <= s.bits < 0xff80_0000,
        non_negative <==> s.bits < 0x7f80_0000 || s.bits == 0x8000_0000,
        fraction <==> s.bits <= 0x3f80_0000 || s.bits == 0x8000_0000,
        a.bits <= 0x7ff0_0000_0000_0000 && b.bits <= 0x7ff0_0000_0000_0000 ==> (grew <==> a.bits
            <= b.bits && a.bits < 0x7ff0_0000_0000_0000),
        a.bits > 0x8000_0000_0000_0000 && a.bits <= 0xfff0_0000_0000_0000 && b.bits
            <= 0x7ff0_0000_0000_0000 ==> grew,
        0x7ff0_0000_0000_0000 < a.bits < 0x8000_0000_0000_0000 || 0x7ff0_0000_0000_0000 < b.bits
            < 0x8000_0000_0000_0000 || a.bits > 0xfff0_0000_0000_0000 || b.bits
            > 0xfff0_0000_0000_0000 ==> !grew,
        grew == a.grows_to(*b),
{
    signal::fractions_by_bits(*s);
    signal::measurements_follow_the_format(*s);
    signal::counters_grow_by_bits(*a, *b);
}

/// Strategies and warmths go by their names.
pub proof fn strategies_and_warmths_have_names(
    s: &PlacementStrategy,
    rs: &'static str,
    w: &Warmth,
    rw: &'static str,
)
    requires
        call_ensures(PlacementStrategy::label, (s,), rs),
        call_ensures(Warmth::label, (w,), rw),
    ensures
        rs@ == (match *s {
            PlacementStrategy::WarmthFirst => "WarmthFirst"@,
            PlacementStrategy::Spread => "Spread"@,
            PlacementStrategy::BinPack => "BinPack"@,
            PlacementStrategy::EfficiencyAware => "EfficiencyAware"@,
        }),
        rw@ == (match *w {
            Warmth::Cold => "Cold"@,
            Warmth::Warming => "Warming"@,
            Warmth::Warm => "Warm"@,
        }),
{
}

} // verus!
