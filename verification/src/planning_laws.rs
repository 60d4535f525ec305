//! What a plan for a batch must satisfy, and how two plans relate.
use crate::choice_laws;
use crate::fleet_placement;
use crate::fleet_placement::NodeCandidate;
use crate::fleet_planning;
use crate::fleet_types::{PlacementStrategy, Warmth};
use crate::placement_laws;
use vstd::prelude::*;

verus! {

/// A batch asks for as many nodes as there are slots to fill, and for none where the number is
/// negative.
pub proof fn a_batch_has_as_many_slots_as_asked(slots_to_fill: i32)
    ensures
        slots_to_fill >= 0 ==> fleet_planning::slot_count(slots_to_fill) == slots_to_fill,
        slots_to_fill <= 0 ==> fleet_planning::slot_count(slots_to_fill) == 0,
{
}

/// No slots, or no candidates, no nodes; and nothing to count.
pub proof fn an_empty_batch_needs_nothing(
    candidates: Seq<NodeCandidate>,
    slots: nat,
    strategy: PlacementStrategy,
    horizon_secs: Option<i64>,
)
    requires
        slots == 0 || candidates.len() == 0,
    ensures
        fleet_planning::plan(candidates, slots, strategy, horizon_secs).len() == 0,
        fleet_planning::plan_fits(candidates, slots, strategy, horizon_secs),
{
}

/// The first node of a plan is the one that the given strategy chooses within the given horizon.
pub proof fn a_plan_starts_with_the_choice(
    candidates: Seq<NodeCandidate>,
    slots: nat,
    strategy: PlacementStrategy,
    horizon_secs: Option<i64>,
    c: NodeCandidate,
)
    requires
        slots > 0,
        fleet_placement::chosen(candidates, strategy, horizon_secs, Some(&c)),
    ensures
        fleet_planning::plan(candidates, slots, strategy, horizon_secs).len() > 0,
        fleet_planning::plan(candidates, slots, strategy, horizon_secs)[0] == c.name@,
{
}

/// Whether the second list of candidates is the first one with one service more on the first
/// candidate of the given name, and nothing else changed.
pub open spec fn one_service_more(
    before: Seq<NodeCandidate>,
    after: Seq<NodeCandidate>,
    name: Seq<char>,
    k: int,
) -> bool {
    &&& after.len() == before.len()
    &&& 0 <= k < before.len()
    &&& before[k].name@ == name
    &&& forall|j: int| 0 <= j < k ==> (#[trigger] before[j]).name@ != name
    &&& forall|j: int| 0 <= j < before.len() && j != k ==> #[trigger] after[j] == before[j]
    &&& after[k].name == before[k].name
    &&& after[k].warmth == before[k].warmth
    &&& after[k].gpu_utilization == before[k].gpu_utilization
    &&& after[k].kv_cache_hit_rate == before[k].kv_cache_hit_rate
    &&& after[k].kv_cache_hit_rate_age_secs == before[k].kv_cache_hit_rate_age_secs
    &&& after[k].tokens_per_joule == before[k].tokens_per_joule
    &&& after[k].tokens_per_joule_age_secs == before[k].tokens_per_joule_age_secs
    &&& after[k].active_service_count is Some
    &&& after[k].active_service_count->0 == (match before[k].active_service_count {
        Some(n) => n + 1,
        None => 1,
    })
}

/// The rest of a plan is the plan for one slot less, once the service that was placed first counts
/// on its node.
pub proof fn a_plan_goes_on_with_the_load_added(
    candidates: Seq<NodeCandidate>,
    next: Seq<NodeCandidate>,
    slots: nat,
    strategy: PlacementStrategy,
    horizon_secs: Option<i64>,
    k: int,
)
    requires
        slots > 0,
        candidates.len() > 0,
        one_service_more(
            candidates,
            next,
            fleet_planning::plan(candidates, slots, strategy, horizon_secs)[0],
            k,
        ),
    ensures
        ({
            let p = fleet_planning::plan(candidates, slots, strategy, horizon_secs);
            &&& p.skip(1) == fleet_planning::plan(
                next,
                (slots - 1) as nat,
                strategy,
                horizon_secs,
            )
            &&& fleet_planning::plan_fits(candidates, slots, strategy, horizon_secs)
                == fleet_planning::plan_fits(next, (slots - 1) as nat, strategy, horizon_secs)
        }),
{
    let p = fleet_planning::plan(candidates, slots, strategy, horizon_secs);
    let name = fleet_planning::choice_name(candidates, strategy, horizon_secs);
    assert(p[0] == name);
    assert(fleet_planning::is_first_named(candidates, name, k));
    let f = fleet_planning::first_named(candidates, name);
    assert(fleet_planning::is_first_named(candidates, name, f));
    assert(f < k ==> candidates[f].name@ != name);
    assert(k < f ==> candidates[k].name@ != name);
    assert(next =~= fleet_planning::after_placing(candidates, name));
    assert(p.skip(1) =~= fleet_planning::plan(next, (slots - 1) as nat, strategy, horizon_secs));
}

/// A plan can be counted only if the load of its first node leaves room for one more.
pub proof fn a_full_node_cannot_be_counted(
    candidates: Seq<NodeCandidate>,
    slots: nat,
    strategy: PlacementStrategy,
    horizon_secs: Option<i64>,
    k: int,
)
    requires
        slots > 0,
        0 <= k < candidates.len(),
        candidates[k].name@ == fleet_planning::plan(candidates, slots, strategy, horizon_secs)[0],
        forall|j: int|
            0 <= j < k ==> (#[trigger] candidates[j]).name@ != fleet_planning::plan(
                candidates,
                slots,
                strategy,
                horizon_secs,
            )[0],
        candidates[k].active_service_count == Some(i32::MAX),
    ensures
        !fleet_planning::plan_fits(candidates, slots, strategy, horizon_secs),
{
    let name = fleet_planning::choice_name(candidates, strategy, horizon_secs);
    assert(fleet_planning::is_first_named(candidates, name, k));
    let f = fleet_planning::first_named(candidates, name);
    assert(fleet_planning::is_first_named(candidates, name, f));
    assert(f < k ==> candidates[f].name@ != name);
    assert(k < f ==> candidates[k].name@ != name);
}

/// Whether the second list is the first one without the efficiency signals that are beyond the
/// horizon, or of unknown age.
pub open spec fn stripped_of_expired(
    all: Seq<NodeCandidate>,
    stripped: Seq<NodeCandidate>,
    horizon_secs: i64,
) -> bool {
    &&& stripped.len() == all.len()
    &&& forall|i: int|
        0 <= i < all.len() ==> {
            let (a, b) = (all[i], #[trigger] stripped[i]);
            &&& b.name == a.name
            &&& b.warmth == a.warmth
            &&& b.gpu_utilization == a.gpu_utilization
            &&& b.active_service_count == a.active_service_count
            &&& b.kv_cache_hit_rate_age_secs == a.kv_cache_hit_rate_age_secs
            &&& b.tokens_per_joule_age_secs == a.tokens_per_joule_age_secs
            &&& b.kv_cache_hit_rate == (if choice_laws::counts(
                a.kv_cache_hit_rate_age_secs,
                Some(horizon_secs),
            ) {
                a.kv_cache_hit_rate
            } else {
                None
            })
            &&& b.tokens_per_joule == (if choice_laws::counts(
                a.tokens_per_joule_age_secs,
                Some(horizon_secs),
            ) {
                a.tokens_per_joule
            } else {
                None
            })
        }
}

/// A signal beyond the horizon counts as never observed: without all such signals the same node is
/// chosen.
pub proof fn expired_signals_change_no_choice(
    all: Seq<NodeCandidate>,
    stripped: Seq<NodeCandidate>,
    strategy: PlacementStrategy,
    horizon_secs: i64,
    c: NodeCandidate,
)
    requires
        stripped_of_expired(all, stripped, horizon_secs),
        fleet_placement::chosen(all, strategy, Some(horizon_secs), Some(&c)),
    ensures
        exists|d: NodeCandidate| #[trigger]
            fleet_placement::chosen(stripped, strategy, Some(horizon_secs), Some(&d)) && d.name
                == c.name,
{
    same_place(all, stripped, strategy, horizon_secs);
    placement_laws::some_candidate_is_chosen(stripped, strategy, Some(horizon_secs));
    let i = fleet_placement::choice(stripped, strategy, Some(horizon_secs));
    assert(fleet_placement::chosen(
        stripped,
        strategy,
        Some(horizon_secs),
        Some(&stripped[i]),
    ));
}

proof fn same_place(
    all: Seq<NodeCandidate>,
    stripped: Seq<NodeCandidate>,
    strategy: PlacementStrategy,
    horizon_secs: i64,
)
    requires
        all.len() > 0,
        stripped_of_expired(all, stripped, horizon_secs),
    ensures
        fleet_placement::choice(all, strategy, Some(horizon_secs)) == fleet_placement::choice(
            stripped,
            strategy,
            Some(horizon_secs),
        ),
        fleet_placement::is_choice(
            all,
            strategy,
            Some(horizon_secs),
            fleet_placement::choice(all, strategy, Some(horizon_secs)),
        ),
{
    let h = Some(horizon_secs);
    assert forall|i: int| 0 <= i < all.len() implies #[trigger] fleet_placement::tiers(
        all[i],
        strategy,
        h,
    ) == fleet_placement::tiers(stripped[i], strategy, h) by {
        let b = stripped[i];
    }
    placement_laws::equal_tiers_equal_choice(all, stripped, strategy, strategy, h, h);
    placement_laws::some_candidate_is_chosen(all, strategy, h);
}

/// Nor do they change any plan.
pub proof fn expired_signals_change_no_plan(
    all: Seq<NodeCandidate>,
    stripped: Seq<NodeCandidate>,
    slots: nat,
    strategy: PlacementStrategy,
    horizon_secs: i64,
)
    requires
        stripped_of_expired(all, stripped, horizon_secs),
    ensures
        fleet_planning::plan(all, slots, strategy, Some(horizon_secs)) == fleet_planning::plan(
            stripped,
            slots,
            strategy,
            Some(horizon_secs),
        ),
    decreases slots,
{
    let h = Some(horizon_secs);
    if slots > 0 && all.len() > 0 {
        same_place(all, stripped, strategy, horizon_secs);
        let c = fleet_placement::choice(all, strategy, h);
        let name = fleet_planning::choice_name(all, strategy, h);
        assert(stripped[c].name == all[c].name);
        assert(fleet_planning::choice_name(stripped, strategy, h) == name);
        fleet_planning::first_named_exists(all, name, c);
        fleet_planning::first_named_exists(stripped, name, c);
        let f = fleet_planning::first_named(all, name);
        let g = fleet_planning::first_named(stripped, name);
        assert(f < g ==> stripped[f].name@ != name);
        assert(stripped[f].name == all[f].name && stripped[g].name == all[g].name);
        assert(g < f ==> all[g].name@ != name);
        let a = fleet_planning::after_placing(all, name);
        let b = fleet_planning::after_placing(stripped, name);
        assert(stripped_of_expired(a, b, horizon_secs)) by {
            assert forall|i: int| 0 <= i < a.len() implies {
                let (x, y) = (a[i], #[trigger] b[i]);
                &&& y.name == x.name
                &&& y.warmth == x.warmth
                &&& y.gpu_utilization == x.gpu_utilization
                &&& y.active_service_count == x.active_service_count
                &&& y.kv_cache_hit_rate_age_secs == x.kv_cache_hit_rate_age_secs
                &&& y.tokens_per_joule_age_secs == x.tokens_per_joule_age_secs
                &&& y.kv_cache_hit_rate == (if choice_laws::counts(
                    x.kv_cache_hit_rate_age_secs,
                    Some(horizon_secs),
                ) {
                    x.kv_cache_hit_rate
                } else {
                    None
                })
                &&& y.tokens_per_joule == (if choice_laws::counts(
                    x.tokens_per_joule_age_secs,
                    Some(horizon_secs),
                ) {
                    x.tokens_per_joule
                } else {
                    None
                })
            } by {
                assert(stripped[i].name == all[i].name);
            }
        }
        expired_signals_change_no_plan(a, b, (slots - 1) as nat, strategy, horizon_secs);
    }
}

/// Within the horizon the age does not matter: two lists that differ only in ages that count alike
/// give the same choice, whichever strategy is asked.
pub proof fn ages_matter_by_the_horizon_only(
    a: Seq<NodeCandidate>,
    b: Seq<NodeCandidate>,
    strategy: PlacementStrategy,
    horizon_secs: Option<i64>,
)
    requires
        a.len() > 0,
        a.len() == b.len(),
        forall|i: int|
            0 <= i < a.len() ==> {
                let (x, y) = (a[i], #[trigger] b[i]);
                &&& y == (NodeCandidate {
                    kv_cache_hit_rate_age_secs: y.kv_cache_hit_rate_age_secs,
                    tokens_per_joule_age_secs: y.tokens_per_joule_age_secs,
                    ..x
                })
                &&& choice_laws::counts(x.kv_cache_hit_rate_age_secs, horizon_secs)
                    == choice_laws::counts(y.kv_cache_hit_rate_age_secs, horizon_secs)
                &&& choice_laws::counts(x.tokens_per_joule_age_secs, horizon_secs)
                    == choice_laws::counts(y.tokens_per_joule_age_secs, horizon_secs)
            },
    ensures
        fleet_placement::choice(a, strategy, horizon_secs) == fleet_placement::choice(
            b,
            strategy,
            horizon_secs,
        ),
{
    assert forall|i: int| 0 <= i < a.len() implies #[trigger] fleet_placement::tiers(
        a[i],
        strategy,
        horizon_secs,
    ) == fleet_placement::tiers(b[i], strategy, horizon_secs) by {
        let y = b[i];
    }
    placement_laws::equal_tiers_equal_choice(a, b, strategy, strategy, horizon_secs, horizon_secs);
}

/// How `plan_initial_placements` goes about it: for no slots, or from no candidates, it plans nothing.
/// Else its first node is the one that `select_node_with_strategy` selects with the same strategy
/// and horizon, and the others are those of a batch of one slot less, once the first service counts
/// on its node.
pub proof fn batches_are_planned_one_by_one(
    slots_to_fill: i32,
    candidates: &[NodeCandidate],
    strategy: &PlacementStrategy,
    horizon_secs: Option<i64>,
    r: Vec<String>,
    selected: Option<&NodeCandidate>,
    next: &[NodeCandidate],
    k: int,
    rest: Vec<String>,
)
    requires
        slots_to_fill > 0,
        candidates@.len() > 0,
        call_ensures(
            fleet_planning::plan_initial_placements,
            (slots_to_fill, candidates, strategy, horizon_secs),
            r,
        ),
        call_ensures(
            fleet_placement::select_node_with_strategy,
            (candidates, strategy, horizon_secs),
            selected,
        ),
        selected is Some ==> one_service_more(candidates@, next@, selected->0.name@, k),
        call_ensures(
            fleet_planning::plan_initial_placements,
            ((slots_to_fill - 1) as i32, next, strategy, horizon_secs),
            rest,
        ),
    ensures
        selected is Some,
        r@.len() == slots_to_fill,
        r@[0]@ == selected->0.name@,
        rest@.len() == slots_to_fill - 1,
        forall|i: int| 0 <= i < rest@.len() ==> (#[trigger] rest@[i])@ == r@[i + 1]@,
{
    let slots = slots_to_fill as nat;
    let p = fleet_planning::plan(candidates@, slots, *strategy, horizon_secs);
    a_plan_starts_with_the_choice(candidates@, slots, *strategy, horizon_secs, *selected->0);
    a_plan_goes_on_with_the_load_added(
        candidates@,
        next@,
        slots,
        *strategy,
        horizon_secs,
        k,
    );
    fleet_planning::plan_fills_every_slot(candidates@, slots, *strategy, horizon_secs);
    let views = crate::objects::texts_view(r@);
    let rest_views = crate::objects::texts_view(rest@);
    assert(views.len() == r@.len() && rest_views.len() == rest@.len());
    assert(views[0] == r@[0]@);
    assert forall|i: int| 0 <= i < rest@.len() implies (#[trigger] rest@[i])@ == r@[i + 1]@ by {
        assert(rest_views[i] == rest@[i]@);
        assert(p.skip(1)[i] == p[i + 1]);
        assert(views[i + 1] == r@[i + 1]@);
    }
}

/// An empty batch, and a batch without candidates, is planned at once: there are no nodes in it, and
/// it can be counted.
pub proof fn empty_batches_are_empty(
    slots_to_fill: i32,
    candidates: &[NodeCandidate],
    strategy: &PlacementStrategy,
    horizon_secs: Option<i64>,
    r: Vec<String>,
    fits: bool,
)
    requires
        slots_to_fill <= 0 || candidates@.len() == 0,
        call_ensures(
            fleet_planning::plan_initial_placements,
            (slots_to_fill, candidates, strategy, horizon_secs),
            r,
        ),
        call_ensures(
            fleet_planning::placements_fit,
            (slots_to_fill, candidates, strategy, horizon_secs),
            fits,
        ),
    ensures
        r@.len() == 0,
        fits,
{
    assert(crate::objects::texts_view(r@).len() == r@.len());
}

/// Efficiency-aware and within a horizon, the first node of a batch is one with the best hit rate of
/// the warmest, whatever older measurements say.
pub proof fn batches_look_at_fresh_signals_only(
    slots_to_fill: i32,
    candidates: &[NodeCandidate],
    horizon_secs: Option<i64>,
    r: Vec<String>,
)
    requires
        slots_to_fill > 0,
        candidates@.len() > 0,
        call_ensures(
            fleet_planning::plan_initial_placements,
            (slots_to_fill, candidates, &PlacementStrategy::EfficiencyAware, horizon_secs),
            r,
        ),
    ensures
        r@.len() > 0,
        exists|i: int|
            0 <= i < candidates@.len() && (#[trigger] candidates@[i]).name@ == r@[0]@ && forall|
                j: int,
            |
                0 <= j < candidates@.len() ==> {
                    let (c, other) = (candidates@[i], #[trigger] candidates@[j]);
                    &&& other.warmth == Warmth::Warm ==> c.warmth == Warmth::Warm
                    &&& other.warmth == Warmth::Warming ==> c.warmth != Warmth::Cold
                    &&& other.warmth == c.warmth && choice_laws::has_hit_rate(other, horizon_secs)
                        ==> choice_laws::has_hit_rate(c, horizon_secs)
                        && other.kv_cache_hit_rate->0.number()
                        <= c.kv_cache_hit_rate->0.number()
                },
{
    let s = candidates@;
    let strategy = PlacementStrategy::EfficiencyAware;
    let slots = slots_to_fill as nat;
    placement_laws::some_candidate_is_chosen(s, strategy, horizon_secs);
    let i = fleet_placement::choice(s, strategy, horizon_secs);
    let c = s[i];
    assert(fleet_placement::chosen(s, strategy, horizon_secs, Some(&c)));
    a_plan_starts_with_the_choice(s, slots, strategy, horizon_secs, c);
    fleet_planning::plan_fills_every_slot(s, slots, strategy, horizon_secs);
    let views = crate::objects::texts_view(r@);
    assert(views.len() == r@.len());
    assert(views[0] == r@[0]@);
    assert(s[i].name@ == r@[0]@);
    assert forall|j: int| 0 <= j < s.len() implies {
        let other = #[trigger] s[j];
        &&& other.warmth == Warmth::Warm ==> c.warmth == Warmth::Warm
        &&& other.warmth == Warmth::Warming ==> c.warmth != Warmth::Cold
        &&& other.warmth == c.warmth && choice_laws::has_hit_rate(other, horizon_secs)
            ==> choice_laws::has_hit_rate(c, horizon_secs) && other.kv_cache_hit_rate->0.number()
            <= c.kv_cache_hit_rate->0.number()
    } by {
        choice_laws::the_warmest_is_chosen(s, strategy, horizon_secs, c, j);
        if s[j].warmth == c.warmth && choice_laws::has_hit_rate(s[j], horizon_secs) {
            choice_laws::the_best_hit_rate_is_chosen(s, horizon_secs, c, j);
        }
    }
}

/// Two batches over the same nodes, once with and once without the signals that are beyond the
/// horizon, are planned alike.
pub proof fn expired_signals_change_nothing(
    slots_to_fill: i32,
    all: &[NodeCandidate],
    stripped: &[NodeCandidate],
    strategy: &PlacementStrategy,
    horizon_secs: i64,
    a: Vec<String>,
    b: Vec<String>,
)
    requires
        stripped_of_expired(all@, stripped@, horizon_secs),
        call_ensures(
            fleet_planning::plan_initial_placements,
            (slots_to_fill, all, strategy, Some(horizon_secs)),
            a,
        ),
        call_ensures(
            fleet_planning::plan_initial_placements,
            (slots_to_fill, stripped, strategy, Some(horizon_secs)),
            b,
        ),
    ensures
        crate::objects::texts_view(a@) == crate::objects::texts_view(b@),
{
    expired_signals_change_no_plan(
        all@,
        stripped@,
        fleet_planning::slot_count(slots_to_fill),
        *strategy,
        horizon_secs,
    );
}

/// Whether a batch can be counted: its first node has room for one more service, and so it goes on.
pub proof fn batches_are_counted_one_by_one(
    slots_to_fill: i32,
    candidates: &[NodeCandidate],
    strategy: &PlacementStrategy,
    horizon_secs: Option<i64>,
    fits: bool,
    selected: Option<&NodeCandidate>,
    k: int,
    next: &[NodeCandidate],
    rest_fits: bool,
)
    requires
        slots_to_fill > 0,
        candidates@.len() > 0,
        call_ensures(
            fleet_planning::placements_fit,
            (slots_to_fill, candidates, strategy, horizon_secs),
            fits,
        ),
        call_ensures(
            fleet_placement::select_node_with_strategy,
            (candidates, strategy, horizon_secs),
            selected,
        ),
        selected is Some ==> 0 <= k < candidates@.len() && candidates@[k].name@
            == selected->0.name@ && forall|j: int|
            0 <= j < k ==> (#[trigger] candidates@[j]).name@ != selected->0.name@,
        selected is Some && candidates@[k].active_service_count != Some(i32::MAX)
            ==> one_service_more(candidates@, next@, selected->0.name@, k) && call_ensures(
            fleet_planning::placements_fit,
            ((slots_to_fill - 1) as i32, next, strategy, horizon_secs),
            rest_fits,
        ),
    ensures
        fits == (candidates@[k].active_service_count != Some(i32::MAX) && rest_fits),
{
    let slots = slots_to_fill as nat;
    a_plan_starts_with_the_choice(candidates@, slots, *strategy, horizon_secs, *selected->0);
    if candidates@[k].active_service_count == Some(i32::MAX) {
        a_full_node_cannot_be_counted(candidates@, slots, *strategy, horizon_secs, k);
    } else {
        a_plan_goes_on_with_the_load_added(
            candidates@,
            next@,
            slots,
            *strategy,
            horizon_secs,
            k,
        );
    }
}

/// A candidate is found by its name, the first one of several, and none is found exactly if none has
/// the name; and a copy of a list is that list.
pub proof fn candidates_are_found_and_copied(
    candidates: &[NodeCandidate],
    name: &str,
    r: Option<usize>,
    copy: Vec<NodeCandidate>,
)
    requires
        call_ensures(fleet_planning::find_candidate, (candidates, name), r),
        call_ensures(fleet_planning::copy_candidates, (candidates,), copy),
    ensures
        r is Some ==> r->0 < candidates@.len() && candidates@[r->0 as int].name@ == name@,
        r is Some ==> forall|j: int|
            0 <= j < r->0 ==> (#[trigger] candidates@[j]).name@ != name@,
        r is None ==> forall|j: int|
            0 <= j < candidates@.len() ==> (#[trigger] candidates@[j]).name@ != name@,
        copy@ == candidates@,
{
    if r is None {
        assert forall|j: int| 0 <= j < candidates@.len() implies (#[trigger] candidates@[j]).name@
            != name@ by {
            let named = candidates@[j].name@;
        }
    }
}

} // verus!
