//! Planning a batch of placements: one node for each slot that has none.
use crate::fleet_placement;
use crate::fleet_placement::{select_node_with_strategy, NodeCandidate};
use crate::fleet_types::{PlacementStrategy, Warmth};
use crate::text::same_text;
use vstd::prelude::*;

verus! {

/// The number of active services, counting an unmeasured one as none.
pub open spec fn service_count(c: NodeCandidate) -> int {
    match c.active_service_count {
        Some(n) => n as int,
        None => 0,
    }
}

/// The candidate with `extra` more active services.
pub open spec fn with_services(c: NodeCandidate, extra: int) -> NodeCandidate {
    NodeCandidate { active_service_count: Some((service_count(c) + extra) as i32), ..c }
}

/// Whether candidate `i` is the first one of its name.
pub open spec fn is_first_named(
    candidates: Seq<NodeCandidate>,
    name: Seq<char>,
    i: int,
) -> bool {
    &&& 0 <= i < candidates.len()
    &&& candidates[i].name@ == name
    &&& forall|j: int| 0 <= j < i ==> (#[trigger] candidates[j]).name@ != name
}

/// The first candidate of a name.
pub open spec fn first_named(candidates: Seq<NodeCandidate>, name: Seq<char>) -> int {
    choose|i: int| is_first_named(candidates, name, i)
}

/// The name of the candidate that is chosen.
pub open spec fn choice_name(
    candidates: Seq<NodeCandidate>,
    strategy: PlacementStrategy,
    horizon_secs: Option<i64>,
) -> Seq<char> {
    candidates[fleet_placement::choice(candidates, strategy, horizon_secs)].name@
}

/// The candidates once a service was placed on the node of the given name.
pub open spec fn after_placing(candidates: Seq<NodeCandidate>, name: Seq<char>) -> Seq<
    NodeCandidate,
> {
    let i = first_named(candidates, name);
    candidates.update(i, with_services(candidates[i], 1))
}

/// The nodes chosen for `slots` placements, one after the other, each choice seeing the load that
/// those before it add.
pub open spec fn plan(
    candidates: Seq<NodeCandidate>,
    slots: nat,
    strategy: PlacementStrategy,
    horizon_secs: Option<i64>,
) -> Seq<Seq<char>>
    decreases slots,
{
    if slots == 0 || candidates.len() == 0 {
        Seq::empty()
    } else {
        let name = choice_name(candidates, strategy, horizon_secs);
        seq![name] + plan(
            after_placing(candidates, name),
            (slots - 1) as nat,
            strategy,
            horizon_secs,
        )
    }
}

/// Whether the load that the plan adds can be counted.
pub open spec fn plan_fits(
    candidates: Seq<NodeCandidate>,
    slots: nat,
    strategy: PlacementStrategy,
    horizon_secs: Option<i64>,
) -> bool
    decreases slots,
{
    slots == 0 || candidates.len() == 0 || {
        let name = choice_name(candidates, strategy, horizon_secs);
        &&& service_count(candidates[first_named(candidates, name)]) < i32::MAX
        &&& plan_fits(after_placing(candidates, name), (slots - 1) as nat, strategy, horizon_secs)
    }
}

/// The number of slots to fill; a negative number asks for none.
pub open spec fn slot_count(slots_to_fill: i32) -> nat {
    if slots_to_fill < 0 {
        0
    } else {
        slots_to_fill as nat
    }
}

/// Two candidates that are each the first of a name are the same one.
proof fn first_named_is_unique(candidates: Seq<NodeCandidate>, name: Seq<char>, i: int, j: int)
    requires
        is_first_named(candidates, name, i),
        is_first_named(candidates, name, j),
    ensures
        i == j,
{
    assert(i < j ==> candidates[i].name@ != name);
    assert(j < i ==> candidates[j].name@ != name);
}

/// Some candidate is the first of a name, if any has it.
pub proof fn first_named_exists(candidates: Seq<NodeCandidate>, name: Seq<char>, i: int)
    requires
        0 <= i < candidates.len(),
        candidates[i].name@ == name,
    ensures
        is_first_named(candidates, name, first_named(candidates, name)),
        first_named(candidates, name) <= i,
    decreases i,
{
    if is_first_named(candidates, name, i) {
        first_named_is_unique(candidates, name, i, first_named(candidates, name));
    } else {
        let j = choose|j: int| 0 <= j < i && (#[trigger] candidates[j]).name@ == name;
        first_named_exists(candidates, name, j);
    }
}

/// The position of the first candidate of a name.
pub fn find_candidate(candidates: &[NodeCandidate], name: &str) -> (r: Option<usize>)
    ensures
        match r {
            Some(i) => is_first_named(candidates@, name@, i as int) && first_named(
                candidates@,
                name@,
            ) == i,
            None => forall|j: int|
                0 <= j < candidates@.len() ==> (#[trigger] candidates@[j]).name@ != name@,
        },
{
    let mut i: usize = 0;
    while i < candidates.len()
        invariant
            i <= candidates@.len(),
            forall|j: int| 0 <= j < i ==> (#[trigger] candidates@[j]).name@ != name@,
        decreases candidates@.len() - i,
    {
        if same_text(candidates[i].name.as_str(), name) {
            proof {
                assert(is_first_named(candidates@, name@, i as int));
                first_named_is_unique(
                    candidates@,
                    name@,
                    i as int,
                    first_named(candidates@, name@),
                );
            }
            return Some(i);
        }
        i = i + 1;
    }
    None
}

/// A copy of a list of candidates.
pub fn copy_candidates(candidates: &[NodeCandidate]) -> (r: Vec<NodeCandidate>)
    ensures
        r@ == candidates@,
{
    let mut out: Vec<NodeCandidate> = Vec::new();
    let mut i: usize = 0;
    while i < candidates.len()
        invariant
            i <= candidates@.len(),
            out@ == candidates@.take(i as int),
        decreases candidates@.len() - i,
    {
        out.push(candidates[i].clone());
        i = i + 1;
    }
    proof {
        assert(candidates@.take(candidates@.len() as int) == candidates@);
    }
    out
}

/// Chooses a node for each of `slots_to_fill` placements. Without counting the load that each
/// choice adds, a whole batch would land on one node. Counting it spreads a batch over nodes whose
/// load is known. Where the load of the best nodes is unmeasured it does not: the first of them to
/// get a service then has a known load, ranks above the others, and gets the rest as well.
pub fn plan_initial_placements(
    slots_to_fill: i32,
    candidates: &[NodeCandidate],
    strategy: &PlacementStrategy,
    horizon_secs: Option<i64>,
) -> (r: Vec<String>)
    requires
        plan_fits(candidates@, slot_count(slots_to_fill), *strategy, horizon_secs),
    ensures
        crate::objects::texts_view(r@) == plan(
            candidates@,
            slot_count(slots_to_fill),
            *strategy,
            horizon_secs,
        ),
{
    let mut working = copy_candidates(candidates);
    let mut placed: Vec<String> = Vec::new();
    let mut remaining: i32 = if slots_to_fill < 0 { 0 } else { slots_to_fill };
    let ghost whole = plan(candidates@, slot_count(slots_to_fill), *strategy, horizon_secs);
    while remaining > 0 && working.len() > 0
        invariant
            remaining >= 0,
            plan_fits(working@, remaining as nat, *strategy, horizon_secs),
            whole == crate::objects::texts_view(placed@) + plan(
                working@,
                remaining as nat,
                *strategy,
                horizon_secs,
            ),
        decreases remaining,
    {
        let name = match select_node_with_strategy(working.as_slice(), strategy, horizon_secs) {
            Some(c) => c.name.clone(),
            None => {
                return placed;
            },
        };
        proof {
            first_named_exists(
                working@,
                name@,
                fleet_placement::choice(working@, *strategy, horizon_secs),
            );
        }
        if let Some(k) = find_candidate(working.as_slice(), name.as_str()) {
            let count: i32 = match working[k].active_service_count {
                Some(n) => n,
                None => 0,
            };
            let mut loaded = working[k].clone();
            loaded.active_service_count = Some(count + 1);
            working.set(k, loaded);
        }
        let ghost before = placed@;
        placed.push(name);
        proof {
            assert(crate::objects::texts_view(placed@) == crate::objects::texts_view(before).push(
                name@,
            ));
        }
        remaining = remaining - 1;
    }
    placed
}

/// Whether the load that the plan adds can be counted.
pub fn placements_fit(
    slots_to_fill: i32,
    candidates: &[NodeCandidate],
    strategy: &PlacementStrategy,
    horizon_secs: Option<i64>,
) -> (r: bool)
    ensures
        r == plan_fits(candidates@, slot_count(slots_to_fill), *strategy, horizon_secs),
{
    let mut working = copy_candidates(candidates);
    let mut remaining: i32 = if slots_to_fill < 0 { 0 } else { slots_to_fill };
    let ghost whole = plan_fits(candidates@, slot_count(slots_to_fill), *strategy, horizon_secs);
    while remaining > 0 && working.len() > 0
        invariant
            remaining >= 0,
            whole == plan_fits(candidates@, slot_count(slots_to_fill), *strategy, horizon_secs),
            whole == plan_fits(working@, remaining as nat, *strategy, horizon_secs),
        decreases remaining,
    {
        let name = match select_node_with_strategy(working.as_slice(), strategy, horizon_secs) {
            Some(c) => c.name.clone(),
            None => {
                return true;
            },
        };
        proof {
            first_named_exists(
                working@,
                name@,
                fleet_placement::choice(working@, *strategy, horizon_secs),
            );
        }
        if let Some(k) = find_candidate(working.as_slice(), name.as_str()) {
            let count: i32 = match working[k].active_service_count {
                Some(n) => n,
                None => 0,
            };
            if count == i32::MAX {
                return false;
            }
            let mut loaded = working[k].clone();
            loaded.active_service_count = Some(count + 1);
            working.set(k, loaded);
        }
        remaining = remaining - 1;
    }
    true
}

/// Where every count leaves room for all slots, the plan can be counted.
pub proof fn bounded_counts_fit(
    candidates: Seq<NodeCandidate>,
    slots: nat,
    strategy: PlacementStrategy,
    horizon_secs: Option<i64>,
)
    requires
        forall|i: int|
            0 <= i < candidates.len() ==> service_count(#[trigger] candidates[i]) + slots
                <= i32::MAX,
    ensures
        plan_fits(candidates, slots, strategy, horizon_secs),
    decreases slots,
{
    if slots > 0 && candidates.len() > 0 {
        crate::placement_laws::some_candidate_is_chosen(candidates, strategy, horizon_secs);
        let c = fleet_placement::choice(candidates, strategy, horizon_secs);
        let name = choice_name(candidates, strategy, horizon_secs);
        first_named_exists(candidates, name, c);
        let k = first_named(candidates, name);
        let next = after_placing(candidates, name);
        assert(service_count(candidates[k]) >= i32::MIN);
        assert forall|i: int| 0 <= i < next.len() implies service_count(#[trigger] next[i]) + (slots
            - 1) <= i32::MAX by {
            assert(service_count(candidates[i]) + slots <= i32::MAX);
        }
        bounded_counts_fit(next, (slots - 1) as nat, strategy, horizon_secs);
    }
}

/// Placing a service changes no candidate but for its load.
proof fn placing_keeps_names(
    candidates: Seq<NodeCandidate>,
    strategy: PlacementStrategy,
    horizon_secs: Option<i64>,
)
    requires
        candidates.len() > 0,
    ensures
        ({
            let next = after_placing(
                candidates,
                choice_name(candidates, strategy, horizon_secs),
            );
            &&& next.len() == candidates.len()
            &&& forall|i: int|
                0 <= i < next.len() ==> (#[trigger] next[i]).name@ == candidates[i].name@
        }),
{
    crate::placement_laws::some_candidate_is_chosen(candidates, strategy, horizon_secs);
    let c = fleet_placement::choice(candidates, strategy, horizon_secs);
    first_named_exists(candidates, choice_name(candidates, strategy, horizon_secs), c);
}

/// Every slot gets a node, unless there are no candidates.
pub proof fn plan_fills_every_slot(
    candidates: Seq<NodeCandidate>,
    slots: nat,
    strategy: PlacementStrategy,
    horizon_secs: Option<i64>,
)
    ensures
        plan(candidates, slots, strategy, horizon_secs).len() == (if candidates.len() == 0 {
            0
        } else {
            slots
        }),
    decreases slots,
{
    if slots > 0 && candidates.len() > 0 {
        let name = choice_name(candidates, strategy, horizon_secs);
        placing_keeps_names(candidates, strategy, horizon_secs);
        plan_fills_every_slot(
            after_placing(candidates, name),
            (slots - 1) as nat,
            strategy,
            horizon_secs,
        );
    }
}

/// Every planned node is one of the candidates.
pub proof fn plan_stays_within_candidates(
    candidates: Seq<NodeCandidate>,
    slots: nat,
    strategy: PlacementStrategy,
    horizon_secs: Option<i64>,
    s: int,
)
    requires
        0 <= s < plan(candidates, slots, strategy, horizon_secs).len(),
    ensures
        exists|i: int|
            0 <= i < candidates.len() && (#[trigger] candidates[i]).name@ == plan(
                candidates,
                slots,
                strategy,
                horizon_secs,
            )[s],
    decreases slots,
{
    let c = fleet_placement::choice(candidates, strategy, horizon_secs);
    crate::placement_laws::some_candidate_is_chosen(candidates, strategy, horizon_secs);
    let name = choice_name(candidates, strategy, horizon_secs);
    let next = after_placing(candidates, name);
    placing_keeps_names(candidates, strategy, horizon_secs);
    if s == 0 {
        assert(candidates[c].name@ == name);
    } else {
        plan_stays_within_candidates(next, (slots - 1) as nat, strategy, horizon_secs, s - 1);
        let i = choose|i: int|
            0 <= i < next.len() && (#[trigger] next[i]).name@ == plan(
                next,
                (slots - 1) as nat,
                strategy,
                horizon_secs,
            )[s - 1];
        assert(candidates[i].name@ == next[i].name@);
    }
}

/// Whether the candidates are equally warm, have names of their own, and each has either `count`
/// or one more active services.
pub open spec fn evenly_loaded(candidates: Seq<NodeCandidate>, warmth: Warmth, count: int) -> bool {
    &&& forall|i: int| 0 <= i < candidates.len() ==> (#[trigger] candidates[i]).warmth == warmth
    &&& forall|i: int|
        0 <= i < candidates.len() ==> ((#[trigger] candidates[i]).active_service_count is Some && (
        candidates[i].active_service_count->0 == count || candidates[i].active_service_count->0
            == count + 1))
    &&& forall|i: int, j: int|
        0 <= i < j < candidates.len() ==> (#[trigger] candidates[i]).name@ != (
        #[trigger] candidates[j]).name@
}

/// Which candidates have the given number of active services.
pub open spec fn has_count(count: int) -> spec_fn(NodeCandidate) -> bool {
    |c: NodeCandidate| service_count(c) == count
}

/// Replacing an element that a test accepts by one that it rejects leaves one fewer that it
/// accepts.
proof fn filter_len_update(s: Seq<NodeCandidate>, k: int, v: NodeCandidate, p: spec_fn(
    NodeCandidate,
) -> bool)
    requires
        0 <= k < s.len(),
        p(s[k]),
        !p(v),
    ensures
        s.update(k, v).filter(p).len() == s.filter(p).len() - 1,
    decreases s.len(),
{
    reveal(Seq::filter);
    let t = s.update(k, v);
    if k == s.len() - 1 {
        assert(t.drop_last() == s.drop_last());
    } else {
        assert(t.drop_last() == s.drop_last().update(k, v));
        filter_len_update(s.drop_last(), k, v, p);
    }
}

/// Where an accepted element exists, the number of accepted elements is not zero.
proof fn filter_nonempty(s: Seq<NodeCandidate>, p: spec_fn(NodeCandidate) -> bool)
    requires
        s.filter(p).len() > 0,
    ensures
        exists|i: int| 0 <= i < s.len() && p(#[trigger] s[i]),
{
    let f = s.filter(p);
    assert(p(f[0]));
    assert(f.contains(f[0]));
    s.lemma_filter_contains_rev(p, f[0]);
    let i = choose|i: int| 0 <= i < s.len() && s[i] == f[0];
    assert(p(s[i]));
}

/// A batch is spread: among equally warm nodes whose load is known and even, a batch that does
/// not exceed the number of the less loaded nodes puts no two services on one node, and uses the
/// less loaded ones.
pub proof fn even_load_is_spread(
    candidates: Seq<NodeCandidate>,
    slots: nat,
    warmth: Warmth,
    count: int,
    strategy: PlacementStrategy,
    horizon_secs: Option<i64>,
)
    requires
        strategy != PlacementStrategy::EfficiencyAware,
        evenly_loaded(candidates, warmth, count),
        slots <= candidates.filter(has_count(count)).len(),
        count + 1 <= i32::MAX,
    ensures
        ({
            let p = plan(candidates, slots, strategy, horizon_secs);
            &&& p.no_duplicates()
            &&& forall|s: int|
                0 <= s < p.len() ==> exists|i: int|
                    0 <= i < candidates.len() && (#[trigger] candidates[i]).name@
                        == #[trigger] p[s] && service_count(candidates[i]) == count
        }),
    decreases slots,
{
    let p = plan(candidates, slots, strategy, horizon_secs);
    if slots > 0 && candidates.len() > 0 {
        filter_nonempty(candidates, has_count(count));
        let low = choose|i: int|
            0 <= i < candidates.len() && has_count(count)(#[trigger] candidates[i]);
        crate::placement_laws::some_candidate_is_chosen(candidates, strategy, horizon_secs);
        let c = fleet_placement::choice(candidates, strategy, horizon_secs);
        let tl = fleet_placement::tiers(candidates[low], strategy, horizon_secs);
        let tc = fleet_placement::tiers(candidates[c], strategy, horizon_secs);
        assert(!fleet_placement::lower(tc, tl));
        assert(service_count(candidates[c]) == count);
        let name = choice_name(candidates, strategy, horizon_secs);
        first_named_exists(candidates, name, c);
        let k = first_named(candidates, name);
        assert(k == c);
        let next = after_placing(candidates, name);
        assert(next == candidates.update(c, with_services(candidates[c], 1)));
        filter_len_update(candidates, c, with_services(candidates[c], 1), has_count(count));
        assert(evenly_loaded(next, warmth, count));
        even_load_is_spread(next, (slots - 1) as nat, warmth, count, strategy, horizon_secs);
        let rest = plan(next, (slots - 1) as nat, strategy, horizon_secs);
        assert(p == seq![name] + rest);
        assert forall|s: int| 0 <= s < p.len() implies exists|i: int|
            0 <= i < candidates.len() && (#[trigger] candidates[i]).name@ == #[trigger] p[s]
                && service_count(candidates[i]) == count by {
            if s == 0 {
                assert(candidates[c].name@ == p[0]);
            } else {
                assert(p[s] == rest[s - 1]);
                let i = choose|i: int|
                    0 <= i < next.len() && (#[trigger] next[i]).name@ == rest[s - 1]
                        && service_count(next[i]) == count;
                assert(i != c);
                assert(candidates[i] == next[i]);
            }
        }
        assert forall|s: int| 0 < s < p.len() implies #[trigger] p[s] != p[0] by {
            assert(p[s] == rest[s - 1]);
            let i = choose|i: int|
                0 <= i < next.len() && (#[trigger] next[i]).name@ == rest[s - 1] && service_count(
                    next[i],
                ) == count;
            assert(i != c);
            assert(next[i].name@ == candidates[i].name@);
        }
        assert forall|s: int, t: int| 0 <= s < t < p.len() implies p[s] != p[t] by {
            if s > 0 {
                assert(p[s] == rest[s - 1] && p[t] == rest[t - 1]);
            }
        }
    }
}

/// Whether no candidate is warmer than candidate `i`.
pub open spec fn is_warmest(candidates: Seq<NodeCandidate>, i: int) -> bool {
    &&& 0 <= i < candidates.len()
    &&& forall|j: int|
        0 <= j < candidates.len() ==> fleet_placement::warmth_class(
            (#[trigger] candidates[j]).warmth,
        ) <= fleet_placement::warmth_class(candidates[i].warmth)
}

/// Whether a name is the given one.
pub open spec fn is_name(name: Seq<char>) -> spec_fn(Seq<char>) -> bool {
    |n: Seq<char>| n == name
}

/// The number of services that a plan puts on a node.
pub open spec fn placed(plan: Seq<Seq<char>>, name: Seq<char>) -> nat {
    plan.filter(is_name(name)).len()
}

/// One more service at the start of a plan.
proof fn placed_grows(first: Seq<char>, rest: Seq<Seq<char>>, name: Seq<char>)
    ensures
        placed(seq![first] + rest, name) == placed(rest, name) + (if first == name {
            1nat
        } else {
            0
        }),
{
    let one = seq![first];
    Seq::filter_distributes_over_add(one, rest, is_name(name));
    reveal(Seq::filter);
    assert(one.drop_last() =~= Seq::<Seq<char>>::empty());
    assert(one.drop_last().filter(is_name(name)).len() == 0);
    assert(one.last() == first);
}

/// Whether a plan is balanced over the warmest candidates: it uses no others, and no service went
/// to one of them while another would have been less loaded.
pub open spec fn is_balanced(candidates: Seq<NodeCandidate>, plan: Seq<Seq<char>>) -> bool {
    &&& forall|s: int|
        0 <= s < plan.len() ==> exists|i: int|
            is_warmest(candidates, i) && (#[trigger] candidates[i]).name@ == #[trigger] plan[s]
    &&& forall|a: int, b: int|
        #![trigger is_warmest(candidates, a), is_warmest(candidates, b)]
        is_warmest(candidates, a) && is_warmest(candidates, b) && placed(
            plan,
            candidates[a].name@,
        ) > 0 ==> service_count(candidates[a]) + placed(plan, candidates[a].name@) - 1
            <= service_count(candidates[b]) + placed(plan, candidates[b].name@)
}

/// A batch of any size is spread: where the candidates have names of their own and the load of the
/// warmest ones is known, every service goes to one of the warmest, and to none that ends up more
/// than one service ahead of another.
pub proof fn batches_are_balanced(
    candidates: Seq<NodeCandidate>,
    slots: nat,
    strategy: PlacementStrategy,
    horizon_secs: Option<i64>,
)
    requires
        strategy != PlacementStrategy::EfficiencyAware,
        forall|i: int, j: int|
            0 <= i < j < candidates.len() ==> (#[trigger] candidates[i]).name@ != (
            #[trigger] candidates[j]).name@,
        forall|i: int|
            #[trigger] is_warmest(candidates, i) ==> candidates[i].active_service_count is Some,
        plan_fits(candidates, slots, strategy, horizon_secs),
    ensures
        is_balanced(candidates, plan(candidates, slots, strategy, horizon_secs)),
    decreases slots,
{
    let p = plan(candidates, slots, strategy, horizon_secs);
    if slots == 0 || candidates.len() == 0 {
        assert forall|name: Seq<char>| #[trigger] placed(p, name) == 0 by {
            reveal(Seq::filter);
        }
    } else {
        crate::placement_laws::some_candidate_is_chosen(candidates, strategy, horizon_secs);
        let c = fleet_placement::choice(candidates, strategy, horizon_secs);
        let name = choice_name(candidates, strategy, horizon_secs);
        first_named_exists(candidates, name, c);
        assert(first_named(candidates, name) == c);
        let next = after_placing(candidates, name);
        let rest = plan(next, (slots - 1) as nat, strategy, horizon_secs);
        assert(next == candidates.update(c, with_services(candidates[c], 1)));
        assert forall|j: int| 0 <= j < candidates.len() implies fleet_placement::warmth_class(
            (#[trigger] candidates[j]).warmth,
        ) <= fleet_placement::warmth_class(candidates[c].warmth) by {
            crate::placement_laws::warmth_dominates(candidates, strategy, horizon_secs, j);
        }
        assert(is_warmest(candidates, c));
        assert forall|i: int| is_warmest(next, i) == #[trigger] is_warmest(candidates, i) by {
            assert(next.len() == candidates.len());
            if is_warmest(next, i) {
                assert forall|j: int|
                    0 <= j < candidates.len() implies fleet_placement::warmth_class(
                    (#[trigger] candidates[j]).warmth,
                ) <= fleet_placement::warmth_class(candidates[i].warmth) by {
                    assert(next[j].warmth == candidates[j].warmth);
                }
            }
            if is_warmest(candidates, i) {
                assert forall|j: int| 0 <= j < next.len() implies fleet_placement::warmth_class(
                    (#[trigger] next[j]).warmth,
                ) <= fleet_placement::warmth_class(next[i].warmth) by {
                    assert(next[j].warmth == candidates[j].warmth);
                }
            }
        }
        assert forall|i: int| #[trigger]
            is_warmest(next, i) implies next[i].active_service_count is Some by {
            assert(is_warmest(candidates, i));
        }
        batches_are_balanced(next, (slots - 1) as nat, strategy, horizon_secs);
        assert(p == seq![name] + rest);
        assert forall|s: int| 0 <= s < p.len() implies exists|i: int|
            is_warmest(candidates, i) && (#[trigger] candidates[i]).name@ == #[trigger] p[s] by {
            if s == 0 {
                assert(candidates[c].name@ == p[0]);
            } else {
                assert(p[s] == rest[s - 1]);
                let i = choose|i: int|
                    is_warmest(next, i) && (#[trigger] next[i]).name@ == rest[s - 1];
                assert(is_warmest(candidates, i));
                assert(candidates[i].name@ == next[i].name@);
            }
        }
        assert forall|a: int, b: int|
            #![trigger is_warmest(candidates, a), is_warmest(candidates, b)]
            is_warmest(candidates, a) && is_warmest(candidates, b) && placed(
                p,
                candidates[a].name@,
            ) > 0 implies service_count(candidates[a]) + placed(p, candidates[a].name@) - 1
            <= service_count(candidates[b]) + placed(p, candidates[b].name@) by {
            placed_grows(name, rest, candidates[a].name@);
            placed_grows(name, rest, candidates[b].name@);
            assert(is_warmest(next, a) && is_warmest(next, b));
            assert(next[a].name@ == candidates[a].name@ && next[b].name@ == candidates[b].name@);
            if placed(rest, candidates[a].name@) == 0 {
                assert(a == c);
                assert(candidates[b].warmth == candidates[c].warmth);
                crate::placement_laws::least_loaded_is_chosen(
                    candidates,
                    strategy,
                    horizon_secs,
                    b,
                );
            }
        }
    }
}

} // verus!
