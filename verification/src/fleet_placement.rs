//! Choosing a node: which of the eligible candidates a placement goes to.
use crate::fleet_types::{PlacementStrategy, Warmth};
use crate::signal::Signal;
use crate::text::same_text;
use vstd::prelude::*;

verus! {

/// A node eligible for placement, as the planner sees it. A signal that was not measured is
/// absent; the two efficiency signals carry the age of their measurement, where it is known.
#[derive(Debug, PartialEq)]
pub struct NodeCandidate {
    pub name: String,
    pub warmth: Warmth,
    pub gpu_utilization: Option<Signal>,
    pub active_service_count: Option<i32>,
    pub kv_cache_hit_rate: Option<Signal>,
    pub kv_cache_hit_rate_age_secs: Option<i64>,
    pub tokens_per_joule: Option<Signal>,
    pub tokens_per_joule_age_secs: Option<i64>,
}

impl Clone for NodeCandidate {
    fn clone(&self) -> (r: Self)
        ensures
            r == *self,
    {
        NodeCandidate {
            name: self.name.clone(),
            warmth: self.warmth,
            gpu_utilization: self.gpu_utilization,
            active_service_count: self.active_service_count,
            kv_cache_hit_rate: self.kv_cache_hit_rate,
            kv_cache_hit_rate_age_secs: self.kv_cache_hit_rate_age_secs,
            tokens_per_joule: self.tokens_per_joule,
            tokens_per_joule_age_secs: self.tokens_per_joule_age_secs,
        }
    }
}

/// The class of a warmth: a warmer node has a higher one.
pub open spec fn warmth_class(w: Warmth) -> int {
    match w {
        Warmth::Warm => 2,
        Warmth::Warming => 1,
        Warmth::Cold => 0,
    }
}

/// The class of a warmth.
pub fn warmth_rank(w: &Warmth) -> (r: u8)
    ensures
        r == warmth_class(*w),
{
    match w {
        Warmth::Warm => 2,
        Warmth::Warming => 1,
        Warmth::Cold => 0,
    }
}

/// A signal of a given age, as far as the horizon lets it through. Without a horizon signals do
/// not expire. With one, a signal counts only if its age is known, not in the future, and not
/// beyond the horizon.
pub open spec fn fresh(
    value: Option<Signal>,
    age_secs: Option<i64>,
    horizon_secs: Option<i64>,
) -> Option<Signal> {
    match horizon_secs {
        None => value,
        Some(h) => match age_secs {
            Some(a) => if 0 <= a <= h {
                value
            } else {
                None
            },
            None => None,
        },
    }
}

/// A signal of a given age, as far as the horizon lets it through.
pub fn fresh_signal(
    value: Option<Signal>,
    age_secs: Option<i64>,
    horizon_secs: Option<i64>,
) -> (r: Option<Signal>)
    ensures
        r == fresh(value, age_secs, horizon_secs),
{
    match horizon_secs {
        None => value,
        Some(h) => match age_secs {
            Some(a) => if 0 <= a && a <= h {
                value
            } else {
                None
            },
            None => None,
        },
    }
}

/// A hit rate counts only if it is a number between zero and one.
pub open spec fn hit_rate_in_domain(v: Option<Signal>) -> Option<Signal> {
    match v {
        Some(x) => if x.finite() && 0 <= x.number() <= Signal::one().number() {
            v
        } else {
            None
        },
        None => None,
    }
}

/// A tokens-per-joule figure counts only if it is a number of at least zero.
pub open spec fn tokens_per_joule_in_domain(v: Option<Signal>) -> Option<Signal> {
    match v {
        Some(x) => if x.finite() && x.number() >= 0 {
            v
        } else {
            None
        },
        None => None,
    }
}

/// A utilization counts only if it is a number.
pub open spec fn utilization_in_domain(v: Option<Signal>) -> Option<Signal> {
    match v {
        Some(x) => if x.finite() {
            v
        } else {
            None
        },
        None => None,
    }
}

/// The hit rate, if it is a number between zero and one.
pub fn valid_hit_rate(v: Option<Signal>) -> (r: Option<Signal>)
    ensures
        r == hit_rate_in_domain(v),
{
    match v {
        Some(x) => if x.is_fraction() {
            Some(x)
        } else {
            None
        },
        None => None,
    }
}

/// The tokens per joule, if they are a number of at least zero.
pub fn valid_tokens_per_joule(v: Option<Signal>) -> (r: Option<Signal>)
    ensures
        r == tokens_per_joule_in_domain(v),
{
    match v {
        Some(x) => if x.is_non_negative() {
            Some(x)
        } else {
            None
        },
        None => None,
    }
}

/// The utilization, if it is a number.
pub fn valid_utilization(v: Option<Signal>) -> (r: Option<Signal>)
    ensures
        r == utilization_in_domain(v),
{
    match v {
        Some(x) => if x.is_finite() {
            Some(x)
        } else {
            None
        },
        None => None,
    }
}

/// What the efficiency-aware strategy looks at.
#[derive(Clone, Copy, Debug, PartialEq, Eq, Structural)]
pub struct ComparisonKey {
    pub warmth: u8,
    pub kv_cache_hit_rate: Option<Signal>,
    pub tokens_per_joule: Option<Signal>,
    pub gpu_utilization: Option<Signal>,
    pub active_service_count: Option<i32>,
}

/// What the efficiency-aware strategy sees of a candidate.
pub open spec fn efficiency_key(c: NodeCandidate, horizon_secs: Option<i64>) -> ComparisonKey {
    ComparisonKey {
        warmth: warmth_class(c.warmth) as u8,
        kv_cache_hit_rate: hit_rate_in_domain(
            fresh(c.kv_cache_hit_rate, c.kv_cache_hit_rate_age_secs, horizon_secs),
        ),
        tokens_per_joule: tokens_per_joule_in_domain(
            fresh(c.tokens_per_joule, c.tokens_per_joule_age_secs, horizon_secs),
        ),
        gpu_utilization: utilization_in_domain(c.gpu_utilization),
        active_service_count: c.active_service_count,
    }
}

/// What the efficiency-aware strategy sees of a candidate within a horizon.
pub fn comparison_key_within(c: &NodeCandidate, horizon_secs: Option<i64>) -> (r: ComparisonKey)
    ensures
        r == efficiency_key(*c, horizon_secs),
{
    ComparisonKey {
        warmth: warmth_rank(&c.warmth),
        kv_cache_hit_rate: valid_hit_rate(
            fresh_signal(c.kv_cache_hit_rate, c.kv_cache_hit_rate_age_secs, horizon_secs),
        ),
        tokens_per_joule: valid_tokens_per_joule(
            fresh_signal(c.tokens_per_joule, c.tokens_per_joule_age_secs, horizon_secs),
        ),
        gpu_utilization: valid_utilization(c.gpu_utilization),
        active_service_count: c.active_service_count,
    }
}

/// What the efficiency-aware strategy sees of a candidate when signals do not expire.
pub fn comparison_key(c: &NodeCandidate) -> (r: ComparisonKey)
    ensures
        r == efficiency_key(*c, None),
{
    comparison_key_within(c, None)
}

/// The place of a candidate in a strategy's order: five numbers, the earlier ones weighing more.
pub struct Rank {
    pub first: i64,
    pub second: i64,
    pub third: i64,
    pub fourth: i64,
    pub fifth: i64,
}

/// Five numbers, the earlier ones weighing more.
pub type Tiers = (int, int, int, int, int);

impl View for Rank {
    type V = Tiers;

    open spec fn view(&self) -> Tiers {
        (
            self.first as int,
            self.second as int,
            self.third as int,
            self.fourth as int,
            self.fifth as int,
        )
    }
}

/// Whether the first tier in which the two differ is lower in `a`.
pub open spec fn lower(a: Tiers, b: Tiers) -> bool {
    ||| a.0 < b.0
    ||| a.0 == b.0 && a.1 < b.1
    ||| a.0 == b.0 && a.1 == b.1 && a.2 < b.2
    ||| a.0 == b.0 && a.1 == b.1 && a.2 == b.2 && a.3 < b.3
    ||| a.0 == b.0 && a.1 == b.1 && a.2 == b.2 && a.3 == b.3 && a.4 < b.4
}

/// The tier of an absent signal: below that of every observed value.
pub open spec fn absent_tier() -> int {
    -0x1_0000_0000
}

/// The tier of a signal of which more is better.
pub open spec fn gain_tier(s: Option<Signal>) -> int {
    match s {
        Some(x) => x.order(),
        None => absent_tier(),
    }
}

/// The tier of a signal of which less is better.
pub open spec fn load_tier(s: Option<Signal>) -> int {
    match s {
        Some(x) => -x.order(),
        None => absent_tier(),
    }
}

/// The tier of a number of active services: fewer are better.
pub open spec fn count_tier(n: Option<i32>) -> int {
    match n {
        Some(x) => -x,
        None => absent_tier(),
    }
}

/// The tiers of the efficiency-aware strategy.
pub open spec fn key_tiers(k: ComparisonKey) -> Tiers {
    (
        k.warmth as int,
        gain_tier(k.kv_cache_hit_rate),
        gain_tier(k.tokens_per_joule),
        load_tier(k.gpu_utilization),
        count_tier(k.active_service_count),
    )
}

/// The tiers of a candidate under a strategy: the efficiency-aware one ranks by warmth, hit rate,
/// tokens per joule, utilization and active services, as far as they are usable; the others rank by
/// warmth, active services and utilization, the latter in the total order of all bit patterns.
pub open spec fn tiers(
    c: NodeCandidate,
    strategy: PlacementStrategy,
    horizon_secs: Option<i64>,
) -> Tiers {
    match strategy {
        PlacementStrategy::EfficiencyAware => key_tiers(efficiency_key(c, horizon_secs)),
        _ => (
            warmth_class(c.warmth),
            count_tier(c.active_service_count),
            load_tier(c.gpu_utilization),
            0,
            0,
        ),
    }
}

/// Whether candidate `i` is the one that is chosen: none ranks higher, and of those that rank
/// equally it comes last.
pub open spec fn is_choice(
    candidates: Seq<NodeCandidate>,
    strategy: PlacementStrategy,
    horizon_secs: Option<i64>,
    i: int,
) -> bool {
    &&& 0 <= i < candidates.len()
    &&& forall|j: int|
        0 <= j < candidates.len() ==> !lower(
            tiers(candidates[i], strategy, horizon_secs),
            #[trigger] tiers(candidates[j], strategy, horizon_secs),
        )
    &&& forall|j: int|
        i < j < candidates.len() ==> lower(
            #[trigger] tiers(candidates[j], strategy, horizon_secs),
            tiers(candidates[i], strategy, horizon_secs),
        )
}

/// The candidate that is chosen.
pub open spec fn choice(
    candidates: Seq<NodeCandidate>,
    strategy: PlacementStrategy,
    horizon_secs: Option<i64>,
) -> int {
    choose|i: int| is_choice(candidates, strategy, horizon_secs, i)
}

/// At most one candidate is chosen.
pub proof fn choice_is_unique(
    candidates: Seq<NodeCandidate>,
    strategy: PlacementStrategy,
    horizon_secs: Option<i64>,
    i: int,
    j: int,
)
    requires
        is_choice(candidates, strategy, horizon_secs, i),
        is_choice(candidates, strategy, horizon_secs, j),
    ensures
        i == j,
{
    let ti = tiers(candidates[i], strategy, horizon_secs);
    let tj = tiers(candidates[j], strategy, horizon_secs);
    assert(i < j ==> lower(tj, ti));
    assert(j < i ==> lower(ti, tj));
}

fn gain_of(s: Option<Signal>) -> (r: i64)
    ensures
        r == gain_tier(s),
{
    match s {
        Some(x) => x.order_key(),
        None => -0x1_0000_0000,
    }
}

fn load_of(s: Option<Signal>) -> (r: i64)
    ensures
        r == load_tier(s),
{
    match s {
        Some(x) => -x.order_key(),
        None => -0x1_0000_0000,
    }
}

fn count_of(n: Option<i32>) -> (r: i64)
    ensures
        r == count_tier(n),
{
    match n {
        Some(x) => -(x as i64),
        None => -0x1_0000_0000,
    }
}

/// The tiers of a candidate under a strategy.
fn rank_of(c: &NodeCandidate, strategy: &PlacementStrategy, horizon_secs: Option<i64>) -> (r: Rank)
    ensures
        r@ == tiers(*c, *strategy, horizon_secs),
{
    match strategy {
        PlacementStrategy::EfficiencyAware => {
            let k = comparison_key_within(c, horizon_secs);
            Rank {
                first: k.warmth as i64,
                second: gain_of(k.kv_cache_hit_rate),
                third: gain_of(k.tokens_per_joule),
                fourth: load_of(k.gpu_utilization),
                fifth: count_of(k.active_service_count),
            }
        },
        _ => Rank {
            first: warmth_rank(&c.warmth) as i64,
            second: count_of(c.active_service_count),
            third: load_of(c.gpu_utilization),
            fourth: 0,
            fifth: 0,
        },
    }
}

/// Whether the first tier in which the two differ is lower in `a`.
fn is_lower(a: &Rank, b: &Rank) -> (r: bool)
    ensures
        r == lower(a@, b@),
{
    if a.first != b.first {
        a.first < b.first
    } else if a.second != b.second {
        a.second < b.second
    } else if a.third != b.third {
        a.third < b.third
    } else if a.fourth != b.fourth {
        a.fourth < b.fourth
    } else {
        a.fifth < b.fifth
    }
}

/// The position of the candidate that is chosen.
fn choice_of(
    candidates: &[NodeCandidate],
    strategy: &PlacementStrategy,
    horizon_secs: Option<i64>,
) -> (r: Option<usize>)
    ensures
        r is None <==> candidates@.len() == 0,
        r is Some ==> is_choice(candidates@, *strategy, horizon_secs, r->0 as int),
        r is Some ==> choice(candidates@, *strategy, horizon_secs) == r->0 as int,
{
    if candidates.len() == 0 {
        return None;
    }
    let mut best: usize = 0;
    let mut best_rank = rank_of(&candidates[0], strategy, horizon_secs);
    let mut i: usize = 1;
    while i < candidates.len()
        invariant
            best < i <= candidates@.len(),
            best_rank@ == tiers(candidates@[best as int], *strategy, horizon_secs),
            forall|j: int|
                0 <= j < i ==> !lower(
                    best_rank@,
                    #[trigger] tiers(candidates@[j], *strategy, horizon_secs),
                ),
            forall|j: int|
                best < j < i ==> lower(
                    #[trigger] tiers(candidates@[j], *strategy, horizon_secs),
                    best_rank@,
                ),
        decreases candidates@.len() - i,
    {
        let rank = rank_of(&candidates[i], strategy, horizon_secs);
        if !is_lower(&rank, &best_rank) {
            best = i;
            best_rank = rank;
        }
        i = i + 1;
    }
    proof {
        assert(is_choice(candidates@, *strategy, horizon_secs, best as int));
        choice_is_unique(
            candidates@,
            *strategy,
            horizon_secs,
            best as int,
            choice(candidates@, *strategy, horizon_secs),
        );
    }
    Some(best)
}

/// Whether `r` is the candidate that is chosen. There is one unless there are no candidates.
pub open spec fn chosen(
    candidates: Seq<NodeCandidate>,
    strategy: PlacementStrategy,
    horizon_secs: Option<i64>,
    r: Option<&NodeCandidate>,
) -> bool {
    if candidates.len() == 0 {
        r is None
    } else {
        let i = choice(candidates, strategy, horizon_secs);
        is_choice(candidates, strategy, horizon_secs, i) && r == Some(&candidates[i])
    }
}

/// Warmth-first choice: the warmest node, of those the one with the fewest active services, of
/// those the least utilized one.
pub fn select_node_for_placement(candidates: &[NodeCandidate]) -> (r: Option<&NodeCandidate>)
    ensures
        chosen(candidates@, PlacementStrategy::WarmthFirst, None, r),
{
    select_node_with_strategy(candidates, &PlacementStrategy::WarmthFirst, None)
}

/// Efficiency-aware choice: the warmest node, of those the one with the best hit rate, then the
/// most tokens per joule, then the least utilization, then the fewest active services.
pub fn select_node_efficiency_aware(
    candidates: &[NodeCandidate],
    horizon_secs: Option<i64>,
) -> (r: Option<&NodeCandidate>)
    ensures
        chosen(candidates@, PlacementStrategy::EfficiencyAware, horizon_secs, r),
{
    select_node_with_strategy(candidates, &PlacementStrategy::EfficiencyAware, horizon_secs)
}

/// The choice that a strategy makes.
pub fn select_node_with_strategy<'a>(
    candidates: &'a [NodeCandidate],
    strategy: &PlacementStrategy,
    horizon_secs: Option<i64>,
) -> (r: Option<&'a NodeCandidate>)
    ensures
        chosen(candidates@, *strategy, horizon_secs, r),
{
    match choice_of(candidates, strategy, horizon_secs) {
        Some(i) => Some(&candidates[i]),
        None => None,
    }
}

/// Which candidates may replace a preempted node: all others that are not cold.
pub open spec fn may_replace(preempted_node: Seq<char>) -> spec_fn(NodeCandidate) -> bool {
    |c: NodeCandidate| c.name@ != preempted_node && c.warmth != Warmth::Cold
}

/// The candidates that may replace a preempted node.
pub open spec fn survivors(candidates: Seq<NodeCandidate>, preempted_node: Seq<char>) -> Seq<
    NodeCandidate,
> {
    candidates.filter(may_replace(preempted_node))
}

/// The name of the node that replaces a preempted one, if there is any.
pub open spec fn replacement(
    candidates: Seq<NodeCandidate>,
    preempted_node: Seq<char>,
    strategy: PlacementStrategy,
    horizon_secs: Option<i64>,
) -> Option<Seq<char>> {
    let s = survivors(candidates, preempted_node);
    if s.len() == 0 {
        None
    } else {
        Some(s[choice(s, strategy, horizon_secs)].name@)
    }
}

/// The node that replaces a preempted one. There is none if every other candidate is cold: the
/// placement is then held where it is.
pub fn select_replacement_node(
    candidates: &[NodeCandidate],
    preempted_node: &str,
    strategy: &PlacementStrategy,
    horizon_secs: Option<i64>,
) -> (r: Option<String>)
    ensures
        crate::objects::text_view(r) == replacement(
            candidates@,
            preempted_node@,
            *strategy,
            horizon_secs,
        ),
{
    let mut healthy: Vec<NodeCandidate> = Vec::new();
    let mut i: usize = 0;
    let ghost keep = may_replace(preempted_node@);
    while i < candidates.len()
        invariant
            i <= candidates@.len(),
            keep == may_replace(preempted_node@),
            healthy@ == candidates@.take(i as int).filter(keep),
        decreases candidates@.len() - i,
    {
        let c = &candidates[i];
        proof {
            assert(candidates@.take(i + 1) == candidates@.take(i as int).push(*c));
            candidates@.take(i as int).lemma_filter_push(*c, keep);
        }
        if !same_text(c.name.as_str(), preempted_node) && c.warmth != Warmth::Cold {
            healthy.push(c.clone());
        }
        i = i + 1;
    }
    proof {
        assert(candidates@.take(candidates@.len() as int) == candidates@);
    }
    match choice_of(healthy.as_slice(), strategy, horizon_secs) {
        Some(k) => Some(healthy[k].name.clone()),
        None => None,
    }
}

} // verus!
