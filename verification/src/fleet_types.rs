//! The fleet's resources: what a fleet asks for, what a node reports, and what the fleet
//! controller writes back.
use crate::objects::copy_text;
use crate::objects::ObjectMeta;
use crate::signal::Signal;
use crate::text::same_text;
use vstd::prelude::*;

verus! {

/// Desired state for a fleet of vLLM services scheduled across nodes.
///
/// A fleet does not manage the warm-up of its services: it decides which node runs which
/// instance, and how the fleet reacts to what the nodes report.
#[derive(Clone, Debug)]
pub struct FleetServiceSpec {
    /// Model id, passed through to every owned service.
    pub model: String,
    /// Desired number of instances, across all nodes.
    pub replicas: i32,
    /// What every owned service looks like, but for its model and its replica count.
    pub template: FleetServiceTemplate,
    /// The nodes that the fleet may place onto.
    pub node_pool: NodePoolSpec,
    /// How nodes are chosen.
    pub placement: PlacementSpec,
    /// How quickly the fleet reacts.
    pub hysteresis: HysteresisSpec,
}

/// What every service of a fleet looks like.
#[derive(Clone, Debug)]
pub struct FleetServiceTemplate {
    pub runtime_class_name: Option<String>,
    pub extra_args: Vec<String>,
    pub gpu: i32,
    pub health_path: String,
    /// Container image for every owned service.
    pub image: String,
    /// Host directory mounted at the container's model cache.
    pub model_cache_host_path: Option<String>,
}

impl Default for FleetServiceTemplate {
    /// The empty template.
    fn default() -> (r: Self)
        ensures
            r.runtime_class_name is None,
            r.extra_args@ == Seq::<String>::empty(),
            r.gpu == 0,
            r.health_path@ == Seq::<char>::empty(),
            r.image@ == Seq::<char>::empty(),
            r.model_cache_host_path is None,
    {
        FleetServiceTemplate {
            runtime_class_name: None,
            extra_args: Vec::new(),
            gpu: 0,
            health_path: String::new(),
            image: String::new(),
            model_cache_host_path: None,
        }
    }
}

/// The nodes that a fleet may place onto.
#[derive(Clone, Debug)]
pub struct NodePoolSpec {
    /// Labels that a node must carry, as pairs of key and value.
    pub selector: Vec<(String, String)>,
    pub spot_policy: SpotPolicySpec,
}

impl Default for NodePoolSpec {
    /// Every node, and the default spot policy.
    fn default() -> (r: Self)
        ensures
            r.selector@ == Seq::<(String, String)>::empty(),
            r.spot_policy == (SpotPolicySpec { enabled: false, max_spot_fraction: Signal { bits: 0 } }),
    {
        NodePoolSpec { selector: Vec::new(), spot_policy: SpotPolicySpec::default() }
    }
}

/// Whether, and how far, a fleet may use spot nodes.
#[derive(Clone, Copy, Debug, PartialEq, Eq, Structural)]
pub struct SpotPolicySpec {
    pub enabled: bool,
    /// Largest fraction of the replicas allowed on spot nodes.
    pub max_spot_fraction: Signal,
}

impl Default for SpotPolicySpec {
    /// No spot nodes.
    fn default() -> (r: Self)
        ensures
            r == (SpotPolicySpec { enabled: false, max_spot_fraction: Signal { bits: 0 } }),
    {
        SpotPolicySpec { enabled: false, max_spot_fraction: Signal { bits: 0 } }
    }
}

/// How a node is chosen for a placement. `Spread` and `BinPack` choose as `WarmthFirst` does.
#[derive(Clone, Copy, Debug, PartialEq, Eq, Structural)]
pub enum PlacementStrategy {
    WarmthFirst,
    Spread,
    BinPack,
    /// Warmth, then cache hit rate, then tokens per joule, then utilization, then active services.
    EfficiencyAware,
}

impl Default for PlacementStrategy {
    /// Warmth first.
    fn default() -> (r: Self)
        ensures
            r == PlacementStrategy::WarmthFirst,
    {
        PlacementStrategy::WarmthFirst
    }
}

impl PlacementStrategy {
    /// The strategy's name.
    pub open spec fn spec_label(self) -> Seq<char> {
        match self {
            PlacementStrategy::WarmthFirst => "WarmthFirst"@,
            PlacementStrategy::Spread => "Spread"@,
            PlacementStrategy::BinPack => "BinPack"@,
            PlacementStrategy::EfficiencyAware => "EfficiencyAware"@,
        }
    }

    /// The strategy's name.
    pub fn label(&self) -> (r: &'static str)
        ensures
            r@ == self.spec_label(),
    {
        match self {
            PlacementStrategy::WarmthFirst => "WarmthFirst",
            PlacementStrategy::Spread => "Spread",
            PlacementStrategy::BinPack => "BinPack",
            PlacementStrategy::EfficiencyAware => "EfficiencyAware",
        }
    }
}

/// How nodes are chosen.
#[derive(Clone, Copy, Debug, PartialEq, Eq, Structural)]
pub struct PlacementSpec {
    pub strategy: PlacementStrategy,
    /// Age in seconds beyond which an efficiency signal counts as never observed. Absent: signals
    /// do not expire.
    pub signal_max_age_seconds: Option<i64>,
}

impl Default for PlacementSpec {
    /// Warmth first, and signals that do not expire.
    fn default() -> (r: Self)
        ensures
            r == (PlacementSpec {
                strategy: PlacementStrategy::WarmthFirst,
                signal_max_age_seconds: None,
            }),
    {
        PlacementSpec { strategy: PlacementStrategy::default(), signal_max_age_seconds: None }
    }
}

/// How quickly a fleet reacts.
#[derive(Clone, Copy, Debug, PartialEq, Eq, Structural)]
pub struct HysteresisSpec {
    /// Consecutive reconciles that a placement must be surplus before it is removed.
    pub stable_reconciles_required: i32,
    /// Largest number of placements that may be on the move at once.
    pub max_concurrent_reschedules: i32,
}

impl Default for HysteresisSpec {
    /// Three reconciles, one move at a time.
    fn default() -> (r: Self)
        ensures
            r == (HysteresisSpec { stable_reconciles_required: 3, max_concurrent_reschedules: 1 }),
    {
        HysteresisSpec {
            stable_reconciles_required: default_stable_reconciles(),
            max_concurrent_reschedules: default_max_concurrent_reschedules(),
        }
    }
}

/// GPUs per instance where the template names none.
pub fn default_gpu() -> (r: i32)
    ensures
        r == 1,
{
    1
}

/// Readiness path where the template names none.
pub fn default_health_path() -> (r: String)
    ensures
        r@ == "/health"@,
{
    "/health".to_string()
}

/// Spot fraction where the policy names none: one half.
pub fn default_max_spot_fraction() -> (r: Signal)
    ensures
        r == (Signal { bits: 0x3f00_0000 }),
        2 * r.number() == Signal::one().number(),
{
    let half = Signal { bits: 0x3f00_0000 };
    proof {
        assert(0x3f00_0000nat / 0x80_0000 == 126 && 0x3f00_0000nat % 0x80_0000 == 0);
        assert(0x3f80_0000nat / 0x80_0000 == 127 && 0x3f80_0000nat % 0x80_0000 == 0);
        assert(half.unsigned_bits() == 0x3f00_0000);
        assert(Signal::one().unsigned_bits() == 0x3f80_0000);
        vstd::arithmetic::power2::lemma_pow2_unfold(126);
        let p = vstd::arithmetic::power2::pow2(125);
        assert(2 * (0x80_0000 * p) == 0x80_0000 * (2 * p)) by (nonlinear_arith);
    }
    half
}

/// Reconciles for which a surplus must last where the spec names none.
pub fn default_stable_reconciles() -> (r: i32)
    ensures
        r == 3,
{
    3
}

/// Concurrent moves where the spec names no bound.
pub fn default_max_concurrent_reschedules() -> (r: i32)
    ensures
        r == 1,
{
    1
}

/// Observed state of a fleet, written back by the controller.
#[derive(Clone, Debug)]
pub struct FleetServiceStatus {
    /// Phase of the fleet as a whole.
    pub phase: String,
    /// Placements that are ready.
    pub ready_replicas: i32,
    /// Placements asked for.
    pub desired_replicas: i32,
    /// Placements that exist.
    pub replicas: i32,
    /// Placements that are being brought up.
    pub warming_replicas: i32,
    /// Placements that are on the move.
    pub active_reschedules: i32,
    pub placements: Vec<PlacementStatus>,
}

impl Default for FleetServiceStatus {
    /// The status of a fleet that was never reconciled.
    fn default() -> (r: Self)
        ensures
            r.phase@ == Seq::<char>::empty(),
            r.ready_replicas == 0,
            r.desired_replicas == 0,
            r.replicas == 0,
            r.warming_replicas == 0,
            r.active_reschedules == 0,
            r.placements@ == Seq::<PlacementStatus>::empty(),
    {
        FleetServiceStatus {
            phase: String::new(),
            ready_replicas: 0,
            desired_replicas: 0,
            replicas: 0,
            warming_replicas: 0,
            active_reschedules: 0,
            placements: Vec::new(),
        }
    }
}

/// What the planner ranked a node on when it chose it.
#[derive(Debug)]
pub struct PlacementDecisionInputs {
    pub strategy: String,
    pub warmth: Option<String>,
    pub tokens_per_joule: Option<Signal>,
    pub kv_cache_hit_rate: Option<Signal>,
    pub gpu_utilization: Option<Signal>,
    pub active_service_count: Option<i32>,
}

/// What a record of decision inputs says.
pub ghost struct DecisionView {
    pub strategy: Seq<char>,
    pub warmth: Option<Seq<char>>,
    pub tokens_per_joule: Option<Signal>,
    pub kv_cache_hit_rate: Option<Signal>,
    pub gpu_utilization: Option<Signal>,
    pub active_service_count: Option<i32>,
}

impl View for PlacementDecisionInputs {
    type V = DecisionView;

    open spec fn view(&self) -> DecisionView {
        DecisionView {
            strategy: self.strategy@,
            warmth: crate::objects::text_view(self.warmth),
            tokens_per_joule: self.tokens_per_joule,
            kv_cache_hit_rate: self.kv_cache_hit_rate,
            gpu_utilization: self.gpu_utilization,
            active_service_count: self.active_service_count,
        }
    }
}

impl Clone for PlacementDecisionInputs {
    fn clone(&self) -> (r: Self)
        ensures
            r == *self,
    {
        PlacementDecisionInputs {
            strategy: self.strategy.clone(),
            warmth: copy_text(&self.warmth),
            tokens_per_joule: self.tokens_per_joule,
            kv_cache_hit_rate: self.kv_cache_hit_rate,
            gpu_utilization: self.gpu_utilization,
            active_service_count: self.active_service_count,
        }
    }
}

/// What an optional record of decision inputs says.
pub open spec fn decided_view(d: Option<PlacementDecisionInputs>) -> Option<DecisionView> {
    match d {
        Some(inputs) => Some(inputs@),
        None => None,
    }
}

/// Observed state of one placement.
#[derive(Clone, Debug)]
pub struct PlacementStatus {
    /// Name of the owned service.
    pub vllm_service_ref: String,
    /// Node that the service is pinned to.
    pub node_ref: String,
    pub phase: String,
    /// Time of the last phase transition; empty if not recorded.
    pub last_transition_time: String,
    /// Time since which the phase has held; empty if not recorded.
    pub stable_since: String,
    /// Consecutive reconciles for which the placement was surplus.
    pub surplus_reconciles: i32,
    /// What the node was chosen on.
    pub decided_on: Option<PlacementDecisionInputs>,
}

/// What the status of a placement says.
pub ghost struct PlacementView {
    pub vllm_service_ref: Seq<char>,
    pub node_ref: Seq<char>,
    pub phase: Seq<char>,
    pub last_transition_time: Seq<char>,
    pub stable_since: Seq<char>,
    pub surplus_reconciles: int,
    pub decided_on: Option<DecisionView>,
}

impl View for PlacementStatus {
    type V = PlacementView;

    open spec fn view(&self) -> PlacementView {
        PlacementView {
            vllm_service_ref: self.vllm_service_ref@,
            node_ref: self.node_ref@,
            phase: self.phase@,
            last_transition_time: self.last_transition_time@,
            stable_since: self.stable_since@,
            surplus_reconciles: self.surplus_reconciles as int,
            decided_on: decided_view(self.decided_on),
        }
    }
}

/// What each placement of a list says.
pub open spec fn placements_view(placements: Seq<PlacementStatus>) -> Seq<PlacementView> {
    placements.map_values(|p: PlacementStatus| p@)
}

/// The next phase of a placement. A preempted node drains whatever else holds; a placement that
/// was draining is rescheduled next; a ready service makes the placement ready.
pub open spec fn next_placement_phase(
    current: Seq<char>,
    node_ready: bool,
    preemption_notice: bool,
) -> Seq<char> {
    if preemption_notice {
        "Draining"@
    } else if current == "Draining"@ || current == "Preempted"@ {
        "Rescheduling"@
    } else if node_ready {
        "Ready"@
    } else if current == "Ready"@ {
        "Warming"@
    } else {
        "Pending"@
    }
}

/// The next phase of a placement.
pub fn placement_phase_for(
    current_phase: &str,
    node_ready: bool,
    preemption_notice: bool,
) -> (r: &'static str)
    ensures
        r@ == next_placement_phase(current_phase@, node_ready, preemption_notice),
{
    if preemption_notice {
        "Draining"
    } else if same_text(current_phase, "Draining") || same_text(current_phase, "Preempted") {
        "Rescheduling"
    } else if node_ready {
        "Ready"
    } else if same_text(current_phase, "Ready") {
        "Warming"
    } else {
        "Pending"
    }
}

/// The phase of a fleet. A placement that is held on a preempted node makes the fleet degraded,
/// however many others are ready.
pub open spec fn fleet_phase(desired: int, ready: int, drain_and_hold: bool) -> Seq<char> {
    if drain_and_hold {
        "Degraded"@
    } else if ready >= desired {
        "Ready"@
    } else {
        "Placing"@
    }
}

/// The phase of a fleet.
pub fn fleet_phase_for(desired: i32, ready: i32, drain_and_hold: bool) -> (r: &'static str)
    ensures
        r@ == fleet_phase(desired as int, ready as int, drain_and_hold),
{
    if drain_and_hold {
        "Degraded"
    } else if ready >= desired {
        "Ready"
    } else {
        "Placing"
    }
}

/// The surplus count of a placement after one more reconcile, and whether the placement is to be
/// removed. A placement that is not surplus starts counting afresh.
pub open spec fn surplus_step(previous: int, surplus: bool, required: int) -> (int, bool) {
    if surplus {
        let n = if previous < i32::MAX {
            previous + 1
        } else {
            previous
        };
        (n, n >= required)
    } else {
        (0, false)
    }
}

/// The surplus count of a placement after one more reconcile, and whether the placement is to be
/// removed.
pub fn surplus_hysteresis(previous: i32, surplus: bool, required: i32) -> (r: (i32, bool))
    ensures
        (r.0 as int, r.1) == surplus_step(previous as int, surplus, required as int),
{
    if surplus {
        let n: i32 = if previous < i32::MAX { previous + 1 } else { previous };
        (n, n >= required)
    } else {
        (0, false)
    }
}

/// What is asked of a node's reporter.
#[derive(Clone, Copy, Debug, PartialEq, Eq, Structural)]
pub struct NodeStateSpec {
    /// Seconds between two reports.
    pub report_interval_seconds: i32,
}

/// Seconds between two reports where the spec names none.
pub fn default_report_interval() -> (r: i32)
    ensures
        r == 15,
{
    15
}

impl Default for NodeStateSpec {
    /// A report every fifteen seconds.
    fn default() -> (r: Self)
        ensures
            r == (NodeStateSpec { report_interval_seconds: 15 }),
    {
        NodeStateSpec { report_interval_seconds: default_report_interval() }
    }
}

/// Whether a node is ready to serve a model without a cold start.
#[derive(Clone, Copy, Debug, PartialEq, Eq, Structural)]
pub enum Warmth {
    Cold,
    Warming,
    Warm,
}

impl Default for Warmth {
    /// Cold.
    fn default() -> (r: Self)
        ensures
            r == Warmth::Cold,
    {
        Warmth::Cold
    }
}

impl Warmth {
    /// The warmth's name.
    pub open spec fn spec_label(self) -> Seq<char> {
        match self {
            Warmth::Cold => "Cold"@,
            Warmth::Warming => "Warming"@,
            Warmth::Warm => "Warm"@,
        }
    }

    /// The warmth's name.
    pub fn label(&self) -> (r: &'static str)
        ensures
            r@ == self.spec_label(),
    {
        match self {
            Warmth::Cold => "Cold",
            Warmth::Warming => "Warming",
            Warmth::Warm => "Warm",
        }
    }
}

/// Whether a node is a spot instance, and whether it is about to be taken away.
#[derive(Clone, Debug)]
pub struct SpotStatus {
    pub is_spot_instance: bool,
    pub preemption_notice_detected: bool,
    /// Time of the notice; empty until one was detected.
    pub preemption_notice_time: String,
}

impl Default for SpotStatus {
    /// Not a spot instance, and no notice.
    fn default() -> (r: Self)
        ensures
            !r.is_spot_instance,
            !r.preemption_notice_detected,
            r.preemption_notice_time@ == Seq::<char>::empty(),
    {
        SpotStatus {
            is_spot_instance: false,
            preemption_notice_detected: false,
            preemption_notice_time: String::new(),
        }
    }
}

/// Observed state of a node, written by the node's reporter. A signal that was not measured is
/// absent.
#[derive(Clone, Debug)]
pub struct NodeStateStatus {
    pub observed_generation: i64,
    /// Time of the last report.
    pub last_report_time: String,
    pub warmth: Warmth,
    pub gpu_utilization: Option<Signal>,
    pub gpu_memory_used_bytes: Option<i64>,
    pub active_service_count: Option<i32>,
    pub kv_cache_hit_rate: Option<Signal>,
    /// Time at which the hit rate was measured.
    pub kv_cache_hit_rate_observed_at: Option<String>,
    pub tokens_per_joule: Option<Signal>,
    /// Time at which the tokens per joule were measured.
    pub tokens_per_joule_observed_at: Option<String>,
    pub requests_waiting: Option<Signal>,
    pub requests_running: Option<Signal>,
    pub spot: SpotStatus,
}

impl Default for NodeStateStatus {
    /// A cold node of which nothing was measured.
    fn default() -> (r: Self)
        ensures
            r.observed_generation == 0,
            r.last_report_time@ == Seq::<char>::empty(),
            r.warmth == Warmth::Cold,
            r.gpu_utilization is None,
            r.gpu_memory_used_bytes is None,
            r.active_service_count is None,
            r.kv_cache_hit_rate is None,
            r.kv_cache_hit_rate_observed_at is None,
            r.tokens_per_joule is None,
            r.tokens_per_joule_observed_at is None,
            r.requests_waiting is None,
            r.requests_running is None,
            !r.spot.is_spot_instance,
            !r.spot.preemption_notice_detected,
            r.spot.preemption_notice_time@ == Seq::<char>::empty(),
    {
        NodeStateStatus {
            observed_generation: 0,
            last_report_time: String::new(),
            warmth: Warmth::default(),
            gpu_utilization: None,
            gpu_memory_used_bytes: None,
            active_service_count: None,
            kv_cache_hit_rate: None,
            kv_cache_hit_rate_observed_at: None,
            tokens_per_joule: None,
            tokens_per_joule_observed_at: None,
            requests_waiting: None,
            requests_running: None,
            spot: SpotStatus::default(),
        }
    }
}

/// A fleet.
#[derive(Clone, Debug)]
pub struct FleetService {
    pub metadata: ObjectMeta,
    pub spec: FleetServiceSpec,
    pub status: Option<FleetServiceStatus>,
}

/// What is known of a node.
#[derive(Clone, Debug)]
pub struct NodeState {
    pub metadata: ObjectMeta,
    pub spec: NodeStateSpec,
    pub status: Option<NodeStateStatus>,
}

} // verus!
