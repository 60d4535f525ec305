//! An operator for vLLM inference services on Kubernetes that treats cold start as a state of its
//! own, and a fleet controller that places such services onto nodes.
//!
//! This library holds the decisions: which node a service is placed on, when a placement moves,
//! what is reported of it, what the owned objects look like, and what a node's reporter makes of
//! its readings. Talking to the cluster is left to the program around it.
pub mod choice_laws;
pub mod clock;
pub mod controller_laws;
pub mod deployment;
pub mod exposition;
pub mod exposition_laws;
pub mod fleet_controller;
pub mod fleet_laws;
pub mod fleet_model;
pub mod fleet_placement;
pub mod fleet_planning;
pub mod fleet_types;
pub mod metrics;
pub mod names;
pub mod objects;
pub mod placement_laws;
pub mod planning_laws;
pub mod reconcile_laws;
pub mod reporter;
pub mod reporter_laws;
pub mod service_laws;
pub mod signal;
pub mod slots;
pub mod text;
pub mod text_laws;

use crate::objects::ObjectMeta;
use crate::text::push_signed_decimal;
use vstd::prelude::*;

verus! {

/// Desired state for a vLLM inference service.
#[derive(Clone, Debug)]
pub struct VllmServiceSpec {
    /// Model id to serve.
    pub model: String,
    /// Number of replicas to run.
    pub replicas: i32,
    /// Trade-off between a fast cold start and fast steady-state inference.
    pub warmup_strategy: WarmupStrategy,
    /// Container image to run.
    pub image: String,
    /// GPUs per replica; none for placeholder runs.
    pub gpu: i32,
    /// HTTP path of the readiness probe; empty for no probe.
    pub health_path: String,
    /// Runtime class of the pods.
    pub runtime_class_name: Option<String>,
    /// Arguments appended to the serving command.
    pub extra_args: Vec<String>,
    /// Host directory mounted at the container's model cache.
    pub model_cache_host_path: Option<String>,
    /// Node that the pods are pinned to.
    pub node_name: Option<String>,
}

/// Trade-off between a fast cold start and fast steady-state inference.
#[derive(Clone, Copy, Debug, PartialEq, Eq, Structural)]
pub enum WarmupStrategy {
    /// Fast cold start, slower steady state.
    Eager,
    /// Slow cold start, faster steady state.
    Graph,
}

impl Default for WarmupStrategy {
    /// The fast cold start.
    fn default() -> (r: Self)
        ensures
            r == WarmupStrategy::Eager,
    {
        WarmupStrategy::Eager
    }
}

/// Replicas where the spec names none.
pub fn default_replicas() -> (r: i32)
    ensures
        r == 1,
{
    1
}

/// Image where the spec names none.
pub fn default_image() -> (r: String)
    ensures
        r@ == "vllm/vllm-openai:latest"@,
{
    "vllm/vllm-openai:latest".to_string()
}

/// GPUs per replica where the spec names none.
pub fn default_gpu() -> (r: i32)
    ensures
        r == 1,
{
    1
}

/// Readiness path where the spec names none.
pub fn default_health_path() -> (r: String)
    ensures
        r@ == "/health"@,
{
    "/health".to_string()
}

/// Observed state, written back by the operator.
#[derive(Clone, Debug)]
pub struct VllmServiceStatus {
    /// Lifecycle phase.
    pub phase: String,
    /// Detail about the phase.
    pub message: String,
}

impl Default for VllmServiceStatus {
    /// The status of a service that was never reconciled.
    fn default() -> (r: Self)
        ensures
            r.phase@ == Seq::<char>::empty(),
            r.message@ == Seq::<char>::empty(),
    {
        VllmServiceStatus { phase: String::new(), message: String::new() }
    }
}

/// A vLLM inference service.
#[derive(Clone, Debug)]
pub struct VllmService {
    pub metadata: ObjectMeta,
    pub spec: VllmServiceSpec,
    pub status: Option<VllmServiceStatus>,
}

/// The phase of a service of which `ready` out of `desired` replicas are ready. "Ready" means
/// warm, not merely alive.
pub open spec fn service_phase(desired: int, ready: int) -> Seq<char> {
    if ready == 0 {
        "Pending"@
    } else if ready < desired {
        "Warming"@
    } else {
        "Ready"@
    }
}

/// The phases that a service can be in.
pub open spec fn service_phases() -> Seq<Seq<char>> {
    seq!["Pending"@, "Warming"@, "Ready"@]
}

/// The phases that a service can be in, each once.
pub fn all_service_phases() -> (r: Vec<&'static str>)
    ensures
        metrics::phase_names(r@) == service_phases(),
        service_phases().no_duplicates(),
        forall|desired: int, ready: int|
            service_phases().contains(#[trigger] service_phase(desired, ready)),
{
    let r: Vec<&'static str> = vec!["Pending", "Warming", "Ready"];
    proof {
        service_phases_are_all();
        assert(metrics::phase_names(r@) =~= service_phases());
    }
    r
}

/// The listed phases are different ones, and every phase of a service is listed.
pub proof fn service_phases_are_all()
    ensures
        service_phases().no_duplicates(),
        forall|desired: int, ready: int|
            service_phases().contains(#[trigger] service_phase(desired, ready)),
{
    fleet_laws::phases_are_distinct();
    let all = service_phases();
    assert(all[0] == "Pending"@ && all[1] == "Warming"@ && all[2] == "Ready"@);
}

/// The message that goes with the phase.
pub open spec fn service_message(desired: int, ready: int) -> Seq<char> {
    let ratio = text::signed_decimal(ready) + "/"@ + text::signed_decimal(desired);
    if ready == 0 {
        "Deployment created; no replica ready yet"@
    } else if ready < desired {
        ratio + " replicas ready; warming up"@
    } else {
        ratio + " replicas ready and warm"@
    }
}

/// The phase of a service, and the message that goes with it.
pub fn phase_for(desired: i32, ready: i32) -> (r: (&'static str, String))
    ensures
        r.0@ == service_phase(desired as int, ready as int),
        r.1@ == service_message(desired as int, ready as int),
{
    if ready == 0 {
        ("Pending", "Deployment created; no replica ready yet".to_string())
    } else {
        let mut message = String::new();
        push_signed_decimal(&mut message, ready as i64);
        message.append("/");
        push_signed_decimal(&mut message, desired as i64);
        if ready < desired {
            message.append(" replicas ready; warming up");
            ("Warming", message)
        } else {
            message.append(" replicas ready and warm");
            ("Ready", message)
        }
    }
}

} // verus!
