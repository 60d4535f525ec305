//! What the operator makes of a service: the Deployment that runs it, the Service that routes to
//! it, and the status that is written back.
use crate::objects;
use crate::objects::{copy_labels, copy_text, ObjectMeta};
use crate::text;
use crate::text::{push_signed_decimal, same_text};
use crate::{phase_for, VllmService, VllmServiceStatus, WarmupStrategy};
use vstd::prelude::*;

verus! {

/// The field manager under which the operator applies its objects, and their managed-by label.
pub const MANAGER: &'static str = "vllm-coldstart-operator";

/// The port that the server listens on.
pub const SERVING_PORT: i32 = 8000;

/// Seconds for which a serving pod may finish its requests after it was told to stop.
pub const GRACE_SECONDS: i64 = 120;

/// Seconds until a service that is ready is looked at again.
pub const READY_REQUEUE_SECS: u64 = 300;

/// Seconds until a service that is not ready is looked at again.
pub const WARMING_REQUEUE_SECS: u64 = 5;

/// Seconds until a service is looked at again after a failure.
pub const ERROR_REQUEUE_SECS: u64 = 15;

/// Why a reconcile of a service fails.
#[derive(Clone, Copy, Debug, PartialEq, Eq, Structural)]
pub enum Error {
    /// The cluster's API failed.
    Kube,
    /// The service has no namespace.
    MissingNamespace,
}

impl Error {
    /// The label under which the failure is counted.
    pub fn metric_label(&self) -> (r: &'static str)
        ensures
            r@ == match *self {
                Error::Kube => "kube"@,
                Error::MissingNamespace => "missing_namespace"@,
            },
    {
        match self {
            Error::Kube => "kube",
            Error::MissingNamespace => "missing_namespace",
        }
    }
}

/// A readiness probe over HTTP.
#[derive(Debug)]
pub struct Probe {
    pub path: String,
    pub port: i32,
    pub initial_delay_seconds: i32,
    pub period_seconds: i32,
    pub failure_threshold: i32,
}

/// What a volume holds.
#[derive(Debug)]
pub enum VolumeSource {
    /// Memory of the node.
    Memory,
    /// A directory of the node.
    HostPath(String),
}

/// A volume of a pod, with the path at which the container sees it.
#[derive(Debug)]
pub struct Volume {
    pub name: String,
    pub source: VolumeSource,
    pub mount_path: String,
}

/// The container of a pod.
#[derive(Debug)]
pub struct Container {
    pub name: String,
    pub image: String,
    /// The command and its arguments; absent to leave the image's own.
    pub command: Option<Vec<String>>,
    pub args: Option<Vec<String>>,
    /// Names and values of environment variables.
    pub env: Vec<(String, String)>,
    pub port: i32,
    pub port_name: String,
    /// Limits on resources, as pairs of resource and quantity.
    pub limits: Vec<(String, String)>,
    pub readiness_probe: Option<Probe>,
    pub volumes: Vec<Volume>,
}

/// The pods of a Deployment.
#[derive(Debug)]
pub struct PodTemplate {
    pub labels: Vec<(String, String)>,
    pub container: Container,
    pub runtime_class_name: Option<String>,
    /// Labels that a node must carry.
    pub node_selector: Vec<(String, String)>,
    pub termination_grace_period_seconds: Option<i64>,
}

/// A Deployment. On a change of its pods it first brings up `max_surge` more of them, and takes
/// down at most `max_unavailable` before the new ones are ready.
#[derive(Debug)]
pub struct Deployment {
    pub metadata: ObjectMeta,
    pub replicas: i32,
    pub match_labels: Vec<(String, String)>,
    pub max_surge: i32,
    pub max_unavailable: i32,
    pub template: PodTemplate,
}

/// A Service inside the cluster.
#[derive(Debug)]
pub struct Service {
    pub metadata: ObjectMeta,
    pub selector: Vec<(String, String)>,
    pub port: i32,
    pub target_port: i32,
    pub port_name: String,
}

/// Whether the pods serve a model. A service without GPUs is a placeholder that does nothing.
pub open spec fn serving(svc: VllmService) -> bool {
    svc.spec.gpu > 0
}

/// The labels of all that the operator makes of a service.
pub open spec fn owned_labels(svc: VllmService) -> Seq<(Seq<char>, Seq<char>)> {
    seq![("app"@, svc.metadata.any_name()), ("app.kubernetes.io/managed-by"@, MANAGER@)]
}

/// The arguments of the serving command: the model, the address, whether to skip the graphs that
/// make a cold start slow, and what the spec adds.
pub open spec fn serving_args(svc: VllmService) -> Seq<Seq<char>> {
    seq![svc.spec.model@, "--host"@, "0.0.0.0"@, "--port"@, "8000"@] + (
    if svc.spec.warmup_strategy == WarmupStrategy::Eager {
        seq!["--enforce-eager"@]
    } else {
        Seq::empty()
    }) + objects::texts_view(svc.spec.extra_args@)
}

/// Whether a volume is memory of the given name at the given path.
pub open spec fn is_memory(v: Volume, name: Seq<char>, path: Seq<char>) -> bool {
    v.name@ == name && v.mount_path@ == path && v.source is Memory
}

/// Whether a volume is the given directory of the node, under the given name at the given path.
pub open spec fn is_host_path(
    v: Volume,
    name: Seq<char>,
    path: Seq<char>,
    directory: Seq<char>,
) -> bool {
    v.name@ == name && v.mount_path@ == path && v.source is HostPath && v.source->HostPath_0@
        == directory
}

/// Whether the volumes are those of a service: shared memory, and the model cache if the spec
/// names a directory for it; none for a placeholder.
pub open spec fn volumes_match(volumes: Seq<Volume>, svc: VllmService) -> bool {
    if !serving(svc) {
        volumes.len() == 0
    } else {
        match svc.spec.model_cache_host_path {
            Some(directory) => {
                &&& volumes.len() == 2
                &&& is_memory(volumes[0], "dshm"@, "/dev/shm"@)
                &&& is_host_path(
                    volumes[1],
                    "model-cache"@,
                    "/root/.cache/huggingface"@,
                    directory@,
                )
            },
            None => volumes.len() == 1 && is_memory(volumes[0], "dshm"@, "/dev/shm"@),
        }
    }
}

/// Whether the probe is that of a service: its readiness path, asked every five seconds; none if
/// the path is empty.
pub open spec fn probe_matches(probe: Option<Probe>, svc: VllmService) -> bool {
    match probe {
        None => svc.spec.health_path@.len() == 0,
        Some(p) => {
            &&& svc.spec.health_path@.len() > 0
            &&& p.path@ == svc.spec.health_path@
            &&& p.port == SERVING_PORT
            &&& p.initial_delay_seconds == 5
            &&& p.period_seconds == 5
            &&& p.failure_threshold == 60
        },
    }
}

/// Whether the container is that of a service.
pub open spec fn container_matches(c: Container, svc: VllmService) -> bool {
    &&& c.name@ == "inference"@
    &&& c.image@ == svc.spec.image@
    &&& c.command is Some <==> serving(svc)
    &&& c.args is Some <==> serving(svc)
    &&& serving(svc) ==> objects::texts_view(c.command->0@) == seq!["vllm"@, "serve"@]
    &&& serving(svc) ==> objects::texts_view(c.args->0@) == serving_args(svc)
    &&& objects::labels_view(c.env@) == (if serving(svc) {
        seq![("LD_LIBRARY_PATH"@, "/usr/local/nvidia/lib64"@)]
    } else {
        Seq::empty()
    })
    &&& c.port == SERVING_PORT
    &&& c.port_name@ == "http"@
    &&& objects::labels_view(c.limits@) == (if serving(svc) {
        seq![("nvidia.com/gpu"@, text::signed_decimal(svc.spec.gpu as int))]
    } else {
        Seq::empty()
    })
    &&& probe_matches(c.readiness_probe, svc)
    &&& volumes_match(c.volumes@, svc)
}

/// Whether the metadata is that of an object that the operator makes of a service: the service's
/// name and namespace, the operator's labels, and the service as owner.
pub open spec fn metadata_matches(m: ObjectMeta, svc: VllmService) -> bool {
    &&& objects::text_view(m.name) == Some(svc.metadata.any_name())
    &&& m.generate_name is None
    &&& m.namespace == svc.metadata.namespace
    &&& m.uid is None
    &&& objects::labels_view(m.labels@) == owned_labels(svc)
    &&& objects::owners_view(m.owner_references@) == seq![
        svc.metadata.owner_view("VllmService"@),
    ]
}

/// Whether the Deployment is that of a service.
pub open spec fn deployment_matches(d: Deployment, svc: VllmService) -> bool {
    &&& metadata_matches(d.metadata, svc)
    &&& d.replicas == svc.spec.replicas
    &&& objects::labels_view(d.match_labels@) == owned_labels(svc)
    &&& d.max_surge == 1
    &&& d.max_unavailable == 0
    &&& objects::labels_view(d.template.labels@) == owned_labels(svc)
    &&& container_matches(d.template.container, svc)
    &&& d.template.runtime_class_name == svc.spec.runtime_class_name
    &&& objects::labels_view(d.template.node_selector@) == (match svc.spec.node_name {
        Some(node) => seq![("kubernetes.io/hostname"@, node@)],
        None => Seq::empty(),
    })
    &&& d.template.termination_grace_period_seconds == (if serving(svc) {
        Some(GRACE_SECONDS)
    } else {
        None
    })
}

/// Whether the Service is that of a service.
pub open spec fn service_matches(r: Service, svc: VllmService) -> bool {
    &&& metadata_matches(r.metadata, svc)
    &&& objects::labels_view(r.selector@) == seq![("app"@, svc.metadata.any_name())]
    &&& r.port == SERVING_PORT
    &&& r.target_port == SERVING_PORT
    &&& r.port_name@ == "http"@
}

/// A list of one pair.
fn one_label(key: &str, value: &str) -> (r: Vec<(String, String)>)
    ensures
        objects::labels_view(r@) == seq![(key@, value@)],
{
    let mut out: Vec<(String, String)> = Vec::new();
    out.push((key.to_owned(), value.to_owned()));
    proof {
        assert(objects::labels_view(out@) =~= seq![(key@, value@)]);
    }
    out
}

/// An empty list of pairs.
fn no_labels() -> (r: Vec<(String, String)>)
    ensures
        objects::labels_view(r@) == Seq::<(Seq<char>, Seq<char>)>::empty(),
{
    let out: Vec<(String, String)> = Vec::new();
    proof {
        assert(objects::labels_view(out@) =~= Seq::<(Seq<char>, Seq<char>)>::empty());
    }
    out
}

/// The labels of all that the operator makes of a service.
fn build_labels(svc: &VllmService) -> (r: Vec<(String, String)>)
    ensures
        objects::labels_view(r@) == owned_labels(*svc),
{
    let mut labels: Vec<(String, String)> = Vec::new();
    labels.push(("app".to_string(), svc.metadata.name_any()));
    labels.push(("app.kubernetes.io/managed-by".to_string(), MANAGER.to_string()));
    proof {
        assert(objects::labels_view(labels@) =~= owned_labels(*svc));
    }
    labels
}

/// The arguments of the serving command.
fn build_args(svc: &VllmService) -> (r: Vec<String>)
    ensures
        objects::texts_view(r@) == serving_args(*svc),
{
    let mut args: Vec<String> = Vec::new();
    args.push(svc.spec.model.clone());
    args.push("--host".to_string());
    args.push("0.0.0.0".to_string());
    args.push("--port".to_string());
    args.push("8000".to_string());
    if svc.spec.warmup_strategy == WarmupStrategy::Eager {
        args.push("--enforce-eager".to_string());
    }
    let ghost fixed = args@;
    let extra = &svc.spec.extra_args;
    let mut i: usize = 0;
    while i < extra.len()
        invariant
            i <= extra@.len(),
            args@ == fixed + extra@.take(i as int),
        decreases extra@.len() - i,
    {
        args.push(extra[i].clone());
        i = i + 1;
    }
    proof {
        assert(extra@.take(extra@.len() as int) == extra@);
        assert(objects::texts_view(args@) =~= serving_args(*svc));
    }
    args
}

/// The serving command.
fn build_command() -> (r: Vec<String>)
    ensures
        objects::texts_view(r@) == seq!["vllm"@, "serve"@],
{
    let mut command: Vec<String> = Vec::new();
    command.push("vllm".to_string());
    command.push("serve".to_string());
    proof {
        assert(objects::texts_view(command@) =~= seq!["vllm"@, "serve"@]);
    }
    command
}

/// The volumes of a service.
fn build_volumes(svc: &VllmService) -> (r: Vec<Volume>)
    ensures
        volumes_match(r@, *svc),
{
    let mut volumes: Vec<Volume> = Vec::new();
    if svc.spec.gpu > 0 {
        volumes.push(
            Volume {
                name: "dshm".to_string(),
                source: VolumeSource::Memory,
                mount_path: "/dev/shm".to_string(),
            },
        );
        if let Some(directory) = &svc.spec.model_cache_host_path {
            volumes.push(
                Volume {
                    name: "model-cache".to_string(),
                    source: VolumeSource::HostPath(directory.clone()),
                    mount_path: "/root/.cache/huggingface".to_string(),
                },
            );
        }
    }
    volumes
}

/// The readiness probe of a service.
fn build_probe(svc: &VllmService) -> (r: Option<Probe>)
    ensures
        probe_matches(r, *svc),
{
    if same_text(svc.spec.health_path.as_str(), "") {
        proof {
            reveal_strlit("");
        }
        None
    } else {
        proof {
            reveal_strlit("");
            if svc.spec.health_path@.len() == 0 {
                assert(svc.spec.health_path@ =~= ""@);
            }
        }
        Some(
            Probe {
                path: svc.spec.health_path.clone(),
                port: SERVING_PORT,
                initial_delay_seconds: 5,
                period_seconds: 5,
                failure_threshold: 60,
            },
        )
    }
}

/// The container of a service.
fn build_container(svc: &VllmService) -> (r: Container)
    ensures
        container_matches(r, *svc),
{
    let serves = svc.spec.gpu > 0;
    let mut quantity = String::new();
    push_signed_decimal(&mut quantity, svc.spec.gpu as i64);
    proof {
        assert(Seq::<char>::empty() + text::signed_decimal(svc.spec.gpu as int)
            =~= text::signed_decimal(svc.spec.gpu as int));
    }
    let (command, args) = if serves {
        (Some(build_command()), Some(build_args(svc)))
    } else {
        (None, None)
    };
    Container {
        name: "inference".to_string(),
        image: svc.spec.image.clone(),
        command,
        args,
        env: if serves {
            one_label("LD_LIBRARY_PATH", "/usr/local/nvidia/lib64")
        } else {
            no_labels()
        },
        port: SERVING_PORT,
        port_name: "http".to_string(),
        limits: if serves {
            one_label("nvidia.com/gpu", quantity.as_str())
        } else {
            no_labels()
        },
        readiness_probe: build_probe(svc),
        volumes: build_volumes(svc),
    }
}

/// The metadata of an object that the operator makes of a service.
fn build_metadata(svc: &VllmService) -> (r: ObjectMeta)
    requires
        svc.metadata.can_own(),
    ensures
        metadata_matches(r, *svc),
{
    let mut owner_references = Vec::new();
    if let Some(owner) = svc.metadata.controller_owner_ref("VllmService") {
        owner_references.push(owner);
    }
    proof {
        assert(objects::owners_view(owner_references@) =~= seq![
            svc.metadata.owner_view("VllmService"@),
        ]);
    }
    ObjectMeta {
        name: Some(svc.metadata.name_any()),
        generate_name: None,
        namespace: copy_text(&svc.metadata.namespace),
        uid: None,
        labels: build_labels(svc),
        owner_references,
    }
}

/// The Deployment that runs a service. A service without a namespace has none.
pub fn build_deployment(svc: &VllmService) -> (r: Result<Deployment, Error>)
    requires
        svc.metadata.namespace is Some ==> svc.metadata.can_own(),
    ensures
        match r {
            Ok(d) => svc.metadata.namespace is Some && deployment_matches(d, *svc),
            Err(e) => svc.metadata.namespace is None && e == Error::MissingNamespace,
        },
{
    if svc.metadata.namespace.is_none() {
        return Err(Error::MissingNamespace);
    }
    let labels = build_labels(svc);
    let node_selector = match &svc.spec.node_name {
        Some(node) => one_label("kubernetes.io/hostname", node.as_str()),
        None => no_labels(),
    };
    Ok(
        Deployment {
            metadata: build_metadata(svc),
            replicas: svc.spec.replicas,
            match_labels: copy_labels(&labels),
            max_surge: 1,
            max_unavailable: 0,
            template: PodTemplate {
                labels,
                container: build_container(svc),
                runtime_class_name: copy_text(&svc.spec.runtime_class_name),
                node_selector,
                termination_grace_period_seconds: if svc.spec.gpu > 0 {
                    Some(GRACE_SECONDS)
                } else {
                    None
                },
            },
        },
    )
}

/// The Service that routes to a service's pods. A service without a namespace has none.
pub fn build_service(svc: &VllmService) -> (r: Result<Service, Error>)
    requires
        svc.metadata.namespace is Some ==> svc.metadata.can_own(),
    ensures
        match r {
            Ok(s) => svc.metadata.namespace is Some && service_matches(s, *svc),
            Err(e) => svc.metadata.namespace is None && e == Error::MissingNamespace,
        },
{
    if svc.metadata.namespace.is_none() {
        return Err(Error::MissingNamespace);
    }
    let name = svc.metadata.name_any();
    Ok(
        Service {
            metadata: build_metadata(svc),
            selector: one_label("app", name.as_str()),
            port: SERVING_PORT,
            target_port: SERVING_PORT,
            port_name: "http".to_string(),
        },
    )
}

/// What a reconcile of a service finds out.
#[derive(Debug)]
pub struct ServiceReport {
    /// The status to write.
    pub status: VllmServiceStatus,
    /// The number of ready replicas that it rests on.
    pub ready_replicas: i32,
    /// Seconds until the service is looked at again.
    pub requeue_secs: u64,
}

/// What a reconcile of a service finds out, from the ready replicas that its Deployment reports. A
/// Deployment that reports none has none. A service that is not ready is looked at again sooner.
pub fn report_service(desired: i32, reported_ready: Option<i32>) -> (r: ServiceReport)
    ensures
        ({
            let ready = match reported_ready {
                Some(n) => n as int,
                None => 0,
            };
            let phase = crate::service_phase(desired as int, ready);
            &&& r.ready_replicas == ready
            &&& r.status.phase@ == phase
            &&& r.status.message@ == crate::service_message(desired as int, ready)
            &&& r.requeue_secs == (if phase == "Ready"@ {
                READY_REQUEUE_SECS
            } else {
                WARMING_REQUEUE_SECS
            })
        }),
{
    let ready: i32 = match reported_ready {
        Some(n) => n,
        None => 0,
    };
    let (phase, message) = phase_for(desired, ready);
    let requeue_secs: u64 = if same_text(phase, "Ready") {
        READY_REQUEUE_SECS
    } else {
        WARMING_REQUEUE_SECS
    };
    ServiceReport {
        status: VllmServiceStatus { phase: phase.to_string(), message },
        ready_replicas: ready,
        requeue_secs,
    }
}

/// A placeholder does nothing: no command, no GPU, no volume and no environment of its own.
pub proof fn placeholders_are_inert(d: Deployment, svc: VllmService)
    requires
        deployment_matches(d, svc),
        svc.spec.gpu <= 0,
    ensures
        d.template.container.command is None,
        d.template.container.args is None,
        d.template.container.env@.len() == 0,
        d.template.container.limits@.len() == 0,
        d.template.container.volumes@.len() == 0,
        d.template.termination_grace_period_seconds is None,
{
    let c = d.template.container;
    assert(objects::labels_view(c.env@).len() == c.env@.len());
    assert(objects::labels_view(c.limits@).len() == c.limits@.len());
}

/// The Deployment selects its own pods: its selector and the labels of its pods are the same. The
/// Service's selector is among them.
pub proof fn selectors_match_pods(d: Deployment, r: Service, svc: VllmService)
    requires
        deployment_matches(d, svc),
        service_matches(r, svc),
    ensures
        objects::labels_view(d.match_labels@) == objects::labels_view(d.template.labels@),
        forall|i: int|
            0 <= i < r.selector@.len() ==> objects::labels_view(d.template.labels@).contains(
                #[trigger] objects::labels_view(r.selector@)[i],
            ),
{
    let pods = objects::labels_view(d.template.labels@);
    assert(pods[0] == ("app"@, svc.metadata.any_name()));
    assert(pods.contains(pods[0]));
    assert(objects::labels_view(r.selector@).len() == r.selector@.len());
}

} // verus!
