//! What the operator makes of a service, and what it reports of it.
use crate::deployment;
use crate::deployment::{Deployment, Error, Service, ServiceReport};
use crate::metrics;
use crate::metrics::{ErrorLabels, PhaseValue};
use crate::names::{NameMap, NameSet};
use crate::objects;
use crate::objects::{ObjectMeta, OwnerReference};
use crate::text;
use crate::{VllmService, WarmupStrategy};
use vstd::prelude::*;

verus! {

/// The phase of a service says how many of its replicas are ready: none, some but not all, or at
/// least as many as asked for. The message counts them.
pub proof fn the_phase_says_how_many_are_ready(
    desired: i32,
    ready: i32,
    r: (&'static str, String),
)
    requires
        call_ensures(crate::phase_for, (desired, ready), r),
    ensures
        ready == 0 ==> r.0@ == "Pending"@ && r.1@ == "Deployment created; no replica ready yet"@,
        ready != 0 && ready < desired ==> r.0@ == "Warming"@ && r.1@ == text::signed_decimal(
            ready as int,
        ) + "/"@ + text::signed_decimal(desired as int) + " replicas ready; warming up"@,
        ready != 0 && ready >= desired ==> r.0@ == "Ready"@ && r.1@ == text::signed_decimal(
            ready as int,
        ) + "/"@ + text::signed_decimal(desired as int) + " replicas ready and warm"@,
{
}

/// A service is reported by the ready replicas that its Deployment reports, none if it reports
/// none, in the phase that they amount to; and it is looked at again soon while it is not ready, and
/// late once it is.
pub proof fn a_service_is_reported_by_its_ready_replicas(
    desired: i32,
    reported: Option<i32>,
    r: ServiceReport,
    ready: i32,
    phase: (&'static str, String),
)
    requires
        call_ensures(deployment::report_service, (desired, reported), r),
        ready == (if reported is Some {
            reported->0
        } else {
            0
        }),
        call_ensures(crate::phase_for, (desired, ready), phase),
    ensures
        r.ready_replicas == ready,
        r.status.phase@ == phase.0@,
        r.status.message@ == phase.1@,
        ready != 0 && ready >= desired ==> r.requeue_secs == 300,
        ready == 0 || ready < desired ==> r.requeue_secs == 5,
{
    crate::fleet_laws::phases_are_distinct();
}

/// The gauge of phases: one value for each listed phase, in order, one for the current phase and zero
/// for the others, all under the name and namespace of the object.
pub proof fn the_gauge_shows_the_current_phase(
    name: &str,
    namespace: &str,
    current: &str,
    all: &[&str],
    r: Vec<PhaseValue>,
    i: int,
)
    requires
        call_ensures(metrics::phase_values, (name, namespace, current, all), r),
        0 <= i < all@.len(),
    ensures
        r@.len() == all@.len(),
        r@[i].labels.name@ == name@,
        r@[i].labels.namespace@ == namespace@,
        r@[i].labels.phase@ == all@[i]@,
        all@[i]@ == current@ ==> r@[i].value == 1,
        all@[i]@ != current@ ==> r@[i].value == 0,
{
    let v = r@[i];
}

/// The listed phases of a service are those that `phase_for` gives, each once: the gauge has exactly
/// one of them at one.
pub proof fn the_listed_phases_are_those_given(
    all: Vec<&'static str>,
    desired: i32,
    ready: i32,
    r: (&'static str, String),
)
    requires
        call_ensures(crate::all_service_phases, (), all),
        call_ensures(crate::phase_for, (desired, ready), r),
    ensures
        exists|i: int| 0 <= i < all@.len() && (#[trigger] all@[i])@ == r.0@,
        forall|i: int, j: int|
            0 <= i < j < all@.len() ==> (#[trigger] all@[i])@ != (#[trigger] all@[j])@,
        all@.len() == 3,
{
    let names = metrics::phase_names(all@);
    assert(names.len() == all@.len());
    let phase = crate::service_phase(desired as int, ready as int);
    assert(crate::service_phases().contains(phase));
    let i = choose|i: int| 0 <= i < names.len() && names[i] == phase;
    assert(names[i] == all@[i]@);
    assert forall|i: int, j: int| 0 <= i < j < all@.len() implies (#[trigger] all@[i])@ != (
    #[trigger] all@[j])@ by {
        assert(names[i] == all@[i]@ && names[j] == all@[j]@);
    }
}

/// A failure is counted under the object and the kind of failure that are given, and the kinds have
/// labels of their own.
pub proof fn failures_are_counted_by_object_and_kind(
    instance: &str,
    error: &str,
    r: ErrorLabels,
    e: &Error,
    label: &'static str,
)
    requires
        call_ensures(metrics::failure_labels, (instance, error), r),
        call_ensures(Error::metric_label, (e,), label),
    ensures
        r.instance@ == instance@,
        r.error@ == error@,
        *e == Error::Kube ==> label@ == "kube"@,
        *e == Error::MissingNamespace ==> label@ == "missing_namespace"@,
{
}

/// Whether a list of labels is just the two of a service: its name, and who manages it.
pub open spec fn named_and_managed(labels: Seq<(String, String)>, name: Seq<char>) -> bool {
    &&& labels.len() == 2
    &&& labels[0].0@ == "app"@
    &&& labels[0].1@ == name
    &&& labels[1].0@ == "app.kubernetes.io/managed-by"@
    &&& labels[1].1@ == "vllm-coldstart-operator"@
}

/// Whether an object is made for a service: under its name, in its namespace, with its labels, and
/// owned by it alone.
pub open spec fn made_for(m: ObjectMeta, svc: VllmService) -> bool {
    &&& m.name is Some && m.name->0@ == svc.metadata.any_name()
    &&& m.generate_name is None
    &&& m.uid is None
    &&& m.namespace == svc.metadata.namespace
    &&& named_and_managed(m.labels@, svc.metadata.any_name())
    &&& m.owner_references@.len() == 1
    &&& m.owner_references@[0].kind@ == "VllmService"@
    &&& m.owner_references@[0].api_version@ == "inference.michelecampi.dev/v1alpha1"@
    &&& m.owner_references@[0].name@ == svc.metadata.name->0@
    &&& m.owner_references@[0].uid@ == svc.metadata.uid->0@
    &&& m.owner_references@[0].controller
}

proof fn labels_are_seen(labels: Seq<(String, String)>)
    ensures
        objects::labels_view(labels).len() == labels.len(),
        forall|i: int|
            0 <= i < labels.len() ==> (#[trigger] labels[i]).0@ == objects::labels_view(labels)[i].0
                && labels[i].1@ == objects::labels_view(labels)[i].1,
{
}

proof fn metadata_is_seen(m: ObjectMeta, svc: VllmService)
    requires
        deployment::metadata_matches(m, svc),
    ensures
        made_for(m, svc),
{
    labels_are_seen(m.labels@);
    let o = objects::owners_view(m.owner_references@);
    assert(o.len() == m.owner_references@.len());
    assert(o[0] == m.owner_references@[0]@);
}

/// The Deployment of a service runs as many pods as the service asks for, of its image, on its node,
/// and is made for it. While it is changed, a new pod is ready before an old one goes.
pub proof fn a_deployment_runs_its_service(svc: &VllmService, r: Result<Deployment, Error>)
    requires
        call_ensures(deployment::build_deployment, (svc,), r),
    ensures
        svc.metadata.namespace is None ==> r == Err::<Deployment, Error>(Error::MissingNamespace),
        svc.metadata.namespace is Some ==> r is Ok && {
            let d = r->Ok_0;
            &&& made_for(d.metadata, *svc)
            &&& d.replicas == svc.spec.replicas
            &&& named_and_managed(d.match_labels@, svc.metadata.any_name())
            &&& named_and_managed(d.template.labels@, svc.metadata.any_name())
            &&& d.max_surge == 1
            &&& d.max_unavailable == 0
            &&& d.template.runtime_class_name == svc.spec.runtime_class_name
            &&& svc.spec.node_name is None ==> d.template.node_selector@.len() == 0
            &&& svc.spec.node_name is Some ==> d.template.node_selector@.len() == 1
                && d.template.node_selector@[0].0@ == "kubernetes.io/hostname"@
                && d.template.node_selector@[0].1@ == svc.spec.node_name->0@
            &&& d.template.container.name@ == "inference"@
            &&& d.template.container.image@ == svc.spec.image@
            &&& d.template.container.port == 8000
            &&& d.template.container.port_name@ == "http"@
        },
{
    if r is Ok {
        let d = r->Ok_0;
        metadata_is_seen(d.metadata, *svc);
        labels_are_seen(d.match_labels@);
        labels_are_seen(d.template.labels@);
        labels_are_seen(d.template.node_selector@);
    }
}

/// A service with GPUs is served: the serving command with the model first, the address, the eager
/// switch exactly where the service asks for a fast cold start, and then what it adds, in order; as
/// many GPUs as asked; shared memory, and the model cache exactly where a directory is named for it;
/// and time to finish requests.
pub proof fn a_service_with_gpus_is_served(svc: &VllmService, r: Result<Deployment, Error>)
    requires
        call_ensures(deployment::build_deployment, (svc,), r),
        svc.metadata.namespace is Some,
        svc.spec.gpu > 0,
    ensures
        ({
            let d = r->Ok_0;
            let c = d.template.container;
            let eager = svc.spec.warmup_strategy == WarmupStrategy::Eager;
            let n = if eager {
                6int
            } else {
                5
            };
            &&& r is Ok
            &&& c.command is Some && c.command->0@.len() == 2
            &&& c.command->0@[0]@ == "vllm"@
            &&& c.command->0@[1]@ == "serve"@
            &&& c.args is Some
            &&& c.args->0@.len() == n + svc.spec.extra_args@.len()
            &&& c.args->0@[0]@ == svc.spec.model@
            &&& c.args->0@[1]@ == "--host"@
            &&& c.args->0@[2]@ == "0.0.0.0"@
            &&& c.args->0@[3]@ == "--port"@
            &&& c.args->0@[4]@ == "8000"@
            &&& eager ==> c.args->0@[5]@ == "--enforce-eager"@
            &&& forall|i: int|
                0 <= i < svc.spec.extra_args@.len() ==> (#[trigger] svc.spec.extra_args@[i])@
                    == c.args->0@[n + i]@
            &&& c.env@.len() == 1
            &&& c.env@[0].0@ == "LD_LIBRARY_PATH"@
            &&& c.env@[0].1@ == "/usr/local/nvidia/lib64"@
            &&& c.limits@.len() == 1
            &&& c.limits@[0].0@ == "nvidia.com/gpu"@
            &&& c.limits@[0].1@ == text::signed_decimal(svc.spec.gpu as int)
            &&& c.volumes@.len() == (if svc.spec.model_cache_host_path is Some {
                2int
            } else {
                1
            })
            &&& c.volumes@[0].name@ == "dshm"@
            &&& c.volumes@[0].mount_path@ == "/dev/shm"@
            &&& c.volumes@[0].source is Memory
            &&& svc.spec.model_cache_host_path is Some ==> c.volumes@[1].name@ == "model-cache"@
                && c.volumes@[1].mount_path@ == "/root/.cache/huggingface"@
                && c.volumes@[1].source is HostPath && c.volumes@[1].source->HostPath_0@
                == svc.spec.model_cache_host_path->0@
            &&& d.template.termination_grace_period_seconds == Some(120i64)
        }),
{
    let d = r->Ok_0;
    let c = d.template.container;
    labels_are_seen(c.env@);
    labels_are_seen(c.limits@);
    let command = objects::texts_view(c.command->0@);
    let args = objects::texts_view(c.args->0@);
    let extra = objects::texts_view(svc.spec.extra_args@);
    assert(command.len() == c.command->0@.len());
    assert(command[0] == c.command->0@[0]@ && command[1] == c.command->0@[1]@);
    assert(args.len() == c.args->0@.len());
    assert(extra.len() == svc.spec.extra_args@.len());
    let n = if svc.spec.warmup_strategy == WarmupStrategy::Eager {
        6int
    } else {
        5
    };
    assert forall|i: int| 0 <= i < args.len() implies #[trigger] args[i] == c.args->0@[i]@ by {}
    assert(args[0] == svc.spec.model@);
    assert(args[1] == "--host"@ && args[2] == "0.0.0.0"@ && args[3] == "--port"@ && args[4]
        == "8000"@);
    assert(svc.spec.warmup_strategy == WarmupStrategy::Eager ==> args[5] == "--enforce-eager"@);
    assert forall|i: int| 0 <= i < svc.spec.extra_args@.len() implies (
    #[trigger] svc.spec.extra_args@[i])@ == c.args->0@[n + i]@ by {
        assert(args[n + i] == extra[i]);
    }
}

/// A service without GPUs is a placeholder: its pods run the image as it is, with no command, no
/// arguments, no GPU, no volume, no environment, and no extra time to stop.
pub proof fn a_service_without_gpus_is_a_placeholder(
    svc: &VllmService,
    r: Result<Deployment, Error>,
)
    requires
        call_ensures(deployment::build_deployment, (svc,), r),
        svc.metadata.namespace is Some,
        svc.spec.gpu <= 0,
    ensures
        r is Ok,
        r->Ok_0.template.container.command is None,
        r->Ok_0.template.container.args is None,
        r->Ok_0.template.container.env@.len() == 0,
        r->Ok_0.template.container.limits@.len() == 0,
        r->Ok_0.template.container.volumes@.len() == 0,
        r->Ok_0.template.termination_grace_period_seconds is None,
{
    let c = r->Ok_0.template.container;
    labels_are_seen(c.env@);
    labels_are_seen(c.limits@);
}

/// A pod is ready when its readiness path answers, asked every five seconds and given up after sixty
/// failures; a service without such a path has no probe, with GPUs or without.
pub proof fn pods_are_probed_on_their_path(svc: &VllmService, r: Result<Deployment, Error>)
    requires
        call_ensures(deployment::build_deployment, (svc,), r),
        svc.metadata.namespace is Some,
    ensures
        r is Ok,
        svc.spec.health_path@.len() == 0 <==> r->Ok_0.template.container.readiness_probe is None,
        svc.spec.health_path@.len() > 0 ==> {
            let p = r->Ok_0.template.container.readiness_probe->0;
            &&& p.path@ == svc.spec.health_path@
            &&& p.port == 8000
            &&& p.initial_delay_seconds == 5
            &&& p.period_seconds == 5
            &&& p.failure_threshold == 60
        },
{
}

/// The Service of a service routes to its pods: it is made for it, selects by its name, which every
/// pod of the Deployment carries, and leads from and to the port that they serve on.
pub proof fn a_route_leads_to_the_pods(
    svc: &VllmService,
    r: Result<Service, Error>,
    d: Result<Deployment, Error>,
)
    requires
        call_ensures(deployment::build_service, (svc,), r),
        call_ensures(deployment::build_deployment, (svc,), d),
    ensures
        svc.metadata.namespace is None ==> r == Err::<Service, Error>(Error::MissingNamespace),
        svc.metadata.namespace is Some ==> r is Ok && d is Ok && {
            let s = r->Ok_0;
            &&& made_for(s.metadata, *svc)
            &&& s.selector@.len() == 1
            &&& s.selector@[0].0@ == d->Ok_0.template.labels@[0].0@
            &&& s.selector@[0].1@ == d->Ok_0.template.labels@[0].1@
            &&& s.selector@[0].0@ == "app"@
            &&& s.selector@[0].1@ == svc.metadata.any_name()
            &&& s.port == 8000
            &&& s.target_port == d->Ok_0.template.container.port
            &&& s.port_name@ == "http"@
        },
{
    if svc.metadata.namespace is Some {
        let s = r->Ok_0;
        metadata_is_seen(s.metadata, *svc);
        labels_are_seen(s.selector@);
        labels_are_seen(d->Ok_0.template.labels@);
    }
}

/// An object is spoken of by its name, else by the prefix that its name is to be generated from, else
/// by nothing.
pub proof fn objects_are_spoken_of_by_name(m: &ObjectMeta, r: String)
    requires
        call_ensures(ObjectMeta::name_any, (m,), r),
    ensures
        m.name is Some ==> r@ == m.name->0@,
        m.name is None && m.generate_name is Some ==> r@ == m.generate_name->0@,
        m.name is None && m.generate_name is None ==> r@.len() == 0,
        r@ == m.any_name(),
{
}

/// An object can be an owner exactly if it has a name and a uid, and is then referred to by both, by
/// its kind, and as the controller.
pub proof fn owners_have_a_name_and_a_uid(
    m: &ObjectMeta,
    kind: &str,
    r: Option<OwnerReference>,
)
    requires
        call_ensures(ObjectMeta::controller_owner_ref, (m, kind), r),
    ensures
        r is Some <==> m.name is Some && m.uid is Some,
        r is Some ==> r->0.name@ == m.name->0@ && r->0.uid@ == m.uid->0@ && r->0.kind@ == kind@
            && r->0.api_version@ == "inference.michelecampi.dev/v1alpha1"@ && r->0.controller,
{
    if r is Some {
        assert(r->0@ == m.owner_view(kind@));
    }
}

/// A name is in a set exactly if it was put there.
pub proof fn a_set_holds_what_was_put_in(
    empty: NameSet,
    s: &mut NameSet,
    name: String,
    after: NameSet,
    asked: &str,
    in_empty: bool,
    was_in: bool,
    is_in: bool,
)
    requires
        call_ensures(NameSet::new, (), empty),
        call_ensures(NameSet::contains, (&empty, asked), in_empty),
        call_ensures(NameSet::contains, (&*old(s), asked), was_in),
        call_ensures(NameSet::insert, (s, name), ()),
        after == *final(s),
        call_ensures(NameSet::contains, (&after, asked), is_in),
    ensures
        !in_empty,
        is_in == (was_in || asked@ == name@),
{
}

/// A map gives back what was last put in under a name, and nothing under any other.
pub proof fn a_map_gives_back_what_was_put_in<V: Copy>(
    empty: NameMap<V>,
    m: &mut NameMap<V>,
    name: &str,
    value: V,
    after: NameMap<V>,
    asked: &str,
    from_empty: Option<V>,
    before: Option<V>,
    r: Option<V>,
)
    requires
        call_ensures(NameMap::<V>::new, (), empty),
        call_ensures(NameMap::<V>::get, (&empty, asked), from_empty),
        call_ensures(NameMap::<V>::get, (&*old(m), asked), before),
        call_ensures(NameMap::<V>::insert, (m, name, value), ()),
        after == *final(m),
        call_ensures(NameMap::<V>::get, (&after, asked), r),
    ensures
        from_empty is None,
        asked@ == name@ ==> r == Some(value),
        asked@ != name@ ==> r == before,
{
}

} // verus!
