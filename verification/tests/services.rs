use vllm_coldstart_operator::deployment::{
    build_deployment, build_service, report_service, Error, VolumeSource,
};
use vllm_coldstart_operator::metrics::{failure_labels, phase_values};
use vllm_coldstart_operator::objects::ObjectMeta;
use vllm_coldstart_operator::{
    all_service_phases, default_gpu, default_health_path, default_image, default_replicas,
    phase_for, VllmService,
    VllmServiceSpec, VllmServiceStatus, WarmupStrategy,
};

fn service() -> VllmService {
    VllmService {
        metadata: ObjectMeta {
            name: Some("chat".to_string()),
            generate_name: None,
            namespace: Some("prod".to_string()),
            uid: Some("u-1".to_string()),
            labels: vec![],
            owner_references: vec![],
        },
        spec: VllmServiceSpec {
            model: "Qwen/Qwen2.5-7B-Instruct".to_string(),
            replicas: 2,
            warmup_strategy: WarmupStrategy::Eager,
            image: "vllm/vllm-openai:v0.23.0".to_string(),
            gpu: 1,
            health_path: "/health".to_string(),
            runtime_class_name: Some("nvidia".to_string()),
            extra_args: vec!["--max-model-len".to_string(), "8192".to_string()],
            model_cache_host_path: Some("/opt/hf-cache".to_string()),
            node_name: Some("gpu-a".to_string()),
        },
        status: None,
    }
}

fn pairs(v: &[(String, String)]) -> Vec<(&str, &str)> {
    v.iter().map(|(a, b)| (a.as_str(), b.as_str())).collect()
}

#[test]
fn zero_ready_is_pending() {
    let (phase, _) = phase_for(3, 0);
    assert_eq!(phase, "Pending");
}

#[test]
fn partial_ready_is_warming() {
    let (phase, msg) = phase_for(3, 1);
    assert_eq!(phase, "Warming");
    assert!(msg.contains("1/3"));
}

#[test]
fn all_ready_is_ready() {
    let (phase, msg) = phase_for(3, 3);
    assert_eq!(phase, "Ready");
    assert!(msg.contains("3/3"));
}

#[test]
fn single_replica_ready() {
    let (phase, _) = phase_for(1, 1);
    assert_eq!(phase, "Ready");
}

#[test]
fn ready_exceeding_desired_is_still_ready() {
    let (phase, _) = phase_for(2, 3);
    assert_eq!(phase, "Ready");
}

#[test]
fn phase_messages_read_in_full() {
    assert_eq!(
        phase_for(3, 0).1,
        "Deployment created; no replica ready yet"
    );
    assert_eq!(phase_for(12, 10).1, "10/12 replicas ready; warming up");
    assert_eq!(phase_for(3, 3).1, "3/3 replicas ready and warm");
    assert_eq!(
        phase_for(i32::MIN, -5).1,
        "-5/-2147483648 replicas ready and warm"
    );
}

#[test]
fn service_defaults() {
    assert_eq!(default_replicas(), 1);
    assert_eq!(default_image(), "vllm/vllm-openai:latest");
    assert_eq!(default_gpu(), 1);
    assert_eq!(default_health_path(), "/health");
    assert_eq!(WarmupStrategy::default(), WarmupStrategy::Eager);
    assert!(VllmServiceStatus::default().phase.is_empty());
}

#[test]
fn deployment_of_a_serving_pod() {
    let d = build_deployment(&service()).expect("deployment");
    assert_eq!(d.metadata.name.as_deref(), Some("chat"));
    assert_eq!(d.metadata.namespace.as_deref(), Some("prod"));
    assert_eq!(d.replicas, 2);
    assert_eq!((d.max_surge, d.max_unavailable), (1, 0));
    let labels = vec![
        ("app", "chat"),
        ("app.kubernetes.io/managed-by", "vllm-coldstart-operator"),
    ];
    assert_eq!(pairs(&d.metadata.labels), labels);
    assert_eq!(pairs(&d.match_labels), labels);
    assert_eq!(pairs(&d.template.labels), labels);
    let owner = &d.metadata.owner_references[0];
    assert_eq!(owner.api_version, "inference.michelecampi.dev/v1alpha1");
    assert_eq!(owner.kind, "VllmService");
    assert_eq!((owner.name.as_str(), owner.uid.as_str()), ("chat", "u-1"));
    assert!(owner.controller);
    let t = &d.template;
    assert_eq!(t.runtime_class_name.as_deref(), Some("nvidia"));
    assert_eq!(t.termination_grace_period_seconds, Some(120));
    assert_eq!(
        pairs(&t.node_selector),
        vec![("kubernetes.io/hostname", "gpu-a")]
    );
    let c = &t.container;
    assert_eq!(c.name, "inference");
    assert_eq!(c.image, "vllm/vllm-openai:v0.23.0");
    assert_eq!(
        c.command.as_deref(),
        Some(&["vllm".to_string(), "serve".to_string()][..])
    );
    assert_eq!(
        c.args.as_ref().unwrap().join(" "),
        "Qwen/Qwen2.5-7B-Instruct --host 0.0.0.0 --port 8000 --enforce-eager --max-model-len 8192"
    );
    assert_eq!(
        pairs(&c.env),
        vec![("LD_LIBRARY_PATH", "/usr/local/nvidia/lib64")]
    );
    assert_eq!((c.port, c.port_name.as_str()), (8000, "http"));
    assert_eq!(pairs(&c.limits), vec![("nvidia.com/gpu", "1")]);
    let p = c.readiness_probe.as_ref().unwrap();
    assert_eq!((p.path.as_str(), p.port), ("/health", 8000));
    assert_eq!(
        (p.initial_delay_seconds, p.period_seconds, p.failure_threshold),
        (5, 5, 60)
    );
    assert_eq!(c.volumes.len(), 2);
    assert_eq!(c.volumes[0].name, "dshm");
    assert_eq!(c.volumes[0].mount_path, "/dev/shm");
    assert!(matches!(c.volumes[0].source, VolumeSource::Memory));
    match &c.volumes[1].source {
        VolumeSource::HostPath(p) => assert_eq!(p, "/opt/hf-cache"),
        VolumeSource::Memory => panic!("the model cache is a directory"),
    }
}

#[test]
fn graphs_are_kept_unless_the_cold_start_is_to_be_fast() {
    let mut svc = service();
    svc.spec.warmup_strategy = WarmupStrategy::Graph;
    svc.spec.extra_args = vec![];
    let d = build_deployment(&svc).expect("deployment");
    assert_eq!(
        d.template.container.args.unwrap().join(" "),
        "Qwen/Qwen2.5-7B-Instruct --host 0.0.0.0 --port 8000"
    );
}

#[test]
fn a_placeholder_is_inert() {
    let mut svc = service();
    svc.spec.gpu = 0;
    svc.spec.health_path = String::new();
    svc.spec.node_name = None;
    let d = build_deployment(&svc).expect("deployment");
    let c = &d.template.container;
    assert!(c.command.is_none() && c.args.is_none());
    assert!(c.env.is_empty() && c.limits.is_empty() && c.volumes.is_empty());
    assert!(c.readiness_probe.is_none());
    assert!(d.template.node_selector.is_empty());
    assert_eq!(d.template.termination_grace_period_seconds, None);
}

#[test]
fn a_service_without_a_namespace_is_refused() {
    let mut svc = service();
    svc.metadata.namespace = None;
    assert_eq!(build_deployment(&svc).err(), Some(Error::MissingNamespace));
    assert_eq!(build_service(&svc).err(), Some(Error::MissingNamespace));
    assert_eq!(Error::MissingNamespace.metric_label(), "missing_namespace");
    assert_eq!(Error::Kube.metric_label(), "kube");
}

#[test]
fn the_routing_service_selects_the_pods() {
    let s = build_service(&service()).expect("service");
    assert_eq!(pairs(&s.selector), vec![("app", "chat")]);
    assert_eq!((s.port, s.target_port), (8000, 8000));
    assert_eq!(s.metadata.owner_references[0].kind, "VllmService");
}

#[test]
fn a_generated_name_stands_in_for_a_name() {
    let mut svc = service();
    svc.metadata.name = None;
    svc.metadata.generate_name = Some("chat-".to_string());
    assert_eq!(svc.metadata.name_any(), "chat-");
    assert!(svc.metadata.controller_owner_ref("VllmService").is_none());
    svc.metadata.generate_name = None;
    assert_eq!(svc.metadata.name_any(), "");
}

#[test]
fn a_service_is_looked_at_sooner_while_it_warms_up() {
    let warming = report_service(2, Some(1));
    assert_eq!(warming.status.phase, "Warming");
    assert_eq!(warming.requeue_secs, 5);
    let unreported = report_service(2, None);
    assert_eq!(unreported.status.phase, "Pending");
    assert_eq!((unreported.ready_replicas, unreported.requeue_secs), (0, 5));
    let ready = report_service(2, Some(2));
    assert_eq!(ready.status.message, "2/2 replicas ready and warm");
    assert_eq!(ready.requeue_secs, 300);
}

#[test]
fn the_phase_gauge_has_one_active_phase() {
    let v = phase_values("svc-a", "default", "Ready", &["Pending", "Ready", "Failed"]);
    let values: Vec<i64> = v.iter().map(|p| p.value).collect();
    assert_eq!(values, vec![0, 1, 0]);
    assert_eq!(v[1].labels.name, "svc-a");
    assert_eq!(v[1].labels.namespace, "default");
    assert_eq!(v[1].labels.phase, "Ready");
    let all = all_service_phases();
    assert_eq!(all, vec!["Pending", "Warming", "Ready"]);
    for (ready, expected) in [(0, [1, 0, 0]), (1, [0, 1, 0]), (2, [0, 0, 1]), (-1, [0, 1, 0])] {
        let (phase, _) = phase_for(2, ready);
        let v = phase_values("svc-a", "default", phase, &all);
        let values: Vec<i64> = v.iter().map(|p| p.value).collect();
        assert_eq!(values, expected);
    }
    let l = failure_labels("svc-a", "ApplyError");
    assert_eq!((l.instance.as_str(), l.error.as_str()), ("svc-a", "ApplyError"));
}
