use spark_api::k8s::manifests::{
    app_deployment, app_ingress, app_network_policy, app_service, build_job, image_ref, AppSpec,
    BuildJob, BuildSpec, PolicyPeer, TLS_SECRET,
};

fn spec() -> BuildSpec {
    BuildSpec {
        deployment_id: 2,
        app_id: 1,
        namespace: "spark-app-x".to_string(),
        git_repo: "https://github.com/traefik/whoami.git".to_string(),
        git_ref: "abc123".to_string(),
        dockerfile_path: "Dockerfile".to_string(),
        image_ref: "localhost:30500/spark/app:dep".to_string(),
        registry_insecure: true,
    }
}

fn args_of(job: &BuildJob) -> Vec<String> {
    job.container.args.clone()
}

#[test]
fn build_pins_the_context_to_the_resolved_ref() {
    let args = args_of(&build_job(&spec()));
    assert!(
        args.contains(&"--opt=context=https://github.com/traefik/whoami.git#abc123".to_string()),
        "context must carry the ref so the build is reproducible: {args:?}"
    );
}

#[test]
fn insecure_flag_follows_the_registry_setting() {
    let args = args_of(&build_job(&spec()));
    assert!(args.iter().any(|a| a.contains("registry.insecure=true")));

    let secure = BuildSpec {
        registry_insecure: false,
        ..spec()
    };
    let args = args_of(&build_job(&secure));
    assert!(
        !args.iter().any(|a| a.contains("registry.insecure")),
        "an external registry must not be pushed to insecurely: {args:?}"
    );
}

#[test]
fn builder_shares_the_node_network_to_reach_the_nodeport_registry() {
    let job = build_job(&spec());
    assert!(job.host_network);
}

#[test]
fn retries_are_left_to_the_queue() {
    let job = build_job(&spec());
    assert_eq!(job.backoff_limit, 0);
}

#[test]
fn image_refs_are_keyed_on_ids_not_names() {
    let a = "00000000-0000-0000-0000-000000000001";
    let d = "00000000-0000-0000-0000-000000000002";
    assert_eq!(image_ref("localhost:30500", 1, 2), format!("localhost:30500/spark/{a}:{d}"));
}

fn app_spec() -> AppSpec {
    AppSpec {
        app_id: 7,
        namespace: "spark-app-7".to_string(),
        image: "localhost:30500/spark/a:b".to_string(),
        container_port: 3000,
        cpu_limit: "250m".to_string(),
        memory_limit: "256Mi".to_string(),
        hosts: vec!["blog.localhost".to_string(), "example.com".to_string()],
    }
}

#[test]
fn pods_carry_the_label_the_service_selects_on() {
    let spec = app_spec();
    let deployment = app_deployment(&spec);
    let service = app_service(&spec);

    let pod_labels = deployment.pod_labels;
    let service_selector = service.selector;

    // A mismatch here produces a Service that silently routes nowhere.
    for (key, value) in &service_selector {
        assert_eq!(
            pod_labels.iter().find(|(k, _)| k == key).map(|(_, v)| v),
            Some(value),
            "pod is missing the selector label {key}"
        );
    }
    assert!(!service_selector.is_empty(), "selector must not be empty");
}

#[test]
fn resource_limits_come_from_the_application_record() {
    let deployment = app_deployment(&app_spec());
    let container = deployment.container;
    assert_eq!(container.cpu_limit, "250m");
    assert_eq!(container.memory_limit, "256Mi");

    // Requests must stay at or below limits or the pod is unschedulable.
    assert!(!container.cpu_request.is_empty() && !container.memory_request.is_empty());
}

#[test]
fn service_targets_the_container_port_but_publishes_80() {
    let service = app_service(&app_spec());
    assert_eq!(service.port, 80, "ingress always talks to port 80");
    assert_eq!(service.target_port, 3000);
}

#[test]
fn ingress_routes_every_host_to_the_app_service() {
    let spec = app_spec();
    let ingress = app_ingress(spec.app_id, &spec.namespace, &spec.hosts, None);
    let hosts: Vec<_> = ingress.rules.iter().map(|r| r.host.clone()).collect();
    assert_eq!(hosts, vec!["blog.localhost", "example.com"]);
    assert_eq!(ingress.ingress_class, "traefik");
}

#[test]
fn no_issuer_configured_means_no_tls_block() {
    let spec = app_spec();
    let ingress = app_ingress(spec.app_id, &spec.namespace, &spec.hosts, None);
    assert!(
        ingress.tls.is_none(),
        "an empty tls block would make Traefik serve a certificate it does not have"
    );
    assert!(ingress.metadata.annotations.is_none());
}

#[test]
fn issuer_adds_the_annotation_and_covers_every_host() {
    let spec = app_spec();
    let ingress = app_ingress(spec.app_id, &spec.namespace, &spec.hosts, Some("spark-selfsigned"));

    // ingress-shim reads this annotation to create the Certificate.
    assert_eq!(
        ingress
            .metadata
            .annotations
            .as_ref()
            .and_then(|a| a.iter().find(|(k, _)| k == "cert-manager.io/cluster-issuer"))
            .map(|(_, v)| v.as_str()),
        Some("spark-selfsigned")
    );

    let tls = ingress.tls.unwrap_or_default();
    let entry = tls.first().expect("a tls entry");
    // A host missing here is a host served with the wrong certificate.
    assert_eq!(entry.hosts.as_slice(), spec.hosts.as_slice());
    assert_eq!(entry.secret_name, TLS_SECRET);
}

#[test]
fn egress_policy_permits_dns_and_excludes_cluster_ranges() {
    let cidrs = vec!["10.96.0.0/12".to_string(), "10.244.0.0/16".to_string()];
    let policy = app_network_policy(&app_spec(), &cidrs);
    let egress = policy.egress;
    assert!(!egress.is_empty(), "policy must have egress rules");

    let dns = egress
        .iter()
        .any(|r| r.ports.iter().flatten().any(|p| p.port == 53));
    assert!(dns, "blocking DNS would break every application");

    let excepted = egress
        .iter()
        .flat_map(|r| r.to.iter())
        .filter_map(|peer| match peer {
            PolicyPeer::IpBlock { except, .. } => Some(except.clone()),
            PolicyPeer::Namespaces(_) => None,
        })
        .flatten()
        .collect::<Vec<_>>();
    assert_eq!(excepted, cidrs, "cluster ranges must be excluded from egress");
}

#[test]
fn requests_never_exceed_small_limits() {
    let spec = AppSpec {
        cpu_limit: "10m".to_string(),
        memory_limit: "32Mi".to_string(),
        ..app_spec()
    };
    let container = app_deployment(&spec).container;
    assert_eq!(container.cpu_request, "10m");
    assert_eq!(container.memory_request, "32Mi");
    let defaults = app_deployment(&app_spec()).container;
    assert_eq!(defaults.cpu_request, "50m");
    assert_eq!(defaults.memory_request, "64Mi");
}

#[test]
fn the_policy_selects_every_pod_of_the_namespace() {
    let policy = app_network_policy(&app_spec(), &vec![]);
    assert!(policy.pod_selector.is_empty());
    assert_eq!(policy.policy_types, vec!["Egress"]);
}
