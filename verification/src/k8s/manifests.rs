//! Manifest construction.
//!
//! Everything here is a plain function from a spec to a description of a
//! Kubernetes object, so the part that is easy to get quietly wrong is
//! checked without a cluster. The descriptions hold exactly the fields the
//! control plane sets; every other field is left at its default.
//! Label and annotation maps are listed in key order.

use crate::k8s::quantity::{cpu_millicores, cpu_millicores_of, lemma_default_requests, memory_bytes, memory_bytes_of};
use crate::k8s::names::{lemma_uuid_text_has_no_colon, uuid_string, uuid_text};
use crate::text::{chars_of, concat_str, first_of, lemma_first_of_is, string_from_range, strip_prefix};
use vstd::prelude::*;

verus! {

broadcast use vstd::string::group_string_axioms;

/// Rootless BuildKit.
pub const BUILDKIT_IMAGE: &'static str = "moby/buildkit:v0.19.0-rootless";

/// Name shared by the Deployment, Service and Ingress inside the application's
/// own namespace, so there is nothing to disambiguate.
pub const APP_RESOURCE: &'static str = "app";

/// Secret holding the application's environment variables.
pub const ENV_SECRET: &'static str = "app-env";

/// Secret cert-manager writes the issued certificate into.
pub const TLS_SECRET: &'static str = "app-tls";

pub open spec fn pair_views(v: Seq<(String, String)>) -> Seq<(Seq<char>, Seq<char>)> {
    v.map_values(|p: (String, String)| (p.0@, p.1@))
}

pub open spec fn str_views(v: Seq<String>) -> Seq<Seq<char>> {
    v.map_values(|s: String| s@)
}

/// What a build needs to know.
pub struct BuildSpec {
    pub deployment_id: u128,
    pub app_id: u128,
    pub namespace: String,
    pub git_repo: String,
    /// A commit SHA when it could be resolved, otherwise a branch name.
    pub git_ref: String,
    pub dockerfile_path: String,
    pub image_ref: String,
    pub registry_insecure: bool,
}

/// Metadata of an object the control plane owns.
pub struct Metadata {
    pub name: String,
    pub namespace: String,
    pub labels: Vec<(String, String)>,
    pub annotations: Option<Vec<(String, String)>>,
}

/// The single container of a build Job.
pub struct BuildContainer {
    pub name: String,
    pub image: String,
    pub command: Vec<String>,
    pub args: Vec<String>,
    pub env: Vec<(String, String)>,
    pub run_as_user: i64,
    pub run_as_group: i64,
    pub seccomp_profile: String,
    pub app_armor_profile: String,
}

/// A build Job.
pub struct BuildJob {
    pub metadata: Metadata,
    pub backoff_limit: i32,
    pub ttl_seconds_after_finished: i32,
    pub pod_labels: Vec<(String, String)>,
    pub restart_policy: String,
    pub host_network: bool,
    pub container: BuildContainer,
}

/// What the runtime objects of an application are made from.
pub struct AppSpec {
    pub app_id: u128,
    pub namespace: String,
    pub image: String,
    pub container_port: i32,
    pub cpu_limit: String,
    pub memory_limit: String,
    /// Default host first, then any custom domains.
    pub hosts: Vec<String>,
}

/// The application container.
pub struct AppContainer {
    pub name: String,
    pub image: String,
    /// The one container port, named `http`.
    pub port: i32,
    pub port_name: String,
    /// Secret the environment is read from; it may be missing.
    pub env_secret: String,
    pub env_secret_optional: bool,
    pub cpu_limit: String,
    pub memory_limit: String,
    pub cpu_request: String,
    pub memory_request: String,
    /// Readiness is a TCP connect to this port.
    pub probe_port: i32,
    pub probe_initial_delay_seconds: i32,
    pub probe_period_seconds: i32,
}

/// The application Deployment.
pub struct AppDeployment {
    pub metadata: Metadata,
    pub replicas: i32,
    pub selector: Vec<(String, String)>,
    pub pod_labels: Vec<(String, String)>,
    pub container: AppContainer,
}

/// The application Service.
pub struct AppService {
    pub metadata: Metadata,
    pub selector: Vec<(String, String)>,
    pub port: i32,
    pub target_port: i32,
    pub port_name: String,
}

/// One host routed by an Ingress: every path under `/` goes to a service port.
pub struct IngressRoute {
    pub host: String,
    pub path: String,
    pub path_type: String,
    pub service: String,
    pub service_port: i32,
}

pub struct IngressTls {
    pub hosts: Vec<String>,
    pub secret_name: String,
}

/// The application Ingress.
pub struct AppIngress {
    pub metadata: Metadata,
    pub ingress_class: String,
    pub rules: Vec<IngressRoute>,
    pub tls: Option<Vec<IngressTls>>,
}

pub struct PolicyPort {
    pub port: i32,
    pub protocol: String,
}

/// Where an egress rule lets traffic go.
pub enum PolicyPeer {
    /// Namespaces carrying these labels.
    Namespaces(Vec<(String, String)>),
    /// An address range minus some sub-ranges.
    IpBlock { cidr: String, except: Vec<String> },
}

pub struct EgressRule {
    pub to: Vec<PolicyPeer>,
    pub ports: Option<Vec<PolicyPort>>,
}

/// A NetworkPolicy over every pod of a namespace.
pub struct AppNetworkPolicy {
    pub metadata: Metadata,
    /// Labels the selected pods must carry; none selects every pod of the
    /// namespace.
    pub pod_selector: Vec<(String, String)>,
    pub policy_types: Vec<String>,
    pub egress: Vec<EgressRule>,
}

fn pair(k: &str, v: String) -> (p: (String, String))
    ensures
        p.0@ == k@,
        p.1@ == v@,
{
    (k.to_string(), v)
}

pub fn build_job_name(deployment_id: u128) -> (name: String)
    ensures
        name@ == "build-"@ + uuid_text(deployment_id),
{
    let id = uuid_string(deployment_id);
    concat_str("build-", id.as_str())
}

pub open spec fn labels_of(app_id: u128) -> Seq<(Seq<char>, Seq<char>)> {
    seq![("app.kubernetes.io/managed-by"@, "spark"@), ("spark.io/app"@, uuid_text(app_id))]
}

pub open spec fn selector_of(app_id: u128) -> Seq<(Seq<char>, Seq<char>)> {
    seq![("spark.io/app"@, uuid_text(app_id))]
}

/// Labels on everything the control plane creates for an application.
pub fn labels(app_id: u128) -> (l: Vec<(String, String)>)
    ensures
        pair_views(l@) == labels_of(app_id),
{
    let mut l: Vec<(String, String)> = Vec::new();
    l.push(pair("app.kubernetes.io/managed-by", "spark".to_string()));
    l.push(pair("spark.io/app", uuid_string(app_id)));
    assert(pair_views(l@) =~= labels_of(app_id));
    l
}

/// The label the Service selects the application's pods by.
fn selector(app_id: u128) -> (l: Vec<(String, String)>)
    ensures
        pair_views(l@) == selector_of(app_id),
{
    let mut l: Vec<(String, String)> = Vec::new();
    l.push(pair("spark.io/app", uuid_string(app_id)));
    assert(pair_views(l@) =~= selector_of(app_id));
    l
}

pub open spec fn build_output_of(spec: BuildSpec) -> Seq<char> {
    "type=image,name="@ + spec.image_ref@ + ",push=true"@ + if spec.registry_insecure {
        ",registry.insecure=true"@
    } else {
        Seq::<char>::empty()
    }
}

pub open spec fn build_args_of(spec: BuildSpec) -> Seq<Seq<char>> {
    seq![
        "build"@,
        "--frontend=dockerfile.v0"@,
        "--opt=context="@ + spec.git_repo@ + "#"@ + spec.git_ref@,
        "--opt=filename="@ + spec.dockerfile_path@,
        "--output="@ + build_output_of(spec),
        "--progress=plain"@,
    ]
}

/// The build reads the application's own Dockerfile from the repository at
/// the deployment's ref: among the builder's arguments are the filename
/// option carrying the Dockerfile path and the context option carrying the
/// repository and ref, and the output names the deployment's image.
pub proof fn law_build_reads_the_applications_dockerfile_at_its_ref(spec: BuildSpec)
    ensures
        build_args_of(spec).contains("--opt=filename="@ + spec.dockerfile_path@),
        build_args_of(spec).contains("--opt=context="@ + spec.git_repo@ + "#"@ + spec.git_ref@),
        exists|i: int|
            0 <= i < build_args_of(spec).len() && ("--output=type=image,name="@
                + spec.image_ref@).is_prefix_of(#[trigger] build_args_of(spec)[i]),
{
    let a = build_args_of(spec);
    assert(a[3] == "--opt=filename="@ + spec.dockerfile_path@);
    assert(a[2] == "--opt=context="@ + spec.git_repo@ + "#"@ + spec.git_ref@);
    reveal_strlit("--output=");
    reveal_strlit("type=image,name=");
    reveal_strlit("--output=type=image,name=");
    let o = build_output_of(spec);
    let pre = "type=image,name="@ + spec.image_ref@;
    let rest = ",push=true"@ + if spec.registry_insecure {
        ",registry.insecure=true"@
    } else {
        Seq::<char>::empty()
    };
    assert(o =~= pre + rest);
    assert(a[4] =~= "--output="@ + pre + rest);
    assert(("--output=type=image,name="@ + spec.image_ref@) =~= "--output="@ + pre);
    assert(("--output=type=image,name="@ + spec.image_ref@).is_prefix_of(a[4]));
}

pub open spec fn job_labels_of(spec: BuildSpec) -> Seq<(Seq<char>, Seq<char>)> {
    labels_of(spec.app_id).push(("spark.io/deployment"@, uuid_text(spec.deployment_id)))
}

/// The Job that builds and pushes an application image with BuildKit.
pub fn build_job(spec: &BuildSpec) -> (job: BuildJob)
    ensures
        job.metadata.name@ == "build-"@ + uuid_text(spec.deployment_id),
        job.metadata.namespace@ == spec.namespace@,
        pair_views(job.metadata.labels@) == job_labels_of(*spec),
        job.metadata.annotations is None,
        // Retries are the queue's job, not the Job controller's.
        job.backoff_limit == 0,
        job.ttl_seconds_after_finished == 3600,
        pair_views(job.pod_labels@) == job_labels_of(*spec),
        job.restart_policy@ == "Never"@,
        // The registry is published on a NodePort, so the builder shares the
        // node's network to reach it at the address the kubelet pulls from.
        job.host_network,
        job.container.name@ == "buildkit"@,
        job.container.image@ == BUILDKIT_IMAGE@,
        str_views(job.container.command@) == seq!["buildctl-daemonless.sh"@],
        str_views(job.container.args@) == build_args_of(*spec),
        pair_views(job.container.env@) == seq![
            ("BUILDKITD_FLAGS"@, "--oci-worker-no-process-sandbox"@),
        ],
        job.container.run_as_user == 1000,
        job.container.run_as_group == 1000,
        job.container.seccomp_profile@ == "Unconfined"@,
        job.container.app_armor_profile@ == "Unconfined"@,
{
    let with_image = concat_str("type=image,name=", spec.image_ref.as_str());
    let mut output = concat_str(with_image.as_str(), ",push=true");
    if spec.registry_insecure {
        output = concat_str(output.as_str(), ",registry.insecure=true");
    }
    let mut args: Vec<String> = Vec::new();
    args.push("build".to_string());
    args.push("--frontend=dockerfile.v0".to_string());
    let context = concat_str("--opt=context=", spec.git_repo.as_str());
    let context = concat_str(context.as_str(), "#");
    args.push(concat_str(context.as_str(), spec.git_ref.as_str()));
    args.push(concat_str("--opt=filename=", spec.dockerfile_path.as_str()));
    args.push(concat_str("--output=", output.as_str()));
    // Plain progress keeps the pod log readable as a build log.
    args.push("--progress=plain".to_string());
    assert(str_views(args@) =~= build_args_of(*spec));

    let mut job_labels = labels(spec.app_id);
    job_labels.push(pair("spark.io/deployment", uuid_string(spec.deployment_id)));
    assert(pair_views(job_labels@) =~= job_labels_of(*spec));
    let mut pod_labels = labels(spec.app_id);
    pod_labels.push(pair("spark.io/deployment", uuid_string(spec.deployment_id)));
    assert(pair_views(pod_labels@) =~= job_labels_of(*spec));

    let mut command: Vec<String> = Vec::new();
    command.push("buildctl-daemonless.sh".to_string());
    assert(str_views(command@) =~= seq!["buildctl-daemonless.sh"@]);
    let mut env: Vec<(String, String)> = Vec::new();
    // Required for rootless BuildKit without a privileged container.
    env.push(pair("BUILDKITD_FLAGS", "--oci-worker-no-process-sandbox".to_string()));
    assert(pair_views(env@) =~= seq![("BUILDKITD_FLAGS"@, "--oci-worker-no-process-sandbox"@)]);

    BuildJob {
        metadata: Metadata {
            name: build_job_name(spec.deployment_id),
            namespace: spec.namespace.clone(),
            labels: job_labels,
            annotations: None,
        },
        backoff_limit: 0,
        ttl_seconds_after_finished: 3600,
        pod_labels,
        restart_policy: "Never".to_string(),
        host_network: true,
        container: BuildContainer {
            name: "buildkit".to_string(),
            image: BUILDKIT_IMAGE.to_string(),
            command,
            args,
            env,
            run_as_user: 1000,
            run_as_group: 1000,
            seccomp_profile: "Unconfined".to_string(),
            app_armor_profile: "Unconfined".to_string(),
        },
    }
}

pub open spec fn image_ref_of(registry: Seq<char>, app_id: u128, deployment_id: u128) -> Seq<char> {
    registry + "/spark/"@ + uuid_text(app_id) + ":"@ + uuid_text(deployment_id)
}

/// `<registry>/spark/<app id>:<deployment id>`.
///
/// Keyed on ids rather than the application name: names are unique per owner
/// but not globally, and two users' `blog` must not collide in one registry.
pub fn image_ref(registry: &str, app_id: u128, deployment_id: u128) -> (r: String)
    ensures
        r@ == image_ref_of(registry@, app_id, deployment_id),
{
    let a = uuid_string(app_id);
    let d = uuid_string(deployment_id);
    let r = concat_str(registry, "/spark/");
    let r = concat_str(r.as_str(), a.as_str());
    let r = concat_str(r.as_str(), ":");
    concat_str(r.as_str(), d.as_str())
}

/// The repository and tag of an image pushed to `registry`: what follows
/// `<registry>/`, split at its first ':'.
pub open spec fn split_image_ref_of(registry: Seq<char>, image: Seq<char>) -> Option<(Seq<char>, Seq<char>)> {
    let p = registry + "/"@;
    if p.is_prefix_of(image) {
        let rest = image.skip(p.len() as int);
        let i = first_of(rest, ':');
        if i < rest.len() {
            Some((rest.take(i as int), rest.skip((i + 1) as int)))
        } else {
            None
        }
    } else {
        None
    }
}

/// Splits an image of `registry` into the repository and the tag the
/// registry's API addresses it by; `None` for an image of another registry
/// or one without a tag.
pub fn split_image_ref(registry: &str, image: &str) -> (r: Option<(String, String)>)
    ensures
        match r {
            Some((repo, tag)) => split_image_ref_of(registry@, image@) == Some((repo@, tag@)),
            None => split_image_ref_of(registry@, image@) is None,
        },
{
    let p = concat_str(registry, "/");
    let rest = match strip_prefix(image, p.as_str()) {
        Some(r) => r,
        None => {
            return None;
        },
    };
    let v = chars_of(rest);
    let mut i: usize = 0;
    while i < v.len() && v[i] != ':'
        invariant
            i <= v@.len(),
            forall|j: int| 0 <= j < i ==> v@[j] != ':',
        decreases v.len() - i,
    {
        i += 1;
    }
    proof {
        lemma_first_of_is(v@, ':', i as int);
    }
    if i == v.len() {
        return None;
    }
    Some((string_from_range(&v, 0, i), string_from_range(&v, i + 1, v.len())))
}

/// What an image reference is split into is what it was made from: the
/// repository `spark/<app id>` and the deployment id as the tag.
pub proof fn law_split_inverts_image_ref(registry: Seq<char>, app_id: u128, deployment_id: u128)
    ensures
        split_image_ref_of(registry, image_ref_of(registry, app_id, deployment_id)) == Some(
            ("spark/"@ + uuid_text(app_id), uuid_text(deployment_id)),
        ),
{
    reveal_strlit("/");
    reveal_strlit("spark/");
    reveal_strlit(":");
    reveal_strlit("/spark/");
    let image = image_ref_of(registry, app_id, deployment_id);
    let p = registry + "/"@;
    let repo = "spark/"@ + uuid_text(app_id);
    let rest = repo + ":"@ + uuid_text(deployment_id);
    assert(image =~= p + rest);
    assert(p.is_prefix_of(image));
    assert(image.skip(p.len() as int) =~= rest);
    assert forall|j: int| 0 <= j < repo.len() implies rest[j] != ':' by {
        if j >= 6 {
            assert(rest[j] == uuid_text(app_id)[j - 6]);
            lemma_uuid_text_has_no_colon(app_id, j - 6);
        }
    }
    lemma_first_of_is(rest, ':', repo.len() as int);
    assert(rest.take(repo.len() as int) =~= repo);
    assert(rest.skip((repo.len() + 1) as int) =~= uuid_text(deployment_id));
}

/// The CPU request for a CPU limit: 50m, or the limit where that is lower,
/// since a request above its limit leaves the pod unschedulable.
pub open spec fn cpu_request_for(limit: Seq<char>) -> Seq<char> {
    match cpu_millicores_of(limit) {
        Some(l) => if l < 50 {
            limit
        } else {
            "50m"@
        },
        None => "50m"@,
    }
}

/// The memory request for a memory limit: 64Mi, or the limit where that is
/// lower.
pub open spec fn memory_request_for(limit: Seq<char>) -> Seq<char> {
    match memory_bytes_of(limit) {
        Some(l) => if l < 67108864 {
            limit
        } else {
            "64Mi"@
        },
        None => "64Mi"@,
    }
}

/// The Deployment that runs an application image.
pub fn app_deployment(spec: &AppSpec) -> (d: AppDeployment)
    ensures
        d.metadata.name@ == APP_RESOURCE@,
        d.metadata.namespace@ == spec.namespace@,
        pair_views(d.metadata.labels@) == labels_of(spec.app_id),
        d.metadata.annotations is None,
        d.replicas == 1,
        pair_views(d.selector@) == selector_of(spec.app_id),
        // The labels merged with the selector: the selector's one label is
        // already among them with the same value.
        pair_views(d.pod_labels@) == labels_of(spec.app_id),
        d.container.name@ == APP_RESOURCE@,
        d.container.image@ == spec.image@,
        d.container.port == spec.container_port,
        d.container.port_name@ == "http"@,
        // Optional: a missing Secret must not wedge the rollout.
        d.container.env_secret@ == ENV_SECRET@,
        d.container.env_secret_optional,
        d.container.cpu_limit@ == spec.cpu_limit@,
        d.container.memory_limit@ == spec.memory_limit@,
        // Deliberately below the limits, so idle applications do not exhaust
        // a small cluster's schedulable capacity.
        d.container.cpu_request@ == cpu_request_for(spec.cpu_limit@),
        d.container.memory_request@ == memory_request_for(spec.memory_limit@),
        // Requests stay at or below limits, or the pod is unschedulable.
        cpu_millicores_of(spec.cpu_limit@) matches Some(l) ==> (cpu_millicores_of(
            d.container.cpu_request@,
        ) matches Some(r) && r <= l),
        memory_bytes_of(spec.memory_limit@) matches Some(l) ==> (memory_bytes_of(
            d.container.memory_request@,
        ) matches Some(r) && r <= l),
        d.container.probe_port == spec.container_port,
        d.container.probe_initial_delay_seconds == 2,
        d.container.probe_period_seconds == 5,
{
    proof {
        lemma_default_requests();
    }
    let cpu_request = match cpu_millicores(spec.cpu_limit.as_str()) {
        Some(l) => if l < 50 {
            spec.cpu_limit.clone()
        } else {
            "50m".to_string()
        },
        None => "50m".to_string(),
    };
    let memory_request = match memory_bytes(spec.memory_limit.as_str()) {
        Some(l) => if l < 67108864 {
            spec.memory_limit.clone()
        } else {
            "64Mi".to_string()
        },
        None => "64Mi".to_string(),
    };
    AppDeployment {
        metadata: Metadata {
            name: APP_RESOURCE.to_string(),
            namespace: spec.namespace.clone(),
            labels: labels(spec.app_id),
            annotations: None,
        },
        replicas: 1,
        selector: selector(spec.app_id),
        pod_labels: labels(spec.app_id),
        container: AppContainer {
            name: APP_RESOURCE.to_string(),
            image: spec.image.clone(),
            port: spec.container_port,
            port_name: "http".to_string(),
            env_secret: ENV_SECRET.to_string(),
            env_secret_optional: true,
            cpu_limit: spec.cpu_limit.clone(),
            memory_limit: spec.memory_limit.clone(),
            cpu_request,
            memory_request,
            probe_port: spec.container_port,
            probe_initial_delay_seconds: 2,
            probe_period_seconds: 5,
        },
    }
}

/// The Service in front of the application: it publishes port 80 and
/// forwards to the container port.
pub fn app_service(spec: &AppSpec) -> (s: AppService)
    ensures
        s.metadata.name@ == APP_RESOURCE@,
        s.metadata.namespace@ == spec.namespace@,
        pair_views(s.metadata.labels@) == labels_of(spec.app_id),
        s.metadata.annotations is None,
        pair_views(s.selector@) == selector_of(spec.app_id),
        s.port == 80,
        s.target_port == spec.container_port,
        s.port_name@ == "http"@,
{
    AppService {
        metadata: Metadata {
            name: APP_RESOURCE.to_string(),
            namespace: spec.namespace.clone(),
            labels: labels(spec.app_id),
            annotations: None,
        },
        selector: selector(spec.app_id),
        port: 80,
        target_port: spec.container_port,
        port_name: "http".to_string(),
    }
}

/// The Service routes to the Deployment's pods: every label it selects on is
/// a label the pod template carries, with the same value, and it selects on
/// at least one.
pub proof fn law_pods_carry_the_label_the_service_selects_on(
    deployment: AppDeployment,
    service: AppService,
    app_id: u128,
)
    requires
        pair_views(deployment.pod_labels@) == labels_of(app_id),
        pair_views(service.selector@) == selector_of(app_id),
    ensures
        pair_views(service.selector@).len() > 0,
        forall|i: int|
            0 <= i < pair_views(service.selector@).len() ==> pair_views(deployment.pod_labels@).contains(
                #[trigger] pair_views(service.selector@)[i],
            ),
{
    assert forall|i: int|
        0 <= i < pair_views(service.selector@).len() implies pair_views(
        deployment.pod_labels@,
    ).contains(#[trigger] pair_views(service.selector@)[i]) by {
        assert(pair_views(deployment.pod_labels@)[1] == pair_views(service.selector@)[i]);
    }
}

pub open spec fn route_for(host: Seq<char>, r: IngressRoute) -> bool {
    &&& r.host@ == host
    &&& r.path@ == "/"@
    &&& r.path_type@ == "Prefix"@
    &&& r.service@ == APP_RESOURCE@
    &&& r.service_port == 80
}

/// Each Ingress rule sends every path of its host to the application's
/// Service: its path is a prefix of every request path, and it matches by
/// prefix.
pub proof fn law_ingress_rules_route_every_path(host: Seq<char>, r: IngressRoute, request_path: Seq<char>)
    requires
        route_for(host, r),
        request_path.len() > 0,
        request_path[0] == '/',
    ensures
        r.host@ == host,
        r.path_type@ == "Prefix"@,
        r.path@.is_prefix_of(request_path),
        r.service@ == APP_RESOURCE@,
{
    reveal_strlit("/");
    assert(r.path@ =~= seq!['/']);
}

/// Builds the application Ingress.
///
/// When `cluster_issuer` is set, a `tls` block and the cert-manager annotation
/// are added and cert-manager creates the Certificate; there is no separate
/// Certificate object to keep in step. When it is `None`, the Ingress is
/// plain HTTP.
pub fn app_ingress(app_id: u128, namespace: &str, hosts: &Vec<String>, cluster_issuer: Option<&str>) -> (ing: AppIngress)
    ensures
        ing.metadata.name@ == APP_RESOURCE@,
        ing.metadata.namespace@ == namespace@,
        pair_views(ing.metadata.labels@) == labels_of(app_id),
        ing.ingress_class@ == "traefik"@,
        // One rule per host, in order, each sending everything to the Service.
        ing.rules@.len() == hosts@.len(),
        forall|i: int| 0 <= i < hosts@.len() ==> route_for(hosts@[i]@, #[trigger] ing.rules@[i]),
        match cluster_issuer {
            None => ing.tls is None && ing.metadata.annotations is None,
            Some(issuer) => {
                &&& ing.metadata.annotations matches Some(a) && pair_views(a@) == seq![
                    ("cert-manager.io/cluster-issuer"@, issuer@),
                ]
                // One certificate covering every host on the Ingress.
                &&& ing.tls matches Some(tls) && tls@.len() == 1 && str_views(tls@[0].hosts@)
                    == str_views(hosts@) && tls@[0].secret_name@ == TLS_SECRET@
            },
        },
{
    let mut rules: Vec<IngressRoute> = Vec::new();
    let mut i: usize = 0;
    while i < hosts.len()
        invariant
            i <= hosts@.len(),
            rules@.len() == i,
            forall|j: int| 0 <= j < i ==> route_for(hosts@[j]@, #[trigger] rules@[j]),
        decreases hosts.len() - i,
    {
        rules.push(
            IngressRoute {
                host: hosts[i].clone(),
                path: "/".to_string(),
                path_type: "Prefix".to_string(),
                service: APP_RESOURCE.to_string(),
                service_port: 80,
            },
        );
        i += 1;
    }
    let (tls, annotations) = match cluster_issuer {
        Some(issuer) => {
            let mut copy: Vec<String> = Vec::new();
            let mut j: usize = 0;
            while j < hosts.len()
                invariant
                    j <= hosts@.len(),
                    copy@.len() == j,
                    forall|k: int| 0 <= k < j ==> #[trigger] copy@[k]@ == hosts@[k]@,
                decreases hosts.len() - j,
            {
                copy.push(hosts[j].clone());
                j += 1;
            }
            assert(str_views(copy@) =~= str_views(hosts@));
            let mut tls: Vec<IngressTls> = Vec::new();
            tls.push(IngressTls { hosts: copy, secret_name: TLS_SECRET.to_string() });
            let mut a: Vec<(String, String)> = Vec::new();
            a.push(pair("cert-manager.io/cluster-issuer", issuer.to_string()));
            assert(pair_views(a@) =~= seq![("cert-manager.io/cluster-issuer"@, issuer@)]);
            (Some(tls), Some(a))
        },
        None => (None, None),
    };
    AppIngress {
        metadata: Metadata {
            name: APP_RESOURCE.to_string(),
            namespace: namespace.to_string(),
            labels: labels(app_id),
            annotations,
        },
        ingress_class: "traefik".to_string(),
        rules,
        tls,
    }
}

pub open spec fn dns_rule_of(r: EgressRule) -> bool {
    &&& r.to@.len() == 1
    &&& r.to@[0] matches PolicyPeer::Namespaces(l) && pair_views(l@) == seq![
        ("kubernetes.io/metadata.name"@, "kube-system"@),
    ]
    &&& r.ports matches Some(ports) && ports@.len() == 2 && ports@[0].port == 53
        && ports@[0].protocol@ == "UDP"@ && ports@[1].port == 53 && ports@[1].protocol@ == "TCP"@
}

pub open spec fn internet_rule_of(r: EgressRule, cluster_cidrs: Seq<String>) -> bool {
    &&& r.to@.len() == 1
    &&& r.to@[0] matches PolicyPeer::IpBlock { cidr, except } && cidr@ == "0.0.0.0/0"@ && str_views(
        except@,
    ) == str_views(cluster_cidrs)
    &&& r.ports is None
}

/// Keeps user workloads off the cluster's internal networks while leaving the
/// internet reachable: egress is allowed to DNS in `kube-system`, and to
/// every address except the cluster's ranges.
pub fn app_network_policy(spec: &AppSpec, cluster_cidrs: &Vec<String>) -> (p: AppNetworkPolicy)
    ensures
        p.metadata.name@ == "isolate-control-plane"@,
        p.metadata.namespace@ == spec.namespace@,
        pair_views(p.metadata.labels@) == labels_of(spec.app_id),
        p.metadata.annotations is None,
        // An empty selector applies to every pod in the namespace.
        p.pod_selector@.len() == 0,
        str_views(p.policy_types@) == seq!["Egress"@],
        p.egress@.len() == 2,
        dns_rule_of(p.egress@[0]),
        internet_rule_of(p.egress@[1], cluster_cidrs@),
{
    let mut kube_system: Vec<(String, String)> = Vec::new();
    kube_system.push(pair("kubernetes.io/metadata.name", "kube-system".to_string()));
    assert(pair_views(kube_system@) =~= seq![("kubernetes.io/metadata.name"@, "kube-system"@)]);
    let mut dns_to: Vec<PolicyPeer> = Vec::new();
    dns_to.push(PolicyPeer::Namespaces(kube_system));
    let mut dns_ports: Vec<PolicyPort> = Vec::new();
    dns_ports.push(PolicyPort { port: 53, protocol: "UDP".to_string() });
    dns_ports.push(PolicyPort { port: 53, protocol: "TCP".to_string() });

    let mut except: Vec<String> = Vec::new();
    let mut j: usize = 0;
    while j < cluster_cidrs.len()
        invariant
            j <= cluster_cidrs@.len(),
            except@.len() == j,
            forall|k: int| 0 <= k < j ==> #[trigger] except@[k]@ == cluster_cidrs@[k]@,
        decreases cluster_cidrs.len() - j,
    {
        except.push(cluster_cidrs[j].clone());
        j += 1;
    }
    assert(str_views(except@) =~= str_views(cluster_cidrs@));
    let mut net_to: Vec<PolicyPeer> = Vec::new();
    net_to.push(PolicyPeer::IpBlock { cidr: "0.0.0.0/0".to_string(), except });

    let mut egress: Vec<EgressRule> = Vec::new();
    // DNS has to stay reachable or nothing resolves at all.
    egress.push(EgressRule { to: dns_to, ports: Some(dns_ports) });
    egress.push(EgressRule { to: net_to, ports: None });

    let mut policy_types: Vec<String> = Vec::new();
    policy_types.push("Egress".to_string());
    assert(str_views(policy_types@) =~= seq!["Egress"@]);

    AppNetworkPolicy {
        metadata: Metadata {
            name: "isolate-control-plane".to_string(),
            namespace: spec.namespace.clone(),
            labels: labels(spec.app_id),
            annotations: None,
        },
        pod_selector: Vec::new(),
        policy_types,
        egress,
    }
}

} // verus!
