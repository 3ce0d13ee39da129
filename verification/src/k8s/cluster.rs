//! What the control plane concludes from the objects it reads back from the
//! cluster: build outcomes, certificate state and application health.

use crate::k8s::quantity::{cpu_millicores, cpu_millicores_of, memory_bytes, memory_bytes_of};
use crate::k8s::names::{uuid_string, uuid_text};
use crate::text::{concat_str, str_eq};
use vstd::prelude::*;

verus! {

broadcast use vstd::string::group_string_axioms;

/// Identifies this controller as the owner of the fields it applies, so
/// server-side apply can reconcile rather than conflict.
pub const FIELD_MANAGER: &'static str = "spark-control-plane";

/// Name the application Deployment is always given inside its own namespace.
pub const APP_DEPLOYMENT: &'static str = "app";

/// The label every namespace this controller creates carries.
pub const MANAGED_LABEL: &'static str = "spark.io/managed";

/// The pod-template annotation whose change rolls an application's pods.
pub const RESTARTED_AT: &'static str = "spark.io/restarted-at";

/// A 404 from the API server: for a delete, the object is already gone,
/// which is the outcome wanted; for a read, there is nothing yet.
pub fn already_gone(code: u16) -> (b: bool)
    ensures
        b == (code == 404),
{
    code == 404
}

/// The answers that mean metrics-server is not installed or not serving.
pub fn metrics_unavailable(code: u16) -> (b: bool)
    ensures
        b == (code == 404 || code == 503),
{
    code == 404 || code == 503
}

/// The label selector of the pods a build Job created.
pub fn job_pod_selector(job_name: &str) -> (s: String)
    ensures
        s@ == "job-name="@ + job_name@,
{
    concat_str("job-name=", job_name)
}

/// The label selector of every pod an application runs, build pods included.
pub fn app_selector(app_id: u128) -> (s: String)
    ensures
        s@ == "spark.io/app="@ + uuid_text(app_id),
{
    let id = uuid_string(app_id);
    concat_str("spark.io/app=", id.as_str())
}

/// Certificate state, mirrored into `domains.ssl_status`.
#[derive(Clone, Copy, Debug, PartialEq, Eq, Structural)]
pub enum SslStatus {
    NotRequested,
    Pending,
    Ready,
    Failed,
}

impl SslStatus {
    pub open spec fn text(self) -> Seq<char> {
        match self {
            SslStatus::NotRequested => "none"@,
            SslStatus::Pending => "pending"@,
            SslStatus::Ready => "ready"@,
            SslStatus::Failed => "failed"@,
        }
    }

    pub fn as_str(self) -> (s: &'static str)
        ensures
            s@ == self.text(),
    {
        match self {
            SslStatus::NotRequested => "none",
            SslStatus::Pending => "pending",
            SslStatus::Ready => "ready",
            SslStatus::Failed => "failed",
        }
    }
}

/// How a build finished, as far as the Job controller is concerned.
#[derive(Clone, Copy, Debug, PartialEq, Eq, Structural)]
pub enum JobOutcome {
    Succeeded,
    Failed,
    Running,
}

/// A Job's outcome from its status counters: any succeeded pod means it
/// succeeded, else any failed pod means it failed, else it is still running.
pub fn job_outcome_from(succeeded: Option<i32>, failed: Option<i32>) -> (o: JobOutcome)
    ensures
        o == if succeeded.unwrap_or(0) > 0 {
            JobOutcome::Succeeded
        } else if failed.unwrap_or(0) > 0 {
            JobOutcome::Failed
        } else {
            JobOutcome::Running
        },
{
    if succeeded.unwrap_or(0) > 0 {
        JobOutcome::Succeeded
    } else if failed.unwrap_or(0) > 0 {
        JobOutcome::Failed
    } else {
        JobOutcome::Running
    }
}

/// One entry of a Certificate's `status.conditions`: its `type` and `status`
/// when they are strings.
pub struct CertCondition {
    pub kind: Option<String>,
    pub status: Option<String>,
}

pub open spec fn is_ready_condition(c: CertCondition) -> bool {
    c.kind matches Some(k) && k@ == "Ready"@
}

/// Index of the first Ready condition, or the length when there is none.
pub open spec fn first_ready(conds: Seq<CertCondition>) -> nat
    decreases conds.len(),
{
    if conds.len() == 0 || is_ready_condition(conds[0]) {
        0
    } else {
        1 + first_ready(conds.drop_first())
    }
}

/// The state cert-manager reports through the first Ready condition: `True`
/// is ready, `False` a hard failure, and anything else, including no such
/// condition, an issuance still in flight.
pub open spec fn certificate_state(conds: Option<Seq<CertCondition>>) -> SslStatus {
    match conds {
        Some(cs) => {
            let i = first_ready(cs);
            if i < cs.len() {
                match cs[i as int].status {
                    Some(s) => if s@ == "True"@ {
                        SslStatus::Ready
                    } else if s@ == "False"@ {
                        SslStatus::Failed
                    } else {
                        SslStatus::Pending
                    },
                    None => SslStatus::Pending,
                }
            } else {
                SslStatus::Pending
            }
        },
        None => SslStatus::Pending,
    }
}

proof fn lemma_first_ready_is(cs: Seq<CertCondition>, i: int)
    requires
        0 <= i <= cs.len(),
        forall|j: int| 0 <= j < i ==> !is_ready_condition(#[trigger] cs[j]),
        i < cs.len() ==> is_ready_condition(cs[i]),
    ensures
        first_ready(cs) == i,
    decreases cs.len(),
{
    if i > 0 {
        assert forall|j: int| 0 <= j < i - 1 implies !is_ready_condition(#[trigger] cs.drop_first()[j]) by {
            assert(cs.drop_first()[j] == cs[j + 1]);
        }
        lemma_first_ready_is(cs.drop_first(), i - 1);
    }
}

/// The state of an existing Certificate, from its conditions (`None` when
/// the status holds no condition list).
pub fn certificate_status_from(conditions: Option<&Vec<CertCondition>>) -> (s: SslStatus)
    ensures
        s == certificate_state(
            match conditions {
                Some(c) => Some(c@),
                None => None,
            },
        ),
{
    let cs = match conditions {
        Some(c) => c,
        None => {
            return SslStatus::Pending;
        },
    };
    let mut i: usize = 0;
    while i < cs.len()
        invariant
            i <= cs@.len(),
            conditions == Some(cs),
            forall|j: int| 0 <= j < i ==> !is_ready_condition(#[trigger] cs@[j]),
        decreases cs.len() - i,
    {
        let ready = match &cs[i].kind {
            Some(k) => str_eq(k.as_str(), "Ready"),
            None => false,
        };
        if ready {
            proof {
                lemma_first_ready_is(cs@, i as int);
            }
            let st: SslStatus = match &cs[i].status {
                Some(v) => if str_eq(v.as_str(), "True") {
                    SslStatus::Ready
                } else if str_eq(v.as_str(), "False") {
                    SslStatus::Failed
                } else {
                    SslStatus::Pending
                },
                None => SslStatus::Pending,
            };
            return st;
        }
        i += 1;
    }
    proof {
        lemma_first_ready_is(cs@, i as int);
    }
    SslStatus::Pending
}

/// What is read of one container of a pod.
pub struct ContainerInfo {
    pub ready: bool,
    pub restart_count: i32,
    /// Why the container is waiting, such as an image pull failure or a
    /// crash loop.
    pub waiting_reason: Option<String>,
}

/// What is read of one pod.
pub struct PodInfo {
    pub name: Option<String>,
    /// Whether the pod carries the `job-name` label, as build pods do.
    pub has_job_name_label: bool,
    pub phase: Option<String>,
    pub containers: Vec<ContainerInfo>,
}

/// Pod-level view of a running application.
pub struct PodStatus {
    pub name: String,
    pub phase: String,
    pub ready: bool,
    pub restarts: i32,
    pub message: Option<String>,
}

pub struct AppStatus {
    pub ready: bool,
    pub replicas: i32,
    pub ready_replicas: i32,
    pub restarts: i32,
    /// Live usage summed across pods; `None` when metrics-server is not
    /// installed, which is different from zero usage.
    pub cpu_millicores: Option<i64>,
    pub memory_bytes: Option<i64>,
    pub pods: Vec<PodStatus>,
}

/// Sum of the restart counts of the first `n` containers.
pub open spec fn restart_sum(cs: Seq<ContainerInfo>, n: int) -> int
    decreases n,
{
    if n <= 0 {
        0
    } else {
        restart_sum(cs, n - 1) + cs[n - 1].restart_count
    }
}

pub open spec fn fits_i32(x: int) -> bool {
    i32::MIN <= x <= i32::MAX
}

/// Every partial sum of the restart counts fits in an `i32`, as summing them
/// requires.
pub open spec fn restarts_fit(cs: Seq<ContainerInfo>) -> bool {
    forall|n: int| 0 <= n <= cs.len() ==> fits_i32(#[trigger] restart_sum(cs, n))
}

/// Whether container `c` is waiting for reason `r`.
pub open spec fn waiting_is(c: ContainerInfo, r: Seq<char>) -> bool {
    c.waiting_reason matches Some(w) && w@ == r
}

/// Index of the first container that is waiting for a reason.
pub open spec fn first_waiting(cs: Seq<ContainerInfo>) -> nat
    decreases cs.len(),
{
    if cs.len() == 0 || cs[0].waiting_reason is Some {
        0
    } else {
        1 + first_waiting(cs.drop_first())
    }
}

/// Whether `s` describes pod `p`.
pub open spec fn pod_status_of(p: PodInfo, s: PodStatus) -> bool {
    let cs = p.containers@;
    &&& s.name@ == match p.name {
        Some(n) => n@,
        None => Seq::<char>::empty(),
    }
    &&& s.phase@ == match p.phase {
        Some(ph) => ph@,
        None => "Unknown"@,
    }
    // Ready only when it has containers and all of them are ready.
    &&& s.ready == (cs.len() > 0 && forall|i: int| 0 <= i < cs.len() ==> (#[trigger] cs[i]).ready)
    &&& s.restarts == restart_sum(cs, cs.len() as int)
    &&& match s.message {
        Some(m) => first_waiting(cs) < cs.len() && waiting_is(cs[first_waiting(cs) as int], m@),
        None => first_waiting(cs) == cs.len(),
    }
}

proof fn lemma_first_waiting_is(cs: Seq<ContainerInfo>, i: int)
    requires
        0 <= i <= cs.len(),
        forall|j: int| 0 <= j < i ==> (#[trigger] cs[j]).waiting_reason is None,
        i < cs.len() ==> cs[i].waiting_reason is Some,
    ensures
        first_waiting(cs) == i,
    decreases cs.len(),
{
    if i > 0 {
        assert forall|j: int| 0 <= j < i - 1 implies (#[trigger] cs.drop_first()[j]).waiting_reason is None by {
            assert(cs.drop_first()[j] == cs[j + 1]);
        }
        lemma_first_waiting_is(cs.drop_first(), i - 1);
    }
}

/// The dashboard's view of one pod.
pub fn pod_status(p: &PodInfo) -> (s: PodStatus)
    requires
        restarts_fit(p.containers@),
    ensures
        pod_status_of(*p, s),
{
    let cs = &p.containers;
    let mut all_ready = true;
    let mut restarts: i32 = 0;
    let mut message: Option<String> = None;
    let mut i: usize = 0;
    while i < cs.len()
        invariant
            i <= cs@.len(),
            restarts_fit(cs@),
            all_ready == forall|j: int| 0 <= j < i ==> (#[trigger] cs@[j]).ready,
            restarts == restart_sum(cs@, i as int),
            match message {
                Some(m) => first_waiting(cs@) < i && waiting_is(cs@[first_waiting(cs@) as int], m@),
                None => forall|j: int| 0 <= j < i ==> (#[trigger] cs@[j]).waiting_reason is None,
            },
        decreases cs.len() - i,
    {
        let c = &cs[i];
        if !c.ready {
            all_ready = false;
        }
        assert(fits_i32(restart_sum(cs@, i + 1)));
        restarts = restarts + c.restart_count;
        if message.is_none() {
            match &c.waiting_reason {
                Some(r) => {
                    proof {
                        lemma_first_waiting_is(cs@, i as int);
                    }
                    message = Some(r.clone());
                },
                None => {},
            }
        }
        i += 1;
    }
    proof {
        if message is None {
            lemma_first_waiting_is(cs@, cs@.len() as int);
        }
    }
    PodStatus {
        name: match &p.name {
            Some(n) => n.clone(),
            None => String::new(),
        },
        phase: match &p.phase {
            Some(ph) => ph.clone(),
            None => "Unknown".to_string(),
        },
        ready: all_ready && cs.len() > 0,
        restarts,
        message,
    }
}

/// The runtime pods among those listed, in order: build pods carry the same
/// application label and are left out.
pub open spec fn runtime_pods(pods: Seq<PodInfo>) -> Seq<PodInfo>
    decreases pods.len(),
{
    if pods.len() == 0 {
        Seq::empty()
    } else if pods.last().has_job_name_label {
        runtime_pods(pods.drop_last())
    } else {
        runtime_pods(pods.drop_last()).push(pods.last())
    }
}

/// Restarts of one pod: the sum over its containers.
pub open spec fn pod_restarts(p: PodInfo) -> int {
    restart_sum(p.containers@, p.containers@.len() as int)
}

/// Restarts summed over the runtime pods among `pods`.
pub open spec fn runtime_restarts(pods: Seq<PodInfo>) -> int
    decreases pods.len(),
{
    if pods.len() == 0 {
        0
    } else if pods.last().has_job_name_label {
        runtime_restarts(pods.drop_last())
    } else {
        runtime_restarts(pods.drop_last()) + pod_restarts(pods.last())
    }
}

/// Whether the per-pod and running restart totals of the runtime pods among
/// `pods` can be summed in an `i32`, as the counts are; build pods are not
/// summed.
pub open spec fn app_restarts_fit(pods: Seq<PodInfo>) -> bool {
    &&& forall|i: int|
        0 <= i < pods.len() && !pods[i].has_job_name_label ==> restarts_fit(
            #[trigger] pods[i].containers@,
        )
    &&& forall|n: int| 0 <= n <= pods.len() ==> fits_i32(#[trigger] runtime_restarts(pods.take(n)))
}

/// Pod-level view of a running application: the Deployment's replica counts,
/// one entry per runtime pod, in order, the restarts summed over them, and the
/// usage when metrics are available.
pub fn app_status_from(
    replicas: i32,
    ready_replicas: i32,
    pods: &Vec<PodInfo>,
    usage: Option<(i64, i64)>,
) -> (s: AppStatus)
    requires
        app_restarts_fit(pods@),
    ensures
        s.ready == (ready_replicas > 0),
        s.replicas == replicas,
        s.ready_replicas == ready_replicas,
        s.pods@.len() == runtime_pods(pods@).len(),
        forall|i: int|
            0 <= i < s.pods@.len() ==> pod_status_of(runtime_pods(pods@)[i], #[trigger] s.pods@[i]),
        s.restarts == runtime_restarts(pods@),
        s.cpu_millicores == match usage {
            Some(u) => Some(u.0),
            None => None,
        },
        s.memory_bytes == match usage {
            Some(u) => Some(u.1),
            None => None,
        },
{
    let mut out: Vec<PodStatus> = Vec::new();
    let mut total: i32 = 0;
    let mut i: usize = 0;
    while i < pods.len()
        invariant
            i <= pods@.len(),
            app_restarts_fit(pods@),
            out@.len() == runtime_pods(pods@.take(i as int)).len(),
            forall|j: int|
                0 <= j < out@.len() ==> pod_status_of(
                    runtime_pods(pods@.take(i as int))[j],
                    #[trigger] out@[j],
                ),
            total == runtime_restarts(pods@.take(i as int)),
        decreases pods.len() - i,
    {
        let ghost before = pods@.take(i as int);
        let ghost after = pods@.take(i + 1);
        proof {
            assert(after.drop_last() =~= before);
            assert(after.last() == pods@[i as int]);
            assert(fits_i32(runtime_restarts(after)));
        }
        if !pods[i].has_job_name_label {
            let st = pod_status(&pods[i]);
            total = total + st.restarts;
            out.push(st);
        }
        i += 1;
    }
    proof {
        assert(pods@.take(pods@.len() as int) =~= pods@);
    }
    AppStatus {
        ready: ready_replicas > 0,
        replicas,
        ready_replicas,
        restarts: total,
        cpu_millicores: match usage {
            Some(u) => Some(u.0),
            None => None,
        },
        memory_bytes: match usage {
            Some(u) => Some(u.1),
            None => None,
        },
        pods: out,
    }
}

/// The usage that metrics-server reports for one container, as quantity
/// strings, where it reports them.
pub struct ContainerUsage {
    pub cpu: Option<String>,
    pub memory: Option<String>,
}

/// A reading that does not parse counts as zero.
pub open spec fn parsed_or_zero(v: Option<i64>) -> int {
    match v {
        Some(x) => x as int,
        None => 0,
    }
}

pub open spec fn cpu_of(c: ContainerUsage) -> int {
    match c.cpu {
        Some(v) => parsed_or_zero(cpu_millicores_of(v@)),
        None => 0,
    }
}

pub open spec fn memory_of(c: ContainerUsage) -> int {
    match c.memory {
        Some(v) => parsed_or_zero(memory_bytes_of(v@)),
        None => 0,
    }
}

/// CPU summed over the first `n` containers, in millicores.
pub open spec fn cpu_total(cs: Seq<ContainerUsage>, n: int) -> int
    decreases n,
{
    if n <= 0 {
        0
    } else {
        cpu_total(cs, n - 1) + cpu_of(cs[n - 1])
    }
}

/// Memory summed over the first `n` containers, in bytes.
pub open spec fn memory_total(cs: Seq<ContainerUsage>, n: int) -> int
    decreases n,
{
    if n <= 0 {
        0
    } else {
        memory_total(cs, n - 1) + memory_of(cs[n - 1])
    }
}

pub open spec fn fits_i64(x: int) -> bool {
    i64::MIN <= x <= i64::MAX
}

/// Whether every running total of CPU and memory fits in an `i64`.
pub open spec fn usage_fits(cs: Seq<ContainerUsage>) -> bool {
    forall|n: int|
        0 <= n <= cs.len() ==> fits_i64(#[trigger] cpu_total(cs, n)) && fits_i64(memory_total(cs, n))
}

/// Live usage summed over the containers of every pod an application runs:
/// CPU in millicores and memory in bytes, a reading that does not parse
/// counting as zero.
pub fn usage_totals(containers: &Vec<ContainerUsage>) -> (r: (i64, i64))
    requires
        usage_fits(containers@),
    ensures
        r.0 == cpu_total(containers@, containers@.len() as int),
        r.1 == memory_total(containers@, containers@.len() as int),
{
    let mut cpu: i64 = 0;
    let mut memory: i64 = 0;
    let mut i: usize = 0;
    while i < containers.len()
        invariant
            i <= containers@.len(),
            usage_fits(containers@),
            cpu == cpu_total(containers@, i as int),
            memory == memory_total(containers@, i as int),
        decreases containers.len() - i,
    {
        let c = &containers[i];
        assert(fits_i64(cpu_total(containers@, i + 1)) && fits_i64(memory_total(containers@, i + 1)));
        let dc: i64 = match &c.cpu {
            Some(v) => match cpu_millicores(v.as_str()) {
                Some(x) => x,
                None => 0,
            },
            None => 0,
        };
        let dm: i64 = match &c.memory {
            Some(v) => match memory_bytes(v.as_str()) {
                Some(x) => x,
                None => 0,
            },
            None => 0,
        };
        cpu = cpu + dc;
        memory = memory + dm;
        i += 1;
    }
    (cpu, memory)
}

} // verus!
