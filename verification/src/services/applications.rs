//! Applications: the rules for creating and updating one.

use crate::auth::session::{generate_token, is_hex_token};
use crate::error::{invalid, is_invalid, unique_violation_as_conflict, Error};
use crate::text::{any_whitespace, chars_of, has_prefix, is_white_space, to_lowercase, trim, trimmed, unicode_lowercase};
use vstd::prelude::*;
use vstd::utf8::encode_utf8;

verus! {

broadcast use {vstd::string::group_string_axioms, vstd::slice::group_slice_axioms};

/// The fields a user supplies to create an application.
pub struct CreateApplication {
    pub name: String,
    pub git_repo: String,
    pub git_branch: Option<String>,
    pub dockerfile_path: Option<String>,
    pub container_port: Option<i32>,
    pub cpu_limit: Option<String>,
    pub memory_limit: Option<String>,
}

/// The row an application is created with.
pub struct NewApplication {
    pub owner_id: u128,
    pub name: String,
    pub git_repo: String,
    pub git_branch: String,
    pub build_type: String,
    pub dockerfile_path: String,
    pub container_port: i32,
    pub cpu_limit: String,
    pub memory_limit: String,
    pub webhook_secret: String,
}

/// The fields a user may change after creation.
pub struct UpdateApplication {
    pub git_branch: Option<String>,
    pub dockerfile_path: Option<String>,
    pub container_port: Option<i32>,
    pub cpu_limit: Option<String>,
    pub memory_limit: Option<String>,
}

/// A change to a stored application; `None` leaves a column as it is.
pub struct ApplicationUpdate {
    pub git_branch: Option<String>,
    pub dockerfile_path: Option<String>,
    pub container_port: Option<i32>,
    pub cpu_limit: Option<String>,
    pub memory_limit: Option<String>,
    pub replicas: Option<i32>,
}

pub open spec fn name_rule() -> Seq<char> {
    "name must be 1-40 characters of lowercase letters, digits or hyphens, and may not start or end with a hyphen"@
}

pub open spec fn git_repo_rule() -> Seq<char> {
    "git_repo must be an http(s) or git@ URL"@
}

pub open spec fn port_rule() -> Seq<char> {
    "container_port must be 1-65535"@
}

pub open spec fn is_name_char(c: char) -> bool {
    ('a' <= c && c <= 'z') || ('0' <= c && c <= '9') || c == '-'
}

/// A name usable both as a DNS label in the ingress host and inside a
/// Kubernetes namespace: 1-40 bytes of lowercase letters, digits or hyphens,
/// not starting or ending with a hyphen.
pub open spec fn valid_name(s: Seq<char>) -> bool {
    &&& s.len() > 0
    &&& encode_utf8(s).len() <= 40
    &&& forall|i: int| 0 <= i < s.len() ==> is_name_char(#[trigger] s[i])
    &&& s[0] != '-'
    &&& s.last() != '-'
}

/// An http(s) or scp-style git URL, after trimming: it starts with
/// `https://`, `http://` or `git@`, holds no white space, and is at most 512
/// bytes long.
pub open spec fn valid_git_repo(repo: Seq<char>) -> bool {
    let t = trimmed(repo);
    &&& ("https://"@.is_prefix_of(t) || "http://"@.is_prefix_of(t) || "git@"@.is_prefix_of(t))
    &&& forall|i: int| 0 <= i < t.len() ==> !is_white_space(#[trigger] t[i])
    &&& encode_utf8(t).len() <= 512
}

pub open spec fn valid_port(port: i32) -> bool {
    1 <= port <= 65535
}

/// The name becomes both a DNS label in the ingress host and part of a
/// Kubernetes namespace, so it is checked here rather than left to a database
/// constraint violation surfacing as a server error.
pub fn validate_name(name: &str) -> (r: Result<(), Error>)
    ensures
        r is Ok <==> valid_name(name@),
        r is Err ==> is_invalid(r, name_rule()),
{
    let v = chars_of(name);
    let n = v.len();
    let mut all_ok = true;
    let mut i: usize = 0;
    while i < n
        invariant
            n == v@.len(),
            v@ == name@,
            i <= n,
            all_ok == forall|j: int| 0 <= j < i ==> is_name_char(#[trigger] v@[j]),
        decreases n - i,
    {
        let c = v[i];
        if !(('a' <= c && c <= 'z') || ('0' <= c && c <= '9') || c == '-') {
            all_ok = false;
        }
        i += 1;
    }
    let valid_shape = n > 0 && name.as_bytes().len() <= 40 && all_ok && v[0] != '-' && v[n - 1] != '-';
    if valid_shape {
        Ok(())
    } else {
        Err(
            invalid(
                "name must be 1-40 characters of lowercase letters, digits or hyphens, and may not start or end with a hyphen",
            ),
        )
    }
}

/// Rejects anything that is not an http(s) or scp-style git URL. This string is
/// handed to git inside the build job, so an argument such as
/// `--upload-pack=...` must not reach it.
pub fn validate_git_repo(repo: &str) -> (r: Result<(), Error>)
    ensures
        r is Ok <==> valid_git_repo(repo@),
        r is Err ==> is_invalid(r, git_repo_rule()),
{
    let t = trim(repo);
    let v = chars_of(t.as_str());
    let plausible = (has_prefix(&v, "https://") || has_prefix(&v, "http://") || has_prefix(
        &v,
        "git@",
    )) && !any_whitespace(&v) && t.as_str().as_bytes().len() <= 512;
    if plausible {
        Ok(())
    } else {
        Err(invalid("git_repo must be an http(s) or git@ URL"))
    }
}

pub fn validate_port(port: i32) -> (r: Result<(), Error>)
    ensures
        r is Ok <==> valid_port(port),
        r is Err ==> is_invalid(r, port_rule()),
{
    if 1 <= port && port <= 65535 {
        Ok(())
    } else {
        Err(invalid("container_port must be 1-65535"))
    }
}

/// The name an application is stored under: trimmed, then lower-cased.
pub open spec fn normalized_name(name: Seq<char>) -> Seq<char> {
    unicode_lowercase(trimmed(name))
}

/// The row for a new application, or the first rule the input breaks: the
/// name, then the repository, then the port. Unset fields take their
/// defaults: branch `main`, `Dockerfile`, port 8080, 500m of CPU and 512Mi of
/// memory. The webhook secret is a fresh random token.
pub fn new_application(owner_id: u128, input: CreateApplication) -> (r: Result<
    NewApplication,
    Error,
>)
    ensures
        !valid_name(normalized_name(input.name@)) ==> is_invalid(r, name_rule()),
        valid_name(normalized_name(input.name@)) && !valid_git_repo(input.git_repo@) ==> is_invalid(
            r,
            git_repo_rule(),
        ),
        valid_name(normalized_name(input.name@)) && valid_git_repo(input.git_repo@) && !valid_port(
            input.container_port.unwrap_or(8080),
        ) ==> is_invalid(r, port_rule()),
        r is Ok <==> valid_name(normalized_name(input.name@)) && valid_git_repo(input.git_repo@)
            && valid_port(input.container_port.unwrap_or(8080)),
        r matches Ok(app) ==> {
            &&& app.owner_id == owner_id
            &&& app.name@ == normalized_name(input.name@)
            &&& app.git_repo@ == trimmed(input.git_repo@)
            &&& app.git_branch@ == match input.git_branch {
                Some(b) => b@,
                None => "main"@,
            }
            &&& app.build_type@ == "dockerfile"@
            &&& app.dockerfile_path@ == match input.dockerfile_path {
                Some(d) => d@,
                None => "Dockerfile"@,
            }
            &&& app.container_port == input.container_port.unwrap_or(8080)
            &&& app.cpu_limit@ == match input.cpu_limit {
                Some(c) => c@,
                None => "500m"@,
            }
            &&& app.memory_limit@ == match input.memory_limit {
                Some(m) => m@,
                None => "512Mi"@,
            }
            &&& is_hex_token(app.webhook_secret@)
        },
{
    let name = to_lowercase(trim(input.name.as_str()).as_str());
    validate_name(name.as_str())?;
    validate_git_repo(input.git_repo.as_str())?;
    let port = match input.container_port {
        Some(p) => p,
        None => 8080,
    };
    validate_port(port)?;
    let git_branch = match input.git_branch {
        Some(b) => b,
        None => "main".to_string(),
    };
    let dockerfile_path = match input.dockerfile_path {
        Some(d) => d,
        None => "Dockerfile".to_string(),
    };
    let cpu_limit = match input.cpu_limit {
        Some(c) => c,
        None => "500m".to_string(),
    };
    let memory_limit = match input.memory_limit {
        Some(m) => m,
        None => "512Mi".to_string(),
    };
    Ok(
        NewApplication {
            owner_id,
            name,
            git_repo: trim(input.git_repo.as_str()),
            git_branch,
            build_type: "dockerfile".to_string(),
            dockerfile_path,
            container_port: port,
            cpu_limit,
            memory_limit,
            webhook_secret: generate_token(),
        },
    )
}

/// The stored change for a user's patch; a port, when given, must be valid.
/// The replica count is not a user field and is left as it is.
pub fn application_update(patch: UpdateApplication) -> (r: Result<ApplicationUpdate, Error>)
    ensures
        r is Ok <==> match patch.container_port {
            Some(p) => valid_port(p),
            None => true,
        },
        r is Err ==> is_invalid(r, port_rule()),
        r matches Ok(u) ==> {
            &&& u.git_branch == patch.git_branch
            &&& u.dockerfile_path == patch.dockerfile_path
            &&& u.container_port == patch.container_port
            &&& u.cpu_limit == patch.cpu_limit
            &&& u.memory_limit == patch.memory_limit
            &&& u.replicas is None
        },
{
    if let Some(port) = patch.container_port {
        validate_port(port)?;
    }
    Ok(
        ApplicationUpdate {
            git_branch: patch.git_branch,
            dockerfile_path: patch.dockerfile_path,
            container_port: patch.container_port,
            cpu_limit: patch.cpu_limit,
            memory_limit: patch.memory_limit,
            replicas: None,
        },
    )
}

/// What becomes of a newly inserted application once its namespace has been
/// asked for.
pub enum AfterNamespace {
    /// The namespace exists: the application stands.
    Keep,
    /// The cluster refused: the row is deleted again and this error returned,
    /// rather than leaving an application with nowhere to run.
    RollBack(Error),
}

/// The namespace has to exist before the application does anything else,
/// because environment variables are stored only as a Kubernetes Secret and
/// may be set before the first deploy.
pub fn after_namespace(ensured: Result<(), Error>) -> (a: AfterNamespace)
    ensures
        match ensured {
            Ok(()) => a is Keep,
            Err(e) => a == AfterNamespace::RollBack(e),
        },
{
    match ensured {
        Ok(()) => AfterNamespace::Keep,
        Err(e) => AfterNamespace::RollBack(e),
    }
}

pub open spec fn name_taken_rule() -> Seq<char> {
    "an application with that name already exists"@
}

/// The (owner, name) unique index is the authority on collisions, since
/// checking first would still race; hitting it is a conflict.
pub fn name_conflict(error: Error, is_unique_violation: bool) -> (e: Error)
    ensures
        is_unique_violation ==> (e matches Error::Conflict(m) && m@ == name_taken_rule()),
        !is_unique_violation ==> e == error,
{
    unique_violation_as_conflict(error, is_unique_violation, "an application with that name already exists")
}

} // verus!
