//! Runtime configuration, from the values of the environment variables that
//! hold it.

use crate::text::{chars_of, first_of, lemma_first_of_bound, lemma_first_of_is, str_eq, string_from_range, trim, trimmed};
use vstd::prelude::*;

verus! {

broadcast use vstd::string::group_string_axioms;

/// The settings the control plane runs with.
pub struct Config {
    pub database_url: String,
    /// The socket address to listen on, as written.
    pub bind_addr: String,
    /// Apps are published at `{name}.{app_base_domain}`.
    pub app_base_domain: String,
    /// Registry the build job pushes to and the kubelet pulls from.
    pub registry_url: String,
    pub registry_insecure: bool,
    /// Internal ranges user workloads are kept off by the per-app
    /// NetworkPolicy.
    pub cluster_cidrs: Vec<String>,
    /// cert-manager ClusterIssuer applied to application Ingresses; `None`
    /// disables TLS and keeps the plain-HTTP behaviour.
    pub cluster_issuer: Option<String>,
    /// Set on the session cookie. Must be false when the dashboard is served
    /// over plain HTTP, or the browser silently discards the cookie.
    pub cookie_secure: bool,
    /// Import and export a BuildKit layer cache in the registry between
    /// builds.
    pub build_cache: bool,
}

/// The environment variables read, each `None` when unset.
pub struct EnvVars {
    pub database_url: Option<String>,
    pub bind_addr: Option<String>,
    pub app_base_domain: Option<String>,
    pub registry_url: Option<String>,
    pub registry_insecure: Option<String>,
    pub cluster_issuer: Option<String>,
    pub cookie_secure: Option<String>,
    pub build_cache: Option<String>,
    pub cluster_cidrs: Option<String>,
}

/// What `bool::from_str` makes of a value: exactly `true` or `false`.
pub open spec fn flag_of(s: Seq<char>) -> Option<bool> {
    if s == "true"@ {
        Some(true)
    } else if s == "false"@ {
        Some(false)
    } else {
        None
    }
}

pub fn parse_flag(value: &str) -> (b: Option<bool>)
    ensures
        b == flag_of(value@),
{
    if str_eq(value, "true") {
        Some(true)
    } else if str_eq(value, "false") {
        Some(false)
    } else {
        None
    }
}

/// The ClusterIssuer setting: a blank value disables TLS; any other is kept
/// as written.
pub fn issuer_setting(value: String) -> (r: Option<String>)
    ensures
        trimmed(value@).len() == 0 ==> r is None,
        trimmed(value@).len() > 0 ==> (r matches Some(v) && v@ == value@),
{
    let t = trim(value.as_str());
    if chars_of(t.as_str()).len() == 0 {
        None
    } else {
        Some(value)
    }
}

/// The ranges a comma-separated list names: each piece trimmed, empty pieces
/// dropped.
pub open spec fn cidrs_of(s: Seq<char>) -> Seq<Seq<char>>
    decreases s.len(),
{
    let i = first_of(s, ',');
    proof {
        lemma_first_of_bound(s, ',');
    }
    let piece = trimmed(s.take(i as int));
    let rest = if i < s.len() {
        cidrs_of(s.skip((i + 1) as int))
    } else {
        Seq::empty()
    };
    if piece.len() > 0 {
        seq![piece] + rest
    } else {
        rest
    }
}

/// Splits a comma-separated list of ranges.
pub fn cidr_list(value: &str) -> (cidrs: Vec<String>)
    ensures
        cidrs@.map_values(|c: String| c@) == cidrs_of(value@),
{
    let v = chars_of(value);
    let n = v.len();
    let mut out: Vec<String> = Vec::new();
    let mut start: usize = 0;
    let mut done = false;
    proof {
        assert(v@.skip(0) =~= v@);
        assert(out@.map_values(|c: String| c@) + cidrs_of(v@) =~= cidrs_of(v@));
    }
    while !done
        invariant
            v@ == value@,
            n == v@.len(),
            start <= n,
            !done ==> out@.map_values(|c: String| c@) + cidrs_of(v@.skip(start as int)) == cidrs_of(
                v@,
            ),
            done ==> out@.map_values(|c: String| c@) == cidrs_of(v@),
        decreases n - start + (if done { 0int } else { 1int }),
    {
        let ghost rest = v@.skip(start as int);
        let mut end: usize = start;
        while end < n && v[end] != ','
            invariant
                start <= end <= n,
                n == v@.len(),
                forall|j: int| start <= j < end ==> v@[j] != ',',
            decreases n - end,
        {
            end += 1;
        }
        proof {
            lemma_first_of_is(rest, ',', end - start);
            assert(rest.take((end - start) as int) =~= v@.subrange(start as int, end as int));
        }
        let ghost before = out@.map_values(|c: String| c@);
        let raw = string_from_range(&v, start, end);
        let piece = trim(raw.as_str());
        let keep = chars_of(piece.as_str()).len() > 0;
        if keep {
            out.push(piece);
        }
        proof {
            let p = trimmed(v@.subrange(start as int, end as int));
            if keep {
                assert(out@.map_values(|c: String| c@) =~= before.push(p));
            } else {
                assert(out@.map_values(|c: String| c@) =~= before);
            }
            if end < n {
                assert(rest.skip((end - start) + 1) =~= v@.skip(end + 1));
            }
            let tail = if end < n {
                cidrs_of(v@.skip(end + 1))
            } else {
                Seq::<Seq<char>>::empty()
            };
            if keep {
                assert(cidrs_of(rest) =~= seq![p] + tail);
                assert(before + (seq![p] + tail) =~= before.push(p) + tail);
            } else {
                assert(cidrs_of(rest) =~= tail);
            }
            if end == n {
                assert(out@.map_values(|c: String| c@) + Seq::<Seq<char>>::empty() =~= out@.map_values(
                    |c: String| c@,
                ));
            }
        }
        if end < n {
            start = end + 1;
        } else {
            start = n;
            done = true;
        }
    }
    out
}

/// The error a configuration value is refused with.
pub open spec fn required_rule(key: Seq<char>) -> Seq<char> {
    "required environment variable "@ + key + " is not set"@
}

pub open spec fn flag_rule(key: Seq<char>) -> Seq<char> {
    key + " must be true or false"@
}

/// A value, or its default when unset.
pub open spec fn or_default(v: Option<String>, default: Seq<char>) -> Seq<char> {
    match v {
        Some(s) => s@,
        None => default,
    }
}

fn value_or(v: Option<String>, default: &str) -> (s: String)
    ensures
        s@ == or_default(v, default@),
{
    match v {
        Some(s) => s,
        None => default.to_string(),
    }
}

/// A flag, or the message it is refused with.
fn flag_or(v: Option<String>, default: &str, key: &str) -> (r: Result<bool, String>)
    ensures
        flag_of(or_default(v, default@)) matches Some(b) ==> r == Ok::<bool, String>(b),
        flag_of(or_default(v, default@)) is None ==> (r matches Err(m) && m@ == flag_rule(key@)),
{
    let s = value_or(v, default);
    match parse_flag(s.as_str()) {
        Some(b) => Ok(b),
        None => Err(crate::text::concat_str(key, " must be true or false")),
    }
}

/// The configuration from the environment's values, with the defaults of a
/// stock local cluster; `Err` holds the message of the first value refused,
/// in the order the fields are read.
pub fn config_from(env: EnvVars) -> (r: Result<Config, String>)
    ensures
        env.database_url is None ==> (r matches Err(m) && m@ == required_rule("DATABASE_URL"@)),
        env.database_url is Some && flag_of(or_default(env.registry_insecure, "true"@)) is None ==> (
        r matches Err(m) && m@ == flag_rule("REGISTRY_INSECURE"@)),
        env.database_url is Some && flag_of(or_default(env.registry_insecure, "true"@)) is Some
            && flag_of(or_default(env.cookie_secure, "false"@)) is None ==> (r matches Err(m) && m@
            == flag_rule("COOKIE_SECURE"@)),
        env.database_url is Some && flag_of(or_default(env.registry_insecure, "true"@)) is Some
            && flag_of(or_default(env.cookie_secure, "false"@)) is Some && flag_of(
            or_default(env.build_cache, "true"@),
        ) is None ==> (r matches Err(m) && m@ == flag_rule("BUILD_CACHE"@)),
        r is Ok <==> env.database_url is Some && flag_of(or_default(env.registry_insecure, "true"@))
            is Some && flag_of(or_default(env.cookie_secure, "false"@)) is Some && flag_of(
            or_default(env.build_cache, "true"@),
        ) is Some,
        r matches Ok(c) ==> {
            &&& c.database_url@ == env.database_url.unwrap()@
            &&& c.bind_addr@ == or_default(env.bind_addr, "0.0.0.0:8080"@)
            &&& c.app_base_domain@ == or_default(env.app_base_domain, "localhost"@)
            &&& c.registry_url@ == or_default(env.registry_url, "localhost:30500"@)
            &&& Some(c.registry_insecure) == flag_of(or_default(env.registry_insecure, "true"@))
            &&& (trimmed(or_default(env.cluster_issuer, "spark-selfsigned"@)).len() == 0 ==> c.cluster_issuer is None)
            &&& (trimmed(or_default(env.cluster_issuer, "spark-selfsigned"@)).len() > 0 ==> (c.cluster_issuer matches Some(i) && i@ == or_default(env.cluster_issuer, "spark-selfsigned"@)))
            &&& Some(c.cookie_secure) == flag_of(or_default(env.cookie_secure, "false"@))
            &&& Some(c.build_cache) == flag_of(or_default(env.build_cache, "true"@))
            &&& c.cluster_cidrs@.map_values(|s: String| s@) == cidrs_of(
                or_default(env.cluster_cidrs, "10.96.0.0/12,10.244.0.0/16"@),
            )
        },
{
    let database_url = match env.database_url {
        Some(u) => u,
        None => {
            let m = crate::text::concat_str("required environment variable ", "DATABASE_URL");
            return Err(crate::text::concat_str(m.as_str(), " is not set"));
        },
    };
    let bind_addr = value_or(env.bind_addr, "0.0.0.0:8080");
    let app_base_domain = value_or(env.app_base_domain, "localhost");
    let registry_url = value_or(env.registry_url, "localhost:30500");
    let registry_insecure = flag_or(env.registry_insecure, "true", "REGISTRY_INSECURE")?;
    let cluster_issuer = issuer_setting(value_or(env.cluster_issuer, "spark-selfsigned"));
    let cookie_secure = flag_or(env.cookie_secure, "false", "COOKIE_SECURE")?;
    let build_cache = flag_or(env.build_cache, "true", "BUILD_CACHE")?;
    let cidrs = value_or(env.cluster_cidrs, "10.96.0.0/12,10.244.0.0/16");
    let cluster_cidrs = cidr_list(cidrs.as_str());
    Ok(
        Config {
            database_url,
            bind_addr,
            app_base_domain,
            registry_url,
            registry_insecure,
            cluster_cidrs,
            cluster_issuer,
            cookie_secure,
            build_cache,
        },
    )
}

} // verus!
