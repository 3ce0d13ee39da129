//! Periodic housekeeping: deployment history and the images it pushed are
//! unbounded growth that nothing else cleans up.

use crate::models::Deployment;
use crate::text::concat_str;
use vstd::prelude::*;

verus! {

broadcast use vstd::string::group_string_axioms;

/// Deployments kept per application. Enough to roll back through a bad run,
/// small enough that log lines and images do not accumulate forever.
pub const KEEP_PER_APP: i64 = 20;

/// The manifest types a registry is asked for when resolving a tag.
pub const MANIFEST_ACCEPT: &'static str = "application/vnd.oci.image.index.v1+json, application/vnd.docker.distribution.manifest.list.v2+json, application/vnd.oci.image.manifest.v1+json, application/vnd.docker.distribution.manifest.v2+json";

/// The images pushed by the given deployments, in order; a deployment that
/// never produced one contributes nothing.
pub open spec fn images_of(ds: Seq<Deployment>) -> Seq<Seq<char>>
    decreases ds.len(),
{
    if ds.len() == 0 {
        Seq::empty()
    } else {
        match ds.last().image_ref {
            Some(i) => images_of(ds.drop_last()).push(i@),
            None => images_of(ds.drop_last()),
        }
    }
}

/// The images to delete before the stale deployments' rows go.
pub fn images_to_delete(stale: &Vec<Deployment>) -> (images: Vec<String>)
    ensures
        images@.map_values(|s: String| s@) == images_of(stale@),
{
    let mut images: Vec<String> = Vec::new();
    let mut i: usize = 0;
    while i < stale.len()
        invariant
            i <= stale@.len(),
            images@.map_values(|s: String| s@) == images_of(stale@.take(i as int)),
        decreases stale.len() - i,
    {
        proof {
            assert(stale@.take(i + 1).drop_last() =~= stale@.take(i as int));
        }
        match &stale[i].image_ref {
            Some(image) => {
                images.push(image.clone());
            },
            None => {},
        }
        i += 1;
    }
    proof {
        assert(stale@.take(stale@.len() as int) =~= stale@);
    }
    images
}

/// The ids of the stale deployments, in order.
pub fn stale_ids(stale: &Vec<Deployment>) -> (ids: Vec<u128>)
    ensures
        ids@ == stale@.map_values(|d: Deployment| d.id),
{
    let mut ids: Vec<u128> = Vec::new();
    let mut i: usize = 0;
    while i < stale.len()
        invariant
            i <= stale@.len(),
            ids@ == stale@.take(i as int).map_values(|d: Deployment| d.id),
        decreases stale.len() - i,
    {
        ids.push(stale[i].id);
        i += 1;
        proof {
            assert(stale@.take(i as int).map_values(|d: Deployment| d.id) =~= stale@.take(
                i - 1,
            ).map_values(|d: Deployment| d.id).push(stale@[i - 1].id));
        }
    }
    proof {
        assert(stale@.take(stale@.len() as int) =~= stale@);
    }
    ids
}

/// Where a repository lives on the registry's v2 API: over plain HTTP for an
/// insecure registry, HTTPS otherwise.
pub fn repository_url(registry_insecure: bool, registry_url: &str, repository: &str) -> (u: String)
    ensures
        u@ == (if registry_insecure {
            "http"@
        } else {
            "https"@
        }) + "://"@ + registry_url@ + "/v2/"@ + repository@,
{
    let scheme = if registry_insecure {
        "http"
    } else {
        "https"
    };
    let u = concat_str(scheme, "://");
    let u = concat_str(u.as_str(), registry_url);
    let u = concat_str(u.as_str(), "/v2/");
    concat_str(u.as_str(), repository)
}

/// A manifest of a repository, by tag or by digest.
pub fn manifest_url(repository_url: &str, reference: &str) -> (u: String)
    ensures
        u@ == repository_url@ + "/manifests/"@ + reference@,
{
    let u = concat_str(repository_url, "/manifests/");
    concat_str(u.as_str(), reference)
}

/// The digest to delete once a tag has been resolved: none when the manifest
/// is already gone or the registry named no digest. A manifest can only be
/// deleted by digest.
pub fn digest_to_delete(head_succeeded: bool, digest: Option<String>) -> (d: Option<String>)
    ensures
        d == if head_succeeded {
            digest
        } else {
            None
        },
{
    if head_succeeded {
        digest
    } else {
        None
    }
}

} // verus!
