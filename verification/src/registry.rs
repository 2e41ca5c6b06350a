//! The fixed registry coordinates of the workload image, the endpoints used
//! to list its tags, and the rendering of a version into an image reference.
use crate::text::{dec_str, push_u64};
use crate::versioning::Version;
use vstd::prelude::*;
use vstd::string::*;

verus! {

pub fn registry_host() -> (r: &'static str)
    ensures
        r@ == "ghcr.io"@,
{
    "ghcr.io"
}

pub fn registry_username() -> (r: &'static str)
    ensures
        r@ == "mayo-dayo"@,
{
    "mayo-dayo"
}

pub fn registry_repository() -> (r: &'static str)
    ensures
        r@ == "app"@,
{
    "app"
}

/// The bearer-token endpoint, scoped to pull access for the fixed repository.
pub fn token_url() -> (r: String)
    ensures
        r@ == "https://ghcr.io/token?scope=repository:mayo-dayo/app:pull"@,
{
    String::from_str("https://ghcr.io/token?scope=repository:mayo-dayo/app:pull")
}

/// The tag-listing endpoint of the fixed repository.
pub fn tags_url() -> (r: String)
    ensures
        r@ == "https://ghcr.io/v2/mayo-dayo/app/tags/list"@,
{
    String::from_str("https://ghcr.io/v2/mayo-dayo/app/tags/list")
}

/// `major.minor.patch`, the tag a release version is published under.
pub open spec fn version_tag_spec(v: Version) -> Seq<char> {
    dec_str(v.major as nat) + seq!['.'] + dec_str(v.minor as nat) + seq!['.'] + dec_str(
        v.patch as nat,
    )
}

pub fn version_tag(v: &Version) -> (r: String)
    ensures
        r@ == version_tag_spec(*v),
{
    proof {
        reveal_strlit(".");
    }
    let mut out = String::new();
    push_u64(&mut out, v.major);
    out.append(".");
    push_u64(&mut out, v.minor);
    out.append(".");
    push_u64(&mut out, v.patch);
    proof {
        assert(out@ =~= version_tag_spec(*v));
    }
    out
}

/// The full local image reference for a workload version.
pub open spec fn image_reference_spec(v: Version) -> Seq<char> {
    "ghcr.io/mayo-dayo/app:"@ + version_tag_spec(v)
}

/// Deterministically format the registry/namespace/repository/tag reference
/// for a version; no network is involved.
pub fn resolve_image(v: &Version) -> (r: String)
    ensures
        r@ == image_reference_spec(*v),
{
    let mut out = String::from_str("ghcr.io/mayo-dayo/app:");
    let tag = version_tag(v);
    out.append(tag.as_str());
    proof {
        assert(out@ =~= image_reference_spec(*v));
    }
    out
}

} // verus!
