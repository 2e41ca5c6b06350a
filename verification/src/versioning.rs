//! Semantic-version compatibility: the caret-style contract predicate, the tag
//! filter for workload versions, and the choice of the latest compatible one.
use vstd::prelude::*;

verus! {

/// A parsed semantic version: the numeric triple plus whether a pre-release
/// part is present. Pre-release identifiers beyond their presence play no role
/// in any rule of this tool.
#[derive(Clone, Copy, PartialEq, Eq, Structural, Debug)]
pub struct Version {
    pub major: u64,
    pub minor: u64,
    pub patch: u64,
    pub pre: bool,
}

/// A caret-style compatibility contract: the major must match exactly; when a
/// minor is given, the version's minor must be at least it; pre-release
/// versions never match.
#[derive(Clone, Copy, Debug)]
pub struct CompatibilityContract {
    pub major: u64,
    pub minor: Option<u64>,
}

pub open spec fn matches_contract(c: CompatibilityContract, v: Version) -> bool {
    &&& v.major == c.major
    &&& match c.minor {
        Some(m) => v.minor >= m,
        None => true,
    }
    &&& !v.pre
}

/// Ordering of versions: by the numeric triple, a pre-release below the
/// release with the same triple.
pub open spec fn version_lt(a: Version, b: Version) -> bool {
    if a.major != b.major {
        a.major < b.major
    } else if a.minor != b.minor {
        a.minor < b.minor
    } else if a.patch != b.patch {
        a.patch < b.patch
    } else {
        a.pre && !b.pre
    }
}

pub open spec fn version_le(a: Version, b: Version) -> bool {
    version_lt(a, b) || a == b
}

pub fn version_le_exec(a: &Version, b: &Version) -> (r: bool)
    ensures
        r == version_le(*a, *b),
{
    if a.major != b.major {
        a.major < b.major
    } else if a.minor != b.minor {
        a.minor < b.minor
    } else if a.patch != b.patch {
        a.patch < b.patch
    } else {
        a.pre || !b.pre
    }
}

proof fn lemma_version_le_total(a: Version, b: Version)
    ensures
        version_le(a, b) || version_le(b, a),
{
}

proof fn lemma_version_le_trans(a: Version, b: Version, c: Version)
    requires
        version_le(a, b),
        version_le(b, c),
    ensures
        version_le(a, c),
{
}

/// Whether a version meets a contract; the whole two-level filter reduces to
/// this predicate on parsed versions.
pub fn contract_matches(c: &CompatibilityContract, v: &Version) -> (r: bool)
    ensures
        r == matches_contract(*c, *v),
{
    let minor_ok = match c.minor {
        Some(m) => v.minor >= m,
        None => true,
    };
    v.major == c.major && minor_ok && !v.pre
}

pub uninterp spec fn sem_parse(s: Seq<char>) -> Option<Version>;

/// Relies on `semver::Version::parse`: the result is a function of the
/// characters alone; major, minor and patch are carried over field by field,
/// and `pre` records whether a pre-release part is present.
#[verifier::external_body]
pub(crate) fn parse_version(s: &str) -> (r: Option<Version>)
    ensures
        r == sem_parse(s@),
{
    match semver::Version::parse(s) {
        Ok(v) => Some(
            Version { major: v.major, minor: v.minor, patch: v.patch, pre: !v.pre.is_empty() },
        ),
        Err(_) => None,
    }
}

/// The versions among `tags` that parse and meet `c`, in input order.
pub open spec fn compatible_versions_spec(tags: Seq<Seq<char>>, c: CompatibilityContract) -> Seq<
    Version,
>
    decreases tags.len(),
{
    if tags.len() == 0 {
        Seq::empty()
    } else {
        let rest = compatible_versions_spec(tags.drop_first(), c);
        match sem_parse(tags[0]) {
            Some(v) => if matches_contract(c, v) {
                seq![v] + rest
            } else {
                rest
            },
            None => rest,
        }
    }
}

/// Everything the filter yields meets the contract; in particular unparsable
/// tags contribute nothing.
pub proof fn lemma_compatible_versions_match(tags: Seq<Seq<char>>, c: CompatibilityContract)
    ensures
        forall|i: int|
            0 <= i < compatible_versions_spec(tags, c).len() ==> matches_contract(
                c,
                #[trigger] compatible_versions_spec(tags, c)[i],
            ),
    decreases tags.len(),
{
    if tags.len() > 0 {
        lemma_compatible_versions_match(tags.drop_first(), c);
        let rest = compatible_versions_spec(tags.drop_first(), c);
        let whole = compatible_versions_spec(tags, c);
        assert forall|i: int| 0 <= i < whole.len() implies matches_contract(c, whole[i]) by {
            match sem_parse(tags[0]) {
                Some(v) => {
                    if matches_contract(c, v) {
                        if i == 0 {
                            assert(whole[i] == v);
                        } else {
                            assert(whole[i] == rest[i - 1]);
                        }
                    } else {
                        assert(whole[i] == rest[i]);
                    }
                },
                None => {
                    assert(whole[i] == rest[i]);
                },
            }
        }
    }
}

/// The workload-compatibility contract of this build of the tool.
pub open spec fn workload_contract_spec() -> CompatibilityContract {
    CompatibilityContract { major: 0, minor: Some(3u64) }
}

pub fn workload_contract() -> (r: CompatibilityContract)
    ensures
        r == workload_contract_spec(),
{
    CompatibilityContract { major: 0, minor: Some(3u64) }
}

/// The tool-compatibility contract of this build of the tool.
pub open spec fn cli_contract_spec() -> CompatibilityContract {
    CompatibilityContract { major: 0, minor: Some(1u64) }
}

pub fn cli_contract() -> (r: CompatibilityContract)
    ensures
        r == cli_contract_spec(),
{
    CompatibilityContract { major: 0, minor: Some(1u64) }
}

pub open spec fn strings_view(tags: Seq<String>) -> Seq<Seq<char>> {
    tags.map_values(|t: String| t@)
}

/// Filter a tag listing down to the versions that meet `c`, in input order.
pub fn compatible_versions(tags: &Vec<String>, c: &CompatibilityContract) -> (r: Vec<Version>)
    ensures
        r@ == compatible_versions_spec(strings_view(tags@), *c),
{
    let ghost full = strings_view(tags@);
    let mut r: Vec<Version> = Vec::new();
    let mut i: usize = 0;
    proof {
        assert(full.skip(0) =~= full);
    }
    while i < tags.len()
        invariant
            0 <= i <= tags.len(),
            full == strings_view(tags@),
            full.len() == tags@.len(),
            compatible_versions_spec(full, *c) == r@ + compatible_versions_spec(
                full.skip(i as int),
                *c,
            ),
        decreases tags.len() - i,
    {
        let ghost pre_r = r@;
        let ghost rem = full.skip(i as int);
        proof {
            assert(rem[0] == full[i as int]);
            assert(rem.drop_first() =~= full.skip(i as int + 1));
        }
        match parse_version(tags[i].as_str()) {
            Some(v) => {
                if contract_matches(c, &v) {
                    r.push(v);
                    proof {
                        assert(r@ =~= pre_r + seq![v]);
                        assert(pre_r + compatible_versions_spec(rem, *c) == pre_r + (seq![v]
                            + compatible_versions_spec(rem.drop_first(), *c)));
                        assert(pre_r + (seq![v] + compatible_versions_spec(rem.drop_first(), *c))
                            =~= (pre_r + seq![v]) + compatible_versions_spec(
                            rem.drop_first(),
                            *c,
                        ));
                    }
                }
            },
            None => {},
        }
        i = i + 1;
    }
    proof {
        assert(full.skip(tags@.len() as int) =~= Seq::<Seq<char>>::empty());
        assert(r@ + Seq::<Version>::empty() =~= r@);
    }
    r
}

/// The versions in the remote tag listing that are compatible with this
/// build's workload contract, in listing order; unparsable tags are dropped.
pub fn tags_to_compatible_app_versions(tags: &Vec<String>) -> (r: Vec<Version>)
    ensures
        r@ == compatible_versions_spec(strings_view(tags@), workload_contract_spec()),
{
    let c = workload_contract();
    compatible_versions(tags, &c)
}

/// The latest workload version among `tags` that is compatible with this
/// build; `None` exactly when no tag is compatible.
pub fn get_latest_compatible_app_version(tags: &Vec<String>) -> (r: Option<Version>)
    ensures
        ({
            let vs = compatible_versions_spec(strings_view(tags@), workload_contract_spec());
            match r {
                Some(v) => vs.contains(v) && forall|j: int|
                    0 <= j < vs.len() ==> version_le(#[trigger] vs[j], v),
                None => vs.len() == 0,
            }
        }),
{
    let vs = tags_to_compatible_app_versions(tags);
    if vs.len() == 0 {
        return None;
    }
    let mut best: Version = vs[0];
    let ghost full = vs@;
    proof {
        assert(full[0] == best);
        assert(full.contains(best));
    }
    let mut i: usize = 1;
    while i < vs.len()
        invariant
            1 <= i <= full.len(),
            full == vs@,
            full.contains(best),
            forall|j: int| 0 <= j < i ==> version_le(#[trigger] full[j], best),
        decreases vs.len() - i,
    {
        let v = vs[i];
        if version_le_exec(&best, &v) {
            proof {
                let prev = best;
                assert forall|j: int| 0 <= j <= i implies version_le(#[trigger] full[j], v) by {
                    if j < i {
                        lemma_version_le_trans(full[j], prev, v);
                    }
                }
                assert(full[i as int] == v);
                assert(full.contains(v));
            }
            best = v;
        } else {
            proof {
                lemma_version_le_total(best, v);
            }
        }
        i = i + 1;
    }
    Some(best)
}

/// The version of this build of the tool.
pub fn current_cli_version() -> (r: Version)
    ensures
        r == (Version { major: 0u64, minor: 1u64, patch: 1u64, pre: false }),
{
    Version { major: 0, minor: 1, patch: 1, pre: false }
}

/// Whether a tool version recorded on a resource is compatible with this build.
pub fn is_compatible_cli_version(version: &Version) -> (r: bool)
    ensures
        r == matches_contract(cli_contract_spec(), *version),
{
    let c = cli_contract();
    contract_matches(&c, version)
}

} // verus!
