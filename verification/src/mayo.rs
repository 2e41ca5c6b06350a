//! Discovery and creation of managed instances: the two-phase compatibility
//! filter over the engine's resource listing, the plan that inspects each
//! distinct image once, and the engine configuration derived for a new
//! instance. The engine round-trips themselves happen outside the library.
use crate::docker::{ContainerConfig, MountSpec};
use crate::labels::{label_get, label_key_cli_version, labels_view, lookup_label};
use crate::parameters::Parameters;
use crate::pull::{find_layer, layers_seq};
use crate::registry::{version_tag, version_tag_spec};
use crate::server::{opt_string_view, server_of_summary, Server};
use crate::text::str_eq;
use crate::versioning::{
    cli_contract_spec, current_cli_version, is_compatible_cli_version, matches_contract, sem_parse,
    workload_contract_spec, Version,
};
use vstd::prelude::*;
use vstd::string::*;

verus! {

/// One entry of the engine's resource listing, reduced to plain values.
#[derive(Clone, Debug)]
pub struct ResourceSummary {
    pub id: Option<String>,
    pub image_id: Option<String>,
    pub state: Option<String>,
    pub labels: Vec<(String, String)>,
}

pub struct ResourceSummaryV {
    pub id: Option<Seq<char>>,
    pub image_id: Option<Seq<char>>,
    pub state: Option<Seq<char>>,
    pub labels: Seq<(Seq<char>, Seq<char>)>,
}

impl View for ResourceSummary {
    type V = ResourceSummaryV;

    open spec fn view(&self) -> ResourceSummaryV {
        ResourceSummaryV {
            id: opt_string_view(self.id),
            image_id: opt_string_view(self.image_id),
            state: opt_string_view(self.state),
            labels: labels_view(self.labels@),
        }
    }
}

/// The tool-version phase: the resource survives only if its tool-version
/// label is present, parses as a version, and meets the tool contract.
pub open spec fn tool_phase_spec(labels: Seq<(Seq<char>, Seq<char>)>) -> bool {
    match lookup_label(labels, "mayo-cli-version"@) {
        Some(value) => match sem_parse(value) {
            Some(version) => matches_contract(cli_contract_spec(), version),
            None => false,
        },
        None => false,
    }
}

pub fn tool_phase_keep(summary: &ResourceSummary) -> (r: bool)
    ensures
        r == tool_phase_spec(summary@.labels),
{
    let key = label_key_cli_version();
    match label_get(&summary.labels, key) {
        Some(value) => match crate::versioning::parse_version(value.as_str()) {
            Some(version) => is_compatible_cli_version(&version),
            None => false,
        },
        None => false,
    }
}

/// The entries that survive the tool-version phase, in listing order.
pub open spec fn tool_filter_spec(summaries: Seq<ResourceSummaryV>) -> Seq<ResourceSummaryV>
    decreases summaries.len(),
{
    if summaries.len() == 0 {
        Seq::empty()
    } else {
        let rest = tool_filter_spec(summaries.drop_first());
        if tool_phase_spec(summaries[0].labels) {
            seq![summaries[0]] + rest
        } else {
            rest
        }
    }
}

fn clone_opt_string(x: &Option<String>) -> (r: Option<String>)
    ensures
        r == *x,
{
    match x {
        Some(v) => Some(v.clone()),
        None => None,
    }
}

fn clone_labels(x: &Vec<(String, String)>) -> (r: Vec<(String, String)>)
    ensures
        r@ == x@,
{
    let mut r: Vec<(String, String)> = Vec::new();
    let mut i: usize = 0;
    while i < x.len()
        invariant
            0 <= i <= x@.len(),
            r@ == x@.take(i as int),
        decreases x.len() - i,
    {
        let pair = &x[i];
        r.push((pair.0.clone(), pair.1.clone()));
        proof {
            assert(x@.take(i + 1) =~= x@.take(i as int).push(x@[i as int]));
        }
        i = i + 1;
    }
    proof {
        assert(x@.take(x@.len() as int) =~= x@);
    }
    r
}

impl ResourceSummary {
    /// A field-by-field copy; listing entries are filtered and reused by value.
    pub fn duplicate(&self) -> (r: ResourceSummary)
        ensures
            r@ == self@,
    {
        ResourceSummary {
            id: clone_opt_string(&self.id),
            image_id: clone_opt_string(&self.image_id),
            state: clone_opt_string(&self.state),
            labels: clone_labels(&self.labels),
        }
    }
}

/// Drop every entry whose tool-version label is absent, unparsable, or
/// incompatible; what remains goes on to the workload-version phase.
pub fn tool_phase_filter(summaries: &Vec<ResourceSummary>) -> (r: Vec<ResourceSummary>)
    ensures
        summaries_view(r@) == tool_filter_spec(summaries_view(summaries@)),
{
    let ghost full = summaries_view(summaries@);
    let mut r: Vec<ResourceSummary> = Vec::new();
    let mut i: usize = 0;
    proof {
        assert(full.skip(0) =~= full);
    }
    while i < summaries.len()
        invariant
            0 <= i <= summaries@.len(),
            full == summaries_view(summaries@),
            full.len() == summaries@.len(),
            tool_filter_spec(full) == summaries_view(r@) + tool_filter_spec(full.skip(i as int)),
        decreases summaries.len() - i,
    {
        let ghost rem = full.skip(i as int);
        let ghost pre_r = summaries_view(r@);
        proof {
            assert(rem[0] == full[i as int]);
            assert(rem.drop_first() =~= full.skip(i as int + 1));
        }
        if tool_phase_keep(&summaries[i]) {
            let item = summaries[i].duplicate();
            let ghost itemv = item@;
            r.push(item);
            proof {
                assert(itemv == full[i as int]);
                assert(summaries_view(r@) =~= pre_r + seq![itemv]);
                assert(pre_r + (seq![itemv] + tool_filter_spec(rem.drop_first())) =~= (pre_r
                    + seq![itemv]) + tool_filter_spec(rem.drop_first()));
            }
        }
        i = i + 1;
    }
    proof {
        assert(full.skip(summaries@.len() as int) =~= Seq::<ResourceSummaryV>::empty());
        assert(summaries_view(r@) + Seq::<ResourceSummaryV>::empty() =~= summaries_view(r@));
    }
    r
}

/// Position of the first `:` in `s` at or after `i`.
pub open spec fn colon_pos(s: Seq<char>, i: nat) -> Option<nat>
    decreases s.len() - i,
{
    if i >= s.len() {
        None
    } else if s[i as int] == ':' {
        Some(i)
    } else {
        colon_pos(s, (i + 1) as nat)
    }
}

/// Whether one `repository:tag` entry carries a workload-compatible tag: the
/// part after the first `:` must parse and meet the workload contract.
/// An entry without a `:` carries no tag at all.
pub open spec fn repo_tag_compatible(entry: Seq<char>) -> bool {
    match colon_pos(entry, 0) {
        Some(j) => match sem_parse(entry.subrange(j as int + 1, entry.len() as int)) {
            Some(version) => matches_contract(workload_contract_spec(), version),
            None => false,
        },
        None => false,
    }
}

fn split_tag(entry: &str) -> (r: Option<String>)
    ensures
        match r {
            Some(tag) => colon_pos(entry@, 0) matches Some(j) && tag@ == entry@.subrange(
                j as int + 1,
                entry@.len() as int,
            ),
            None => colon_pos(entry@, 0) is None,
        },
{
    let n = entry.unicode_len();
    let mut i: usize = 0;
    loop
        invariant
            0 <= i <= n,
            n == entry@.len(),
            colon_pos(entry@, 0) == colon_pos(entry@, i as nat),
        decreases n - i,
    {
        if i >= n {
            return None;
        }
        if entry.get_char(i) == ':' {
            let tag = entry.substring_char(i + 1, n).to_owned();
            return Some(tag);
        }
        i = i + 1;
    }
}

/// An image is workload-compatible when at least one of its repository tags
/// parses to a version meeting the workload contract.
pub open spec fn image_compatible_spec(repo_tags: Seq<Seq<char>>) -> bool {
    exists|i: int| 0 <= i < repo_tags.len() && repo_tag_compatible(#[trigger] repo_tags[i])
}

pub fn image_has_compatible_tag(repo_tags: &Vec<String>) -> (r: bool)
    ensures
        r == image_compatible_spec(crate::versioning::strings_view(repo_tags@)),
{
    let ghost full = crate::versioning::strings_view(repo_tags@);
    let mut i: usize = 0;
    while i < repo_tags.len()
        invariant
            0 <= i <= repo_tags.len(),
            full == crate::versioning::strings_view(repo_tags@),
            full.len() == repo_tags@.len(),
            forall|k: int| 0 <= k < i ==> !repo_tag_compatible(#[trigger] full[k]),
        decreases repo_tags.len() - i,
    {
        proof {
            assert(full[i as int] == repo_tags@[i as int]@);
        }
        let compatible = match split_tag(repo_tags[i].as_str()) {
            Some(tag) => match crate::versioning::parse_version(tag.as_str()) {
                Some(version) => {
                    let c = crate::versioning::workload_contract();
                    crate::versioning::contract_matches(&c, &version)
                },
                None => false,
            },
            None => false,
        };
        if compatible {
            return true;
        }
        i = i + 1;
    }
    false
}

/// Whether some element of `ids` views to `id`.
pub open spec fn contains_id(ids: Seq<String>, id: Seq<char>) -> bool {
    exists|j: int| 0 <= j < ids.len() && (#[trigger] ids[j])@ == id
}

fn ids_contain(ids: &Vec<String>, id: &str) -> (r: bool)
    ensures
        r == contains_id(ids@, id@),
{
    let mut j: usize = 0;
    while j < ids.len()
        invariant
            0 <= j <= ids@.len(),
            forall|k: int| 0 <= k < j ==> (#[trigger] ids@[k])@ != id@,
        decreases ids.len() - j,
    {
        if str_eq(ids[j].as_str(), id) {
            return true;
        }
        j = j + 1;
    }
    false
}

/// Some listing entry carries this image id.
pub open spec fn summary_has_image(summaries: Seq<ResourceSummaryV>, id: Seq<char>) -> bool {
    exists|k: int| 0 <= k < summaries.len() && (#[trigger] summaries[k]).image_id == Some(id)
}

/// Every planned id comes from some listing entry.
pub open spec fn planned_from(ids: Seq<String>, summaries: Seq<ResourceSummaryV>) -> bool {
    forall|a: int|
        #![trigger ids[a]]
        0 <= a < ids.len() ==> summary_has_image(summaries, ids[a]@)
}

/// The distinct image ids of the listing: each image is inspected once, no
/// matter how many instances share it.
pub fn plan_image_inspections(summaries: &Vec<ResourceSummary>) -> (r: Vec<String>)
    ensures
        // no image id appears twice
        forall|a: int, b: int| 0 <= a < b < r@.len() ==> (#[trigger] r@[a])@ != (#[trigger] r@[b])@,
        // every listed image id is planned
        forall|k: int|
            0 <= k < summaries@.len() ==> match (#[trigger] summaries@[k])@.image_id {
                Some(image_id) => contains_id(r@, image_id),
                None => true,
            },
        // nothing else is planned
        planned_from(r@, summaries_view(summaries@)),
{
    let ghost sv = summaries_view(summaries@);
    let mut r: Vec<String> = Vec::new();
    let mut i: usize = 0;
    while i < summaries.len()
        invariant
            0 <= i <= summaries@.len(),
            sv == summaries_view(summaries@),
            sv.len() == summaries@.len(),
            forall|a: int, b: int|
                0 <= a < b < r@.len() ==> (#[trigger] r@[a])@ != (#[trigger] r@[b])@,
            forall|k: int|
                0 <= k < i ==> match (#[trigger] summaries@[k])@.image_id {
                    Some(image_id) => contains_id(r@, image_id),
                    None => true,
                },
            planned_from(r@, sv),
        decreases summaries.len() - i,
    {
        match &summaries[i].image_id {
            Some(image_id) => {
                if !ids_contain(&r, image_id.as_str()) {
                    let ghost r0 = r@;
                    r.push(image_id.clone());
                    proof {
                        assert(r@ == r0.push(summaries@[i as int].image_id.unwrap()));
                        assert forall|k: int|
                            0 <= k < i + 1 implies match (#[trigger] summaries@[k])@.image_id {
                            Some(other) => contains_id(r@, other),
                            None => true,
                        } by {
                            match summaries@[k]@.image_id {
                                Some(other) => {
                                    if k < i {
                                        let j = choose|j: int|
                                            0 <= j < r0.len() && (#[trigger] r0[j])@ == other;
                                        assert(r@[j]@ == other);
                                    } else {
                                        assert(r@[r0.len() as int]@ == other);
                                    }
                                },
                                None => {},
                            }
                        }
                        assert(sv[i as int] == summaries@[i as int]@);
                        assert forall|a: int| #![trigger r@[a]] 0 <= a < r@.len() implies
                            summary_has_image(sv, r@[a]@) by {
                            if a < r0.len() {
                                assert(r@[a] == r0[a]);
                            } else {
                                assert(sv[i as int].image_id == Some(r@[a]@));
                            }
                        }
                    }
                }
            },
            None => {},
        }
        i = i + 1;
    }
    r
}

/// The listing a discovery yields, given the per-image compatibility answers:
/// a resource is kept exactly when it passes the tool phase, its image is
/// known workload-compatible, and it reads back as a managed instance.
pub open spec fn assemble_spec(
    summaries: Seq<ResourceSummaryV>,
    memo: Seq<(Seq<char>, bool)>,
) -> Seq<crate::server::ServerV>
    decreases summaries.len(),
{
    if summaries.len() == 0 {
        Seq::empty()
    } else {
        let rest = assemble_spec(summaries.drop_first(), memo);
        let s = summaries[0];
        let keep = tool_phase_spec(s.labels) && match s.image_id {
            Some(image_id) => find_layer(memo, image_id) == Some(true),
            None => false,
        };
        if keep {
            match server_of_summary(s.id, s.state, s.labels) {
                Some(server) => seq![server] + rest,
                None => rest,
            }
        } else {
            rest
        }
    }
}

fn memo_get(memo: &Vec<(String, bool)>, id: &str) -> (r: Option<bool>)
    ensures
        r == find_layer(layers_seq(memo@), id@),
{
    let ghost full = layers_seq(memo@);
    let mut i: usize = 0;
    proof {
        assert(full.skip(0) =~= full);
    }
    while i < memo.len()
        invariant
            0 <= i <= memo@.len(),
            full == layers_seq(memo@),
            full.len() == memo@.len(),
            find_layer(full, id@) == find_layer(full.skip(i as int), id@),
        decreases memo.len() - i,
    {
        proof {
            assert(full.skip(i as int)[0] == full[i as int]);
            assert(full[i as int] == (memo@[i as int].0@, memo@[i as int].1));
            assert(full.skip(i as int).drop_first() =~= full.skip(i as int + 1));
        }
        if str_eq(memo[i].0.as_str(), id) {
            return Some(memo[i].1);
        }
        i = i + 1;
    }
    proof {
        assert(full.skip(memo@.len() as int) =~= Seq::<(Seq<char>, bool)>::empty());
    }
    None
}

pub open spec fn summaries_view(s: Seq<ResourceSummary>) -> Seq<ResourceSummaryV> {
    s.map_values(|x: ResourceSummary| x@)
}

/// Apply both phases and decode the survivors, with `memo` answering image
/// compatibility (one entry per distinct image id, from
/// `plan_image_inspections` and `image_has_compatible_tag`).
pub fn assemble_servers(summaries: &Vec<ResourceSummary>, memo: &Vec<(String, bool)>) -> (r: Vec<
    Server,
>)
    ensures
        crate::server::servers_view(r@) == assemble_spec(
            summaries_view(summaries@),
            layers_seq(memo@),
        ),
{
    let ghost full = summaries_view(summaries@);
    let ghost memov = layers_seq(memo@);
    let mut r: Vec<Server> = Vec::new();
    let mut i: usize = 0;
    proof {
        assert(full.skip(0) =~= full);
    }
    while i < summaries.len()
        invariant
            0 <= i <= summaries@.len(),
            full == summaries_view(summaries@),
            memov == layers_seq(memo@),
            full.len() == summaries@.len(),
            assemble_spec(full, memov) == crate::server::servers_view(r@) + assemble_spec(
                full.skip(i as int),
                memov,
            ),
        decreases summaries.len() - i,
    {
        let ghost rem = full.skip(i as int);
        let ghost pre_r = crate::server::servers_view(r@);
        proof {
            assert(rem[0] == full[i as int]);
            assert(rem.drop_first() =~= full.skip(i as int + 1));
        }
        let summary = &summaries[i];
        let keep = tool_phase_keep(summary) && match &summary.image_id {
            Some(image_id) => match memo_get(memo, image_id.as_str()) {
                Some(flag) => flag,
                None => false,
            },
            None => false,
        };
        if keep {
            match Server::from_summary(
                summary.id.clone(),
                summary.state.clone(),
                &summary.labels,
            ) {
                Some(server) => {
                    let ghost sv = server@;
                    r.push(server);
                    proof {
                        assert(crate::server::servers_view(r@) =~= pre_r + seq![sv]);
                        assert(pre_r + (seq![sv] + assemble_spec(rem.drop_first(), memov)) =~= (
                        pre_r + seq![sv]) + assemble_spec(rem.drop_first(), memov));
                    }
                },
                None => {},
            }
        }
        i = i + 1;
    }
    proof {
        assert(full.skip(summaries@.len() as int) =~= Seq::<ResourceSummaryV>::empty());
        assert(crate::server::servers_view(r@) + Seq::<crate::server::ServerV>::empty()
            =~= crate::server::servers_view(r@));
    }
    r
}

/// `mayo-<name>-volume`: the volume backing an instance's data path.
pub open spec fn instance_volume_spec(name: Seq<char>) -> Seq<char> {
    "mayo-"@ + name + "-volume"@
}

pub fn instance_volume_name(name: &str) -> (r: String)
    ensures
        r@ == instance_volume_spec(name@),
{
    let mut out = String::from_str("mayo-");
    out.append(name);
    out.append("-volume");
    proof {
        assert(out@ =~= instance_volume_spec(name@));
    }
    out
}

/// The engine configuration for a new instance: the resolved image; the port
/// and data path — and, when present, the TLS material and the
/// authentication requirement — as environment; the tool version and the
/// encoded parameters as labels; a named volume at the data path; host
/// networking; restart unless stopped; and the prefixed name.
pub fn server_create_config(parameters: &Parameters, image_id: String) -> (r: ContainerConfig)
    ensures
        r.image@ == image_id@,
        r.labels@.len() == 2,
        r.labels@[0].0@ == "mayo-cli-version"@,
        r.labels@[0].1@ == version_tag_spec(
            Version { major: 0, minor: 1, patch: 1, pre: false },
        ),
        r.labels@[1].0@ == "mayo-parameters"@,
        r.labels@[1].1@ == crate::parameters::encode_spec(parameters@),
        r.env@.len() == (if parameters.tls@ is Some {
            4nat
        } else {
            2nat
        }) + (if parameters.authentication@ {
            1nat
        } else {
            0nat
        }),
        r.env@[0]@ == crate::docker::bun_port_env(parameters.port@),
        r.env@[1]@ == "MAYO_DATA_PATH=/mayo/.data"@,
        parameters.tls@ matches Some((crt, key)) ==> r.env@[2]@ == "MAYO_TLS_CRT="@ + crt
            && r.env@[3]@ == "MAYO_TLS_KEY="@ + key,
        parameters.authentication@ ==> r.env@[r.env@.len() - 1]@
            == "MAYO_AUTHENTICATION=required"@,
        r.mounts@.len() == 1,
        r.mounts@[0].target@ == "/mayo/.data"@,
        r.mounts@[0].source@ == instance_volume_spec(parameters.name@),
        r.mounts@[0].volume,
        !r.mounts@[0].read_only,
        r.network_mode@ == "host"@,
        r.restart_unless_stopped,
        r.container_name@ == crate::docker::prefixed_name(parameters.name@),
{
    let cli_version = current_cli_version();
    let mut labels: Vec<(String, String)> = Vec::new();
    labels.push((String::from_str("mayo-cli-version"), version_tag(&cli_version)));
    labels.push((String::from_str("mayo-parameters"), parameters.encode_for_label()));
    let mut env: Vec<String> = Vec::new();
    env.push(crate::docker::make_bun_port_env(parameters.port.value()));
    env.push(String::from_str("MAYO_DATA_PATH=/mayo/.data"));
    match &parameters.tls.0 {
        Some((crt, key)) => {
            let mut crt_env = String::from_str("MAYO_TLS_CRT=");
            crt_env.append(crt.as_str());
            env.push(crt_env);
            let mut key_env = String::from_str("MAYO_TLS_KEY=");
            key_env.append(key.as_str());
            env.push(key_env);
        },
        None => {},
    }
    if parameters.authentication.is_required() {
        env.push(String::from_str("MAYO_AUTHENTICATION=required"));
    }
    let mut mounts: Vec<MountSpec> = Vec::new();
    mounts.push(
        MountSpec {
            target: String::from_str("/mayo/.data"),
            source: instance_volume_name(parameters.name.as_str()),
            volume: true,
            read_only: false,
        },
    );
    ContainerConfig {
        image: image_id,
        env,
        labels,
        mounts,
        network_mode: String::from_str("host"),
        restart_unless_stopped: true,
        container_name: crate::docker::make_prefixed_name(parameters.name.as_str()),
    }
}

} // verus!
