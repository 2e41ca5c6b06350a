//! Engine-facing configuration and bookkeeping for the interactive manager's
//! server containers: what to ask the engine for, how to read a listing entry
//! back, and how the outcome of a removal is classified. The engine calls
//! themselves live outside the library; everything they need is derived here.
use crate::error::Error;
use crate::labels::{label_get, labels_view, lookup_label};
use crate::text::{dec_str, parse_u64_at, parse_u64_from, push_u64, utf8_lossy, utf8_lossy_of};
use vstd::prelude::*;
use vstd::string::*;

verus! {

/// One server container as read back from the engine's listing.
#[derive(Clone, Debug)]
pub struct ServerContainer {
    pub id: String,
    pub name: String,
    pub crt_path: String,
    pub key_path: String,
    pub port: u16,
}

/// What an operator supplies to create a server container.
#[derive(Clone, Debug)]
pub struct ServerContainerParameters {
    pub crt_path: String,
    pub key_path: String,
    pub port: u16,
}

/// One mount of a container: a read-only bind of a host path, or a named
/// volume.
#[derive(Clone, Debug)]
pub struct MountSpec {
    pub target: String,
    pub source: String,
    pub volume: bool,
    pub read_only: bool,
}

/// Everything the engine needs to create and start one container.
#[derive(Clone, Debug)]
pub struct ContainerConfig {
    pub image: String,
    pub env: Vec<String>,
    pub labels: Vec<(String, String)>,
    pub mounts: Vec<MountSpec>,
    pub network_mode: String,
    pub restart_unless_stopped: bool,
    pub container_name: String,
}

/// `mayo-` followed by the instance name: the container's engine name, and
/// this variant's volume name.
pub open spec fn prefixed_name(name: Seq<char>) -> Seq<char> {
    "mayo-"@ + name
}

pub fn make_prefixed_name(name: &str) -> (r: String)
    ensures
        r@ == prefixed_name(name@),
{
    let mut out = String::from_str("mayo-");
    out.append(name);
    proof {
        assert(out@ =~= prefixed_name(name@));
    }
    out
}

/// The name of the volume backing a server container's data path.
pub fn server_volume_name(server_container: &ServerContainer) -> (r: String)
    ensures
        r@ == prefixed_name(server_container.name@),
{
    make_prefixed_name(server_container.name.as_str())
}

/// A whole string in the shape the standard integer parser accepts for a
/// `u16`: an optional `+`, then decimal digits, in range.
pub open spec fn parse_u16_spec(s: Seq<char>) -> Option<u16> {
    let st: nat = if s.len() > 0 && s[0] == '+' {
        1
    } else {
        0
    };
    match parse_u64_at(s, st) {
        Some((v, end)) => if end == s.len() && v <= u16::MAX {
            Some(v as u16)
        } else {
            None
        },
        None => None,
    }
}

pub fn parse_u16(s: &str) -> (r: Option<u16>)
    ensures
        r == parse_u16_spec(s@),
{
    let slen = s.unicode_len();
    let st: usize = if slen > 0 && s.get_char(0) == '+' {
        1
    } else {
        0
    };
    match parse_u64_from(s, st) {
        Some((v, end)) => {
            if end == slen && v <= 65535 {
                Some(v as u16)
            } else {
                None
            }
        },
        None => None,
    }
}

/// What one listing entry must yield to count as a server container: an id
/// and the four labels, with a port that parses.
pub open spec fn container_of_summary(
    id: Option<Seq<char>>,
    labels: Seq<(Seq<char>, Seq<char>)>,
) -> Option<ServerContainerV> {
    match id {
        Some(id) => match (
            lookup_label(labels, "name"@),
            lookup_label(labels, "crt_path"@),
            lookup_label(labels, "key_path"@),
            lookup_label(labels, "port"@),
        ) {
            (Some(name), Some(crt), Some(key), Some(port_str)) => match parse_u16_spec(port_str) {
                Some(port) => Some(
                    ServerContainerV { id, name, crt_path: crt, key_path: key, port },
                ),
                None => None,
            },
            _ => None,
        },
        None => None,
    }
}

pub struct ServerContainerV {
    pub id: Seq<char>,
    pub name: Seq<char>,
    pub crt_path: Seq<char>,
    pub key_path: Seq<char>,
    pub port: u16,
}

impl View for ServerContainer {
    type V = ServerContainerV;

    open spec fn view(&self) -> ServerContainerV {
        ServerContainerV {
            id: self.id@,
            name: self.name@,
            crt_path: self.crt_path@,
            key_path: self.key_path@,
            port: self.port,
        }
    }
}

impl ServerContainer {
    /// Read one listing entry back; `None` when the id or any label is
    /// missing or the port does not parse — the entry is then not one of ours.
    pub fn from_summary(id: Option<String>, labels: &Vec<(String, String)>) -> (r: Option<
        ServerContainer,
    >)
        ensures
            match r {
                Some(sc) => container_of_summary(
                    crate::server::opt_string_view(id),
                    labels_view(labels@),
                ) == Some(sc@),
                None => container_of_summary(
                    crate::server::opt_string_view(id),
                    labels_view(labels@),
                ) is None,
            },
    {
        let id = match id {
            Some(x) => x,
            None => {
                return None;
            },
        };
        let name = match label_get(labels, "name") {
            Some(v) => v.clone(),
            None => {
                return None;
            },
        };
        let crt_path = match label_get(labels, "crt_path") {
            Some(v) => v.clone(),
            None => {
                return None;
            },
        };
        let key_path = match label_get(labels, "key_path") {
            Some(v) => v.clone(),
            None => {
                return None;
            },
        };
        let port_str = match label_get(labels, "port") {
            Some(v) => v.clone(),
            None => {
                return None;
            },
        };
        match parse_u16(port_str.as_str()) {
            Some(port) => Some(ServerContainer { id, name, crt_path, key_path, port }),
            None => None,
        }
    }
}

/// The parameters a refresh re-creates the container with: everything kept
/// except the image, which the refresh resolves anew.
pub fn update_parameters(server_container: &ServerContainer) -> (r: ServerContainerParameters)
    ensures
        r.crt_path@ == server_container.crt_path@,
        r.key_path@ == server_container.key_path@,
        r.port == server_container.port,
{
    ServerContainerParameters {
        crt_path: server_container.crt_path.clone(),
        key_path: server_container.key_path.clone(),
        port: server_container.port,
    }
}

/// The image reference this variant runs: the fixed repository at the fixed
/// minor line.
pub fn server_image_reference() -> (r: String)
    ensures
        r@ == "ghcr.io/mayo-dayo/app:0.2"@,
{
    String::from_str("ghcr.io/mayo-dayo/app:0.2")
}

/// The listing filters that find this variant's containers: same image
/// ancestry, a matching version label, and a name label.
pub fn find_server_filters() -> (r: Vec<(String, Vec<String>)>)
    ensures
        r@.len() == 2,
        r@[0].0@ == "ancestor"@,
        r@[0].1@.len() == 1,
        r@[0].1@[0]@ == "ghcr.io/mayo-dayo/app:0.2"@,
        r@[1].0@ == "label"@,
        r@[1].1@.len() == 2,
        r@[1].1@[0]@ == "version=0.2"@,
        r@[1].1@[1]@ == "name"@,
{
    let mut ancestor_values: Vec<String> = Vec::new();
    ancestor_values.push(String::from_str("ghcr.io/mayo-dayo/app:0.2"));
    let mut label_values: Vec<String> = Vec::new();
    label_values.push(String::from_str("version=0.2"));
    label_values.push(String::from_str("name"));
    let mut r: Vec<(String, Vec<String>)> = Vec::new();
    r.push((String::from_str("ancestor"), ancestor_values));
    r.push((String::from_str("label"), label_values));
    r
}

/// `BUN_PORT=<port>`.
pub open spec fn bun_port_env(port: u16) -> Seq<char> {
    "BUN_PORT="@ + dec_str(port as nat)
}

pub fn make_bun_port_env(port: u16) -> (r: String)
    ensures
        r@ == bun_port_env(port),
{
    let mut out = String::from_str("BUN_PORT=");
    push_u64(&mut out, port as u64);
    proof {
        assert(out@ =~= bun_port_env(port));
    }
    out
}

/// The engine configuration for one server container of this variant: the
/// fixed image; the port, data path and in-container TLS paths as
/// environment; the identifying labels; read-only binds of the TLS material
/// and a named volume at the data path; host networking; restart unless
/// stopped; and the prefixed container name.
pub fn server_container_config(parameters: &ServerContainerParameters, name: &str) -> (r:
    ContainerConfig)
    ensures
        r.image@ == "ghcr.io/mayo-dayo/app:0.2"@,
        r.env@.len() == 4,
        r.env@[0]@ == bun_port_env(parameters.port),
        r.env@[1]@ == "MAYO_DATA_PATH=/mayo/.data"@,
        r.env@[2]@ == "TLS_CRT_PATH=/mayo/.data/crt.pem"@,
        r.env@[3]@ == "TLS_KEY_PATH=/mayo/.data/key.pem"@,
        r.labels@.len() == 5,
        r.labels@[0].0@ == "name"@ && r.labels@[0].1@ == name@,
        r.labels@[1].0@ == "version"@ && r.labels@[1].1@ == "0.2"@,
        r.labels@[2].0@ == "crt_path"@ && r.labels@[2].1@ == parameters.crt_path@,
        r.labels@[3].0@ == "key_path"@ && r.labels@[3].1@ == parameters.key_path@,
        r.labels@[4].0@ == "port"@ && r.labels@[4].1@ == dec_str(parameters.port as nat),
        r.mounts@.len() == 3,
        r.mounts@[0].target@ == "/mayo/.data/crt.pem"@ && r.mounts@[0].source@
            == parameters.crt_path@ && !r.mounts@[0].volume && r.mounts@[0].read_only,
        r.mounts@[1].target@ == "/mayo/.data/key.pem"@ && r.mounts@[1].source@
            == parameters.key_path@ && !r.mounts@[1].volume && r.mounts@[1].read_only,
        r.mounts@[2].target@ == "/mayo/.data"@ && r.mounts@[2].source@ == prefixed_name(name@)
            && r.mounts@[2].volume && !r.mounts@[2].read_only,
        r.network_mode@ == "host"@,
        r.restart_unless_stopped,
        r.container_name@ == prefixed_name(name@),
{
    let mut env: Vec<String> = Vec::new();
    env.push(make_bun_port_env(parameters.port));
    env.push(String::from_str("MAYO_DATA_PATH=/mayo/.data"));
    env.push(String::from_str("TLS_CRT_PATH=/mayo/.data/crt.pem"));
    env.push(String::from_str("TLS_KEY_PATH=/mayo/.data/key.pem"));
    let mut port_text = String::new();
    push_u64(&mut port_text, parameters.port as u64);
    let mut labels: Vec<(String, String)> = Vec::new();
    labels.push((String::from_str("name"), String::from_str(name)));
    labels.push((String::from_str("version"), String::from_str("0.2")));
    labels.push((String::from_str("crt_path"), parameters.crt_path.clone()));
    labels.push((String::from_str("key_path"), parameters.key_path.clone()));
    labels.push((String::from_str("port"), port_text));
    let mut mounts: Vec<MountSpec> = Vec::new();
    mounts.push(
        MountSpec {
            target: String::from_str("/mayo/.data/crt.pem"),
            source: parameters.crt_path.clone(),
            volume: false,
            read_only: true,
        },
    );
    mounts.push(
        MountSpec {
            target: String::from_str("/mayo/.data/key.pem"),
            source: parameters.key_path.clone(),
            volume: false,
            read_only: true,
        },
    );
    mounts.push(
        MountSpec {
            target: String::from_str("/mayo/.data"),
            source: make_prefixed_name(name),
            volume: true,
            read_only: false,
        },
    );
    ContainerConfig {
        image: server_image_reference(),
        env,
        labels,
        mounts,
        network_mode: String::from_str("host"),
        restart_unless_stopped: true,
        container_name: make_prefixed_name(name),
    }
}

/// Classify a removal: the resource removal decides first; a volume failure
/// after a successful resource removal is a distinct, uncompensated outcome —
/// the resource is gone and the volume may be orphaned.
pub fn removal_outcome(resource_removed: bool, volume_removed: bool) -> (r: Result<(), Error>)
    ensures
        !resource_removed ==> r == Err::<(), Error>(Error::EngineUnavailable),
        resource_removed && !volume_removed ==> r == Err::<(), Error>(Error::PartialRemoval),
        resource_removed && volume_removed ==> r == Ok::<(), Error>(()),
{
    if !resource_removed {
        Err(Error::EngineUnavailable)
    } else if !volume_removed {
        Err(Error::PartialRemoval)
    } else {
        Ok(())
    }
}

/// The engine-reported state, or the `unknown` sentinel when the engine
/// omitted it — never a failure.
pub fn status_or_unknown(state: Option<String>) -> (r: String)
    ensures
        match state {
            Some(s) => r@ == s@,
            None => r@ == "unknown"@,
        },
{
    match state {
        Some(s) => s,
        None => String::from_str("unknown"),
    }
}

/// The concatenation of the log chunks, each decoded leniently, in delivery
/// order — stdout and stderr interleaved however the engine delivered them.
pub open spec fn logs_spec(chunks: Seq<Seq<u8>>) -> Seq<char>
    decreases chunks.len(),
{
    if chunks.len() == 0 {
        Seq::empty()
    } else {
        logs_spec(chunks.drop_last()) + utf8_lossy_of(chunks.last())
    }
}

/// Assemble the full log text from the delivered chunks.
pub fn assemble_logs(chunks: &Vec<Vec<u8>>) -> (r: String)
    ensures
        r@ == logs_spec(chunks@.map_values(|c: Vec<u8>| c@)),
{
    let ghost full = chunks@.map_values(|c: Vec<u8>| c@);
    let mut out = String::new();
    let mut i: usize = 0;
    proof {
        assert(full.take(0) =~= Seq::<Seq<u8>>::empty());
    }
    while i < chunks.len()
        invariant
            0 <= i <= chunks.len(),
            full == chunks@.map_values(|c: Vec<u8>| c@),
            full.len() == chunks@.len(),
            out@ == logs_spec(full.take(i as int)),
        decreases chunks.len() - i,
    {
        let piece = utf8_lossy(&chunks[i]);
        out.append(piece.as_str());
        proof {
            assert(full.take(i + 1).drop_last() =~= full.take(i as int));
            assert(full.take(i + 1).last() == full[i as int]);
        }
        i = i + 1;
    }
    proof {
        assert(full.take(chunks@.len() as int) =~= full);
    }
    out
}

} // verus!
