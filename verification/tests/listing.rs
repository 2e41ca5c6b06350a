use manage::parameters::{Authentication, Name, Parameters, Port, Tls};
use manage::server::{sort_servers, Server};
use manage::versioning::Version;

fn server(id: &str, name: &str) -> Server {
    Server {
        id: id.to_string(),
        state: "running".to_string(),
        parameters: Parameters {
            name: Name(name.to_string()),
            version: Version {
                major: 0,
                minor: 3,
                patch: 0,
                pre: false,
            },
            port: Port(80),
            authentication: Authentication(false),
            tls: Tls(None),
        },
    }
}

#[test]
fn listing_sorts_by_instance_name() {
    let input = vec![server("1", "cedar"), server("2", "alder"), server("3", "birch")];
    let sorted = sort_servers(input);
    let names: Vec<&str> = sorted
        .iter()
        .map(|s| s.parameters.name.0.as_str())
        .collect();
    assert_eq!(names, vec!["alder", "birch", "cedar"]);
}

#[test]
fn instance_identity_is_the_engine_id() {
    let a = server("same-id", "alder");
    let mut b = server("same-id", "birch");
    assert!(a == b);
    b.id = "other-id".to_string();
    assert!(a != b);
}

#[test]
fn sorting_keeps_duplicate_names() {
    let input = vec![server("1", "alder"), server("2", "alder")];
    let sorted = sort_servers(input);
    assert_eq!(sorted.len(), 2);
    assert!(sorted.iter().any(|s| s.id == "1"));
    assert!(sorted.iter().any(|s| s.id == "2"));
}

#[test]
fn server_reads_back_from_a_listing_entry() {
    let params = Parameters {
        name: Name("otter".to_string()),
        version: Version {
            major: 0,
            minor: 3,
            patch: 2,
            pre: false,
        },
        port: Port(8443),
        authentication: Authentication(true),
        tls: Tls(None),
    };
    let labels = vec![
        ("mayo-cli-version".to_string(), "0.1.1".to_string()),
        ("mayo-parameters".to_string(), params.encode_for_label()),
    ];
    let s = Server::from_summary(
        Some("cid".to_string()),
        Some("exited".to_string()),
        &labels,
    )
    .unwrap();
    assert_eq!(s.id, "cid");
    assert_eq!(s.state, "exited");
    assert_eq!(s.parameters.name.0, "otter");
    assert_eq!(s.parameters.port.0, 8443);
    assert!(s.parameters.authentication.0);
}

#[test]
fn server_without_decodable_parameters_is_foreign() {
    let labels = vec![("mayo-parameters".to_string(), "gibberish".to_string())];
    assert!(Server::from_summary(
        Some("cid".to_string()),
        Some("running".to_string()),
        &labels
    )
    .is_none());
    assert!(Server::from_summary(
        Some("cid".to_string()),
        Some("running".to_string()),
        &Vec::new()
    )
    .is_none());
}
