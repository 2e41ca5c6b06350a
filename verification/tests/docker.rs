use manage::docker::{
    assemble_logs, find_server_filters, parse_u16, removal_outcome, server_container_config,
    status_or_unknown, update_parameters, ServerContainer, ServerContainerParameters,
};
use manage::error::Error;

#[test]
fn removal_reports_partial_removal_when_the_volume_remains() {
    assert_eq!(removal_outcome(true, false), Err(Error::PartialRemoval));
}

#[test]
fn removal_classifies_the_other_outcomes() {
    assert_eq!(removal_outcome(true, true), Ok(()));
    assert_eq!(removal_outcome(false, true), Err(Error::EngineUnavailable));
    assert_eq!(removal_outcome(false, false), Err(Error::EngineUnavailable));
}

#[test]
fn port_parsing_matches_the_standard_shape() {
    assert_eq!(parse_u16("8080"), Some(8080));
    assert_eq!(parse_u16("+80"), Some(80));
    assert_eq!(parse_u16("007"), Some(7));
    assert_eq!(parse_u16("0"), Some(0));
    assert_eq!(parse_u16("65535"), Some(65535));
    assert_eq!(parse_u16("65536"), None);
    assert_eq!(parse_u16("99999999999999999999999"), None);
    assert_eq!(parse_u16(""), None);
    assert_eq!(parse_u16("+"), None);
    assert_eq!(parse_u16("12a"), None);
    assert_eq!(parse_u16("-1"), None);
}

fn labels(pairs: &[(&str, &str)]) -> Vec<(String, String)> {
    pairs
        .iter()
        .map(|(k, v)| (k.to_string(), v.to_string()))
        .collect()
}

#[test]
fn summary_with_all_labels_reads_back() {
    let ls = labels(&[
        ("name", "otter"),
        ("crt_path", "/etc/ssl/crt.pem"),
        ("key_path", "/etc/ssl/key.pem"),
        ("port", "443"),
    ]);
    let sc = ServerContainer::from_summary(Some("cid".to_string()), &ls).unwrap();
    assert_eq!(sc.id, "cid");
    assert_eq!(sc.name, "otter");
    assert_eq!(sc.crt_path, "/etc/ssl/crt.pem");
    assert_eq!(sc.key_path, "/etc/ssl/key.pem");
    assert_eq!(sc.port, 443);
}

#[test]
fn summary_missing_a_label_or_id_is_foreign() {
    let ls = labels(&[("name", "otter"), ("port", "443")]);
    assert!(ServerContainer::from_summary(Some("cid".to_string()), &ls).is_none());
    let full = labels(&[
        ("name", "otter"),
        ("crt_path", "c"),
        ("key_path", "k"),
        ("port", "not a port"),
    ]);
    assert!(ServerContainer::from_summary(Some("cid".to_string()), &full).is_none());
    let ok = labels(&[
        ("name", "otter"),
        ("crt_path", "c"),
        ("key_path", "k"),
        ("port", "1"),
    ]);
    assert!(ServerContainer::from_summary(None, &ok).is_none());
}

#[test]
fn create_configuration_is_fully_derived() {
    let p = ServerContainerParameters {
        crt_path: "/tls/crt.pem".to_string(),
        key_path: "/tls/key.pem".to_string(),
        port: 8443,
    };
    let c = server_container_config(&p, "otter");
    assert_eq!(c.image, "ghcr.io/mayo-dayo/app:0.2");
    assert_eq!(
        c.env,
        vec![
            "BUN_PORT=8443".to_string(),
            "MAYO_DATA_PATH=/mayo/.data".to_string(),
            "TLS_CRT_PATH=/mayo/.data/crt.pem".to_string(),
            "TLS_KEY_PATH=/mayo/.data/key.pem".to_string(),
        ]
    );
    assert_eq!(c.labels.len(), 5);
    assert_eq!(c.labels[0], ("name".to_string(), "otter".to_string()));
    assert_eq!(c.labels[1], ("version".to_string(), "0.2".to_string()));
    assert_eq!(c.labels[4], ("port".to_string(), "8443".to_string()));
    assert_eq!(c.mounts.len(), 3);
    assert_eq!(c.mounts[0].target, "/mayo/.data/crt.pem");
    assert!(c.mounts[0].read_only && !c.mounts[0].volume);
    assert_eq!(c.mounts[2].source, "mayo-otter");
    assert!(c.mounts[2].volume && !c.mounts[2].read_only);
    assert_eq!(c.network_mode, "host");
    assert!(c.restart_unless_stopped);
    assert_eq!(c.container_name, "mayo-otter");
}

#[test]
fn refresh_preserves_name_port_and_tls_material() {
    let sc = ServerContainer {
        id: "cid".to_string(),
        name: "otter".to_string(),
        crt_path: "/tls/crt.pem".to_string(),
        key_path: "/tls/key.pem".to_string(),
        port: 8443,
    };
    let p = update_parameters(&sc);
    assert_eq!(p.crt_path, sc.crt_path);
    assert_eq!(p.key_path, sc.key_path);
    assert_eq!(p.port, sc.port);
}

#[test]
fn listing_filters_select_this_tools_containers() {
    let f = find_server_filters();
    assert_eq!(f.len(), 2);
    assert_eq!(f[0].0, "ancestor");
    assert_eq!(f[0].1, vec!["ghcr.io/mayo-dayo/app:0.2".to_string()]);
    assert_eq!(f[1].0, "label");
    assert_eq!(
        f[1].1,
        vec!["version=0.2".to_string(), "name".to_string()]
    );
}

#[test]
fn missing_state_reads_as_unknown() {
    assert_eq!(status_or_unknown(None), "unknown");
    assert_eq!(status_or_unknown(Some("running".to_string())), "running");
}

#[test]
fn logs_concatenate_in_delivery_order() {
    let chunks = vec![b"hel".to_vec(), b"lo ".to_vec(), b"world".to_vec()];
    assert_eq!(assemble_logs(&chunks), "hello world");
    assert_eq!(assemble_logs(&Vec::new()), "");
}
