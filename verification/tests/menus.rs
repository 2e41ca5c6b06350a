use manage::error::Error;
use manage::inquire::{
    get_server_container_actions, select_invites_action, select_server_container_action,
};
use manage::mayo::{instance_volume_name, server_create_config};
use manage::parameters::{Authentication, Name, Parameters, Port, Tls};
use manage::registry::{resolve_image, token_url, tags_url, version_tag};
use manage::versioning::Version;

#[test]
fn actions_depend_on_the_container_state() {
    assert_eq!(
        get_server_container_actions("running"),
        vec!["Update", "View logs", "Manage invites", "Restart", "Stop", "Delete"]
    );
    assert_eq!(
        get_server_container_actions("exited"),
        vec!["Update", "View logs", "Start", "Delete"]
    );
    assert_eq!(
        get_server_container_actions("paused"),
        vec!["Update", "View logs", "Start", "Delete"]
    );
    assert_eq!(
        get_server_container_actions("restarting"),
        vec!["Update", "View logs", "Delete"]
    );
}

#[test]
fn container_menu_selection_resolves_by_index() {
    assert_eq!(
        select_server_container_action("running", Some(0)),
        Some("Update".to_string())
    );
    assert_eq!(
        select_server_container_action("running", Some(6)),
        Some("Go back".to_string())
    );
    assert_eq!(select_server_container_action("running", Some(7)), None);
    assert_eq!(select_server_container_action("running", None), None);
}

#[test]
fn invite_menu_selection_resolves_by_index() {
    assert_eq!(select_invites_action(Some(0)), Some("Create".to_string()));
    assert_eq!(select_invites_action(Some(3)), Some("Go back".to_string()));
    assert_eq!(select_invites_action(Some(4)), None);
    assert_eq!(select_invites_action(None), None);
}

#[test]
fn image_references_format_deterministically() {
    let v = Version {
        major: 0,
        minor: 3,
        patch: 12,
        pre: false,
    };
    assert_eq!(version_tag(&v), "0.3.12");
    assert_eq!(resolve_image(&v), "ghcr.io/mayo-dayo/app:0.3.12");
}

#[test]
fn registry_endpoints_are_fixed() {
    assert_eq!(
        token_url(),
        "https://ghcr.io/token?scope=repository:mayo-dayo/app:pull"
    );
    assert_eq!(tags_url(), "https://ghcr.io/v2/mayo-dayo/app/tags/list");
}

#[test]
fn error_messages_name_the_failure() {
    assert_eq!(Error::RemoteExecutionDetached.message(), "exec process detached");
    assert_eq!(
        Error::PartialRemoval.message(),
        "container removed but volume removal failed"
    );
    assert_eq!(
        Error::EngineUnavailable.message(),
        "failed to reach the container engine"
    );
    assert_eq!(
        Error::RegistryUnavailable.message(),
        "failed to reach the registry"
    );
    assert_eq!(
        Error::ImageResolutionExhausted.message(),
        "pulled image did not become visible"
    );
    assert_eq!(
        Error::MalformedRemoteOutput.message(),
        "failed to parse remote output"
    );
}

#[test]
fn instance_create_config_encodes_everything() {
    let p = Parameters {
        name: Name("otter".to_string()),
        version: Version {
            major: 0,
            minor: 3,
            patch: 1,
            pre: false,
        },
        port: Port(8443),
        authentication: Authentication(true),
        tls: Tls(Some(("CRT".to_string(), "KEY".to_string()))),
    };
    let c = server_create_config(&p, "sha256:abc".to_string());
    assert_eq!(c.image, "sha256:abc");
    assert_eq!(c.labels.len(), 2);
    assert_eq!(c.labels[0].0, "mayo-cli-version");
    assert_eq!(c.labels[0].1, "0.1.1");
    assert_eq!(c.labels[1].0, "mayo-parameters");
    assert_eq!(c.labels[1].1, p.encode_for_label());
    assert_eq!(
        c.env,
        vec![
            "BUN_PORT=8443".to_string(),
            "MAYO_DATA_PATH=/mayo/.data".to_string(),
            "MAYO_TLS_CRT=CRT".to_string(),
            "MAYO_TLS_KEY=KEY".to_string(),
            "MAYO_AUTHENTICATION=required".to_string(),
        ]
    );
    assert_eq!(c.mounts.len(), 1);
    assert_eq!(c.mounts[0].source, "mayo-otter-volume");
    assert_eq!(c.mounts[0].target, "/mayo/.data");
    assert_eq!(c.container_name, "mayo-otter");
    assert_eq!(c.network_mode, "host");
    assert!(c.restart_unless_stopped);
}

#[test]
fn instance_create_config_without_tls_or_authentication() {
    let p = Parameters {
        name: Name("heron".to_string()),
        version: Version {
            major: 0,
            minor: 3,
            patch: 0,
            pre: false,
        },
        port: Port(80),
        authentication: Authentication(false),
        tls: Tls(None),
    };
    let c = server_create_config(&p, "img".to_string());
    assert_eq!(
        c.env,
        vec!["BUN_PORT=80".to_string(), "MAYO_DATA_PATH=/mayo/.data".to_string()]
    );
    assert_eq!(instance_volume_name("heron"), "mayo-heron-volume");
}
