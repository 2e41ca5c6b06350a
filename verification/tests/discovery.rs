use manage::mayo::{
    assemble_servers, image_has_compatible_tag, plan_image_inspections, tool_phase_filter,
    tool_phase_keep, ResourceSummary,
};
use manage::parameters::{Authentication, Name, Parameters, Port, Tls};
use manage::versioning::Version;

fn labels(pairs: &[(&str, &str)]) -> Vec<(String, String)> {
    pairs
        .iter()
        .map(|(k, v)| (k.to_string(), v.to_string()))
        .collect()
}

fn encoded_params(name: &str) -> String {
    Parameters {
        name: Name(name.to_string()),
        version: Version {
            major: 0,
            minor: 3,
            patch: 1,
            pre: false,
        },
        port: Port(8080),
        authentication: Authentication(false),
        tls: Tls(None),
    }
    .encode_for_label()
}

fn summary(id: &str, image: &str, tool_version: &str, name: &str) -> ResourceSummary {
    ResourceSummary {
        id: Some(id.to_string()),
        image_id: Some(image.to_string()),
        state: Some("running".to_string()),
        labels: labels(&[
            ("mayo-cli-version", tool_version),
            ("mayo-parameters", &encoded_params(name)),
        ]),
    }
}

#[test]
fn tool_phase_excludes_a_far_future_tool_version() {
    let far = summary("a", "img", "9.9.9", "otter");
    assert!(!tool_phase_keep(&far));
    let ok = summary("b", "img", "0.1.5", "otter");
    assert!(tool_phase_keep(&ok));
    let unparsable = summary("c", "img", "latest", "otter");
    assert!(!tool_phase_keep(&unparsable));
    let absent = ResourceSummary {
        id: Some("d".to_string()),
        image_id: Some("img".to_string()),
        state: Some("running".to_string()),
        labels: Vec::new(),
    };
    assert!(!tool_phase_keep(&absent));
}

#[test]
fn tool_phase_filter_keeps_only_survivors() {
    let summaries = vec![
        summary("a", "img-1", "0.1.1", "otter"),
        summary("b", "img-2", "9.9.9", "weasel"),
        summary("c", "img-3", "0.1.5", "heron"),
    ];
    let survivors = tool_phase_filter(&summaries);
    let ids: Vec<&str> = survivors
        .iter()
        .map(|s| s.id.as_deref().unwrap())
        .collect();
    assert_eq!(ids, vec!["a", "c"]);
}

#[test]
fn image_compatibility_needs_one_matching_tag() {
    let mixed = vec![
        "ghcr.io/mayo-dayo/app:latest".to_string(),
        "ghcr.io/mayo-dayo/app:0.2.0".to_string(),
        "ghcr.io/mayo-dayo/app:0.3.7".to_string(),
    ];
    assert!(image_has_compatible_tag(&mixed));
    let none = vec![
        "ghcr.io/mayo-dayo/app:latest".to_string(),
        "ghcr.io/mayo-dayo/app:0.2.0".to_string(),
        "plain-repo-without-tag".to_string(),
    ];
    assert!(!image_has_compatible_tag(&none));
    assert!(!image_has_compatible_tag(&Vec::new()));
}

#[test]
fn inspection_plan_names_each_image_once() {
    let summaries = vec![
        summary("a", "img-1", "0.1.1", "otter"),
        summary("b", "img-1", "0.1.1", "weasel"),
        summary("c", "img-2", "0.1.1", "heron"),
        ResourceSummary {
            id: Some("d".to_string()),
            image_id: None,
            state: None,
            labels: Vec::new(),
        },
    ];
    let plan = plan_image_inspections(&summaries);
    assert_eq!(plan, vec!["img-1".to_string(), "img-2".to_string()]);
}

#[test]
fn discovery_keeps_only_fully_compatible_resources() {
    let summaries = vec![
        summary("keep", "good-img", "0.1.1", "otter"),
        summary("bad-tool", "good-img", "9.9.9", "weasel"),
        summary("bad-image", "stale-img", "0.1.1", "heron"),
        // no parameters label at all: excluded even though both phases pass
        ResourceSummary {
            id: Some("no-params".to_string()),
            image_id: Some("good-img".to_string()),
            state: Some("running".to_string()),
            labels: labels(&[("mayo-cli-version", "0.1.1")]),
        },
    ];
    let memo = vec![
        ("good-img".to_string(), true),
        ("stale-img".to_string(), false),
    ];
    let servers = assemble_servers(&summaries, &memo);
    assert_eq!(servers.len(), 1);
    assert_eq!(servers[0].id, "keep");
    assert_eq!(servers[0].state, "running");
    assert_eq!(servers[0].parameters.name.0, "otter");
    assert_eq!(servers[0].parameters.port.0, 8080);
}
