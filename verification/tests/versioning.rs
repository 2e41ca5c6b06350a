use manage::versioning::{
    current_cli_version, get_latest_compatible_app_version, is_compatible_cli_version,
    tags_to_compatible_app_versions, version_le_exec, Version,
};

fn tags(values: &[&str]) -> Vec<String> {
    values.iter().map(|s| s.to_string()).collect()
}

#[test]
fn filter_keeps_only_workload_compatible_versions() {
    let input = tags(&[
        "0.2.9",
        "0.3.0",
        "junk",
        "v0.3.5",
        "1.0.0",
        "0.3.1-beta.1",
        "0.4.2",
    ]);
    let got = tags_to_compatible_app_versions(&input);
    // unparsable tags are dropped; pre-releases and other majors are excluded;
    // under the caret rule every minor at or above the contract's survives
    assert_eq!(got.len(), 2);
    assert_eq!(
        (got[0].major, got[0].minor, got[0].patch, got[0].pre),
        (0, 3, 0, false)
    );
    assert_eq!(
        (got[1].major, got[1].minor, got[1].patch, got[1].pre),
        (0, 4, 2, false)
    );
}

#[test]
fn filter_of_empty_listing_is_empty() {
    let got = tags_to_compatible_app_versions(&Vec::new());
    assert!(got.is_empty());
}

#[test]
fn latest_compatible_version_picks_the_maximum() {
    let input = tags(&["0.2.9", "0.3.0", "0.3.1", "1.0.0"]);
    let got = get_latest_compatible_app_version(&input).unwrap();
    assert_eq!((got.major, got.minor, got.patch, got.pre), (0, 3, 1, false));
}

#[test]
fn latest_compatible_version_of_no_match_is_none() {
    let input = tags(&["0.2.9", "1.0.0", "garbage"]);
    assert!(get_latest_compatible_app_version(&input).is_none());
}

#[test]
fn current_tool_version_is_fixed() {
    let v = current_cli_version();
    assert_eq!((v.major, v.minor, v.patch, v.pre), (0, 1, 1, false));
}

#[test]
fn tool_compatibility_follows_the_caret_contract() {
    assert!(is_compatible_cli_version(&current_cli_version()));
    let far = Version {
        major: 9,
        minor: 9,
        patch: 9,
        pre: false,
    };
    assert!(!is_compatible_cli_version(&far));
    let old_minor = Version {
        major: 0,
        minor: 0,
        patch: 9,
        pre: false,
    };
    assert!(!is_compatible_cli_version(&old_minor));
    let pre = Version {
        major: 0,
        minor: 1,
        patch: 1,
        pre: true,
    };
    assert!(!is_compatible_cli_version(&pre));
}

#[test]
fn version_order_puts_prerelease_below_release() {
    let pre = Version {
        major: 0,
        minor: 3,
        patch: 1,
        pre: true,
    };
    let rel = Version {
        major: 0,
        minor: 3,
        patch: 1,
        pre: false,
    };
    assert!(version_le_exec(&pre, &rel));
    assert!(!version_le_exec(&rel, &pre));
    let lower = Version {
        major: 0,
        minor: 2,
        patch: 9,
        pre: false,
    };
    assert!(version_le_exec(&lower, &rel));
}
