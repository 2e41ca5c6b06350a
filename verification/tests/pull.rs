use manage::pull::{ensure_image_step, EnsureImageStep, PullEvent, PullProgress};

fn event(id: Option<&str>, status: Option<&str>, current: Option<i64>, total: Option<i64>) -> PullEvent {
    PullEvent {
        id: id.map(|s| s.to_string()),
        status: status.map(|s| s.to_string()),
        current,
        total,
    }
}

#[test]
fn image_present_ends_the_loop_without_a_pull() {
    // first round: the cache misses, so the caller must pull and look again
    assert!(matches!(
        ensure_image_step(None),
        EnsureImageStep::PullAndRecheck
    ));
    // after the pull the image is visible and the loop ends with its id;
    // a later call that sees the image immediately never pulls at all
    match ensure_image_step(Some("sha256:abc".to_string())) {
        EnsureImageStep::Done(id) => assert_eq!(id, "sha256:abc"),
        EnsureImageStep::PullAndRecheck => panic!("image was present"),
    }
}

#[test]
fn progress_tracks_a_layer_from_download_to_finish() {
    let mut progress = PullProgress::new();
    let first = progress.on_event(&event(Some("layer-1"), Some("Downloading"), Some(5), Some(10)));
    assert!(first.new_layer);
    assert_eq!(first.set_message, Some("layer-1: Downloading".to_string()));
    assert_eq!(first.finish_message, None);
    assert_eq!(first.set_position, Some(5));
    assert_eq!(first.set_length, Some(10));
}

#[test]
fn byte_counts_are_screened_before_use() {
    let mut progress = PullProgress::new();
    // a zero or negative total must not set a length, and a negative current
    // must not set a position
    let zero_total = progress.on_event(&event(Some("a"), None, Some(-1), Some(0)));
    assert_eq!(zero_total.set_length, None);
    assert_eq!(zero_total.set_position, None);
    let negative_total = progress.on_event(&event(Some("a"), None, Some(7), Some(-5)));
    assert_eq!(negative_total.set_length, None);
    assert_eq!(negative_total.set_position, Some(7));
    let usable = progress.on_event(&event(Some("a"), None, Some(0), Some(12)));
    assert_eq!(usable.set_length, Some(12));
    assert_eq!(usable.set_position, Some(0));
}

#[test]
fn a_terminal_status_finalizes_with_its_message() {
    let mut progress = PullProgress::new();
    let _ = progress.on_event(&event(Some("layer-1"), Some("Downloading"), None, None));
    let done = progress.on_event(&event(Some("layer-1"), Some("Pull complete"), None, None));
    assert!(!done.new_layer);
    assert_eq!(done.finish_message, Some("layer-1: Pull complete".to_string()));
    assert_eq!(done.set_message, None);
}

#[test]
fn a_layer_is_finalized_exactly_once() {
    let mut progress = PullProgress::new();
    let _ = progress.on_event(&event(Some("layer-1"), Some("Download complete"), None, None));
    // the engine may repeat terminal statuses; the indicator must not be
    // finalized a second time
    let again = progress.on_event(&event(Some("layer-1"), Some("Already exists"), None, None));
    assert_eq!(again.finish_message, None);
    assert_eq!(again.set_message, None);
}

#[test]
fn events_without_a_layer_change_nothing() {
    let mut progress = PullProgress::new();
    let instr = progress.on_event(&event(None, Some("Pulling from library"), None, None));
    assert!(!instr.new_layer);
    assert_eq!(instr.finish_message, None);
    assert_eq!(instr.set_message, None);
    assert_eq!(instr.set_length, None);
    assert_eq!(instr.set_position, None);
}

#[test]
fn layers_are_tracked_independently() {
    let mut progress = PullProgress::new();
    let _ = progress.on_event(&event(Some("a"), Some("Download complete"), None, None));
    let b = progress.on_event(&event(Some("b"), Some("Downloading"), None, None));
    assert!(b.new_layer);
    let b_done = progress.on_event(&event(Some("b"), Some("Pull complete"), None, None));
    assert_eq!(b_done.finish_message, Some("b: Pull complete".to_string()));
}
