use appmanager::task::{CancellationToken, ProgressChannel, TaskProgress};

#[test]
fn clones_observe_the_same_process_local_state() {
    let first = CancellationToken::default();
    let second = first.clone();
    second.cancel();
    assert!(first.is_cancelled());
    first.reset();
    assert!(!second.is_cancelled());
}

#[test]
fn progress_is_coalesced_to_the_latest_value() {
    let channel = ProgressChannel::default();
    channel.publish(TaskProgress {
        current: 1,
        ..TaskProgress::default()
    });
    channel.publish(TaskProgress {
        current: 2,
        ..TaskProgress::default()
    });
    assert_eq!(channel.take().unwrap().current, 2);
    assert!(channel.take().is_none());
}

#[test]
fn a_new_token_is_not_cancelled() {
    let token = CancellationToken::default();
    assert!(!token.is_cancelled());
    token.cancel();
    token.cancel();
    assert!(token.is_cancelled());
}

#[test]
fn cleared_progress_is_not_observed_by_any_clone() {
    let channel = ProgressChannel::default();
    let other = channel.clone();
    channel.publish(TaskProgress {
        phase: "download".to_owned(),
        ..TaskProgress::default()
    });
    other.clear();
    assert!(channel.take().is_none());
    other.publish(TaskProgress {
        total: 9,
        ..TaskProgress::default()
    });
    assert_eq!(channel.take().unwrap().total, 9);
}
