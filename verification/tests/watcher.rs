use taskkit::application::watcher::{
    is_relevant_event, ChangeKind, Debouncer, WatchAction, WatchInput, DEFAULT_DEBOUNCE_MS,
};

#[test]
fn test_is_relevant_event_create() {
    assert!(is_relevant_event(ChangeKind::Create));
}

#[test]
fn test_is_relevant_event_remove() {
    assert!(is_relevant_event(ChangeKind::Remove));
}

#[test]
fn test_is_relevant_event_modify() {
    assert!(is_relevant_event(ChangeKind::Modify));
}

#[test]
fn test_is_relevant_event_access() {
    assert!(!is_relevant_event(ChangeKind::Access));
}

#[test]
fn test_is_relevant_event_other() {
    assert!(!is_relevant_event(ChangeKind::Other));
    assert!(!is_relevant_event(ChangeKind::Any));
}

#[test]
fn debouncer_fires_once_after_a_burst() {
    let mut d = Debouncer::new(100, 0);
    assert_eq!(d.step(WatchInput::Event(ChangeKind::Create), 10), WatchAction::Continue);
    assert_eq!(d.step(WatchInput::Event(ChangeKind::Modify), 20), WatchAction::Continue);
    // Too soon after the start: nothing runs yet, the change stays pending.
    assert_eq!(d.step(WatchInput::Timeout, 50), WatchAction::Continue);
    assert!(d.pending);
    assert_eq!(d.step(WatchInput::Timeout, 150), WatchAction::RunCallback);
    assert!(!d.pending);
    assert_eq!(d.last_trigger_ms, 150);
    assert_eq!(d.step(WatchInput::Timeout, 400), WatchAction::Continue);
}

#[test]
fn debouncer_ignores_irrelevant_events_and_reports_errors() {
    let mut d = Debouncer::new(DEFAULT_DEBOUNCE_MS, 0);
    assert_eq!(d.step(WatchInput::Event(ChangeKind::Access), 10), WatchAction::Continue);
    assert_eq!(d.step(WatchInput::Timeout, 1_000), WatchAction::Continue);
    assert_eq!(d.step(WatchInput::Error, 1_001), WatchAction::ReportError);
    assert_eq!(d.step(WatchInput::Disconnected, 1_002), WatchAction::Stop);
    assert!(!d.pending);
    assert_eq!(DEFAULT_DEBOUNCE_MS, 500);
}
