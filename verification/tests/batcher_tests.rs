use diald::{EventBatcher, SemanticEvent, count_labels};

#[test]
fn label_names() {
    assert_eq!(SemanticEvent::Click.name(), "click");
}

#[test]
fn batch_coalesces_clicks_in_one_window() {
    let mut b = EventBatcher::new(250);
    b.push(SemanticEvent::Click, 1000);
    b.push(SemanticEvent::Click, 1100);
    b.push(SemanticEvent::Click, 1200);
    // The window opened at the first push; it has not elapsed yet.
    assert!(b.try_flush(1249).is_none());
    // Once it elapses, the whole burst drains at once and counts as a
    // single entry.
    let drained = b.try_flush(1250).expect("window elapsed");
    assert_eq!(drained.len(), 3);
    let counts = count_labels(&drained);
    assert_eq!(counts, vec![(SemanticEvent::Click, 3)]);
    // The batcher is empty again.
    assert!(b.try_flush(2000).is_none());
}

#[test]
fn window_is_fixed_not_sliding() {
    let mut b = EventBatcher::new(250);
    b.push(SemanticEvent::Click, 1000);
    // A push near the end of the window does not extend it.
    b.push(SemanticEvent::Click, 1240);
    let drained = b.try_flush(1250).expect("window measured from first push");
    assert_eq!(drained.len(), 2);
}

#[test]
fn flush_without_pushes_returns_nothing() {
    let mut b = EventBatcher::new(250);
    assert!(b.try_flush(0).is_none());
    assert!(b.try_flush(u64::MAX).is_none());
}

#[test]
fn new_window_opens_after_drain() {
    let mut b = EventBatcher::new(250);
    b.push(SemanticEvent::Click, 0);
    assert_eq!(b.try_flush(250).expect("elapsed").len(), 1);
    b.push(SemanticEvent::Click, 300);
    assert!(b.try_flush(500).is_none()); // new window runs to 550
    assert_eq!(b.try_flush(550).expect("elapsed").len(), 1);
}

#[test]
fn flush_before_window_opened_time_is_nothing() {
    // A clock that runs backwards counts as zero elapsed time.
    let mut b = EventBatcher::new(250);
    b.push(SemanticEvent::Click, 1000);
    assert!(b.try_flush(900).is_none());
    assert!(b.try_flush(1250).is_some());
}

#[test]
fn count_labels_of_empty_batch() {
    let drained: Vec<SemanticEvent> = Vec::new();
    assert_eq!(count_labels(&drained), vec![]);
}
