use httpmate_core::tee::{BodyEvent, CaptureGuard, CapturedBody};

/// Stream a body through a guard, as one frame, to its end.
fn stream(limit: usize, body: &[u8]) -> (Vec<u8>, CapturedBody) {
    let mut guard = CaptureGuard::new(limit);
    let mut collected = Vec::new();
    assert!(guard.observe(BodyEvent::Data(body)).is_none());
    collected.extend_from_slice(body);
    (collected, guard.observe(BodyEvent::End).unwrap())
}

#[test]
fn captures_full_body() {
    let (collected, cap) = stream(1024, b"hello world");
    assert_eq!(&collected[..], b"hello world");
    assert_eq!(cap.bytes, b"hello world");
    assert_eq!(cap.total, 11);
    assert!(cap.completed);
    assert!(!cap.truncated);
}

#[test]
fn truncates_beyond_cap_but_streams_everything() {
    let payload = vec![7u8; 100];
    let (collected, cap) = stream(10, &payload);
    assert_eq!(collected.len(), 100, "full body must still flow through");
    assert_eq!(cap.bytes.len(), 10);
    assert_eq!(cap.total, 100);
    assert!(cap.truncated);
    assert!(cap.completed);
}

#[test]
fn drop_delivers_partial_capture() {
    let mut guard = CaptureGuard::new(1024);
    let cap = guard.observe(BodyEvent::Dropped).unwrap();
    assert!(!cap.completed);
    assert!(cap.bytes.is_empty());
}

#[test]
fn drop_in_the_middle_delivers_what_flowed() {
    let mut guard = CaptureGuard::new(1024);
    assert!(guard.observe(BodyEvent::Data(b"hello ")).is_none());
    assert!(guard.observe(BodyEvent::Data(b"world")).is_none());
    let cap = guard.observe(BodyEvent::Dropped).unwrap();
    assert_eq!(cap.bytes, b"hello world");
    assert_eq!(cap.total, 11);
    assert!(!cap.completed);
}

#[test]
fn a_capture_is_handed_over_once() {
    let mut guard = CaptureGuard::new(4);
    assert!(guard.observe(BodyEvent::Data(b"ab")).is_none());
    assert!(guard.observe(BodyEvent::Other).is_none());
    let cap = guard.observe(BodyEvent::Failed).unwrap();
    assert_eq!(cap.bytes, b"ab");
    assert!(!cap.completed);
    assert!(guard.observe(BodyEvent::End).is_none());
    assert!(guard.finish(true).is_none());
}

#[test]
fn a_body_of_exactly_the_cap_is_whole() {
    let mut guard = CaptureGuard::new(4);
    guard.push(b"ab");
    guard.push(b"cd");
    guard.push(b"");
    let cap = guard.finish(true).unwrap();
    assert_eq!(cap.bytes, b"abcd");
    assert!(!cap.truncated);

    let mut guard = CaptureGuard::new(4);
    guard.push(b"ab");
    guard.push(b"cde");
    let cap = guard.finish(true).unwrap();
    assert_eq!(cap.bytes, b"abcd");
    assert_eq!(cap.total, 5);
    assert!(cap.truncated);
}

#[test]
fn nothing_captured_by_default() {
    let cap = CapturedBody::default();
    assert!(cap.bytes.is_empty());
    assert_eq!(cap.total, 0);
    assert!(!cap.truncated);
    assert!(!cap.completed);
}
