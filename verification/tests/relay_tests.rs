use pty_core::relay::{relay_plan, ReadEvent};

#[test]
fn plan_delivers_each_chunk_once_in_order() {
    let events = vec![
        ReadEvent::Chunk(b"ab".to_vec()),
        ReadEvent::Chunk(b"cd".to_vec()),
        ReadEvent::Eof,
    ];
    assert_eq!(relay_plan(&events), vec!["ab".to_string(), "cd".to_string()]);
}

#[test]
fn plan_stops_at_read_error_without_forwarding() {
    let events = vec![
        ReadEvent::Chunk(b"first".to_vec()),
        ReadEvent::Failed,
        ReadEvent::Chunk(b"late".to_vec()),
    ];
    assert_eq!(relay_plan(&events), vec!["first".to_string()]);
}

#[test]
fn plan_of_no_events_is_empty() {
    let events: Vec<ReadEvent> = Vec::new();
    assert!(relay_plan(&events).is_empty());
}

#[test]
fn invalid_bytes_are_replaced_not_fatal() {
    let events = vec![ReadEvent::Chunk(vec![0xff, b'a']), ReadEvent::Eof];
    assert_eq!(relay_plan(&events), vec!["\u{FFFD}a".to_string()]);
}
