use chat_module::delivery::DeliveryStateKind;
use chat_module::events::{Event, EventQueue, CAPACITY};

fn updated(id: &str) -> Event {
    Event::ConversationUpdated { convo_id: id.to_string() }
}

#[test]
fn drain_to_json_clears_queue() {
    let mut q = EventQueue::new();
    q.push(updated("c1"));
    q.push(Event::DeliveryStateChanged {
        state: DeliveryStateKind::Online,
        detail: String::new(),
        adopted: false,
    });

    let arr = q.drain();
    assert_eq!(arr.len(), 2);
    assert!(matches!(&arr[0], Event::ConversationUpdated { convo_id } if convo_id == "c1"));
    assert!(matches!(
        &arr[1],
        Event::DeliveryStateChanged { state: DeliveryStateKind::Online, .. }
    ));
    assert_eq!(DeliveryStateKind::Online.as_str(), "online");

    // Queue is now drained.
    assert!(q.drain().is_empty());
}

#[test]
fn drain_empty_returns_empty_array() {
    let mut q = EventQueue::new();
    assert!(q.drain().is_empty());
}

#[test]
fn message_received_serialises_all_fields() {
    let mut q = EventQueue::new();
    q.push(Event::MessageReceived {
        convo_id: "abc".into(),
        from_self: false,
        content: "hi".into(),
        timestamp_ms: 1234,
        is_new_convo: true,
        sender: None,
    });
    let drained = q.drain();
    assert_eq!(drained.len(), 1);
    match &drained[0] {
        Event::MessageReceived { convo_id, from_self, content, timestamp_ms, is_new_convo, sender } => {
            assert_eq!(convo_id, "abc");
            assert!(!*from_self);
            assert_eq!(content, "hi");
            assert_eq!(*timestamp_ms, 1234);
            assert!(*is_new_convo);
            assert!(sender.is_none());
        }
        other => panic!("unexpected {other:?}"),
    }
}

#[test]
fn overflow_drops_oldest_and_reports_via_events_dropped() {
    let mut q = EventQueue::new();
    for i in 0..(CAPACITY + 3) {
        q.push(updated(&format!("c{i}")));
    }
    assert_eq!(q.len(), CAPACITY);
    assert_eq!(q.dropped(), 3);
    let arr = q.drain();
    // CAPACITY survivors + one EventsDropped at the head.
    assert_eq!(arr.len(), CAPACITY + 1);
    assert!(matches!(arr[0], Event::EventsDropped { count: 3 }));
    // Oldest survivor is c3 (c0..c2 were evicted).
    assert!(matches!(&arr[1], Event::ConversationUpdated { convo_id } if convo_id == "c3"));
    assert!(matches!(&arr[CAPACITY], Event::ConversationUpdated { convo_id } if *convo_id == format!("c{}", CAPACITY + 2)));

    // After drain, no further dropped count carries over.
    assert!(q.drain().is_empty());
    assert_eq!(q.dropped(), 0);
}

#[test]
fn the_last_push_is_the_last_drained() {
    let mut q = EventQueue::new();
    q.push(updated("a"));
    q.push(Event::ConversationDeleted { convo_id: "b".into() });
    let arr = q.drain();
    assert!(matches!(arr.last(), Some(Event::ConversationDeleted { convo_id }) if convo_id == "b"));
}

#[test]
fn a_queue_exactly_full_drops_nothing() {
    let mut q = EventQueue::new();
    for i in 0..CAPACITY {
        q.push(updated(&format!("c{i}")));
    }
    assert_eq!(q.dropped(), 0);
    let arr = q.drain();
    assert_eq!(arr.len(), CAPACITY);
    assert!(matches!(&arr[0], Event::ConversationUpdated { convo_id } if convo_id == "c0"));
}
