use chat_module::chats::{kind_for_class, ConversationClass, ConversationKind};
use chat_module::delivery::{
    connection_transition, content_topic_for, handle_connection_state, is_chat_topic,
    map_connection_status, set_delivery_state, DeliveryState, DeliveryStateKind, TOPIC_PREFIX,
};
use chat_module::events::Event;

#[test]
fn inbound_connection_status_maps_each_upstream_variant() {
    assert_eq!(map_connection_status("Connected"), DeliveryStateKind::Online);
    assert_eq!(map_connection_status("PartiallyConnected"), DeliveryStateKind::Online);
    assert_eq!(map_connection_status("Disconnected"), DeliveryStateKind::Error);
}

#[test]
fn inbound_connection_status_unknown_maps_to_error() {
    assert_eq!(map_connection_status(""), DeliveryStateKind::Error);
    assert_eq!(map_connection_status("Reconnecting"), DeliveryStateKind::Error);
}

#[test]
fn connectivity_ignored_until_started() {
    assert_eq!(connection_transition(DeliveryStateKind::Initialising, "Connected"), None);
    assert_eq!(connection_transition(DeliveryStateKind::Initialising, "Disconnected"), None);
}

#[test]
fn connectivity_drives_state_once_started() {
    assert_eq!(
        connection_transition(DeliveryStateKind::Online, "Disconnected"),
        Some(DeliveryStateKind::Error)
    );
    assert_eq!(
        connection_transition(DeliveryStateKind::Error, "Connected"),
        Some(DeliveryStateKind::Online)
    );
}

#[test]
fn class_maps_to_contract_kind() {
    assert_eq!(kind_for_class(ConversationClass::Private), ConversationKind::Direct);
    assert_eq!(kind_for_class(ConversationClass::Group), ConversationKind::Group);
}

#[test]
fn module_delivery_state_kind_serialises_to_lowercase() {
    assert_eq!(DeliveryStateKind::Initialising.as_str(), "initialising");
    assert_eq!(DeliveryStateKind::Online.as_str(), "online");
    assert_eq!(DeliveryStateKind::Error.as_str(), "error");
    assert_eq!(DeliveryStateKind::Stopped.as_str(), "stopped");
}

#[test]
fn fresh_delivery_states_carry_no_detail() {
    let init = DeliveryState::initialising();
    assert_eq!(init.state, DeliveryStateKind::Initialising);
    assert_eq!(init.detail, "");
    assert!(!init.adopted && !init.started);
    let stopped = DeliveryState::stopped();
    assert_eq!(stopped.state, DeliveryStateKind::Stopped);
    assert_eq!(stopped.detail, "");
}

#[test]
fn setting_the_same_state_twice_raises_one_event() {
    let mut d = DeliveryState::initialising();
    let first = set_delivery_state(&mut d, DeliveryStateKind::Error, "start failed");
    assert!(matches!(
        first,
        Some(Event::DeliveryStateChanged { state: DeliveryStateKind::Error, ref detail, adopted: false })
            if detail == "start failed"
    ));
    assert!(set_delivery_state(&mut d, DeliveryStateKind::Error, "start failed").is_none());
    // A new reason is a change.
    assert!(set_delivery_state(&mut d, DeliveryStateKind::Error, "other").is_some());
    assert_eq!(d.detail, "other");
}

#[test]
fn connectivity_while_initialising_changes_nothing() {
    let mut d = DeliveryState::initialising();
    assert!(handle_connection_state(&mut d, "Connected").is_none());
    assert_eq!(d.state, DeliveryStateKind::Initialising);
    d.state = DeliveryStateKind::Online;
    let e = handle_connection_state(&mut d, "Disconnected");
    assert!(e.is_some());
    assert_eq!(d.state, DeliveryStateKind::Error);
}

#[test]
fn topics_follow_the_chat_scheme() {
    assert_eq!(content_topic_for("abc"), "/logos-chat/1/abc/proto");
    assert!(is_chat_topic(&content_topic_for("abc")));
    assert!(is_chat_topic(TOPIC_PREFIX));
    assert!(!is_chat_topic("/waku/2/other"));
    assert!(!is_chat_topic("/logos-chat/2/abc/proto"));
}
