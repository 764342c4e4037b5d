use chat_module::chats::{
    chat_message, contains_str, display_message, intro_bundle_text, roster, sender_address,
    AppState, ChatSession, ConversationKind, Direction, DisplayMessage, LookupError,
    StoredMessage, PREVIEW_MAX_CHARS,
};
use chat_module::errors::CoreError;
use chat_module::events::Event;

#[test]
fn conversation_kind_uses_contract_strings() {
    assert_eq!(ConversationKind::Direct.as_str(), "direct");
    assert_eq!(ConversationKind::Group.as_str(), "group");
}

#[test]
fn a_stored_kind_word_reads_back_as_its_kind() {
    assert_eq!(ConversationKind::parse("direct"), Some(ConversationKind::Direct));
    assert_eq!(ConversationKind::parse("group"), Some(ConversationKind::Group));
    assert_eq!(ConversationKind::parse("Group"), None);
    assert_eq!(ConversationKind::parse(""), None);
    for k in [ConversationKind::Direct, ConversationKind::Group] {
        assert_eq!(ConversationKind::parse(k.as_str()), Some(k));
    }
}

fn state_with(ids: &[&str]) -> AppState {
    let mut s = AppState::new();
    for id in ids {
        s.record_created(id, ConversationKind::Direct, "", "", None);
    }
    s
}

#[test]
fn a_peer_opened_conversation_is_announced_once() {
    let mut s = AppState::new();
    let e = s.record_conversation_started("0123456789abcdef", ConversationKind::Group, Some("Book Club".into()), None);
    match e {
        Some(Event::ConversationCreated { convo_id, is_outgoing, peer_label, kind, name, description }) => {
            assert_eq!(convo_id, "0123456789abcdef");
            assert!(!is_outgoing);
            assert_eq!(peer_label, "01234567");
            assert_eq!(kind, ConversationKind::Group);
            assert_eq!(name, "Book Club");
            assert_eq!(description, "");
        }
        other => panic!("unexpected {other:?}"),
    }
    assert!(s
        .record_conversation_started("0123456789abcdef", ConversationKind::Group, None, None)
        .is_none());
    assert_eq!(s.chats.len(), 1);
    assert_eq!(s.chats[0].name.as_deref(), Some("Book Club"));
}

#[test]
fn deleting_a_chat_keeps_its_tombstone() {
    let mut s = state_with(&["c1", "c2"]);
    let e = s.delete_conversation("c1").unwrap();
    assert!(matches!(e, Event::ConversationDeleted { ref convo_id } if convo_id == "c1"));
    assert_eq!(s.chats.len(), 1);
    assert_eq!(s.chats[0].chat_id, "c2");
    assert!(s.is_deleted("c1"));
    assert_eq!(s.delete_conversation("c1").unwrap_err(), LookupError::NotFound);

    // Neither a peer's start nor an inbound message brings it back.
    assert!(s.record_conversation_started("c1", ConversationKind::Direct, None, None).is_none());
    assert!(s.record_message_received("c1", b"hi saro", "raya", "raya-device", 10).is_none());
    assert!(s.apply_received("c1", true, b"hi", 11).is_empty());
    assert!(s.record_members_changed("c1").is_none());
    assert_eq!(s.chats.len(), 1);
    assert_eq!(s.deleted, vec!["c1".to_string()]);
}

#[test]
fn nicknames_are_set_and_cleared() {
    let mut s = state_with(&["c1"]);
    let e = s.set_conversation_nickname("c1", "Raya").unwrap();
    assert!(matches!(e, Event::ConversationUpdated { ref convo_id } if convo_id == "c1"));
    assert_eq!(s.chats[0].nickname.as_deref(), Some("Raya"));
    s.set_conversation_nickname("c1", "").unwrap();
    assert_eq!(s.chats[0].nickname, None);
    assert_eq!(s.set_conversation_nickname("nope", "x").unwrap_err(), LookupError::NotFound);
}

#[test]
fn the_list_counts_every_message_and_previews_the_last() {
    let mut s = AppState::new();
    s.chats.push(ChatSession::loaded(
        "c1".into(),
        ConversationKind::Direct,
        Some("Saro".into()),
        None,
        None,
        Some("saro".into()),
        vec![DisplayMessage { from_self: false, content: "m9".into(), timestamp_ms: 900, sender: Some("saro".into()) }],
        10,
    ));
    let long: String = std::iter::repeat('x').take(PREVIEW_MAX_CHARS + 40).collect();
    s.record_sent("c1", &long, 1000);

    let list = s.list_conversations();
    assert_eq!(list.len(), 1);
    let c = &list[0];
    assert_eq!(c.convo_id, "c1");
    assert_eq!(c.nickname.as_deref(), Some("Saro"));
    assert_eq!(c.message_count, 11);
    assert_eq!(c.last_activity_ms, 1000);
    assert_eq!(c.kind, "direct");
    assert_eq!(c.preview.as_ref().map(|p| p.chars().count()), Some(PREVIEW_MAX_CHARS));
    assert!(!c.history_only);

    let empty = state_with(&["c2"]).list_conversations();
    assert_eq!(empty[0].message_count, 0);
    assert_eq!(empty[0].last_activity_ms, 0);
    assert_eq!(empty[0].preview, None);
}

#[test]
fn recorded_messages_read_back_in_order() {
    let mut s = state_with(&["convo-1"]);
    let (stored, e) = s.record_sent("convo-1", "hi raya", 5);
    assert_eq!(stored.direction, Direction::Sent);
    assert_eq!(stored.content, b"hi raya".to_vec());
    assert_eq!(stored.timestamp_ms, 5);
    assert!(matches!(e, Event::MessageSent { ref convo_id, ref content, timestamp_ms: 5 }
        if convo_id == "convo-1" && content == "hi raya"));

    let rec = s.record_message_received("convo-1", b"hi saro", "raya-account", "raya-device", 6).unwrap();
    assert!(rec.chat_changed, "a direct chat learns its peer from its first inbound message");
    assert_eq!(rec.message.sender_account.as_deref(), Some("raya-account"));
    assert_eq!(rec.message.sender_installation.as_deref(), Some("raya-device"));
    assert!(matches!(rec.event, Event::MessageReceived { is_new_convo: false, from_self: false, .. }));
    assert_eq!(s.chats[0].peer.as_deref(), Some("raya-account"));

    let msgs = s.get_messages("convo-1");
    assert_eq!(msgs.len(), 2);
    assert!(msgs[0].from_self);
    assert_eq!(msgs[0].content, "hi raya");
    assert_eq!(msgs[0].timestamp_ms, 5);
    assert!(!msgs[1].from_self);
    assert_eq!(msgs[1].content, "hi saro");
    assert_eq!(msgs[1].sender.as_deref(), Some("raya-account"));
    assert!(s.get_messages("unknown").is_empty());

    // A second inbound message changes nothing about the chat itself.
    let rec = s.record_message_received("convo-1", b"again", "other", "d", 7).unwrap();
    assert!(!rec.chat_changed);
    assert_eq!(s.chats[0].peer.as_deref(), Some("raya-account"));
}

#[test]
fn an_inbound_message_opens_an_unknown_direct_chat() {
    let mut s = AppState::new();
    let rec = s.record_message_received("new-1", &[0x68, 0xff], "saro", "laptop", 3).unwrap();
    assert!(rec.chat_changed);
    assert!(matches!(rec.event, Event::MessageReceived { is_new_convo: true, ref content, .. } if content == "h\u{FFFD}"));
    assert_eq!(s.chats.len(), 1);
    assert_eq!(s.chats[0].kind, ConversationKind::Direct);
}

#[test]
fn a_payload_for_a_new_conversation_announces_it_first() {
    let mut s = AppState::new();
    let events = s.apply_received("abcdefghijk", true, b"hello", 42);
    assert_eq!(events.len(), 2);
    assert!(matches!(&events[0], Event::ConversationCreated { convo_id, is_outgoing: false, peer_label, .. }
        if convo_id == "abcdefghijk" && peer_label == "abcdefgh"));
    assert!(matches!(&events[1], Event::MessageReceived { content, timestamp_ms: 42, is_new_convo: true, sender: None, .. }
        if content == "hello"));
    // An empty payload only announces.
    let events = s.apply_received("other", true, b"", 43);
    assert_eq!(events.len(), 1);
    // A known conversation is not announced again.
    let events = s.apply_received("abcdefghijk", true, b"more", 44);
    assert_eq!(events.len(), 1);
    assert_eq!(s.get_messages("abcdefghijk").len(), 2);
}

#[test]
fn opening_a_chat_records_its_opening_message() {
    let mut s = AppState::new();
    let e = s.record_opened("c9", "hello there", 77);
    assert!(matches!(e, Event::ConversationCreated { is_outgoing: true, kind: ConversationKind::Direct, .. }));
    let msgs = s.get_messages("c9");
    assert_eq!(msgs.len(), 1);
    assert!(msgs[0].from_self);
    assert_eq!(msgs[0].content, "hello there");
    s.record_opened("c8", "", 78);
    assert!(s.get_messages("c8").is_empty());
    assert_eq!(s.chats.len(), 2);
}

#[test]
fn a_created_group_keeps_its_name_and_description() {
    let mut s = AppState::new();
    let e = s.record_created("club", ConversationKind::Group, "Book Club", "Weekly reads", None);
    assert!(matches!(e, Event::ConversationCreated { ref name, ref description, kind: ConversationKind::Group, .. }
        if name == "Book Club" && description == "Weekly reads"));
    assert_eq!(s.chats[0].name.as_deref(), Some("Book Club"));
    assert_eq!(s.chats[0].description.as_deref(), Some("Weekly reads"));
    assert_eq!(s.list_conversations()[0].kind, "group");
}

#[test]
fn clearing_the_name_override_falls_back() {
    let mut s = AppState::new();
    assert_eq!(s.effective_installation_name("saro-laptop"), "saro-laptop");
    s.set_installation_name("desk");
    assert_eq!(s.effective_installation_name("saro-laptop"), "desk");
    s.set_installation_name("");
    assert_eq!(s.installation_name, None);
    assert_eq!(s.effective_installation_name("saro-laptop"), "saro-laptop");
}

#[test]
fn conversations_of_a_previous_session_are_history_only() {
    let mut s = state_with(&["old", "live"]);
    s.mark_history_only(&vec!["live".to_string()]);
    assert!(s.chats[0].history_only);
    assert!(!s.chats[1].history_only);
    assert_eq!(s.check_live("old"), Err(LookupError::HistoryOnly));
    assert_eq!(s.check_live("live"), Ok(()));
    assert_eq!(s.check_live("gone"), Err(LookupError::NotFound));
    assert!(s.list_conversations()[0].history_only);
}

#[test]
fn members_changed_is_announced_for_known_chats_only() {
    let s = state_with(&["g"]);
    assert!(matches!(s.record_members_changed("g"), Some(Event::MembersChanged { ref convo_id }) if convo_id == "g"));
    assert!(s.record_members_changed("h").is_none());
}

#[test]
fn the_roster_lists_members_then_pending_invites() {
    let r = roster(vec!["a".into(), "b".into()], vec!["c".into()]);
    assert_eq!(r.len(), 3);
    assert_eq!((r[0].address.as_str(), r[0].pending), ("a", false));
    assert_eq!((r[1].address.as_str(), r[1].pending), ("b", false));
    assert_eq!((r[2].address.as_str(), r[2].pending), ("c", true));
}

#[test]
fn stored_messages_display_their_text_and_sender() {
    let mut m: StoredMessage = chat_message("c", Direction::Received, 9, b"hi");
    assert_eq!(m.chat_id, "c");
    assert_eq!(m.convo_id, "c");
    m.sender_account = Some("raya".into());
    let d = display_message(&m);
    assert!(!d.from_self);
    assert_eq!(d.content, "hi");
    assert_eq!(d.timestamp_ms, 9);
    assert_eq!(d.sender.as_deref(), Some("raya"));
    let d = display_message(&chat_message("c", Direction::Sent, 1, &[0xc3]));
    assert!(d.from_self);
    assert_eq!(d.content, "\u{FFFD}");
}

#[test]
fn a_sender_is_its_account_else_the_device() {
    assert_eq!(sender_address(Some("raya"), "dev-1"), "raya");
    assert_eq!(sender_address(None, "dev-1"), "dev-1");
    assert!(contains_str(&vec!["a".into(), "b".into()], "b"));
    assert!(!contains_str(&vec!["a".into()], "c"));
}

#[test]
fn an_intro_bundle_must_be_text() {
    assert_eq!(intro_bundle_text(b"bundle".to_vec()).unwrap(), "bundle");
    match intro_bundle_text(vec![0xff]) {
        Err(CoreError::Internal(m)) => assert_eq!(m, "create_intro_bundle: bundle bytes are not UTF-8"),
        other => panic!("unexpected {other:?}"),
    }
}

#[test]
fn a_loaded_state_keeps_one_session_per_id_and_one_tombstone_each() {
    let mut s = AppState::new();
    let loaded = |id: &str| ChatSession::loaded(id.into(), ConversationKind::Direct, None, None, None, None, Vec::new(), 3);
    assert!(s.insert_loaded(loaded("a")));
    assert!(s.insert_loaded(loaded("b")));
    assert!(!s.insert_loaded(loaded("a")));
    assert_eq!(s.chats.len(), 2);
    assert_eq!(s.list_conversations()[0].message_count, 3);
    s.add_tombstone("gone".into());
    s.add_tombstone("gone".into());
    assert_eq!(s.deleted, vec!["gone".to_string()]);
    assert!(s.record_message_received("gone", b"x", "a", "d", 1).is_none());
}
