//! The conversation history the module keeps for its consumers: one session
//! per conversation, the messages it holds, and the tombstones of those
//! deleted locally.

use vstd::prelude::*;
use vstd::string::*;
use vstd::utf8::{decode_utf8, encode_utf8, valid_utf8};

use crate::events::Event;
use crate::text::{
    copy_opt, first_chars, non_empty, non_empty_spec, opt_view, own, short_label, str_eq,
    take_chars,
};
use crate::utf8::{spec_utf8_lossy, utf8_lossy};

verus! {

broadcast use {vstd::utf8::encode_utf8_decode_utf8, vstd::utf8::encode_utf8_valid_utf8};

/// Character cap for a conversation-list preview.
pub const PREVIEW_MAX_CHARS: usize = 160;

/// Whether a conversation is pairwise or a group.
#[derive(Debug, Clone, Copy, PartialEq, Eq, Structural)]
pub enum ConversationKind {
    Direct,
    Group,
}

/// The contract word of each kind.
pub open spec fn kind_word(k: ConversationKind) -> Seq<char> {
    match k {
        ConversationKind::Direct => "direct"@,
        ConversationKind::Group => "group"@,
    }
}

/// The kind a stored word names, if any.
pub open spec fn kind_of_word(w: Seq<char>) -> Option<ConversationKind> {
    if w == "direct"@ {
        Some(ConversationKind::Direct)
    } else if w == "group"@ {
        Some(ConversationKind::Group)
    } else {
        None
    }
}

impl ConversationKind {
    /// The contract wire string (`"direct"` / `"group"`).
    pub fn as_str(self) -> (r: &'static str)
        ensures
            r@ == kind_word(self),
    {
        match self {
            ConversationKind::Direct => "direct",
            ConversationKind::Group => "group",
        }
    }

    /// The kind a stored word names; `None` for any other word.
    pub fn parse(word: &str) -> (r: Option<ConversationKind>)
        ensures
            r == kind_of_word(word@),
    {
        if str_eq(word, "direct") {
            Some(ConversationKind::Direct)
        } else if str_eq(word, "group") {
            Some(ConversationKind::Group)
        } else {
            None
        }
    }
}

/// A word names a kind exactly when it is that kind's contract word.
pub proof fn lemma_kind_word_round_trip(k: ConversationKind, w: Seq<char>)
    ensures
        kind_of_word(kind_word(k)) == Some(k),
        kind_of_word(w) matches Some(j) ==> kind_word(j) == w,
{
    reveal_strlit("direct");
    reveal_strlit("group");
    assert("direct"@ != "group"@) by {
        assert("direct"@.len() != "group"@.len());
    }
}

/// libchat's display class of a conversation.
#[derive(Debug, Clone, Copy, PartialEq, Eq, Structural)]
pub enum ConversationClass {
    Private,
    Group,
}

/// The contract kind of a display class: the pairwise shape is `direct`, a
/// group is `group`.
pub fn kind_for_class(class: ConversationClass) -> (r: ConversationKind)
    ensures
        class == ConversationClass::Private ==> r == ConversationKind::Direct,
        class == ConversationClass::Group ==> r == ConversationKind::Group,
{
    match class {
        ConversationClass::Private => ConversationKind::Direct,
        ConversationClass::Group => ConversationKind::Group,
    }
}

/// Whether a stored message went out from here or came in.
#[derive(Debug, Clone, Copy, PartialEq, Eq, Structural)]
pub enum Direction {
    Sent,
    Received,
}

/// A message as the message store keeps it.
#[derive(Debug)]
pub struct StoredMessage {
    pub chat_id: String,
    pub convo_id: String,
    pub direction: Direction,
    pub sender_account: Option<String>,
    pub sender_installation: Option<String>,
    pub message_id: Option<String>,
    pub timestamp_ms: i64,
    pub content: Vec<u8>,
}

/// A single rendered message in a conversation's history.
#[derive(Debug)]
pub struct DisplayMessage {
    /// This installation produced it.
    pub from_self: bool,
    /// The text as typed or as decrypted.
    pub content: String,
    /// When it was recorded locally.
    pub timestamp_ms: u64,
    /// The sender's account; `None` on messages sent from here.
    pub sender: Option<String>,
}

/// A rendered message as the contracts speak of it.
pub struct MessageView {
    pub from_self: bool,
    pub content: Seq<char>,
    pub timestamp_ms: u64,
    pub sender: Option<Seq<char>>,
}

impl View for DisplayMessage {
    type V = MessageView;

    open spec fn view(&self) -> MessageView {
        MessageView {
            from_self: self.from_self,
            content: self.content@,
            timestamp_ms: self.timestamp_ms,
            sender: opt_view(self.sender),
        }
    }
}

/// The message as `get_messages` shows it: sent from here exactly when its
/// direction is `Sent`, its bytes read as text, its sender named by account.
pub open spec fn display_spec(m: StoredMessage) -> MessageView {
    MessageView {
        from_self: m.direction == Direction::Sent,
        content: spec_utf8_lossy(m.content@),
        timestamp_ms: m.timestamp_ms as u64,
        sender: opt_view(m.sender_account),
    }
}

/// A stored message as `get_messages` shows it, its sender named by account.
pub fn display_message(message: &StoredMessage) -> (r: DisplayMessage)
    ensures
        r@ == display_spec(*message),
        valid_utf8(message.content@) ==> r.content@ == decode_utf8(message.content@),
{
    let content = utf8_lossy(message.content.as_slice());
    DisplayMessage {
        from_self: message.direction == Direction::Sent,
        content,
        timestamp_ms: message.timestamp_ms as u64,
        sender: copy_opt(&message.sender_account),
    }
}

/// A message of the conversation `convo_id`, recorded in the chat of the same
/// id: each conversation is its own chat.
pub fn chat_message(convo_id: &str, direction: Direction, timestamp_ms: u64, content: &[u8]) -> (r:
    StoredMessage)
    ensures
        r.chat_id@ == convo_id@,
        r.convo_id@ == convo_id@,
        r.direction == direction,
        r.sender_account is None,
        r.sender_installation is None,
        r.message_id is None,
        r.timestamp_ms == timestamp_ms as i64,
        r.content@ == content@,
{
    StoredMessage {
        chat_id: own(convo_id),
        convo_id: own(convo_id),
        direction,
        sender_account: None,
        sender_installation: None,
        message_id: None,
        timestamp_ms: timestamp_ms as i64,
        content: vstd::slice::slice_to_vec(content),
    }
}

/// Per-conversation state held alongside libchat's cryptographic state.
#[derive(Debug)]
pub struct ChatSession {
    /// libchat conversation id.
    pub chat_id: String,
    /// User-set display label.
    pub nickname: Option<String>,
    pub kind: ConversationKind,
    /// A group's shared name.
    pub name: Option<String>,
    /// A group's shared description.
    pub description: Option<String>,
    /// A direct conversation's other side.
    pub peer: Option<String>,
    /// Append-only log of the messages exchanged.
    pub messages: Vec<DisplayMessage>,
    /// Messages the store holds before `messages`, not loaded.
    pub older_messages: usize,
    /// From a previous session and kept for its history only.
    pub history_only: bool,
}

/// A session as the contracts speak of it: its fields, its messages by their
/// views.
pub struct SessionView {
    pub chat_id: Seq<char>,
    pub nickname: Option<Seq<char>>,
    pub kind: ConversationKind,
    pub name: Option<Seq<char>>,
    pub description: Option<Seq<char>>,
    pub peer: Option<Seq<char>>,
    pub messages: Seq<MessageView>,
    pub older_messages: nat,
    pub history_only: bool,
}

impl View for ChatSession {
    type V = SessionView;

    open spec fn view(&self) -> SessionView {
        SessionView {
            chat_id: self.chat_id@,
            nickname: opt_view(self.nickname),
            kind: self.kind,
            name: opt_view(self.name),
            description: opt_view(self.description),
            peer: opt_view(self.peer),
            messages: self.messages@.map_values(|m: DisplayMessage| m@),
            older_messages: self.older_messages as nat,
            history_only: self.history_only,
        }
    }
}

/// A fresh session with no messages.
pub open spec fn fresh_session(
    chat_id: Seq<char>,
    kind: ConversationKind,
    name: Option<Seq<char>>,
    description: Option<Seq<char>>,
    peer: Option<Seq<char>>,
) -> SessionView {
    SessionView {
        chat_id,
        nickname: None,
        kind,
        name,
        description,
        peer,
        messages: Seq::empty(),
        older_messages: 0,
        history_only: false,
    }
}

impl ChatSession {
    /// A fresh session of this session with no messages.
    pub fn new(
        chat_id: String,
        kind: ConversationKind,
        name: Option<String>,
        description: Option<String>,
        peer: Option<String>,
    ) -> (r: ChatSession)
        ensures
            r@ == fresh_session(chat_id@, kind, opt_view(name), opt_view(description), opt_view(peer)),
    {
        let r = ChatSession {
            chat_id,
            nickname: None,
            kind,
            name,
            description,
            peer,
            messages: Vec::new(),
            older_messages: 0,
            history_only: false,
        };
        assert(r@.messages =~= Seq::<MessageView>::empty());
        r
    }

    /// A session read back from the store: its newest `messages`, and
    /// `total` messages in all, of which those not loaded are counted as
    /// older.
    pub fn loaded(
        chat_id: String,
        kind: ConversationKind,
        nickname: Option<String>,
        name: Option<String>,
        description: Option<String>,
        peer: Option<String>,
        messages: Vec<DisplayMessage>,
        total: usize,
    ) -> (r: ChatSession)
        requires
            messages.len() <= total,
        ensures
            r.chat_id == chat_id,
            r.kind == kind,
            r.nickname == nickname,
            r.name == name,
            r.description == description,
            r.peer == peer,
            r.messages == messages,
            r.older_messages == total - messages.len(),
            !r.history_only,
    {
        let older = total - messages.len();
        ChatSession {
            chat_id,
            nickname,
            kind,
            name,
            description,
            peer,
            messages,
            older_messages: older,
            history_only: false,
        }
    }
}

/// Everything the module persists about its conversations.
#[derive(Debug)]
pub struct AppState {
    /// One session per conversation, in the order they became known.
    pub chats: Vec<ChatSession>,
    /// The user's installation-name override.
    pub installation_name: Option<String>,
    /// Locally deleted conversation ids, whose inbound traffic is dropped.
    pub deleted: Vec<String>,
}

/// The persisted state as the contracts speak of it: the sessions in the
/// order they became known, the override, and the tombstones in the order
/// they were made.
pub struct StateView {
    pub chats: Seq<SessionView>,
    pub installation_name: Option<Seq<char>>,
    pub deleted: Seq<Seq<char>>,
}

impl View for AppState {
    type V = StateView;

    open spec fn view(&self) -> StateView {
        StateView {
            chats: self.chats@.map_values(|c: ChatSession| c@),
            installation_name: opt_view(self.installation_name),
            deleted: self.deleted@.map_values(|s: String| s@),
        }
    }
}

impl StateView {
    /// No two sessions share an id, and no id is tombstoned twice.
    pub open spec fn wf(self) -> bool {
        &&& forall|i: int, j: int|
            0 <= i < j < self.chats.len() ==> self.chats[i].chat_id != self.chats[j].chat_id
        &&& forall|i: int, j: int|
            0 <= i < j < self.deleted.len() ==> self.deleted[i] != self.deleted[j]
    }

    /// Whether a session with this id is held.
    pub open spec fn has(self, id: Seq<char>) -> bool {
        exists|i: int| 0 <= i < self.chats.len() && self.chats[i].chat_id == id
    }

    /// The position of the session with this id (meaningful when held).
    pub open spec fn index_of(self, id: Seq<char>) -> int {
        choose|i: int| 0 <= i < self.chats.len() && self.chats[i].chat_id == id
    }

    /// The session with this id (meaningful when held).
    pub open spec fn chat(self, id: Seq<char>) -> SessionView {
        self.chats[self.index_of(id)]
    }

    /// Whether this id has been deleted locally.
    pub open spec fn is_deleted(self, id: Seq<char>) -> bool {
        self.deleted.contains(id)
    }

    /// The state with the session at `i` replaced by `c`.
    pub open spec fn with_chat(self, i: int, c: SessionView) -> StateView {
        StateView { chats: self.chats.update(i, c), ..self }
    }

    /// The state with `c` recorded: replacing the session of the same id, or
    /// appended after the others.
    pub open spec fn put(self, c: SessionView) -> StateView {
        if self.has(c.chat_id) {
            self.with_chat(self.index_of(c.chat_id), c)
        } else {
            StateView { chats: self.chats.push(c), ..self }
        }
    }
}

/// In a well-formed state, the id at position `i` is found at `i`.
pub proof fn lemma_index_of(v: StateView, i: int)
    requires
        v.wf(),
        0 <= i < v.chats.len(),
    ensures
        v.has(v.chats[i].chat_id),
        v.index_of(v.chats[i].chat_id) == i,
{
    let id = v.chats[i].chat_id;
    assert(v.has(id));
    let k = v.index_of(id);
    if k != i {
        if k < i {
            assert(v.chats[k].chat_id != v.chats[i].chat_id);
        } else {
            assert(v.chats[i].chat_id != v.chats[k].chat_id);
        }
    }
}

/// Why a conversation operation failed.
#[derive(Debug, Clone, Copy, PartialEq, Eq, Structural)]
pub enum LookupError {
    /// No session has this id.
    NotFound,
    /// The session is from a previous session and kept for its history only.
    HistoryOnly,
}

/// One conversation as the list shows it.
#[derive(Debug)]
pub struct Conversation {
    pub convo_id: String,
    pub nickname: Option<String>,
    pub message_count: i64,
    pub last_activity_ms: i64,
    pub kind: String,
    pub name: Option<String>,
    pub description: Option<String>,
    pub preview: Option<String>,
    pub history_only: bool,
}

/// A list entry as the contracts speak of it.
pub struct ConversationView {
    pub convo_id: Seq<char>,
    pub nickname: Option<Seq<char>>,
    pub message_count: i64,
    pub last_activity_ms: i64,
    pub kind: Seq<char>,
    pub name: Option<Seq<char>>,
    pub description: Option<Seq<char>>,
    pub preview: Option<Seq<char>>,
    pub history_only: bool,
}

impl View for Conversation {
    type V = ConversationView;

    open spec fn view(&self) -> ConversationView {
        ConversationView {
            convo_id: self.convo_id@,
            nickname: opt_view(self.nickname),
            message_count: self.message_count,
            last_activity_ms: self.last_activity_ms,
            kind: self.kind@,
            name: opt_view(self.name),
            description: opt_view(self.description),
            preview: opt_view(self.preview),
            history_only: self.history_only,
        }
    }
}

/// The list entry of a session: every message counted, loaded or not; the
/// last message's time (0 when none) and its first [`PREVIEW_MAX_CHARS`]
/// characters as the preview.
pub open spec fn conversation_spec(s: SessionView) -> ConversationView {
    ConversationView {
        convo_id: s.chat_id,
        nickname: s.nickname,
        message_count: (s.older_messages + s.messages.len()) as i64,
        last_activity_ms: if s.messages.len() == 0 {
            0
        } else {
            s.messages.last().timestamp_ms as i64
        },
        kind: kind_word(s.kind),
        name: s.name,
        description: s.description,
        preview: if s.messages.len() == 0 {
            None
        } else {
            Some(first_chars(s.messages.last().content, PREVIEW_MAX_CHARS as nat))
        },
        history_only: s.history_only,
    }
}

/// One message as `get_messages` hands it out.
#[derive(Debug)]
pub struct Message {
    pub from_self: bool,
    pub content: String,
    pub timestamp_ms: i64,
    pub sender: Option<String>,
}

impl View for Message {
    type V = (bool, Seq<char>, i64, Option<Seq<char>>);

    open spec fn view(&self) -> (bool, Seq<char>, i64, Option<Seq<char>>) {
        (self.from_self, self.content@, self.timestamp_ms, opt_view(self.sender))
    }
}

/// A history message as handed out.
pub open spec fn handed_out(m: MessageView) -> (bool, Seq<char>, i64, Option<Seq<char>>) {
    (m.from_self, m.content, m.timestamp_ms as i64, m.sender)
}

/// A member of a conversation's roster.
#[derive(Debug)]
pub struct GroupMember {
    pub address: String,
    /// Invited, with the commit that adds it not yet landed.
    pub pending: bool,
}

/// The roster: the committed members, then the invites still pending.
pub fn roster(committed: Vec<String>, invited: Vec<String>) -> (r: Vec<GroupMember>)
    ensures
        r@.len() == committed@.len() + invited@.len(),
        forall|i: int|
            0 <= i < committed@.len() ==> r@[i].address == committed@[i] && !r@[i].pending,
        forall|i: int|
            0 <= i < invited@.len() ==> r@[committed@.len() + i].address == invited@[i]
                && r@[committed@.len() + i].pending,
{
    let mut r: Vec<GroupMember> = Vec::new();
    let n = committed.len();
    let mut i: usize = 0;
    while i < n
        invariant
            n == committed@.len(),
            i <= n,
            r@.len() == i,
            forall|k: int| 0 <= k < i ==> (#[trigger] r@[k]).address == committed@[k] && !r@[k].pending,
        decreases n - i,
    {
        let a = committed[i].clone();
        r.push(GroupMember { address: a, pending: false });
        i = i + 1;
    }
    let m = invited.len();
    let mut j: usize = 0;
    while j < m
        invariant
            n == committed@.len(),
            m == invited@.len(),
            j <= m,
            r@.len() == n + j,
            forall|k: int| 0 <= k < n ==> (#[trigger] r@[k]).address == committed@[k] && !r@[k].pending,
            forall|k: int| n <= k < n + j ==> (#[trigger] r@[k]).address == invited@[k - n] && r@[k].pending,
        decreases m - j,
    {
        let a = invited[j].clone();
        r.push(GroupMember { address: a, pending: true });
        j = j + 1;
    }
    assert forall|k: int| 0 <= k < invited@.len() implies r@[committed@.len() + k].address == invited@[k]
        && r@[committed@.len() + k].pending by {
        assert(r@[n + k].address == invited@[(n + k) - n]);
    }
    r
}

/// The state with conversation `id` removed and tombstoned.
pub open spec fn delete_spec(v: StateView, id: Seq<char>) -> StateView {
    StateView {
        chats: v.chats.remove(v.index_of(id)),
        installation_name: v.installation_name,
        deleted: if v.is_deleted(id) { v.deleted } else { v.deleted.push(id) },
    }
}

/// A deleted conversation is gone and tombstoned, and a tombstoned one is
/// neither recreated by a conversation start nor by an inbound message, nor
/// announced by a roster change: what keeps a locally deleted conversation
/// deleted though libchat keeps its crypto state.
pub proof fn lemma_deleted_stays_gone(v: StateView, id: Seq<char>)
    requires
        v.wf(),
        v.has(id),
    ensures
        delete_spec(v, id).wf(),
        !delete_spec(v, id).has(id),
        delete_spec(v, id).is_deleted(id),
        delete_spec(v, id).chats.len() == v.chats.len() - 1,
{
    let i = v.index_of(id);
    let w = delete_spec(v, id);
    let c = w.chats;
    let o = v.chats;
    assert forall|a: int, b: int| 0 <= a < b < c.len() implies c[a].chat_id != c[b].chat_id by {
        let a2 = if a < i { a } else { a + 1 };
        let b2 = if b < i { b } else { b + 1 };
        assert(c[a] == o[a2]);
        assert(c[b] == o[b2]);
        assert(o[a2].chat_id != o[b2].chat_id);
    }
    if !v.is_deleted(id) {
        let d = w.deleted;
        assert forall|a: int, b: int| 0 <= a < b < d.len() implies d[a] != d[b] by {
            if b < v.deleted.len() {
                assert(v.deleted[a] != v.deleted[b]);
            } else {
                assert(d[a] == v.deleted[a]);
            }
        }
        assert(w.deleted[v.deleted.len() as int] == id);
    }
    if w.has(id) {
        let k = choose|k: int| 0 <= k < c.len() && c[k].chat_id == id;
        let k2 = if k < i { k } else { k + 1 };
        assert(c[k] == o[k2]);
        assert(o[k2].chat_id != o[i].chat_id) by {
            if k2 < i {
                assert(o[k2].chat_id != o[i].chat_id);
            } else {
                assert(o[i].chat_id != o[k2].chat_id);
            }
        }
    }
}

/// Deleting a conversation keeps every tombstone made before and adds its
/// own, and nothing else: afterwards exactly the ids deleted before and `id`
/// are deleted. Every other conversation is kept as it was, and none appears.
pub proof fn lemma_delete_keeps_every_tombstone(v: StateView, id: Seq<char>)
    requires
        v.wf(),
        v.has(id),
    ensures
        forall|o: Seq<char>| #[trigger] delete_spec(v, id).is_deleted(o) <==> (v.is_deleted(o) || o == id),
        forall|o: Seq<char>| o != id ==> (#[trigger] delete_spec(v, id).has(o) <==> v.has(o)),
        forall|o: Seq<char>| o != id && v.has(o) ==> #[trigger] delete_spec(v, id).chat(o) == v.chat(o),
        delete_spec(v, id).installation_name == v.installation_name,
{
    let i = v.index_of(id);
    let w = delete_spec(v, id);
    lemma_deleted_stays_gone(v, id);
    assert forall|o: Seq<char>| #[trigger] w.is_deleted(o) <==> (v.is_deleted(o) || o == id) by {
        if !v.is_deleted(id) {
            if v.is_deleted(o) {
                let k = choose|k: int| 0 <= k < v.deleted.len() && v.deleted[k] == o;
                assert(w.deleted[k] == o);
            }
            if w.is_deleted(o) && o != id {
                let k = choose|k: int| 0 <= k < w.deleted.len() && w.deleted[k] == o;
                assert(k < v.deleted.len());
                assert(v.deleted[k] == o);
            }
            assert(w.deleted[v.deleted.len() as int] == id);
        }
    }
    assert forall|o: Seq<char>| o != id implies (#[trigger] w.has(o) <==> v.has(o)) by {
        if v.has(o) {
            let k = v.index_of(o);
            assert(k != i);
            let k2 = if k < i { k } else { k - 1 };
            assert(w.chats[k2] == v.chats[k]);
        }
        if w.has(o) {
            let k = choose|k: int| 0 <= k < w.chats.len() && w.chats[k].chat_id == o;
            let k2 = if k < i { k } else { k + 1 };
            assert(w.chats[k] == v.chats[k2]);
        }
    }
    assert forall|o: Seq<char>| o != id && v.has(o) implies #[trigger] w.chat(o) == v.chat(o) by {
        let k = v.index_of(o);
        assert(k != i);
        let k2 = if k < i { k } else { k - 1 };
        assert(w.chats[k2] == v.chats[k]);
        lemma_index_of(w, k2);
    }
}

/// A list entry shows its own session: its id, nickname, kind, name,
/// description and history-only mark, every message counted, the last
/// message's time, and the last message's text cut to the preview length.
pub proof fn lemma_list_entry_shows_its_session(s: SessionView)
    ensures
        conversation_spec(s).convo_id == s.chat_id,
        conversation_spec(s).nickname == s.nickname,
        conversation_spec(s).kind == kind_word(s.kind),
        conversation_spec(s).name == s.name,
        conversation_spec(s).description == s.description,
        conversation_spec(s).history_only == s.history_only,
        s.older_messages + s.messages.len() <= i64::MAX ==> conversation_spec(s).message_count
            == s.older_messages + s.messages.len(),
        s.messages.len() > 0 ==> conversation_spec(s).last_activity_ms == s.messages.last().timestamp_ms as i64,
        s.messages.len() > 0 && s.messages.last().content.len() <= PREVIEW_MAX_CHARS ==> conversation_spec(s).preview
            == Some(s.messages.last().content),
        s.messages.len() > 0 && s.messages.last().content.len() > PREVIEW_MAX_CHARS ==> conversation_spec(s).preview
            == Some(s.messages.last().content.subrange(0, PREVIEW_MAX_CHARS as int)),
        s.messages.len() == 0 ==> conversation_spec(s).preview is None && conversation_spec(s).last_activity_ms == 0,
{
}

/// A conversation created here is listed with the name and description it
/// was created with (none for an empty one) and the kind it was created as.
pub proof fn lemma_created_conversation_lists_as_created(
    v: StateView,
    id: Seq<char>,
    kind: ConversationKind,
    name: Seq<char>,
    description: Seq<char>,
    peer: Option<Seq<char>>,
)
    requires
        v.wf(),
    ensures
        ({
            let w = v.put(fresh_session(id, kind, non_empty_spec(name), non_empty_spec(description), peer));
            &&& w.has(id)
            &&& conversation_spec(w.chat(id)).convo_id == id
            &&& conversation_spec(w.chat(id)).name == (if name.len() == 0 { None } else { Some(name) })
            &&& conversation_spec(w.chat(id)).description == (if description.len() == 0 {
                None
            } else {
                Some(description)
            })
            &&& conversation_spec(w.chat(id)).kind == kind_word(kind)
            &&& conversation_spec(w.chat(id)).nickname is None
            &&& conversation_spec(w.chat(id)).message_count == 0
        }),
{
    let c = fresh_session(id, kind, non_empty_spec(name), non_empty_spec(description), peer);
    lemma_put_wf(v, c);
}

/// The session's view with `m` appended to its messages.
pub open spec fn with_message(c: SessionView, m: MessageView) -> SessionView {
    SessionView { messages: c.messages.push(m), ..c }
}

/// The label, name and description a created conversation is announced with.
pub open spec fn created_event(
    e: Event,
    id: Seq<char>,
    outgoing: bool,
    kind: ConversationKind,
    name: Seq<char>,
    description: Seq<char>,
) -> bool {
    e matches Event::ConversationCreated {
        convo_id,
        is_outgoing,
        peer_label,
        kind: k,
        name: n,
        description: d,
    } && convo_id@ == id && is_outgoing == outgoing && peer_label@ == first_chars(id, 8) && k == kind
        && n@ == name && d@ == description
}

/// The text of an optional string, empty when unset.
pub open spec fn or_empty(o: Option<Seq<char>>) -> Seq<char> {
    match o {
        Some(s) => s,
        None => Seq::empty(),
    }
}

fn text_or_empty(o: &Option<String>) -> (r: String)
    ensures
        r@ == or_empty(opt_view(*o)),
{
    match o {
        Some(s) => s.clone(),
        None => String::new(),
    }
}

/// What recording an inbound message hands back: the event to raise, the
/// message to store, and whether the session's own row changed with it.
#[derive(Debug)]
pub struct Received {
    pub event: Event,
    pub message: StoredMessage,
    pub chat_changed: bool,
}

/// The session an inbound message lands in, before the message: the one
/// held, or a fresh direct one; a direct session learns its peer from its
/// first inbound message.
pub open spec fn receiving_session(v: StateView, id: Seq<char>, account: Seq<char>) -> SessionView {
    let s0 = if v.has(id) { v.chat(id) } else { fresh_session(id, ConversationKind::Direct, None, None, None) };
    if s0.kind == ConversationKind::Direct && s0.peer is None {
        SessionView { peer: Some(account), ..s0 }
    } else {
        s0
    }
}

impl AppState {
    /// A state holding nothing.
    pub fn new() -> (r: AppState)
        ensures
            r@.wf(),
            r@.chats.len() == 0,
            r@.installation_name is None,
            r@.deleted.len() == 0,
    {
        let r = AppState { chats: Vec::new(), installation_name: None, deleted: Vec::new() };
        assert(r@.chats =~= Seq::<SessionView>::empty());
        assert(r@.deleted =~= Seq::<Seq<char>>::empty());
        r
    }

    /// The position of the session with this id.
    pub fn position(&self, id: &str) -> (r: Option<usize>)
        ensures
            r matches Some(i) ==> i < self@.chats.len() && self@.chats[i as int].chat_id == id@,
            r is None <==> !self@.has(id@),
    {
        let n = self.chats.len();
        let mut i: usize = 0;
        while i < n
            invariant
                n == self.chats@.len(),
                i <= n,
                forall|k: int| 0 <= k < i ==> self@.chats[k].chat_id != id@,
            decreases n - i,
        {
            if str_eq(self.chats[i].chat_id.as_str(), id) {
                return Some(i);
            }
            i = i + 1;
        }
        None
    }

    /// Whether `id` was deleted locally.
    pub fn is_deleted(&self, id: &str) -> (r: bool)
        ensures
            r == self@.is_deleted(id@),
    {
        let n = self.deleted.len();
        let mut i: usize = 0;
        while i < n
            invariant
                n == self.deleted@.len(),
                i <= n,
                forall|k: int| 0 <= k < i ==> self@.deleted[k] != id@,
            decreases n - i,
        {
            if str_eq(self.deleted[i].as_str(), id) {
                assert(self@.deleted[i as int] == id@);
                return true;
            }
            i = i + 1;
        }
        false
    }

    /// Fails unless `id` is a conversation of this session: `NotFound` for an
    /// unknown one, `HistoryOnly` for one kept from a previous session.
    pub fn check_live(&self, id: &str) -> (r: Result<(), LookupError>)
        requires
            self@.wf(),
        ensures
            !self@.has(id@) ==> r == Err::<(), LookupError>(LookupError::NotFound),
            self@.has(id@) && self@.chat(id@).history_only ==> r == Err::<(), LookupError>(
                LookupError::HistoryOnly,
            ),
            self@.has(id@) && !self@.chat(id@).history_only ==> r is Ok,
    {
        match self.position(id) {
            None => Err(LookupError::NotFound),
            Some(i) => {
                proof {
                    lemma_index_of(self@, i as int);
                }
                if self.chats[i].history_only {
                    Err(LookupError::HistoryOnly)
                } else {
                    Ok(())
                }
            },
        }
    }

    /// The conversations, one entry per session in the order they became known.
    pub fn list_conversations(&self) -> (r: Vec<Conversation>)
        ensures
            r@.len() == self@.chats.len(),
            forall|i: int| 0 <= i < r@.len() ==> (#[trigger] r@[i])@ == conversation_spec(self@.chats[i]),
    {
        let mut r: Vec<Conversation> = Vec::new();
        let n = self.chats.len();
        let mut i: usize = 0;
        while i < n
            invariant
                n == self.chats@.len(),
                i <= n,
                r@.len() == i,
                forall|k: int| 0 <= k < i ==> (#[trigger] r@[k])@ == conversation_spec(self@.chats[k]),
            decreases n - i,
        {
            r.push(conversation_of(&self.chats[i]));
            i = i + 1;
        }
        r
    }

    /// The messages of conversation `id` as handed out; none for an unknown id.
    pub fn get_messages(&self, id: &str) -> (r: Vec<Message>)
        requires
            self@.wf(),
        ensures
            !self@.has(id@) ==> r@.len() == 0,
            self@.has(id@) ==> r@.len() == self@.chat(id@).messages.len() && forall|i: int|
                0 <= i < r@.len() ==> (#[trigger] r@[i])@ == handed_out(self@.chat(id@).messages[i]),
    {
        let mut r: Vec<Message> = Vec::new();
        match self.position(id) {
            None => r,
            Some(c) => {
                proof {
                    lemma_index_of(self@, c as int);
                }
                let msgs = &self.chats[c].messages;
                let n = msgs.len();
                let mut i: usize = 0;
                while i < n
                    invariant
                        n == msgs@.len(),
                        i <= n,
                        r@.len() == i,
                        forall|k: int| 0 <= k < i ==> (#[trigger] r@[k])@ == handed_out(msgs@[k]@),
                    decreases n - i,
                {
                    let m = &msgs[i];
                    r.push(Message {
                        from_self: m.from_self,
                        content: m.content.clone(),
                        timestamp_ms: m.timestamp_ms as i64,
                        sender: copy_opt(&m.sender),
                    });
                    i = i + 1;
                }
                r
            },
        }
    }

    /// Set (or, with the empty string, clear) the nickname of conversation
    /// `id`, answering the `ConversationUpdated` event to raise once stored.
    pub fn set_conversation_nickname(&mut self, id: &str, nickname: &str) -> (r: Result<Event, LookupError>)
        requires
            old(self)@.wf(),
        ensures
            final(self)@.wf(),
            r is Ok <==> old(self)@.has(id@),
            r is Err ==> final(self)@ == old(self)@ && r == Err::<Event, LookupError>(LookupError::NotFound),
            r is Ok ==> final(self)@ == old(self)@.with_chat(
                old(self)@.index_of(id@),
                SessionView { nickname: non_empty_spec(nickname@), ..old(self)@.chat(id@) },
            ),
            r matches Ok(e) ==> e matches Event::ConversationUpdated { convo_id } && convo_id@ == id@,
    {
        match self.position(id) {
            None => Err(LookupError::NotFound),
            Some(i) => {
                proof {
                    lemma_index_of(self@, i as int);
                }
                let mut s = self.chats.remove(i);
                s.nickname = non_empty(nickname);
                self.chats.insert(i, s);
                assert(self@.chats =~= old(self)@.chats.update(i as int, s@));
                proof {
                    assert forall|a: int, b: int|
                        0 <= a < b < self@.chats.len() implies self@.chats[a].chat_id != self@.chats[b].chat_id by {
                        assert(old(self)@.chats[a].chat_id != old(self)@.chats[b].chat_id);
                    }
                }
                Ok(Event::ConversationUpdated { convo_id: own(id) })
            },
        }
    }
}

/// The list entry of one session.
fn conversation_of(s: &ChatSession) -> (r: Conversation)
    ensures
        r@ == conversation_spec(s@),
{
    let n = s.messages.len();
    let count = (s.older_messages as u128 + n as u128) as i64;
    let (last, preview) = if n == 0 {
        (0i64, None)
    } else {
        let m = &s.messages[n - 1];
        (m.timestamp_ms as i64, Some(own(take_chars(m.content.as_str(), PREVIEW_MAX_CHARS))))
    };
    Conversation {
        convo_id: s.chat_id.clone(),
        nickname: copy_opt(&s.nickname),
        message_count: count,
        last_activity_ms: last,
        kind: own(s.kind.as_str()),
        name: copy_opt(&s.name),
        description: copy_opt(&s.description),
        preview,
        history_only: s.history_only,
    }
}

/// The view of a message sent from here with text `content` at `ts`.
pub open spec fn sent_view(content: Seq<char>, ts: u64) -> MessageView {
    MessageView { from_self: true, content, timestamp_ms: ts, sender: None }
}

/// The view of a message received with text `content` at `ts`.
pub open spec fn received_view(content: Seq<char>, ts: u64, sender: Option<Seq<char>>) -> MessageView {
    MessageView { from_self: false, content, timestamp_ms: ts, sender }
}

/// The session at `id` with `m` appended, when it is held; the state
/// unchanged otherwise.
pub open spec fn append_to(v: StateView, id: Seq<char>, m: MessageView) -> StateView {
    if v.has(id) {
        v.with_chat(v.index_of(id), with_message(v.chat(id), m))
    } else {
        v
    }
}

proof fn lemma_put_wf(v: StateView, c: SessionView)
    requires
        v.wf(),
    ensures
        v.put(c).wf(),
        v.put(c).has(c.chat_id),
        v.put(c).chat(c.chat_id) == c,
        v.put(c).deleted == v.deleted,
        v.put(c).installation_name == v.installation_name,
{
    let w = v.put(c);
    if v.has(c.chat_id) {
        let i = v.index_of(c.chat_id);
        assert forall|a: int, b: int| 0 <= a < b < w.chats.len() implies w.chats[a].chat_id != w.chats[b].chat_id by {
            assert(v.chats[a].chat_id != v.chats[b].chat_id);
        }
        lemma_index_of(w, i);
    } else {
        let n = v.chats.len() as int;
        assert forall|a: int, b: int| 0 <= a < b < w.chats.len() implies w.chats[a].chat_id != w.chats[b].chat_id by {
            if b < n {
                assert(v.chats[a].chat_id != v.chats[b].chat_id);
            } else {
                assert(v.chats[a].chat_id == w.chats[a].chat_id);
            }
        }
        lemma_index_of(w, n);
    }
}

proof fn lemma_with_chat_same_id_wf(v: StateView, i: int, c: SessionView)
    requires
        v.wf(),
        0 <= i < v.chats.len(),
        c.chat_id == v.chats[i].chat_id,
    ensures
        v.with_chat(i, c).wf(),
{
    let w = v.with_chat(i, c);
    assert forall|a: int, b: int| 0 <= a < b < w.chats.len() implies w.chats[a].chat_id != w.chats[b].chat_id by {
        assert(v.chats[a].chat_id != v.chats[b].chat_id);
    }
}

/// A message recorded in a held conversation is what its history shows
/// last, after everything it showed before, and no other conversation's
/// history changes: what `get_messages` reads back of `record_sent`.
pub proof fn lemma_recorded_message_reads_back(v: StateView, id: Seq<char>, m: MessageView)
    requires
        v.wf(),
        v.has(id),
    ensures
        append_to(v, id, m).wf(),
        append_to(v, id, m).has(id),
        append_to(v, id, m).chat(id).messages == v.chat(id).messages.push(m),
        forall|o: Seq<char>|
            o != id && v.has(o) ==> append_to(v, id, m).has(o) && #[trigger] append_to(v, id, m).chat(o) == v.chat(o),
{
    let i = v.index_of(id);
    let w = append_to(v, id, m);
    lemma_with_chat_same_id_wf(v, i, with_message(v.chat(id), m));
    lemma_index_of(w, i);
    assert forall|o: Seq<char>| o != id && v.has(o) implies w.has(o) && #[trigger] w.chat(o) == v.chat(o) by {
        let k = v.index_of(o);
        assert(k != i);
        assert(w.chats[k] == v.chats[k]);
        lemma_index_of(w, k);
    }
}

/// An inbound message to a conversation not deleted here is what its history
/// shows last, whether the conversation was held or is opened by it: what
/// `get_messages` reads back of `record_message_received`.
pub proof fn lemma_received_message_reads_back(v: StateView, id: Seq<char>, account: Seq<char>, m: MessageView)
    requires
        v.wf(),
    ensures
        ({
            let w = v.put(with_message(receiving_session(v, id, account), m));
            &&& w.wf()
            &&& w.has(id)
            &&& w.chat(id).messages.len() > 0
            &&& w.chat(id).messages.last() == m
            &&& v.has(id) ==> w.chat(id).messages == v.chat(id).messages.push(m)
        }),
{
    let c = with_message(receiving_session(v, id, account), m);
    lemma_put_wf(v, c);
}

impl AppState {
    /// Remove conversation `id` from the local history and keep its
    /// tombstone, answering the `ConversationDeleted` event to raise.
    pub fn delete_conversation(&mut self, id: &str) -> (r: Result<Event, LookupError>)
        requires
            old(self)@.wf(),
        ensures
            final(self)@.wf(),
            r is Ok <==> old(self)@.has(id@),
            r is Err ==> final(self)@ == old(self)@ && r == Err::<Event, LookupError>(LookupError::NotFound),
            r is Ok ==> final(self)@ == delete_spec(old(self)@, id@),
            r matches Ok(e) ==> e matches Event::ConversationDeleted { convo_id } && convo_id@ == id@,
    {
        match self.position(id) {
            None => Err(LookupError::NotFound),
            Some(i) => {
                proof {
                    lemma_index_of(self@, i as int);
                }
                let _ = self.chats.remove(i);
                assert(self@.chats =~= old(self)@.chats.remove(i as int));
                if !self.is_deleted(id) {
                    self.deleted.push(own(id));
                    assert(self@.deleted =~= old(self)@.deleted.push(id@));
                    proof {
                        let d = self@.deleted;
                        assert forall|a: int, b: int| 0 <= a < b < d.len() implies d[a] != d[b] by {
                            if b < old(self)@.deleted.len() {
                                assert(old(self)@.deleted[a] != old(self)@.deleted[b]);
                            } else {
                                assert(!old(self)@.deleted.contains(id@));
                                assert(d[a] == old(self)@.deleted[a]);
                            }
                        }
                    }
                }
                proof {
                    let c = self@.chats;
                    let o = old(self)@.chats;
                    assert forall|a: int, b: int| 0 <= a < b < c.len() implies c[a].chat_id != c[b].chat_id by {
                        let a2 = if a < i { a } else { a + 1 };
                        let b2 = if b < i { b } else { b + 1 };
                        assert(c[a] == o[a2]);
                        assert(c[b] == o[b2]);
                        assert(o[a2].chat_id != o[b2].chat_id);
                    }
                }
                Ok(Event::ConversationDeleted { convo_id: own(id) })
            },
        }
    }

    /// Record a newly observed conversation (one a peer opened) and answer
    /// the `ConversationCreated` event to raise. Nothing happens for a
    /// conversation deleted here or already known.
    pub fn record_conversation_started(
        &mut self,
        id: &str,
        kind: ConversationKind,
        name: Option<String>,
        description: Option<String>,
    ) -> (r: Option<Event>)
        requires
            old(self)@.wf(),
        ensures
            final(self)@.wf(),
            (old(self)@.is_deleted(id@) || old(self)@.has(id@)) ==> final(self)@ == old(self)@ && r is None,
            !(old(self)@.is_deleted(id@) || old(self)@.has(id@)) ==> {
                &&& final(self)@ == (StateView {
                    chats: old(self)@.chats.push(
                        fresh_session(id@, kind, opt_view(name), opt_view(description), None),
                    ),
                    ..old(self)@
                })
                &&& r matches Some(e) && created_event(
                    e,
                    id@,
                    false,
                    kind,
                    or_empty(opt_view(name)),
                    or_empty(opt_view(description)),
                )
            },
    {
        if self.is_deleted(id) || self.position(id).is_some() {
            return None;
        }
        let n_text = text_or_empty(&name);
        let d_text = text_or_empty(&description);
        let session = ChatSession::new(own(id), kind, name, description, None);
        let ghost c = session@;
        self.chats.push(session);
        assert(self@.chats =~= old(self)@.chats.push(c));
        proof {
            lemma_put_wf(old(self)@, c);
        }
        Some(Event::ConversationCreated {
            convo_id: own(id),
            is_outgoing: false,
            peer_label: own(short_label(id)),
            kind,
            name: n_text,
            description: d_text,
        })
    }

    /// Record a conversation opened here with the id libchat assigned,
    /// replacing any session already held under that id, and answer the
    /// `ConversationCreated` event to raise.
    pub fn record_created(
        &mut self,
        chat_id: &str,
        kind: ConversationKind,
        name: &str,
        description: &str,
        peer: Option<String>,
    ) -> (r: Event)
        requires
            old(self)@.wf(),
        ensures
            final(self)@.wf(),
            final(self)@ == old(self)@.put(
                fresh_session(chat_id@, kind, non_empty_spec(name@), non_empty_spec(description@), opt_view(peer)),
            ),
            created_event(r, chat_id@, true, kind, name@, description@),
    {
        let session = ChatSession::new(own(chat_id), kind, non_empty(name), non_empty(description), peer);
        let ghost c = session@;
        proof {
            lemma_put_wf(self@, c);
        }
        match self.position(chat_id) {
            Some(i) => {
                proof {
                    lemma_index_of(self@, i as int);
                }
                let _ = self.chats.remove(i);
                self.chats.insert(i, session);
                assert(self@.chats =~= old(self)@.chats.update(i as int, c));
            },
            None => {
                self.chats.push(session);
                assert(self@.chats =~= old(self)@.chats.push(c));
            },
        }
        Event::ConversationCreated {
            convo_id: own(chat_id),
            is_outgoing: true,
            peer_label: own(short_label(chat_id)),
            kind,
            name: own(name),
            description: own(description),
        }
    }

    /// Append `message` to the session at `i`.
    fn push_message(&mut self, i: usize, message: DisplayMessage)
        requires
            old(self)@.wf(),
            i < old(self)@.chats.len(),
        ensures
            final(self)@.wf(),
            final(self)@ == old(self)@.with_chat(i as int, with_message(old(self)@.chats[i as int], message@)),
    {
        let mut s = self.chats.remove(i);
        let ghost before = s@;
        s.messages.push(message);
        assert(s@.messages =~= before.messages.push(message@));
        self.chats.insert(i, s);
        assert(self@.chats =~= old(self)@.chats.update(i as int, with_message(before, message@)));
        proof {
            lemma_with_chat_same_id_wf(old(self)@, i as int, with_message(before, message@));
        }
    }

    /// Record a message sent from here, answering the message to store and
    /// the `MessageSent` event to raise. A conversation that is gone keeps
    /// nothing.
    pub fn record_sent(&mut self, id: &str, content: &str, ts: u64) -> (r: (StoredMessage, Event))
        requires
            old(self)@.wf(),
        ensures
            final(self)@.wf(),
            final(self)@ == append_to(old(self)@, id@, sent_view(content@, ts)),
            r.0.chat_id@ == id@,
            r.0.convo_id@ == id@,
            r.0.direction == Direction::Sent,
            r.0.sender_account is None,
            r.0.sender_installation is None,
            r.0.timestamp_ms == #[verifier::truncate] (ts as i64),
            r.0.content@ == content.spec_bytes(),
            r.1 matches Event::MessageSent { convo_id, content: c, timestamp_ms } && convo_id@ == id@
                && c@ == content@ && timestamp_ms == ts,
    {
        let message = chat_message(id, Direction::Sent, ts, content.as_bytes());
        match self.position(id) {
            Some(i) => {
                proof {
                    lemma_index_of(self@, i as int);
                }
                let shown = display_message(&message);
                proof {
                    assert((ts as i64) as u64 == ts) by (bit_vector);
                    assert(message.content@ == encode_utf8(content@));
                    assert(decode_utf8(encode_utf8(content@)) == content@);
                }
                assert(shown@ == sent_view(content@, ts));
                self.push_message(i, shown);
            },
            None => {},
        }
        (message, Event::MessageSent { convo_id: own(id), content: own(content), timestamp_ms: ts })
    }

    /// Surface a group roster change: the `MembersChanged` event, unless the
    /// conversation is deleted here or unknown.
    pub fn record_members_changed(&self, id: &str) -> (r: Option<Event>)
        ensures
            (self@.is_deleted(id@) || !self@.has(id@)) <==> r is None,
            r matches Some(e) ==> e matches Event::MembersChanged { convo_id } && convo_id@ == id@,
    {
        if self.is_deleted(id) || self.position(id).is_none() {
            None
        } else {
            Some(Event::MembersChanged { convo_id: own(id) })
        }
    }

    /// Take in a session read back from the store, after those already
    /// taken in; a second session under an id already held is left out.
    /// Answers whether it was taken in.
    pub fn insert_loaded(&mut self, session: ChatSession) -> (r: bool)
        requires
            old(self)@.wf(),
        ensures
            final(self)@.wf(),
            r == !old(self)@.has(session@.chat_id),
            r ==> final(self)@ == (StateView { chats: old(self)@.chats.push(session@), ..old(self)@ }),
            !r ==> final(self)@ == old(self)@,
    {
        if self.position(session.chat_id.as_str()).is_some() {
            return false;
        }
        let ghost c = session@;
        proof {
            lemma_put_wf(self@, c);
        }
        self.chats.push(session);
        assert(self@.chats =~= old(self)@.chats.push(c));
        true
    }

    /// Keep the tombstone of a chat deleted here, once.
    pub fn add_tombstone(&mut self, id: String)
        requires
            old(self)@.wf(),
        ensures
            final(self)@.wf(),
            final(self)@ == (StateView {
                deleted: if old(self)@.is_deleted(id@) {
                    old(self)@.deleted
                } else {
                    old(self)@.deleted.push(id@)
                },
                ..old(self)@
            }),
    {
        if self.is_deleted(id.as_str()) {
            return;
        }
        let ghost iv = id@;
        self.deleted.push(id);
        assert(self@.deleted =~= old(self)@.deleted.push(iv));
        assert(self@.chats =~= old(self)@.chats);
        proof {
            let d = self@.deleted;
            assert forall|a: int, b: int| 0 <= a < b < d.len() implies d[a] != d[b] by {
                if b < old(self)@.deleted.len() {
                    assert(old(self)@.deleted[a] != old(self)@.deleted[b]);
                } else {
                    assert(!old(self)@.deleted.contains(iv));
                    assert(d[a] == old(self)@.deleted[a]);
                }
            }
        }
    }

    /// Set the installation-name override, or clear it with the empty string.
    pub fn set_installation_name(&mut self, name: &str)
        ensures
            final(self)@ == (StateView { installation_name: non_empty_spec(name@), ..old(self)@ }),
    {
        self.installation_name = non_empty(name);
    }

    /// The installation name shown: the override when set, else libchat's
    /// intrinsic name.
    pub fn effective_installation_name(&self, intrinsic: &str) -> (r: String)
        ensures
            r@ == (match self@.installation_name {
                Some(n) => n,
                None => intrinsic@,
            }),
    {
        match &self.installation_name {
            Some(n) => n.clone(),
            None => own(intrinsic),
        }
    }

    /// Mark each session kept for its history only exactly when the client
    /// holds no live conversation of its id.
    pub fn mark_history_only(&mut self, live: &Vec<String>)
        requires
            old(self)@.wf(),
        ensures
            final(self)@.wf(),
            final(self)@.installation_name == old(self)@.installation_name,
            final(self)@.deleted == old(self)@.deleted,
            final(self)@.chats.len() == old(self)@.chats.len(),
            forall|i: int|
                0 <= i < final(self)@.chats.len() ==> (#[trigger] final(self)@.chats[i]) == (SessionView {
                    history_only: !live@.map_values(|s: String| s@).contains(old(self)@.chats[i].chat_id),
                    ..old(self)@.chats[i]
                }),
    {
        let n = self.chats.len();
        let mut i: usize = 0;
        let ghost lv = live@.map_values(|s: String| s@);
        while i < n
            invariant
                n == self.chats@.len(),
                n == old(self).chats@.len(),
                i <= n,
                lv == live@.map_values(|s: String| s@),
                self@.installation_name == old(self)@.installation_name,
                self@.deleted == old(self)@.deleted,
                forall|k: int| i <= k < n ==> self@.chats[k] == old(self)@.chats[k],
                forall|k: int|
                    0 <= k < i ==> self@.chats[k] == (SessionView {
                        history_only: !lv.contains(old(self)@.chats[k].chat_id),
                        ..old(self)@.chats[k]
                    }),
            decreases n - i,
        {
            let held = contains_str(live, self.chats[i].chat_id.as_str());
            let ghost prev = self@.chats;
            let mut s = self.chats.remove(i);
            s.history_only = !held;
            self.chats.insert(i, s);
            assert(self@.chats =~= prev.update(i as int, s@));
            i = i + 1;
        }
        proof {
            let c = self@.chats;
            assert forall|a: int, b: int| 0 <= a < b < c.len() implies c[a].chat_id != c[b].chat_id by {
                assert(old(self)@.chats[a].chat_id != old(self)@.chats[b].chat_id);
            }
        }
    }
}

/// Whether `v` holds a string equal to `s`.
pub fn contains_str(v: &Vec<String>, s: &str) -> (r: bool)
    ensures
        r == v@.map_values(|x: String| x@).contains(s@),
{
    let n = v.len();
    let mut i: usize = 0;
    while i < n
        invariant
            n == v@.len(),
            i <= n,
            forall|k: int| 0 <= k < i ==> v@[k]@ != s@,
        decreases n - i,
    {
        if str_eq(v[i].as_str(), s) {
            assert(v@.map_values(|x: String| x@)[i as int] == s@);
            return true;
        }
        i = i + 1;
    }
    let ghost m = v@.map_values(|x: String| x@);
    assert forall|k: int| 0 <= k < m.len() implies #[trigger] m[k] != s@ by {}
    false
}

impl AppState {
    /// Record an inbound message of conversation `id` from `account`'s
    /// installation `installation`, at `ts`, and answer what to store and the
    /// `MessageReceived` event to raise. Nothing happens for a conversation
    /// deleted here; an unknown one is created as a direct conversation, and a
    /// direct conversation with no peer yet learns it from this message.
    pub fn record_message_received(
        &mut self,
        id: &str,
        content: &[u8],
        account: &str,
        installation: &str,
        ts: u64,
    ) -> (r: Option<Received>)
        requires
            old(self)@.wf(),
        ensures
            final(self)@.wf(),
            old(self)@.is_deleted(id@) ==> final(self)@ == old(self)@ && r is None,
            !old(self)@.is_deleted(id@) ==> {
                let session = receiving_session(old(self)@, id@, account@);
                &&& final(self)@ == old(self)@.put(
                    with_message(session, received_view(spec_utf8_lossy(content@), ts, Some(account@))),
                )
                &&& r matches Some(rec) && {
                    &&& rec.chat_changed == (!old(self)@.has(id@) || (old(self)@.chat(id@).kind
                        == ConversationKind::Direct && old(self)@.chat(id@).peer is None))
                    &&& rec.message.chat_id@ == id@
                    &&& rec.message.convo_id@ == id@
                    &&& rec.message.direction == Direction::Received
                    &&& opt_view(rec.message.sender_account) == Some(account@)
                    &&& opt_view(rec.message.sender_installation) == Some(installation@)
                    &&& rec.message.message_id is None
                    &&& rec.message.timestamp_ms == #[verifier::truncate] (ts as i64)
                    &&& rec.message.content@ == content@
                    &&& rec.event matches Event::MessageReceived {
                        convo_id,
                        from_self,
                        content: text,
                        timestamp_ms,
                        is_new_convo,
                        sender,
                    } && convo_id@ == id@ && !from_self && text@ == spec_utf8_lossy(content@)
                        && timestamp_ms == ts && is_new_convo == !old(self)@.has(id@)
                        && opt_view(sender) == Some(account@)
                }
            },
    {
        if self.is_deleted(id) {
            return None;
        }
        let found = self.position(id);
        let is_new = found.is_none();
        let i = match found {
            Some(i) => {
                proof {
                    lemma_index_of(self@, i as int);
                }
                i
            },
            None => {
                let fresh = ChatSession::new(own(id), ConversationKind::Direct, None, None, None);
                let ghost c = fresh@;
                proof {
                    lemma_put_wf(self@, c);
                }
                self.chats.push(fresh);
                assert(self@.chats =~= old(self)@.chats.push(c));
                proof {
                    lemma_index_of(self@, old(self)@.chats.len() as int);
                }
                self.chats.len() - 1
            },
        };
        let ghost mid = self@;
        let mut s = self.chats.remove(i);
        let mut chat_changed = is_new;
        if s.kind == ConversationKind::Direct && s.peer.is_none() {
            s.peer = Some(own(account));
            chat_changed = true;
        }
        let mut message = chat_message(id, Direction::Received, ts, content);
        message.sender_account = Some(own(account));
        message.sender_installation = Some(own(installation));
        let shown = display_message(&message);
        proof {
            assert((ts as i64) as u64 == ts) by (bit_vector);
        }
        let ghost before = s@;
        s.messages.push(shown);
        assert(s@.messages =~= before.messages.push(shown@));
        self.chats.insert(i, s);
        assert(self@.chats =~= mid.chats.update(i as int, s@));
        proof {
            lemma_with_chat_same_id_wf(mid, i as int, s@);
            assert(s@ == with_message(receiving_session(old(self)@, id@, account@), shown@));
            if !is_new {
                assert(self@ == old(self)@.put(s@));
            } else {
                assert(self@.chats =~= old(self)@.chats.push(s@));
            }
        }
        let event = Event::MessageReceived {
            convo_id: own(id),
            from_self: false,
            content: utf8_lossy(content),
            timestamp_ms: ts,
            is_new_convo: is_new,
            sender: Some(own(account)),
        };
        Some(Received { event, message, chat_changed })
    }

    /// Reflect a decrypted inbound payload of conversation `id` whose sender
    /// is not named, answering the events to raise in order: a
    /// `ConversationCreated` when the payload opened a conversation not yet
    /// known, then a `MessageReceived` when it carried content. Nothing
    /// happens for a conversation deleted here.
    pub fn apply_received(&mut self, id: &str, is_new_convo: bool, data: &[u8], ts: u64) -> (r: Vec<Event>)
        requires
            old(self)@.wf(),
        ensures
            final(self)@.wf(),
            old(self)@.is_deleted(id@) ==> final(self)@ == old(self)@ && r@.len() == 0,
            !old(self)@.is_deleted(id@) ==> {
                let is_new = is_new_convo && !old(self)@.has(id@);
                let v1 = if is_new {
                    StateView {
                        chats: old(self)@.chats.push(
                            fresh_session(id@, ConversationKind::Direct, None, None, None),
                        ),
                        ..old(self)@
                    }
                } else {
                    old(self)@
                };
                let head: int = if is_new { 1 } else { 0 };
                &&& is_new ==> created_event(r@[0], id@, false, ConversationKind::Direct, Seq::empty(), Seq::empty())
                &&& data@.len() == 0 ==> final(self)@ == v1 && r@.len() == head
                &&& data@.len() > 0 ==> {
                    &&& final(self)@ == append_to(v1, id@, received_view(spec_utf8_lossy(data@), ts, None))
                    &&& r@.len() == head + 1
                    &&& r@[head] matches Event::MessageReceived {
                        convo_id,
                        from_self,
                        content,
                        timestamp_ms,
                        is_new_convo: n,
                        sender,
                    } && convo_id@ == id@ && !from_self && content@ == spec_utf8_lossy(data@)
                        && timestamp_ms == ts && n == is_new && sender is None
                }
            },
    {
        let mut events: Vec<Event> = Vec::new();
        if self.is_deleted(id) {
            return events;
        }
        let is_new = is_new_convo && self.position(id).is_none();
        if is_new {
            let fresh = ChatSession::new(own(id), ConversationKind::Direct, None, None, None);
            let ghost c = fresh@;
            proof {
                lemma_put_wf(self@, c);
            }
            self.chats.push(fresh);
            assert(self@.chats =~= old(self)@.chats.push(c));
            proof {
                reveal_strlit("");
            }
            events.push(Event::ConversationCreated {
                convo_id: own(id),
                is_outgoing: false,
                peer_label: own(short_label(id)),
                kind: ConversationKind::Direct,
                name: String::new(),
                description: String::new(),
            });
        }
        if data.len() > 0 {
            let text = utf8_lossy(data);
            match self.position(id) {
                Some(i) => {
                    proof {
                        lemma_index_of(self@, i as int);
                    }
                    self.push_message(
                        i,
                        DisplayMessage { from_self: false, content: text.clone(), timestamp_ms: ts, sender: None },
                    );
                },
                None => {},
            }
            events.push(Event::MessageReceived {
                convo_id: own(id),
                from_self: false,
                content: text,
                timestamp_ms: ts,
                is_new_convo: is_new,
                sender: None,
            });
        }
        events
    }

    /// Record a direct conversation opened here together with an opening
    /// message: a direct session holding that message when it is not empty,
    /// replacing any session held under the id; answers the
    /// `ConversationCreated` event to raise.
    pub fn record_opened(&mut self, chat_id: &str, content: &str, ts: u64) -> (r: Event)
        requires
            old(self)@.wf(),
        ensures
            final(self)@.wf(),
            final(self)@ == old(self)@.put(
                SessionView {
                    messages: if content@.len() == 0 {
                        Seq::empty()
                    } else {
                        seq![sent_view(content@, ts)]
                    },
                    ..fresh_session(chat_id@, ConversationKind::Direct, None, None, None)
                },
            ),
            created_event(r, chat_id@, true, ConversationKind::Direct, Seq::empty(), Seq::empty()),
    {
        let mut session = ChatSession::new(own(chat_id), ConversationKind::Direct, None, None, None);
        if !content.is_empty() {
            session.messages.push(
                DisplayMessage { from_self: true, content: own(content), timestamp_ms: ts, sender: None },
            );
            assert(session@.messages =~= seq![sent_view(content@, ts)]);
        }
        let ghost c = session@;
        proof {
            lemma_put_wf(self@, c);
            reveal_strlit("");
        }
        match self.position(chat_id) {
            Some(i) => {
                proof {
                    lemma_index_of(self@, i as int);
                }
                let _ = self.chats.remove(i);
                self.chats.insert(i, session);
                assert(self@.chats =~= old(self)@.chats.update(i as int, c));
            },
            None => {
                self.chats.push(session);
                assert(self@.chats =~= old(self)@.chats.push(c));
            },
        }
        Event::ConversationCreated {
            convo_id: own(chat_id),
            is_outgoing: true,
            peer_label: own(short_label(chat_id)),
            kind: ConversationKind::Direct,
            name: String::new(),
            description: String::new(),
        }
    }
}

/// The address a received message is attributed to: the sender's account,
/// which the client verified against its directory, or its device id when it
/// claims none.
pub fn sender_address(account: Option<&str>, local_identity: &str) -> (r: String)
    ensures
        r@ == (match account {
            Some(a) => a@,
            None => local_identity@,
        }),
{
    match account {
        Some(a) => own(a),
        None => own(local_identity),
    }
}

/// This installation's intro bundle as text, or the internal failure of a
/// bundle that is not UTF-8.
pub fn intro_bundle_text(bytes: Vec<u8>) -> (r: Result<String, crate::errors::CoreError>)
    ensures
        valid_utf8(bytes@) <==> r is Ok,
        r matches Ok(s) ==> s@ == decode_utf8(bytes@),
        r matches Err(e) ==> e matches crate::errors::CoreError::Internal(m)
            && m@ == "create_intro_bundle: bundle bytes are not UTF-8"@,
{
    match crate::utf8::utf8_string(bytes) {
        Some(s) => Ok(s),
        None => Err(crate::errors::CoreError::Internal(own("create_intro_bundle: bundle bytes are not UTF-8"))),
    }
}

} // verus!
