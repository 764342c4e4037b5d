//! The delivery state the module reports, and how delivery_module's
//! connectivity reports and bootstrap results move it.

use vstd::prelude::*;

use crate::events::Event;
use crate::text::{concat3, is_prefix, own, starts_with, str_eq};

verus! {

/// Where delivery stands. `Initialising` covers the gap between a successful
/// init and delivery finishing startup, `Stopped` means not initialised.
#[derive(Debug, Clone, Copy, PartialEq, Eq, Structural)]
pub enum DeliveryStateKind {
    Initialising,
    Online,
    Error,
    Stopped,
}

/// The lowercase wire word of each state.
pub open spec fn kind_word(k: DeliveryStateKind) -> Seq<char> {
    match k {
        DeliveryStateKind::Initialising => "initialising"@,
        DeliveryStateKind::Online => "online"@,
        DeliveryStateKind::Error => "error"@,
        DeliveryStateKind::Stopped => "stopped"@,
    }
}

impl DeliveryStateKind {
    /// Lowercase wire form, the `delivery_state` value of the
    /// `delivery_state_changed` event and of `status`.
    pub fn as_str(self) -> (r: &'static str)
        ensures
            r@ == kind_word(self),
    {
        match self {
            DeliveryStateKind::Initialising => "initialising",
            DeliveryStateKind::Online => "online",
            DeliveryStateKind::Error => "error",
            DeliveryStateKind::Stopped => "stopped",
        }
    }
}

/// The delivery state with its human detail, whether the node was adopted
/// from another consumer, and whether it has been started.
#[derive(Debug)]
pub struct DeliveryState {
    pub state: DeliveryStateKind,
    pub detail: String,
    pub adopted: bool,
    pub started: bool,
}

impl DeliveryState {
    /// The state right after a successful init.
    pub fn initialising() -> (r: Self)
        ensures
            r.state == DeliveryStateKind::Initialising,
            r.detail@ == Seq::<char>::empty(),
            !r.adopted,
            !r.started,
    {
        DeliveryState {
            state: DeliveryStateKind::Initialising,
            detail: String::new(),
            adopted: false,
            started: false,
        }
    }

    /// The state when not initialised.
    pub fn stopped() -> (r: Self)
        ensures
            r.state == DeliveryStateKind::Stopped,
            r.detail@ == Seq::<char>::empty(),
            !r.adopted,
            !r.started,
    {
        DeliveryState {
            state: DeliveryStateKind::Stopped,
            detail: String::new(),
            adopted: false,
            started: false,
        }
    }
}

/// What an upstream connectivity status means: reachable, or not.
pub open spec fn status_kind(status: Seq<char>) -> DeliveryStateKind {
    if status == "Connected"@ || status == "PartiallyConnected"@ {
        DeliveryStateKind::Online
    } else {
        DeliveryStateKind::Error
    }
}

/// Maps delivery_module's `connectionStateChanged` status. Unknown statuses
/// map to `Error` so a degraded state is not silently reported as healthy.
pub fn map_connection_status(status: &str) -> (r: DeliveryStateKind)
    ensures
        r == status_kind(status@),
{
    if str_eq(status, "Connected") || str_eq(status, "PartiallyConnected") {
        DeliveryStateKind::Online
    } else {
        DeliveryStateKind::Error
    }
}

/// The state to move to for a connectivity `status`, `None` to ignore it.
pub open spec fn transition_spec(current: DeliveryStateKind, status: Seq<char>) -> Option<DeliveryStateKind> {
    if current == DeliveryStateKind::Initialising {
        None
    } else {
        Some(status_kind(status))
    }
}

/// The delivery state to move to for an upstream connectivity `status`, or
/// `None` to ignore the event. While still `Initialising` connectivity is
/// ignored, since delivery reports `Connected` mid-bootstrap long before it
/// can service a call; readiness is gated on the start handshake instead.
pub fn connection_transition(current: DeliveryStateKind, status: &str) -> (r: Option<DeliveryStateKind>)
    ensures
        r == transition_spec(current, status@),
{
    if current == DeliveryStateKind::Initialising {
        return None;
    }
    Some(map_connection_status(status))
}

/// Connectivity only ever moves delivery between `Online` and `Error`: it
/// never makes it `Initialising` or `Stopped`, and it leaves an initialising
/// state alone, so `Stopped` is never the state of a running module and
/// `Initialising` lasts until the start handshake ends it.
pub proof fn lemma_connectivity_only_toggles_online_and_error(current: DeliveryStateKind, status: Seq<char>)
    ensures
        transition_spec(current, status) matches Some(k) ==> (k == DeliveryStateKind::Online || k
            == DeliveryStateKind::Error),
        current == DeliveryStateKind::Initialising ==> transition_spec(current, status) is None,
{
}

/// Once delivery is past initialising, a connectivity report sets it to
/// `Online` exactly when the status is `Connected` or `PartiallyConnected`,
/// and to `Error` for every other status.
pub proof fn lemma_connectivity_follows_the_status(current: DeliveryStateKind, status: Seq<char>)
    ensures
        (status_kind(status) == DeliveryStateKind::Online) <==> (status == "Connected"@ || status
            == "PartiallyConnected"@),
        (status_kind(status) == DeliveryStateKind::Error) <==> !(status == "Connected"@ || status
            == "PartiallyConnected"@),
        current != DeliveryStateKind::Initialising ==> {
            &&& (transition_spec(current, status) == Some(DeliveryStateKind::Online)) <==> (status == "Connected"@
                || status == "PartiallyConnected"@)
            &&& (transition_spec(current, status) == Some(DeliveryStateKind::Error)) <==> !(status
                == "Connected"@ || status == "PartiallyConnected"@)
        },
{
}

/// Move to `state` with `detail`, answering the `DeliveryStateChanged` event to
/// raise. Nothing changes, and nothing is raised, when both already hold.
pub fn set_delivery_state(d: &mut DeliveryState, state: DeliveryStateKind, detail: &str) -> (r: Option<Event>)
    ensures
        final(d).state == state,
        final(d).detail@ == detail@,
        final(d).adopted == old(d).adopted,
        final(d).started == old(d).started,
        (old(d).state == state && old(d).detail@ == detail@) <==> r is None,
        r matches Some(e) ==> e matches Event::DeliveryStateChanged { state: s, detail: t, adopted: a }
            && s == state && t@ == detail@ && a == old(d).adopted,
{
    if d.state == state && str_eq(d.detail.as_str(), detail) {
        return None;
    }
    d.state = state;
    d.detail = own(detail);
    Some(Event::DeliveryStateChanged { state, detail: own(detail), adopted: d.adopted })
}

/// Apply a connectivity `status` to the delivery state, with no detail
/// (delivery_module's report carries none), answering the event to raise.
pub fn handle_connection_state(d: &mut DeliveryState, status: &str) -> (r: Option<Event>)
    ensures
        transition_spec(old(d).state, status@) is None ==> *final(d) == *old(d) && r is None,
        transition_spec(old(d).state, status@) matches Some(k) ==> {
            &&& final(d).state == k
            &&& final(d).detail@ == Seq::<char>::empty()
            &&& final(d).adopted == old(d).adopted
            &&& final(d).started == old(d).started
            &&& ((old(d).state == k && old(d).detail@ == Seq::<char>::empty()) <==> r is None)
        },
{
    let none = "";
    proof {
        reveal_strlit("");
        assert(none@ =~= Seq::<char>::empty());
    }
    match connection_transition(d.state, status) {
        Some(next) => set_delivery_state(d, next, none),
        None => None,
    }
}

/// Delivery reported ready: the node is started and the state is `Online`.
pub fn mark_started(d: &mut DeliveryState) -> (r: Option<Event>)
    ensures
        final(d).started,
        final(d).state == DeliveryStateKind::Online,
        final(d).detail@ == Seq::<char>::empty(),
        final(d).adopted == old(d).adopted,
        ((old(d).state == DeliveryStateKind::Online && old(d).detail@ == Seq::<char>::empty()) <==> r is None),
{
    let none = "";
    proof {
        reveal_strlit("");
        assert(none@ =~= Seq::<char>::empty());
    }
    d.started = true;
    set_delivery_state(d, DeliveryStateKind::Online, none)
}

/// Whether the core's queued subscriptions may be forwarded: only once the
/// node is online, since delivery rejects a subscribe before it has started.
pub fn may_forward_subscriptions(d: &DeliveryState) -> (r: bool)
    ensures
        r == (d.state == DeliveryStateKind::Online),
{
    d.state == DeliveryStateKind::Online
}

/// The single home of chat's content-topic scheme.
pub const TOPIC_PREFIX: &'static str = "/logos-chat/1/";

/// The content topic of a delivery address.
pub open spec fn topic_spec(address: Seq<char>) -> Seq<char> {
    "/logos-chat/1/"@ + address + "/proto"@
}

/// The content topic a delivery address publishes and subscribes on.
pub fn content_topic_for(delivery_address: &str) -> (r: String)
    ensures
        r@ == topic_spec(delivery_address@),
{
    concat3("/logos-chat/1/", delivery_address, "/proto")
}

/// Whether an inbound message's topic belongs to chat. libp2p delivers every
/// message of the shard whatever the subscription, so anything else is
/// dropped before it reaches the client.
pub fn is_chat_topic(topic: &str) -> (r: bool)
    ensures
        r == is_prefix("/logos-chat/1/"@, topic@),
{
    starts_with(topic, "/logos-chat/1/")
}

/// Every topic this module publishes or subscribes on passes its own inbound
/// filter.
pub proof fn lemma_own_topics_pass_the_filter(address: Seq<char>)
    ensures
        is_prefix("/logos-chat/1/"@, topic_spec(address)),
{
    let t = topic_spec(address);
    let p = "/logos-chat/1/"@;
    assert(t.subrange(0, p.len() as int) =~= p);
}

/// Distinct delivery addresses have distinct content topics.
pub proof fn lemma_topics_are_distinct(a: Seq<char>, b: Seq<char>)
    requires
        a != b,
    ensures
        topic_spec(a) != topic_spec(b),
{
    let p = "/logos-chat/1/"@;
    let q = "/proto"@;
    if topic_spec(a) == topic_spec(b) {
        assert(topic_spec(a).len() == topic_spec(b).len());
        assert(a.len() == b.len());
        assert forall|i: int| 0 <= i < a.len() implies a[i] == b[i] by {
            assert(topic_spec(a)[p.len() + i] == a[i]);
            assert(topic_spec(b)[p.len() + i] == b[i]);
        }
        assert(a =~= b);
    }
}

} // verus!
