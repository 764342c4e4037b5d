//! What the read methods answer from: the history, the delivery state and the
//! cached identity, kept apart from the chat client so reading never waits on
//! it. Also the install-once rule of the module's state.

use vstd::prelude::*;

use crate::chats::{AppState, StateView};
use crate::delivery::{kind_word, DeliveryState, DeliveryStateKind};
use crate::text::own;

verus! {

/// Everything the read methods need.
#[derive(Debug)]
pub struct Display {
    pub state: AppState,
    pub delivery_state: DeliveryState,
    /// libchat's intrinsic installation name, cached.
    pub intrinsic_name: String,
    /// The account address a peer opens a direct conversation with.
    pub address: String,
}

impl Display {
    /// The display of a module that is not initialised.
    pub fn stopped() -> (r: Display)
        ensures
            r.state@.wf(),
            r.state@.chats.len() == 0,
            r.state@.installation_name is None,
            r.state@.deleted.len() == 0,
            r.delivery_state.state == DeliveryStateKind::Stopped,
            r.delivery_state.detail@ == Seq::<char>::empty(),
            !r.delivery_state.adopted,
            !r.delivery_state.started,
            r.intrinsic_name@ == Seq::<char>::empty(),
            r.address@ == Seq::<char>::empty(),
    {
        Display {
            state: AppState::new(),
            delivery_state: DeliveryState::stopped(),
            intrinsic_name: String::new(),
            address: String::new(),
        }
    }

    /// The display right after a successful init: the history read back,
    /// delivery initialising, and the client's name and address cached.
    pub fn initialised(state: AppState, intrinsic_name: String, address: String) -> (r: Display)
        ensures
            r.state == state,
            r.delivery_state.state == DeliveryStateKind::Initialising,
            r.delivery_state.detail@ == Seq::<char>::empty(),
            !r.delivery_state.adopted,
            !r.delivery_state.started,
            r.intrinsic_name == intrinsic_name,
            r.address == address,
    {
        Display { state, delivery_state: DeliveryState::initialising(), intrinsic_name, address }
    }

    /// The installation name shown: the override when set, else libchat's
    /// intrinsic name.
    pub fn installation_name(&self) -> (r: String)
        ensures
            r@ == (match self.state@.installation_name {
                Some(n) => n,
                None => self.intrinsic_name@,
            }),
    {
        self.state.effective_installation_name(self.intrinsic_name.as_str())
    }

    /// The runtime status.
    pub fn status(&self) -> (r: Status)
        ensures
            r.convo_count == self.state@.chats.len() as i64,
            r.delivery_state@ == kind_word(self.delivery_state.state),
            r.detail@ == self.delivery_state.detail@,
            r.delivery_adopted == self.delivery_state.adopted,
    {
        Status {
            convo_count: self.state.chats.len() as i64,
            delivery_state: own(self.delivery_state.state.as_str()),
            detail: self.delivery_state.detail.clone(),
            delivery_adopted: self.delivery_state.adopted,
        }
    }
}

/// The runtime status record.
#[derive(Debug)]
pub struct Status {
    pub convo_count: i64,
    pub delivery_state: String,
    pub detail: String,
    pub delivery_adopted: bool,
}

/// The runtime status of the C surface, with the identity shown and a
/// synthetic stopped report for a module that is not initialised.
#[derive(Debug)]
pub struct StatusReport {
    pub identity: Option<String>,
    pub convo_count: i64,
    pub delivery_state: String,
    pub detail: String,
}

/// The C surface's status: the identity, conversation count and delivery
/// state of an initialised module, or no identity, no conversations and
/// `stopped` for one that is not.
pub fn status_report(d: Option<&Display>) -> (r: StatusReport)
    ensures
        d is None ==> r.identity is None && r.convo_count == 0 && r.delivery_state@ == "stopped"@
            && r.detail@ == Seq::<char>::empty(),
        d matches Some(x) ==> {
            &&& r.identity matches Some(i) && i@ == (match x.state@.installation_name {
                Some(n) => n,
                None => x.intrinsic_name@,
            })
            &&& r.convo_count == x.state@.chats.len() as i64
            &&& r.delivery_state@ == kind_word(x.delivery_state.state)
            &&& r.detail@ == x.delivery_state.detail@
        },
{
    match d {
        None => StatusReport {
            identity: None,
            convo_count: 0,
            delivery_state: own(DeliveryStateKind::Stopped.as_str()),
            detail: String::new(),
        },
        Some(x) => StatusReport {
            identity: Some(x.installation_name()),
            convo_count: x.state.chats.len() as i64,
            delivery_state: own(x.delivery_state.state.as_str()),
            detail: x.delivery_state.detail.clone(),
        },
    }
}

/// Whether installing found the slot empty.
#[derive(Debug, Clone, Copy, PartialEq, Eq, Structural)]
pub enum InstallOutcome {
    Installed,
    AlreadyInstalled,
}

/// Install the state that `make` builds into an empty `slot`. A slot already
/// holding one is left alone and `make` is never run; a failed `make` leaves
/// the slot empty and hands its error back.
pub fn install_with<S, E, F: FnOnce() -> Result<S, E>>(slot: &mut Option<S>, make: F) -> (r: Result<
    InstallOutcome,
    E,
>)
    requires
        *old(slot) is None ==> make.requires(()),
    ensures
        *old(slot) is Some ==> *final(slot) == *old(slot) && r == Ok::<InstallOutcome, E>(
            InstallOutcome::AlreadyInstalled,
        ),
        *old(slot) is None ==> exists|made: Result<S, E>|
            make.ensures((), made) && match made {
                Ok(s) => *final(slot) == Some(s) && r == Ok::<InstallOutcome, E>(InstallOutcome::Installed),
                Err(e) => *final(slot) is None && r == Err::<InstallOutcome, E>(e),
            },
{
    if slot.is_some() {
        return Ok(InstallOutcome::AlreadyInstalled);
    }
    let made = make();
    match made {
        Ok(s) => {
            *slot = Some(s);
            Ok(InstallOutcome::Installed)
        },
        Err(e) => Err(e),
    }
}

} // verus!
