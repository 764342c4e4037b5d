//! The module's failure modes, the messages they carry, and the integer codes
//! its C surface answers with.

use vstd::prelude::*;

use crate::chats::LookupError;
use crate::display::InstallOutcome;
use crate::text::{concat2, own};

verus! {

/// Success.
pub const CHAT_MODULE_OK: i32 = 0;
/// Module is not initialised (or has been shut down).
pub const CHAT_MODULE_ERR_NOT_INIT: i32 = -1;
/// A required argument was NULL or otherwise malformed.
pub const CHAT_MODULE_ERR_BAD_ARG: i32 = -3;
/// `delivery_module` IPC or operation failure.
pub const CHAT_MODULE_ERR_DELIVERY: i32 = -4;
/// Internal error (lock poison, allocation failure, persistence error, ...).
pub const CHAT_MODULE_ERR_INTERNAL: i32 = -5;
/// `convo_id` (or other lookup key) is unknown.
pub const CHAT_MODULE_ERR_NOT_FOUND: i32 = -6;

/// Failure modes of the steady-state operations.
#[derive(Debug)]
pub enum CoreError {
    /// Not initialised.
    NotInit,
    /// Unknown conversation.
    NotFound,
    /// A conversation from a previous session, kept for its history only.
    HistoryOnly,
    /// An internal failure with its reason.
    Internal(String),
    /// A delivery failure with its reason.
    Delivery(String),
    /// A failure the chat client reported, with its reason.
    Client(String),
    /// A failure writing or reading `chat.db`, with its reason.
    Store(String),
}

/// The code the C surface answers each failure with.
pub open spec fn core_code(e: CoreError) -> i32 {
    match e {
        CoreError::NotInit => CHAT_MODULE_ERR_NOT_INIT,
        CoreError::NotFound => CHAT_MODULE_ERR_NOT_FOUND,
        CoreError::HistoryOnly => CHAT_MODULE_ERR_NOT_FOUND,
        CoreError::Internal(_) => CHAT_MODULE_ERR_INTERNAL,
        CoreError::Delivery(_) => CHAT_MODULE_ERR_DELIVERY,
        CoreError::Client(_) => CHAT_MODULE_ERR_DELIVERY,
        CoreError::Store(_) => CHAT_MODULE_ERR_INTERNAL,
    }
}

/// The message each failure is reported with.
pub open spec fn core_message(e: CoreError) -> Seq<char> {
    match e {
        CoreError::NotInit => "module not initialised"@,
        CoreError::NotFound => "conversation not found"@,
        CoreError::HistoryOnly => "conversation is from a previous session and kept for its history only"@,
        CoreError::Internal(m) => m@,
        CoreError::Delivery(m) => m@,
        CoreError::Client(m) => m@,
        CoreError::Store(m) => "chat.db: "@ + m@,
    }
}

impl CoreError {
    /// The C surface's code for this failure.
    pub fn to_code(&self) -> (r: i32)
        ensures
            r == core_code(*self),
    {
        match self {
            CoreError::NotInit => CHAT_MODULE_ERR_NOT_INIT,
            CoreError::NotFound => CHAT_MODULE_ERR_NOT_FOUND,
            CoreError::HistoryOnly => CHAT_MODULE_ERR_NOT_FOUND,
            CoreError::Internal(_) => CHAT_MODULE_ERR_INTERNAL,
            CoreError::Delivery(_) => CHAT_MODULE_ERR_DELIVERY,
            CoreError::Client(_) => CHAT_MODULE_ERR_DELIVERY,
            CoreError::Store(_) => CHAT_MODULE_ERR_INTERNAL,
        }
    }

    /// The message this failure is reported with.
    pub fn message(&self) -> (r: String)
        ensures
            r@ == core_message(*self),
    {
        match self {
            CoreError::NotInit => own("module not initialised"),
            CoreError::NotFound => own("conversation not found"),
            CoreError::HistoryOnly => own(
                "conversation is from a previous session and kept for its history only",
            ),
            CoreError::Internal(m) => m.clone(),
            CoreError::Delivery(m) => m.clone(),
            CoreError::Client(m) => m.clone(),
            CoreError::Store(m) => concat2("chat.db: ", m.as_str()),
        }
    }

    /// The failure a conversation lookup reports.
    pub fn from_lookup(e: LookupError) -> (r: CoreError)
        ensures
            e == LookupError::NotFound ==> r is NotFound,
            e == LookupError::HistoryOnly ==> r is HistoryOnly,
    {
        match e {
            LookupError::NotFound => CoreError::NotFound,
            LookupError::HistoryOnly => CoreError::HistoryOnly,
        }
    }
}

/// Failure modes of initialisation.
#[derive(Debug)]
pub enum InitError {
    /// The host assigned no instance persistence path.
    NoPersistencePath,
    /// A local failure with its reason.
    Internal(String),
    /// A delivery failure with its reason.
    Delivery(String),
}

/// The code the C surface answers each initialisation failure with.
pub open spec fn init_code(e: InitError) -> i32 {
    match e {
        InitError::NoPersistencePath => CHAT_MODULE_ERR_BAD_ARG,
        InitError::Internal(_) => CHAT_MODULE_ERR_INTERNAL,
        InitError::Delivery(_) => CHAT_MODULE_ERR_DELIVERY,
    }
}

impl InitError {
    /// The C surface's code for this failure.
    pub fn to_code(&self) -> (r: i32)
        ensures
            r == init_code(*self),
    {
        match self {
            InitError::NoPersistencePath => CHAT_MODULE_ERR_BAD_ARG,
            InitError::Internal(_) => CHAT_MODULE_ERR_INTERNAL,
            InitError::Delivery(_) => CHAT_MODULE_ERR_DELIVERY,
        }
    }

    /// The message this failure is reported with.
    pub fn message(&self) -> (r: String)
        ensures
            self is NoPersistencePath ==> r@
                == "host did not assign an instance persistence path; start the host with a session or config dir"@,
            self matches InitError::Internal(m) ==> r@ == m@,
            self matches InitError::Delivery(m) ==> r@ == m@,
    {
        match self {
            InitError::NoPersistencePath => own(
                "host did not assign an instance persistence path; start the host with a session or config dir",
            ),
            InitError::Internal(m) => m.clone(),
            InitError::Delivery(m) => m.clone(),
        }
    }
}

/// What reaching the module's state came to: its lock poisoned, no state
/// installed, or the operation ran and answered `R`.
#[derive(Debug)]
pub enum Access<R> {
    Poisoned,
    Uninitialised,
    Ran(R),
}

/// The operation's answer, with "not initialised" and the unreachable
/// poisoned lock as failures.
pub fn access_result<R>(a: Access<R>) -> (r: Result<R, CoreError>)
    ensures
        a is Poisoned ==> (r matches Err(CoreError::Internal(m)) && m@ == "module lock poisoned"@),
        a is Uninitialised ==> (r matches Err(e) && e is NotInit),
        a matches Access::Ran(v) ==> r == Ok::<R, CoreError>(v),
{
    match a {
        Access::Poisoned => Err(CoreError::Internal(own("module lock poisoned"))),
        Access::Uninitialised => Err(CoreError::NotInit),
        Access::Ran(v) => Ok(v),
    }
}

/// The code a C entry point answers for an operation that returns nothing:
/// success, the operation's own failure, "not initialised", or an internal
/// failure for the poisoned lock.
pub fn access_code(a: &Access<Result<(), CoreError>>) -> (r: i32)
    ensures
        *a is Poisoned ==> r == CHAT_MODULE_ERR_INTERNAL,
        *a is Uninitialised ==> r == CHAT_MODULE_ERR_NOT_INIT,
        *a matches Access::Ran(Ok(())) ==> r == CHAT_MODULE_OK,
        *a matches Access::Ran(Err(e)) ==> r == core_code(e),
{
    match a {
        Access::Poisoned => CHAT_MODULE_ERR_INTERNAL,
        Access::Uninitialised => CHAT_MODULE_ERR_NOT_INIT,
        Access::Ran(Ok(())) => CHAT_MODULE_OK,
        Access::Ran(Err(e)) => e.to_code(),
    }
}

/// The code the C `init` answers for what installing its state came to
/// (`None`: the lock was poisoned): success when a state was installed or
/// one already was, else the failure's own code.
pub fn init_result_code(outcome: &Option<Result<InstallOutcome, InitError>>) -> (r: i32)
    ensures
        *outcome is None ==> r == CHAT_MODULE_ERR_INTERNAL,
        *outcome matches Some(Ok(_)) ==> r == CHAT_MODULE_OK,
        *outcome matches Some(Err(e)) ==> r == init_code(e),
{
    match outcome {
        None => CHAT_MODULE_ERR_INTERNAL,
        Some(Ok(_)) => CHAT_MODULE_OK,
        Some(Err(e)) => e.to_code(),
    }
}

/// Every failure has a code other than success.
pub proof fn lemma_failures_never_report_ok(e: CoreError, f: InitError)
    ensures
        core_code(e) != CHAT_MODULE_OK,
        init_code(f) != CHAT_MODULE_OK,
{
}

} // verus!
