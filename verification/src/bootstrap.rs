//! delivery_module's answers and what the module decides on them: the
//! `{success, value, error}` result envelope, and the createNode, getNodeInfo
//! and start steps of bringing the node up.

use vstd::prelude::*;

use crate::delivery::{mark_started, set_delivery_state, DeliveryState, DeliveryStateKind};
use crate::events::Event;
use crate::text::{concat2, own, replace_char, replace_char_exec};
use crate::errors::InitError;

verus! {

/// What a delivery_module `result` envelope holds, as the module reads it:
/// its `success` flag when that is a boolean, its `value` as JSON text when
/// the key is present, its `error` when that is a string, and the whole
/// envelope as JSON text.
#[derive(Debug)]
pub struct Envelope {
    pub success: Option<bool>,
    pub value: Option<String>,
    pub error: Option<String>,
    pub text: String,
}

/// The reason a refused call gives: its `error`, unless missing or empty.
pub open spec fn refusal_reason(error: Option<Seq<char>>) -> Seq<char> {
    match error {
        Some(e) => if e.len() > 0 { e } else { "no reason given"@ },
        None => "no reason given"@,
    }
}

/// A delivery_module `result` as delivery_module decided it.
pub open spec fn outcome_spec(res: Result<Envelope, String>) -> Result<Seq<char>, Seq<char>> {
    match res {
        Err(e) => Err(e@),
        Ok(env) => match env.success {
            Some(true) => Ok(match env.value {
                Some(v) => v@,
                None => "null"@,
            }),
            Some(false) => Err(refusal_reason(crate::text::opt_view(env.error))),
            None => Err("not a result envelope: "@ + env.text@),
        },
    }
}

/// A delivery_module `result` as delivery_module decided it: the returned
/// value (JSON text, `null` when absent) on success, its reason otherwise. A
/// call that never arrived keeps its own error; an answer that is no result
/// envelope fails naming what came back.
pub fn delivery_outcome(res: Result<Envelope, String>) -> (r: Result<String, String>)
    ensures
        match (r, outcome_spec(res)) {
            (Ok(a), Ok(b)) => a@ == b,
            (Err(a), Err(b)) => a@ == b,
            _ => false,
        },
{
    match res {
        Err(e) => Err(e),
        Ok(env) => match env.success {
            Some(true) => Ok(match env.value {
                Some(v) => v,
                None => own("null"),
            }),
            Some(false) => match env.error {
                Some(e) => if e.as_str().is_empty() {
                    Err(own("no reason given"))
                } else {
                    Err(e)
                },
                None => Err(own("no reason given")),
            },
            None => Err(concat2("not a result envelope: ", env.text.as_str())),
        },
    }
}

/// A call succeeds exactly when delivery_module says `success: true`.
pub proof fn lemma_success_only_on_true(res: Result<Envelope, String>)
    ensures
        outcome_spec(res) is Ok <==> (res matches Ok(env) && env.success == Some(true)),
{
}

/// What the bootstrap does next.
#[derive(Debug)]
pub enum BootstrapStep {
    /// Start the node.
    StartNode,
    /// createNode was refused: ask whether a node exists, keeping the reason.
    JoinExisting { reason: String },
    /// Give up; the delivery state has been moved to `Error`.
    Failed,
}

/// After createNode: start the node this module now owns, or, refused, see
/// whether a node already exists.
pub fn after_create_node(res: Result<String, String>) -> (r: BootstrapStep)
    ensures
        res is Ok ==> r is StartNode,
        res matches Err(reason) ==> r matches BootstrapStep::JoinExisting { reason: k } && k == reason,
{
    match res {
        Ok(_) => BootstrapStep::StartNode,
        Err(reason) => BootstrapStep::JoinExisting { reason },
    }
}

/// Whether a node that answers getNodeInfo was adopted: created by another
/// consumer, not by this process with `preset`.
pub open spec fn adopted_spec(own_preset: Option<Seq<char>>, preset: Seq<char>) -> bool {
    own_preset != Some(preset)
}

/// After getNodeInfo, asked because createNode was refused with `reason`: a
/// node exists, so record whether it was adopted and start it; none does, so
/// fail with createNode's reason.
pub fn after_node_info(
    d: &mut DeliveryState,
    res: Result<String, String>,
    own_preset: Option<&str>,
    preset: &str,
    reason: &str,
) -> (r: (BootstrapStep, Option<Event>))
    ensures
        res is Ok ==> {
            &&& r.0 is StartNode
            &&& r.1 is None
            &&& final(d).adopted == adopted_spec(
                match own_preset {
                    Some(p) => Some(p@),
                    None => None,
                },
                preset@,
            )
            &&& final(d).state == old(d).state
            &&& final(d).detail == old(d).detail
            &&& final(d).started == old(d).started
        },
        res is Err ==> {
            &&& r.0 is Failed
            &&& final(d).state == DeliveryStateKind::Error
            &&& final(d).detail@ == "delivery_module.createNode failed: "@ + reason@
            &&& final(d).adopted == old(d).adopted
            &&& final(d).started == old(d).started
            &&& (r.1 is None <==> (old(d).state == DeliveryStateKind::Error && old(d).detail@ == final(d).detail@))
        },
{
    match res {
        Ok(_) => {
            let adopted = match own_preset {
                Some(p) => !crate::text::str_eq(p, preset),
                None => true,
            };
            d.adopted = adopted;
            (BootstrapStep::StartNode, None)
        },
        Err(_) => {
            let detail = concat2("delivery_module.createNode failed: ", reason);
            let e = set_delivery_state(d, DeliveryStateKind::Error, detail.as_str());
            (BootstrapStep::Failed, e)
        },
    }
}

/// After start: the node is up and delivery is `Online`, or it failed and
/// delivery is `Error` with start's reason. Answers the event to raise.
pub fn after_start(d: &mut DeliveryState, res: Result<String, String>) -> (r: Option<Event>)
    ensures
        res is Ok ==> final(d).started && final(d).state == DeliveryStateKind::Online
            && final(d).detail@ == Seq::<char>::empty() && final(d).adopted == old(d).adopted,
        res matches Err(e) ==> final(d).state == DeliveryStateKind::Error && final(d).detail@
            == "delivery_module.start failed: "@ + e@ && final(d).started == old(d).started
            && final(d).adopted == old(d).adopted,
{
    match res {
        Ok(_) => mark_started(d),
        Err(e) => {
            let detail = concat2("delivery_module.start failed: ", e.as_str());
            set_delivery_state(d, DeliveryStateKind::Error, detail.as_str())
        },
    }
}

/// The instance persistence path the host assigned. A host that never set a
/// base path still stamps a context, with the path left empty, so emptiness
/// means "not configured" as much as absence does.
pub fn persistence_path(assigned: Option<String>) -> (r: Result<String, InitError>)
    ensures
        match assigned {
            Some(p) if p@.len() > 0 => r matches Ok(q) && q == p,
            _ => r matches Err(e) && e is NoPersistencePath,
        },
{
    match assigned {
        Some(p) => if p.as_str().is_empty() {
            Err(InitError::NoPersistencePath)
        } else {
            Ok(p)
        },
        None => Err(InitError::NoPersistencePath),
    }
}

/// The static key of the instance's databases, derived from its path: not
/// secret, it only satisfies SQLCipher's keying requirement.
pub fn store_key(path: &str) -> (r: String)
    ensures
        r@ == "rust-chat-"@ + replace_char(path@, '/', '_'),
{
    let replaced = replace_char_exec(path, '/', '_');
    concat2("rust-chat-", replaced.as_str())
}

} // verus!
