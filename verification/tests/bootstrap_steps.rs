use chat_module::bootstrap::{
    after_create_node, after_node_info, after_start, delivery_outcome, persistence_path,
    store_key, BootstrapStep, Envelope,
};
use chat_module::delivery::{DeliveryState, DeliveryStateKind};
use chat_module::errors::InitError;
use chat_module::events::Event;
use serde_json::Value;

/// What the module reads of a delivery_module answer.
fn envelope(v: &Value) -> Envelope {
    Envelope {
        success: v.get("success").and_then(Value::as_bool),
        value: v.get("value").map(|x| x.to_string()),
        error: v.get("error").and_then(Value::as_str).map(str::to_owned),
        text: v.to_string(),
    }
}

fn result(success: bool, value: Value, error: Value) -> Result<Envelope, String> {
    let mut m = serde_json::Map::new();
    m.insert("success".to_string(), Value::Bool(success));
    m.insert("value".to_string(), value);
    m.insert("error".to_string(), error);
    Ok(envelope(&Value::Object(m)))
}

#[test]
fn a_successful_result_yields_its_value() {
    assert_eq!(
        delivery_outcome(result(true, Value::String("enr:-abc".into()), Value::Null)),
        Ok(Value::String("enr:-abc".into()).to_string())
    );
}

#[test]
fn a_refused_call_fails_with_delivery_modules_reason() {
    assert_eq!(
        delivery_outcome(result(false, Value::Null, Value::String("Context not initialized".into()))),
        Err("Context not initialized".to_owned())
    );
}

#[test]
fn a_refusal_without_a_reason_still_fails() {
    for error in [Value::Null, Value::String(String::new())] {
        assert_eq!(
            delivery_outcome(result(false, Value::Null, error)),
            Err("no reason given".to_owned())
        );
    }
}

#[test]
fn a_call_that_never_arrived_keeps_its_error() {
    let failed = delivery_outcome(Err("no such module".to_string()));
    assert!(failed.unwrap_err().contains("no such module"));
}

#[test]
fn a_value_with_no_envelope_fails() {
    let failed = delivery_outcome(Ok(envelope(&Value::Bool(true))));
    assert_eq!(failed, Err("not a result envelope: true".to_string()));
}

#[test]
fn a_success_without_a_value_yields_null() {
    let mut m = serde_json::Map::new();
    m.insert("success".to_string(), Value::Bool(true));
    assert_eq!(delivery_outcome(Ok(envelope(&Value::Object(m)))), Ok("null".to_string()));
}

#[test]
fn a_created_node_is_started_and_a_refusal_asks_for_one() {
    assert!(matches!(after_create_node(Ok("true".into())), BootstrapStep::StartNode));
    assert!(matches!(
        after_create_node(Err("exists".into())),
        BootstrapStep::JoinExisting { reason } if reason == "exists"
    ));
}

#[test]
fn an_existing_node_is_adopted_unless_this_process_made_it() {
    let mut d = DeliveryState::initialising();
    let (step, e) = after_node_info(&mut d, Ok("{}".into()), None, "logos.test", "exists");
    assert!(matches!(step, BootstrapStep::StartNode));
    assert!(e.is_none());
    assert!(d.adopted);

    let mut d = DeliveryState::initialising();
    let (_, _) = after_node_info(&mut d, Ok("{}".into()), Some("logos.test"), "logos.test", "exists");
    assert!(!d.adopted);

    let mut d = DeliveryState::initialising();
    let (_, _) = after_node_info(&mut d, Ok("{}".into()), Some("other"), "logos.test", "exists");
    assert!(d.adopted);
}

#[test]
fn no_node_at_all_fails_with_create_nodes_reason() {
    let mut d = DeliveryState::initialising();
    let (step, e) = after_node_info(&mut d, Err("none".into()), None, "logos.test", "port in use");
    assert!(matches!(step, BootstrapStep::Failed));
    assert_eq!(d.state, DeliveryStateKind::Error);
    assert_eq!(d.detail, "delivery_module.createNode failed: port in use");
    assert!(matches!(e, Some(Event::DeliveryStateChanged { state: DeliveryStateKind::Error, .. })));
}

#[test]
fn start_brings_delivery_online_or_names_its_failure() {
    let mut d = DeliveryState::initialising();
    let e = after_start(&mut d, Ok("true".into()));
    assert!(d.started);
    assert_eq!(d.state, DeliveryStateKind::Online);
    assert_eq!(d.detail, "");
    assert!(matches!(e, Some(Event::DeliveryStateChanged { state: DeliveryStateKind::Online, .. })));

    let mut d = DeliveryState::initialising();
    let _ = after_start(&mut d, Err("boom".into()));
    assert!(!d.started);
    assert_eq!(d.state, DeliveryStateKind::Error);
    assert_eq!(d.detail, "delivery_module.start failed: boom");
}

#[test]
fn persistence_needs_a_non_empty_path() {
    assert_eq!(persistence_path(Some("/data/inst".into())).ok(), Some("/data/inst".to_string()));
    assert!(matches!(persistence_path(Some(String::new())), Err(InitError::NoPersistencePath)));
    assert!(matches!(persistence_path(None), Err(InitError::NoPersistencePath)));
}

#[test]
fn the_store_key_is_derived_from_the_path() {
    assert_eq!(store_key("/data/inst/a"), "rust-chat-_data_inst_a");
    assert_eq!(store_key(""), "rust-chat-");
}
