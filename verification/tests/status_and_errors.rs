use chat_module::chats::{AppState, ConversationKind, LookupError};
use chat_module::display::{install_with, status_report, Display, InstallOutcome};
use chat_module::delivery::DeliveryStateKind;
use chat_module::errors::{
    access_code, access_result, init_result_code, Access, CoreError, InitError,
    CHAT_MODULE_ERR_BAD_ARG, CHAT_MODULE_ERR_DELIVERY, CHAT_MODULE_ERR_INTERNAL,
    CHAT_MODULE_ERR_NOT_FOUND, CHAT_MODULE_ERR_NOT_INIT, CHAT_MODULE_OK,
};

#[test]
fn every_failure_has_its_code() {
    assert_eq!(CoreError::NotInit.to_code(), CHAT_MODULE_ERR_NOT_INIT);
    assert_eq!(CoreError::NotFound.to_code(), CHAT_MODULE_ERR_NOT_FOUND);
    assert_eq!(CoreError::HistoryOnly.to_code(), CHAT_MODULE_ERR_NOT_FOUND);
    assert_eq!(CoreError::Internal("x".into()).to_code(), CHAT_MODULE_ERR_INTERNAL);
    assert_eq!(CoreError::Delivery("x".into()).to_code(), CHAT_MODULE_ERR_DELIVERY);
    assert_eq!(CoreError::Client("x".into()).to_code(), CHAT_MODULE_ERR_DELIVERY);
    assert_eq!(CoreError::Store("x".into()).to_code(), CHAT_MODULE_ERR_INTERNAL);
    assert_eq!(InitError::NoPersistencePath.to_code(), CHAT_MODULE_ERR_BAD_ARG);
    assert_eq!(InitError::Internal("x".into()).to_code(), CHAT_MODULE_ERR_INTERNAL);
    assert_eq!(InitError::Delivery("x".into()).to_code(), CHAT_MODULE_ERR_DELIVERY);
}

#[test]
fn every_failure_has_its_message() {
    assert_eq!(CoreError::NotInit.message(), "module not initialised");
    assert_eq!(CoreError::NotFound.message(), "conversation not found");
    assert_eq!(CoreError::Store("disk full".into()).message(), "chat.db: disk full");
    assert_eq!(CoreError::Client("refused".into()).message(), "refused");
    assert!(InitError::NoPersistencePath.message().starts_with("host did not assign"));
    assert_eq!(InitError::Delivery("down".into()).message(), "down");
    assert!(matches!(CoreError::from_lookup(LookupError::NotFound), CoreError::NotFound));
    assert!(matches!(CoreError::from_lookup(LookupError::HistoryOnly), CoreError::HistoryOnly));
}

#[test]
fn reaching_the_state_reports_its_failures() {
    assert!(matches!(access_result::<u8>(Access::Poisoned), Err(CoreError::Internal(m)) if m == "module lock poisoned"));
    assert!(matches!(access_result::<u8>(Access::Uninitialised), Err(CoreError::NotInit)));
    assert!(matches!(access_result(Access::Ran(7u8)), Ok(7)));

    assert_eq!(access_code(&Access::Poisoned), CHAT_MODULE_ERR_INTERNAL);
    assert_eq!(access_code(&Access::Uninitialised), CHAT_MODULE_ERR_NOT_INIT);
    assert_eq!(access_code(&Access::Ran(Ok(()))), CHAT_MODULE_OK);
    assert_eq!(access_code(&Access::Ran(Err(CoreError::NotFound))), CHAT_MODULE_ERR_NOT_FOUND);

    assert_eq!(init_result_code(&None), CHAT_MODULE_ERR_INTERNAL);
    assert_eq!(init_result_code(&Some(Ok(InstallOutcome::Installed))), CHAT_MODULE_OK);
    assert_eq!(init_result_code(&Some(Ok(InstallOutcome::AlreadyInstalled))), CHAT_MODULE_OK);
    assert_eq!(init_result_code(&Some(Err(InitError::NoPersistencePath))), CHAT_MODULE_ERR_BAD_ARG);
}

#[test]
fn state_is_installed_once() {
    let mut slot: Option<u32> = None;
    assert_eq!(install_with(&mut slot, || Err::<u32, &str>("boom")), Err("boom"));
    assert_eq!(slot, None);
    assert_eq!(install_with(&mut slot, || Ok::<u32, &str>(1)), Ok(InstallOutcome::Installed));
    assert_eq!(slot, Some(1));
    let mut ran = false;
    assert_eq!(
        install_with(&mut slot, || {
            ran = true;
            Ok::<u32, &str>(2)
        }),
        Ok(InstallOutcome::AlreadyInstalled)
    );
    assert!(!ran, "an installed state is never rebuilt");
    assert_eq!(slot, Some(1));
}

#[test]
fn status_of_a_stopped_and_a_running_module() {
    let r = status_report(None);
    assert_eq!(r.identity, None);
    assert_eq!(r.convo_count, 0);
    assert_eq!(r.delivery_state, "stopped");
    assert_eq!(r.detail, "");

    let mut state = AppState::new();
    state.record_created("c1", ConversationKind::Direct, "", "", None);
    let mut d = Display::initialised(state, "saro-laptop".into(), "addr".into());
    let r = status_report(Some(&d));
    assert_eq!(r.identity.as_deref(), Some("saro-laptop"));
    assert_eq!(r.convo_count, 1);
    assert_eq!(r.delivery_state, "initialising");

    d.state.set_installation_name("desk");
    assert_eq!(d.installation_name(), "desk");
    let s = d.status();
    assert_eq!(s.convo_count, 1);
    assert_eq!(s.delivery_state, "initialising");
    assert!(!s.delivery_adopted);

    let stopped = Display::stopped();
    assert_eq!(stopped.delivery_state.state, DeliveryStateKind::Stopped);
    assert_eq!(stopped.status().delivery_state, "stopped");
}
