use todo_registry::app::SessionAction;
use todo_registry::app::resolve_session;

#[test]
fn remove_outranks_save() {
    assert_eq!(resolve_session(true, true, true), SessionAction::Delete);
    assert_eq!(resolve_session(true, true, false), SessionAction::Delete);
    assert_eq!(resolve_session(false, true, true), SessionAction::Delete);
    assert_eq!(resolve_session(false, true, false), SessionAction::Delete);
}

#[test]
fn save_outranks_close() {
    assert_eq!(resolve_session(true, false, true), SessionAction::Commit);
    assert_eq!(resolve_session(true, false, false), SessionAction::Commit);
}

#[test]
fn close_alone_discards() {
    assert_eq!(resolve_session(false, false, true), SessionAction::Discard);
}

#[test]
fn no_signal_keeps_the_session_open() {
    assert_eq!(resolve_session(false, false, false), SessionAction::KeepOpen);
}
