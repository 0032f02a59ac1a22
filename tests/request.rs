use portal_gtk::request::{transition, Reply, RequestEvent, RequestPhase, RequestRegistry};

#[test]
fn close_before_completion_cancels() {
    let (p, a) = transition(RequestPhase::Pending, RequestEvent::Exported);
    assert_eq!(p, RequestPhase::Registered);
    assert_eq!(a.reply, Reply::Nothing);
    let (p, a) = transition(p, RequestEvent::CloseRequested);
    assert_eq!(p, RequestPhase::Resolved);
    assert_eq!(a.reply, Reply::Cancelled);
    assert!(a.unregister && a.notify_cancel);
    let (p, a) = transition(p, RequestEvent::InteractionDone);
    assert_eq!(p, RequestPhase::Resolved);
    assert_eq!(a.reply, Reply::Nothing);
}

#[test]
fn close_after_completion_is_noop() {
    let (p, _) = transition(RequestPhase::Pending, RequestEvent::Exported);
    let (p, a) = transition(p, RequestEvent::InteractionDone);
    assert_eq!(a.reply, Reply::Completed);
    assert!(a.unregister && !a.notify_cancel);
    let (p, a) = transition(p, RequestEvent::CloseRequested);
    assert_eq!(p, RequestPhase::Resolved);
    assert_eq!(a.reply, Reply::Nothing);
    assert!(!a.unregister);
}

#[test]
fn close_before_export_is_lost() {
    let (p, a) = transition(RequestPhase::Pending, RequestEvent::CloseRequested);
    assert_eq!(p, RequestPhase::Pending);
    assert_eq!(a.reply, Reply::Nothing);
    let (p, a) = transition(p, RequestEvent::InteractionDone);
    assert_eq!(p, RequestPhase::Resolved);
    assert_eq!(a.reply, Reply::Completed);
}

#[test]
fn failed_export_runs_without_cancel() {
    let (p, _) = transition(RequestPhase::Pending, RequestEvent::ExportFailed);
    assert_eq!(p, RequestPhase::Unguarded);
    let (p, a) = transition(p, RequestEvent::CloseRequested);
    assert_eq!((p, a.reply), (RequestPhase::Unguarded, Reply::Nothing));
    let (_, a) = transition(p, RequestEvent::InteractionDone);
    assert_eq!(a.reply, Reply::Completed);
    assert!(!a.unregister);
}

#[test]
fn distinct_tokens_are_independent() {
    let a = "/org/freedesktop/portal/desktop/request/1_1/a".to_string();
    let b = "/org/freedesktop/portal/desktop/request/1_1/b".to_string();
    let mut reg = RequestRegistry::new();
    assert!(reg.begin(a.clone()));
    assert!(reg.begin(b.clone()));
    assert!(!reg.begin(a.clone()));
    reg.deliver(&a, RequestEvent::Exported);
    reg.deliver(&b, RequestEvent::Exported);
    let closed = reg.deliver(&a, RequestEvent::CloseRequested).unwrap();
    assert_eq!(closed.reply, Reply::Cancelled);
    assert!(!reg.contains(&a));
    assert!(reg.contains(&b));
    let done = reg.deliver(&b, RequestEvent::InteractionDone).unwrap();
    assert_eq!(done.reply, Reply::Completed);
    assert!(!reg.contains(&b));
    assert!(reg.deliver(&a, RequestEvent::InteractionDone).is_none());
}
