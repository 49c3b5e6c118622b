use xdiag::session::{XftAction, XftEvent, XftSession};

#[test]
fn expose_draws_at_centre_of_current_size() {
    let mut s = XftSession::new(7, 300, 800, 600);
    assert_eq!(s.on_event(XftEvent::Expose), XftAction::DrawLabel { x: 400, y: 300 });
    assert_eq!(s.on_event(XftEvent::Configure { width: 101, height: 51 }), XftAction::Nothing);
    assert_eq!(s.on_event(XftEvent::Expose), XftAction::DrawLabel { x: 50, y: 25 });
}

#[test]
fn close_request_must_match_window_format_and_atom() {
    let mut s = XftSession::new(7, 300, 800, 600);
    let ask = |format, window, data0| XftEvent::ClientMessage { format, window, data0 };
    assert_eq!(s.on_event(ask(8, 7, 300)), XftAction::Nothing);
    assert_eq!(s.on_event(ask(32, 8, 300)), XftAction::Nothing);
    assert_eq!(s.on_event(ask(32, 7, 301)), XftAction::Nothing);
    assert_eq!(s.on_event(ask(32, 7, 300)), XftAction::Close);
}

#[test]
fn destroy_releases_once() {
    let mut s = XftSession::new(7, 300, 800, 600);
    assert_eq!(s.on_event(XftEvent::Destroy { window: 9 }), XftAction::Nothing);
    assert!(!s.released);
    assert_eq!(s.on_event(XftEvent::Destroy { window: 7 }), XftAction::ReleaseResources);
    assert_eq!(s.on_event(XftEvent::Destroy { window: 7 }), XftAction::Nothing);
    assert!(s.released);
}

#[test]
fn errors_and_unknown_events_are_logged() {
    let mut s = XftSession::new(7, 300, 800, 600);
    assert_eq!(s.on_event(XftEvent::Error), XftAction::LogError);
    assert_eq!(s.on_event(XftEvent::Other), XftAction::LogUnknown);
}
