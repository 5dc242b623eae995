use kedu::ipc::{ClientRequest, Session, SessionAction, SessionEvent};

#[test]
fn ping_is_answered_with_pong_and_ends_the_connection() {
    let (state, action) = Session::AwaitingRequest.step(SessionEvent::Request(ClientRequest::Ping));
    assert_eq!(state, Session::Finished);
    assert_eq!(action, SessionAction::SendPong);
}

#[test]
fn subscribers_get_the_state_then_each_snapshot() {
    let (state, action) =
        Session::AwaitingRequest.step(SessionEvent::Request(ClientRequest::Subscribe));
    assert_eq!((state, action), (Session::Subscribed, SessionAction::SendState));
    let (state, action) = state.step(SessionEvent::Published);
    assert_eq!((state, action), (Session::Subscribed, SessionAction::SendSnapshot));
    let (state, action) = state.step(SessionEvent::Lagged);
    assert_eq!((state, action), (Session::Subscribed, SessionAction::SendState));
    let (state, action) = state.step(SessionEvent::Closed);
    assert_eq!((state, action), (Session::Finished, SessionAction::Nothing));
}

#[test]
fn a_finished_connection_sends_nothing_more() {
    let (state, action) = Session::AwaitingRequest.step(SessionEvent::Hangup);
    assert_eq!((state, action), (Session::Finished, SessionAction::Nothing));
    for event in [
        SessionEvent::Published,
        SessionEvent::Lagged,
        SessionEvent::Request(ClientRequest::Ping),
    ] {
        assert_eq!(state.step(event), (Session::Finished, SessionAction::Nothing));
    }
}
