use quanshu::asgi::websocket::{websocket_step, WsAction, WsEvent, WsMessage};

#[test]
fn data_messages_are_thanked() {
    assert_eq!(
        websocket_step(WsEvent::Text("hello".to_string())),
        WsAction::Reply(WsMessage::Text("Thank you, come again.".to_string()))
    );
    assert_eq!(
        websocket_step(WsEvent::Binary(vec![1, 2])),
        WsAction::Reply(WsMessage::Binary(b"Thank you, come again.".to_vec()))
    );
}

#[test]
fn control_frames_need_no_answer() {
    assert_eq!(websocket_step(WsEvent::Ping(vec![1])), WsAction::Continue);
    assert_eq!(websocket_step(WsEvent::Pong(vec![])), WsAction::Continue);
    assert_eq!(websocket_step(WsEvent::Close(Some((1000, "bye".to_string())))), WsAction::Continue);
    assert_eq!(websocket_step(WsEvent::Close(None)), WsAction::Continue);
}

#[test]
fn idle_connections_are_pinged() {
    assert_eq!(websocket_step(WsEvent::Tick), WsAction::Reply(WsMessage::Ping(vec![])));
}

#[test]
fn end_and_error_stop_the_connection() {
    assert_eq!(websocket_step(WsEvent::Ended), WsAction::Stop);
    assert_eq!(websocket_step(WsEvent::Error), WsAction::Fail);
}
