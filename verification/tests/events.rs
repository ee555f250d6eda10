use quanshu::asgi::dict::DictValue;
use quanshu::asgi::events::{
    request_chunk_event, EventKey, Field, HeaderItem, Receive, Send, SendEvent, SendEventError,
};
use quanshu::asgi::specs::Type;

fn s(x: &str) -> String {
    x.to_string()
}

fn ty(t: &str) -> (String, DictValue) {
    (s("type"), DictValue::Str(s(t)))
}

#[test]
fn http_request_event_dict() {
    let d = Receive::HttpRequest { body: vec![1, 2, 3], more_body: true }.into_dict();
    assert_eq!(
        d,
        vec![
            ty("http.request"),
            (s("body"), DictValue::IntList(vec![1, 2, 3])),
            (s("more_body"), DictValue::Bool(true)),
        ]
    );
}

#[test]
fn bare_event_dicts() {
    assert_eq!(Receive::Disconnect.into_dict(), vec![ty("http.disconnect")]);
    assert_eq!(Receive::WebsocketConnect.into_dict(), vec![ty("websocket.connect")]);
    assert_eq!(
        Receive::WebsocketDisconnect { code: 1000 }.into_dict(),
        vec![ty("websocket.disconnect"), (s("code"), DictValue::Int(1000))]
    );
}

#[test]
fn websocket_receive_dicts() {
    assert_eq!(
        Receive::WebsocketReceive { bytes: Some(vec![0, 255]), text: Some(s("hi")) }.into_dict(),
        vec![
            ty("websocket.receive"),
            (s("bytes"), DictValue::Bytes(vec![0, 255])),
            (s("text"), DictValue::Str(s("hi"))),
        ]
    );
    assert_eq!(
        Receive::WebsocketReceive { bytes: None, text: Some(s("hi")) }.into_dict(),
        vec![ty("websocket.receive"), (s("text"), DictValue::Str(s("hi")))]
    );
    assert_eq!(
        Receive::WebsocketReceive { bytes: None, text: None }.into_dict(),
        vec![ty("websocket.receive")]
    );
}

#[test]
fn request_chunks_and_end_of_body() {
    assert_eq!(
        request_chunk_event(Some(b"abc".to_vec())),
        vec![
            ty("http.request"),
            (s("more_body"), DictValue::Bool(true)),
            (s("body"), DictValue::Bytes(b"abc".to_vec())),
        ]
    );
    assert_eq!(
        request_chunk_event(None),
        vec![
            ty("http.request"),
            (s("more_body"), DictValue::Bool(false)),
            (s("body"), DictValue::Bytes(vec![])),
        ]
    );
}

fn event(t: Field<String>) -> SendEvent {
    SendEvent {
        type_: t,
        status: Field::Absent,
        headers: Field::Absent,
        body: Field::Absent,
        more_body: Field::Absent,
    }
}

fn pair(k: &[u8], v: &[u8]) -> HeaderItem {
    Field::Present(vec![Field::Present(k.to_vec()), Field::Present(v.to_vec())])
}

#[test]
fn event_type_is_required() {
    assert_eq!(
        Send::from_event(event(Field::Absent)),
        Err(SendEventError::MissingKey(EventKey::Type))
    );
    assert_eq!(
        Send::from_event(event(Field::Invalid)),
        Err(SendEventError::InvalidValue(EventKey::Type))
    );
    assert_eq!(
        Send::from_event(event(Field::Present(s("http.response.stop")))),
        Err(SendEventError::UnknownType)
    );
}

#[test]
fn response_start_needs_a_status() {
    let ev = event(Field::Present(s("http.response.start")));
    assert_eq!(Send::from_event(ev), Err(SendEventError::MissingKey(EventKey::Status)));
    let mut ev = event(Field::Present(s("http.response.start")));
    ev.status = Field::Invalid;
    assert_eq!(Send::from_event(ev), Err(SendEventError::InvalidValue(EventKey::Status)));
}

#[test]
fn response_start_headers_default_to_none() {
    let mut ev = event(Field::Present(s("http.response.start")));
    ev.status = Field::Present(204);
    assert_eq!(
        Send::from_event(ev),
        Ok(Send::ResponseStart { type_: Type::HttpResponseStart, status: 204, headers: vec![] })
    );
}

#[test]
fn response_start_reads_header_pairs() {
    let mut ev = event(Field::Present(s("http.response.start")));
    ev.status = Field::Present(200);
    ev.headers = Field::Present(vec![pair(b"content-type", b"text/plain"), pair(b"x-a", b"1")]);
    assert_eq!(
        Send::from_event(ev),
        Ok(Send::ResponseStart {
            type_: Type::HttpResponseStart,
            status: 200,
            headers: vec![
                (b"content-type".to_vec(), b"text/plain".to_vec()),
                (b"x-a".to_vec(), b"1".to_vec())
            ],
        })
    );
}

#[test]
fn response_start_refuses_bad_headers() {
    let start = |headers: Field<Vec<HeaderItem>>| {
        let mut ev = event(Field::Present(s("http.response.start")));
        ev.status = Field::Present(200);
        ev.headers = headers;
        Send::from_event(ev)
    };
    assert_eq!(start(Field::Invalid), Err(SendEventError::InvalidValue(EventKey::Headers)));
    assert_eq!(
        start(Field::Present(vec![pair(b"a", b"1"), Field::Present(vec![Field::Present(b"x".to_vec())])])),
        Err(SendEventError::HeaderArity(1))
    );
    assert_eq!(
        start(Field::Present(vec![Field::Present(vec![
            Field::Present(b"x".to_vec()),
            Field::Present(b"y".to_vec()),
            Field::Invalid,
        ])])),
        Err(SendEventError::HeaderArity(3))
    );
    assert_eq!(
        start(Field::Present(vec![Field::Present(vec![Field::Present(b"x".to_vec()), Field::Invalid])])),
        Err(SendEventError::InvalidValue(EventKey::Headers))
    );
    assert_eq!(
        start(Field::Present(vec![Field::Invalid, pair(b"a", b"1")])),
        Err(SendEventError::InvalidValue(EventKey::Headers))
    );
}

#[test]
fn response_body_defaults_to_empty_and_final() {
    let ev = event(Field::Present(s("http.response.body")));
    assert_eq!(
        Send::from_event(ev),
        Ok(Send::ResponseBody { type_: Type::HttpResponseBody, body: vec![], more_body: false })
    );
    let mut ev = event(Field::Present(s("http.response.body")));
    ev.body = Field::Present(b"hello".to_vec());
    ev.more_body = Field::Present(true);
    ev.status = Field::Invalid;
    assert_eq!(
        Send::from_event(ev),
        Ok(Send::ResponseBody { type_: Type::HttpResponseBody, body: b"hello".to_vec(), more_body: true })
    );
}

#[test]
fn response_body_refuses_bad_values() {
    let mut ev = event(Field::Present(s("http.response.body")));
    ev.body = Field::Invalid;
    ev.more_body = Field::Invalid;
    assert_eq!(Send::from_event(ev), Err(SendEventError::InvalidValue(EventKey::Body)));
    let mut ev = event(Field::Present(s("http.response.body")));
    ev.more_body = Field::Invalid;
    assert_eq!(Send::from_event(ev), Err(SendEventError::InvalidValue(EventKey::MoreBody)));
}

#[test]
fn pulled_body_parts_give_the_body_back() {
    let chunks: Vec<Vec<u8>> = vec![b"hello ".to_vec(), b"wor".to_vec(), b"ld".to_vec()];
    let mut events: Vec<Vec<(String, DictValue)>> =
        chunks.iter().map(|c| request_chunk_event(Some(c.clone()))).collect();
    events.push(request_chunk_event(None));
    let mut body = vec![];
    for (k, ev) in events.iter().enumerate() {
        assert_eq!(ev[0], ty("http.request"));
        assert_eq!(ev[1].1, DictValue::Bool(k < chunks.len()));
        match &ev[2].1 {
            DictValue::Bytes(b) => body.extend_from_slice(b),
            other => panic!("unexpected body {:?}", other),
        }
    }
    assert_eq!(body, b"hello world".to_vec());
}
