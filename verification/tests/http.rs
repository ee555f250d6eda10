use quanshu::asgi::dict::DictValue;
use quanshu::asgi::events::Send;
use quanshu::asgi::http::{
    http_scope, request_protocol, Protocol, RequestHead, ResponseAction, ResponseError, ResponseHead, ResponsePhase,
};
use quanshu::asgi::scope::SocketAddress;
use quanshu::asgi::specs::{ProtocolVersion, Type};
use quanshu::headers::HeaderError;

fn h(k: &str, v: &str) -> (Vec<u8>, Vec<u8>) {
    (k.as_bytes().to_vec(), v.as_bytes().to_vec())
}

fn s(x: &str) -> String {
    x.to_string()
}

#[test]
fn http_scope_defaults() {
    let req = RequestHead {
        version: ProtocolVersion::Http11,
        method: s("GET"),
        scheme: None,
        path: s("/"),
        query: None,
        headers: vec![h("host", "localhost"), h(":authority", "x")],
    };
    let scope = http_scope(
        req,
        s(""),
        SocketAddress { ip: s("127.0.0.1"), port: 43532 },
        SocketAddress { ip: s("127.0.0.1"), port: 8000 },
    );
    let d = scope.into_dict();
    assert_eq!(d[0].1, DictValue::Str(s("http")));
    assert_eq!(d[2].1, DictValue::Str(s("1.1")));
    assert_eq!(d[4].1, DictValue::Str(s("http")));
    assert_eq!(d[6].1, DictValue::Null);
    assert_eq!(d[7].1, DictValue::IntList(vec![]));
    assert_eq!(d[9].1, DictValue::HeaderList(vec![h("host", "localhost")]));
    assert_eq!(d[10].1, DictValue::Address(Some(s("127.0.0.1")), Some(43532)));
    assert_eq!(d[11].1, DictValue::Address(Some(s("127.0.0.1")), Some(8000)));
}

#[test]
fn http_scope_keeps_scheme_and_query() {
    let req = RequestHead {
        version: ProtocolVersion::Http2,
        method: s("POST"),
        scheme: Some(s("https")),
        path: s("/submit"),
        query: Some(s("q=1")),
        headers: vec![],
    };
    let d = http_scope(
        req,
        s("/app"),
        SocketAddress { ip: s("::1"), port: 1 },
        SocketAddress { ip: s("::1"), port: 443 },
    )
    .into_dict();
    assert_eq!(d[2].1, DictValue::Str(s("2")));
    assert_eq!(d[3].1, DictValue::Str(s("POST")));
    assert_eq!(d[4].1, DictValue::Str(s("https")));
    assert_eq!(d[5].1, DictValue::Str(s("/submit")));
    assert_eq!(d[7].1, DictValue::IntList(b"q=1".to_vec()));
    assert_eq!(d[8].1, DictValue::Str(s("/app")));
}

#[test]
fn response_head_checks_status() {
    assert_eq!(ResponseHead::build(99, &vec![], &vec![], false), Err(ResponseError::InvalidStatus));
    assert_eq!(ResponseHead::build(1000, &vec![], &vec![], false), Err(ResponseError::InvalidStatus));
    assert_eq!(
        ResponseHead::build(100, &vec![], &vec![], false),
        Ok(ResponseHead { status: 100, headers: vec![] })
    );
    assert_eq!(
        ResponseHead::build(999, &vec![], &vec![], false),
        Ok(ResponseHead { status: 999, headers: vec![] })
    );
}

#[test]
fn response_head_appends_default_headers() {
    let app = vec![h("Content-Type", "text/plain")];
    let defaults = vec![h("server", "quanshu")];
    assert_eq!(
        ResponseHead::build(200, &app, &defaults, false),
        Ok(ResponseHead {
            status: 200,
            headers: vec![h("content-type", "text/plain"), h("server", "quanshu")],
        })
    );
    assert_eq!(
        ResponseHead::build(200, &vec![h("bad name", "x")], &defaults, false),
        Err(ResponseError::InvalidHeader(HeaderError::InvalidName))
    );
    assert_eq!(
        ResponseHead::build(200, &vec![h("x", "\n")], &defaults, false),
        Err(ResponseError::InvalidHeader(HeaderError::InvalidValue))
    );
}

#[test]
fn response_head_echoes_connection_close() {
    let app = vec![h("Connection", "keep-alive"), h("x", "1")];
    assert_eq!(
        ResponseHead::build(200, &app, &vec![], true),
        Ok(ResponseHead { status: 200, headers: vec![h("connection", "close"), h("x", "1")] })
    );
    assert_eq!(
        ResponseHead::build(200, &vec![h("x", "1")], &vec![], true),
        Ok(ResponseHead { status: 200, headers: vec![h("x", "1"), h("connection", "close")] })
    );
}

fn start(status: u16) -> Option<Send> {
    Some(Send::ResponseStart { type_: Type::HttpResponseStart, status, headers: vec![] })
}

fn body(b: &[u8], more: bool) -> Option<Send> {
    Some(Send::ResponseBody { type_: Type::HttpResponseBody, body: b.to_vec(), more_body: more })
}

#[test]
fn single_body_response() {
    let (p, a) = ResponsePhase::AwaitingStart.step(start(200), &vec![], false);
    assert_eq!(p, ResponsePhase::AwaitingBody);
    assert_eq!(a, ResponseAction::Head(ResponseHead { status: 200, headers: vec![] }));
    let (p, a) = p.step(body(b"hi", false), &vec![], false);
    assert_eq!(p, ResponsePhase::Finished);
    assert_eq!(a, ResponseAction::Complete(b"hi".to_vec()));
    let (p, a) = p.step(body(b"late", false), &vec![], false);
    assert_eq!(p, ResponsePhase::Finished);
    assert_eq!(a, ResponseAction::Idle);
}

#[test]
fn streamed_response() {
    let (p, _) = ResponsePhase::AwaitingStart.step(start(200), &vec![], false);
    let (p, a) = p.step(body(b"a", true), &vec![], false);
    assert_eq!((p, a), (ResponsePhase::Streaming, ResponseAction::Chunk(b"a".to_vec())));
    let (p, a) = p.step(body(b"b", true), &vec![], false);
    assert_eq!((p, a), (ResponsePhase::Streaming, ResponseAction::Chunk(b"b".to_vec())));
    let (p, a) = p.step(body(b"c", false), &vec![], false);
    assert_eq!((p, a), (ResponsePhase::Finished, ResponseAction::LastChunk(b"c".to_vec())));
}

#[test]
fn stream_ends_when_the_application_stops() {
    let (p, _) = ResponsePhase::AwaitingStart.step(start(200), &vec![], false);
    let (p, _) = p.step(body(b"a", true), &vec![], false);
    let (p, a) = p.step(None, &vec![], false);
    assert_eq!((p, a), (ResponsePhase::Finished, ResponseAction::End));
    let (p, _) = ResponsePhase::AwaitingStart.step(start(200), &vec![], false);
    let (p, _) = p.step(body(b"a", true), &vec![], false);
    let (p, a) = p.step(start(200), &vec![], false);
    assert_eq!((p, a), (ResponsePhase::Finished, ResponseAction::End));
}

#[test]
fn response_requires_start_then_body() {
    let (p, a) = ResponsePhase::AwaitingStart.step(body(b"x", false), &vec![], false);
    assert_eq!((p, a), (ResponsePhase::Failed, ResponseAction::Fail(ResponseError::StartRequired)));
    let (p, a) = ResponsePhase::AwaitingStart.step(None, &vec![], false);
    assert_eq!((p, a), (ResponsePhase::Failed, ResponseAction::Fail(ResponseError::StartRequired)));
    let (p, _) = ResponsePhase::AwaitingStart.step(start(200), &vec![], false);
    let (p, a) = p.step(start(200), &vec![], false);
    assert_eq!((p, a), (ResponsePhase::Failed, ResponseAction::Fail(ResponseError::BodyRequired)));
    let (p, a) = p.step(body(b"x", false), &vec![], false);
    assert_eq!((p, a), (ResponsePhase::Failed, ResponseAction::Idle));
    let (p, a) = ResponsePhase::AwaitingStart.step(start(42), &vec![], false);
    assert_eq!((p, a), (ResponsePhase::Failed, ResponseAction::Fail(ResponseError::InvalidStatus)));
}

#[test]
fn response_start_uses_defaults_and_close() {
    let (_, a) = ResponsePhase::AwaitingStart.step(start(404), &vec![h("server", "q")], true);
    assert_eq!(
        a,
        ResponseAction::Head(ResponseHead {
            status: 404,
            headers: vec![h("server", "q"), h("connection", "close")],
        })
    );
}

#[test]
fn websocket_upgrades_are_recognised() {
    assert_eq!(
        request_protocol(&vec![h("connection", "Upgrade"), h("upgrade", "websocket")]),
        Protocol::Websocket
    );
    assert_eq!(
        request_protocol(&vec![h("connection", "keep-alive, upgrade"), h("upgrade", "WebSocket")]),
        Protocol::Websocket
    );
    assert_eq!(request_protocol(&vec![h("upgrade", "websocket")]), Protocol::Http);
    assert_eq!(request_protocol(&vec![h("connection", "Upgrade"), h("upgrade", "h2c")]), Protocol::Http);
    assert_eq!(request_protocol(&vec![]), Protocol::Http);
    assert_eq!(
        request_protocol(&vec![
            h("upgrade", "h2c,  WEBSOCKET\t"),
            h("host", "x"),
            h("connection", ",,\r\n UpGrade "),
        ]),
        Protocol::Websocket
    );
    assert_eq!(
        request_protocol(&vec![h("connection", "upgraded"), h("upgrade", "websocket")]),
        Protocol::Http
    );
    assert_eq!(
        request_protocol(&vec![h("connection", "up grade"), h("upgrade", "websocket")]),
        Protocol::Http
    );
    assert_eq!(
        request_protocol(&vec![
            h("connection", "close"),
            h("connection", "upgrade"),
            h("upgrade", "websocket, h2c"),
        ]),
        Protocol::Websocket
    );
}
