use quanshu::asgi::specs::{Asgi, AsgiVersion, HttpVersion, ProtocolVersion, SpecVersion, Type};

const ALL_TYPES: [(Type, &str); 12] = [
    (Type::Http, "http"),
    (Type::HttpRequest, "http.request"),
    (Type::HttpResponseStart, "http.response.start"),
    (Type::HttpResponseBody, "http.response.body"),
    (Type::HttpDisconnect, "http.disconnect"),
    (Type::Websocket, "websocket"),
    (Type::WebsocketConnect, "websocket.connect"),
    (Type::WebsocketAccept, "websocket.accept"),
    (Type::WebsocketReceive, "websocket.receive"),
    (Type::WebsocketSend, "websocket.send"),
    (Type::WebsocketDisconnect, "websocket.disconnect"),
    (Type::WebsocketClose, "websocket.close"),
];

#[test]
fn spec_version_defaults_to_2_3() {
    assert_eq!(SpecVersion::default(), SpecVersion::V2_3);
    assert_eq!(SpecVersion::default().as_ref(), "2.3");
    assert_eq!(SpecVersion::V2_0.as_ref(), "2.0");
    assert_eq!(SpecVersion::V2_1.as_ref(), "2.1");
    assert_eq!(SpecVersion::V2_2.as_ref(), "2.2");
}

#[test]
fn asgi_version_defaults_to_3() {
    assert_eq!(AsgiVersion::default(), AsgiVersion::V3);
    assert_eq!(AsgiVersion::V3.as_ref(), "3.0");
    assert_eq!(AsgiVersion::V2.as_ref(), "2.0");
}

#[test]
fn asgi_dict_lists_version_then_spec_version() {
    let d = Asgi::default().as_dict();
    assert_eq!(
        d,
        vec![
            ("version".to_string(), "3.0".to_string()),
            ("spec_version".to_string(), "2.3".to_string()),
        ]
    );
    let old = Asgi { version: AsgiVersion::V2, spec_version: SpecVersion::V2_0 };
    assert_eq!(
        old.as_dict(),
        vec![
            ("version".to_string(), "2.0".to_string()),
            ("spec_version".to_string(), "2.0".to_string()),
        ]
    );
}

#[test]
fn type_names_are_as_specified() {
    for (t, name) in ALL_TYPES {
        assert_eq!(t.as_ref(), name);
        assert_eq!(t.as_str(), name);
    }
}

#[test]
fn type_parses_back_from_its_name() {
    for (t, name) in ALL_TYPES {
        assert_eq!(Type::from_str(name), Ok(t));
        assert_eq!(Type::from_str(t.as_ref()), Ok(t));
    }
}

#[test]
fn type_refuses_other_names() {
    for s in ["", "HTTP", "http.", "http.foo", "websocket.", "websockets", " http", "lifespan"] {
        assert_eq!(Type::from_str(s), Err("Invalid Type"));
    }
}

#[test]
fn type_is_websocket_by_prefix() {
    for (t, name) in ALL_TYPES {
        assert_eq!(t.is_websocket(), name.starts_with("websocket"));
    }
    assert!(!Type::Http.is_websocket());
    assert!(Type::WebsocketClose.is_websocket());
}

#[test]
fn http_versions_are_named() {
    assert_eq!(HttpVersion::V1_0.as_ref(), "1.0");
    assert_eq!(HttpVersion::V1_1.as_ref(), "1.1");
    assert_eq!(HttpVersion::V2.as_ref(), "2");
    assert_eq!(HttpVersion::from_protocol(ProtocolVersion::Http10), HttpVersion::V1_0);
    assert_eq!(HttpVersion::from_protocol(ProtocolVersion::Http11), HttpVersion::V1_1);
    assert_eq!(HttpVersion::from_protocol(ProtocolVersion::Http2), HttpVersion::V2);
}
