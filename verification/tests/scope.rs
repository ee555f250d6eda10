use quanshu::asgi::dict::DictValue;
use quanshu::asgi::scope::{Scope, ServerAddr, SocketAddress};
use quanshu::asgi::specs::{Asgi, HttpVersion, Type};

fn s(x: &str) -> String {
    x.to_string()
}

fn addr(ip: &str, port: u16) -> SocketAddress {
    SocketAddress { ip: s(ip), port }
}

fn sample_scope(type_: Type, server: ServerAddr, client: Option<SocketAddress>) -> Scope {
    Scope::new(
        type_,
        Asgi::default(),
        HttpVersion::V1_1,
        s("GET"),
        s("http"),
        s("/items"),
        Some(s("/it%65ms")),
        s("a=1&b=é"),
        s("/root"),
        vec![(b"host".to_vec(), b"example.com".to_vec()), (b"accept".to_vec(), b"*/*".to_vec())],
        client,
        server,
    )
}

fn keys(d: &[(String, DictValue)]) -> Vec<&str> {
    d.iter().map(|(k, _)| k.as_str()).collect()
}

const KEYS: [&str; 12] = [
    "type",
    "asgi",
    "http_version",
    "method",
    "scheme",
    "path",
    "raw_path",
    "query_string",
    "root_path",
    "headers",
    "client",
    "server",
];

#[test]
fn http_scope_dict_entries() {
    let scope = sample_scope(Type::Http, ServerAddr::SocketAddr(addr("127.0.0.1", 8000)), Some(addr("10.0.0.2", 43532)));
    let d = scope.as_dict();
    assert_eq!(keys(&d), KEYS.to_vec());
    assert_eq!(d[0].1, DictValue::Str(s("http")));
    assert_eq!(
        d[1].1,
        DictValue::StrDict(vec![(s("version"), s("3.0")), (s("spec_version"), s("2.3"))])
    );
    assert_eq!(d[2].1, DictValue::Str(s("1.1")));
    assert_eq!(d[3].1, DictValue::Str(s("GET")));
    assert_eq!(d[4].1, DictValue::Str(s("http")));
    assert_eq!(d[5].1, DictValue::Str(s("/items")));
    assert_eq!(d[6].1, DictValue::Bytes(b"/it%65ms".to_vec()));
    assert_eq!(d[7].1, DictValue::IntList("a=1&b=é".as_bytes().to_vec()));
    assert_eq!(d[8].1, DictValue::Str(s("/root")));
    assert_eq!(
        d[9].1,
        DictValue::HeaderList(vec![
            (b"host".to_vec(), b"example.com".to_vec()),
            (b"accept".to_vec(), b"*/*".to_vec())
        ])
    );
    assert_eq!(d[10].1, DictValue::Address(Some(s("10.0.0.2")), Some(43532)));
    assert_eq!(d[11].1, DictValue::Address(Some(s("127.0.0.1")), Some(8000)));
}

#[test]
fn scope_without_client_or_raw_path() {
    let scope = Scope::new(
        Type::Http,
        Asgi::default(),
        HttpVersion::V2,
        s("POST"),
        s("https"),
        s("/"),
        None,
        s(""),
        s(""),
        vec![],
        None,
        ServerAddr::UnixSocket(s("/tmp/quanshu.sock")),
    );
    let d = scope.into_dict();
    assert_eq!(keys(&d), KEYS.to_vec());
    assert_eq!(d[2].1, DictValue::Str(s("2")));
    assert_eq!(d[6].1, DictValue::Null);
    assert_eq!(d[7].1, DictValue::IntList(vec![]));
    assert_eq!(d[9].1, DictValue::HeaderList(vec![]));
    assert_eq!(d[10].1, DictValue::Address(None, None));
    assert_eq!(d[11].1, DictValue::Address(Some(s("/tmp/quanshu.sock")), None));
}

#[test]
fn subprotocols_appear_in_websocket_scopes() {
    let mut scope = sample_scope(Type::Websocket, ServerAddr::SocketAddr(addr("::1", 9000)), None);
    assert_eq!(scope.as_dict().len(), 12);
    scope.set_subprotocols(vec![s("chat"), s("superchat")]);
    let d = scope.as_dict();
    assert_eq!(d.len(), 13);
    assert_eq!(&d[..12], &sample_scope(Type::Websocket, ServerAddr::SocketAddr(addr("::1", 9000)), None).as_dict()[..]);
    assert_eq!(d[12], (s("subprotocols"), DictValue::StrList(vec![s("chat"), s("superchat")])));
}

#[test]
fn subprotocols_are_left_out_of_http_scopes() {
    let mut scope = sample_scope(Type::Http, ServerAddr::UnixSocket(s("/run/app.sock")), None);
    scope.set_subprotocols(vec![s("chat")]);
    let d = scope.into_dict();
    assert_eq!(keys(&d), KEYS.to_vec());
}
