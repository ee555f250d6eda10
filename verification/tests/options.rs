use quanshu::asgi::scope::SocketAddress;
use quanshu::options::{parse_app_target, AppTarget, AppTargetError, Listen, Options};

fn addr(ip: &str, port: u16) -> SocketAddress {
    SocketAddress { ip: ip.to_string(), port }
}

fn options(addrs: Vec<SocketAddress>, fd: Option<i32>) -> Options {
    Options {
        addrs,
        uds: None,
        fd,
        pkcs12: None,
        headers: vec![],
        workers: None,
        root_path: String::new(),
        verbose: 0,
        access_log: false,
    }
}

#[test]
fn set_port_changes_every_endpoint() {
    let mut o = options(vec![addr("127.0.0.1", 8000), addr("::1", 8000)], None);
    o.set_port(9000);
    assert_eq!(o.addrs, vec![addr("127.0.0.1", 9000), addr("::1", 9000)]);
    o.set_port(80);
    o.set_port(81);
    assert_eq!(o.addrs, vec![addr("127.0.0.1", 81), addr("::1", 81)]);
}

#[test]
fn listeners_for_endpoints() {
    let o = options(vec![addr("127.0.0.1", 8000), addr("0.0.0.0", 8001)], None);
    assert_eq!(
        o.listen_plan(),
        vec![Listen::Tcp(addr("127.0.0.1", 8000)), Listen::Tcp(addr("0.0.0.0", 8001))]
    );
}

#[test]
fn open_socket_comes_first() {
    let o = options(vec![addr("127.0.0.1", 8000)], Some(3));
    assert_eq!(
        o.listen_plan(),
        vec![Listen::Fd(3, addr("127.0.0.1", 8000)), Listen::Tcp(addr("127.0.0.1", 8000))]
    );
}

fn target(module: &str, attrs: &[&str]) -> AppTarget {
    AppTarget { module: module.to_string(), attrs: attrs.iter().map(|a| a.to_string()).collect() }
}

#[test]
fn app_targets() {
    assert_eq!(parse_app_target("main:app"), Ok(target("main", &["app"])));
    assert_eq!(parse_app_target("pkg.mod:obj.attr"), Ok(target("pkg.mod", &["obj", "attr"])));
    assert_eq!(parse_app_target("a:b:c"), Ok(target("a", &["b:c"])));
    assert_eq!(parse_app_target("m:"), Ok(target("m", &[""])));
    assert_eq!(parse_app_target("m:.x."), Ok(target("m", &["", "x", ""])));
    assert_eq!(parse_app_target("módulo:é"), Ok(target("módulo", &["é"])));
}

#[test]
fn app_target_needs_a_colon() {
    assert_eq!(parse_app_target("main.app"), Err(AppTargetError::MissingColon));
    assert_eq!(parse_app_target(""), Err(AppTargetError::MissingColon));
}

#[test]
fn app_target_gives_the_path_back() {
    for path in ["main:app", "pkg.mod:obj.attr", "a:b:c", "m:", "m:.x.", ":", "x:..y"] {
        let t = parse_app_target(path).unwrap();
        assert!(!t.module.contains(':'));
        assert_eq!(format!("{}:{}", t.module, t.attrs.join(".")), path);
    }
}
