use quanshu::headers::{
    check_headers, connection_close, drop_pseudo_headers, insert_header_value, try_parse_header,
    HeaderError,
};

fn h(k: &str, v: &str) -> (Vec<u8>, Vec<u8>) {
    (k.as_bytes().to_vec(), v.as_bytes().to_vec())
}

#[test]
fn header_line_is_split_at_the_first_colon() {
    assert_eq!(try_parse_header("X-Foo:bar"), Ok(h("x-foo", "bar")));
    assert_eq!(try_parse_header("Server: quanshu"), Ok(h("server", " quanshu")));
    assert_eq!(try_parse_header("a:b:c"), Ok(h("a", "b:c")));
    assert_eq!(try_parse_header("empty:"), Ok(h("empty", "")));
}

#[test]
fn header_line_errors() {
    assert_eq!(try_parse_header("no colon here"), Err(HeaderError::MissingColon));
    assert_eq!(try_parse_header(""), Err(HeaderError::MissingColon));
    assert_eq!(try_parse_header(":value"), Err(HeaderError::InvalidName));
    assert_eq!(try_parse_header("bad name:value"), Err(HeaderError::InvalidName));
    assert_eq!(try_parse_header("a(b):value"), Err(HeaderError::InvalidName));
    assert_eq!(try_parse_header("x:line\nbreak"), Err(HeaderError::InvalidValue));
    assert_eq!(try_parse_header("x:del\u{7f}"), Err(HeaderError::InvalidValue));
}

#[test]
fn header_values_allow_tabs_and_high_bytes() {
    assert_eq!(try_parse_header("x:a\tb"), Ok(h("x", "a\tb")));
    assert_eq!(try_parse_header("x:café"), Ok(h("x", "café")));
}

#[test]
fn checked_headers_are_normalised() {
    let hs = vec![h("Content-Type", "text/html"), h("X-Custom-THING", "1")];
    assert_eq!(check_headers(&hs), Ok(vec![h("content-type", "text/html"), h("x-custom-thing", "1")]));
    assert_eq!(check_headers(&vec![h("ok", "1"), h("", "2")]), Err(HeaderError::InvalidName));
    assert_eq!(check_headers(&vec![h("ok", "\r")]), Err(HeaderError::InvalidValue));
    let long = "a".repeat(65535);
    assert_eq!(check_headers(&vec![h(&long, "v")]), Ok(vec![h(&long, "v")]));
    let too_long = "a".repeat(65536);
    assert_eq!(check_headers(&vec![h(&too_long, "v")]), Err(HeaderError::InvalidName));
}

#[test]
fn connection_close_reads_the_first_connection_header() {
    assert!(connection_close(&vec![h("host", "x"), h("connection", "close")]));
    assert!(!connection_close(&vec![h("connection", "keep-alive"), h("connection", "close")]));
    assert!(!connection_close(&vec![h("connection", "Close")]));
    assert!(!connection_close(&vec![h("host", "x")]));
}

#[test]
fn insert_replaces_the_first_and_drops_the_rest() {
    let hs = vec![h("connection", "a"), h("x", "1"), h("connection", "b")];
    assert_eq!(
        insert_header_value(hs, b"connection".to_vec(), b"close".to_vec()),
        vec![h("connection", "close"), h("x", "1")]
    );
    let hs = vec![h("x", "1")];
    assert_eq!(
        insert_header_value(hs, b"connection".to_vec(), b"close".to_vec()),
        vec![h("x", "1"), h("connection", "close")]
    );
}

#[test]
fn pseudo_headers_are_dropped() {
    let hs = vec![h(":authority", "x"), h("host", "y"), h(":path", "/")];
    assert_eq!(drop_pseudo_headers(hs), vec![h("host", "y")]);
}

#[test]
fn parsed_headers_pass_the_response_check_unchanged() {
    for line in ["X-Powered-By:quanshu", "server: q", "A:b:c", "x-empty:"] {
        let parsed = try_parse_header(line).unwrap();
        assert_eq!(check_headers(&vec![parsed.clone()]), Ok(vec![parsed]));
    }
}
