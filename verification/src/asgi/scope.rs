//! The connection scope handed to an application, and the dictionary that
//! represents it.

use vstd::prelude::*;
use vstd::string::*;
use vstd::utf8::encode_utf8;
use crate::asgi::dict::{DictValue, DictValueView, copy_pairs, copy_strings};
use crate::asgi::specs::{Asgi, HttpVersion, Type, asgi_dict};
use crate::text::owned;

verus! {

/// A network endpoint: an IP address in text form and a port.
#[derive(Clone, Debug, PartialEq, Eq)]
pub struct SocketAddress {
    pub ip: String,
    pub port: u16,
}

impl View for SocketAddress {
    type V = (Seq<char>, u16);

    open spec fn view(&self) -> (Seq<char>, u16) {
        (self.ip@, self.port)
    }
}

impl DeepView for SocketAddress {
    type V = (Seq<char>, u16);

    open spec fn deep_view(&self) -> (Seq<char>, u16) {
        (self.ip@, self.port)
    }
}

/// Where the server listens: a network endpoint or a UNIX socket path.
#[derive(Clone, Debug, PartialEq, Eq)]
pub enum ServerAddr {
    SocketAddr(SocketAddress),
    UnixSocket(String),
}

pub enum ServerAddrView {
    SocketAddr(Seq<char>, u16),
    UnixSocket(Seq<char>),
}

impl View for ServerAddr {
    type V = ServerAddrView;

    open spec fn view(&self) -> ServerAddrView {
        match self {
            ServerAddr::SocketAddr(a) => ServerAddrView::SocketAddr(a.ip@, a.port),
            ServerAddr::UnixSocket(p) => ServerAddrView::UnixSocket(p@),
        }
    }
}

/// The connection scope of a request.
#[derive(Clone, Debug)]
pub struct Scope {
    type_: Type,
    asgi: Asgi,
    http_version: HttpVersion,
    method: String,
    scheme: String,
    path: String,
    raw_path: Option<String>,
    query_string: String,
    root_path: String,
    headers: Vec<(Vec<u8>, Vec<u8>)>,
    client: Option<SocketAddress>,
    server: ServerAddr,
    subprotocols: Option<Vec<String>>,
}

/// The content of a [`Scope`].
pub struct ScopeView {
    pub type_: Type,
    pub asgi: Asgi,
    pub http_version: HttpVersion,
    pub method: Seq<char>,
    pub scheme: Seq<char>,
    pub path: Seq<char>,
    pub raw_path: Option<Seq<char>>,
    pub query_string: Seq<char>,
    pub root_path: Seq<char>,
    pub headers: Seq<(Seq<u8>, Seq<u8>)>,
    pub client: Option<(Seq<char>, u16)>,
    pub server: ServerAddrView,
    pub subprotocols: Option<Seq<Seq<char>>>,
}

impl View for Scope {
    type V = ScopeView;

    closed spec fn view(&self) -> ScopeView {
        ScopeView {
            type_: self.type_,
            asgi: self.asgi,
            http_version: self.http_version,
            method: self.method@,
            scheme: self.scheme@,
            path: self.path@,
            raw_path: match self.raw_path {
                Some(r) => Some(r@),
                None => None,
            },
            query_string: self.query_string@,
            root_path: self.root_path@,
            headers: self.headers.deep_view(),
            client: match self.client {
                Some(a) => Some(a@),
                None => None,
            },
            server: self.server@,
            subprotocols: match self.subprotocols {
                Some(p) => Some(p.deep_view()),
                None => None,
            },
        }
    }
}

/// The `[host, port]` value of the scope's `client` entry.
pub open spec fn client_value(c: Option<(Seq<char>, u16)>) -> DictValueView {
    match c {
        Some((ip, port)) => DictValueView::Address(Some(ip), Some(port)),
        None => DictValueView::Address(None, None),
    }
}

/// The `[host, port]` value of the scope's `server` entry; a UNIX socket
/// has its path as host and no port.
pub open spec fn server_value(s: ServerAddrView) -> DictValueView {
    match s {
        ServerAddrView::SocketAddr(ip, port) => DictValueView::Address(Some(ip), Some(port)),
        ServerAddrView::UnixSocket(p) => DictValueView::Address(Some(p), None),
    }
}

/// The scope dictionary, in order. The raw path is a byte string and the
/// query string a list of integers, each holding their UTF-8 encoding; `subprotocols` is present
/// only in a websocket scope that has them.
pub open spec fn scope_dict(s: ScopeView) -> Seq<(Seq<char>, DictValueView)> {
    let base = seq![
        ("type"@, DictValueView::Str(s.type_.name())),
        ("asgi"@, DictValueView::StrDict(asgi_dict(s.asgi))),
        ("http_version"@, DictValueView::Str(s.http_version.name())),
        ("method"@, DictValueView::Str(s.method)),
        ("scheme"@, DictValueView::Str(s.scheme)),
        ("path"@, DictValueView::Str(s.path)),
        ("raw_path"@, match s.raw_path {
            Some(r) => DictValueView::Bytes(encode_utf8(r)),
            None => DictValueView::Null,
        }),
        ("query_string"@, DictValueView::IntList(encode_utf8(s.query_string))),
        ("root_path"@, DictValueView::Str(s.root_path)),
        ("headers"@, DictValueView::HeaderList(s.headers)),
        ("client"@, client_value(s.client)),
        ("server"@, server_value(s.server)),
    ];
    match s.subprotocols {
        Some(p) if s.type_.spec_is_websocket() => base.push(
            ("subprotocols"@, DictValueView::StrList(p)),
        ),
        _ => base,
    }
}

fn utf8_bytes(s: &String) -> (r: Vec<u8>)
    ensures
        r@ == encode_utf8(s@),
{
    s.as_str().as_bytes_vec()
}

impl Scope {
    pub fn new(
        type_: Type,
        asgi: Asgi,
        http_version: HttpVersion,
        method: String,
        scheme: String,
        path: String,
        raw_path: Option<String>,
        query_string: String,
        root_path: String,
        headers: Vec<(Vec<u8>, Vec<u8>)>,
        client: Option<SocketAddress>,
        server: ServerAddr,
    ) -> (r: Scope)
        ensures
            r@ == (ScopeView {
                type_,
                asgi,
                http_version,
                method: method@,
                scheme: scheme@,
                path: path@,
                raw_path: match raw_path {
                    Some(p) => Some(p@),
                    None => None,
                },
                query_string: query_string@,
                root_path: root_path@,
                headers: headers.deep_view(),
                client: match client {
                    Some(a) => Some(a@),
                    None => None,
                },
                server: server@,
                subprotocols: None,
            }),
    {
        Scope {
            type_,
            asgi,
            http_version,
            method,
            scheme,
            path,
            raw_path,
            query_string,
            root_path,
            headers,
            client,
            server,
            subprotocols: None,
        }
    }

    /// Records the subprotocols a websocket client offered; only this part
    /// of the scope changes.
    pub fn set_subprotocols(&mut self, subprotocols: Vec<String>)
        ensures
            final(self)@ == (ScopeView { subprotocols: Some(subprotocols.deep_view()), ..old(self)@ }),
    {
        self.subprotocols = Some(subprotocols);
    }

    /// The entries of the scope dictionary, in order.
    pub fn as_dict(&self) -> (r: Vec<(String, DictValue)>)
        ensures
            r.deep_view() == scope_dict(self@),
    {
        let mut d: Vec<(String, DictValue)> = Vec::new();
        d.push((owned("type"), DictValue::Str(owned(self.type_.as_ref()))));
        d.push((owned("asgi"), DictValue::StrDict(self.asgi.as_dict())));
        d.push((owned("http_version"), DictValue::Str(owned(self.http_version.as_ref()))));
        d.push((owned("method"), DictValue::Str(self.method.clone())));
        d.push((owned("scheme"), DictValue::Str(self.scheme.clone())));
        d.push((owned("path"), DictValue::Str(self.path.clone())));
        let raw_path = match &self.raw_path {
            Some(r) => DictValue::Bytes(utf8_bytes(r)),
            None => DictValue::Null,
        };
        d.push((owned("raw_path"), raw_path));
        d.push((owned("query_string"), DictValue::IntList(utf8_bytes(&self.query_string))));
        d.push((owned("root_path"), DictValue::Str(self.root_path.clone())));
        d.push((owned("headers"), DictValue::HeaderList(copy_pairs(&self.headers))));
        let client = match &self.client {
            Some(a) => DictValue::Address(Some(a.ip.clone()), Some(a.port)),
            None => DictValue::Address(None, None),
        };
        d.push((owned("client"), client));
        let server = match &self.server {
            ServerAddr::SocketAddr(a) => DictValue::Address(Some(a.ip.clone()), Some(a.port)),
            ServerAddr::UnixSocket(p) => DictValue::Address(Some(p.clone()), None),
        };
        d.push((owned("server"), server));
        if self.type_.is_websocket() {
            if let Some(p) = &self.subprotocols {
                d.push((owned("subprotocols"), DictValue::StrList(copy_strings(p))));
            }
        }
        assert(d.deep_view() =~= scope_dict(self@));
        d
    }

    /// The scope dictionary, consuming the scope.
    pub fn into_dict(self) -> (r: Vec<(String, DictValue)>)
        ensures
            r.deep_view() == scope_dict(self@),
    {
        self.as_dict()
    }
}


/// The keys of a scope dictionary without subprotocols, in order.
pub open spec fn scope_keys() -> Seq<Seq<char>> {
    seq![
        "type"@,
        "asgi"@,
        "http_version"@,
        "method"@,
        "scheme"@,
        "path"@,
        "raw_path"@,
        "query_string"@,
        "root_path"@,
        "headers"@,
        "client"@,
        "server"@,
    ]
}

/// A scope dictionary always has the same twelve keys in the same order;
/// recording subprotocols adds a thirteenth entry holding them exactly in a
/// websocket scope, and changes nothing else.
pub proof fn lemma_subprotocols_entry(s: ScopeView, p: Seq<Seq<char>>)
    ensures
        scope_dict(ScopeView { subprotocols: None, ..s }).len() == 12,
        forall|i: int| 0 <= i < 12 ==> (#[trigger] scope_dict(ScopeView { subprotocols: None, ..s })[i]).0
            == scope_keys()[i],
        scope_dict(ScopeView { subprotocols: Some(p), ..s }) == scope_dict(
            ScopeView { subprotocols: None, ..s },
        ) + (if s.type_.spec_is_websocket() {
            seq![("subprotocols"@, DictValueView::StrList(p))]
        } else {
            Seq::empty()
        }),
{
    let with = scope_dict(ScopeView { subprotocols: Some(p), ..s });
    let without = scope_dict(ScopeView { subprotocols: None, ..s });
    if s.type_.spec_is_websocket() {
        assert(with =~= without + seq![("subprotocols"@, DictValueView::StrList(p))]);
    } else {
        assert(with =~= without + Seq::empty());
    }
}

} // verus!
