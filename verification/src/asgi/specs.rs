//! The ASGI message vocabulary: protocol versions, message types, the
//! connection scope and the events exchanged with an application.

use vstd::prelude::*;
use crate::text::{owned, str_eq};

verus! {

/// Version of the ASGI HTTP/websocket specification the server implements.
#[non_exhaustive]
#[derive(Clone, Copy, Debug, PartialEq, Eq, Structural)]
pub enum SpecVersion {
    V2_0,
    V2_1,
    V2_2,
    V2_3,
}

impl SpecVersion {
    /// The version as it appears in the scope's `asgi` dictionary.
    pub open spec fn name(self) -> Seq<char> {
        match self {
            SpecVersion::V2_0 => "2.0"@,
            SpecVersion::V2_1 => "2.1"@,
            SpecVersion::V2_2 => "2.2"@,
            SpecVersion::V2_3 => "2.3"@,
        }
    }

    pub fn as_ref(&self) -> (s: &'static str)
        ensures
            s@ == self.name(),
    {
        match self {
            SpecVersion::V2_0 => "2.0",
            SpecVersion::V2_1 => "2.1",
            SpecVersion::V2_2 => "2.2",
            SpecVersion::V2_3 => "2.3",
        }
    }
}

impl AsRef<str> for SpecVersion {
    fn as_ref(&self) -> (s: &str)
        ensures
            s@ == self.name(),
    {
        SpecVersion::as_ref(self)
    }
}

impl Default for SpecVersion {
    fn default() -> (r: Self)
        ensures
            r == SpecVersion::V2_3,
    {
        SpecVersion::V2_3
    }
}

/// Version of the ASGI interface itself.
#[non_exhaustive]
#[derive(Clone, Copy, Debug, PartialEq, Eq, Structural)]
pub enum AsgiVersion {
    V2,
    V3,
}

impl AsgiVersion {
    pub open spec fn name(self) -> Seq<char> {
        match self {
            AsgiVersion::V2 => "2.0"@,
            AsgiVersion::V3 => "3.0"@,
        }
    }

    pub fn as_ref(&self) -> (s: &'static str)
        ensures
            s@ == self.name(),
    {
        match self {
            AsgiVersion::V2 => "2.0",
            AsgiVersion::V3 => "3.0",
        }
    }
}

impl AsRef<str> for AsgiVersion {
    fn as_ref(&self) -> (s: &str)
        ensures
            s@ == self.name(),
    {
        AsgiVersion::as_ref(self)
    }
}

impl Default for AsgiVersion {
    fn default() -> (r: Self)
        ensures
            r == AsgiVersion::V3,
    {
        AsgiVersion::V3
    }
}

/// The `type` of an ASGI scope or message.
#[derive(Clone, Copy, Debug, PartialEq, Eq, Structural)]
pub enum Type {
    Http,
    HttpRequest,
    HttpResponseStart,
    HttpResponseBody,
    HttpDisconnect,
    Websocket,
    WebsocketConnect,
    WebsocketAccept,
    WebsocketReceive,
    WebsocketSend,
    WebsocketDisconnect,
    WebsocketClose,
}

/// The type whose name is `s`, if any.
pub open spec fn parse_type(s: Seq<char>) -> Option<Type> {
    if s == "http"@ {
        Some(Type::Http)
    } else if s == "http.request"@ {
        Some(Type::HttpRequest)
    } else if s == "http.response.start"@ {
        Some(Type::HttpResponseStart)
    } else if s == "http.response.body"@ {
        Some(Type::HttpResponseBody)
    } else if s == "http.disconnect"@ {
        Some(Type::HttpDisconnect)
    } else if s == "websocket"@ {
        Some(Type::Websocket)
    } else if s == "websocket.connect"@ {
        Some(Type::WebsocketConnect)
    } else if s == "websocket.accept"@ {
        Some(Type::WebsocketAccept)
    } else if s == "websocket.receive"@ {
        Some(Type::WebsocketReceive)
    } else if s == "websocket.send"@ {
        Some(Type::WebsocketSend)
    } else if s == "websocket.disconnect"@ {
        Some(Type::WebsocketDisconnect)
    } else if s == "websocket.close"@ {
        Some(Type::WebsocketClose)
    } else {
        None
    }
}

impl Type {
    /// The name under which the type is exchanged with applications.
    pub open spec fn name(self) -> Seq<char> {
        match self {
            Type::Http => "http"@,
            Type::HttpRequest => "http.request"@,
            Type::HttpResponseStart => "http.response.start"@,
            Type::HttpResponseBody => "http.response.body"@,
            Type::HttpDisconnect => "http.disconnect"@,
            Type::Websocket => "websocket"@,
            Type::WebsocketConnect => "websocket.connect"@,
            Type::WebsocketAccept => "websocket.accept"@,
            Type::WebsocketReceive => "websocket.receive"@,
            Type::WebsocketSend => "websocket.send"@,
            Type::WebsocketDisconnect => "websocket.disconnect"@,
            Type::WebsocketClose => "websocket.close"@,
        }
    }

    /// Whether the type belongs to the websocket protocol.
    pub open spec fn spec_is_websocket(self) -> bool {
        match self {
            Type::Websocket | Type::WebsocketConnect | Type::WebsocketAccept
            | Type::WebsocketReceive | Type::WebsocketSend | Type::WebsocketDisconnect
            | Type::WebsocketClose => true,
            _ => false,
        }
    }

    pub fn as_ref(&self) -> (s: &'static str)
        ensures
            s@ == self.name(),
    {
        match self {
            Type::Http => "http",
            Type::HttpRequest => "http.request",
            Type::HttpResponseStart => "http.response.start",
            Type::HttpResponseBody => "http.response.body",
            Type::HttpDisconnect => "http.disconnect",
            Type::Websocket => "websocket",
            Type::WebsocketConnect => "websocket.connect",
            Type::WebsocketAccept => "websocket.accept",
            Type::WebsocketReceive => "websocket.receive",
            Type::WebsocketSend => "websocket.send",
            Type::WebsocketDisconnect => "websocket.disconnect",
            Type::WebsocketClose => "websocket.close",
        }
    }

    pub fn as_str(&self) -> (s: &'static str)
        ensures
            s@ == self.name(),
    {
        self.as_ref()
    }

    pub fn is_websocket(&self) -> (b: bool)
        ensures
            b == self.spec_is_websocket(),
    {
        match self {
            Type::Websocket | Type::WebsocketReceive | Type::WebsocketConnect
            | Type::WebsocketAccept | Type::WebsocketSend | Type::WebsocketDisconnect
            | Type::WebsocketClose => true,
            _ => false,
        }
    }

    /// Parses a type name; any other text is refused with `"Invalid Type"`.
    pub fn from_str(s: &str) -> (r: Result<Type, &'static str>)
        ensures
            match r {
                Ok(t) => parse_type(s@) == Some(t),
                Err(e) => parse_type(s@) is None && e@ == "Invalid Type"@,
            },
    {
        if str_eq(s, "http") {
            Ok(Type::Http)
        } else if str_eq(s, "http.request") {
            Ok(Type::HttpRequest)
        } else if str_eq(s, "http.response.start") {
            Ok(Type::HttpResponseStart)
        } else if str_eq(s, "http.response.body") {
            Ok(Type::HttpResponseBody)
        } else if str_eq(s, "http.disconnect") {
            Ok(Type::HttpDisconnect)
        } else if str_eq(s, "websocket") {
            Ok(Type::Websocket)
        } else if str_eq(s, "websocket.connect") {
            Ok(Type::WebsocketConnect)
        } else if str_eq(s, "websocket.accept") {
            Ok(Type::WebsocketAccept)
        } else if str_eq(s, "websocket.receive") {
            Ok(Type::WebsocketReceive)
        } else if str_eq(s, "websocket.send") {
            Ok(Type::WebsocketSend)
        } else if str_eq(s, "websocket.disconnect") {
            Ok(Type::WebsocketDisconnect)
        } else if str_eq(s, "websocket.close") {
            Ok(Type::WebsocketClose)
        } else {
            Err("Invalid Type")
        }
    }
}

impl std::str::FromStr for Type {
    type Err = &'static str;

    fn from_str(s: &str) -> (r: Result<Type, &'static str>)
        ensures
            match r {
                Ok(t) => parse_type(s@) == Some(t),
                Err(e) => parse_type(s@) is None && e@ == "Invalid Type"@,
            },
    {
        Type::from_str(s)
    }
}

impl AsRef<str> for Type {
    fn as_ref(&self) -> (s: &str)
        ensures
            s@ == self.name(),
    {
        Type::as_ref(self)
    }
}

/// Parsing a type's name gives the type back, and a name that parses is the
/// name of the type it parses to: names and types are in one-to-one
/// correspondence.
pub proof fn lemma_type_name_roundtrip(t: Type, s: Seq<char>)
    ensures
        parse_type(t.name()) == Some(t),
        parse_type(s) == Some(t) ==> t.name() == s,
{
    reveal_strlit("http");
    reveal_strlit("http.request");
    reveal_strlit("http.response.start");
    reveal_strlit("http.response.body");
    reveal_strlit("http.disconnect");
    reveal_strlit("websocket");
    reveal_strlit("websocket.connect");
    reveal_strlit("websocket.accept");
    reveal_strlit("websocket.receive");
    reveal_strlit("websocket.send");
    reveal_strlit("websocket.disconnect");
    reveal_strlit("websocket.close");
    assert("websocket.receive"@[10] != "websocket.connect"@[10]);
    assert("websocket.receive"@ != "websocket.connect"@);
    assert("websocket"@.len() == 9);
    assert("http"@.len() == 4);
    assert("http.request"@.len() == 12);
    assert("http.response.start"@.len() == 19);
    assert("http.response.body"@.len() == 18);
    assert("http.disconnect"@.len() == 15);
    assert("websocket.connect"@.len() == 17);
    assert("websocket.accept"@.len() == 16);
    assert("websocket.receive"@.len() == 17);
    assert("websocket.send"@.len() == 14);
    assert("websocket.disconnect"@.len() == 20);
    assert("websocket.close"@.len() == 15);
    assert("websocket.close"@[0] != "http.disconnect"@[0]);
    assert("websocket.close"@ != "http.disconnect"@);
}

/// HTTP protocol versions as a connection reports them.
#[derive(Clone, Copy, Debug, PartialEq, Eq, Structural)]
pub enum ProtocolVersion {
    Http09,
    Http10,
    Http11,
    Http2,
    Http3,
}

impl ProtocolVersion {
    /// Whether the server can describe this version in a scope.
    pub open spec fn is_supported(self) -> bool {
        match self {
            ProtocolVersion::Http10 | ProtocolVersion::Http11 | ProtocolVersion::Http2 => true,
            _ => false,
        }
    }
}

/// The HTTP versions a scope can carry.
#[non_exhaustive]
#[derive(Clone, Copy, Debug, PartialEq, Eq, Structural)]
pub enum HttpVersion {
    V1_0,
    V1_1,
    V2,
}

impl HttpVersion {
    pub open spec fn name(self) -> Seq<char> {
        match self {
            HttpVersion::V1_0 => "1.0"@,
            HttpVersion::V1_1 => "1.1"@,
            HttpVersion::V2 => "2"@,
        }
    }

    pub open spec fn spec_from_protocol(v: ProtocolVersion) -> HttpVersion
        recommends
            v.is_supported(),
    {
        match v {
            ProtocolVersion::Http10 => HttpVersion::V1_0,
            ProtocolVersion::Http11 => HttpVersion::V1_1,
            _ => HttpVersion::V2,
        }
    }

    pub fn as_ref(&self) -> (s: &'static str)
        ensures
            s@ == self.name(),
    {
        match self {
            HttpVersion::V1_0 => "1.0",
            HttpVersion::V1_1 => "1.1",
            HttpVersion::V2 => "2",
        }
    }

    /// The scope version of a connection's protocol; HTTP/0.9 and HTTP/3
    /// have none.
    pub fn from_protocol(v: ProtocolVersion) -> (r: HttpVersion)
        requires
            v.is_supported(),
        ensures
            r == HttpVersion::spec_from_protocol(v),
    {
        match v {
            ProtocolVersion::Http10 => HttpVersion::V1_0,
            ProtocolVersion::Http11 => HttpVersion::V1_1,
            _ => HttpVersion::V2,
        }
    }
}

impl AsRef<str> for HttpVersion {
    fn as_ref(&self) -> (s: &str)
        ensures
            s@ == self.name(),
    {
        HttpVersion::as_ref(self)
    }
}

/// The `asgi` entry of a scope.
#[derive(Clone, Copy, Debug, PartialEq, Eq, Structural)]
pub struct Asgi {
    pub version: AsgiVersion,
    pub spec_version: SpecVersion,
}

/// The `asgi` dictionary: interface version, then specification version.
pub open spec fn asgi_dict(a: Asgi) -> Seq<(Seq<char>, Seq<char>)> {
    seq![("version"@, a.version.name()), ("spec_version"@, a.spec_version.name())]
}

impl Default for Asgi {
    fn default() -> (r: Self)
        ensures
            r == (Asgi { version: AsgiVersion::V3, spec_version: SpecVersion::V2_3 }),
    {
        Asgi { version: AsgiVersion::default(), spec_version: SpecVersion::default() }
    }
}

impl Asgi {
    /// The entries of the `asgi` dictionary, in order.
    pub fn as_dict(&self) -> (r: Vec<(String, String)>)
        ensures
            r.deep_view() == asgi_dict(*self),
    {
        let mut r: Vec<(String, String)> = Vec::new();
        r.push((owned("version"), owned(self.version.as_ref())));
        r.push((owned("spec_version"), owned(self.spec_version.as_ref())));
        assert(r.deep_view() =~= asgi_dict(*self));
        r
    }
}

/// A type belongs to the websocket protocol exactly when its name starts
/// with `websocket`.
pub proof fn lemma_websocket_types_by_name(t: Type)
    ensures
        t.spec_is_websocket() <==> (t.name().len() >= 9 && t.name().take(9) == "websocket"@),
{
    reveal_strlit("http");
    reveal_strlit("http.request");
    reveal_strlit("http.response.start");
    reveal_strlit("http.response.body");
    reveal_strlit("http.disconnect");
    reveal_strlit("websocket");
    reveal_strlit("websocket.connect");
    reveal_strlit("websocket.accept");
    reveal_strlit("websocket.receive");
    reveal_strlit("websocket.send");
    reveal_strlit("websocket.disconnect");
    reveal_strlit("websocket.close");
    if t.spec_is_websocket() {
        assert(t.name().take(9) =~= "websocket"@);
    } else if t.name().len() >= 9 {
        assert(t.name().take(9)[0] != "websocket"@[0]);
    }
}

} // verus!
