//! Events exchanged with an application: what it receives, and the messages
//! it sends back, read from the dictionaries it passes to `send`.

use vstd::prelude::*;
use crate::asgi::dict::{DictValue, DictValueView, copy_bytes};
use crate::asgi::specs::{Type, lemma_type_name_roundtrip, parse_type};
use crate::text::owned;

verus! {

/// An event delivered to an application's `receive`.
#[derive(Debug, PartialEq, Eq)]
pub enum Receive {
    HttpRequest { body: Vec<u8>, more_body: bool },
    Disconnect,
    WebsocketConnect,
    WebsocketReceive { bytes: Option<Vec<u8>>, text: Option<String> },
    WebsocketDisconnect { code: u32 },
}

/// The `type` entry of an event dictionary.
pub open spec fn type_entry(t: Type) -> (Seq<char>, DictValueView) {
    ("type"@, DictValueView::Str(t.name()))
}

/// The dictionary of a received event, in order. An HTTP request body is
/// handed over as a list of integers; websocket bytes as a byte string.
pub open spec fn receive_dict(r: Receive) -> Seq<(Seq<char>, DictValueView)> {
    match r {
        Receive::HttpRequest { body, more_body } => seq![
            type_entry(Type::HttpRequest),
            ("body"@, DictValueView::IntList(body@)),
            ("more_body"@, DictValueView::Bool(more_body)),
        ],
        Receive::Disconnect => seq![type_entry(Type::HttpDisconnect)],
        Receive::WebsocketConnect => seq![type_entry(Type::WebsocketConnect)],
        Receive::WebsocketReceive { bytes, text } => {
            let d = seq![type_entry(Type::WebsocketReceive)];
            let d = match bytes {
                Some(b) => d.push(("bytes"@, DictValueView::Bytes(b@))),
                None => d,
            };
            match text {
                Some(t) => d.push(("text"@, DictValueView::Str(t@))),
                None => d,
            }
        },
        Receive::WebsocketDisconnect { code } => seq![
            type_entry(Type::WebsocketDisconnect),
            ("code"@, DictValueView::Int(code)),
        ],
    }
}

fn type_item(t: Type) -> (r: (String, DictValue))
    ensures
        r.deep_view() == type_entry(t),
{
    (owned("type"), DictValue::Str(owned(t.as_ref())))
}

impl Receive {
    /// The event's dictionary, in order.
    pub fn into_dict(self) -> (r: Vec<(String, DictValue)>)
        ensures
            r.deep_view() == receive_dict(self),
    {
        let ghost this = self;
        let mut d: Vec<(String, DictValue)> = Vec::new();
        match self {
            Receive::HttpRequest { body, more_body } => {
                d.push(type_item(Type::HttpRequest));
                d.push((owned("body"), DictValue::IntList(body)));
                d.push((owned("more_body"), DictValue::Bool(more_body)));
            },
            Receive::Disconnect => {
                d.push(type_item(Type::HttpDisconnect));
            },
            Receive::WebsocketConnect => {
                d.push(type_item(Type::WebsocketConnect));
            },
            Receive::WebsocketReceive { bytes, text } => {
                d.push(type_item(Type::WebsocketReceive));
                if let Some(b) = bytes {
                    d.push((owned("bytes"), DictValue::Bytes(b)));
                }
                if let Some(t) = text {
                    d.push((owned("text"), DictValue::Str(t)));
                }
            },
            Receive::WebsocketDisconnect { code } => {
                d.push(type_item(Type::WebsocketDisconnect));
                d.push((owned("code"), DictValue::Int(code)));
            },
        }
        assert(d.deep_view() =~= receive_dict(this));
        d
    }
}

/// A received websocket message hands its payload over whole: its dictionary
/// has a `bytes` entry holding `b` exactly when the message has the bytes
/// `b`, whatever its text, and a `text` entry holding `t` exactly when it
/// has the text `t`, whatever its bytes; it has no other entry but `type`.
pub proof fn lemma_websocket_receive_payload(bytes: Option<Vec<u8>>, text: Option<String>)
    ensures
        ({
            let d = receive_dict(Receive::WebsocketReceive { bytes, text });
            &&& d.len() == 1 + (if bytes is Some { 1int } else { 0int }) + (if text is Some { 1int } else { 0int })
            &&& d[0] == type_entry(Type::WebsocketReceive)
            &&& forall|b: Seq<u8>| #[trigger] d.contains(("bytes"@, DictValueView::Bytes(b)))
                <==> (bytes matches Some(x) && x@ == b)
            &&& forall|t: Seq<char>| #[trigger] d.contains(("text"@, DictValueView::Str(t)))
                <==> (text matches Some(x) && x@ == t)
            &&& forall|i: int| 0 <= i < d.len() && (#[trigger] d[i]).0 == "bytes"@ ==> bytes is Some
            &&& forall|i: int| 0 <= i < d.len() && (#[trigger] d[i]).0 == "text"@ ==> text is Some
        }),
{
    reveal_strlit("type");
    reveal_strlit("bytes");
    reveal_strlit("text");
    assert("bytes"@[0] != "type"@[0]);
    assert("bytes"@ != "type"@);
    assert("bytes"@[0] != "text"@[0]);
    assert("bytes"@ != "text"@);
    assert("text"@[1] != "type"@[1]);
    assert("text"@ != "type"@);
    let d = receive_dict(Receive::WebsocketReceive { bytes, text });
    assert forall|b: Seq<u8>| #[trigger] d.contains(("bytes"@, DictValueView::Bytes(b)))
        <==> (bytes matches Some(x) && x@ == b) by {
        if let Some(x) = bytes {
            if x@ == b {
                assert(d[1] == ("bytes"@, DictValueView::Bytes(b)));
            }
        }
    }
    assert forall|t: Seq<char>| #[trigger] d.contains(("text"@, DictValueView::Str(t)))
        <==> (text matches Some(x) && x@ == t) by {
        if let Some(x) = text {
            if x@ == t {
                assert(d[d.len() - 1] == ("text"@, DictValueView::Str(t)));
            }
        }
    }
}

/// The dictionary of a received request body carries the body and whether
/// more of it follows, and that of a websocket disconnect its close code.
pub proof fn lemma_receive_dict_fields(body: Vec<u8>, more_body: bool, code: u32)
    ensures
        receive_dict(Receive::HttpRequest { body, more_body }).contains(("body"@, DictValueView::IntList(body@))),
        receive_dict(Receive::HttpRequest { body, more_body }).contains(("more_body"@, DictValueView::Bool(more_body))),
        receive_dict(Receive::WebsocketDisconnect { code }).contains(("code"@, DictValueView::Int(code))),
{
    assert(receive_dict(Receive::HttpRequest { body, more_body })[1] == ("body"@, DictValueView::IntList(body@)));
    assert(receive_dict(Receive::HttpRequest { body, more_body })[2] == ("more_body"@, DictValueView::Bool(more_body)));
    assert(receive_dict(Receive::WebsocketDisconnect { code })[1] == ("code"@, DictValueView::Int(code)));
}

/// The dictionary answering a pull for the next piece of a request body:
/// a chunk is handed over with more to come, the end of the body as an
/// empty final chunk.
pub open spec fn chunk_event_dict(chunk: Option<Seq<u8>>) -> Seq<(Seq<char>, DictValueView)> {
    seq![
        type_entry(Type::HttpRequest),
        ("more_body"@, DictValueView::Bool(chunk is Some)),
        ("body"@, DictValueView::Bytes(
            match chunk {
                Some(c) => c,
                None => Seq::empty(),
            },
        )),
    ]
}

/// The event for the next piece of a request body (`None` once the body is
/// exhausted).
pub fn request_chunk_event(chunk: Option<Vec<u8>>) -> (r: Vec<(String, DictValue)>)
    ensures
        r.deep_view() == chunk_event_dict(chunk.deep_view()),
{
    let mut d: Vec<(String, DictValue)> = Vec::new();
    d.push(type_item(Type::HttpRequest));
    match chunk {
        Some(c) => {
            assert(c.deep_view() =~= c@);
            d.push((owned("more_body"), DictValue::Bool(true)));
            d.push((owned("body"), DictValue::Bytes(c)));
        },
        None => {
            d.push((owned("more_body"), DictValue::Bool(false)));
            d.push((owned("body"), DictValue::Bytes(Vec::new())));
        },
    }
    assert(d.deep_view() =~= chunk_event_dict(chunk.deep_view()));
    d
}


/// The events an application pulls for a request body that arrives in
/// these chunks: one per chunk, then the end of the body.
pub open spec fn chunk_events(chunks: Seq<Seq<u8>>) -> Seq<Seq<(Seq<char>, DictValueView)>> {
    Seq::new(
        chunks.len() + 1,
        |k: int|
            if k < chunks.len() {
                chunk_event_dict(Some(chunks[k]))
            } else {
                chunk_event_dict(None)
            },
    )
}

/// The body part a pulled event carries.
pub open spec fn event_body(d: Seq<(Seq<char>, DictValueView)>) -> Seq<u8> {
    match d[2].1 {
        DictValueView::Bytes(b) => b,
        _ => Seq::empty(),
    }
}

/// Pulling a body piece by piece: every event is an `http.request`; each
/// chunk comes in order with more to follow, then one final empty event;
/// and the bodies of all events, put together, are the request body, each
/// byte once.
pub proof fn lemma_body_pulled_in_order(chunks: Seq<Seq<u8>>)
    ensures
        ({
            let evs = chunk_events(chunks);
            &&& evs.len() == chunks.len() + 1
            &&& forall|k: int| 0 <= k < evs.len() ==> (#[trigger] evs[k])[0] == type_entry(Type::HttpRequest)
            &&& forall|k: int| 0 <= k < chunks.len() ==> {
                &&& (#[trigger] evs[k])[1].1 == DictValueView::Bool(true)
                &&& event_body(evs[k]) == chunks[k]
            }
            &&& evs[chunks.len() as int][1].1 == DictValueView::Bool(false)
            &&& event_body(evs[chunks.len() as int]) == Seq::<u8>::empty()
            &&& evs.map_values(|d: Seq<(Seq<char>, DictValueView)>| event_body(d)).flatten() == chunks.flatten()
        }),
{
    let evs = chunk_events(chunks);
    let bodies = evs.map_values(|d: Seq<(Seq<char>, DictValueView)>| event_body(d));
    assert(bodies =~= chunks.push(Seq::<u8>::empty()));
    chunks.lemma_flatten_push(Seq::<u8>::empty());
    assert(chunks.flatten() + Seq::<u8>::empty() =~= chunks.flatten());
}

/// A message an application sends back.
#[derive(Debug, PartialEq, Eq)]
pub enum Send {
    ResponseStart { type_: Type, status: u16, headers: Vec<(Vec<u8>, Vec<u8>)> },
    ResponseBody { type_: Type, body: Vec<u8>, more_body: bool },
    WebsocketAccept {
        type_: Type,
        subprotocols: Option<String>,
        headers: Vec<(Vec<u8>, Vec<u8>)>,
        sec_websocket_protocol: Option<String>,
    },
    WebsocketSend { type_: Type, bytes: Option<Vec<u8>>, text: Option<String> },
    WebsocketClose { type_: Type, code: u32, reason: Option<String> },
}

/// The content of a [`Send`] message.
pub enum SendView {
    ResponseStart { type_: Type, status: u16, headers: Seq<(Seq<u8>, Seq<u8>)> },
    ResponseBody { type_: Type, body: Seq<u8>, more_body: bool },
    WebsocketAccept {
        type_: Type,
        subprotocols: Option<Seq<char>>,
        headers: Seq<(Seq<u8>, Seq<u8>)>,
        sec_websocket_protocol: Option<Seq<char>>,
    },
    WebsocketSend { type_: Type, bytes: Option<Seq<u8>>, text: Option<Seq<char>> },
    WebsocketClose { type_: Type, code: u32, reason: Option<Seq<char>> },
}

impl DeepView for Send {
    type V = SendView;

    open spec fn deep_view(&self) -> SendView {
        match self {
            Send::ResponseStart { type_, status, headers } => SendView::ResponseStart {
                type_: *type_,
                status: *status,
                headers: headers.deep_view(),
            },
            Send::ResponseBody { type_, body, more_body } => SendView::ResponseBody {
                type_: *type_,
                body: body@,
                more_body: *more_body,
            },
            Send::WebsocketAccept { type_, subprotocols, headers, sec_websocket_protocol } =>
                SendView::WebsocketAccept {
                type_: *type_,
                subprotocols: subprotocols.deep_view(),
                headers: headers.deep_view(),
                sec_websocket_protocol: sec_websocket_protocol.deep_view(),
            },
            Send::WebsocketSend { type_, bytes, text } => SendView::WebsocketSend {
                type_: *type_,
                bytes: bytes.deep_view(),
                text: text.deep_view(),
            },
            Send::WebsocketClose { type_, code, reason } => SendView::WebsocketClose {
                type_: *type_,
                code: *code,
                reason: reason.deep_view(),
            },
        }
    }
}

/// One entry of a dictionary an application passed to `send`, as read from
/// it: missing, present with a value of the expected kind, or present with a
/// value of another kind.
#[derive(Debug, PartialEq, Eq)]
pub enum Field<T> {
    Absent,
    Present(T),
    Invalid,
}

impl<T: DeepView> DeepView for Field<T> {
    type V = Field<T::V>;

    open spec fn deep_view(&self) -> Field<T::V> {
        match self {
            Field::Absent => Field::Absent,
            Field::Present(v) => Field::Present(v.deep_view()),
            Field::Invalid => Field::Invalid,
        }
    }
}

/// One item of a `headers` list: a sequence (or something else), each of
/// whose elements is a byte string (or something else).
pub type HeaderItem = Field<Vec<Field<Vec<u8>>>>;

/// What the server reads from a dictionary passed to `send`.
#[derive(Debug, PartialEq, Eq)]
pub struct SendEvent {
    pub type_: Field<String>,
    pub status: Field<u16>,
    pub headers: Field<Vec<HeaderItem>>,
    pub body: Field<Vec<u8>>,
    pub more_body: Field<bool>,
}

pub struct SendEventView {
    pub type_: Field<Seq<char>>,
    pub status: Field<u16>,
    pub headers: Field<Seq<Field<Seq<Field<Seq<u8>>>>>>,
    pub body: Field<Seq<u8>>,
    pub more_body: Field<bool>,
}

impl DeepView for SendEvent {
    type V = SendEventView;

    open spec fn deep_view(&self) -> SendEventView {
        SendEventView {
            type_: self.type_.deep_view(),
            status: self.status.deep_view(),
            headers: self.headers.deep_view(),
            body: self.body.deep_view(),
            more_body: self.more_body.deep_view(),
        }
    }
}

/// The entries of a `send` dictionary that the server reads.
#[derive(Clone, Copy, Debug, PartialEq, Eq, Structural)]
pub enum EventKey {
    Type,
    Status,
    Headers,
    Body,
    MoreBody,
}

/// Why a dictionary passed to `send` was refused.
#[derive(Clone, Copy, Debug, PartialEq, Eq, Structural)]
pub enum SendEventError {
    /// A required entry is missing.
    MissingKey(EventKey),
    /// An entry holds a value of the wrong kind.
    InvalidValue(EventKey),
    /// The `type` entry names no message type.
    UnknownType,
    /// A header is not a `(name, value)` pair; it has this many elements.
    HeaderArity(usize),
}

/// One header read from a `headers` list.
pub open spec fn header_item(item: Field<Seq<Field<Seq<u8>>>>) -> Result<(Seq<u8>, Seq<u8>), SendEventError> {
    match item {
        Field::Present(elems) => if elems.len() != 2 {
            Err(SendEventError::HeaderArity(elems.len() as usize))
        } else {
            match (elems[0], elems[1]) {
                (Field::Present(k), Field::Present(v)) => Ok((k, v)),
                _ => Err(SendEventError::InvalidValue(EventKey::Headers)),
            }
        },
        _ => Err(SendEventError::InvalidValue(EventKey::Headers)),
    }
}

/// The headers read from a `headers` list, in order; the first bad item
/// decides the error.
pub open spec fn header_items(items: Seq<Field<Seq<Field<Seq<u8>>>>>) -> Result<Seq<(Seq<u8>, Seq<u8>)>, SendEventError>
    decreases items.len(),
{
    if items.len() == 0 {
        Ok(Seq::empty())
    } else {
        match header_item(items[0]) {
            Err(e) => Err(e),
            Ok(h) => match header_items(items.skip(1)) {
                Ok(rest) => Ok(seq![h] + rest),
                Err(e) => Err(e),
            },
        }
    }
}

/// Whether the event's type, when it names one, is one the server accepts
/// from an HTTP application.
pub open spec fn event_type_supported(ev: SendEventView) -> bool {
    match ev.type_ {
        Field::Present(s) => match parse_type(s) {
            Some(t) => t == Type::HttpResponseStart || t == Type::HttpResponseBody,
            None => true,
        },
        _ => true,
    }
}

/// The message a `send` dictionary stands for. A response start needs a
/// status, its headers default to none; a response body defaults to empty
/// and final.
pub open spec fn event_message(ev: SendEventView) -> Result<SendView, SendEventError> {
    match ev.type_ {
        Field::Absent => Err(SendEventError::MissingKey(EventKey::Type)),
        Field::Invalid => Err(SendEventError::InvalidValue(EventKey::Type)),
        Field::Present(s) => match parse_type(s) {
            None => Err(SendEventError::UnknownType),
            Some(t) => if t == Type::HttpResponseStart {
                match ev.status {
                    Field::Absent => Err(SendEventError::MissingKey(EventKey::Status)),
                    Field::Invalid => Err(SendEventError::InvalidValue(EventKey::Status)),
                    Field::Present(status) => match ev.headers {
                        Field::Absent => Ok(
                            SendView::ResponseStart { type_: t, status, headers: Seq::empty() },
                        ),
                        Field::Invalid => Err(SendEventError::InvalidValue(EventKey::Headers)),
                        Field::Present(items) => match header_items(items) {
                            Ok(headers) => Ok(SendView::ResponseStart { type_: t, status, headers }),
                            Err(e) => Err(e),
                        },
                    },
                }
            } else {
                match (ev.body, ev.more_body) {
                    (Field::Invalid, _) => Err(SendEventError::InvalidValue(EventKey::Body)),
                    (_, Field::Invalid) => Err(SendEventError::InvalidValue(EventKey::MoreBody)),
                    (body, more_body) => Ok(
                        SendView::ResponseBody {
                            type_: t,
                            body: match body {
                                Field::Present(b) => b,
                                _ => Seq::empty(),
                            },
                            more_body: match more_body {
                                Field::Present(m) => m,
                                _ => false,
                            },
                        },
                    ),
                }
            },
        },
    }
}

/// A response body message takes its body from the `body` entry, empty when
/// there is none, and its `more_body` from the `more_body` entry alone:
/// without one the body is complete, whatever the `body` entry holds.
pub proof fn lemma_response_body_message(ev: SendEventView)
    requires
        ev.type_ == Field::Present(Type::HttpResponseBody.name()),
        !(ev.body is Invalid),
        !(ev.more_body is Invalid),
    ensures
        event_message(ev) matches Ok(SendView::ResponseBody { type_, body, more_body }) && {
            &&& type_ == Type::HttpResponseBody
            &&& more_body == (ev.more_body == Field::Present(true))
            &&& ev.more_body is Absent ==> !more_body
            &&& ev.body matches Field::Present(b) ==> body == b
            &&& ev.body is Absent ==> body.len() == 0
        },
{
    lemma_type_name_roundtrip(Type::HttpResponseBody, Type::HttpResponseBody.name());
}

/// A response start message takes its status from the `status` entry and
/// its headers, in order, from the `headers` entry; without one it has no
/// headers.
pub proof fn lemma_response_start_message(ev: SendEventView, status: u16)
    requires
        ev.type_ == Field::Present(Type::HttpResponseStart.name()),
        ev.status == Field::Present(status),
    ensures
        ev.headers is Absent ==> event_message(ev) == Ok::<_, SendEventError>(
            SendView::ResponseStart { type_: Type::HttpResponseStart, status, headers: Seq::empty() },
        ),
        ev.headers matches Field::Present(items) ==> (header_items(items) matches Ok(hs) ==> event_message(ev)
            == Ok::<_, SendEventError>(SendView::ResponseStart { type_: Type::HttpResponseStart, status, headers: hs })),
{
    lemma_type_name_roundtrip(Type::HttpResponseStart, Type::HttpResponseStart.name());
}

/// Reads the headers of a `headers` list.
pub fn parse_headers(items: &Vec<HeaderItem>) -> (r: Result<Vec<(Vec<u8>, Vec<u8>)>, SendEventError>)
    ensures
        match r {
            Ok(h) => header_items(items.deep_view()) == Ok::<_, SendEventError>(h.deep_view()),
            Err(e) => header_items(items.deep_view()) == Err::<Seq<(Seq<u8>, Seq<u8>)>, _>(e),
        },
{
    let ghost all = items.deep_view();
    let mut out: Vec<(Vec<u8>, Vec<u8>)> = Vec::new();
    let mut i: usize = 0;
    assert(all.skip(0) =~= all);
    while i < items.len()
        invariant
            i <= items.len(),
            all == items.deep_view(),
            header_items(all) == match header_items(all.skip(i as int)) {
                Ok(rest) => Ok(out.deep_view() + rest),
                Err(e) => Err(e),
            },
        decreases items.len() - i,
    {
        let ghost rest = all.skip(i as int);
        assert(rest[0] == items@[i as int].deep_view());
        assert(rest.skip(1) =~= all.skip(i + 1));
        let pair = match &items[i] {
            Field::Present(elems) => {
                if elems.len() != 2 {
                    return Err(SendEventError::HeaderArity(elems.len()));
                }
                match (&elems[0], &elems[1]) {
                    (Field::Present(k), Field::Present(v)) => (copy_bytes(k), copy_bytes(v)),
                    _ => {
                        return Err(SendEventError::InvalidValue(EventKey::Headers));
                    },
                }
            },
            _ => {
                return Err(SendEventError::InvalidValue(EventKey::Headers));
            },
        };
        let ghost prev = out.deep_view();
        assert(header_item(rest[0]) == Ok::<_, SendEventError>(pair.deep_view()));
        out.push(pair);
        assert(out.deep_view() =~= prev.push(pair.deep_view()));
        assert forall|s: Seq<(Seq<u8>, Seq<u8>)>|
            #![trigger prev + (seq![pair.deep_view()] + s)]
            (prev + (seq![pair.deep_view()] + s)) == (out.deep_view() + s) by {
            assert((prev + (seq![pair.deep_view()] + s)) =~= (out.deep_view() + s));
        }
        i = i + 1;
    }
    assert(all.skip(i as int) =~= Seq::<Field<Seq<Field<Seq<u8>>>>>::empty());
    assert(out.deep_view() + Seq::<(Seq<u8>, Seq<u8>)>::empty() =~= out.deep_view());
    Ok(out)
}


impl Send {
    /// Reads the message an HTTP application passed to `send`.
    pub fn from_event(event: SendEvent) -> (r: Result<Send, SendEventError>)
        requires
            event_type_supported(event.deep_view()),
        ensures
            match r {
                Ok(m) => event_message(event.deep_view()) == Ok::<_, SendEventError>(m.deep_view()),
                Err(e) => event_message(event.deep_view()) == Err::<SendView, _>(e),
            },
    {
        let ghost ev = event.deep_view();
        let SendEvent { type_, status, headers, body, more_body } = event;
        let stype = match type_ {
            Field::Absent => {
                return Err(SendEventError::MissingKey(EventKey::Type));
            },
            Field::Invalid => {
                return Err(SendEventError::InvalidValue(EventKey::Type));
            },
            Field::Present(s) => s,
        };
        let t = match Type::from_str(stype.as_str()) {
            Ok(t) => t,
            Err(_) => {
                return Err(SendEventError::UnknownType);
            },
        };
        if t == Type::HttpResponseStart {
            let status = match status {
                Field::Absent => {
                    return Err(SendEventError::MissingKey(EventKey::Status));
                },
                Field::Invalid => {
                    return Err(SendEventError::InvalidValue(EventKey::Status));
                },
                Field::Present(s) => s,
            };
            let headers = match headers {
                Field::Absent => Vec::new(),
                Field::Invalid => {
                    return Err(SendEventError::InvalidValue(EventKey::Headers));
                },
                Field::Present(items) => parse_headers(&items)?,
            };
            proof {
                if ev.headers is Absent {
                    assert(headers.deep_view() =~= Seq::<(Seq<u8>, Seq<u8>)>::empty());
                }
            }
            Ok(Send::ResponseStart { type_: t, status, headers })
        } else {
            let body = match body {
                Field::Invalid => {
                    return Err(SendEventError::InvalidValue(EventKey::Body));
                },
                Field::Absent => Vec::new(),
                Field::Present(b) => b,
            };
            let more_body = match more_body {
                Field::Invalid => {
                    return Err(SendEventError::InvalidValue(EventKey::MoreBody));
                },
                Field::Absent => false,
                Field::Present(m) => m,
            };
            proof {
                assert(body.deep_view() =~= body@);
                if ev.body is Absent {
                    assert(body@ =~= Seq::<u8>::empty());
                }
            }
            Ok(Send::ResponseBody { type_: t, body, more_body })
        }
    }
}


/// The type of a received event.
pub open spec fn receive_type(r: Receive) -> Type {
    match r {
        Receive::HttpRequest { .. } => Type::HttpRequest,
        Receive::Disconnect => Type::HttpDisconnect,
        Receive::WebsocketConnect => Type::WebsocketConnect,
        Receive::WebsocketReceive { .. } => Type::WebsocketReceive,
        Receive::WebsocketDisconnect { .. } => Type::WebsocketDisconnect,
    }
}

/// Every event dictionary starts with its `type`, and has no other `type`
/// entry.
pub proof fn lemma_receive_dict_typed(r: Receive)
    ensures
        receive_dict(r).len() > 0,
        receive_dict(r)[0] == type_entry(receive_type(r)),
        forall|i: int| 0 < i < receive_dict(r).len() ==> (#[trigger] receive_dict(r)[i]).0 != "type"@,
{
    reveal_strlit("type");
    reveal_strlit("body");
    reveal_strlit("more_body");
    reveal_strlit("bytes");
    reveal_strlit("text");
    reveal_strlit("code");
    assert("text"@[1] != "type"@[1]);
    assert("text"@ != "type"@);
    assert("body"@[0] != "type"@[0]);
    assert("body"@ != "type"@);
    assert("code"@[0] != "type"@[0]);
    assert("code"@ != "type"@);
    assert("bytes"@ != "type"@);
    assert("more_body"@ != "type"@);
    let d = receive_dict(r);
    assert forall|i: int| 0 < i < d.len() implies (#[trigger] d[i]).0 != "type"@ by {
        match r {
            Receive::WebsocketReceive { bytes, text } => {
                let d0 = seq![type_entry(Type::WebsocketReceive)];
                let d1 = match bytes {
                    Some(b) => d0.push(("bytes"@, DictValueView::Bytes(b@))),
                    None => d0,
                };
                assert(d1.len() <= 2);
                if i < d1.len() {
                    assert(d[i] == d1[i]);
                }
            },
            _ => {},
        }
    }
}

} // verus!
