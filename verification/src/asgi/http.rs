//! Serving one HTTP request: the scope built from the request, and the
//! response assembled from the messages the application sends.

use vstd::prelude::*;
use crate::asgi::events::{Send, SendView};
use crate::asgi::scope::{Scope, ScopeView, ServerAddr, ServerAddrView, SocketAddress, scope_dict};
use crate::asgi::dict::DictValueView;
use vstd::utf8::encode_utf8;
use crate::asgi::specs::{Asgi, AsgiVersion, HttpVersion, ProtocolVersion, SpecVersion, Type};
use crate::headers::{
    all_normalized, check_headers, checked_headers, close_value, close_value_bytes,
    connection_name, connection_name_bytes, drop_pseudo_headers, insert_header,
    insert_header_value, is_status_code, lemma_checked_headers_normalized,
    lemma_connection_close_valid, lemma_insert_header_normalized, lemma_insert_header_sets,
    requests_close, status_code_from_u16, upgrade_requested, websocket_upgrade, without_pseudo_headers,
    all_valid, is_header_name, is_header_value, lemma_insert_header_keeps, lemma_valid_headers_pass,
    normalized_header, is_pseudo_header, lemma_without_pseudo_headers_keeps,
    HeaderError, HeaderPairs,
};
use crate::asgi::dict::copy_pairs;
use crate::text::owned;

verus! {

/// What the server reads from a request before handing it to the
/// application.
#[derive(Debug, PartialEq, Eq)]
pub struct RequestHead {
    pub version: ProtocolVersion,
    pub method: String,
    /// The URI's scheme, when the request target has one.
    pub scheme: Option<String>,
    pub path: String,
    /// The URI's query, when it has one.
    pub query: Option<String>,
    /// The request's headers, names normalised, in header-map order.
    pub headers: HeaderPairs,
}

/// How a request is served.
#[derive(Clone, Copy, Debug, PartialEq, Eq, Structural)]
pub enum Protocol {
    Http,
    Websocket,
}

/// The protocol a request with these headers is served with: a websocket
/// when it asks to be upgraded to one.
pub fn request_protocol(headers: &HeaderPairs) -> (r: Protocol)
    ensures
        r == (if websocket_upgrade(headers.deep_view()) { Protocol::Websocket } else { Protocol::Http }),
{
    if upgrade_requested(headers) {
        Protocol::Websocket
    } else {
        Protocol::Http
    }
}

/// The scope of an HTTP request: scheme `http` and an empty query when the
/// URI has none, pseudo-headers left out, no raw path, the peer as client
/// and the listening endpoint as server.
pub open spec fn http_scope_view(
    req: RequestHead,
    root_path: Seq<char>,
    remote: (Seq<char>, u16),
    local: (Seq<char>, u16),
) -> ScopeView {
    ScopeView {
        type_: Type::Http,
        asgi: Asgi { version: AsgiVersion::V3, spec_version: SpecVersion::V2_3 },
        http_version: HttpVersion::spec_from_protocol(req.version),
        method: req.method@,
        scheme: match req.scheme {
            Some(s) => s@,
            None => "http"@,
        },
        path: req.path@,
        raw_path: None,
        query_string: match req.query {
            Some(q) => q@,
            None => ""@,
        },
        root_path,
        headers: without_pseudo_headers(req.headers.deep_view()),
        client: Some(remote),
        server: ServerAddrView::SocketAddr(local.0, local.1),
        subprotocols: None,
    }
}

/// The scope handed to the application for an HTTP request.
pub fn http_scope(
    req: RequestHead,
    root_path: String,
    remote: SocketAddress,
    local: SocketAddress,
) -> (r: Scope)
    requires
        req.version.is_supported(),
    ensures
        r@ == http_scope_view(req, root_path@, remote@, local@),
{
    let ghost req0 = req;
    let RequestHead { version, method, scheme, path, query, headers } = req;
    let scheme = match scheme {
        Some(s) => s,
        None => owned("http"),
    };
    let query = match query {
        Some(q) => q,
        None => owned(""),
    };
    let headers = drop_pseudo_headers(headers);
    let r = Scope::new(
        Type::Http,
        Asgi::default(),
        HttpVersion::from_protocol(version),
        method,
        scheme,
        path,
        None,
        query,
        root_path,
        headers,
        Some(remote),
        ServerAddr::SocketAddr(local),
    );
    assert(r@ == http_scope_view(req0, root_path@, remote@, local@));
    r
}

/// The scope dictionary of an HTTP request: type `http`, the request's
/// method and path, its scheme (`http` when the URI has none), its query
/// (empty when it has none), the root path, the request's headers less its
/// pseudo-headers, the peer's address and port as client and the listening
/// address and port as server, neither taking anything from the other.
pub proof fn lemma_http_scope_entries(
    req: RequestHead,
    root_path: Seq<char>,
    remote: (Seq<char>, u16),
    local: (Seq<char>, u16),
)
    ensures
        ({
            let v = http_scope_view(req, root_path, remote, local);
            let d = scope_dict(v);
            &&& v.client == Some(remote)
            &&& v.server == ServerAddrView::SocketAddr(local.0, local.1)
            &&& d.len() == 12
            &&& d[0] == ("type"@, DictValueView::Str("http"@))
            &&& d[2] == ("http_version"@, DictValueView::Str(HttpVersion::spec_from_protocol(req.version).name()))
            &&& d[3] == ("method"@, DictValueView::Str(req.method@))
            &&& d[6] == ("raw_path"@, DictValueView::Null)
            &&& d[5] == ("path"@, DictValueView::Str(req.path@))
            &&& req.scheme matches Some(sc) ==> d[4] == ("scheme"@, DictValueView::Str(sc@))
            &&& req.scheme is None ==> d[4] == ("scheme"@, DictValueView::Str("http"@))
            &&& req.query matches Some(q) ==> d[7] == ("query_string"@, DictValueView::IntList(encode_utf8(q@)))
            &&& req.query is None ==> d[7] == ("query_string"@, DictValueView::IntList(encode_utf8(""@)))
            &&& d[8] == ("root_path"@, DictValueView::Str(root_path))
            &&& d[9].0 == "headers"@
            &&& d[9].1 matches DictValueView::HeaderList(hs) && {
                &&& forall|k: int| 0 <= k < hs.len() ==> !is_pseudo_header((#[trigger] hs[k]).0)
                    && req.headers.deep_view().contains(hs[k])
                &&& forall|k: int| 0 <= k < req.headers.deep_view().len()
                    && !is_pseudo_header((#[trigger] req.headers.deep_view()[k]).0)
                    ==> hs.contains(req.headers.deep_view()[k])
            }
            &&& d[10] == ("client"@, DictValueView::Address(Some(remote.0), Some(remote.1)))
            &&& d[11] == ("server"@, DictValueView::Address(Some(local.0), Some(local.1)))
        }),
{
    lemma_without_pseudo_headers_keeps(req.headers.deep_view());
}

/// Status line and headers of a response.
#[derive(Debug, PartialEq, Eq)]
pub struct ResponseHead {
    pub status: u16,
    pub headers: HeaderPairs,
}

/// Why a response could not be produced.
#[derive(Clone, Copy, Debug, PartialEq, Eq, Structural)]
pub enum ResponseError {
    /// The application's status is not a three-digit code.
    InvalidStatus,
    /// A header of the application, or a default header, is refused.
    InvalidHeader(HeaderError),
    /// The application's first message is not a response start.
    StartRequired,
    /// The message after the response start is not a response body.
    BodyRequired,
}

/// The head of a response: the application's status; its headers, then
/// the server's default headers, checked and normalised; and
/// `connection: close` set when the request asked for it.
pub open spec fn response_head(
    status: u16,
    app_headers: Seq<(Seq<u8>, Seq<u8>)>,
    default_headers: Seq<(Seq<u8>, Seq<u8>)>,
    close: bool,
) -> Result<(u16, Seq<(Seq<u8>, Seq<u8>)>), ResponseError> {
    if !is_status_code(status) {
        Err(ResponseError::InvalidStatus)
    } else {
        match checked_headers(app_headers + default_headers) {
            Err(e) => Err(ResponseError::InvalidHeader(e)),
            Ok(hs) => Ok(
                (status, if close {
                    insert_header(hs, connection_name(), close_value())
                } else {
                    hs
                }),
            ),
        }
    }
}

impl ResponseHead {
    /// Builds the head of a response.
    pub fn build(
        status: u16,
        app_headers: &HeaderPairs,
        default_headers: &HeaderPairs,
        connection_close: bool,
    ) -> (r: Result<ResponseHead, ResponseError>)
        ensures
            match r {
                Ok(h) => response_head(
                    status,
                    app_headers.deep_view(),
                    default_headers.deep_view(),
                    connection_close,
                ) == Ok::<_, ResponseError>((h.status, h.headers.deep_view())),
                Err(e) => response_head(
                    status,
                    app_headers.deep_view(),
                    default_headers.deep_view(),
                    connection_close,
                ) == Err::<(u16, Seq<(Seq<u8>, Seq<u8>)>), _>(e),
            },
    {
        let status = match status_code_from_u16(status) {
            Some(s) => s,
            None => {
                return Err(ResponseError::InvalidStatus);
            },
        };
        let mut all = copy_pairs(app_headers);
        let extra = copy_pairs(default_headers);
        let mut extra = extra;
        all.append(&mut extra);
        assert(all.deep_view() =~= app_headers.deep_view() + default_headers.deep_view());
        let checked = match check_headers(&all) {
            Ok(c) => c,
            Err(e) => {
                return Err(ResponseError::InvalidHeader(e));
            },
        };
        let headers = if connection_close {
            insert_header_value(checked, connection_name_bytes(), close_value_bytes())
        } else {
            checked
        };
        Ok(ResponseHead { status, headers })
    }
}


/// A valid status with valid headers makes a head: it carries that status
/// and, in order, every header of the application and then every default
/// header, names normalised and values unchanged. When the connection is
/// to be closed, every one of those headers that is not a `connection`
/// header is still in the head.
pub proof fn lemma_head_carries_headers(
    status: u16,
    app_headers: Seq<(Seq<u8>, Seq<u8>)>,
    default_headers: Seq<(Seq<u8>, Seq<u8>)>,
    close: bool,
)
    requires
        is_status_code(status),
        all_valid(app_headers),
        all_valid(default_headers),
    ensures
        response_head(status, app_headers, default_headers, close) matches Ok((s, hs)) && s == status && {
            let n = app_headers.len();
            let m = default_headers.len();
            &&& !close ==> {
                &&& hs.len() == n + m
                &&& forall|i: int| 0 <= i < n ==> #[trigger] hs[i] == normalized_header(app_headers[i])
                &&& forall|j: int| 0 <= j < m ==> #[trigger] hs[n + j] == normalized_header(default_headers[j])
            }
            &&& close ==> {
                &&& forall|i: int|
                    0 <= i < n && normalized_header(#[trigger] app_headers[i]).0 != connection_name()
                        ==> hs.contains(normalized_header(app_headers[i]))
                &&& forall|j: int|
                    0 <= j < m && normalized_header(#[trigger] default_headers[j]).0 != connection_name()
                        ==> hs.contains(normalized_header(default_headers[j]))
            }
        },
{
    let all = app_headers + default_headers;
    let n = app_headers.len();
    assert forall|i: int| 0 <= i < all.len() implies is_header_name(#[trigger] all[i].0)
        && is_header_value(all[i].1) by {
        if i < n {
            assert(all[i] == app_headers[i]);
            assert(is_header_name(app_headers[i].0));
        } else {
            assert(all[i] == default_headers[i - n]);
            assert(is_header_name(default_headers[i - n].0));
        }
    }
    lemma_valid_headers_pass(all);
    let checked = all.map_values(|h: (Seq<u8>, Seq<u8>)| normalized_header(h));
    assert forall|i: int| 0 <= i < n implies checked[i] == normalized_header(#[trigger] app_headers[i]) by {
        assert(all[i] == app_headers[i]);
    }
    assert forall|j: int| 0 <= j < default_headers.len() implies checked[n + j] == normalized_header(
        #[trigger] default_headers[j],
    ) by {
        assert(all[n + j] == default_headers[j]);
    }
    if close {
        lemma_insert_header_keeps(checked, connection_name(), close_value());
        let hs = insert_header(checked, connection_name(), close_value());
        assert forall|i: int|
            0 <= i < n && normalized_header(#[trigger] app_headers[i]).0 != connection_name()
            implies hs.contains(normalized_header(app_headers[i])) by {
            assert(checked[i] == normalized_header(app_headers[i]));
        }
        assert forall|j: int|
            0 <= j < default_headers.len() && normalized_header(#[trigger] default_headers[j]).0
                != connection_name() implies hs.contains(normalized_header(default_headers[j])) by {
            assert(checked[n + j] == normalized_header(default_headers[j]));
        }
    }
}

/// A response start with a valid status and valid headers, as the first
/// message, opens the response with a head that carries the status and the
/// application's headers: all of them, in order, names normalised and
/// values unchanged, ahead of the default headers; with the connection to
/// be closed, all of them but a `connection` header.
pub proof fn lemma_start_opens_response(
    type_: Type,
    status: u16,
    headers: Seq<(Seq<u8>, Seq<u8>)>,
    default_headers: Seq<(Seq<u8>, Seq<u8>)>,
    close: bool,
)
    requires
        is_status_code(status),
        all_valid(headers),
        all_valid(default_headers),
    ensures
        ({
            let r = response_step(
                ResponsePhase::AwaitingStart,
                Some(SendView::ResponseStart { type_, status, headers }),
                default_headers,
                close,
            );
            &&& r.0 == ResponsePhase::AwaitingBody
            &&& r.1 matches ResponseActionView::Head(s, hs) && s == status && {
                &&& !close ==> {
                    &&& hs.len() == headers.len() + default_headers.len()
                    &&& forall|i: int| 0 <= i < headers.len() ==> #[trigger] hs[i] == normalized_header(headers[i])
                }
                &&& close ==> forall|i: int|
                    0 <= i < headers.len() && normalized_header(#[trigger] headers[i]).0 != connection_name()
                        ==> hs.contains(normalized_header(headers[i]))
                &&& forall|j: int|
                    0 <= j < default_headers.len() && normalized_header(#[trigger] default_headers[j]).0
                        != connection_name() ==> hs.contains(normalized_header(default_headers[j]))
                &&& close ==> requests_close(hs)
            }
        }),
{
    lemma_head_carries_headers(status, headers, default_headers, close);
    lemma_close_is_echoed(status, headers, default_headers);
    if !close {
        let n = headers.len();
        let r = response_head(status, headers, default_headers, close);
        if let Ok((s, hs)) = r {
            assert forall|j: int|
                0 <= j < default_headers.len() && normalized_header(#[trigger] default_headers[j]).0
                    != connection_name() implies hs.contains(normalized_header(default_headers[j])) by {
                assert(hs[n + j] == normalized_header(default_headers[j]));
            }
        }
    }
}


/// Where the assembly of a response stands.
#[derive(Clone, Copy, Debug, PartialEq, Eq, Structural)]
pub enum ResponsePhase {
    /// Waiting for the application's response start.
    AwaitingStart,
    /// The head is known; waiting for the first body part.
    AwaitingBody,
    /// The response is out; further body parts are streamed.
    Streaming,
    /// The response is complete.
    Finished,
    /// The request failed.
    Failed,
}

/// What the server does on the application's next message.
#[derive(Debug, PartialEq, Eq)]
pub enum ResponseAction {
    /// Prepare the response with this head.
    Head(ResponseHead),
    /// The first body part is the whole body: answer with it.
    Complete(Vec<u8>),
    /// Send this body part; more follow.
    Chunk(Vec<u8>),
    /// Send this last body part and end the body.
    LastChunk(Vec<u8>),
    /// End the body: the application sends no more body parts.
    End,
    /// Fail the request.
    Fail(ResponseError),
    /// Nothing: the response is over.
    Idle,
}

pub enum ResponseActionView {
    Head(u16, Seq<(Seq<u8>, Seq<u8>)>),
    Complete(Seq<u8>),
    Chunk(Seq<u8>),
    LastChunk(Seq<u8>),
    End,
    Fail(ResponseError),
    Idle,
}

impl DeepView for ResponseAction {
    type V = ResponseActionView;

    open spec fn deep_view(&self) -> ResponseActionView {
        match self {
            ResponseAction::Head(h) => ResponseActionView::Head(h.status, h.headers.deep_view()),
            ResponseAction::Complete(b) => ResponseActionView::Complete(b@),
            ResponseAction::Chunk(b) => ResponseActionView::Chunk(b@),
            ResponseAction::LastChunk(b) => ResponseActionView::LastChunk(b@),
            ResponseAction::End => ResponseActionView::End,
            ResponseAction::Fail(e) => ResponseActionView::Fail(*e),
            ResponseAction::Idle => ResponseActionView::Idle,
        }
    }
}

/// One step of response assembly: the next phase and the action to take,
/// given the application's next message (`None` once it sends no more).
/// A response start comes first, then a body; a body part marked as the
/// last one ends the response.
pub open spec fn response_step(
    phase: ResponsePhase,
    msg: Option<SendView>,
    default_headers: Seq<(Seq<u8>, Seq<u8>)>,
    close: bool,
) -> (ResponsePhase, ResponseActionView) {
    match phase {
        ResponsePhase::AwaitingStart => match msg {
            Some(SendView::ResponseStart { status, headers, .. }) => match response_head(
                status,
                headers,
                default_headers,
                close,
            ) {
                Ok((s, hs)) => (ResponsePhase::AwaitingBody, ResponseActionView::Head(s, hs)),
                Err(e) => (ResponsePhase::Failed, ResponseActionView::Fail(e)),
            },
            _ => (
                ResponsePhase::Failed,
                ResponseActionView::Fail(ResponseError::StartRequired),
            ),
        },
        ResponsePhase::AwaitingBody => match msg {
            Some(SendView::ResponseBody { body, more_body, .. }) => if more_body {
                (ResponsePhase::Streaming, ResponseActionView::Chunk(body))
            } else {
                (ResponsePhase::Finished, ResponseActionView::Complete(body))
            },
            _ => (ResponsePhase::Failed, ResponseActionView::Fail(ResponseError::BodyRequired)),
        },
        ResponsePhase::Streaming => match msg {
            Some(SendView::ResponseBody { body, more_body, .. }) => if more_body {
                (ResponsePhase::Streaming, ResponseActionView::Chunk(body))
            } else {
                (ResponsePhase::Finished, ResponseActionView::LastChunk(body))
            },
            _ => (ResponsePhase::Finished, ResponseActionView::End),
        },
        ResponsePhase::Finished => (ResponsePhase::Finished, ResponseActionView::Idle),
        ResponsePhase::Failed => (ResponsePhase::Failed, ResponseActionView::Idle),
    }
}

impl ResponsePhase {
    /// Takes the application's next message (`None` once its channel is
    /// closed) and tells what to do with it.
    pub fn step(
        self,
        message: Option<Send>,
        default_headers: &HeaderPairs,
        connection_close: bool,
    ) -> (r: (ResponsePhase, ResponseAction))
        ensures
            (r.0, r.1.deep_view()) == response_step(
                self,
                message.deep_view(),
                default_headers.deep_view(),
                connection_close,
            ),
    {
        match self {
            ResponsePhase::AwaitingStart => match message {
                Some(Send::ResponseStart { type_, status, headers }) => {
                    match ResponseHead::build(status, &headers, default_headers, connection_close) {
                        Ok(h) => (ResponsePhase::AwaitingBody, ResponseAction::Head(h)),
                        Err(e) => (ResponsePhase::Failed, ResponseAction::Fail(e)),
                    }
                },
                _ => (ResponsePhase::Failed, ResponseAction::Fail(ResponseError::StartRequired)),
            },
            ResponsePhase::AwaitingBody => match message {
                Some(Send::ResponseBody { type_, body, more_body }) => {
                    if more_body {
                        (ResponsePhase::Streaming, ResponseAction::Chunk(body))
                    } else {
                        (ResponsePhase::Finished, ResponseAction::Complete(body))
                    }
                },
                _ => (ResponsePhase::Failed, ResponseAction::Fail(ResponseError::BodyRequired)),
            },
            ResponsePhase::Streaming => match message {
                Some(Send::ResponseBody { type_, body, more_body }) => {
                    if more_body {
                        (ResponsePhase::Streaming, ResponseAction::Chunk(body))
                    } else {
                        (ResponsePhase::Finished, ResponseAction::LastChunk(body))
                    }
                },
                _ => (ResponsePhase::Finished, ResponseAction::End),
            },
            ResponsePhase::Finished => (ResponsePhase::Finished, ResponseAction::Idle),
            ResponsePhase::Failed => (ResponsePhase::Failed, ResponseAction::Idle),
        }
    }
}


/// While a body is expected, each body part the application sends goes out
/// as it is, and the response is over exactly when the part says that no
/// more body follows: a first part without more is the whole body, a later
/// one the last chunk. A streamed body whose sender goes away is ended, and
/// anything but a body part in place of the first one fails the request.
pub proof fn lemma_body_parts_forwarded(
    phase: ResponsePhase,
    type_: Type,
    body: Seq<u8>,
    more_body: bool,
    default_headers: Seq<(Seq<u8>, Seq<u8>)>,
    close: bool,
)
    requires
        phase == ResponsePhase::AwaitingBody || phase == ResponsePhase::Streaming,
    ensures
        ({
            let r = response_step(
                phase,
                Some(SendView::ResponseBody { type_, body, more_body }),
                default_headers,
                close,
            );
            &&& (r.0 == ResponsePhase::Finished) == !more_body
            &&& more_body ==> r == (ResponsePhase::Streaming, ResponseActionView::Chunk(body))
            &&& !more_body && phase == ResponsePhase::AwaitingBody ==> r.1 == ResponseActionView::Complete(body)
            &&& !more_body && phase == ResponsePhase::Streaming ==> r.1 == ResponseActionView::LastChunk(body)
        }),
        response_step(ResponsePhase::Streaming, None, default_headers, close)
            == (ResponsePhase::Finished, ResponseActionView::End),
        forall|m: Option<SendView>| !(m matches Some(SendView::ResponseBody { .. })) ==> #[trigger] response_step(
            ResponsePhase::AwaitingBody,
            m,
            default_headers,
            close,
        ) == (ResponsePhase::Failed, ResponseActionView::Fail(ResponseError::BodyRequired)),
{
}


/// A request fails when the application's first message is not a response
/// start, or starts the response with a status that is not a three-digit
/// code.
pub proof fn lemma_bad_start_fails(
    msg: Option<SendView>,
    default_headers: Seq<(Seq<u8>, Seq<u8>)>,
    close: bool,
)
    ensures
        !(msg matches Some(SendView::ResponseStart { .. })) ==> response_step(
            ResponsePhase::AwaitingStart,
            msg,
            default_headers,
            close,
        ) == (ResponsePhase::Failed, ResponseActionView::Fail(ResponseError::StartRequired)),
        msg matches Some(SendView::ResponseStart { status, .. }) && !is_status_code(status) ==> response_step(
            ResponsePhase::AwaitingStart,
            msg,
            default_headers,
            close,
        ) == (ResponsePhase::Failed, ResponseActionView::Fail(ResponseError::InvalidStatus)),
{
}


/// The phases and actions of assembling a response from a sequence of
/// application messages.
pub open spec fn run_response(
    phase: ResponsePhase,
    msgs: Seq<Option<SendView>>,
    default_headers: Seq<(Seq<u8>, Seq<u8>)>,
    close: bool,
) -> (ResponsePhase, Seq<ResponseActionView>)
    decreases msgs.len(),
{
    if msgs.len() == 0 {
        (phase, Seq::empty())
    } else {
        let (next, action) = response_step(phase, msgs[0], default_headers, close);
        let (last, rest) = run_response(next, msgs.skip(1), default_headers, close);
        (last, seq![action] + rest)
    }
}

/// Whether an action sends (or ends) the response body.
pub open spec fn is_body_action(a: ResponseActionView) -> bool {
    match a {
        ResponseActionView::Complete(_) | ResponseActionView::Chunk(_)
        | ResponseActionView::LastChunk(_) | ResponseActionView::End => true,
        _ => false,
    }
}

/// Once a response is finished or failed, further messages change nothing.
pub proof fn lemma_response_over_is_final(
    phase: ResponsePhase,
    msg: Option<SendView>,
    default_headers: Seq<(Seq<u8>, Seq<u8>)>,
    close: bool,
)
    requires
        phase == ResponsePhase::Finished || phase == ResponsePhase::Failed,
    ensures
        response_step(phase, msg, default_headers, close) == (phase, ResponseActionView::Idle),
{
}

proof fn lemma_no_head_after_start(
    phase: ResponsePhase,
    msgs: Seq<Option<SendView>>,
    default_headers: Seq<(Seq<u8>, Seq<u8>)>,
    close: bool,
)
    requires
        phase != ResponsePhase::AwaitingStart,
    ensures
        forall|k: int| 0 <= k < run_response(phase, msgs, default_headers, close).1.len()
            ==> !(#[trigger] run_response(phase, msgs, default_headers, close).1[k] is Head),
        run_response(phase, msgs, default_headers, close).1.len() == msgs.len(),
    decreases msgs.len(),
{
    if msgs.len() > 0 {
        let (next, action) = response_step(phase, msgs[0], default_headers, close);
        lemma_no_head_after_start(next, msgs.skip(1), default_headers, close);
    }
}

proof fn lemma_failed_stays_idle(
    msgs: Seq<Option<SendView>>,
    default_headers: Seq<(Seq<u8>, Seq<u8>)>,
    close: bool,
)
    ensures
        forall|k: int| 0 <= k < run_response(ResponsePhase::Failed, msgs, default_headers, close).1.len()
            ==> #[trigger] run_response(ResponsePhase::Failed, msgs, default_headers, close).1[k]
            is Idle,
    decreases msgs.len(),
{
    if msgs.len() > 0 {
        lemma_failed_stays_idle(msgs.skip(1), default_headers, close);
    }
}

/// Whatever the application sends, a response is started at most once, as
/// the first action, and nothing of a body is sent before it.
pub proof fn lemma_head_before_body(
    msgs: Seq<Option<SendView>>,
    default_headers: Seq<(Seq<u8>, Seq<u8>)>,
    close: bool,
)
    ensures
        ({
            let acts = run_response(ResponsePhase::AwaitingStart, msgs, default_headers, close).1;
            &&& forall|k: int| 0 <= k < acts.len() && #[trigger] acts[k] is Head ==> k == 0
            &&& forall|k: int| 0 <= k < acts.len() && is_body_action(#[trigger] acts[k]) ==> acts[0] is Head
        }),
{
    if msgs.len() > 0 {
        let (next, action) = response_step(ResponsePhase::AwaitingStart, msgs[0], default_headers, close);
        let acts = run_response(ResponsePhase::AwaitingStart, msgs, default_headers, close).1;
        let rest = run_response(next, msgs.skip(1), default_headers, close).1;
        lemma_no_head_after_start(next, msgs.skip(1), default_headers, close);
        assert(acts == seq![action] + rest);
        assert forall|k: int| 0 <= k < acts.len() && #[trigger] acts[k] is Head implies k == 0 by {
            if k > 0 {
                assert(acts[k] == rest[k - 1]);
            }
        }
        if next == ResponsePhase::Failed {
            lemma_failed_stays_idle(msgs.skip(1), default_headers, close);
            assert forall|k: int| 0 <= k < acts.len() && is_body_action(#[trigger] acts[k]) implies acts[0] is Head by {
                if k > 0 {
                    assert(acts[k] == rest[k - 1]);
                }
            }
        }
    }
}


/// When the request asks for its connection to be closed, the response
/// says so too: it carries exactly one `connection` header, `close`.
pub proof fn lemma_close_is_echoed(
    status: u16,
    app_headers: Seq<(Seq<u8>, Seq<u8>)>,
    default_headers: Seq<(Seq<u8>, Seq<u8>)>,
)
    ensures
        response_head(status, app_headers, default_headers, true) matches Ok((_, hs)) ==> {
            &&& requests_close(hs)
            &&& forall|i: int, j: int|
                0 <= i < hs.len() && 0 <= j < hs.len() && (#[trigger] hs[i]).0 == connection_name()
                    && (#[trigger] hs[j]).0 == connection_name() ==> i == j
        },
{
    if let Ok(checked) = checked_headers(app_headers + default_headers) {
        lemma_insert_header_sets(checked, connection_name(), close_value());
    }
}


/// Every header of a response head is valid and has a normalised name, so
/// handing the head to `hyper` cannot fail.
pub proof fn lemma_response_head_valid(
    status: u16,
    app_headers: Seq<(Seq<u8>, Seq<u8>)>,
    default_headers: Seq<(Seq<u8>, Seq<u8>)>,
    close: bool,
)
    ensures
        response_head(status, app_headers, default_headers, close) matches Ok((s, hs)) ==> {
            &&& is_status_code(s)
            &&& all_normalized(hs)
        },
{
    lemma_checked_headers_normalized(app_headers + default_headers);
    if let Ok(checked) = checked_headers(app_headers + default_headers) {
        lemma_connection_close_valid();
        lemma_insert_header_normalized(checked, connection_name(), close_value());
    }
}

} // verus!
