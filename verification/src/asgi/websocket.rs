//! Serving an upgraded websocket connection: what the server does with each
//! incoming frame and each idle period.

use vstd::prelude::*;
use vstd::string::*;
use vstd::utf8::encode_utf8;
use crate::text::owned;

verus! {

/// What happened on a websocket connection.
#[derive(Debug, PartialEq, Eq)]
pub enum WsEvent {
    Text(String),
    Binary(Vec<u8>),
    Ping(Vec<u8>),
    Pong(Vec<u8>),
    /// A close frame, with its code and reason when it carries them.
    Close(Option<(u16, String)>),
    /// A raw frame; reading a connection never yields one.
    Frame,
    /// The connection ended.
    Ended,
    /// Reading the connection failed.
    Error,
    /// Five seconds passed without an incoming message.
    Tick,
}

/// A message the server sends on a websocket.
#[derive(Debug, PartialEq, Eq)]
pub enum WsMessage {
    Text(String),
    Binary(Vec<u8>),
    Ping(Vec<u8>),
}

/// What the server does next on a websocket.
#[derive(Debug, PartialEq, Eq)]
pub enum WsAction {
    Reply(WsMessage),
    /// Keep listening; nothing to send.
    Continue,
    /// Close down normally.
    Stop,
    /// Close down with an error.
    Fail,
}

pub enum WsActionView {
    ReplyText(Seq<char>),
    ReplyBinary(Seq<u8>),
    ReplyPing(Seq<u8>),
    Continue,
    Stop,
    Fail,
}

impl DeepView for WsAction {
    type V = WsActionView;

    open spec fn deep_view(&self) -> WsActionView {
        match self {
            WsAction::Reply(WsMessage::Text(t)) => WsActionView::ReplyText(t@),
            WsAction::Reply(WsMessage::Binary(b)) => WsActionView::ReplyBinary(b@),
            WsAction::Reply(WsMessage::Ping(b)) => WsActionView::ReplyPing(b@),
            WsAction::Continue => WsActionView::Continue,
            WsAction::Stop => WsActionView::Stop,
            WsAction::Fail => WsActionView::Fail,
        }
    }
}

/// The server's fixed answer to a data message.
pub open spec fn thanks() -> Seq<char> {
    "Thank you, come again."@
}

/// What the server does on a websocket event: it answers every text or
/// binary message with its fixed thanks (in the same kind of message), pings
/// the peer after an idle period, leaves control frames to the protocol
/// layer, and stops when the connection ends or fails.
pub open spec fn ws_step(event: WsEvent) -> WsActionView {
    match event {
        WsEvent::Text(_) => WsActionView::ReplyText(thanks()),
        WsEvent::Binary(_) => WsActionView::ReplyBinary(encode_utf8(thanks())),
        WsEvent::Ping(_) | WsEvent::Pong(_) | WsEvent::Close(_) | WsEvent::Frame => WsActionView::Continue,
        WsEvent::Ended => WsActionView::Stop,
        WsEvent::Error => WsActionView::Fail,
        WsEvent::Tick => WsActionView::ReplyPing(Seq::empty()),
    }
}

/// Decides what to do on a websocket event.
pub fn websocket_step(event: WsEvent) -> (r: WsAction)
    requires
        !(event is Frame),
    ensures
        r.deep_view() == ws_step(event),
{
    match event {
        WsEvent::Text(_) => WsAction::Reply(WsMessage::Text(owned("Thank you, come again."))),
        WsEvent::Binary(_) => WsAction::Reply(
            WsMessage::Binary("Thank you, come again.".as_bytes_vec()),
        ),
        WsEvent::Ping(_) | WsEvent::Pong(_) | WsEvent::Close(_) => WsAction::Continue,
        WsEvent::Ended => WsAction::Stop,
        WsEvent::Error => WsAction::Fail,
        WsEvent::Tick => WsAction::Reply(WsMessage::Ping(Vec::new())),
        WsEvent::Frame => WsAction::Continue,
    }
}

} // verus!
