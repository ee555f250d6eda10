//! The ASGI side of the server: the message vocabulary and dictionaries
//! exchanged with applications, and the decisions taken while serving a
//! request or a websocket.

pub mod dict;
pub mod events;
pub mod http;
pub mod scope;
pub mod specs;
pub mod websocket;
