//! Core logic of an ASGI web server: the ASGI message vocabulary, the scope
//! and event dictionaries handed to applications, the response and websocket
//! state machines, and command-line option handling.

pub mod asgi;
pub mod headers;
pub mod text;
pub mod options;
