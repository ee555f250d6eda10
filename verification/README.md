# quanshu

An ASGI web server for Python applications. The verified library (`src/`)
holds the server's logic; the program around it (`app/`) holds the sockets,
TLS, the async runtime and the Python bindings.

- `src/asgi/specs.rs`: protocol versions and ASGI message types, with their
  names and parsing.
- `src/asgi/scope.rs`, `src/asgi/dict.rs`: the connection scope and the
  dictionaries handed to applications.
- `src/asgi/events.rs`: events delivered to `receive`, and the messages read
  from dictionaries passed to `send`.
- `src/asgi/http.rs`: the scope of an HTTP request, the response head, and the
  state machine that assembles a response from the application's messages.
- `src/asgi/websocket.rs`: what the server does on each websocket event.
- `src/headers.rs`: header names, values and status codes as `hyper` accepts
  them, and the header lists built from them.
- `src/options.rs`: server options, listeners, and application paths.
- `src/text.rs`: string splitting and comparison.

Every function in `src/` carries a contract checked by Verus, except three
small trusted wrappers in `src/headers.rs` around `hyper`'s header-name,
header-value and status-code checks: Verus takes their contracts on trust,
and each contract states what the `http` crate's source does. The laws the
library keeps are public proof functions next to the code they speak of.
