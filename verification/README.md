# web-rdp

The core of a browser RDP client and of the WebSocket proxy that serves it,
written in Verus: every function of the library states what it computes and is
proved to do so.

- `src/` is the verified library.
  - `framed`, `connection`, `credssp`, `redirect`, `tls`, `connect`: from a
    WebSocket to a standing connection.
  - `session`, `input`, `monitor`: a session, its loop and the desktop.
  - `gfx`, `canvas`, `pixels`: the graphics pipeline and what is painted.
  - `clipboard`, `rdpsnd`, `audio`, `rail`: the virtual channels.
  - `server`: the proxy's relay and its page.
  - `text`, `utf16`, `wire`: texts and integers as bytes.
- `app/` is ordinary Rust around it: the proxy (built for the host) and the
  page's half (built for wasm32), with their sockets, canvases and channels.
- `tests/` run the library with the crates that it calls.

A function whose name begins with `law_` proves a property that holds of several
functions or of every state. What the library takes on trust from another crate
is marked `external_body` or `assume_specification`, with what is claimed of it
in the comment above.
