//! The verified core of a browser RDP client and of the WebSocket proxy that
//! serves it.
//!
//! Every module states what it computes over mathematical models (sequences of
//! bytes, characters and pixels) and is proved to do so for every input that a
//! function's precondition admits.

pub mod audio;
pub mod canvas;
pub mod clipboard;
pub mod connect;
pub mod connection;
pub mod credssp;
pub mod framed;
pub mod gfx;
pub mod input;
pub mod monitor;
pub mod pixels;
pub mod rail;
pub mod rdpsnd;
pub mod redirect;
pub mod server;
pub mod session;
pub mod text;
pub mod tls;
pub mod utf16;
pub mod wire;
