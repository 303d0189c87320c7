//! Remote applications: the `rail` channel and the window orders that come
//! with it.

pub mod client;
pub mod notices;
pub mod pdu;
pub mod window;
pub mod written;
