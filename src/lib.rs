//! Protocol core of a client that drives a language-server sidecar over
//! length-prefixed JSON-RPC: file references, framing, request correlation,
//! document synchronisation and the session lifecycle.

pub mod correlator;
pub mod documents;
pub mod frame;
pub mod language;
pub mod message;
pub mod params;
pub mod report;
pub mod session;
pub mod text;
pub mod uri;
