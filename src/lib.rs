//! Client side of the WebSocket opening handshake: address parsing, the
//! handshake key, the upgrade request and the validation of the server's
//! response.
use vstd::prelude::*;

pub mod client;
pub mod http_upgrade;
pub mod request;
pub mod response;
pub mod text;
pub mod url;

verus! {

} // verus!
