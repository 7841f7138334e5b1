//! Decisions of the connection sequence that do not depend on I/O.
use vstd::prelude::*;

use crate::url::Scheme;

verus! {

/// Read and write buffer size of the transport when the caller names none.
pub const DEFAULT_BUFFER_SIZE: usize = 16384;

/// How the frame layer is set up once the handshake has succeeded.
#[derive(Debug, Clone, Copy, PartialEq, Eq, Structural)]
pub struct FrameSettings {
    /// Answer close frames automatically.
    pub auto_close: bool,
    /// Answer pings automatically.
    pub auto_pong: bool,
    /// Gather writes; TLS buffers writes itself, so not over TLS.
    pub writev: bool,
}

/// The frame-layer settings for a connection of scheme `scheme`.
pub fn frame_settings(scheme: Scheme) -> (s: FrameSettings)
    ensures
        s.auto_close,
        s.auto_pong,
        s.writev == (scheme == Scheme::Ws),
{
    FrameSettings {
        auto_close: true,
        auto_pong: true,
        writev: match scheme {
            Scheme::Ws => true,
            Scheme::Wss => false,
        },
    }
}

} // verus!
