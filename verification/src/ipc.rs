//! The line-delimited RPC channel between the host and an extension, and
//! the timeout policy of a stream.
use vstd::prelude::*;

verus! {

/// How long a stream may stay silent.
pub enum TimeoutPolicy {
    /// Give up when no chunk arrives within `heartbeat_timeout_ms`, or when
    /// the first answer takes longer than `max_silent_wait_ms`.
    Dynamic { heartbeat_timeout_ms: u64, max_silent_wait_ms: u64 },
    /// Wait for ever.
    Infinite,
}

/// A reader and a writer carrying one JSON value per line.
pub struct IpcBridge<R, W> {
    pub reader: R,
    pub writer: W,
}

impl<R, W> IpcBridge<R, W> {
    pub fn new(reader: R, writer: W) -> (r: Self)
        ensures
            r.reader == reader,
            r.writer == writer,
    {
        IpcBridge { reader, writer }
    }
}

} // verus!
