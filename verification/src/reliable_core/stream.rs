//! What is known of a stream from outside.

use vstd::prelude::*;

use crate::wire::StreamId;

verus! {

/// State of a stream.
#[derive(Debug, Clone, Copy, PartialEq, Eq, Structural)]
pub enum StreamState {
    Open,
    Reset { error_code: u32 },
    Finished,
}

/// A summary of a stream.
#[derive(Debug, Clone, Copy, PartialEq, Eq, Structural)]
pub struct StreamInfo {
    pub stream_id: StreamId,
    pub state: StreamState,
    pub bidirectional: bool,
    pub send_offset: u64,
    pub receive_offset: u64,
    pub receive_window: u64,
    pub buffered_bytes: usize,
}

} // verus!
