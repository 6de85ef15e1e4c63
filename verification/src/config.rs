//! What a connection is configured with.

use std::time::Duration;
use vstd::prelude::*;

verus! {

/// Settings shared by the connections of a server.
#[derive(Debug, Clone, Copy)]
pub struct SocketIoConfig {
    /// How long an emit waits for its acknowledgement, unless the call
    /// says otherwise.
    pub ack_timeout: Duration,
}

} // verus!
