//! What can go wrong on the way out, and while waiting for an
//! acknowledgement.

use crate::packet::Packet;
use crate::sender::RetryablePacket;
use vstd::prelude::*;

verus! {

/// Failure of the transport to take a packet.
#[derive(Debug)]
pub enum GoodNameError {
    /// Frames of an earlier packet are still owed to the transport and
    /// could not be flushed. A packet that had to wait behind them comes
    /// back untouched.
    SendFailedBinPayloads(Option<Packet>),
    /// The transport had no room for the textual frame. Every frame of the
    /// packet is in the token, to be offered again later.
    SendMainPacket(RetryablePacket),
    /// The receiving side of the transport is gone. Nothing can be sent on
    /// this connection any more.
    SocketClosed,
}

impl GoodNameError {
    /// Hands the packet that had to wait behind owed frames back to the
    /// caller, inside the failure. Any other failure stays as it is.
    pub fn add_main_packet(self, packet: Packet) -> (e: GoodNameError)
        ensures
            match self {
                GoodNameError::SendFailedBinPayloads(_) => e matches GoodNameError::SendFailedBinPayloads(
                    Some(p),
                ) && p == packet,
                _ => e == self,
            },
    {
        match self {
            GoodNameError::SendFailedBinPayloads(_) => GoodNameError::SendFailedBinPayloads(
                Some(packet),
            ),
            other => other,
        }
    }
}

/// Failure of a send.
#[derive(Debug)]
pub enum SendError {
    /// The codec refused to write a payload. Writing a packet never gives
    /// this; it is for those who turn values into payload text before
    /// they send.
    Serialize(serde_json::Error),
    /// The transport did not take the packet.
    GoodNameError(GoodNameError),
}

/// Failure of an emit that waits for its acknowledgement.
#[derive(Debug)]
pub enum AckError {
    /// No acknowledgement came within the time allowed.
    Timeout,
    /// The waiter was given up before an acknowledgement came: the
    /// connection was torn down.
    AckReceive,
    /// The request did not go out.
    SendChannel(SendError),
}

/// Failure on the way in.
#[derive(Debug, Clone, Copy, PartialEq, Eq, Structural)]
pub enum ProtocolError {
    /// The inbound message is no packet: its kind is unknown or its
    /// payload has the wrong shape. The transport that brought it has to
    /// be closed.
    Malformed,
    /// A packet of a kind that a connection never takes reached one.
    InvalidPacketType,
}

} // verus!
