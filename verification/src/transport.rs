//! The boundary with the transport: frames, and the bounded channel that
//! carries them to the session layer.

use engineioxide::SendPacket;
use tokio::sync::mpsc::error::TrySendError;
use tokio::sync::mpsc::{Receiver, Sender};
use tokio::sync::oneshot;
use vstd::prelude::*;

verus! {

/// One unit handed to the transport: the textual frame of a packet, or one
/// of its binary attachments.
#[derive(Debug)]
pub enum Frame {
    Text(String),
    Binary(Vec<u8>),
}

/// What a frame holds, as mathematical values.
pub enum FrameView {
    Text(Seq<char>),
    Binary(Seq<u8>),
}

impl View for Frame {
    type V = FrameView;

    open spec fn view(&self) -> FrameView {
        match self {
            Frame::Text(s) => FrameView::Text(s@),
            Frame::Binary(b) => FrameView::Binary(b@),
        }
    }
}

/// The views of a sequence of frames, in the same order.
pub open spec fn frame_views(frames: Seq<Frame>) -> Seq<FrameView> {
    frames.map_values(|f: Frame| f@)
}

/// Answer of the transport to one non-blocking delivery attempt.
#[derive(Debug)]
pub enum Delivery {
    /// The frame is in the transport's queue.
    Accepted,
    /// The queue is saturated; the frame comes back untouched.
    Full(Frame),
    /// The receiving side is gone; the frame is lost.
    Closed,
}

#[verifier::external_type_specification]
#[verifier::external_body]
pub struct ExSendPacket(SendPacket);

#[verifier::external_type_specification]
#[verifier::external_body]
#[verifier::reject_recursive_types(T)]
pub struct ExSender<T>(Sender<T>);

#[verifier::external_type_specification]
#[verifier::external_body]
#[verifier::reject_recursive_types(T)]
pub struct ExReceiver<T>(Receiver<T>);

/// `tokio::sync::mpsc::Sender::try_send`, on the frame as the packet type of
/// the session layer. The call never blocks. Whether the frame is accepted
/// depends on the queue at that moment, so nothing is promised about which
/// answer comes; only that a frame refused for want of room is handed back
/// as it was given.
#[verifier::external_body]
pub(crate) fn try_send_frame(tx: &Sender<SendPacket>, frame: Frame) -> (outcome: Delivery)
    ensures
        outcome matches Delivery::Full(back) ==> back@ == frame@,
{
    let packet = match frame {
        Frame::Text(text) => SendPacket::Message(text),
        Frame::Binary(bytes) => SendPacket::Binary(bytes),
    };
    match tx.try_send(packet) {
        Ok(()) => Delivery::Accepted,
        Err(TrySendError::Full(SendPacket::Message(text))) => Delivery::Full(Frame::Text(text)),
        Err(TrySendError::Full(SendPacket::Binary(bytes))) => Delivery::Full(Frame::Binary(bytes)),
        Err(TrySendError::Closed(_)) => Delivery::Closed,
    }
}

/// `tokio::sync::mpsc::channel`: a bounded queue of frames with room for
/// `buffer` of them, as its two halves. The call panics for a queue without
/// room and for one larger than the channel's semaphore can count, which is
/// an eighth of the address space.
#[verifier::external_body]
pub(crate) fn frame_channel(buffer: usize) -> (halves: (Sender<SendPacket>, Receiver<SendPacket>))
    requires
        0 < buffer <= usize::MAX / 8,
{
    tokio::sync::mpsc::channel(buffer)
}

/// What an acknowledgement brings: its arguments, as text of the payload
/// codec, and its attachments.
pub type AckResponse = (String, Vec<Vec<u8>>);

#[verifier::external_type_specification]
#[verifier::external_body]
#[verifier::reject_recursive_types(T)]
pub struct ExOneshotSender<T>(oneshot::Sender<T>);

#[verifier::external_type_specification]
#[verifier::external_body]
#[verifier::reject_recursive_types(T)]
pub struct ExOneshotReceiver<T>(oneshot::Receiver<T>);

#[verifier::external_type_specification]
#[verifier::external_body]
pub struct ExRecvError(oneshot::error::RecvError);

/// `tokio::sync::oneshot::channel`: a fresh one-shot slot, as the half
/// that fills it and the half that waits on it.
#[verifier::external_body]
pub(crate) fn ack_channel() -> (halves: (
    oneshot::Sender<AckResponse>,
    oneshot::Receiver<AckResponse>,
)) {
    oneshot::channel()
}

/// `tokio::sync::oneshot::Sender::send`: fills the slot, once, which the
/// call's taking the sending half by value sees to. Whether anyone still
/// waits on the slot is not reported.
#[verifier::external_body]
pub(crate) fn fill_ack(tx: oneshot::Sender<AckResponse>, response: AckResponse) {
    let _ = tx.send(response);
}

} // verus!
