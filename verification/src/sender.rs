//! The outbound path of one connection. Frames go to the transport's
//! bounded queue without ever blocking; what the queue has no room for is
//! kept, in order, until a later attempt.

use crate::errors::{GoodNameError, SendError};
use crate::packet::{Packet, PacketView};
use crate::transport::{frame_views, try_send_frame, Delivery, Frame, FrameView};
use engineioxide::SendPacket;
use std::collections::VecDeque;
use tokio::sync::mpsc::Sender;
use vstd::prelude::*;

verus! {

/// Frames of one packet that the transport had no room for, handed to the
/// caller to be offered again. A token is never empty.
#[derive(Debug)]
pub struct RetryablePacket(VecDeque<Frame>);

impl RetryablePacket {
    #[verifier::type_invariant]
    spec fn holds_frames(self) -> bool {
        self.0@.len() > 0
    }

    /// The frames in the token, in wire order.
    pub closed spec fn frames(self) -> Seq<FrameView> {
        frame_views(self.0@)
    }

    /// How many frames are still to be delivered: at least one.
    pub fn len(&self) -> (n: usize)
        ensures
            n == self.frames().len(),
            n > 0,
    {
        proof {
            use_type_invariant(self);
        }
        self.0.len()
    }
}

impl View for RetryablePacket {
    type V = Seq<FrameView>;

    open spec fn view(&self) -> Seq<FrameView> {
        self.frames()
    }
}

/// `after` and `rest` together are `before` and `queue`, and `after` starts
/// with `before`: the front of `queue` went out behind what had gone out
/// before, and `rest` is what remains of the queue, nothing lost, nothing
/// twice, nothing out of order.
pub open spec fn moved_front(
    before: Seq<FrameView>,
    queue: Seq<FrameView>,
    after: Seq<FrameView>,
    rest: Seq<FrameView>,
) -> bool {
    &&& after + rest == before + queue
    &&& before.len() <= after.len()
}

/// `after` is `before` and a front part of `queue` that stops short of its
/// end: delivery ended while frames were still to go.
pub open spec fn cut_short(
    before: Seq<FrameView>,
    queue: Seq<FrameView>,
    after: Seq<FrameView>,
) -> bool {
    &&& before.len() <= after.len() < before.len() + queue.len()
    &&& after == (before + queue).take(after.len() as int)
}

/// What a flush of the owed frames leaves behind, for each way it can end.
pub open spec fn flush_outcome(
    before: PacketSender,
    after: PacketSender,
    r: Result<(), GoodNameError>,
) -> bool {
    match r {
        Ok(()) => {
            &&& after.sent() == before.sent() + before.pending()
            &&& after.pending().len() == 0
        },
        Err(GoodNameError::SendFailedBinPayloads(back)) => {
            &&& back is None
            &&& moved_front(before.sent(), before.pending(), after.sent(), after.pending())
            &&& after.pending().len() > 0
        },
        Err(GoodNameError::SocketClosed) => {
            &&& cut_short(before.sent(), before.pending(), after.sent())
            &&& after.pending().len() == 0
        },
        Err(GoodNameError::SendMainPacket(_)) => false,
    }
}

/// What offering a token's frames again leaves behind, for each way it can
/// end.
pub open spec fn retry_outcome(
    before: PacketSender,
    token: Seq<FrameView>,
    after: PacketSender,
    r: Result<(), GoodNameError>,
) -> bool {
    match r {
        Ok(()) => {
            &&& after.sent() + after.pending() == before.sent() + before.pending() + token
            &&& after.sent().len() > before.sent().len() + before.pending().len()
        },
        Err(GoodNameError::SendMainPacket(back)) => {
            &&& back@ == token
            &&& moved_front(before.sent(), before.pending(), after.sent(), after.pending())
        },
        Err(GoodNameError::SocketClosed) => {
            &&& cut_short(before.sent(), before.pending() + token, after.sent())
            &&& after.pending().len() == 0
        },
        Err(GoodNameError::SendFailedBinPayloads(_)) => false,
    }
}

/// What sending a packet leaves behind, for each way it can end.
pub open spec fn send_outcome(
    before: PacketSender,
    packet: PacketView,
    after: PacketSender,
    r: Result<(), SendError>,
) -> bool {
    match r {
        Ok(()) => {
            &&& after.sent() + after.pending() == before.sent() + before.pending()
                + packet.frames()
            &&& after.sent().len() > before.sent().len() + before.pending().len()
        },
        Err(SendError::GoodNameError(GoodNameError::SendFailedBinPayloads(back))) => {
            &&& back matches Some(p)
            &&& p@ == packet
            &&& moved_front(before.sent(), before.pending(), after.sent(), after.pending())
            &&& after.pending().len() > 0
        },
        Err(SendError::GoodNameError(GoodNameError::SendMainPacket(token))) => {
            &&& token@ == packet.frames()
            &&& after.sent() == before.sent() + before.pending()
            &&& after.pending().len() == 0
        },
        Err(SendError::GoodNameError(GoodNameError::SocketClosed)) => {
            &&& cut_short(before.sent(), before.pending() + packet.frames(), after.sent())
            &&& after.pending().len() == 0
        },
        Err(SendError::Serialize(_)) => false,
    }
}

/// How a delivery goes on after one attempt.
#[derive(Debug)]
pub enum Flush {
    /// The frame went out; these are the frames behind it.
    Continue(VecDeque<Frame>),
    /// No room: these frames are owed, the refused one first.
    Blocked(VecDeque<Frame>),
    /// The transport is closed: nothing more can go out.
    Closed,
}

/// Decides how a delivery goes on once the transport has answered for the
/// frame that stood before `rest`. An accepted frame leaves `rest` to go
/// on with. A frame refused for want of room goes back before `rest`, so
/// that the order stands. On a closed transport `rest` is given up.
pub fn after_attempt(outcome: Delivery, rest: VecDeque<Frame>) -> (next: Flush)
    ensures
        match outcome {
            Delivery::Accepted => next == Flush::Continue(rest),
            Delivery::Full(back) => next matches Flush::Blocked(owed) && owed@ == seq![back]
                + rest@,
            Delivery::Closed => next is Closed,
        },
{
    match outcome {
        Delivery::Accepted => Flush::Continue(rest),
        Delivery::Full(back) => {
            let mut owed = rest;
            owed.push_front(back);
            Flush::Blocked(owed)
        },
        Delivery::Closed => Flush::Closed,
    }
}

/// The result of offering a frame that stands alone: success where it was
/// accepted, a token that holds it where there was no room, `SocketClosed`
/// on a closed transport.
pub fn settle_single(outcome: Delivery) -> (r: Result<(), SendError>)
    ensures
        match outcome {
            Delivery::Accepted => r is Ok,
            Delivery::Full(back) => r matches Err(
                SendError::GoodNameError(GoodNameError::SendMainPacket(token)),
            ) && token@ == seq![back@],
            Delivery::Closed => r matches Err(
                SendError::GoodNameError(GoodNameError::SocketClosed),
            ),
        },
{
    match after_attempt(outcome, VecDeque::new()) {
        Flush::Continue(_) => Ok(()),
        Flush::Blocked(whole) => {
            assert(frame_views(whole@) =~= seq![whole@[0]@]);
            Err(SendError::GoodNameError(GoodNameError::SendMainPacket(RetryablePacket(whole))))
        },
        Flush::Closed => Err(SendError::GoodNameError(GoodNameError::SocketClosed)),
    }
}

/// The sending half of one connection.
pub struct PacketSender {
    tx: Sender<SendPacket>,
    bin_payloads: Option<VecDeque<Frame>>,
    sent: Ghost<Seq<FrameView>>,
}

impl PacketSender {
    /// The frames still owed to the transport from earlier sends, in order.
    pub closed spec fn pending(&self) -> Seq<FrameView> {
        match self.bin_payloads {
            Some(payloads) => frame_views(payloads@),
            None => Seq::empty(),
        }
    }

    /// Every frame that the transport has accepted from this sender, in the
    /// order of acceptance.
    pub closed spec fn sent(&self) -> Seq<FrameView> {
        self.sent@
    }

    /// A sender on `tx` that starts out owing the frames of `failed_buffer`.
    pub fn new(tx: Sender<SendPacket>, failed_buffer: VecDeque<Frame>) -> (sender: Self)
        ensures
            sender.pending() == frame_views(failed_buffer@),
            sender.sent() == Seq::<FrameView>::empty(),
    {
        let bin_payloads = if failed_buffer.len() > 0 {
            Some(failed_buffer)
        } else {
            assert(frame_views(failed_buffer@) =~= Seq::<FrameView>::empty());
            None
        };
        PacketSender { tx, bin_payloads, sent: Ghost(Seq::empty()) }
    }

    /// How many frames are still owed to the transport.
    pub fn pending_len(&self) -> (n: usize)
        ensures
            n == self.pending().len(),
    {
        match &self.bin_payloads {
            Some(payloads) => payloads.len(),
            None => 0,
        }
    }

    /// Offers one frame to the transport and books the answer.
    fn offer(&mut self, frame: Frame) -> (outcome: Delivery)
        ensures
            final(self).bin_payloads == old(self).bin_payloads,
            match outcome {
                Delivery::Accepted => final(self).sent() == old(self).sent().push(frame@),
                Delivery::Full(back) => back@ == frame@ && final(self).sent() == old(self).sent(),
                Delivery::Closed => final(self).sent() == old(self).sent(),
            },
    {
        let ghost view = frame@;
        let outcome = try_send_frame(&self.tx, frame);
        if let Delivery::Accepted = &outcome {
            self.sent = Ghost(self.sent@.push(view));
        }
        outcome
    }

    /// Offers the owed frames to the transport, oldest first, until all are
    /// accepted or one is refused. A frame refused for want of room stays
    /// owed, with all behind it, and the call fails with
    /// `SendFailedBinPayloads`. Where the transport is closed the owed
    /// frames are given up.
    pub fn send_binaries(&mut self) -> (r: Result<(), GoodNameError>)
        ensures
            flush_outcome(*old(self), *final(self), r),
    {
        let mut payloads = match self.bin_payloads.take() {
            Some(payloads) => payloads,
            None => {
                assert(self.sent() =~= old(self).sent() + old(self).pending());
                return Ok(());
            },
        };
        let ghost before = self.sent@;
        let ghost queue = frame_views(payloads@);
        loop
            invariant
                before == old(self).sent(),
                queue == old(self).pending(),
                self.bin_payloads is None,
                self.sent@ + frame_views(payloads@) == before + queue,
                before.len() <= self.sent@.len(),
            decreases payloads@.len(),
        {
            let ghost waiting = payloads@;
            let frame = match payloads.pop_front() {
                Some(frame) => frame,
                None => {
                    assert(self.sent@ =~= self.sent@ + frame_views(payloads@));
                    return Ok(());
                },
            };
            assert(frame_views(waiting) =~= seq![frame@] + frame_views(payloads@));
            match after_attempt(self.offer(frame), payloads) {
                Flush::Continue(rest) => {
                    payloads = rest;
                    assert(self.sent@ + frame_views(payloads@) =~= before + queue);
                },
                Flush::Blocked(owed) => {
                    assert(frame_views(owed@) =~= frame_views(waiting));
                    self.bin_payloads = Some(owed);
                    return Err(GoodNameError::SendFailedBinPayloads(None));
                },
                Flush::Closed => {
                    assert(frame_views(waiting).len() > 0);
                    assert((self.sent@ + frame_views(waiting)).len() == (before + queue).len());
                    assert(self.sent@ =~= (before + queue).take(self.sent@.len() as int));
                    return Err(GoodNameError::SocketClosed);
                },
            }
        }
    }

    /// Offers the frames of a token again: first what is still owed from
    /// earlier packets, then the token's own frames, in their order. Where
    /// the transport has no room for the owed frames or for the token's
    /// first frame, the token comes back whole. Once its first frame is
    /// accepted the call succeeds; frames that found no room stay owed, in
    /// order, for the next attempt.
    pub fn send_raw(&mut self, packet: RetryablePacket) -> (r: Result<(), GoodNameError>)
        ensures
            retry_outcome(*old(self), packet@, *final(self), r),
    {
        proof {
            use_type_invariant(&packet);
        }
        match self.send_binaries() {
            Err(GoodNameError::SocketClosed) => {
                assert((old(self).sent() + old(self).pending()).take(self.sent().len() as int)
                    =~= (old(self).sent() + (old(self).pending() + packet@)).take(
                    self.sent().len() as int,
                ));
                return Err(GoodNameError::SocketClosed);
            },
            Err(_) => {
                return Err(GoodNameError::SendMainPacket(packet));
            },
            Ok(()) => {},
        }
        let ghost token = packet@;
        let ghost flushed = self.sent();
        let mut frames = packet.0;
        let ghost all = frames@;
        let main = frames.pop_front().unwrap();
        assert(frame_views(all) =~= seq![main@] + frame_views(frames@));
        match after_attempt(self.offer(main), frames) {
            Flush::Blocked(whole) => {
                assert(frame_views(whole@) =~= token);
                assert(self.sent() + self.pending() =~= old(self).sent() + old(self).pending());
                Err(GoodNameError::SendMainPacket(RetryablePacket(whole)))
            },
            Flush::Closed => {
                assert(self.sent() =~= (old(self).sent() + (old(self).pending() + token)).take(
                    self.sent().len() as int,
                ));
                Err(GoodNameError::SocketClosed)
            },
            Flush::Continue(frames) => {
                let ghost first = self.sent();
                self.bin_payloads = Some(frames);
                match self.send_binaries() {
                    Err(GoodNameError::SocketClosed) => {
                        assert(self.sent() =~= (old(self).sent() + (old(self).pending()
                            + token)).take(self.sent().len() as int)) by {
                            assert(first + frame_views(frames@) =~= old(self).sent() + (old(
                                self,
                            ).pending() + token));
                        }
                        Err(GoodNameError::SocketClosed)
                    },
                    _ => {
                        assert(self.sent() + self.pending() =~= old(self).sent() + old(
                            self,
                        ).pending() + token) by {
                            assert(first + frame_views(frames@) =~= old(self).sent() + old(
                                self,
                            ).pending() + token);
                        }
                        Ok(())
                    },
                }
            },
        }
    }

    /// Sends a packet: first what is still owed from earlier packets, then
    /// the packet's textual frame, then its attachments in order.
    ///
    /// Nothing of the packet goes out before every owed frame has: where
    /// those find no room the call fails with `SendFailedBinPayloads` and
    /// hands the packet back. Where the textual frame finds no room the
    /// call fails with `SendMainPacket` and a token that holds every frame
    /// of the packet. Once the textual frame is accepted the call succeeds,
    /// also where an attachment finds no room: that attachment and those
    /// behind it stay owed, in order, and go out first with the next send
    /// or flush. A closed transport fails the call with `SocketClosed`.
    pub fn send(&mut self, packet: Packet) -> (r: Result<(), SendError>)
        ensures
            send_outcome(*old(self), packet@, *final(self), r),
    {
        let ghost wire = packet@.frames();
        match self.send_binaries() {
            Err(GoodNameError::SocketClosed) => {
                assert((old(self).sent() + old(self).pending()).take(self.sent().len() as int)
                    =~= (old(self).sent() + (old(self).pending() + wire)).take(
                    self.sent().len() as int,
                ));
                return Err(SendError::GoodNameError(GoodNameError::SocketClosed));
            },
            Err(err) => {
                return Err(SendError::GoodNameError(err.add_main_packet(packet)));
            },
            Ok(()) => {},
        }
        let mut frames = match packet.encode() {
            Ok(frames) => frames,
            Err(e) => {
                return Err(SendError::Serialize(e));
            },
        };
        let ghost all = frames@;
        assert(frame_views(all).len() == all.len());
        assert(wire.len() > 0);
        let main = frames.pop_front().unwrap();
        assert(frame_views(all) =~= seq![main@] + frame_views(frames@));
        match after_attempt(self.offer(main), frames) {
            Flush::Blocked(whole) => {
                assert(frame_views(whole@) =~= wire);
                Err(SendError::GoodNameError(GoodNameError::SendMainPacket(RetryablePacket(whole))))
            },
            Flush::Closed => {
                assert(self.sent() =~= (old(self).sent() + (old(self).pending() + wire)).take(
                    self.sent().len() as int,
                ));
                Err(SendError::GoodNameError(GoodNameError::SocketClosed))
            },
            Flush::Continue(frames) => {
                let ghost first = self.sent();
                self.bin_payloads = Some(frames);
                match self.send_binaries() {
                    Err(GoodNameError::SocketClosed) => {
                        assert(self.sent() =~= (old(self).sent() + (old(self).pending()
                            + wire)).take(self.sent().len() as int)) by {
                            assert(first + frame_views(frames@) =~= old(self).sent() + (old(
                                self,
                            ).pending() + wire));
                        }
                        Err(SendError::GoodNameError(GoodNameError::SocketClosed))
                    },
                    _ => {
                        assert(self.sent() + self.pending() =~= old(self).sent() + old(
                            self,
                        ).pending() + wire) by {
                            assert(first + frame_views(frames@) =~= old(self).sent() + old(
                                self,
                            ).pending() + wire);
                        }
                        Ok(())
                    },
                }
            },
        }
    }
}

/// Frames that found no room go out later, behind what went out before
/// them and in their order. Where a send succeeded and left frames owed,
/// and a flush then succeeded, the transport has taken what had gone out
/// before, then what was owed before, then every frame of the packet, each
/// once and in wire order.
pub proof fn lemma_deferred_frames_follow_in_order(
    before: PacketSender,
    packet: PacketView,
    between: PacketSender,
    after: PacketSender,
)
    requires
        send_outcome(before, packet, between, Ok(())),
        flush_outcome(between, after, Ok(())),
    ensures
        after.sent() == before.sent() + before.pending() + packet.frames(),
        after.pending().len() == 0,
{
}

/// A token that is offered again until it is taken loses nothing: where a
/// send handed all frames of the packet back in a token, and offering the
/// token again succeeded, what the transport has taken and what is still
/// owed are, in this order, what had gone out before, what was owed before,
/// and every frame of the packet.
pub proof fn lemma_retry_delivers_the_packet(
    before: PacketSender,
    packet: PacketView,
    token: RetryablePacket,
    between: PacketSender,
    after: PacketSender,
)
    requires
        send_outcome(
            before,
            packet,
            between,
            Err(SendError::GoodNameError(GoodNameError::SendMainPacket(token))),
        ),
        retry_outcome(between, token@, after, Ok(())),
    ensures
        after.sent() + after.pending() == before.sent() + before.pending() + packet.frames(),
{
    assert(between.pending() =~= Seq::<FrameView>::empty());
    assert(between.sent() + between.pending() =~= between.sent());
}

/// What one connection's transport takes is made of that connection's own
/// frames alone: however a send ends, what has gone out is what had gone out
/// before and a front part of what the connection owed and of the packet's
/// frames. No frame of any other connection can stand among them.
pub proof fn lemma_only_own_frames_go_out(
    before: PacketSender,
    packet: PacketView,
    after: PacketSender,
    r: Result<(), SendError>,
)
    requires
        send_outcome(before, packet, after, r),
    ensures
        before.sent().len() <= after.sent().len() <= before.sent().len() + before.pending().len()
            + packet.frames().len(),
        after.sent() == (before.sent() + before.pending() + packet.frames()).take(
            after.sent().len() as int,
        ),
{
    let whole = before.sent() + before.pending() + packet.frames();
    let n = after.sent().len() as int;
    match r {
        Ok(()) => {
            assert((after.sent() + after.pending()).take(n) =~= after.sent());
        },
        Err(SendError::GoodNameError(GoodNameError::SendFailedBinPayloads(_))) => {
            assert((after.sent() + after.pending()).take(n) =~= after.sent());
            assert((before.sent() + before.pending()).take(n) =~= whole.take(n));
        },
        Err(SendError::GoodNameError(GoodNameError::SocketClosed)) => {
            assert(before.sent() + (before.pending() + packet.frames()) =~= whole);
        },
        _ => {
            assert(whole.take(n) =~= before.sent() + before.pending());
        },
    }
}

/// A packet that goes out whole goes out as its frames: where nothing was
/// owed before a send, the send succeeded and nothing is owed after it, the
/// transport has taken one frame more than the packet has attachments, the
/// textual frame first and behind it each attachment as a binary frame, in
/// the packet's order.
pub proof fn lemma_whole_packet_goes_out(
    before: PacketSender,
    packet: PacketView,
    after: PacketSender,
)
    requires
        send_outcome(before, packet, after, Ok(())),
        before.pending().len() == 0,
        after.pending().len() == 0,
    ensures
        after.sent() == before.sent() + packet.frames(),
        after.sent().len() == before.sent().len() + packet.inner.attachments().len() + 1,
        after.sent()[before.sent().len() as int] == FrameView::Text(packet.text()),
        forall|i: int|
            0 <= i < packet.inner.attachments().len() ==> after.sent()[before.sent().len() + 1 + i]
                == FrameView::Binary(#[trigger] packet.inner.attachments()[i]),
{
    assert(after.sent() + after.pending() =~= after.sent());
    assert(before.sent() + before.pending() =~= before.sent());
    let n = before.sent().len() as int;
    assert forall|i: int| 0 <= i < packet.inner.attachments().len() implies after.sent()[n + 1 + i]
        == FrameView::Binary(#[trigger] packet.inner.attachments()[i]) by {
        assert(after.sent()[n + 1 + i] == packet.frames()[1 + i]);
    }
}

/// Every frame of `xs` is one of `ys`.
pub open spec fn all_among(xs: Seq<FrameView>, ys: Seq<FrameView>) -> bool {
    forall|i: int| 0 <= i < xs.len() ==> ys.contains(#[trigger] xs[i])
}

/// The frames of `packets`, one packet after the other.
pub open spec fn frames_of_all(packets: Seq<PacketView>) -> Seq<FrameView>
    decreases packets.len(),
{
    if packets.len() == 0 {
        Seq::empty()
    } else {
        frames_of_all(packets.drop_last()) + packets.last().frames()
    }
}

/// One sender's sends of `packets`, one after the other: `states` holds
/// the sender before the first send and after each one, `results` what
/// each send answered.
pub open spec fn run_of_sends(
    states: Seq<PacketSender>,
    packets: Seq<PacketView>,
    results: Seq<Result<(), SendError>>,
) -> bool {
    &&& states.len() == packets.len() + 1
    &&& results.len() == packets.len()
    &&& forall|k: int|
        0 <= k < packets.len() ==> send_outcome(
            states[k],
            #[trigger] packets[k],
            states[k + 1],
            results[k],
        )
}

/// However a send ends, what has gone out and what is owed after it is,
/// frame by frame, a front part of what had gone out and was owed before
/// it, and of the packet's frames behind that.
proof fn lemma_send_keeps_front(
    before: PacketSender,
    packet: PacketView,
    after: PacketSender,
    r: Result<(), SendError>,
    i: int,
)
    requires
        send_outcome(before, packet, after, r),
        0 <= i < (after.sent() + after.pending()).len(),
    ensures
        i < (before.sent() + before.pending() + packet.frames()).len(),
        (after.sent() + after.pending())[i] == (before.sent() + before.pending()
            + packet.frames())[i],
{
    match r {
        Err(SendError::GoodNameError(GoodNameError::SocketClosed)) => {
            assert(before.sent() + (before.pending() + packet.frames()) =~= before.sent()
                + before.pending() + packet.frames());
        },
        _ => {},
    }
}

/// Through any run of sends, what is out or owed is made of what was out
/// or owed at the start and of the frames of the packets sent.
proof fn lemma_run_keeps_to_its_own(
    states: Seq<PacketSender>,
    packets: Seq<PacketView>,
    results: Seq<Result<(), SendError>>,
)
    requires
        run_of_sends(states, packets, results),
    ensures
        all_among(
            states.last().sent() + states.last().pending(),
            states[0].sent() + states[0].pending() + frames_of_all(packets),
        ),
    decreases packets.len(),
{
    let start = states[0].sent() + states[0].pending();
    let own = start + frames_of_all(packets);
    let held = states.last().sent() + states.last().pending();
    if packets.len() == 0 {
        assert(own =~= held);
        assert forall|i: int| 0 <= i < held.len() implies own.contains(#[trigger] held[i]) by {
            assert(own[i] == held[i]);
        }
    } else {
        let n = packets.len() as int;
        let earlier_states = states.drop_last();
        let earlier = packets.drop_last();
        assert forall|k: int| 0 <= k < earlier.len() implies send_outcome(
            earlier_states[k],
            #[trigger] earlier[k],
            earlier_states[k + 1],
            results.drop_last()[k],
        ) by {
            assert(send_outcome(states[k], packets[k], states[k + 1], results[k]));
        }
        lemma_run_keeps_to_its_own(earlier_states, earlier, results.drop_last());
        let before = states[n - 1];
        assert(earlier_states.last() == before);
        let held_before = before.sent() + before.pending();
        let own_before = start + frames_of_all(earlier);
        let added = packets.last().frames();
        assert(own =~= own_before + added);
        assert(send_outcome(before, packets[n - 1], states[n], results[n - 1]));
        assert forall|i: int| 0 <= i < held.len() implies own.contains(#[trigger] held[i]) by {
            lemma_send_keeps_front(before, packets[n - 1], states[n], results[n - 1], i);
            if i < held_before.len() {
                assert(held[i] == held_before[i]);
                assert(own_before.contains(held_before[i]));
                let j = choose|j: int| 0 <= j < own_before.len() && own_before[j] == held_before[i];
                assert(own[j] == held[i]);
            } else {
                assert(held[i] == added[i - held_before.len()]);
                assert(own[own_before.len() + (i - held_before.len())] == held[i]);
            }
        }
    }
}

/// Through any run of sends on one connection, every frame that its
/// transport has taken is a frame that had gone out or was owed at the
/// start, or a frame of one of the packets sent on this connection. What
/// another connection sends is no part of the run, and cannot stand among
/// them.
pub proof fn lemma_transport_takes_own_frames_only(
    states: Seq<PacketSender>,
    packets: Seq<PacketView>,
    results: Seq<Result<(), SendError>>,
)
    requires
        run_of_sends(states, packets, results),
    ensures
        all_among(
            states.last().sent(),
            states[0].sent() + states[0].pending() + frames_of_all(packets),
        ),
{
    lemma_run_keeps_to_its_own(states, packets, results);
    let held = states.last().sent() + states.last().pending();
    assert forall|i: int| 0 <= i < states.last().sent().len() implies (states[0].sent()
        + states[0].pending() + frames_of_all(packets)).contains(
        #[trigger] states.last().sent()[i],
    ) by {
        assert(held[i] == states.last().sent()[i]);
    }
}

} // verus!
