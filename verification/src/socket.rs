//! A connection: one peer in one namespace. It sends events, waits for
//! their acknowledgements, and hands inbound events to the handlers that
//! the application registered.
//!
//! A `Socket` is owned by one holder at a time. Every operation that
//! changes it takes it by exclusive reference, so that two sends on one
//! connection can never interleave their frames, and two emits can never
//! draw the same acknowledgement id.

use crate::acks::{next_ack_id, AckRegistry, Fulfillment};
use crate::adapter::{room_names, Adapter, Room};
use crate::operators::{Operators, OperatorsView};
use crate::config::SocketIoConfig;
use crate::errors::{AckError, GoodNameError, ProtocolError, SendError};
use crate::registry::Registry;
use crate::handshake::Handshake;
use crate::packet::{attachment_views, Packet, PacketData, PacketDataView, PacketView};
use crate::sender::{
    flush_outcome, retry_outcome, send_outcome, PacketSender, RetryablePacket,
};
use crate::transport::{frame_channel, AckResponse, FrameView};
use engineioxide::SendPacket;
use std::collections::VecDeque;
use std::time::Duration;
use tokio::sync::mpsc::{Receiver, Sender};
use tokio::sync::oneshot;
use vstd::prelude::*;

verus! {

/// A Socket represents a client connected to a namespace.
/// It is used to send and receive messages from the client, join and leave rooms, etc.
pub struct Socket<H> {
    config: SocketIoConfig,
    ns: String,
    message_handlers: Registry<H>,
    ack_message: AckRegistry,
    ack_counter: i64,
    pub handshake: Handshake,
    pub sid: i64,
    sender: PacketSender,
}

/// A call that an inbound event asks for: the handler registered for the
/// event's name, and what to call it with.
pub struct Invocation<'a, H> {
    pub handler: &'a H,
    /// The event's arguments, as text of the payload codec.
    pub data: String,
    /// The event's attachments, in wire order.
    pub bin: Vec<Vec<u8>>,
    /// The id to acknowledge the event with, where the peer asks for it.
    pub ack: Option<i64>,
}

/// A request that went out and waits for its acknowledgement.
pub struct AckWaiter {
    /// The id that the request carries.
    pub ack: i64,
    /// Resolves when the acknowledgement arrives.
    pub rx: oneshot::Receiver<AckResponse>,
    /// How long to wait.
    pub timeout: Duration,
}

/// How the wait for an acknowledgement ended.
pub enum AckWait {
    /// The acknowledgement arrived.
    Received(AckResponse),
    /// The waiter was given up: the connection was torn down.
    Closed,
    /// The time allowed ran out.
    TimedOut,
}

impl<H> Socket<H> {
    /// The path of the namespace that the connection belongs to.
    pub closed spec fn ns_path(&self) -> Seq<char> {
        self.ns@
    }

    /// The registered handlers, by event name.
    pub closed spec fn handlers(&self) -> Map<Seq<char>, H> {
        self.message_handlers.handlers()
    }

    /// The waiters for acknowledgements.
    pub closed spec fn acks(&self) -> AckRegistry {
        self.ack_message
    }

    /// The acknowledgement id that was issued last.
    pub closed spec fn ack_counter(&self) -> i64 {
        self.ack_counter
    }

    /// The sending half.
    pub closed spec fn sender(&self) -> PacketSender {
        self.sender
    }

    /// The acknowledgement timeout that the connection is configured with.
    pub closed spec fn ack_timeout(&self) -> Duration {
        self.config.ack_timeout
    }

    /// The id of the peer.
    pub closed spec fn id(&self) -> i64 {
        self.sid
    }

    /// The record of the handshake that made the connection.
    pub closed spec fn handshake_record(&self) -> Handshake {
        self.handshake
    }

    /// Whether `other` differs from `self` at most in its sending half.
    pub open spec fn same_but_sender(&self, other: &Self) -> bool {
        &&& other.ns_path() == self.ns_path()
        &&& other.handlers() == self.handlers()
        &&& other.acks() == self.acks()
        &&& other.ack_counter() == self.ack_counter()
        &&& other.ack_timeout() == self.ack_timeout()
        &&& other.id() == self.id()
        &&& other.handshake_record() == self.handshake_record()
    }

    /// Whether `other` differs from `self` at most in its waiters.
    pub open spec fn same_but_acks(&self, other: &Self) -> bool {
        &&& other.ns_path() == self.ns_path()
        &&& other.handlers() == self.handlers()
        &&& other.sender() == self.sender()
        &&& other.ack_counter() == self.ack_counter()
        &&& other.ack_timeout() == self.ack_timeout()
        &&& other.id() == self.id()
        &&& other.handshake_record() == self.handshake_record()
    }

    /// A connection of the peer `sid` to the namespace `ns`, which sends on
    /// `tx`. It has no handler, waits for no acknowledgement, owes no
    /// frame, and has issued no acknowledgement id.
    pub fn new(
        sid: i64,
        ns: String,
        handshake: Handshake,
        tx: Sender<SendPacket>,
        config: SocketIoConfig,
    ) -> (socket: Self)
        ensures
            socket.id() == sid,
            socket.ns_path() == ns@,
            socket.handshake_record() == handshake,
            socket.ack_timeout() == config.ack_timeout,
            socket.handlers() == Map::<Seq<char>, H>::empty(),
            socket.acks().pending() == Set::<i64>::empty(),
            socket.acks().fulfilled() == Seq::<Fulfillment>::empty(),
            socket.ack_counter() == 0,
            socket.sender().pending() == Seq::<FrameView>::empty(),
            socket.sender().sent() == Seq::<FrameView>::empty(),
    {
        Socket {
            ns,
            message_handlers: Registry::new(),
            ack_message: AckRegistry::new(),
            ack_counter: 0,
            handshake,
            sid,
            config,
            sender: PacketSender::new(tx, VecDeque::new()),
        }
    }

    /// A connection with an empty handshake on a transport of its own that
    /// has room for one frame, and the receiving side of that transport.
    pub fn new_dummy(sid: i64, ns: String, config: SocketIoConfig) -> (made: (
        Self,
        Receiver<SendPacket>,
    ))
        ensures
            made.0.id() == sid,
            made.0.ns_path() == ns@,
            made.0.ack_timeout() == config.ack_timeout,
            made.0.handlers() == Map::<Seq<char>, H>::empty(),
            made.0.acks().pending() == Set::<i64>::empty(),
            made.0.ack_counter() == 0,
            made.0.sender().pending() == Seq::<FrameView>::empty(),
            made.0.sender().sent() == Seq::<FrameView>::empty(),
    {
        let (tx, rx) = frame_channel(1);
        (Socket::new(sid, ns, Handshake::new_dummy(), tx, config), rx)
    }

    /// Registers `callback` as the handler of `event`. An event has one
    /// handler: the one registered last.
    pub fn on(&mut self, event: String, callback: H)
        ensures
            final(self).handlers() == old(self).handlers().insert(event@, callback),
            final(self).ns_path() == old(self).ns_path(),
            final(self).acks() == old(self).acks(),
            final(self).ack_counter() == old(self).ack_counter(),
            final(self).ack_timeout() == old(self).ack_timeout(),
            final(self).sender() == old(self).sender(),
            final(self).id() == old(self).id(),
            final(self).handshake_record() == old(self).handshake_record(),
    {
        self.message_handlers.insert(event, callback);
    }

    /// Emits the event `event` with the arguments `data` to the peer, and
    /// waits for nothing. What can fail is the send.
    pub fn emit(&mut self, event: String, data: String) -> (r: Result<(), SendError>)
        ensures
            send_outcome(
                old(self).sender(),
                PacketView {
                    inner: PacketDataView::Event(event@, data@, None),
                    ns: old(self).ns_path(),
                },
                final(self).sender(),
                r,
            ),
            old(self).same_but_sender(final(self)),
    {
        let ns = self.ns.clone();
        self.send(Packet::event(ns, event, data))
    }

    /// Offers the frames that are still owed to the transport.
    pub fn retry_failed(&mut self) -> (r: Result<(), GoodNameError>)
        ensures
            flush_outcome(old(self).sender(), final(self).sender(), r),
            old(self).same_but_sender(final(self)),
    {
        self.resend_failed()
    }

    /// The current namespace path.
    pub fn ns(&self) -> (path: &String)
        ensures
            path@ == self.ns_path(),
    {
        &self.ns
    }

    /// Sends a packet on this connection.
    pub fn send(&mut self, packet: Packet) -> (r: Result<(), SendError>)
        ensures
            send_outcome(old(self).sender(), packet@, final(self).sender(), r),
            old(self).same_but_sender(final(self)),
    {
        self.sender.send(packet)
    }

    /// Offers the frames that are still owed to the transport.
    pub fn resend_failed(&mut self) -> (r: Result<(), GoodNameError>)
        ensures
            flush_outcome(old(self).sender(), final(self).sender(), r),
            old(self).same_but_sender(final(self)),
    {
        self.sender.send_binaries()
    }

    /// Draws the next acknowledgement id.
    fn reserve_ack_id(&mut self) -> (ack: i64)
        ensures
            ack == next_ack_id(old(self).ack_counter()),
            final(self).ack_counter() == ack,
            final(self).ns_path() == old(self).ns_path(),
            final(self).handlers() == old(self).handlers(),
            final(self).acks() == old(self).acks(),
            final(self).ack_timeout() == old(self).ack_timeout(),
            final(self).sender() == old(self).sender(),
            final(self).id() == old(self).id(),
            final(self).handshake_record() == old(self).handshake_record(),
    {
        let ack = if self.ack_counter == i64::MAX {
            i64::MIN
        } else {
            self.ack_counter + 1
        };
        self.ack_counter = ack;
        ack
    }

    /// What the registry of waiters looks like after an acknowledgement
    /// for `ack` came in with `data` and `bin`: the waiter of `ack`, if
    /// there was one, has been handed both and is gone.
    pub open spec fn acknowledged(
        before: AckRegistry,
        ack: i64,
        data: Seq<char>,
        bin: Seq<Seq<u8>>,
        after: AckRegistry,
    ) -> bool {
        &&& after.pending() == before.pending().remove(ack)
        &&& after.fulfilled() == if before.pending().contains(ack) {
            before.fulfilled().push(Fulfillment { ack, data, bin })
        } else {
            before.fulfilled()
        }
    }

    /// What an inbound event named `name` asks for: a call of the handler
    /// registered for `name` with the event's arguments, attachments and
    /// acknowledgement id, or nothing where `name` has no handler.
    pub open spec fn dispatched(
        &self,
        name: Seq<char>,
        data: Seq<char>,
        bin: Seq<Seq<u8>>,
        ack: Option<i64>,
        call: Option<Invocation<H>>,
    ) -> bool {
        if self.handlers().contains_key(name) {
            &&& call matches Some(call)
            &&& *call.handler == self.handlers()[name]
            &&& call.data@ == data
            &&& attachment_views(call.bin@) == bin
            &&& call.ack == ack
        } else {
            call is None
        }
    }

    /// Sends `packet` as a request: with the next acknowledgement id, and
    /// with a waiter registered for that id before the packet goes out.
    /// The wait itself is the caller's: how long is in the waiter, the
    /// connection's own timeout unless `timeout` names another. Where the
    /// send fails the waiter is given up again.
    pub fn send_with_ack(&mut self, packet: Packet, timeout: Option<Duration>) -> (r: Result<
        AckWaiter,
        AckError,
    >)
        ensures
            ({
                let ack = next_ack_id(old(self).ack_counter());
                let request = PacketView { inner: packet@.inner.with_ack(ack), ns: packet@.ns };
                &&& final(self).ack_counter() == ack
                &&& final(self).ns_path() == old(self).ns_path()
                &&& final(self).handlers() == old(self).handlers()
                &&& final(self).ack_timeout() == old(self).ack_timeout()
                &&& final(self).id() == old(self).id()
                &&& final(self).handshake_record() == old(self).handshake_record()
                &&& final(self).acks().fulfilled() == old(self).acks().fulfilled()
                &&& match r {
                    Ok(waiter) => {
                        &&& waiter.ack == ack
                        &&& waiter.timeout == match timeout {
                            Some(t) => t,
                            None => old(self).ack_timeout(),
                        }
                        &&& final(self).acks().pending() == old(self).acks().pending().insert(ack)
                        &&& send_outcome(old(self).sender(), request, final(self).sender(), Ok(()))
                    },
                    Err(AckError::SendChannel(e)) => {
                        &&& final(self).acks().pending() == old(self).acks().pending().remove(ack)
                        &&& send_outcome(old(self).sender(), request, final(self).sender(), Err(e))
                    },
                    Err(_) => false,
                }
            }),
    {
        let mut packet = packet;
        let ack = self.reserve_ack_id();
        let rx = self.ack_message.register(ack);
        packet.inner.set_ack_id(ack);
        match self.send(packet) {
            Ok(()) => {
                let timeout = match timeout {
                    Some(t) => t,
                    None => self.config.ack_timeout,
                };
                Ok(AckWaiter { ack, rx, timeout })
            },
            Err(e) => {
                self.ack_message.expire(ack);
                assert(self.acks().pending() =~= old(self).acks().pending().remove(ack));
                Err(AckError::SendChannel(e))
            },
        }
    }

    /// Emits the event `event` with the arguments `data` as a request for
    /// an acknowledgement, to be waited for with the connection's timeout.
    pub fn emit_with_ack(&mut self, event: String, data: String) -> (r: Result<
        AckWaiter,
        AckError,
    >)
        ensures
            ({
                let ack = next_ack_id(old(self).ack_counter());
                let request = PacketView {
                    inner: PacketDataView::Event(event@, data@, Some(ack)),
                    ns: old(self).ns_path(),
                };
                &&& final(self).ack_counter() == ack
                &&& final(self).ns_path() == old(self).ns_path()
                &&& final(self).handlers() == old(self).handlers()
                &&& final(self).ack_timeout() == old(self).ack_timeout()
                &&& final(self).id() == old(self).id()
                &&& final(self).handshake_record() == old(self).handshake_record()
                &&& final(self).acks().fulfilled() == old(self).acks().fulfilled()
                &&& match r {
                    Ok(waiter) => {
                        &&& waiter.ack == ack
                        &&& waiter.timeout == old(self).ack_timeout()
                        &&& final(self).acks().pending() == old(self).acks().pending().insert(ack)
                        &&& send_outcome(old(self).sender(), request, final(self).sender(), Ok(()))
                    },
                    Err(AckError::SendChannel(e)) => {
                        &&& final(self).acks().pending() == old(self).acks().pending().remove(ack)
                        &&& send_outcome(old(self).sender(), request, final(self).sender(), Err(e))
                    },
                    Err(_) => false,
                }
            }),
    {
        let ns = self.ns.clone();
        let packet = Packet::event(ns, event, data);
        self.send_with_ack(packet, None)
    }

    /// Settles a request once its wait has ended. An acknowledgement that
    /// arrived is the result. Where the time ran out the waiter is given
    /// up, so that an acknowledgement that still comes finds none, and the
    /// result is `Timeout`. The request itself is not recalled.
    pub fn ack_result(&mut self, ack: i64, outcome: AckWait) -> (r: Result<AckResponse, AckError>)
        ensures
            old(self).same_but_acks(final(self)),
            final(self).acks().fulfilled() == old(self).acks().fulfilled(),
            match outcome {
                AckWait::Received(response) => {
                    &&& r == Ok::<AckResponse, AckError>(response)
                    &&& final(self).acks() == old(self).acks()
                },
                AckWait::Closed => {
                    &&& r == Err::<AckResponse, AckError>(AckError::AckReceive)
                    &&& final(self).acks() == old(self).acks()
                },
                AckWait::TimedOut => {
                    &&& r == Err::<AckResponse, AckError>(AckError::Timeout)
                    &&& final(self).acks().pending() == old(self).acks().pending().remove(ack)
                },
            },
    {
        match outcome {
            AckWait::Received(response) => Ok(response),
            AckWait::Closed => Err(AckError::AckReceive),
            AckWait::TimedOut => {
                self.ack_message.expire(ack);
                Err(AckError::Timeout)
            },
        }
    }

    /// Takes a packet that the dispatcher routed to this connection. An
    /// event asks for a call of its handler, or for nothing where its name
    /// has none. An acknowledgement goes to its waiter, or nowhere where it
    /// has none. A packet of any other kind is an error: the dispatcher
    /// has to deal with those itself.
    pub fn recv(&mut self, packet: PacketData) -> (r: Result<
        Option<Invocation<'_, H>>,
        ProtocolError,
    >)
        ensures
            old(self).same_but_acks(final(self)),
            match packet@ {
                PacketDataView::Event(name, data, ack) => {
                    &&& final(self).acks() == old(self).acks()
                    &&& r matches Ok(call)
                    &&& old(self).dispatched(name, data, Seq::empty(), ack, call)
                },
                PacketDataView::BinaryEvent(name, packet, ack) => {
                    &&& final(self).acks() == old(self).acks()
                    &&& r matches Ok(call)
                    &&& old(self).dispatched(name, packet.data, packet.bin, ack, call)
                },
                PacketDataView::EventAck(data, ack) => {
                    &&& r matches Ok(None)
                    &&& Self::acknowledged(
                        old(self).acks(),
                        ack,
                        data,
                        Seq::empty(),
                        final(self).acks(),
                    )
                },
                PacketDataView::BinaryAck(packet, ack) => {
                    &&& r matches Ok(None)
                    &&& Self::acknowledged(
                        old(self).acks(),
                        ack,
                        packet.data,
                        packet.bin,
                        final(self).acks(),
                    )
                },
                _ => {
                    &&& final(self).acks() == old(self).acks()
                    &&& r == Err::<Option<Invocation<H>>, ProtocolError>(
                        ProtocolError::InvalidPacketType,
                    )
                },
            },
    {
        match packet {
            PacketData::Event(e, data, ack) => self.recv_event(e, data, ack),
            PacketData::EventAck(data, ack_id) => {
                self.recv_ack(data, ack_id);
                Ok(None)
            },
            PacketData::BinaryEvent(e, packet, ack) => self.recv_bin_event(e, packet, ack),
            PacketData::BinaryAck(packet, ack) => {
                self.recv_bin_ack(packet, ack);
                Ok(None)
            },
            _ => Err(ProtocolError::InvalidPacketType),
        }
    }

    fn recv_event(&self, e: String, data: String, ack: Option<i64>) -> (r: Result<
        Option<Invocation<'_, H>>,
        ProtocolError,
    >)
        ensures
            r matches Ok(call) && self.dispatched(e@, data@, Seq::empty(), ack, call),
    {
        match self.message_handlers.get(&e) {
            Some(handler) => {
                let bin: Vec<Vec<u8>> = Vec::new();
                assert(attachment_views(bin@) =~= Seq::<Seq<u8>>::empty());
                Ok(Some(Invocation { handler, data, bin, ack }))
            },
            None => Ok(None),
        }
    }

    fn recv_bin_event(&self, e: String, packet: crate::packet::BinaryPacket, ack: Option<i64>) -> (r:
        Result<Option<Invocation<'_, H>>, ProtocolError>)
        ensures
            r matches Ok(call) && self.dispatched(e@, packet@.data, packet@.bin, ack, call),
    {
        match self.message_handlers.get(&e) {
            Some(handler) => Ok(Some(Invocation { handler, data: packet.data, bin: packet.bin, ack })),
            None => Ok(None),
        }
    }

    fn recv_ack(&mut self, data: String, ack: i64) -> (r: Result<(), ProtocolError>)
        ensures
            r is Ok,
            old(self).same_but_acks(final(self)),
            Self::acknowledged(old(self).acks(), ack, data@, Seq::empty(), final(self).acks()),
    {
        let bin: Vec<Vec<u8>> = Vec::new();
        assert(attachment_views(bin@) =~= Seq::<Seq<u8>>::empty());
        self.ack_message.fulfill(ack, data, bin);
        Ok(())
    }

    fn recv_bin_ack(&mut self, packet: crate::packet::BinaryPacket, ack: i64) -> (r: Result<
        (),
        ProtocolError,
    >)
        ensures
            r is Ok,
            old(self).same_but_acks(final(self)),
            Self::acknowledged(
                old(self).acks(),
                ack,
                packet@.data,
                packet@.bin,
                final(self).acks(),
            ),
    {
        self.ack_message.fulfill(ack, packet.data, packet.bin);
        Ok(())
    }
}

impl<H> Socket<H> {
    /// Join the given rooms.
    pub fn join<A: Adapter>(&self, adapter: &mut A, rooms: Vec<Room>) -> (r: Result<(), A::Error>)
        ensures
            A::added(*old(adapter), self.id(), room_names(rooms@), *final(adapter), r),
    {
        adapter.add_all(self.sid, rooms)
    }

    /// Leave the given rooms.
    pub fn leave<A: Adapter>(&self, adapter: &mut A, rooms: Vec<Room>) -> (r: Result<(), A::Error>)
        ensures
            A::deleted(*old(adapter), self.id(), room_names(rooms@), *final(adapter), r),
    {
        adapter.del(self.sid, rooms)
    }

    /// Leave all rooms where the socket is connected.
    pub fn leave_all<A: Adapter>(&self, adapter: &mut A) -> (r: Result<(), A::Error>)
        ensures
            A::cleared(*old(adapter), self.id(), *final(adapter), r),
    {
        adapter.del_all(self.sid)
    }

    /// Get all rooms where the socket is connected.
    pub fn rooms<A: Adapter>(&self, adapter: &A) -> (r: Result<Vec<Room>, A::Error>)
        ensures
            adapter.listed(self.id(), r),
    {
        adapter.socket_rooms(self.sid)
    }

    /// The choice of everyone in this connection's namespace, from which
    /// the selections below start.
    fn operators(&self) -> (ops: Operators)
        ensures
            ops@ == self.everyone(),
    {
        Operators::new(self.ns.clone(), self.sid)
    }

    /// The choice of everyone in this connection's namespace, this
    /// connection included, with nothing attached.
    pub open spec fn everyone(&self) -> OperatorsView {
        OperatorsView {
            ns: self.ns_path(),
            sid: self.id(),
            rooms: Seq::empty(),
            except: Seq::empty(),
            broadcast: false,
            local: false,
            timeout: None,
            binary: Seq::empty(),
        }
    }

    /// Select all clients in the given rooms except the current socket.
    ///
    /// If you want to include the current socket, use the `within()` operator.
    pub fn to(&self, rooms: Vec<Room>) -> (ops: Operators)
        ensures
            ops@ == (OperatorsView {
                rooms: room_names(rooms@),
                broadcast: true,
                ..self.everyone()
            }),
    {
        let ops = self.operators().to(rooms);
        assert(Seq::<Seq<char>>::empty() + room_names(rooms@) =~= room_names(rooms@));
        ops
    }

    /// Select all clients in the given rooms.
    ///
    /// It does include the current socket contrary to the `to()` operator.
    pub fn within(&self, rooms: Vec<Room>) -> (ops: Operators)
        ensures
            ops@ == (OperatorsView { rooms: room_names(rooms@), ..self.everyone() }),
    {
        let ops = self.operators().within(rooms);
        assert(Seq::<Seq<char>>::empty() + room_names(rooms@) =~= room_names(rooms@));
        ops
    }

    /// Filter out all clients selected with the previous operators which are in the given rooms.
    pub fn except(&self, rooms: Vec<Room>) -> (ops: Operators)
        ensures
            ops@ == (OperatorsView {
                except: room_names(rooms@),
                broadcast: true,
                ..self.everyone()
            }),
    {
        let ops = self.operators().except(rooms);
        assert(Seq::<Seq<char>>::empty() + room_names(rooms@) =~= room_names(rooms@));
        ops
    }

    /// Broadcast to all clients only connected on this node (when using multiple nodes).
    pub fn local(&self) -> (ops: Operators)
        ensures
            ops@ == (OperatorsView { local: true, ..self.everyone() }),
    {
        self.operators().local()
    }

    /// Set a custom timeout when sending a message with an acknowledgement.
    pub fn timeout(&self, timeout: Duration) -> (ops: Operators)
        ensures
            ops@ == (OperatorsView { timeout: Some(timeout), ..self.everyone() }),
    {
        self.operators().timeout(timeout)
    }

    /// Add a binary payload to the message.
    pub fn bin(&self, binary: Vec<Vec<u8>>) -> (ops: Operators)
        ensures
            ops@ == (OperatorsView { binary: attachment_views(binary@), ..self.everyone() }),
    {
        self.operators().bin(binary)
    }

    /// Broadcast to all clients without any filtering (except the current socket).
    pub fn broadcast(&self) -> (ops: Operators)
        ensures
            ops@ == (OperatorsView { broadcast: true, ..self.everyone() }),
    {
        self.operators().broadcast()
    }

    /// Disconnect the socket from the current namespace: the peer is told
    /// so, and every waiter for an acknowledgement is given up, whether
    /// the notice went out or not.
    pub fn disconnect(&mut self) -> (r: Result<(), SendError>)
        ensures
            send_outcome(
                old(self).sender(),
                PacketView { inner: PacketDataView::Disconnect, ns: old(self).ns_path() },
                final(self).sender(),
                r,
            ),
            final(self).acks().pending() == Set::<i64>::empty(),
            final(self).acks().fulfilled() == old(self).acks().fulfilled(),
            final(self).ns_path() == old(self).ns_path(),
            final(self).handlers() == old(self).handlers(),
            final(self).ack_counter() == old(self).ack_counter(),
            final(self).ack_timeout() == old(self).ack_timeout(),
            final(self).id() == old(self).id(),
            final(self).handshake_record() == old(self).handshake_record(),
    {
        self.ack_message.cancel_all();
        let ns = self.ns.clone();
        self.send(Packet::disconnect(ns))
    }
}

impl<H> Socket<H> {
    /// Ends the connection without a word to the peer, as when the peer
    /// has left or its transport is gone: every waiter for an
    /// acknowledgement is given up.
    pub fn close(&mut self)
        ensures
            old(self).same_but_acks(final(self)),
            final(self).acks().pending() == Set::<i64>::empty(),
            final(self).acks().fulfilled() == old(self).acks().fulfilled(),
    {
        self.ack_message.cancel_all();
    }
}

impl RetryablePacket {
    /// Offers the frames of the token to the connection again.
    pub fn retry<H>(self, socket: &mut Socket<H>) -> (r: Result<(), GoodNameError>)
        ensures
            retry_outcome(old(socket).sender(), self@, final(socket).sender(), r),
            old(socket).same_but_sender(final(socket)),
    {
        socket.sender.send_raw(self)
    }
}

} // verus!
