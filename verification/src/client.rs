//! The dispatcher: it knows which namespaces are served and which peers are
//! connected to them, and decides for every inbound message what becomes
//! of it. The decision is all it makes. Creating and tearing down
//! connections, calling handlers and closing transports are the caller's
//! part, as the answer asks.

use crate::config::SocketIoConfig;
use crate::errors::{GoodNameError, ProtocolError, SendError};
use crate::handshake::{Handshake, HandshakeView};
use crate::decode::parse;
use crate::packet::{
    connect_body, invalid_namespace_reason, Packet, PacketData, PacketDataView, PacketView,
};
use crate::registry::Registry;
use crate::transport::{try_send_frame, Frame, FrameView};
use engineioxide::SendPacket;
use std::collections::HashMap;
use tokio::sync::mpsc::Sender;
use vstd::prelude::*;

verus! {

broadcast use vstd::std_specs::hash::group_hash_axioms;

/// The dispatcher of one server. `C` is what the application runs when a
/// peer has joined a namespace.
pub struct Client<C> {
    config: SocketIoConfig,
    table: Table<C>,
    partial: HashMap<i64, Packet>,
}

/// The namespaces that are served, and which peer is connected to which
/// of them. A peer is connected to served namespaces only.
struct Table<C> {
    ns: Registry<C>,
    joined: HashMap<i64, Registry<()>>,
}

/// What the dispatcher knows.
pub struct ClientView<C> {
    /// The settings that connections are made with.
    pub config: SocketIoConfig,
    /// The namespaces that are served, with what to run on a connect.
    pub served: Map<Seq<char>, C>,
    /// The live connections, each a namespace and the peer's id.
    pub connections: Set<(Seq<char>, i64)>,
    /// The binary packets that still wait for attachments, by peer.
    pub awaiting: Map<i64, PacketView>,
}

/// What the dispatcher asks of its caller for one inbound message.
pub enum Routed<'a, C> {
    /// The message is no packet, or came out of turn. The transport has to
    /// be closed.
    Close,
    /// The peer has joined `ns`. A connection has to be made with
    /// `handshake`, `callback` run on it, and `reply` sent to the peer.
    Connected { ns: String, handshake: Handshake, callback: &'a C, reply: Packet },
    /// The peer asked for a namespace that is not served. `reply` has to
    /// be sent; there is no connection.
    Refused { reply: Packet },
    /// `packet` is for the peer's connection to `ns`.
    Forward { ns: String, packet: PacketData },
    /// The peer has left `ns`. Its connection there has to be torn down.
    Disconnected { ns: String },
    /// A binary packet waits for its attachments.
    Awaiting,
    /// Nothing is to be done.
    Dropped,
}

pub enum RoutedView<C> {
    Close,
    Connected { ns: Seq<char>, handshake: HandshakeView, callback: C, reply: PacketView },
    Refused { reply: PacketView },
    Forward { ns: Seq<char>, packet: PacketDataView },
    Disconnected { ns: Seq<char> },
    Awaiting,
    Dropped,
}

impl<'a, C> View for Routed<'a, C> {
    type V = RoutedView<C>;

    open spec fn view(&self) -> RoutedView<C> {
        match self {
            Routed::Close => RoutedView::Close,
            Routed::Connected { ns, handshake, callback, reply } => RoutedView::Connected {
                ns: ns@,
                handshake: handshake@,
                callback: **callback,
                reply: reply@,
            },
            Routed::Refused { reply } => RoutedView::Refused { reply: reply@ },
            Routed::Forward { ns, packet } => RoutedView::Forward { ns: ns@, packet: packet@ },
            Routed::Disconnected { ns } => RoutedView::Disconnected { ns: ns@ },
            Routed::Awaiting => RoutedView::Awaiting,
            Routed::Dropped => RoutedView::Dropped,
        }
    }
}

/// The handshake of a connect request that brought `auth`.
pub open spec fn handshake_of(auth: Option<Seq<char>>) -> HandshakeView {
    HandshakeView { auth, url: Seq::empty(), issued: 0 }
}

/// The acceptance that tells the peer `sid` that it has joined `ns`.
pub open spec fn acceptance(ns: Seq<char>, sid: i64) -> PacketView {
    PacketView { inner: PacketDataView::Connect(Some(connect_body(sid))), ns }
}

/// The refusal of a connect request for `ns`.
pub open spec fn refusal(ns: Seq<char>) -> PacketView {
    PacketView { inner: PacketDataView::ConnectError(invalid_namespace_reason()), ns }
}

/// What becomes of a whole packet from the peer `sid`, and of what the
/// dispatcher knows.
///
/// A connect request for a served namespace makes the connection; for any
/// other namespace it is refused, and nothing changes. A disconnect ends the
/// peer's connection to the namespace, if there is one. An event or an
/// acknowledgement goes to the peer's connection to the namespace; where
/// there is none it is dropped. Nothing else is of any consequence.
pub open spec fn deliver<C>(state: ClientView<C>, sid: i64, packet: PacketView) -> (
    ClientView<C>,
    RoutedView<C>,
) {
    let here = state.connections.contains((packet.ns, sid));
    match packet.inner {
        PacketDataView::Connect(auth) => if state.served.contains_key(packet.ns) {
            (
                ClientView { connections: state.connections.insert((packet.ns, sid)), ..state },
                RoutedView::Connected {
                    ns: packet.ns,
                    handshake: handshake_of(auth),
                    callback: state.served[packet.ns],
                    reply: acceptance(packet.ns, sid),
                },
            )
        } else {
            (state, RoutedView::Refused { reply: refusal(packet.ns) })
        },
        PacketDataView::Disconnect => if here {
            (
                ClientView { connections: state.connections.remove((packet.ns, sid)), ..state },
                RoutedView::Disconnected { ns: packet.ns },
            )
        } else {
            (state, RoutedView::Dropped)
        },
        PacketDataView::ConnectError(_) => (state, RoutedView::Dropped),
        _ => if here {
            (state, RoutedView::Forward { ns: packet.ns, packet: packet.inner })
        } else {
            (state, RoutedView::Dropped)
        },
    }
}

/// What becomes of a decoded textual message from the peer `sid`.
///
/// A message that is no packet closes the transport, and so does any
/// textual message that comes while a binary packet of the peer still waits
/// for attachments; that packet is given up. A binary packet that announces
/// attachments waits for them. Any other packet is whole and is delivered.
pub open spec fn on_packet<C>(
    state: ClientView<C>,
    sid: i64,
    decoded: Result<PacketView, ProtocolError>,
) -> (ClientView<C>, RoutedView<C>) {
    if state.awaiting.contains_key(sid) {
        (ClientView { awaiting: state.awaiting.remove(sid), ..state }, RoutedView::Close)
    } else {
        match decoded {
            Err(_) => (state, RoutedView::Close),
            Ok(packet) => if packet.inner.missing() > 0 {
                (
                    ClientView { awaiting: state.awaiting.insert(sid, packet), ..state },
                    RoutedView::Awaiting,
                )
            } else {
                deliver(state, sid, packet)
            },
        }
    }
}

/// What becomes of a binary message from the peer `sid`: it is the next
/// attachment of the packet that waits for one, which is delivered once it
/// is whole. Where no packet waits the message is dropped.
pub open spec fn on_attachment<C>(state: ClientView<C>, sid: i64, bytes: Seq<u8>) -> (
    ClientView<C>,
    RoutedView<C>,
) {
    if !state.awaiting.contains_key(sid) {
        (state, RoutedView::Dropped)
    } else {
        let waiting = state.awaiting[sid];
        let packet = PacketView { inner: waiting.inner.with_attachment(bytes), ns: waiting.ns };
        if packet.inner.missing() > 0 {
            (
                ClientView { awaiting: state.awaiting.insert(sid, packet), ..state },
                RoutedView::Awaiting,
            )
        } else {
            deliver(ClientView { awaiting: state.awaiting.remove(sid), ..state }, sid, packet)
        }
    }
}

/// What the dispatcher knows and answers once a textual message that
/// decodes to `decoded` and then the binary messages `bin` have come from
/// the peer `sid`, one after the other. The answer is that to the last
/// message.
pub open spec fn after_frames<C>(
    state: ClientView<C>,
    sid: i64,
    decoded: Result<PacketView, ProtocolError>,
    bin: Seq<Seq<u8>>,
) -> (ClientView<C>, RoutedView<C>)
    decreases bin.len(),
{
    if bin.len() == 0 {
        on_packet(state, sid, decoded)
    } else {
        on_attachment(after_frames(state, sid, decoded, bin.drop_last()).0, sid, bin.last())
    }
}

/// The connections of every peer but `sid`.
pub open spec fn connections_without(
    connections: Set<(Seq<char>, i64)>,
    sid: i64,
) -> Set<(Seq<char>, i64)> {
    connections.filter(|c: (Seq<char>, i64)| c.1 != sid)
}

/// What the dispatcher knows once the transport of the peer `sid` is gone:
/// none of the peer's connections, and no packet of it that waits.
pub open spec fn without_peer<C>(state: ClientView<C>, sid: i64) -> ClientView<C> {
    ClientView {
        connections: connections_without(state.connections, sid),
        awaiting: state.awaiting.remove(sid),
        ..state
    }
}

/// The namespaces of `handlers`, each with the callback that stands last
/// for it.
pub open spec fn served_by<C>(handlers: Seq<(String, C)>) -> Map<Seq<char>, C>
    decreases handlers.len(),
{
    if handlers.len() == 0 {
        Map::empty()
    } else {
        served_by(handlers.drop_last()).insert(handlers.last().0@, handlers.last().1)
    }
}

impl<C> ClientView<C> {
    /// Every connection is to a namespace that is served.
    pub open spec fn consistent(self) -> bool {
        forall|c: (Seq<char>, i64)| self.connections.contains(c) ==> self.served.contains_key(c.0)
    }
}

/// The connections of the peers, by peer.
spec fn links(joined: Map<i64, Registry<()>>) -> Set<(Seq<char>, i64)> {
    Set::new(
        |c: (Seq<char>, i64)| joined.contains_key(c.1) && joined[c.1].handlers().contains_key(c.0),
    )
}

/// Whether every namespace that a peer has joined is among `served`.
spec fn joined_where_served<C>(served: Map<Seq<char>, C>, joined: Map<i64, Registry<()>>) -> bool {
    forall|sid: i64, name: Seq<char>|
        joined.contains_key(sid) && #[trigger] joined[sid].handlers().contains_key(name)
            ==> served.contains_key(name)
}

impl<C> Table<C> {
    #[verifier::type_invariant]
    spec fn connected_where_served(self) -> bool {
        joined_where_served(self.ns.handlers(), self.joined@)
    }

    spec fn served(&self) -> Map<Seq<char>, C> {
        self.ns.handlers()
    }

    spec fn connections(&self) -> Set<(Seq<char>, i64)> {
        links(self.joined@)
    }

    /// Takes the table apart, to be put together again once it has
    /// changed.
    fn take(&mut self) -> (parts: (Registry<C>, HashMap<i64, Registry<()>>))
        ensures
            parts.0 == old(self).ns,
            parts.1 == old(self).joined,
    {
        let mut joined: HashMap<i64, Registry<()>> = HashMap::new();
        std::mem::swap(&mut self.joined, &mut joined);
        let mut ns: Registry<C> = Registry::new();
        std::mem::swap(&mut self.ns, &mut ns);
        (ns, joined)
    }

    /// Notes that the peer `sid` has joined `ns`.
    fn link(&mut self, ns: &String, sid: i64)
        requires
            old(self).served().contains_key(ns@),
        ensures
            final(self).ns == old(self).ns,
            final(self).connections() == old(self).connections().insert((ns@, sid)),
    {
        proof {
            use_type_invariant(&*self);
        }
        let (served, mut joined) = self.take();
        let ghost before = joined@;
        let mut namespaces = match joined.remove(&sid) {
            Some(namespaces) => namespaces,
            None => Registry::new(),
        };
        namespaces.insert(ns.clone(), ());
        joined.insert(sid, namespaces);
        assert(joined_where_served(served.handlers(), joined@)) by {
            assert forall|who: i64, name: Seq<char>|
                joined@.contains_key(who) && #[trigger] joined@[who].handlers().contains_key(
                    name,
                ) implies served.handlers().contains_key(name) by {
                if who != sid {
                    assert(before.contains_key(who) && before[who].handlers().contains_key(name));
                } else if name != ns@ {
                    assert(before.contains_key(sid) && before[sid].handlers().contains_key(name));
                }
            }
        }
        *self = Table { ns: served, joined };
        assert(self.connections() =~= old(self).connections().insert((ns@, sid)));
    }

    /// Notes that the peer `sid` has left `ns`.
    fn unlink(&mut self, ns: &String, sid: i64)
        ensures
            final(self).ns == old(self).ns,
            final(self).connections() == old(self).connections().remove((ns@, sid)),
    {
        proof {
            use_type_invariant(&*self);
        }
        let (served, mut joined) = self.take();
        let ghost before = joined@;
        match joined.remove(&sid) {
            Some(namespaces) => {
                let mut namespaces = namespaces;
                namespaces.remove(ns);
                joined.insert(sid, namespaces);
            },
            None => {},
        }
        assert(joined_where_served(served.handlers(), joined@)) by {
            assert forall|who: i64, name: Seq<char>|
                joined@.contains_key(who) && #[trigger] joined@[who].handlers().contains_key(
                    name,
                ) implies served.handlers().contains_key(name) by {
                assert(before.contains_key(who) && before[who].handlers().contains_key(name));
            }
        }
        *self = Table { ns: served, joined };
        assert(self.connections() =~= old(self).connections().remove((ns@, sid)));
    }

    /// Forgets every connection of the peer `sid`.
    fn forget(&mut self, sid: i64)
        ensures
            final(self).ns == old(self).ns,
            final(self).connections() == connections_without(old(self).connections(), sid),
    {
        proof {
            use_type_invariant(&*self);
        }
        let (served, mut joined) = self.take();
        let ghost before = joined@;
        joined.remove(&sid);
        assert(joined_where_served(served.handlers(), joined@)) by {
            assert forall|who: i64, name: Seq<char>|
                joined@.contains_key(who) && #[trigger] joined@[who].handlers().contains_key(
                    name,
                ) implies served.handlers().contains_key(name) by {
                assert(before.contains_key(who) && before[who].handlers().contains_key(name));
            }
        }
        *self = Table { ns: served, joined };
        assert(self.connections() =~= connections_without(old(self).connections(), sid));
    }
}

impl<C> Client<C> {
    spec fn packets(partial: Map<i64, Packet>) -> Map<i64, PacketView> {
        partial.map_values(|p: Packet| p@)
    }
}

impl<C> View for Client<C> {
    type V = ClientView<C>;

    closed spec fn view(&self) -> ClientView<C> {
        ClientView {
            config: self.config,
            served: self.table.served(),
            connections: self.table.connections(),
            awaiting: Self::packets(self.partial@),
        }
    }
}

impl<C> Client<C> {
    /// A dispatcher that serves the namespaces of `ns_handlers` and knows
    /// of no connection.
    pub fn new(config: SocketIoConfig, ns_handlers: Vec<(String, C)>) -> (client: Self)
        ensures
            client@.config == config,
            client@.served == served_by(ns_handlers@),
            client@.connections == Set::<(Seq<char>, i64)>::empty(),
            client@.awaiting == Map::<i64, PacketView>::empty(),
            client@.consistent(),
    {
        let ghost all = ns_handlers@;
        let mut rest = ns_handlers;
        let mut reversed: Vec<(String, C)> = Vec::new();
        while rest.len() > 0
            invariant
                rest@.len() + reversed@.len() == all.len(),
                rest@ == all.take(rest@.len() as int),
                forall|i: int|
                    0 <= i < reversed@.len() ==> reversed@[i] == all[all.len() - 1 - i],
            decreases rest@.len(),
        {
            let last = rest.pop().unwrap();
            reversed.push(last);
        }
        let mut ns: Registry<C> = Registry::new();
        let ghost mut done: int = 0;
        assert(all.take(0) =~= Seq::<(String, C)>::empty());
        while reversed.len() > 0
            invariant
                0 <= done <= all.len(),
                done + reversed@.len() == all.len(),
                forall|i: int|
                    0 <= i < reversed@.len() ==> reversed@[i] == all[all.len() - 1 - i],
                ns.handlers() == served_by(all.take(done)),
            decreases reversed@.len(),
        {
            let (path, callback) = reversed.pop().unwrap();
            ns.insert(path, callback);
            proof {
                assert(all.take(done + 1).drop_last() =~= all.take(done));
                assert(all.take(done + 1).last() == all[done]);
                done = done + 1;
            }
        }
        assert(all.take(done) =~= all);
        let table = Table { ns, joined: HashMap::new() };
        let client = Client { config, table, partial: HashMap::new() };
        assert(client@.connections =~= Set::<(Seq<char>, i64)>::empty());
        assert(client@.awaiting =~= Map::<i64, PacketView>::empty());
        client
    }

    /// Whether the peer `sid` is connected to `ns`. The dispatcher knows
    /// of connections to served namespaces only.
    pub fn is_connected(&self, ns: &String, sid: i64) -> (here: bool)
        ensures
            here == self@.connections.contains((ns@, sid)),
            self@.consistent(),
    {
        proof {
            use_type_invariant(&self.table);
        }
        match self.table.joined.get(&sid) {
            Some(namespaces) => namespaces.contains(ns),
            None => false,
        }
    }

    /// Decides what becomes of a whole packet from the peer `sid`.
    pub fn deliver(&mut self, sid: i64, packet: Packet) -> (routed: Routed<'_, C>)
        ensures
            (final(self)@, routed@) == deliver(old(self)@, sid, packet@),
            old(self)@.consistent(),
            final(self)@.consistent(),
    {
        proof {
            use_type_invariant(&self.table);
            lemma_deliver_keeps_consistent(self@, sid, packet@);
        }
        let Packet { inner, ns } = packet;
        match inner {
            PacketData::Connect(auth) => {
                if self.table.ns.contains(&ns) {
                    self.table.link(&ns, sid);
                    let callback = self.table.ns.get(&ns).unwrap();
                    let reply = Packet::connect(ns.clone(), sid);
                    let handshake = Handshake { auth, url: String::new(), issued: 0 };
                    Routed::Connected { ns, handshake, callback, reply }
                } else {
                    Routed::Refused { reply: Packet::invalid_namespace(ns) }
                }
            },
            PacketData::Disconnect => {
                if self.is_connected(&ns, sid) {
                    self.table.unlink(&ns, sid);
                    Routed::Disconnected { ns }
                } else {
                    Routed::Dropped
                }
            },
            PacketData::ConnectError(_) => Routed::Dropped,
            other => {
                if self.is_connected(&ns, sid) {
                    Routed::Forward { ns, packet: other }
                } else {
                    Routed::Dropped
                }
            },
        }
    }

    /// Decides what becomes of a textual message from the peer `sid`, once
    /// it has been decoded.
    pub fn on_packet(&mut self, sid: i64, decoded: Result<Packet, ProtocolError>) -> (routed:
        Routed<'_, C>)
        ensures
            (final(self)@, routed@) == on_packet(
                old(self)@,
                sid,
                match decoded {
                    Ok(packet) => Ok(packet@),
                    Err(e) => Err(e),
                },
            ),
            old(self)@.consistent(),
            final(self)@.consistent(),
    {
        proof {
            use_type_invariant(&self.table);
        }
        if self.partial.contains_key(&sid) {
            self.partial.remove(&sid);
            assert(self@.awaiting =~= old(self)@.awaiting.remove(sid));
            return Routed::Close;
        }
        match decoded {
            Err(_) => Routed::Close,
            Ok(packet) => {
                if packet.inner.missing() > 0 {
                    self.partial.insert(sid, packet);
                    assert(self@.awaiting =~= old(self)@.awaiting.insert(sid, packet@));
                    Routed::Awaiting
                } else {
                    self.deliver(sid, packet)
                }
            },
        }
    }

    /// Decides what becomes of a textual message from the peer `sid`.
    pub fn on_message(&mut self, msg: String, sid: i64) -> (routed: Routed<'_, C>)
        ensures
            (final(self)@, routed@) == on_packet(old(self)@, sid, parse(msg@)),
            old(self)@.consistent(),
            final(self)@.consistent(),
    {
        let decoded = Packet::decode(msg.as_str());
        self.on_packet(sid, decoded)
    }

    /// Decides what becomes of a binary message from the peer `sid`.
    pub fn on_binary(&mut self, data: Vec<u8>, sid: i64) -> (routed: Routed<'_, C>)
        ensures
            (final(self)@, routed@) == on_attachment(old(self)@, sid, data@),
            old(self)@.consistent(),
            final(self)@.consistent(),
    {
        proof {
            use_type_invariant(&self.table);
        }
        match self.partial.remove(&sid) {
            None => {
                assert(self@.awaiting =~= old(self)@.awaiting);
                Routed::Dropped
            },
            Some(waiting) => {
                let Packet { inner, ns } = waiting;
                let mut inner = inner;
                inner.add_payload(data);
                let packet = Packet { inner, ns };
                if packet.inner.missing() > 0 {
                    self.partial.insert(sid, packet);
                    assert(self@.awaiting =~= old(self)@.awaiting.insert(sid, packet@));
                    Routed::Awaiting
                } else {
                    assert(self@.awaiting =~= old(self)@.awaiting.remove(sid));
                    self.deliver(sid, packet)
                }
            },
        }
    }

    /// Forgets the peer `sid`, whose transport is gone: its connections
    /// and the packet of it that may still wait for attachments.
    pub fn on_disconnect(&mut self, sid: i64)
        ensures
            final(self)@ == without_peer(old(self)@, sid),
            old(self)@.consistent(),
            final(self)@.consistent(),
    {
        proof {
            use_type_invariant(&self.table);
        }
        self.table.forget(sid);
        self.partial.remove(&sid);
        assert(self@.awaiting =~= old(self)@.awaiting.remove(sid));
    }

    /// Sends `packet` straight to a transport, as one textual frame: the
    /// acceptance or the refusal of a connect request. `transport` is what
    /// the lookup of the peer's transport gave. Where the transport is gone
    /// the emit fails as on a closed one.
    pub fn emit(&self, transport: Option<&Sender<SendPacket>>, packet: Packet) -> (r: Result<
        (),
        SendError,
    >)
        ensures
            transport is None ==> r matches Err(SendError::GoodNameError(GoodNameError::SocketClosed)),
            !(r matches Err(SendError::Serialize(_))),
            r matches Err(SendError::GoodNameError(GoodNameError::SendMainPacket(token)))
                ==> token@ == seq![FrameView::Text(packet@.text())],
            !(r matches Err(SendError::GoodNameError(GoodNameError::SendFailedBinPayloads(_)))),
    {
        let tx = match transport {
            Some(tx) => tx,
            None => {
                return Err(SendError::GoodNameError(GoodNameError::SocketClosed));
            },
        };
        let text = match packet.to_text() {
            Ok(text) => text,
            Err(e) => {
                return Err(SendError::Serialize(e));
            },
        };
        crate::sender::settle_single(try_send_frame(tx, Frame::Text(text)))
    }
}

/// What the dispatcher knows after the whole packets `packets` have come
/// in, each from its peer, one after the other.
pub open spec fn after_all<C>(state: ClientView<C>, packets: Seq<(i64, PacketView)>) -> ClientView<
    C,
>
    decreases packets.len(),
{
    if packets.len() == 0 {
        state
    } else {
        deliver(after_all(state, packets.drop_last()), packets.last().0, packets.last().1).0
    }
}

/// Whether `packet` from `from` asks to connect the peer `sid` to `ns`.
pub open spec fn connects(from: i64, packet: PacketView, ns: Seq<char>, sid: i64) -> bool {
    from == sid && packet.ns == ns && packet.inner is Connect
}

/// A peer that has disconnected from a namespace gets nothing more there.
/// Once a disconnect of the peer `sid` from `ns` has come in, and whatever
/// comes in behind it from any peer, short of a new connect request of
/// `sid` for `ns`: an event or an acknowledgement of `sid` for `ns` is
/// dropped, and nothing that the dispatcher knows changes. No packet goes
/// to a connection, so no handler is called.
pub proof fn lemma_nothing_after_disconnect<C>(
    state: ClientView<C>,
    ns: Seq<char>,
    sid: i64,
    between: Seq<(i64, PacketView)>,
    late: PacketView,
)
    requires
        forall|i: int| 0 <= i < between.len() ==> !connects(between[i].0, between[i].1, ns, sid),
        late.ns == ns,
        !(late.inner is Connect),
    ensures
        ({
            let left = deliver(state, sid, PacketView { inner: PacketDataView::Disconnect, ns }).0;
            let now = after_all(left, between);
            &&& !now.connections.contains((ns, sid))
            &&& deliver(now, sid, late) == (now, RoutedView::<C>::Dropped)
        }),
    decreases between.len(),
{
    let left = deliver(state, sid, PacketView { inner: PacketDataView::Disconnect, ns }).0;
    if between.len() > 0 {
        lemma_nothing_after_disconnect(state, ns, sid, between.drop_last(), late);
        let before = after_all(left, between.drop_last());
        let (from, packet) = between.last();
        assert(!connects(from, packet, ns, sid));
        assert((packet.ns, from) != (ns, sid) || !(packet.inner is Connect));
    }
}

/// Whatever comes in, the dispatcher goes on to know of connections to
/// served namespaces only.
pub proof fn lemma_deliver_keeps_consistent<C>(state: ClientView<C>, sid: i64, packet: PacketView)
    requires
        state.consistent(),
    ensures
        deliver(state, sid, packet).0.consistent(),
        deliver(state, sid, packet).0.served == state.served,
{
}

/// A packet for a namespace that is not served, other than a connect
/// request, is dropped, and nothing that the dispatcher knows changes: no
/// connection gets it, nothing is sent back, and the transport stays open.
/// A textual message that brings such a packet whole is dropped likewise,
/// where no binary packet of the peer waits for attachments.
pub proof fn lemma_unserved_namespace_is_dropped<C>(
    state: ClientView<C>,
    sid: i64,
    packet: PacketView,
)
    requires
        state.consistent(),
        !state.served.contains_key(packet.ns),
        !(packet.inner is Connect),
    ensures
        deliver(state, sid, packet) == (state, RoutedView::<C>::Dropped),
        !state.awaiting.contains_key(sid) && packet.inner.missing() <= 0 ==> on_packet(
            state,
            sid,
            Ok(packet),
        ) == (state, RoutedView::<C>::Dropped),
{
    assert(!state.connections.contains((packet.ns, sid)));
}

/// A connect request for a namespace that is not served is refused with a
/// packet that names that namespace, and makes no connection: what the
/// dispatcher knows stays as it was. So it is for the textual message
/// that brings the request, where no binary packet of the peer waits for
/// attachments.
pub proof fn lemma_unknown_namespace_is_refused<C>(
    state: ClientView<C>,
    sid: i64,
    ns: Seq<char>,
    auth: Option<Seq<char>>,
)
    requires
        !state.served.contains_key(ns),
    ensures
        deliver(state, sid, PacketView { inner: PacketDataView::Connect(auth), ns }) == (
            state,
            RoutedView::<C>::Refused { reply: refusal(ns) },
        ),
        refusal(ns).ns == ns,
        refusal(ns).inner is ConnectError,
        !state.awaiting.contains_key(sid) ==> on_packet(
            state,
            sid,
            Ok(PacketView { inner: PacketDataView::Connect(auth), ns }),
        ) == (state, RoutedView::<C>::Refused { reply: refusal(ns) }),
{
}

} // verus!
