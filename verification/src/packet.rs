//! Logical packets and their decomposition into transport frames: one
//! textual frame, then one binary frame for each attachment, in order.

use crate::json::{faithful, json_string, quote};
use crate::roundtrip::lemma_frames_read_back;
use crate::text::{decimal, decimal_int, push_decimal, push_decimal_int, same_text};
use crate::transport::{frame_views, Frame, FrameView};
use std::collections::VecDeque;
use vstd::prelude::*;
use vstd::string::*;

verus! {

/// The payload of a binary packet: arguments that hold placeholders, and the
/// attachments that the placeholders stand for, by position.
#[derive(Debug)]
pub struct BinaryPacket {
    /// The arguments, as text of the payload codec.
    pub data: String,
    /// The attachments that are here, in wire order.
    pub bin: Vec<Vec<u8>>,
    /// How many attachments the textual frame announces.
    pub payload_count: usize,
}

/// What a logical packet says.
#[derive(Debug)]
pub enum PacketData {
    /// Request to join the namespace, with the handshake's auth payload; as
    /// a reply, the acceptance.
    Connect(Option<String>),
    /// Refusal of a connect request, with the reason.
    ConnectError(String),
    Disconnect,
    /// Event name, arguments, and the acknowledgement id where one is asked.
    Event(String, String, Option<i64>),
    /// Arguments of an acknowledgement, and the id that it answers.
    EventAck(String, i64),
    BinaryEvent(String, BinaryPacket, Option<i64>),
    BinaryAck(BinaryPacket, i64),
}

/// A logical packet: what it says, and the namespace it is said in.
#[derive(Debug)]
pub struct Packet {
    pub inner: PacketData,
    pub ns: String,
}

pub struct BinaryPacketView {
    pub data: Seq<char>,
    pub bin: Seq<Seq<u8>>,
    pub payload_count: nat,
}

pub enum PacketDataView {
    Connect(Option<Seq<char>>),
    ConnectError(Seq<char>),
    Disconnect,
    Event(Seq<char>, Seq<char>, Option<i64>),
    EventAck(Seq<char>, i64),
    BinaryEvent(Seq<char>, BinaryPacketView, Option<i64>),
    BinaryAck(BinaryPacketView, i64),
}

pub struct PacketView {
    pub inner: PacketDataView,
    pub ns: Seq<char>,
}

/// The contents of a list of attachments.
pub open spec fn attachment_views(bin: Seq<Vec<u8>>) -> Seq<Seq<u8>> {
    bin.map_values(|b: Vec<u8>| b@)
}

impl View for BinaryPacket {
    type V = BinaryPacketView;

    open spec fn view(&self) -> BinaryPacketView {
        BinaryPacketView {
            data: self.data@,
            bin: attachment_views(self.bin@),
            payload_count: self.payload_count as nat,
        }
    }
}

impl View for PacketData {
    type V = PacketDataView;

    open spec fn view(&self) -> PacketDataView {
        match self {
            PacketData::Connect(None) => PacketDataView::Connect(None),
            PacketData::Connect(Some(auth)) => PacketDataView::Connect(Some(auth@)),
            PacketData::ConnectError(reason) => PacketDataView::ConnectError(reason@),
            PacketData::Disconnect => PacketDataView::Disconnect,
            PacketData::Event(name, data, ack) => PacketDataView::Event(name@, data@, *ack),
            PacketData::EventAck(data, ack) => PacketDataView::EventAck(data@, *ack),
            PacketData::BinaryEvent(name, packet, ack) => PacketDataView::BinaryEvent(
                name@,
                packet@,
                *ack,
            ),
            PacketData::BinaryAck(packet, ack) => PacketDataView::BinaryAck(packet@, *ack),
        }
    }
}

impl View for Packet {
    type V = PacketView;

    open spec fn view(&self) -> PacketView {
        PacketView { inner: self.inner@, ns: self.ns@ }
    }
}

/// The arguments as a list: a payload that is a list already stands as it
/// is, an absent one is the empty list, any other is the list of that one
/// value.
pub open spec fn as_list(data: Seq<char>) -> Seq<char> {
    if data.len() > 0 && data[0] == '[' {
        data
    } else if data == seq!['n', 'u', 'l', 'l'] || data.len() == 0 {
        seq!['[', ']']
    } else {
        seq!['['] + data + seq![']']
    }
}

/// What follows the event's name in the body of an event: the list's
/// items behind a comma and the closing bracket, or the bracket alone for
/// the empty list.
pub open spec fn list_tail(list: Seq<char>) -> Seq<char> {
    if list.len() <= 2 {
        seq![']']
    } else {
        seq![','] + list.skip(1)
    }
}

/// The body of an event: the list that opens with the name and goes on with
/// the arguments.
pub open spec fn event_body(name: Seq<char>, data: Seq<char>) -> Seq<char> {
    seq!['['] + json_string(name) + list_tail(as_list(data))
}

/// The body of a refusal: an object that holds the reason as its message.
pub open spec fn error_body(reason: Seq<char>) -> Seq<char> {
    seq!['{', '"', 'm', 'e', 's', 's', 'a', 'g', 'e', '"', ':'] + json_string(reason) + seq!['}']
}

impl PacketDataView {
    /// The digit that opens the textual frame.
    pub open spec fn kind(self) -> char {
        match self {
            PacketDataView::Connect(_) => '0',
            PacketDataView::Disconnect => '1',
            PacketDataView::Event(_, _, _) => '2',
            PacketDataView::EventAck(_, _) => '3',
            PacketDataView::ConnectError(_) => '4',
            PacketDataView::BinaryEvent(_, _, _) => '5',
            PacketDataView::BinaryAck(_, _) => '6',
        }
    }

    /// The announced number of attachments, with its dash, in a binary
    /// packet; nothing in the others.
    pub open spec fn count_part(self) -> Seq<char> {
        match self {
            PacketDataView::BinaryEvent(_, packet, _) => decimal(packet.payload_count).push('-'),
            PacketDataView::BinaryAck(packet, _) => decimal(packet.payload_count).push('-'),
            _ => Seq::empty(),
        }
    }

    /// The acknowledgement id that the packet carries, if any.
    pub open spec fn ack_id(self) -> Option<i64> {
        match self {
            PacketDataView::Event(_, _, ack) => ack,
            PacketDataView::EventAck(_, ack) => Some(ack),
            PacketDataView::BinaryEvent(_, _, ack) => ack,
            PacketDataView::BinaryAck(_, ack) => Some(ack),
            _ => None,
        }
    }

    pub open spec fn ack_part(self) -> Seq<char> {
        match self.ack_id() {
            Some(ack) => decimal_int(ack as int),
            None => Seq::empty(),
        }
    }

    /// The payload as it stands at the end of the textual frame.
    pub open spec fn body(self) -> Seq<char> {
        match self {
            PacketDataView::Connect(None) => Seq::empty(),
            PacketDataView::Connect(Some(auth)) => auth,
            PacketDataView::ConnectError(reason) => error_body(reason),
            PacketDataView::Disconnect => Seq::empty(),
            PacketDataView::Event(name, data, _) => event_body(name, data),
            PacketDataView::EventAck(data, _) => as_list(data),
            PacketDataView::BinaryEvent(name, packet, _) => event_body(name, packet.data),
            PacketDataView::BinaryAck(packet, _) => as_list(packet.data),
        }
    }

    /// The packet with `ack` as the acknowledgement that it asks for. Only
    /// an event can ask for one; any other packet stays as it is.
    pub open spec fn with_ack(self, ack: i64) -> PacketDataView {
        match self {
            PacketDataView::Event(name, data, _) => PacketDataView::Event(name, data, Some(ack)),
            PacketDataView::BinaryEvent(name, packet, _) => PacketDataView::BinaryEvent(
                name,
                packet,
                Some(ack),
            ),
            other => other,
        }
    }

    /// How many attachments are still to come before the packet is whole.
    pub open spec fn missing(self) -> int {
        match self {
            PacketDataView::BinaryEvent(_, packet, _) => packet.payload_count - packet.bin.len(),
            PacketDataView::BinaryAck(packet, _) => packet.payload_count - packet.bin.len(),
            _ => 0,
        }
    }

    /// The packet with one more attachment behind those that it has. A
    /// packet that is not binary has no place for one and stays as it is.
    pub open spec fn with_attachment(self, bytes: Seq<u8>) -> PacketDataView {
        match self {
            PacketDataView::BinaryEvent(name, packet, ack) => PacketDataView::BinaryEvent(
                name,
                BinaryPacketView { bin: packet.bin.push(bytes), ..packet },
                ack,
            ),
            PacketDataView::BinaryAck(packet, ack) => PacketDataView::BinaryAck(
                BinaryPacketView { bin: packet.bin.push(bytes), ..packet },
                ack,
            ),
            other => other,
        }
    }

    /// The attachments, in wire order.
    pub open spec fn attachments(self) -> Seq<Seq<u8>> {
        match self {
            PacketDataView::BinaryEvent(_, packet, _) => packet.bin,
            PacketDataView::BinaryAck(packet, _) => packet.bin,
            _ => Seq::empty(),
        }
    }
}

/// The namespace as the textual frame names it: the main namespace is left
/// out, any other stands before a comma.
pub open spec fn ns_part(ns: Seq<char>) -> Seq<char> {
    if ns.len() == 0 || ns == seq!['/'] {
        Seq::empty()
    } else {
        ns.push(',')
    }
}

/// The payload of an accepted connect: an object that holds the
/// connection's id as text.
pub open spec fn connect_body(sid: i64) -> Seq<char> {
    seq!['{', '"', 's', 'i', 'd', '"', ':', '"'] + decimal_int(sid as int) + seq!['"', '}']
}

/// The reason given for refusing a namespace that is not served.
pub open spec fn invalid_namespace_reason() -> Seq<char> {
    "Invalid namespace"@
}

/// One binary frame for each attachment, in the same order.
pub open spec fn binary_frames(bin: Seq<Seq<u8>>) -> Seq<FrameView> {
    bin.map_values(|b: Seq<u8>| FrameView::Binary(b))
}

impl PacketView {
    /// The textual frame: kind, attachment count, namespace, acknowledgement
    /// id, payload.
    pub open spec fn text(self) -> Seq<char> {
        seq![self.inner.kind()] + self.inner.count_part() + ns_part(self.ns)
            + self.inner.ack_part() + self.inner.body()
    }

    /// The frames of the packet in wire order: the textual frame, then each
    /// attachment as a binary frame.
    pub open spec fn frames(self) -> Seq<FrameView> {
        seq![FrameView::Text(self.text())] + binary_frames(self.inner.attachments())
    }
}

fn push_list(out: &mut String, data: &String)
    ensures
        final(out)@ == old(out)@ + as_list(data@),
{
    proof {
        reveal_strlit("null");
        reveal_strlit("[]");
        reveal_strlit("[");
        reveal_strlit("]");
    }
    let len = data.as_str().unicode_len();
    if len > 0 && data.as_str().get_char(0) == '[' {
        out.append(data.as_str());
    } else if len == 0 || same_text(data.as_str(), "null") {
        assert("null"@ =~= seq!['n', 'u', 'l', 'l']);
        out.append("[]");
        assert("[]"@ =~= seq!['[', ']']);
    } else {
        assert("null"@ =~= seq!['n', 'u', 'l', 'l']);
        out.append("[");
        out.append(data.as_str());
        out.append("]");
        assert(final(out)@ =~= old(out)@ + as_list(data@));
    }
}

fn push_event_body(out: &mut String, name: &String, data: &String) -> (r: Result<
    (),
    serde_json::Error,
>)
    ensures
        r is Ok,
        final(out)@ == old(out)@ + event_body(name@, data@),
        faithful(name@),
{
    write_event_body(out, quote(name.as_str()), data)
}

fn push_error_body(out: &mut String, reason: &String) -> (r: Result<(), serde_json::Error>)
    ensures
        r is Ok,
        final(out)@ == old(out)@ + error_body(reason@),
        faithful(reason@),
{
    write_error_body(out, quote(reason.as_str()))
}

/// Writes the body of an event behind `out`, from the codec's answer for
/// the event's name: the list that opens with the literal and goes on with
/// the arguments. Where the codec failed nothing is written, and its error
/// is the result.
pub fn write_event_body(
    out: &mut String,
    quoted: Result<String, serde_json::Error>,
    data: &String,
) -> (r: Result<(), serde_json::Error>)
    ensures
        match quoted {
            Ok(literal) => r is Ok && final(out)@ == old(out)@ + (seq!['['] + literal@ + list_tail(
                as_list(data@),
            )),
            Err(e) => r == Err::<(), serde_json::Error>(e) && final(out)@ == old(out)@,
        },
{
    proof {
        reveal_strlit("[");
        reveal_strlit("]");
        reveal_strlit(",");
    }
    let literal = match quoted {
        Ok(literal) => literal,
        Err(e) => {
            return Err(e);
        },
    };
    let mut list = String::new();
    push_list(&mut list, data);
    assert(list@ =~= as_list(data@));
    out.append("[");
    out.append(literal.as_str());
    let len = list.as_str().unicode_len();
    if len <= 2 {
        out.append("]");
    } else {
        out.append(",");
        out.append(list.as_str().substring_char(1, len));
        assert(list@.subrange(1, len as int) =~= list@.skip(1));
    }
    assert(final(out)@ =~= old(out)@ + (seq!['['] + literal@ + list_tail(as_list(data@))));
    Ok(())
}

/// Writes the body of a refusal behind `out`, from the codec's answer for
/// the reason: an object that holds the literal as its message. Where the
/// codec failed nothing is written, and its error is the result.
pub fn write_error_body(out: &mut String, quoted: Result<String, serde_json::Error>) -> (r: Result<
    (),
    serde_json::Error,
>)
    ensures
        match quoted {
            Ok(literal) => r is Ok && final(out)@ == old(out)@ + (crate::decode::error_prefix()
                + literal@ + seq!['}']),
            Err(e) => r == Err::<(), serde_json::Error>(e) && final(out)@ == old(out)@,
        },
{
    proof {
        reveal_strlit("{\"message\":");
        reveal_strlit("}");
    }
    let literal = match quoted {
        Ok(literal) => literal,
        Err(e) => {
            return Err(e);
        },
    };
    out.append("{\"message\":");
    out.append(literal.as_str());
    out.append("}");
    assert(final(out)@ =~= old(out)@ + (crate::decode::error_prefix() + literal@ + seq!['}']));
    Ok(())
}

fn push_ns(out: &mut String, ns: &String)
    ensures
        final(out)@ == old(out)@ + ns_part(ns@),
{
    proof {
        reveal_strlit("/");
        reveal_strlit(",");
    }
    let len = ns.as_str().unicode_len();
    assert("/"@ =~= seq!['/']);
    if len == 0 || same_text(ns.as_str(), "/") {
        assert(final(out)@ =~= old(out)@ + ns_part(ns@));
    } else {
        out.append(ns.as_str());
        out.append(",");
        assert(final(out)@ =~= old(out)@ + ns_part(ns@));
    }
}

impl PacketData {
    fn kind_str(&self) -> (s: &'static str)
        ensures
            s@ == seq![self@.kind()],
    {
        proof {
            reveal_strlit("0");
            reveal_strlit("1");
            reveal_strlit("2");
            reveal_strlit("3");
            reveal_strlit("4");
            reveal_strlit("5");
            reveal_strlit("6");
        }
        let s = match self {
            PacketData::Connect(_) => "0",
            PacketData::Disconnect => "1",
            PacketData::Event(_, _, _) => "2",
            PacketData::EventAck(_, _) => "3",
            PacketData::ConnectError(_) => "4",
            PacketData::BinaryEvent(_, _, _) => "5",
            PacketData::BinaryAck(_, _) => "6",
        };
        assert(s@ =~= seq![self@.kind()]);
        s
    }

    fn push_count(&self, out: &mut String)
        ensures
            final(out)@ == old(out)@ + self@.count_part(),
    {
        proof {
            reveal_strlit("-");
        }
        match self {
            PacketData::BinaryEvent(_, packet, _) => {
                push_decimal(out, packet.payload_count as u64);
                out.append("-");
                assert(final(out)@ =~= old(out)@ + self@.count_part());
            },
            PacketData::BinaryAck(packet, _) => {
                push_decimal(out, packet.payload_count as u64);
                out.append("-");
                assert(final(out)@ =~= old(out)@ + self@.count_part());
            },
            _ => {
                assert(final(out)@ =~= old(out)@ + self@.count_part());
            },
        }
    }

    /// The acknowledgement id that the packet carries, if any.
    pub fn ack_id(&self) -> (ack: Option<i64>)
        ensures
            ack == self@.ack_id(),
    {
        match self {
            PacketData::Event(_, _, ack) => *ack,
            PacketData::EventAck(_, ack) => Some(*ack),
            PacketData::BinaryEvent(_, _, ack) => *ack,
            PacketData::BinaryAck(_, ack) => Some(*ack),
            _ => None,
        }
    }

    fn push_ack(&self, out: &mut String)
        ensures
            final(out)@ == old(out)@ + self@.ack_part(),
    {
        match self.ack_id() {
            Some(ack) => {
                push_decimal_int(out, ack);
            },
            None => {
                assert(final(out)@ =~= old(out)@ + self@.ack_part());
            },
        }
    }

    fn push_body(&self, out: &mut String) -> (r: Result<(), serde_json::Error>)
        ensures
            r is Ok,
            final(out)@ == old(out)@ + self@.body(),
            self@.names_faithful(),
    {
        match self {
            PacketData::Connect(None) => {
                assert(final(out)@ =~= old(out)@ + self@.body());
                Ok(())
            },
            PacketData::Connect(Some(auth)) => {
                out.append(auth.as_str());
                Ok(())
            },
            PacketData::ConnectError(reason) => push_error_body(out, reason),
            PacketData::Disconnect => {
                assert(final(out)@ =~= old(out)@ + self@.body());
                Ok(())
            },
            PacketData::Event(name, data, _) => push_event_body(out, name, data),
            PacketData::EventAck(data, _) => {
                push_list(out, data);
                Ok(())
            },
            PacketData::BinaryEvent(name, packet, _) => push_event_body(out, name, &packet.data),
            PacketData::BinaryAck(packet, _) => {
                push_list(out, &packet.data);
                Ok(())
            },
        }
    }
}

impl BinaryPacket {
    /// Takes the next attachment, in arrival order.
    pub fn add_payload(&mut self, bytes: Vec<u8>)
        ensures
            final(self)@ == (BinaryPacketView {
                bin: old(self)@.bin.push(bytes@),
                ..old(self)@
            }),
    {
        self.bin.push(bytes);
        assert(attachment_views(self.bin@) =~= attachment_views(old(self).bin@).push(bytes@));
    }
}

impl PacketData {
    /// How many attachments are still to come before the packet is whole:
    /// none, unless the packet is binary and announced more than it has.
    pub fn missing(&self) -> (n: usize)
        ensures
            n == if self@.missing() > 0 {
                self@.missing()
            } else {
                0
            },
    {
        match self {
            PacketData::BinaryEvent(_, packet, _) => if packet.payload_count > packet.bin.len() {
                packet.payload_count - packet.bin.len()
            } else {
                0
            },
            PacketData::BinaryAck(packet, _) => if packet.payload_count > packet.bin.len() {
                packet.payload_count - packet.bin.len()
            } else {
                0
            },
            _ => 0,
        }
    }

    /// Takes the next attachment of a binary packet, in arrival order. A
    /// packet that is not binary drops it.
    pub fn add_payload(&mut self, bytes: Vec<u8>)
        ensures
            final(self)@ == old(self)@.with_attachment(bytes@),
    {
        match self {
            PacketData::BinaryEvent(_, packet, _) => {
                packet.add_payload(bytes);
            },
            PacketData::BinaryAck(packet, _) => {
                packet.add_payload(bytes);
            },
            _ => {},
        }
    }

    /// Sets the acknowledgement id that an event asks for. Any other
    /// packet stays as it is.
    pub fn set_ack_id(&mut self, ack_id: i64)
        ensures
            final(self)@ == old(self)@.with_ack(ack_id),
    {
        match self {
            PacketData::Event(_, _, ack) => {
                *ack = Some(ack_id);
            },
            PacketData::BinaryEvent(_, _, ack) => {
                *ack = Some(ack_id);
            },
            _ => {},
        }
    }
}

impl Packet {
    /// An event named `e` with the arguments `data`, which asks for no
    /// acknowledgement.
    pub fn event(ns: String, e: String, data: String) -> (packet: Packet)
        ensures
            packet@ == (PacketView { inner: PacketDataView::Event(e@, data@, None), ns: ns@ }),
    {
        Packet { inner: PacketData::Event(e, data, None), ns }
    }

    /// An acknowledgement of the request `ack`, with the arguments `data`.
    pub fn ack(ns: String, data: String, ack: i64) -> (packet: Packet)
        ensures
            packet@ == (PacketView { inner: PacketDataView::EventAck(data@, ack), ns: ns@ }),
    {
        Packet { inner: PacketData::EventAck(data, ack), ns }
    }

    /// The acceptance of a connect request, which tells the peer the id of
    /// its connection.
    pub fn connect(ns: String, sid: i64) -> (packet: Packet)
        ensures
            packet@ == (PacketView {
                inner: PacketDataView::Connect(Some(connect_body(sid))),
                ns: ns@,
            }),
    {
        proof {
            reveal_strlit("{\"sid\":\"");
            reveal_strlit("\"}");
        }
        let mut body = String::new();
        body.append("{\"sid\":\"");
        push_decimal_int(&mut body, sid);
        body.append("\"}");
        assert(body@ =~= connect_body(sid));
        Packet { inner: PacketData::Connect(Some(body)), ns }
    }

    /// The refusal of a connect request for a namespace that is not
    /// served.
    pub fn invalid_namespace(ns: String) -> (packet: Packet)
        ensures
            packet@ == (PacketView {
                inner: PacketDataView::ConnectError(invalid_namespace_reason()),
                ns: ns@,
            }),
    {
        Packet {
            inner: PacketData::ConnectError(String::from_str("Invalid namespace")),
            ns,
        }
    }

    /// The notice that the connection to the namespace ends.
    pub fn disconnect(ns: String) -> (packet: Packet)
        ensures
            packet@ == (PacketView { inner: PacketDataView::Disconnect, ns: ns@ }),
    {
        Packet { inner: PacketData::Disconnect, ns }
    }

    /// Writes the textual frame, which never fails. A name that the packet
    /// holds (of an event, the reason of a refusal) goes through the codec,
    /// which reads it as it wrote it.
    pub fn to_text(&self) -> (r: Result<String, serde_json::Error>)
        ensures
            r matches Ok(text) && text@ == self@.text() && self@.inner.names_faithful(),
    {
        let mut out = String::new();
        out.append(self.inner.kind_str());
        self.inner.push_count(&mut out);
        push_ns(&mut out, &self.ns);
        self.inner.push_ack(&mut out);
        match self.inner.push_body(&mut out) {
            Ok(()) => {
                assert(out@ =~= self@.text());
                Ok(out)
            },
            Err(e) => Err(e),
        }
    }

    /// Splits the packet into its frames, in wire order: the textual frame
    /// first, then every attachment as a binary frame of its own. This
    /// never fails. A packet of the shape that the textual frame is read by
    /// comes back from its frames as it went in.
    pub fn encode(self) -> (r: Result<VecDeque<Frame>, serde_json::Error>)
        ensures
            r matches Ok(frames) && {
                &&& frame_views(frames@) == self@.frames()
                &&& frames@.len() == self@.inner.attachments().len() + 1
                &&& frames@[0]@ == FrameView::Text(self@.text())
                &&& self@.framed() ==> self@.reads_back()
            },
    {
        let text = match self.to_text() {
            Ok(text) => text,
            Err(e) => {
                return Err(e);
            },
        };
        let ghost all = self@.inner.attachments();
        let mut bin: Vec<Vec<u8>> = match self.inner {
            PacketData::BinaryEvent(_, packet, _) => packet.bin,
            PacketData::BinaryAck(packet, _) => packet.bin,
            _ => Vec::new(),
        };
        assert(attachment_views(bin@) =~= all);
        let mut frames: VecDeque<Frame> = VecDeque::new();
        while bin.len() > 0
            invariant
                bin@.len() <= all.len(),
                attachment_views(bin@) == all.take(bin@.len() as int),
                frame_views(frames@) == binary_frames(all.skip(bin@.len() as int)),
            decreases bin@.len(),
        {
            let ghost before = bin@;
            let ghost tail = frames@;
            let last = bin.pop().unwrap();
            let ghost last_view = last@;
            frames.push_front(Frame::Binary(last));
            proof {
                let n = bin@.len() as int;
                assert(attachment_views(before)[n] == last_view);
                assert(all.take(n + 1)[n] == all[n]);
                assert(attachment_views(bin@) =~= all.take(n));
                let got = frame_views(frames@);
                let want = binary_frames(all.skip(n));
                assert(frames@.len() == tail.len() + 1);
                assert(frame_views(tail).len() == tail.len());
                assert(binary_frames(all.skip(n + 1)).len() == all.len() - n - 1);
                assert(got.len() == want.len());
                assert forall|i: int| 0 <= i < got.len() implies got[i] == want[i] by {
                    if i > 0 {
                        assert(frames@[i] == tail[i - 1]);
                        assert(frame_views(tail)[i - 1] == binary_frames(all.skip(n + 1))[i - 1]);
                    }
                }
                assert(got =~= want);
            }
        }
        frames.push_front(Frame::Text(text));
        proof {
            assert(all.skip(0) =~= all);
            assert(frame_views(frames@) =~= self@.frames());
            assert(frame_views(frames@).len() == frames@.len());
            assert(frame_views(frames@)[0] == frames@[0]@);
            if self@.framed() {
                lemma_frames_read_back(self@);
            }
        }
        Ok(frames)
    }
}

} // verus!
