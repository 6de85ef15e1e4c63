//! Reading back what was written: a packet that is split into frames and
//! read from them again is the packet that it was.

use crate::decode::{
    announced, digits_end, digits_value, find, parse, parse_ack, parse_count, parse_error_body,
    parse_event_body, parse_inner, parse_ns,
};
use crate::client::{after_frames, on_attachment, on_packet, ClientView, RoutedView};
use crate::errors::ProtocolError;
use crate::json::{faithful, json_string, json_valid, literal_end};
use crate::packet::{
    as_list, error_body, event_body, list_tail, ns_part, PacketDataView, PacketView,
};
use crate::text::{decimal, decimal_int, digit, digit_value, is_digit};
use crate::transport::FrameView;
use vstd::prelude::*;

verus! {

/// The digits of a number are digits, and there is at least one.
proof fn lemma_decimal_is_digits(n: nat)
    ensures
        decimal(n).len() >= 1,
        forall|i: int| 0 <= i < decimal(n).len() ==> is_digit(#[trigger] decimal(n)[i]),
    decreases n,
{
    if n >= 10 {
        lemma_decimal_is_digits(n / 10);
    }
}

/// The number that some digits write depends on those digits alone, not on
/// what stands around them.
proof fn lemma_digits_value_local(s: Seq<char>, a: int, t: Seq<char>, b: int, k: int)
    requires
        0 <= k,
        0 <= a,
        a + k <= s.len(),
        0 <= b,
        b + k <= t.len(),
        forall|i: int| a <= i < a + k ==> #[trigger] s[i] == t[i - a + b],
    ensures
        digits_value(s, a, a + k) == digits_value(t, b, b + k),
    decreases k,
{
    if k > 0 {
        lemma_digits_value_local(s, a, t, b, k - 1);
        assert(s[a + k - 1] == t[a + k - 1 - a + b]);
    }
}

/// Reading the digits of a number gives the number.
proof fn lemma_decimal_value(n: nat)
    ensures
        digits_value(decimal(n), 0, decimal(n).len() as int) == n,
    decreases n,
{
    let d = decimal(n);
    if n >= 10 {
        let front = decimal(n / 10);
        lemma_decimal_value(n / 10);
        lemma_decimal_is_digits(n / 10);
        assert(d == front.push(digit((n % 10) as int)));
        lemma_digits_value_local(d, 0, front, 0, front.len() as int);
        assert(digit_value(digit((n % 10) as int)) == Some((n % 10) as int));
    } else {
        assert(digit_value(digit(n as int)) == Some(n as int));
        assert(digits_value(d, 0, 0) == 0);
    }
}

/// Where the digits of a number stand in a text, and no digit follows
/// them, reading digits from their first position ends behind their last
/// and gives the number.
proof fn lemma_read_decimal(pre: Seq<char>, n: nat, post: Seq<char>)
    requires
        post.len() == 0 || !is_digit(post[0]),
    ensures
        digits_end(pre + decimal(n) + post, pre.len() as int) == pre.len() + decimal(n).len(),
        digits_value(
            pre + decimal(n) + post,
            pre.len() as int,
            (pre.len() + decimal(n).len()) as int,
        ) == n,
{
    let d = decimal(n);
    let s = pre + d + post;
    let a = pre.len() as int;
    let k = d.len() as int;
    lemma_decimal_is_digits(n);
    lemma_decimal_value(n);
    assert forall|i: int| a <= i < a + k implies #[trigger] s[i] == d[i - a + 0] by {}
    lemma_digits_value_local(s, a, d, 0, k);
    lemma_digits_run(s, a, a + k);
}

/// Digits from `from` up to `to`, and none at `to`: there the digits end.
proof fn lemma_digits_run(s: Seq<char>, from: int, to: int)
    requires
        0 <= from <= to <= s.len(),
        forall|i: int| from <= i < to ==> is_digit(s[i]),
        to == s.len() || !is_digit(s[to]),
    ensures
        digits_end(s, from) == to,
    decreases to - from,
{
    if from < to {
        lemma_digits_run(s, from + 1, to);
    }
}

/// The first `c` behind `from` is found where it stands.
proof fn lemma_find_first(s: Seq<char>, c: char, from: int, at: int)
    requires
        0 <= from <= at < s.len(),
        s[at] == c,
        forall|i: int| from <= i < at ==> s[i] != c,
    ensures
        find(s, c, from) == Some(at),
    decreases at - from,
{
    if from < at {
        lemma_find_first(s, c, from + 1, at);
    }
}

/// A string literal that stands in a text at `a` closes there where it
/// closes by itself.
proof fn lemma_literal_embedded(s: Seq<char>, a: int, lit: Seq<char>, k: int)
    requires
        0 <= a,
        a + lit.len() <= s.len(),
        forall|i: int| 0 <= i < lit.len() ==> #[trigger] lit[i] == s[i + a],
        0 <= k,
        literal_end(lit, k) == Some(lit.len() - 1),
    ensures
        literal_end(s, a + k) == Some(a + lit.len() - 1),
    decreases lit.len() - k,
{
    assert(k < lit.len());
    assert(lit[k] == s[k + a]);
    if lit[k] == '"' {
    } else if lit[k] == '\\' {
        lemma_literal_embedded(s, a, lit, k + 2);
    } else {
        lemma_literal_embedded(s, a, lit, k + 1);
    }
}

/// A namespace that the textual frame can name: it opens with a slash and
/// holds no comma.
pub open spec fn framed_ns(ns: Seq<char>) -> bool {
    ns.len() >= 1 && ns[0] == '/' && forall|i: int| 0 <= i < ns.len() ==> ns[i] != ','
}

/// Arguments that open and close as a list.
pub open spec fn framed_list(data: Seq<char>) -> bool {
    data.len() >= 2 && data[0] == '[' && data.last() == ']'
}

/// An auth payload that opens and closes as an object.
pub open spec fn framed_auth(auth: Seq<char>) -> bool {
    auth.len() >= 2 && auth[0] == '{' && auth.last() == '}'
}

impl PacketDataView {
    /// The packet as its textual frame alone gives it: with the announced
    /// number of attachments, and none of them.
    pub open spec fn bare(self) -> PacketDataView {
        match self {
            PacketDataView::BinaryEvent(name, packet, ack) => PacketDataView::BinaryEvent(
                name,
                announced(packet.data, packet.payload_count),
                ack,
            ),
            PacketDataView::BinaryAck(packet, ack) => PacketDataView::BinaryAck(
                announced(packet.data, packet.payload_count),
                ack,
            ),
            other => other,
        }
    }

    /// The packet with the attachments `bin` behind those that it has, one
    /// after the other.
    pub open spec fn with_attachments(self, bin: Seq<Seq<u8>>) -> PacketDataView
        decreases bin.len(),
    {
        if bin.len() == 0 {
            self
        } else {
            self.with_attachments(bin.drop_last()).with_attachment(bin.last())
        }
    }

    /// The payload has the shape that the textual frame is read by, the
    /// codec reads it as a value where it stands in the frame, and a binary
    /// packet holds as many attachments as it announces.
    pub open spec fn framed(self) -> bool {
        match self {
            PacketDataView::Connect(None) => true,
            PacketDataView::Connect(Some(auth)) => framed_auth(auth) && json_valid(auth),
            PacketDataView::ConnectError(_) => true,
            PacketDataView::Disconnect => true,
            PacketDataView::Event(name, data, _) => framed_list(data) && json_valid(
                event_body(name, data),
            ),
            PacketDataView::EventAck(data, _) => framed_list(data) && json_valid(data),
            PacketDataView::BinaryEvent(name, packet, _) => framed_list(packet.data) && json_valid(
                event_body(name, packet.data),
            ) && packet.bin.len() == packet.payload_count <= usize::MAX,
            PacketDataView::BinaryAck(packet, _) => framed_list(packet.data) && json_valid(
                packet.data,
            ) && packet.bin.len() == packet.payload_count <= usize::MAX,
        }
    }

    /// The codec reads the name that the packet holds, if it holds one, as
    /// it wrote it.
    pub open spec fn names_faithful(self) -> bool {
        match self {
            PacketDataView::Event(name, _, _) => faithful(name),
            PacketDataView::BinaryEvent(name, _, _) => faithful(name),
            PacketDataView::ConnectError(reason) => faithful(reason),
            _ => true,
        }
    }
}

impl PacketView {
    /// The packet can be told from its frames.
    pub open spec fn framed(self) -> bool {
        framed_ns(self.ns) && self.inner.framed()
    }

    /// Reading the textual frame gives the packet without its attachments,
    /// and taking the attachments one by one, as the binary frames bring
    /// them, gives the packet.
    pub open spec fn reads_back(self) -> bool {
        &&& parse(self.text()) == Ok::<PacketView, ProtocolError>(
            PacketView { inner: self.inner.bare(), ns: self.ns },
        )
        &&& self.inner.bare().with_attachments(self.inner.attachments()) == self.inner
    }
}

/// The announced number of attachments is read as it was written.
proof fn lemma_count_read(inner: PacketDataView, rest: Seq<char>)
    requires
        inner.framed(),
    ensures
        parse_count(
            seq![inner.kind()] + inner.count_part() + rest,
            inner.kind() == '5' || inner.kind() == '6',
        ) == Some((inner.attachments().len(), (1 + inner.count_part().len()) as int)),
{
    let s = seq![inner.kind()] + inner.count_part() + rest;
    if inner.kind() == '5' || inner.kind() == '6' {
        let n = inner.attachments().len();
        assert(inner.count_part() == decimal(n).push('-'));
        assert(s =~= seq![inner.kind()] + decimal(n) + (seq!['-'] + rest));
        lemma_read_decimal(seq![inner.kind()], n, seq!['-'] + rest);
        lemma_decimal_is_digits(n);
        assert(s[1 + decimal(n).len() as int] == '-');
    }
}

/// The namespace is read as it was written.
proof fn lemma_ns_read(pre: Seq<char>, ns: Seq<char>, rest: Seq<char>)
    requires
        framed_ns(ns),
        rest.len() == 0 || rest[0] != '/',
    ensures
        parse_ns(pre + ns_part(ns) + rest, pre.len() as int) == Some(
            (ns, (pre.len() + ns_part(ns).len()) as int),
        ),
{
    let s = pre + ns_part(ns) + rest;
    let at = pre.len() as int;
    if ns == seq!['/'] {
        assert(s =~= pre + rest);
    } else {
        assert(ns_part(ns) == ns.push(','));
        let comma = at + ns.len();
        assert(s[at] == ns[0]);
        assert(s[comma] == ',');
        assert forall|i: int| at <= i < comma implies s[i] != ',' by {
            assert(s[i] == ns[i - at]);
        }
        lemma_find_first(s, ',', at, comma);
        assert(s.subrange(at, comma) =~= ns);
    }
}

/// The acknowledgement id as the textual frame writes it.
pub open spec fn ack_text(ack: Option<i64>) -> Seq<char> {
    match ack {
        Some(id) => decimal_int(id as int),
        None => Seq::empty(),
    }
}

/// The acknowledgement id is read as it was written.
proof fn lemma_ack_read(pre: Seq<char>, ack: Option<i64>, rest: Seq<char>)
    requires
        rest.len() == 0 || (!is_digit(rest[0]) && rest[0] != '-'),
    ensures
        parse_ack(pre + ack_text(ack) + rest, pre.len() as int) == Some(
            (ack, (pre.len() + ack_text(ack).len()) as int),
        ),
{
    let s = pre + ack_text(ack) + rest;
    let at = pre.len() as int;
    match ack {
        None => {
            assert(s =~= pre + rest);
        },
        Some(id) => {
            if id >= 0 {
                let n = id as nat;
                lemma_decimal_is_digits(n);
                lemma_read_decimal(pre, n, rest);
                assert(s[at] == decimal(n)[0]);
                assert(is_digit(s[at]));
            } else {
                let n = (-id) as nat;
                lemma_decimal_is_digits(n);
                assert(s =~= pre.push('-') + decimal(n) + rest);
                lemma_read_decimal(pre.push('-'), n, rest);
                assert(s[at] == '-');
            }
        },
    }
}

/// The body of an event is read as it was written.
proof fn lemma_event_body_read(name: Seq<char>, data: Seq<char>)
    requires
        faithful(name),
        framed_list(data),
        json_valid(event_body(name, data)),
    ensures
        parse_event_body(event_body(name, data)) == Some((name, data)),
{
    let lit = json_string(name);
    let tail = list_tail(as_list(data));
    let body = event_body(name, data);
    assert(as_list(data) == data);
    assert(body == seq!['['] + lit + tail);
    assert(body.len() == 1 + lit.len() + tail.len());
    assert(body[1] == lit[0]);
    assert(body.last() == tail.last());
    assert forall|i: int| 0 <= i < lit.len() implies #[trigger] lit[i] == body[i + 1] by {}
    lemma_literal_embedded(body, 1, lit, 1);
    let end = lit.len() as int;
    assert(body.subrange(1, end + 1) =~= lit);
    if data.len() <= 2 {
        assert(data =~= seq!['[', ']']);
    } else {
        assert(body[end + 1] == tail[0]);
        assert(seq!['['] + body.skip(end + 2) =~= data);
    }
}

/// The body of a refusal is read as it was written.
proof fn lemma_error_body_read(reason: Seq<char>)
    requires
        faithful(reason),
    ensures
        parse_error_body(error_body(reason)) == Some(reason),
{
    let lit = json_string(reason);
    let body = error_body(reason);
    let prefix = crate::decode::error_prefix();
    assert(body == prefix + lit + seq!['}']);
    assert(body.len() == 11 + lit.len() + 1);
    assert(body.subrange(0, 11) =~= prefix);
    assert(body[11] == lit[0]);
    assert forall|i: int| 0 <= i < lit.len() implies #[trigger] lit[i] == body[i + 11] by {}
    lemma_literal_embedded(body, 11, lit, 1);
    let end = 11 + lit.len() - 1;
    assert(body[end + 1] == '}');
    assert(body.subrange(11, end + 1) =~= lit);
}

/// The payload is read as it was written.
proof fn lemma_inner_read(inner: PacketDataView)
    requires
        inner.framed(),
        inner.names_faithful(),
    ensures
        parse_inner(inner.kind(), inner.attachments().len(), inner.ack_id(), inner.body()) == Some(
            inner.bare(),
        ),
{
    match inner {
        PacketDataView::Event(name, data, _) => {
            lemma_event_body_read(name, data);
        },
        PacketDataView::BinaryEvent(name, packet, _) => {
            lemma_event_body_read(name, packet.data);
        },
        PacketDataView::ConnectError(reason) => {
            lemma_error_body_read(reason);
        },
        _ => {},
    }
}

/// What a payload opens with is no digit, no dash and no slash.
proof fn lemma_body_opens(inner: PacketDataView)
    requires
        inner.framed(),
    ensures
        inner.body().len() == 0 || inner.body()[0] == '[' || inner.body()[0] == '{',
{
}

/// The textual frame of a packet is read as the packet, still without its
/// attachments.
proof fn lemma_text_read_back(p: PacketView)
    requires
        p.framed(),
        p.inner.names_faithful(),
    ensures
        parse(p.text()) == Ok::<PacketView, ProtocolError>(
            PacketView { inner: p.inner.bare(), ns: p.ns },
        ),
{
    let inner = p.inner;
    let k = seq![inner.kind()];
    let c = inner.count_part();
    let n = ns_part(p.ns);
    let a = inner.ack_part();
    let b = inner.body();
    let s = p.text();
    lemma_body_opens(inner);
    assert(a == ack_text(inner.ack_id()));
    match inner.ack_id() {
        Some(id) => {
            if id >= 0 {
                lemma_decimal_is_digits(id as nat);
            } else {
                lemma_decimal_is_digits((-id) as nat);
            }
            assert(is_digit(a[0]) || a[0] == '-');
        },
        None => {},
    }
    assert(s =~= k + c + (n + a + b));
    lemma_count_read(inner, n + a + b);
    let at_ns = 1 + c.len() as int;
    assert(s =~= (k + c) + n + (a + b));
    lemma_ns_read(k + c, p.ns, a + b);
    let at_ack = at_ns + n.len();
    assert(s =~= (k + c + n) + a + b);
    lemma_ack_read(k + c + n, inner.ack_id(), b);
    let at_body = at_ack + a.len();
    assert(s.skip(at_body) =~= b);
    lemma_inner_read(inner);
}

/// The attachments come back in their order.
proof fn lemma_attachments_come_back(inner: PacketDataView, k: int)
    requires
        0 <= k <= inner.attachments().len(),
    ensures
        inner.bare().with_attachments(inner.attachments().take(k)).attachments()
            == inner.attachments().take(k),
        inner.bare().with_attachments(inner.attachments().take(k)).bare() == inner.bare(),
    decreases k,
{
    let all = inner.attachments();
    if k > 0 {
        lemma_attachments_come_back(inner, k - 1);
        assert(all.take(k).drop_last() =~= all.take(k - 1));
        assert(all.take(k - 1).push(all[k - 1]) =~= all.take(k));
    } else {
        assert(inner.bare().attachments() =~= all.take(0));
    }
}

/// A packet of `N` attachments makes `N + 1` frames, the textual one first
/// and the attachments behind it in their order. Reading the textual frame
/// and then taking the attachments one by one, as they come, gives the
/// packet again.
pub proof fn lemma_frames_read_back(p: PacketView)
    requires
        p.framed(),
        p.inner.names_faithful(),
    ensures
        p.frames().len() == p.inner.attachments().len() + 1,
        p.frames()[0] == FrameView::Text(p.text()),
        forall|i: int|
            0 <= i < p.inner.attachments().len() ==> p.frames()[i + 1] == FrameView::Binary(
                #[trigger] p.inner.attachments()[i],
            ),
        p.reads_back(),
{
    let all = p.inner.attachments();
    lemma_text_read_back(p);
    lemma_attachments_come_back(p.inner, all.len() as int);
    assert(all.take(all.len() as int) =~= all);
    let back = p.inner.bare().with_attachments(all);
    match p.inner {
        PacketDataView::BinaryEvent(_, packet, _) => {
            assert(back == p.inner);
        },
        PacketDataView::BinaryAck(packet, _) => {
            assert(back == p.inner);
        },
        _ => {
            assert(all.len() == 0);
        },
    }
}

/// A packet that takes attachments, or has none.
pub open spec fn for_a_connection(inner: PacketDataView) -> bool {
    inner is Event || inner is EventAck || inner is BinaryEvent || inner is BinaryAck
}

/// While attachments are still to come the dispatcher waits, and holds
/// the packet with those that came.
proof fn lemma_attachments_are_awaited<C>(state: ClientView<C>, sid: i64, p: PacketView, k: int)
    requires
        p.reads_back(),
        p.inner.missing() == 0,
        !state.awaiting.contains_key(sid),
        0 <= k < p.inner.attachments().len(),
    ensures
        after_frames(state, sid, parse(p.text()), p.inner.attachments().take(k)) == (
            ClientView {
                awaiting: state.awaiting.insert(
                    sid,
                    PacketView {
                        inner: p.inner.bare().with_attachments(p.inner.attachments().take(k)),
                        ns: p.ns,
                    },
                ),
                ..state
            },
            RoutedView::<C>::Awaiting,
        ),
    decreases k,
{
    let all = p.inner.attachments();
    let bare = p.inner.bare();
    lemma_attachments_come_back(p.inner, k);
    let held = bare.with_attachments(all.take(k));
    assert(held.missing() == all.len() - k);
    if k == 0 {
        assert(all.take(0).len() == 0);
    } else {
        lemma_attachments_are_awaited(state, sid, p, k - 1);
        assert(all.take(k).drop_last() =~= all.take(k - 1));
        assert(all.take(k).last() == all[k - 1]);
        let before = state.awaiting.insert(
            sid,
            PacketView { inner: bare.with_attachments(all.take(k - 1)), ns: p.ns },
        );
        assert(before.insert(sid, PacketView { inner: held, ns: p.ns }) =~= state.awaiting.insert(
            sid,
            PacketView { inner: held, ns: p.ns },
        ));
    }
}

/// What a connection sends reaches the peer's connection as it was sent.
/// Where the frames of a packet come in, the textual frame and then the
/// attachments in their order, from a peer that is connected to the
/// packet's namespace and has no other packet waiting, the dispatcher
/// hands on that packet, with its namespace, name, arguments,
/// acknowledgement id and every attachment in its place, and knows what it
/// knew before.
pub proof fn lemma_frames_reach_the_connection<C>(state: ClientView<C>, sid: i64, p: PacketView)
    requires
        p.reads_back(),
        p.inner.missing() == 0,
        for_a_connection(p.inner),
        state.connections.contains((p.ns, sid)),
        !state.awaiting.contains_key(sid),
    ensures
        after_frames(state, sid, parse(p.text()), p.inner.attachments()) == (
            state,
            RoutedView::<C>::Forward { ns: p.ns, packet: p.inner },
        ),
{
    let all = p.inner.attachments();
    let n = all.len() as int;
    if n > 0 {
        lemma_attachments_are_awaited(state, sid, p, n - 1);
        lemma_attachments_come_back(p.inner, n);
        assert(all.take(n) =~= all);
        assert(all.drop_last() =~= all.take(n - 1));
        let held = PacketView { inner: p.inner.bare().with_attachments(all.take(n - 1)), ns: p.ns };
        assert(state.awaiting.insert(sid, held).remove(sid) =~= state.awaiting);
    }
}

} // verus!
