//! Reading a textual frame back into a packet.
//!
//! The frame is read from left to right: the kind, for a binary packet the
//! number of attachments before a dash, the namespace before a comma where
//! it is not the main one, the acknowledgement id, and the payload. The
//! payload has to be a value of the codec and is otherwise framed, not
//! interpreted: a list has to open and close as one, an event's list has
//! to open with the name as a string literal.

use crate::errors::ProtocolError;
use crate::json::{is_json, json_string_value, json_valid, literal_end, unquote};
use crate::packet::{BinaryPacket, BinaryPacketView, Packet, PacketData, PacketDataView, PacketView};
use crate::text::{digit_value, is_digit};
use vstd::prelude::*;
use vstd::string::*;

verus! {

/// The first position at or behind `from` that holds no digit.
pub open spec fn digits_end(s: Seq<char>, from: int) -> int
    decreases s.len() - from,
{
    if 0 <= from < s.len() && is_digit(s[from]) {
        digits_end(s, from + 1)
    } else {
        from
    }
}

/// The number that the digits from `from` up to `to` write.
pub open spec fn digits_value(s: Seq<char>, from: int, to: int) -> nat
    decreases to - from,
{
    if to <= from {
        0
    } else {
        digits_value(s, from, to - 1) * 10 + digit_value(s[to - 1]).unwrap() as nat
    }
}

/// The first position at or behind `from` that holds `c`.
pub open spec fn find(s: Seq<char>, c: char, from: int) -> Option<int>
    decreases s.len() - from,
{
    if from < 0 || from >= s.len() {
        None
    } else if s[from] == c {
        Some(from)
    } else {
        find(s, c, from + 1)
    }
}

/// The announced number of attachments of a binary packet, and where the
/// frame goes on behind its dash. Any other packet announces none.
pub open spec fn parse_count(s: Seq<char>, binary: bool) -> Option<(nat, int)> {
    if !binary {
        Some((0, 1))
    } else {
        let end = digits_end(s, 1);
        if end == 1 || end >= s.len() || s[end] != '-' || digits_value(s, 1, end) > usize::MAX {
            None
        } else {
            Some((digits_value(s, 1, end), end + 1))
        }
    }
}

/// The namespace, and where the frame goes on behind it: a path that opens
/// with a slash and ends before a comma, or the main namespace where none
/// is written.
pub open spec fn parse_ns(s: Seq<char>, at: int) -> Option<(Seq<char>, int)> {
    if at < s.len() && s[at] == '/' {
        match find(s, ',', at) {
            Some(comma) => Some((s.subrange(at, comma), comma + 1)),
            None => None,
        }
    } else {
        Some((seq!['/'], at))
    }
}

/// The acknowledgement id, if digits stand at `at`, and where the frame
/// goes on behind it.
pub open spec fn parse_ack(s: Seq<char>, at: int) -> Option<(Option<i64>, int)> {
    let negative = 0 <= at < s.len() && s[at] == '-';
    let start = if negative {
        at + 1
    } else {
        at
    };
    let end = digits_end(s, start);
    if end == start {
        if negative {
            None
        } else {
            Some((None, at))
        }
    } else {
        let magnitude = digits_value(s, start, end);
        let value = if negative {
            -magnitude
        } else {
            magnitude as int
        };
        if i64::MIN <= value <= i64::MAX {
            Some((Some(value as i64), end))
        } else {
            None
        }
    }
}

/// A payload that opens and closes as a list, and that the codec reads as
/// a value.
pub open spec fn parse_list(body: Seq<char>) -> Option<Seq<char>> {
    if body.len() >= 2 && body[0] == '[' && body.last() == ']' && json_valid(body) {
        Some(body)
    } else {
        None
    }
}

/// The name and the arguments of an event's payload: a list that the
/// codec reads as a value and that opens with the name as a string
/// literal. The arguments are the list without the name.
pub open spec fn parse_event_body(body: Seq<char>) -> Option<(Seq<char>, Seq<char>)> {
    if body.len() < 4 || body[0] != '[' || body[1] != '"' || body.last() != ']' || !json_valid(
        body,
    ) {
        None
    } else {
        match literal_end(body, 2) {
            None => None,
            Some(end) => match json_string_value(body.subrange(1, end + 1)) {
                None => None,
                Some(name) => if end + 2 == body.len() {
                    Some((name, seq!['[', ']']))
                } else if body[end + 1] == ',' {
                    Some((name, seq!['['] + body.skip(end + 2)))
                } else {
                    None
                },
            },
        }
    }
}

/// What opens the payload of a refusal.
pub open spec fn error_prefix() -> Seq<char> {
    seq!['{', '"', 'm', 'e', 's', 's', 'a', 'g', 'e', '"', ':']
}

/// The reason in the payload of a refusal.
pub open spec fn parse_error_body(body: Seq<char>) -> Option<Seq<char>> {
    if body.len() < 14 || body.subrange(0, 11) != error_prefix() || body[11] != '"' {
        None
    } else {
        match literal_end(body, 12) {
            None => None,
            Some(end) => if end + 2 != body.len() || body[end + 1] != '}' {
                None
            } else {
                json_string_value(body.subrange(11, end + 1))
            },
        }
    }
}

/// The auth payload of a connect request: none, or one that opens and
/// closes as an object and that the codec reads as a value.
pub open spec fn parse_auth(body: Seq<char>) -> Option<Option<Seq<char>>> {
    if body.len() == 0 {
        Some(None)
    } else if body[0] == '{' && body.last() == '}' && json_valid(body) {
        Some(Some(body))
    } else {
        None
    }
}

/// A binary payload as the textual frame gives it: the arguments and the
/// announced number of attachments, none of which is here yet.
pub open spec fn announced(data: Seq<char>, count: nat) -> BinaryPacketView {
    BinaryPacketView { data, bin: Seq::empty(), payload_count: count }
}

/// What a packet of the kind `kind` says, from the parts of its frame.
pub open spec fn parse_inner(kind: char, count: nat, ack: Option<i64>, body: Seq<char>) -> Option<
    PacketDataView,
> {
    if kind == '0' {
        match parse_auth(body) {
            Some(auth) => Some(PacketDataView::Connect(auth)),
            None => None,
        }
    } else if kind == '1' {
        if body.len() == 0 {
            Some(PacketDataView::Disconnect)
        } else {
            None
        }
    } else if kind == '2' {
        match parse_event_body(body) {
            Some((name, data)) => Some(PacketDataView::Event(name, data, ack)),
            None => None,
        }
    } else if kind == '3' {
        match (ack, parse_list(body)) {
            (Some(id), Some(data)) => Some(PacketDataView::EventAck(data, id)),
            _ => None,
        }
    } else if kind == '4' {
        match parse_error_body(body) {
            Some(reason) => Some(PacketDataView::ConnectError(reason)),
            None => None,
        }
    } else if kind == '5' {
        match parse_event_body(body) {
            Some((name, data)) => Some(
                PacketDataView::BinaryEvent(name, announced(data, count), ack),
            ),
            None => None,
        }
    } else if kind == '6' {
        match (ack, parse_list(body)) {
            (Some(id), Some(data)) => Some(PacketDataView::BinaryAck(announced(data, count), id)),
            _ => None,
        }
    } else {
        None
    }
}

/// Whether a packet of the kind `kind` can carry an acknowledgement id.
pub open spec fn takes_ack(kind: char) -> bool {
    kind == '2' || kind == '3' || kind == '5' || kind == '6'
}

/// The packet that a textual frame writes, if it writes one.
pub open spec fn parse_packet(s: Seq<char>) -> Option<PacketView> {
    if s.len() == 0 {
        None
    } else {
        let kind = s[0];
        match parse_count(s, kind == '5' || kind == '6') {
            None => None,
            Some((count, at_ns)) => match parse_ns(s, at_ns) {
                None => None,
                Some((ns, at_ack)) => match (if takes_ack(kind) {
                    parse_ack(s, at_ack)
                } else {
                    Some((None, at_ack))
                }) {
                    None => None,
                    Some((ack, at_body)) => match parse_inner(kind, count, ack, s.skip(at_body)) {
                        None => None,
                        Some(inner) => Some(PacketView { inner, ns }),
                    },
                },
            },
        }
    }
}

/// The packet that a textual frame writes, or `Malformed`.
pub open spec fn parse(s: Seq<char>) -> Result<PacketView, ProtocolError> {
    match parse_packet(s) {
        Some(packet) => Ok(packet),
        None => Err(ProtocolError::Malformed),
    }
}

/// Adding digits never makes the number smaller.
proof fn lemma_digits_value_grows(s: Seq<char>, from: int, mid: int, to: int)
    requires
        from <= mid <= to,
    ensures
        digits_value(s, from, mid) <= digits_value(s, from, to),
    decreases to - mid,
{
    if mid < to {
        lemma_digits_value_grows(s, from, mid, to - 1);
    }
}

/// Where the digits end does not depend on where the scan began among
/// them.
proof fn lemma_digits_end_from(s: Seq<char>, from: int, at: int)
    requires
        0 <= from <= at <= s.len(),
        forall|i: int| from <= i < at ==> is_digit(s[i]),
    ensures
        digits_end(s, from) == digits_end(s, at),
    decreases at - from,
{
    if from < at {
        lemma_digits_end_from(s, from + 1, at);
    }
}

fn char_digit(c: char) -> (d: Option<u64>)
    ensures
        match d {
            Some(d) => digit_value(c) == Some(d as int) && d < 10,
            None => digit_value(c).is_none(),
        },
{
    if c == '0' {
        Some(0)
    } else if c == '1' {
        Some(1)
    } else if c == '2' {
        Some(2)
    } else if c == '3' {
        Some(3)
    } else if c == '4' {
        Some(4)
    } else if c == '5' {
        Some(5)
    } else if c == '6' {
        Some(6)
    } else if c == '7' {
        Some(7)
    } else if c == '8' {
        Some(8)
    } else if c == '9' {
        Some(9)
    } else {
        None
    }
}

/// Reads the digits that stand at `from`: where they end, and the number
/// that they write, unless it is larger than `limit`.
fn scan_digits(s: &str, len: usize, from: usize, limit: u64) -> (r: (usize, Option<u64>))
    requires
        len == s@.len(),
        from <= len,
    ensures
        r.0 == digits_end(s@, from as int),
        from <= r.0 <= len,
        match r.1 {
            Some(value) => value == digits_value(s@, from as int, r.0 as int) && value <= limit,
            None => digits_value(s@, from as int, r.0 as int) > limit,
        },
{
    let mut at: usize = from;
    let mut value: u64 = 0;
    let mut fits = true;
    let mut scanning = true;
    while scanning && at < len
        invariant
            len == s@.len(),
            from <= at <= len,
            forall|i: int| from <= i < at ==> is_digit(s@[i]),
            !scanning ==> at < len && !is_digit(s@[at as int]),
            fits ==> value == digits_value(s@, from as int, at as int) && value <= limit,
            !fits ==> digits_value(s@, from as int, at as int) > limit,
        decreases len - at + if scanning { 1int } else { 0int },
    {
        match char_digit(s.get_char(at)) {
            None => {
                scanning = false;
            },
            Some(digit) => {
                if fits {
                    if digit > limit || value > (limit - digit) / 10 {
                        fits = false;
                        assert(digits_value(s@, from as int, at + 1) > limit) by {
                            assert(digits_value(s@, from as int, at + 1) == value * 10 + digit);
                        }
                    } else {
                        value = value * 10 + digit;
                    }
                } else {
                    proof {
                        lemma_digits_value_grows(s@, from as int, at as int, at + 1);
                    }
                }
                at += 1;
            },
        }
    }
    proof {
        lemma_digits_end_from(s@, from as int, at as int);
    }
    if fits {
        (at, Some(value))
    } else {
        (at, None)
    }
}

/// Finds the first `c` at or behind `from`.
fn scan_for(s: &str, len: usize, c: char, from: usize) -> (r: Option<usize>)
    requires
        len == s@.len(),
        from <= len,
    ensures
        match r {
            Some(at) => find(s@, c, from as int) == Some(at as int) && from <= at < len,
            None => find(s@, c, from as int).is_none(),
        },
{
    let mut at: usize = from;
    while at < len
        invariant
            len == s@.len(),
            from <= at <= len,
            find(s@, c, from as int) == find(s@, c, at as int),
        decreases len - at,
    {
        if s.get_char(at) == c {
            return Some(at);
        }
        at += 1;
    }
    None
}

/// Finds the quote that closes the string literal whose text begins at
/// `from`.
fn scan_literal(s: &str, len: usize, from: usize) -> (r: Option<usize>)
    requires
        len == s@.len(),
        from <= len,
    ensures
        match r {
            Some(at) => literal_end(s@, from as int) == Some(at as int) && from <= at < len
                && s@[at as int] == '"',
            None => literal_end(s@, from as int).is_none(),
        },
{
    let mut at: usize = from;
    while at < len
        invariant
            len == s@.len(),
            from <= at <= len,
            literal_end(s@, from as int) == literal_end(s@, at as int),
        decreases len - at,
    {
        let c = s.get_char(at);
        if c == '"' {
            return Some(at);
        } else if c == '\\' {
            if at + 1 >= len {
                return None;
            }
            at += 2;
        } else {
            at += 1;
        }
    }
    None
}

fn read_count(s: &str, len: usize, binary: bool) -> (r: Option<(usize, usize)>)
    requires
        len == s@.len(),
        len >= 1,
    ensures
        match r {
            Some((count, at)) => parse_count(s@, binary) == Some((count as nat, at as int)) && 1
                <= at <= len,
            None => parse_count(s@, binary).is_none(),
        },
{
    if !binary {
        return Some((0, 1));
    }
    let (end, value) = scan_digits(s, len, 1, usize::MAX as u64);
    if end == 1 || end >= len || s.get_char(end) != '-' {
        return None;
    }
    match value {
        Some(count) => Some((count as usize, end + 1)),
        None => None,
    }
}

fn read_ns(s: &str, len: usize, at: usize) -> (r: Option<(String, usize)>)
    requires
        len == s@.len(),
        at <= len,
    ensures
        match r {
            Some((ns, next)) => parse_ns(s@, at as int) == Some((ns@, next as int)) && at <= next
                <= len,
            None => parse_ns(s@, at as int).is_none(),
        },
{
    proof {
        reveal_strlit("/");
    }
    if at < len && s.get_char(at) == '/' {
        match scan_for(s, len, ',', at) {
            Some(comma) => Some((String::from_str(s.substring_char(at, comma)), comma + 1)),
            None => None,
        }
    } else {
        assert("/"@ =~= seq!['/']);
        Some((String::from_str("/"), at))
    }
}

fn read_ack(s: &str, len: usize, at: usize) -> (r: Option<(Option<i64>, usize)>)
    requires
        len == s@.len(),
        at <= len,
    ensures
        match r {
            Some((ack, next)) => parse_ack(s@, at as int) == Some((ack, next as int)) && at
                <= next <= len,
            None => parse_ack(s@, at as int).is_none(),
        },
{
    let negative = at < len && s.get_char(at) == '-';
    let start = if negative {
        at + 1
    } else {
        at
    };
    let limit: u64 = if negative {
        0x8000_0000_0000_0000
    } else {
        0x7fff_ffff_ffff_ffff
    };
    let (end, value) = scan_digits(s, len, start, limit);
    if end == start {
        if negative {
            None
        } else {
            Some((None, at))
        }
    } else {
        match value {
            None => None,
            Some(magnitude) => {
                let id: i64 = if !negative {
                    magnitude as i64
                } else if magnitude == 0x8000_0000_0000_0000 {
                    i64::MIN
                } else {
                    -(magnitude as i64)
                };
                Some((Some(id), end))
            },
        }
    }
}

fn read_list(body: &str) -> (r: Option<String>)
    ensures
        match r {
            Some(data) => parse_list(body@) == Some(data@),
            None => parse_list(body@).is_none(),
        },
{
    let len = body.unicode_len();
    if len >= 2 && body.get_char(0) == '[' && body.get_char(len - 1) == ']' && is_json(body) {
        Some(String::from_str(body))
    } else {
        None
    }
}

fn read_auth(body: &str) -> (r: Option<Option<String>>)
    ensures
        match r {
            Some(Some(auth)) => parse_auth(body@) == Some(Some(auth@)),
            Some(None) => parse_auth(body@) == Some(None::<Seq<char>>),
            None => parse_auth(body@).is_none(),
        },
{
    let len = body.unicode_len();
    if len == 0 {
        Some(None)
    } else if body.get_char(0) == '{' && body.get_char(len - 1) == '}' && is_json(body) {
        Some(Some(String::from_str(body)))
    } else {
        None
    }
}

fn read_event_body(body: &str) -> (r: Option<(String, String)>)
    ensures
        match r {
            Some((name, data)) => parse_event_body(body@) == Some((name@, data@)),
            None => parse_event_body(body@).is_none(),
        },
{
    proof {
        reveal_strlit("[]");
        reveal_strlit("[");
    }
    let len = body.unicode_len();
    if len < 4 || body.get_char(0) != '[' || body.get_char(1) != '"' || body.get_char(len - 1)
        != ']' || !is_json(body) {
        return None;
    }
    let end = match scan_literal(body, len, 2) {
        Some(end) => end,
        None => {
            return None;
        },
    };
    let name = match unquote(body.substring_char(1, end + 1)) {
        Ok(name) => name,
        Err(_) => {
            return None;
        },
    };
    if end + 2 == len {
        assert("[]"@ =~= seq!['[', ']']);
        Some((name, String::from_str("[]")))
    } else if body.get_char(end + 1) == ',' {
        let mut data = String::from_str("[");
        data.append(body.substring_char(end + 2, len));
        assert(data@ =~= seq!['['] + body@.skip(end + 2));
        Some((name, data))
    } else {
        None
    }
}

fn read_error_body(body: &str) -> (r: Option<String>)
    ensures
        match r {
            Some(reason) => parse_error_body(body@) == Some(reason@),
            None => parse_error_body(body@).is_none(),
        },
{
    proof {
        reveal_strlit("{\"message\":");
    }
    let len = body.unicode_len();
    if len < 14 {
        return None;
    }
    assert("{\"message\":"@ =~= error_prefix());
    if !crate::text::same_text(body.substring_char(0, 11), "{\"message\":") || body.get_char(11)
        != '"' {
        return None;
    }
    let end = match scan_literal(body, len, 12) {
        Some(end) => end,
        None => {
            return None;
        },
    };
    if len - end != 2 || body.get_char(end + 1) != '}' {
        return None;
    }
    match unquote(body.substring_char(11, end + 1)) {
        Ok(reason) => Some(reason),
        Err(_) => None,
    }
}

fn read_inner(kind: char, count: usize, ack: Option<i64>, body: &str) -> (r: Option<PacketData>)
    ensures
        match r {
            Some(inner) => parse_inner(kind, count as nat, ack, body@) == Some(inner@),
            None => parse_inner(kind, count as nat, ack, body@).is_none(),
        },
{
    if kind == '0' {
        match read_auth(body) {
            Some(auth) => Some(PacketData::Connect(auth)),
            None => None,
        }
    } else if kind == '1' {
        if body.unicode_len() == 0 {
            Some(PacketData::Disconnect)
        } else {
            None
        }
    } else if kind == '2' {
        match read_event_body(body) {
            Some((name, data)) => Some(PacketData::Event(name, data, ack)),
            None => None,
        }
    } else if kind == '3' {
        match (ack, read_list(body)) {
            (Some(id), Some(data)) => Some(PacketData::EventAck(data, id)),
            _ => None,
        }
    } else if kind == '4' {
        match read_error_body(body) {
            Some(reason) => Some(PacketData::ConnectError(reason)),
            None => None,
        }
    } else if kind == '5' {
        match read_event_body(body) {
            Some((name, data)) => {
                let packet = BinaryPacket { data, bin: Vec::new(), payload_count: count };
                assert(crate::packet::attachment_views(packet.bin@) =~= Seq::<Seq<u8>>::empty());
                Some(PacketData::BinaryEvent(name, packet, ack))
            },
            None => None,
        }
    } else if kind == '6' {
        match (ack, read_list(body)) {
            (Some(id), Some(data)) => {
                let packet = BinaryPacket { data, bin: Vec::new(), payload_count: count };
                assert(crate::packet::attachment_views(packet.bin@) =~= Seq::<Seq<u8>>::empty());
                Some(PacketData::BinaryAck(packet, id))
            },
            _ => None,
        }
    } else {
        None
    }
}

impl Packet {
    /// Reads a textual frame. What is no packet is `Malformed`: a kind
    /// that does not exist, a count, namespace or acknowledgement id that
    /// is not written as it has to be, a payload of the wrong shape. A
    /// binary packet comes back without its attachments, which follow in
    /// frames of their own.
    pub fn decode(text: &str) -> (r: Result<Packet, ProtocolError>)
        ensures
            match r {
                Ok(packet) => parse(text@) == Ok::<PacketView, ProtocolError>(packet@),
                Err(e) => parse(text@) == Err::<PacketView, ProtocolError>(e),
            },
    {
        let len = text.unicode_len();
        if len == 0 {
            return Err(ProtocolError::Malformed);
        }
        let kind = text.get_char(0);
        let (count, at_ns) = match read_count(text, len, kind == '5' || kind == '6') {
            Some(found) => found,
            None => {
                return Err(ProtocolError::Malformed);
            },
        };
        let (ns, at_ack) = match read_ns(text, len, at_ns) {
            Some(found) => found,
            None => {
                return Err(ProtocolError::Malformed);
            },
        };
        let (ack, at_body) = if kind == '2' || kind == '3' || kind == '5' || kind == '6' {
            match read_ack(text, len, at_ack) {
                Some(found) => found,
                None => {
                    return Err(ProtocolError::Malformed);
                },
            }
        } else {
            (None, at_ack)
        };
        let body = text.substring_char(at_body, len);
        assert(body@ =~= text@.skip(at_body as int));
        match read_inner(kind, count, ack, body) {
            Some(inner) => Ok(Packet { inner, ns }),
            None => Err(ProtocolError::Malformed),
        }
    }
}

} // verus!
