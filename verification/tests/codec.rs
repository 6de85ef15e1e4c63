use socketioxide::errors::ProtocolError;
use socketioxide::packet::{write_error_body, write_event_body, BinaryPacket, Packet, PacketData};
use socketioxide::transport::Frame;

fn wire_text(packet: Packet) -> String {
    let mut frames = packet.encode().unwrap();
    assert_eq!(frames.len(), 1);
    match frames.pop_front().unwrap() {
        Frame::Text(text) => text,
        Frame::Binary(_) => panic!("the first frame has to be textual"),
    }
}

fn event_in(ns: &str, name: &str, data: &str, ack: Option<i64>) -> Packet {
    Packet { inner: PacketData::Event(name.to_string(), data.to_string(), ack), ns: ns.to_string() }
}

fn placeholder_list() -> String {
    "[{\"_placeholder\":true,\"num\":0},{\"_placeholder\":true,\"num\":1}]".to_string()
}

fn picture() -> Packet {
    let payload = BinaryPacket {
        data: placeholder_list(),
        bin: vec![vec![1, 2, 3], vec![4]],
        payload_count: 2,
    };
    Packet { inner: PacketData::BinaryEvent("img".to_string(), payload, Some(3)), ns: "/pics".to_string() }
}

fn read_back(packet: Packet) -> Packet {
    let mut frames = packet.encode().unwrap();
    let text = match frames.pop_front().unwrap() {
        Frame::Text(text) => text,
        Frame::Binary(_) => panic!("the first frame has to be textual"),
    };
    let mut read = Packet::decode(&text).unwrap();
    while let Some(frame) = frames.pop_front() {
        match frame {
            Frame::Binary(bytes) => read.inner.add_payload(bytes),
            Frame::Text(_) => panic!("only the first frame is textual"),
        }
    }
    assert_eq!(read.inner.missing(), 0);
    read
}

fn same(a: &Packet, b: &Packet) -> bool {
    format!("{:?}", a) == format!("{:?}", b)
}

#[test]
fn event_in_the_main_namespace() {
    let packet = Packet::event("/".to_string(), "lol".to_string(), "\"someString1\"".to_string());
    assert_eq!(wire_text(packet), "2[\"lol\",\"someString1\"]");
}

#[test]
fn event_with_namespace_and_ack_id() {
    assert_eq!(wire_text(event_in("/admin", "msg", "[1,2]", Some(12))), "2/admin,12[\"msg\",1,2]");
}

#[test]
fn event_with_negative_ack_id() {
    assert_eq!(wire_text(event_in("/", "msg", "[1]", Some(-7))), "2-7[\"msg\",1]");
}

#[test]
fn event_without_arguments() {
    assert_eq!(wire_text(event_in("/", "e", "[]", None)), "2[\"e\"]");
    assert_eq!(wire_text(event_in("/", "e", "null", None)), "2[\"e\"]");
    assert_eq!(wire_text(event_in("/", "e", "", None)), "2[\"e\"]");
}

#[test]
fn event_with_one_value_that_is_no_list() {
    assert_eq!(wire_text(event_in("/", "e", "{\"a\":1}", None)), "2[\"e\",{\"a\":1}]");
    assert_eq!(wire_text(event_in("/", "e", "17", None)), "2[\"e\",17]");
}

#[test]
fn event_name_goes_through_the_codec() {
    let text = wire_text(event_in("/", "a\"b\\c\n", "[1]", None));
    assert_eq!(text, "2[\"a\\\"b\\\\c\\n\",1]");
    let back = Packet::decode(&text).unwrap();
    match back.inner {
        PacketData::Event(name, data, ack) => {
            assert_eq!(name, "a\"b\\c\n");
            assert_eq!(data, "[1]");
            assert_eq!(ack, None);
        }
        other => panic!("unexpected packet {:?}", other),
    }
}

#[test]
fn ack_packet_text() {
    assert_eq!(wire_text(Packet::ack("/".to_string(), "[\"ok\"]".to_string(), 7)), "37[\"ok\"]");
    assert_eq!(wire_text(Packet::ack("/a".to_string(), "5".to_string(), 0)), "3/a,0[5]");
}

#[test]
fn connect_packet_text() {
    assert_eq!(wire_text(Packet::connect("/".to_string(), 42)), "0{\"sid\":\"42\"}");
    assert_eq!(wire_text(Packet::connect("/a".to_string(), -3)), "0/a,{\"sid\":\"-3\"}");
    assert_eq!(
        wire_text(Packet::connect("/".to_string(), i64::MIN)),
        "0{\"sid\":\"-9223372036854775808\"}"
    );
    let request = Packet { inner: PacketData::Connect(None), ns: "/".to_string() };
    assert_eq!(wire_text(request), "0");
}

#[test]
fn refusal_packet_text() {
    assert_eq!(
        wire_text(Packet::invalid_namespace("/missing".to_string())),
        "4/missing,{\"message\":\"Invalid namespace\"}"
    );
}

#[test]
fn disconnect_packet_text() {
    assert_eq!(wire_text(Packet::disconnect("/".to_string())), "1");
    assert_eq!(wire_text(Packet::disconnect("/a".to_string())), "1/a,");
}

#[test]
fn binary_event_makes_one_frame_more_than_attachments() {
    let frames: Vec<Frame> = picture().encode().unwrap().into_iter().collect();
    assert_eq!(frames.len(), 3);
    match &frames[0] {
        Frame::Text(text) => assert_eq!(
            text,
            "52-/pics,3[\"img\",{\"_placeholder\":true,\"num\":0},{\"_placeholder\":true,\"num\":1}]"
        ),
        Frame::Binary(_) => panic!("the first frame has to be textual"),
    }
    match &frames[1] {
        Frame::Binary(bytes) => assert_eq!(bytes, &vec![1u8, 2, 3]),
        Frame::Text(_) => panic!("an attachment has to be binary"),
    }
    match &frames[2] {
        Frame::Binary(bytes) => assert_eq!(bytes, &vec![4u8]),
        Frame::Text(_) => panic!("an attachment has to be binary"),
    }
}

#[test]
fn binary_ack_text() {
    let payload = BinaryPacket { data: "[{\"_placeholder\":true,\"num\":0}]".to_string(), bin: vec![vec![9]], payload_count: 1 };
    let packet = Packet { inner: PacketData::BinaryAck(payload, 5), ns: "/".to_string() };
    let frames: Vec<Frame> = packet.encode().unwrap().into_iter().collect();
    assert_eq!(frames.len(), 2);
    match &frames[0] {
        Frame::Text(text) => assert_eq!(text, "61-5[{\"_placeholder\":true,\"num\":0}]"),
        Frame::Binary(_) => panic!("the first frame has to be textual"),
    }
}

#[test]
fn to_text_is_the_first_frame() {
    let text = picture().to_text().unwrap();
    let mut frames = picture().encode().unwrap();
    match frames.pop_front().unwrap() {
        Frame::Text(first) => assert_eq!(first, text),
        Frame::Binary(_) => panic!("the first frame has to be textual"),
    }
}

#[test]
fn packets_come_back_from_their_frames() {
    let packets = vec![
        Packet::event("/".to_string(), "lol".to_string(), "[\"someString1\"]".to_string()),
        event_in("/admin", "msg", "[1,2]", Some(12)),
        event_in("/", "msg", "[]", Some(i64::MAX)),
        event_in("/", "msg", "[null]", Some(i64::MIN)),
        event_in("/", "", "[{\"a\":[1,2]}]", None),
        event_in("/", "weird \"name\", with \\ and ]", "[0]", Some(0)),
        Packet::ack("/".to_string(), "[\"ok\"]".to_string(), 7),
        Packet::ack("/room".to_string(), "[]".to_string(), -1),
        Packet::connect("/".to_string(), 42),
        Packet::connect("/a".to_string(), -3),
        Packet { inner: PacketData::Connect(None), ns: "/".to_string() },
        Packet { inner: PacketData::Connect(None), ns: "/a".to_string() },
        Packet::invalid_namespace("/missing".to_string()),
        Packet::disconnect("/".to_string()),
        Packet::disconnect("/a".to_string()),
        picture(),
    ];
    for packet in packets {
        let shown = format!("{:?}", packet);
        let back = read_back(packet);
        assert_eq!(format!("{:?}", back), shown);
    }
}

#[test]
fn attachments_come_back_in_their_order() {
    let back = read_back(picture());
    assert!(same(&back, &picture()));
    match back.inner {
        PacketData::BinaryEvent(name, payload, ack) => {
            assert_eq!(name, "img");
            assert_eq!(ack, Some(3));
            assert_eq!(payload.payload_count, 2);
            assert_eq!(payload.bin, vec![vec![1u8, 2, 3], vec![4u8]]);
            assert_eq!(payload.data, placeholder_list());
        }
        other => panic!("unexpected packet {:?}", other),
    }
}

#[test]
fn binary_packet_is_read_without_its_attachments() {
    let packet = Packet::decode("52-[\"img\",1]").unwrap();
    assert_eq!(packet.ns, "/");
    assert_eq!(packet.inner.missing(), 2);
    match packet.inner {
        PacketData::BinaryEvent(name, payload, ack) => {
            assert_eq!(name, "img");
            assert_eq!(payload.data, "[1]");
            assert_eq!(payload.payload_count, 2);
            assert!(payload.bin.is_empty());
            assert_eq!(ack, None);
        }
        other => panic!("unexpected packet {:?}", other),
    }
}

#[test]
fn missing_counts_down_with_each_attachment() {
    let mut packet = Packet::decode("62-/a,9[1]").unwrap();
    assert_eq!(packet.ns, "/a");
    assert_eq!(packet.inner.ack_id(), Some(9));
    assert_eq!(packet.inner.missing(), 2);
    packet.inner.add_payload(vec![1]);
    assert_eq!(packet.inner.missing(), 1);
    packet.inner.add_payload(vec![2]);
    assert_eq!(packet.inner.missing(), 0);
    packet.inner.add_payload(vec![3]);
    assert_eq!(packet.inner.missing(), 0);
}

#[test]
fn attachment_for_a_packet_that_is_not_binary_is_dropped() {
    let mut inner = PacketData::Event("e".to_string(), "[]".to_string(), None);
    inner.add_payload(vec![1, 2]);
    assert_eq!(format!("{:?}", inner), format!("{:?}", PacketData::Event("e".to_string(), "[]".to_string(), None)));
}

#[test]
fn set_ack_id_is_for_events_only() {
    let mut event = PacketData::Event("e".to_string(), "[]".to_string(), None);
    event.set_ack_id(4);
    assert_eq!(event.ack_id(), Some(4));
    let mut ack = PacketData::EventAck("[]".to_string(), 1);
    ack.set_ack_id(4);
    assert_eq!(ack.ack_id(), Some(1));
    let mut bye = PacketData::Disconnect;
    bye.set_ack_id(4);
    assert_eq!(bye.ack_id(), None);
}

#[test]
fn decode_connect_requests() {
    let bare = Packet::decode("0").unwrap();
    assert_eq!(bare.ns, "/");
    assert!(matches!(bare.inner, PacketData::Connect(None)));
    let named = Packet::decode("0/a,").unwrap();
    assert_eq!(named.ns, "/a");
    assert!(matches!(named.inner, PacketData::Connect(None)));
    let with_auth = Packet::decode("0/a,{\"token\":\"x\"}").unwrap();
    assert_eq!(with_auth.ns, "/a");
    match with_auth.inner {
        PacketData::Connect(Some(auth)) => assert_eq!(auth, "{\"token\":\"x\"}"),
        other => panic!("unexpected packet {:?}", other),
    }
}

#[test]
fn decode_refusal() {
    let packet = Packet::decode("4{\"message\":\"Invalid namespace\"}").unwrap();
    match packet.inner {
        PacketData::ConnectError(reason) => assert_eq!(reason, "Invalid namespace"),
        other => panic!("unexpected packet {:?}", other),
    }
}

#[test]
fn decode_ack_id_limits() {
    let most = Packet::decode("29223372036854775807[\"e\"]").unwrap();
    assert_eq!(most.inner.ack_id(), Some(i64::MAX));
    let least = Packet::decode("2-9223372036854775808[\"e\"]").unwrap();
    assert_eq!(least.inner.ack_id(), Some(i64::MIN));
    assert_eq!(Packet::decode("29223372036854775808[\"e\"]").unwrap_err(), ProtocolError::Malformed);
    assert_eq!(Packet::decode("2-9223372036854775809[\"e\"]").unwrap_err(), ProtocolError::Malformed);
    assert_eq!(Packet::decode("2-[\"e\"]").unwrap_err(), ProtocolError::Malformed);
}

#[test]
fn decode_event_without_arguments() {
    let packet = Packet::decode("2[\"e\"]").unwrap();
    match packet.inner {
        PacketData::Event(name, data, ack) => {
            assert_eq!(name, "e");
            assert_eq!(data, "[]");
            assert_eq!(ack, None);
        }
        other => panic!("unexpected packet {:?}", other),
    }
}

#[test]
fn what_is_no_packet_is_malformed() {
    let texts = [
        "",
        "7",
        "x",
        "2",
        "2[",
        "2[]",
        "2[1,2]",
        "2[\"e\"",
        "2[\"e]",
        "2[\"e\\",
        "2[\"e\";1]",
        "2/a[\"e\"]",
        "3[\"ok\"]",
        "31",
        "31x",
        "1x",
        "0x",
        "0{",
        "4",
        "4{\"message\":\"x\"",
        "4{\"reason\":\"x\"}",
        "4{\"message\":\"x\"}}",
        "5[\"e\"]",
        "5-[\"e\"]",
        "5x-[\"e\"]",
        "51[\"e\"]",
        "599999999999999999999999-[\"e\"]",
        "61-[1]",
        "31[[[]",
        "31[1,]",
        "31[1 2]",
        "2[\"a\",]",
        "2[\"a\",,1]",
        "2[\"a\",{]",
        "2[\"a\" 1]",
        "51-[\"a\",{\"_placeholder\":true,\"num\":0]",
        "61-1[nul]",
        "0{x}",
        "0/a,{\"token\":}",
    ];
    for text in texts {
        match Packet::decode(text) {
            Err(e) => assert_eq!(e, ProtocolError::Malformed, "{:?}", text),
            Ok(packet) => panic!("{:?} was read as {:?}", text, packet),
        }
    }
}

fn codec_failure() -> serde_json::Error {
    serde_json::from_str::<String>("x").unwrap_err()
}

#[test]
fn event_body_is_written_from_the_literal() {
    let mut out = String::from("2");
    write_event_body(&mut out, Ok("\"e\"".to_string()), &"[1,2]".to_string()).unwrap();
    assert_eq!(out, "2[\"e\",1,2]");
    let mut out = String::new();
    write_event_body(&mut out, Ok("\"e\"".to_string()), &"[]".to_string()).unwrap();
    assert_eq!(out, "[\"e\"]");
    let mut out = String::new();
    write_event_body(&mut out, Ok("\"a\\\"b\"".to_string()), &"{\"k\":1}".to_string()).unwrap();
    assert_eq!(out, "[\"a\\\"b\",{\"k\":1}]");
}

#[test]
fn event_body_is_not_written_where_the_codec_failed() {
    let mut out = String::from("2/a,");
    let shown = codec_failure().to_string();
    let e = write_event_body(&mut out, Err(codec_failure()), &"[1]".to_string()).unwrap_err();
    assert_eq!(e.to_string(), shown);
    assert_eq!(out, "2/a,");
}

#[test]
fn error_body_is_written_from_the_literal() {
    let mut out = String::from("4/x,");
    write_error_body(&mut out, Ok("\"no\"".to_string())).unwrap();
    assert_eq!(out, "4/x,{\"message\":\"no\"}");
}

#[test]
fn error_body_is_not_written_where_the_codec_failed() {
    let mut out = String::from("4");
    let shown = codec_failure().to_string();
    let e = write_error_body(&mut out, Err(codec_failure())).unwrap_err();
    assert_eq!(e.to_string(), shown);
    assert_eq!(out, "4");
}

#[test]
fn payload_has_to_be_a_value_of_the_codec() {
    let nested = Packet::decode("31[[[]]]").unwrap();
    match nested.inner {
        PacketData::EventAck(data, ack) => {
            assert_eq!(data, "[[[]]]");
            assert_eq!(ack, 1);
        }
        other => panic!("unexpected packet {:?}", other),
    }
    assert_eq!(Packet::decode("31[[[]").unwrap_err(), ProtocolError::Malformed);
    let spaced = Packet::decode("2[\"a\", 1 , {\"k\": [true, null]}]").unwrap();
    match spaced.inner {
        PacketData::Event(name, data, _) => {
            assert_eq!(name, "a");
            assert_eq!(data, "[ 1 , {\"k\": [true, null]}]");
        }
        other => panic!("unexpected packet {:?}", other),
    }
    assert_eq!(Packet::decode("2[\"a\",]").unwrap_err(), ProtocolError::Malformed);
}

#[test]
fn writing_a_packet_never_fails() {
    let odd = Packet {
        inner: PacketData::Event("\u{0}\u{1f}\"\\\u{7f}\u{1F600}".to_string(), "not json".to_string(), None),
        ns: "".to_string(),
    };
    assert!(odd.to_text().is_ok());
    assert!(odd.encode().is_ok());
    let refusal = Packet { inner: PacketData::ConnectError("\"\n\"".to_string()), ns: "/".to_string() };
    assert_eq!(refusal.to_text().unwrap(), "4{\"message\":\"\\\"\\n\\\"\"}");
}
