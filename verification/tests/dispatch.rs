use engineioxide::SendPacket;
use socketioxide::client::{Client, Routed};
use socketioxide::config::SocketIoConfig;
use socketioxide::errors::{GoodNameError, ProtocolError, SendError};
use socketioxide::packet::{Packet, PacketData};
use socketioxide::transport::Frame;
use std::time::Duration;
use tokio::sync::mpsc::channel;

fn served() -> Client<u32> {
    let config = SocketIoConfig { ack_timeout: Duration::from_secs(5) };
    Client::new(config, vec![("/".to_string(), 1), ("/chat".to_string(), 2)])
}

fn only_text(packet: Packet) -> String {
    let mut frames = packet.encode().unwrap();
    assert_eq!(frames.len(), 1);
    match frames.pop_front().unwrap() {
        Frame::Text(text) => text,
        Frame::Binary(_) => panic!("the first frame has to be textual"),
    }
}

fn join(client: &mut Client<u32>, ns: &str, sid: i64) {
    let request = if ns == "/" { "0".to_string() } else { format!("0{},", ns) };
    match client.on_message(request, sid) {
        Routed::Connected { .. } => {}
        _ => panic!("the namespace is served"),
    }
}

#[test]
fn connect_to_a_served_namespace() {
    let mut client = served();
    match client.on_message("0/chat,{\"token\":\"x\"}".to_string(), 5) {
        Routed::Connected { ns, handshake, callback, reply } => {
            assert_eq!(ns, "/chat");
            assert_eq!(handshake.auth.as_deref(), Some("{\"token\":\"x\"}"));
            assert_eq!(*callback, 2);
            assert_eq!(only_text(reply), "0/chat,{\"sid\":\"5\"}");
        }
        _ => panic!("the namespace is served"),
    }
    assert!(client.is_connected(&"/chat".to_string(), 5));
    assert!(!client.is_connected(&"/".to_string(), 5));
    assert!(!client.is_connected(&"/chat".to_string(), 6));
}

#[test]
fn connect_to_a_namespace_that_is_not_served() {
    let mut client = served();
    match client.on_message("0/missing,".to_string(), 5) {
        Routed::Refused { reply } => {
            assert_eq!(reply.ns, "/missing");
            assert_eq!(only_text(reply), "4/missing,{\"message\":\"Invalid namespace\"}");
        }
        _ => panic!("the namespace is not served"),
    }
    assert!(!client.is_connected(&"/missing".to_string(), 5));
    match client.on_message("2/missing,[\"e\"]".to_string(), 5) {
        Routed::Dropped => {}
        _ => panic!("there is no connection"),
    }
}

#[test]
fn event_goes_to_the_connection() {
    let mut client = served();
    join(&mut client, "/chat", 5);
    match client.on_message("2/chat,3[\"msg\",1]".to_string(), 5) {
        Routed::Forward { ns, packet } => {
            assert_eq!(ns, "/chat");
            match packet {
                PacketData::Event(name, data, ack) => {
                    assert_eq!(name, "msg");
                    assert_eq!(data, "[1]");
                    assert_eq!(ack, Some(3));
                }
                other => panic!("unexpected packet {:?}", other),
            }
        }
        _ => panic!("the peer is connected"),
    }
    match client.on_message("2[\"msg\",1]".to_string(), 5) {
        Routed::Dropped => {}
        _ => panic!("the peer is not connected to the main namespace"),
    }
    match client.on_message("2/chat,[\"msg\",1]".to_string(), 6) {
        Routed::Dropped => {}
        _ => panic!("another peer is not connected"),
    }
}

#[test]
fn nothing_is_delivered_after_a_disconnect() {
    let mut client = served();
    join(&mut client, "/", 5);
    match client.on_message("1".to_string(), 5) {
        Routed::Disconnected { ns } => assert_eq!(ns, "/"),
        _ => panic!("the peer was connected"),
    }
    assert!(!client.is_connected(&"/".to_string(), 5));
    match client.on_message("2[\"msg\",1]".to_string(), 5) {
        Routed::Dropped => {}
        _ => panic!("the connection is gone"),
    }
    match client.on_message("1".to_string(), 5) {
        Routed::Dropped => {}
        _ => panic!("the connection is gone"),
    }
}

#[test]
fn message_that_is_no_packet_closes_the_transport() {
    let mut client = served();
    join(&mut client, "/", 5);
    match client.on_message("nonsense".to_string(), 5) {
        Routed::Close => {}
        _ => panic!("the message is no packet"),
    }
    match client.on_packet(5, Err(ProtocolError::Malformed)) {
        Routed::Close => {}
        _ => panic!("the message is no packet"),
    }
}

#[test]
fn binary_packet_waits_for_its_attachments() {
    let mut client = served();
    join(&mut client, "/", 5);
    match client.on_message("52-[\"img\",0]".to_string(), 5) {
        Routed::Awaiting => {}
        _ => panic!("two attachments are still to come"),
    }
    match client.on_binary(vec![1, 2], 5) {
        Routed::Awaiting => {}
        _ => panic!("one attachment is still to come"),
    }
    match client.on_binary(vec![3], 5) {
        Routed::Forward { ns, packet } => {
            assert_eq!(ns, "/");
            match packet {
                PacketData::BinaryEvent(name, payload, ack) => {
                    assert_eq!(name, "img");
                    assert_eq!(payload.data, "[0]");
                    assert_eq!(payload.bin, vec![vec![1u8, 2], vec![3u8]]);
                    assert_eq!(ack, None);
                }
                other => panic!("unexpected packet {:?}", other),
            }
        }
        _ => panic!("the packet is whole"),
    }
    match client.on_binary(vec![4], 5) {
        Routed::Dropped => {}
        _ => panic!("no packet waits"),
    }
}

#[test]
fn text_while_a_packet_waits_closes_the_transport() {
    let mut client = served();
    join(&mut client, "/", 5);
    match client.on_message("51-[\"img\",0]".to_string(), 5) {
        Routed::Awaiting => {}
        _ => panic!("one attachment is still to come"),
    }
    match client.on_message("2[\"msg\"]".to_string(), 5) {
        Routed::Close => {}
        _ => panic!("an attachment had to come"),
    }
    match client.on_binary(vec![1], 5) {
        Routed::Dropped => {}
        _ => panic!("the packet was given up"),
    }
}

#[test]
fn refusal_from_a_peer_is_of_no_consequence() {
    let mut client = served();
    join(&mut client, "/", 5);
    match client.on_message("4{\"message\":\"x\"}".to_string(), 5) {
        Routed::Dropped => {}
        _ => panic!("a refusal is for clients"),
    }
    assert!(client.is_connected(&"/".to_string(), 5));
}

#[test]
fn lost_transport_ends_every_connection_of_the_peer() {
    let mut client = served();
    join(&mut client, "/", 5);
    join(&mut client, "/chat", 5);
    join(&mut client, "/chat", 6);
    match client.on_message("51-/chat,[\"img\",0]".to_string(), 5) {
        Routed::Awaiting => {}
        _ => panic!("one attachment is still to come"),
    }
    client.on_disconnect(5);
    assert!(!client.is_connected(&"/".to_string(), 5));
    assert!(!client.is_connected(&"/chat".to_string(), 5));
    assert!(client.is_connected(&"/chat".to_string(), 6));
    match client.on_binary(vec![1], 5) {
        Routed::Dropped => {}
        _ => panic!("the packet was given up"),
    }
}

#[test]
fn whole_packet_is_delivered_as_it_is() {
    let mut client = served();
    match client.deliver(9, Packet { inner: PacketData::Connect(None), ns: "/".to_string() }) {
        Routed::Connected { ns, handshake, callback, reply } => {
            assert_eq!(ns, "/");
            assert!(handshake.auth.is_none());
            assert_eq!(*callback, 1);
            assert_eq!(only_text(reply), "0{\"sid\":\"9\"}");
        }
        _ => panic!("the namespace is served"),
    }
    match client.deliver(9, Packet::ack("/".to_string(), "[]".to_string(), 1)) {
        Routed::Forward { packet, .. } => assert_eq!(packet.ack_id(), Some(1)),
        _ => panic!("the peer is connected"),
    }
}

#[test]
fn later_handler_of_a_namespace_is_the_one_that_serves() {
    let config = SocketIoConfig { ack_timeout: Duration::from_secs(5) };
    let mut client: Client<u32> =
        Client::new(config, vec![("/".to_string(), 1), ("/".to_string(), 2)]);
    match client.on_message("0".to_string(), 1) {
        Routed::Connected { callback, .. } => assert_eq!(*callback, 2),
        _ => panic!("the namespace is served"),
    }
}

#[test]
fn reply_goes_straight_to_the_transport() {
    let client = served();
    let (tx, mut rx) = channel::<SendPacket>(1);
    client.emit(Some(&tx), Packet::connect("/".to_string(), 5)).unwrap();
    match client.emit(Some(&tx), Packet::invalid_namespace("/x".to_string())) {
        Err(SendError::GoodNameError(GoodNameError::SendMainPacket(token))) => assert_eq!(token.len(), 1),
        other => panic!("unexpected result {:?}", other),
    }
    match rx.try_recv().unwrap() {
        SendPacket::Message(text) => assert_eq!(text, "0{\"sid\":\"5\"}"),
        SendPacket::Binary(_) => panic!("unexpected binary frame"),
    }
    match client.emit(None, Packet::connect("/".to_string(), 5)) {
        Err(SendError::GoodNameError(GoodNameError::SocketClosed)) => {}
        other => panic!("unexpected result {:?}", other),
    }
    drop(rx);
    match client.emit(Some(&tx), Packet::connect("/".to_string(), 5)) {
        Err(SendError::GoodNameError(GoodNameError::SocketClosed)) => {}
        other => panic!("unexpected result {:?}", other),
    }
}

#[test]
fn packet_for_a_namespace_that_is_not_served_is_dropped() {
    let mut client = served();
    join(&mut client, "/", 5);
    for text in ["2/missing,[\"e\",1]", "1/missing,", "3/missing,1[]", "4/missing,{\"message\":\"x\"}"] {
        match client.on_message(text.to_string(), 5) {
            Routed::Dropped => {}
            _ => panic!("the namespace is not served: {}", text),
        }
    }
    assert!(client.is_connected(&"/".to_string(), 5));
    assert!(!client.is_connected(&"/missing".to_string(), 5));
    match client.on_message("51-/missing,[\"e\",0]".to_string(), 5) {
        Routed::Awaiting => {}
        _ => panic!("one attachment is still to come"),
    }
    match client.on_binary(vec![1], 5) {
        Routed::Dropped => {}
        _ => panic!("the namespace is not served"),
    }
}

#[test]
fn frames_of_a_packet_reach_the_connection_as_the_packet() {
    let mut client = served();
    join(&mut client, "/chat", 5);
    let payload = socketioxide::packet::BinaryPacket {
        data: "[{\"_placeholder\":true,\"num\":0},{\"_placeholder\":true,\"num\":1},7]".to_string(),
        bin: vec![vec![1, 2, 3], vec![], vec![9]],
        payload_count: 3,
    };
    let sent = Packet { inner: PacketData::BinaryEvent("img".to_string(), payload, Some(-4)), ns: "/chat".to_string() };
    let shown = format!("{:?}", sent.inner);
    let mut frames = sent.encode().unwrap();
    assert_eq!(frames.len(), 4);
    let mut last = None;
    while let Some(frame) = frames.pop_front() {
        let left = frames.len();
        let routed = match frame {
            Frame::Text(text) => client.on_message(text, 5),
            Frame::Binary(bytes) => client.on_binary(bytes, 5),
        };
        match routed {
            Routed::Awaiting => assert!(left > 0),
            Routed::Forward { ns, packet } => {
                assert_eq!(left, 0);
                assert_eq!(ns, "/chat");
                last = Some(format!("{:?}", packet));
            }
            _ => panic!("the peer is connected"),
        }
    }
    assert_eq!(last, Some(shown));
}
