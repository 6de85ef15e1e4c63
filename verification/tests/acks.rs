use engineioxide::SendPacket;
use socketioxide::acks::AckRegistry;
use socketioxide::config::SocketIoConfig;
use socketioxide::errors::{AckError, GoodNameError, ProtocolError, SendError};
use socketioxide::handshake::Handshake;
use socketioxide::packet::{BinaryPacket, Packet, PacketData};
use socketioxide::socket::{AckWait, AckWaiter, Socket};
use std::collections::HashSet;
use std::time::Duration;
use tokio::sync::mpsc::{channel, Receiver};
use tokio::sync::oneshot::error::TryRecvError;

fn settings() -> SocketIoConfig {
    SocketIoConfig { ack_timeout: Duration::from_millis(50) }
}

fn roomy(sid: i64, ns: &str) -> (Socket<u32>, Receiver<SendPacket>) {
    let (tx, rx) = channel::<SendPacket>(64);
    (Socket::new(sid, ns.to_string(), Handshake::new_dummy(), tx, settings()), rx)
}

fn request(socket: &mut Socket<u32>, event: &str, data: &str) -> AckWaiter {
    match socket.emit_with_ack(event.to_string(), data.to_string()) {
        Ok(waiter) => waiter,
        Err(e) => panic!("unexpected failure {:?}", e),
    }
}

fn message(packet: SendPacket) -> String {
    match packet {
        SendPacket::Message(text) => text,
        SendPacket::Binary(_) => panic!("unexpected binary frame"),
    }
}

#[test]
fn ack_ids_are_pairwise_distinct() {
    let (mut socket, mut rx) = roomy(1, "/");
    let mut seen = HashSet::new();
    let mut waiters = Vec::new();
    for _ in 0..32 {
        let waiter = request(&mut socket, "ask", "[1]");
        assert!(seen.insert(waiter.ack));
        waiters.push(waiter);
    }
    assert_eq!(seen.len(), 32);
    assert_eq!(waiters[0].ack, 1);
    assert_eq!(waiters[31].ack, 32);
    assert_eq!(message(rx.try_recv().unwrap()), "21[\"ask\",1]");
    assert_eq!(message(rx.try_recv().unwrap()), "22[\"ask\",1]");
}

#[test]
fn ack_id_is_used_up_by_a_send_that_fails() {
    let (mut socket, _rx): (Socket<u32>, _) = Socket::new_dummy(1, "/".to_string(), settings());
    let first = request(&mut socket, "ask", "[]");
    assert_eq!(first.ack, 1);
    match socket.emit_with_ack("ask".to_string(), "[]".to_string()) {
        Err(AckError::SendChannel(SendError::GoodNameError(GoodNameError::SendMainPacket(token)))) => {
            assert_eq!(token.len(), 1);
            assert_eq!(format!("{:?}", token), "RetryablePacket([Text(\"22[\\\"ask\\\"]\")])");
        }
        Err(e) => panic!("unexpected failure {:?}", e),
        Ok(_) => panic!("the transport had no room"),
    }
}

#[test]
fn stray_ack_changes_nothing() {
    let (mut socket, mut rx) = roomy(1, "/");
    let mut waiter = request(&mut socket, "ask", "[]");
    assert!(socket.recv(PacketData::EventAck("[\"late\"]".to_string(), 99)).unwrap().is_none());
    assert!(socket.recv(PacketData::EventAck("[\"early\"]".to_string(), 2)).unwrap().is_none());
    assert!(matches!(waiter.rx.try_recv(), Err(TryRecvError::Empty)));
    let mut next = request(&mut socket, "ask", "[]");
    assert_eq!(next.ack, 2);
    assert!(matches!(next.rx.try_recv(), Err(TryRecvError::Empty)));
    assert_eq!(message(rx.try_recv().unwrap()), "21[\"ask\"]");
    assert_eq!(message(rx.try_recv().unwrap()), "22[\"ask\"]");
    assert!(rx.try_recv().is_err());
}

#[test]
fn stray_ack_in_an_empty_registry() {
    let mut registry = AckRegistry::new();
    assert!(!registry.fulfill(5, "[]".to_string(), Vec::new()));
    assert_eq!(registry.len(), 0);
    assert!(!registry.is_pending(5));
    let mut rx = registry.register(5);
    assert!(registry.is_pending(5));
    assert!(matches!(rx.try_recv(), Err(TryRecvError::Empty)));
}

#[test]
fn timed_out_request_leaves_no_waiter() {
    let (mut socket, _rx) = roomy(1, "/");
    let mut waiter = request(&mut socket, "ask", "[]");
    assert_eq!(waiter.timeout, Duration::from_millis(50));
    match socket.ack_result(waiter.ack, AckWait::TimedOut) {
        Err(AckError::Timeout) => {}
        other => panic!("unexpected result {:?}", other),
    }
    assert!(socket.recv(PacketData::EventAck("[\"late\"]".to_string(), waiter.ack)).unwrap().is_none());
    assert!(matches!(waiter.rx.try_recv(), Err(TryRecvError::Closed)));
}

#[test]
fn timeout_of_the_call_overrides_the_connection() {
    let (mut socket, _rx) = roomy(1, "/");
    let packet = Packet::event("/".to_string(), "ask".to_string(), "[]".to_string());
    match socket.send_with_ack(packet, Some(Duration::from_secs(3))) {
        Ok(waiter) => assert_eq!(waiter.timeout, Duration::from_secs(3)),
        Err(e) => panic!("unexpected failure {:?}", e),
    }
    let packet = Packet::event("/".to_string(), "ask".to_string(), "[]".to_string());
    match socket.send_with_ack(packet, None) {
        Ok(waiter) => assert_eq!(waiter.timeout, Duration::from_millis(50)),
        Err(e) => panic!("unexpected failure {:?}", e),
    }
}

#[test]
fn acknowledgement_reaches_its_waiter() {
    let (mut socket, _rx) = roomy(1, "/");
    let mut first = request(&mut socket, "ask", "[]");
    let mut second = request(&mut socket, "ask", "[]");
    assert!(socket.recv(PacketData::EventAck("[\"ok\"]".to_string(), second.ack)).unwrap().is_none());
    assert!(matches!(first.rx.try_recv(), Err(TryRecvError::Empty)));
    let response = second.rx.try_recv().unwrap();
    assert_eq!(response, ("[\"ok\"]".to_string(), Vec::<Vec<u8>>::new()));
    match socket.ack_result(second.ack, AckWait::Received(response)) {
        Ok((data, bin)) => {
            assert_eq!(data, "[\"ok\"]");
            assert!(bin.is_empty());
        }
        Err(e) => panic!("unexpected failure {:?}", e),
    }
    assert!(socket.recv(PacketData::EventAck("[\"again\"]".to_string(), second.ack)).unwrap().is_none());
}

#[test]
fn binary_acknowledgement_brings_its_attachments() {
    let (mut socket, _rx) = roomy(1, "/");
    let mut waiter = request(&mut socket, "ask", "[]");
    let payload = BinaryPacket {
        data: "[{\"_placeholder\":true,\"num\":0}]".to_string(),
        bin: vec![vec![1, 2], vec![3]],
        payload_count: 2,
    };
    assert!(socket.recv(PacketData::BinaryAck(payload, waiter.ack)).unwrap().is_none());
    let (data, bin) = waiter.rx.try_recv().unwrap();
    assert_eq!(data, "[{\"_placeholder\":true,\"num\":0}]");
    assert_eq!(bin, vec![vec![1u8, 2], vec![3u8]]);
}

#[test]
fn given_up_waiter_is_an_error() {
    let (mut socket, _rx) = roomy(1, "/");
    match socket.ack_result(1, AckWait::Closed) {
        Err(AckError::AckReceive) => {}
        other => panic!("unexpected result {:?}", other),
    }
}

#[test]
fn disconnect_tells_the_peer_and_gives_up_the_waiters() {
    let (mut socket, mut rx) = roomy(1, "/chat");
    let mut waiter = request(&mut socket, "ask", "[]");
    socket.disconnect().unwrap();
    assert!(matches!(waiter.rx.try_recv(), Err(TryRecvError::Closed)));
    assert_eq!(message(rx.try_recv().unwrap()), "2/chat,1[\"ask\"]");
    assert_eq!(message(rx.try_recv().unwrap()), "1/chat,");
    assert!(rx.try_recv().is_err());
}

#[test]
fn registry_keeps_and_gives_up_waiters() {
    let mut registry = AckRegistry::new();
    let mut one = registry.register(1);
    let mut two = registry.register(2);
    let mut three = registry.register(3);
    assert_eq!(registry.len(), 3);
    assert!(registry.expire(2));
    assert!(!registry.expire(2));
    assert!(!registry.is_pending(2));
    assert!(matches!(two.try_recv(), Err(TryRecvError::Closed)));
    assert!(registry.fulfill(1, "[1]".to_string(), vec![vec![7]]));
    assert!(!registry.fulfill(1, "[1]".to_string(), Vec::new()));
    assert_eq!(one.try_recv().unwrap(), ("[1]".to_string(), vec![vec![7u8]]));
    assert_eq!(registry.len(), 1);
    registry.cancel_all();
    assert_eq!(registry.len(), 0);
    assert!(matches!(three.try_recv(), Err(TryRecvError::Closed)));
}

#[test]
fn event_asks_for_its_handler() {
    let (mut socket, _rx) = roomy(1, "/");
    socket.on("greet".to_string(), 10);
    socket.on("part".to_string(), 20);
    socket.on("greet".to_string(), 30);
    let call = socket
        .recv(PacketData::Event("greet".to_string(), "[\"hi\"]".to_string(), Some(4)))
        .unwrap()
        .unwrap();
    assert_eq!(*call.handler, 30);
    assert_eq!(call.data, "[\"hi\"]");
    assert!(call.bin.is_empty());
    assert_eq!(call.ack, Some(4));
    let call = socket.recv(PacketData::Event("part".to_string(), "[]".to_string(), None)).unwrap().unwrap();
    assert_eq!(*call.handler, 20);
    assert_eq!(call.ack, None);
    assert!(socket.recv(PacketData::Event("other".to_string(), "[]".to_string(), None)).unwrap().is_none());
}

#[test]
fn binary_event_asks_for_its_handler_with_attachments() {
    let (mut socket, _rx) = roomy(1, "/");
    socket.on("img".to_string(), 1);
    let payload = BinaryPacket { data: "[0]".to_string(), bin: vec![vec![5], vec![6]], payload_count: 2 };
    let call = socket.recv(PacketData::BinaryEvent("img".to_string(), payload, None)).unwrap().unwrap();
    assert_eq!(*call.handler, 1);
    assert_eq!(call.data, "[0]");
    assert_eq!(call.bin, vec![vec![5u8], vec![6u8]]);
    let payload = BinaryPacket { data: "[0]".to_string(), bin: vec![vec![5]], payload_count: 1 };
    assert!(socket.recv(PacketData::BinaryEvent("none".to_string(), payload, None)).unwrap().is_none());
}

#[test]
fn connection_takes_events_and_acknowledgements_only() {
    let (mut socket, _rx) = roomy(1, "/");
    for packet in [
        PacketData::Connect(None),
        PacketData::Connect(Some("{}".to_string())),
        PacketData::ConnectError("no".to_string()),
        PacketData::Disconnect,
    ] {
        match socket.recv(packet) {
            Err(e) => assert_eq!(e, ProtocolError::InvalidPacketType),
            Ok(_) => panic!("a packet of this kind is not for a connection"),
        }
    }
}

#[test]
fn connection_knows_who_and_where_it_is() {
    let (tx, _rx) = channel::<SendPacket>(1);
    let handshake = Handshake { auth: Some("{\"t\":1}".to_string()), url: "/socket.io".to_string(), issued: 9 };
    let socket: Socket<u32> = Socket::new(77, "/chat".to_string(), handshake, tx, settings());
    assert_eq!(socket.sid, 77);
    assert_eq!(socket.ns(), "/chat");
    assert_eq!(socket.handshake.auth.as_deref(), Some("{\"t\":1}"));
    assert_eq!(socket.handshake.url, "/socket.io");
    assert_eq!(socket.handshake.issued, 9);
    let empty = Handshake::new_dummy();
    assert!(empty.auth.is_none());
    assert_eq!(empty.url, "");
    assert_eq!(empty.issued, 0);
}

#[test]
fn emit_on_two_connections_keeps_their_frames_apart() {
    let (mut a, mut rx_a) = roomy(1, "/a");
    let (mut b, mut rx_b) = roomy(2, "/b");
    a.emit("x".to_string(), "[1]".to_string()).unwrap();
    b.emit("y".to_string(), "[2]".to_string()).unwrap();
    a.emit("x".to_string(), "[3]".to_string()).unwrap();
    assert_eq!(message(rx_a.try_recv().unwrap()), "2/a,[\"x\",1]");
    assert_eq!(message(rx_a.try_recv().unwrap()), "2/a,[\"x\",3]");
    assert!(rx_a.try_recv().is_err());
    assert_eq!(message(rx_b.try_recv().unwrap()), "2/b,[\"y\",2]");
    assert!(rx_b.try_recv().is_err());
}

#[test]
fn owed_frames_of_a_connection_go_out_on_retry() {
    let (mut socket, mut rx): (Socket<u32>, _) = Socket::new_dummy(1, "/".to_string(), settings());
    let payload = BinaryPacket { data: "[0]".to_string(), bin: vec![vec![5]], payload_count: 1 };
    let packet = Packet { inner: PacketData::BinaryEvent("img".to_string(), payload, None), ns: "/".to_string() };
    socket.send(packet).unwrap();
    match socket.retry_failed() {
        Err(GoodNameError::SendFailedBinPayloads(None)) => {}
        other => panic!("unexpected result {:?}", other),
    }
    assert_eq!(message(rx.try_recv().unwrap()), "51-[\"img\",0]");
    socket.retry_failed().unwrap();
    assert!(matches!(rx.try_recv().unwrap(), SendPacket::Binary(bytes) if bytes == vec![5u8]));
    socket.resend_failed().unwrap();
    assert!(rx.try_recv().is_err());
}

#[test]
fn closed_connection_gives_up_its_waiters_and_says_nothing() {
    let (mut socket, mut rx) = roomy(1, "/");
    let mut waiter = request(&mut socket, "ask", "[]");
    assert_eq!(message(rx.try_recv().unwrap()), "21[\"ask\"]");
    socket.close();
    assert!(matches!(waiter.rx.try_recv(), Err(TryRecvError::Closed)));
    assert!(rx.try_recv().is_err());
    assert!(socket.recv(PacketData::EventAck("[]".to_string(), waiter.ack)).unwrap().is_none());
    let next = request(&mut socket, "ask", "[]");
    assert_eq!(next.ack, 2);
}
