use engineioxide::SendPacket;
use socketioxide::adapter::{Adapter, Room};
use socketioxide::config::SocketIoConfig;
use socketioxide::operators::Operators;
use socketioxide::socket::Socket;
use std::time::Duration;
use tokio::sync::mpsc::Receiver;

fn rooms(names: &[&str]) -> Vec<Room> {
    names.iter().map(|name| name.to_string()).collect()
}

fn member() -> (Socket<()>, Receiver<SendPacket>) {
    Socket::new_dummy(7, "/chat".to_string(), SocketIoConfig { ack_timeout: Duration::from_secs(5) })
}

struct Ledger {
    members: Vec<(i64, Room)>,
    closed: bool,
}

impl Adapter for Ledger {
    type Error = String;

    fn add_all(&mut self, sid: i64, rooms: Vec<Room>) -> Result<(), String> {
        if self.closed {
            return Err("closed".to_string());
        }
        for room in rooms {
            self.members.push((sid, room));
        }
        Ok(())
    }

    fn del(&mut self, sid: i64, rooms: Vec<Room>) -> Result<(), String> {
        self.members.retain(|(who, room)| *who != sid || !rooms.contains(room));
        Ok(())
    }

    fn del_all(&mut self, sid: i64) -> Result<(), String> {
        self.members.retain(|(who, _)| *who != sid);
        Ok(())
    }

    fn socket_rooms(&self, sid: i64) -> Result<Vec<Room>, String> {
        Ok(self.members.iter().filter(|(who, _)| *who == sid).map(|(_, room)| room.clone()).collect())
    }
}

#[test]
fn fresh_choice_is_everyone() {
    let ops = Operators::new("/chat".to_string(), 7);
    assert_eq!(ops.ns, "/chat");
    assert_eq!(ops.sid, 7);
    assert!(ops.rooms.is_empty());
    assert!(ops.except.is_empty());
    assert!(!ops.broadcast);
    assert!(!ops.local);
    assert_eq!(ops.timeout, None);
    assert!(ops.binary.is_empty());
}

#[test]
fn to_adds_rooms_and_leaves_the_sender_out() {
    let ops = Operators::new("/".to_string(), 1).to(rooms(&["a", "b"])).to(rooms(&["c"]));
    assert_eq!(ops.rooms, rooms(&["a", "b", "c"]));
    assert!(ops.broadcast);
    assert!(ops.except.is_empty());
}

#[test]
fn within_adds_rooms_and_keeps_the_sender() {
    let ops = Operators::new("/".to_string(), 1).within(rooms(&["a"])).within(rooms(&["b"]));
    assert_eq!(ops.rooms, rooms(&["a", "b"]));
    assert!(!ops.broadcast);
}

#[test]
fn except_leaves_rooms_and_the_sender_out() {
    let ops = Operators::new("/".to_string(), 1).except(rooms(&["x"])).except(rooms(&["y", "z"]));
    assert_eq!(ops.except, rooms(&["x", "y", "z"]));
    assert!(ops.rooms.is_empty());
    assert!(ops.broadcast);
}

#[test]
fn flags_and_attachments_of_a_choice() {
    let ops = Operators::new("/".to_string(), 1)
        .local()
        .timeout(Duration::from_millis(50))
        .bin(vec![vec![1], vec![2, 3]]);
    assert!(ops.local);
    assert!(!ops.broadcast);
    assert_eq!(ops.timeout, Some(Duration::from_millis(50)));
    assert_eq!(ops.binary, vec![vec![1u8], vec![2u8, 3]]);
    let ops = ops.broadcast();
    assert!(ops.broadcast);
    assert!(ops.local);
}

#[test]
fn connection_starts_a_choice_from_itself() {
    let (socket, _rx) = member();
    let ops = socket.to(rooms(&["a"]));
    assert_eq!(ops.ns, "/chat");
    assert_eq!(ops.sid, 7);
    assert_eq!(ops.rooms, rooms(&["a"]));
    assert!(ops.broadcast);
    let ops = socket.within(rooms(&["a"]));
    assert_eq!(ops.rooms, rooms(&["a"]));
    assert!(!ops.broadcast);
    let ops = socket.except(rooms(&["a"]));
    assert_eq!(ops.except, rooms(&["a"]));
    assert!(ops.broadcast);
    assert!(socket.local().local);
    assert_eq!(socket.timeout(Duration::from_secs(1)).timeout, Some(Duration::from_secs(1)));
    assert_eq!(socket.bin(vec![vec![9]]).binary, vec![vec![9u8]]);
    let ops = socket.broadcast();
    assert!(ops.broadcast);
    assert_eq!(ops.sid, 7);
    assert!(ops.rooms.is_empty());
}

#[test]
fn rooms_are_the_adapter_s_to_keep() {
    let (socket, _rx) = member();
    let mut ledger = Ledger { members: vec![(8, "a".to_string())], closed: false };
    socket.join(&mut ledger, rooms(&["a", "b", "c"])).unwrap();
    assert_eq!(socket.rooms(&ledger).unwrap(), rooms(&["a", "b", "c"]));
    socket.leave(&mut ledger, rooms(&["b"])).unwrap();
    assert_eq!(socket.rooms(&ledger).unwrap(), rooms(&["a", "c"]));
    socket.leave_all(&mut ledger).unwrap();
    assert!(socket.rooms(&ledger).unwrap().is_empty());
    assert_eq!(ledger.members, vec![(8, "a".to_string())]);
}

#[test]
fn failure_of_the_adapter_is_passed_on() {
    let (socket, _rx) = member();
    let mut ledger = Ledger { members: Vec::new(), closed: true };
    assert_eq!(socket.join(&mut ledger, rooms(&["a"])), Err("closed".to_string()));
}
