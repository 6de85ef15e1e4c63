//! The choice of whom a broadcast goes to, built up step by step.

use crate::adapter::{room_names, Room};
use crate::packet::attachment_views;
use std::time::Duration;
use vstd::prelude::*;

verus! {

/// Whom a broadcast from one connection goes to, and what goes with it.
pub struct Operators {
    pub ns: String,
    pub sid: i64,
    pub rooms: Vec<Room>,
    pub except: Vec<Room>,
    pub broadcast: bool,
    pub local: bool,
    pub timeout: Option<Duration>,
    pub binary: Vec<Vec<u8>>,
}

/// What a choice holds, as mathematical values.
pub struct OperatorsView {
    /// The namespace of the sending connection.
    pub ns: Seq<char>,
    /// The sending connection.
    pub sid: i64,
    /// The rooms whose members are chosen; none stands for the whole
    /// namespace.
    pub rooms: Seq<Seq<char>>,
    /// The rooms whose members are left out.
    pub except: Seq<Seq<char>>,
    /// Whether the sending connection itself is left out.
    pub broadcast: bool,
    /// Whether only connections of this node are chosen.
    pub local: bool,
    /// How long to wait for acknowledgements, where the call says so.
    pub timeout: Option<Duration>,
    /// The attachments that go with the message.
    pub binary: Seq<Seq<u8>>,
}

impl View for Operators {
    type V = OperatorsView;

    open spec fn view(&self) -> OperatorsView {
        OperatorsView {
            ns: self.ns@,
            sid: self.sid,
            rooms: room_names(self.rooms@),
            except: room_names(self.except@),
            broadcast: self.broadcast,
            local: self.local,
            timeout: self.timeout,
            binary: attachment_views(self.binary@),
        }
    }
}

impl Operators {
    /// The choice of everyone in the namespace `ns`, the sender `sid`
    /// included, with nothing attached.
    pub fn new(ns: String, sid: i64) -> (ops: Operators)
        ensures
            ops@ == (OperatorsView {
                ns: ns@,
                sid,
                rooms: Seq::empty(),
                except: Seq::empty(),
                broadcast: false,
                local: false,
                timeout: None,
                binary: Seq::empty(),
            }),
    {
        let ops = Operators {
            ns,
            sid,
            rooms: Vec::new(),
            except: Vec::new(),
            broadcast: false,
            local: false,
            timeout: None,
            binary: Vec::new(),
        };
        assert(ops@.rooms =~= Seq::<Seq<char>>::empty());
        assert(ops@.except =~= Seq::<Seq<char>>::empty());
        assert(ops@.binary =~= Seq::<Seq<u8>>::empty());
        ops
    }

    /// Chooses the members of `rooms` as well, and leaves the sender out.
    pub fn to(self, rooms: Vec<Room>) -> (ops: Operators)
        ensures
            ops@ == (OperatorsView {
                rooms: self@.rooms + room_names(rooms@),
                broadcast: true,
                ..self@
            }),
    {
        let mut ops = self;
        let ghost added = room_names(rooms@);
        let mut rooms = rooms;
        ops.rooms.append(&mut rooms);
        ops.broadcast = true;
        assert(ops@.rooms =~= self@.rooms + added);
        ops
    }

    /// Chooses the members of `rooms` as well, the sender among them if it
    /// is one.
    pub fn within(self, rooms: Vec<Room>) -> (ops: Operators)
        ensures
            ops@ == (OperatorsView { rooms: self@.rooms + room_names(rooms@), ..self@ }),
    {
        let mut ops = self;
        let ghost added = room_names(rooms@);
        let mut rooms = rooms;
        ops.rooms.append(&mut rooms);
        assert(ops@.rooms =~= self@.rooms + added);
        ops
    }

    /// Leaves the members of `rooms` out, and the sender.
    pub fn except(self, rooms: Vec<Room>) -> (ops: Operators)
        ensures
            ops@ == (OperatorsView {
                except: self@.except + room_names(rooms@),
                broadcast: true,
                ..self@
            }),
    {
        let mut ops = self;
        let ghost added = room_names(rooms@);
        let mut rooms = rooms;
        ops.except.append(&mut rooms);
        ops.broadcast = true;
        assert(ops@.except =~= self@.except + added);
        ops
    }

    /// Keeps to the connections of this node.
    pub fn local(self) -> (ops: Operators)
        ensures
            ops@ == (OperatorsView { local: true, ..self@ }),
    {
        let mut ops = self;
        ops.local = true;
        ops
    }

    /// Leaves the sender out.
    pub fn broadcast(self) -> (ops: Operators)
        ensures
            ops@ == (OperatorsView { broadcast: true, ..self@ }),
    {
        let mut ops = self;
        ops.broadcast = true;
        ops
    }

    /// Sets how long to wait for acknowledgements.
    pub fn timeout(self, timeout: Duration) -> (ops: Operators)
        ensures
            ops@ == (OperatorsView { timeout: Some(timeout), ..self@ }),
    {
        let mut ops = self;
        ops.timeout = Some(timeout);
        ops
    }

    /// Attaches `binary` to the message, in place of what was attached.
    pub fn bin(self, binary: Vec<Vec<u8>>) -> (ops: Operators)
        ensures
            ops@ == (OperatorsView { binary: attachment_views(binary@), ..self@ }),
    {
        let mut ops = self;
        ops.binary = binary;
        ops
    }
}

} // verus!
