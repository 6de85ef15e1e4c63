//! Rooms: named groups of connections inside a namespace. Who is in which
//! room is kept by an adapter, which the application chooses; the library
//! only asks it.

use vstd::prelude::*;

verus! {

/// The name of a room.
pub type Room = String;

/// The names of a list of rooms.
pub open spec fn room_names(rooms: Seq<Room>) -> Seq<Seq<char>> {
    rooms.map_values(|r: Room| r@)
}

/// The keeper of the rooms of one namespace. Each operation says in its
/// own terms what it did; the library passes that on and adds nothing.
pub trait Adapter: Sized {
    /// What can go wrong inside the adapter.
    type Error;

    /// What `add_all` does to the adapter and answers. An adapter that
    /// does not say is held to nothing.
    open spec fn added(
        before: Self,
        sid: i64,
        rooms: Seq<Seq<char>>,
        after: Self,
        r: Result<(), Self::Error>,
    ) -> bool {
        true
    }

    /// What `del` does to the adapter and answers.
    open spec fn deleted(
        before: Self,
        sid: i64,
        rooms: Seq<Seq<char>>,
        after: Self,
        r: Result<(), Self::Error>,
    ) -> bool {
        true
    }

    /// What `del_all` does to the adapter and answers.
    open spec fn cleared(before: Self, sid: i64, after: Self, r: Result<(), Self::Error>) -> bool {
        true
    }

    /// What `socket_rooms` answers.
    open spec fn listed(&self, sid: i64, r: Result<Vec<Room>, Self::Error>) -> bool {
        true
    }

    /// Puts the connection `sid` into `rooms`.
    fn add_all(&mut self, sid: i64, rooms: Vec<Room>) -> (r: Result<(), Self::Error>)
        ensures
            Self::added(*old(self), sid, room_names(rooms@), *final(self), r),
    ;

    /// Takes the connection `sid` out of `rooms`.
    fn del(&mut self, sid: i64, rooms: Vec<Room>) -> (r: Result<(), Self::Error>)
        ensures
            Self::deleted(*old(self), sid, room_names(rooms@), *final(self), r),
    ;

    /// Takes the connection `sid` out of every room.
    fn del_all(&mut self, sid: i64) -> (r: Result<(), Self::Error>)
        ensures
            Self::cleared(*old(self), sid, *final(self), r),
    ;

    /// The rooms that the connection `sid` is in.
    fn socket_rooms(&self, sid: i64) -> (r: Result<Vec<Room>, Self::Error>)
        ensures
            self.listed(sid, r),
    ;
}

} // verus!
