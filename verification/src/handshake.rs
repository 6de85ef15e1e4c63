//! What is known of a peer from the moment it joined a namespace.

use vstd::prelude::*;

verus! {

/// The record of a namespace handshake.
#[derive(Debug)]
pub struct Handshake {
    /// The auth payload that came with the connect request, as text of the
    /// payload codec.
    pub auth: Option<String>,
    /// The address that the peer connected to.
    pub url: String,
    /// When the handshake was issued, in milliseconds since the epoch.
    pub issued: u64,
}

/// What a handshake holds, as mathematical values.
pub struct HandshakeView {
    pub auth: Option<Seq<char>>,
    pub url: Seq<char>,
    pub issued: u64,
}

impl View for Handshake {
    type V = HandshakeView;

    open spec fn view(&self) -> HandshakeView {
        HandshakeView {
            auth: match self.auth {
                Some(auth) => Some(auth@),
                None => None,
            },
            url: self.url@,
            issued: self.issued,
        }
    }
}

impl Handshake {
    /// A handshake with nothing in it.
    pub fn new_dummy() -> (handshake: Handshake)
        ensures
            handshake.auth is None,
            handshake.url@ == Seq::<char>::empty(),
            handshake.issued == 0,
    {
        Handshake { auth: None, url: String::new(), issued: 0 }
    }
}

} // verus!
