//! The one event stream the UI consumes: keystrokes, ticks, discovered
//! peers, and connection events, merged by the surrounding program.

use vstd::prelude::*;
use crate::net::SsbPeer;
use crate::peer_manager::PeerManagerEvent;

verus! {

/// One event on the bus, generic over the input-key type the terminal
/// layer delivers.
pub enum Event<I> {
    Input(I),
    Tick,
    NewPeer(SsbPeer),
    PeerManagerEvent(PeerManagerEvent),
}

} // verus!
