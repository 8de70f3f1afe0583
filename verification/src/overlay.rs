//! The peer overlay's observable state and event handling: per-peer
//! liveness results and discovered listen addresses. The transport,
//! handshake and polling live at the process edge; every event they
//! surface is decided here.

use vstd::prelude::*;
use crate::registry::Registry;

verus! {

/// The latest liveness observation for a peer: a round trip measured in
/// milliseconds, or a failed probe.
#[derive(Debug, Clone, Copy, PartialEq, Eq, Structural)]
pub enum PingOutcome {
    Success(u64),
    Failure,
}

/// An event surfaced by the overlay's transport or behaviour.
pub enum OverlayEvent {
    /// A newly discovered address this node listens on.
    NewListenAddr(String),
    /// A liveness result for one peer.
    PingResult(u128, PingOutcome),
    /// Any other event kind.
    Other,
}

/// What the event loop surfaces for an event: nothing is silently
/// discarded from observability.
#[derive(Debug, PartialEq, Eq, Structural)]
pub enum Surfaced {
    ListenAddr,
    Liveness,
    Diagnostic,
}

/// The overlay's observable state: the set of peers with their last
/// liveness result, and the addresses this node was observed listening
/// on.
pub struct NodeSwarm {
    peers: Registry<PingOutcome>,
    listen_addrs: Vec<String>,
}

impl NodeSwarm {
    pub closed spec fn wf(self) -> bool {
        self.peers.wf()
    }

    /// The model of the peer table: each observed peer's last liveness
    /// result.
    pub closed spec fn peers_map(self) -> Map<u128, PingOutcome> {
        self.peers@
    }

    /// The model of the recorded listen addresses, in discovery order.
    pub closed spec fn addrs(self) -> Seq<Seq<char>> {
        self.listen_addrs.deep_view()
    }

    pub fn new() -> (s: Self)
        ensures
            s.wf(),
            s.peers_map() == Map::<u128, PingOutcome>::empty(),
            s.addrs() == Seq::<Seq<char>>::empty(),
    {
        let s = NodeSwarm { peers: Registry::new(), listen_addrs: Vec::new() };
        proof {
            assert(s.addrs() =~= Seq::<Seq<char>>::empty());
        }
        s
    }

    /// The last liveness result recorded for `peer`, if any.
    pub fn peer_status(&self, peer: u128) -> (r: Option<PingOutcome>)
        requires
            self.wf(),
        ensures
            r matches Some(o) ==> self.peers_map().dom().contains(peer)
                && self.peers_map()[peer] == o,
            r is None ==> !self.peers_map().dom().contains(peer),
    {
        self.peers.get(peer)
    }

    /// How many peers have a recorded liveness result.
    pub fn peer_count(&self) -> (n: usize)
        requires
            self.wf(),
        ensures
            n == self.peers_map().dom().len(),
    {
        self.peers.len()
    }

    /// How many listen addresses have been recorded.
    pub fn listen_addr_count(&self) -> (n: usize)
        ensures
            n == self.addrs().len(),
    {
        self.listen_addrs.len()
    }
}

/// One step of the overlay event loop. A discovered listen address is
/// recorded; a liveness result — success or failure alike — updates
/// exactly that peer's entry and leaves every other peer's liveness
/// untouched; any other event is surfaced as a diagnostic. The step is
/// total: no event, in particular no failed probe, halts the loop.
pub fn on_overlay_event(state: &mut NodeSwarm, ev: OverlayEvent) -> (r: Surfaced)
    requires
        old(state).wf(),
    ensures
        final(state).wf(),
        r is ListenAddr <==> ev is NewListenAddr,
        r is Liveness <==> ev is PingResult,
        r is Diagnostic <==> ev is Other,
        ev matches OverlayEvent::NewListenAddr(a) ==> final(state).peers_map() == old(state).peers_map()
            && final(state).addrs() == old(state).addrs().push(a@),
        ev matches OverlayEvent::PingResult(peer, outcome) ==> final(state).peers_map()
            == old(state).peers_map().insert(peer, outcome)
            && final(state).addrs() == old(state).addrs(),
        ev is Other ==> *final(state) == *old(state),
{
    match ev {
        OverlayEvent::NewListenAddr(a) => {
            let ghost av = a@;
            state.listen_addrs.push(a);
            proof {
                assert(state.listen_addrs.deep_view() =~= old(state).listen_addrs.deep_view().push(
                    av,
                ));
            }
            Surfaced::ListenAddr
        },
        OverlayEvent::PingResult(peer, outcome) => {
            state.peers.update(peer, outcome);
            Surfaced::Liveness
        },
        OverlayEvent::Other => Surfaced::Diagnostic,
    }
}

} // verus!
