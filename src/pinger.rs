//! The client's liveness pings: when one is due, and which peer gets it.
use vstd::prelude::*;

verus! {

/// How often the client pings the server, in milliseconds.
pub const PING_INTERVAL_MS: u64 = 2000;

/// The state of the client's ping sender: the peer learned from the first
/// datagram, and when the last round of pinging was.
pub struct Pinger<P> {
    /// The endpoint that sent the first datagram, once one has come.
    pub peer: Option<P>,
    /// When the last round was, in milliseconds on the client's clock.
    pub last_ms: u64,
    /// How long between two rounds.
    pub interval_ms: u64,
}

/// What the ping sender does in one round.
pub enum PingAction<P> {
    /// Nothing yet.
    Wait,
    /// Send a ping to this peer.
    Send(P),
}

/// A round is due: at least the interval has passed since the last one.
pub open spec fn ping_due(last: u64, now: u64, interval: u64) -> bool {
    now >= last && now - last >= interval
}

impl<P: Copy> Pinger<P> {
    pub fn new(now_ms: u64, interval_ms: u64) -> (r: Pinger<P>)
        ensures
            r.peer is None,
            r.last_ms == now_ms,
            r.interval_ms == interval_ms,
    {
        Pinger { peer: None, last_ms: now_ms, interval_ms }
    }

    /// Takes note of the source of a received datagram: only the first one
    /// is kept.
    pub fn learn_peer(&mut self, from: P)
        ensures
            final(self).peer == (if old(self).peer is None {
                Some(from)
            } else {
                old(self).peer
            }),
            final(self).last_ms == old(self).last_ms,
            final(self).interval_ms == old(self).interval_ms,
    {
        if self.peer.is_none() {
            self.peer = Some(from);
        }
    }

    /// One round at `now_ms`: when a round is due, it starts anew, and the
    /// peer gets a ping if one is known.
    pub fn step(&mut self, now_ms: u64) -> (r: PingAction<P>)
        ensures
            final(self).peer == old(self).peer,
            final(self).interval_ms == old(self).interval_ms,
            ping_due(old(self).last_ms, now_ms, old(self).interval_ms) ==> final(self).last_ms
                == now_ms,
            !ping_due(old(self).last_ms, now_ms, old(self).interval_ms) ==> final(self).last_ms
                == old(self).last_ms && r is Wait,
            ping_due(old(self).last_ms, now_ms, old(self).interval_ms) ==> (match old(self).peer {
                Some(p) => r == PingAction::Send(p),
                None => r is Wait,
            }),
    {
        if now_ms >= self.last_ms && now_ms - self.last_ms >= self.interval_ms {
            self.last_ms = now_ms;
            match self.peer {
                Some(p) => PingAction::Send(p),
                None => PingAction::Wait,
            }
        } else {
            PingAction::Wait
        }
    }
}

} // verus!
