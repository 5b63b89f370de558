use vstd::prelude::*;

use crate::stream::Polled;

verus! {

/// The progress of negotiating encryption over a stream. A handshake is started once and
/// ends once, in success or in failure; nothing is retried.
#[derive(Debug, Clone, Copy, PartialEq, Eq, Structural)]
pub enum Handshake {
    /// Not started.
    Idle,
    /// Started and not yet resolved.
    Handshaking,
    /// Resolved: the stream is encrypted.
    Established,
    /// Resolved: the negotiation failed.
    Failed,
}

impl Handshake {
    /// Whether the handshake has resolved, either way.
    pub open spec fn is_done(self) -> bool {
        self == Handshake::Established || self == Handshake::Failed
    }

    /// A handshake that has not started.
    pub fn new() -> (r: Self)
        ensures
            r == Handshake::Idle,
    {
        Handshake::Idle
    }

    /// Starts the handshake.
    pub fn start(&mut self)
        requires
            *old(self) == Handshake::Idle,
        ensures
            *final(self) == Handshake::Handshaking,
    {
        *self = Handshake::Handshaking;
    }

    /// Takes one poll of the negotiation and hands it on unchanged: a result resolves the
    /// handshake, success or failure as the result says; a pending poll leaves it going.
    pub fn on_poll<S, E>(&mut self, polled: Polled<S, E>) -> (r: Polled<S, E>)
        requires
            *old(self) == Handshake::Handshaking,
        ensures
            r == polled,
            match polled {
                Polled::Ready(Ok(_)) => *final(self) == Handshake::Established,
                Polled::Ready(Err(_)) => *final(self) == Handshake::Failed,
                Polled::Pending => *final(self) == Handshake::Handshaking,
            },
    {
        match polled {
            Polled::Ready(Ok(s)) => {
                *self = Handshake::Established;
                Polled::Ready(Ok(s))
            },
            Polled::Ready(Err(e)) => {
                *self = Handshake::Failed;
                Polled::Ready(Err(e))
            },
            Polled::Pending => Polled::Pending,
        }
    }

    /// Whether the handshake has resolved, either way.
    pub fn is_finished(&self) -> (r: bool)
        ensures
            r == self.is_done(),
    {
        match self {
            Handshake::Established | Handshake::Failed => true,
            _ => false,
        }
    }
}

} // verus!
