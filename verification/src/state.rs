//! The connection lifecycle as an explicit state machine.
//!
//! ```text
//! Initial     -> Handshake
//! Handshake   -> Established | Closed
//! Established -> Rekey | Closed
//! Rekey       -> Established | Closed
//! Closed      -> (none)
//! ```
use vstd::prelude::*;
use vstd::string::StringExecFns;

verus! {

#[derive(Debug, Clone, Copy, PartialEq, Eq, Hash, Structural)]
pub enum ProtocolState {
    /// Nothing was exchanged yet.
    Initial,
    /// The handshake is in progress.
    Handshake,
    /// The session is active.
    Established,
    /// The keys are used up.
    Rekey,
    /// Terminal.
    Closed,
}

/// A transition that is not part of the lifecycle.
#[derive(Debug, Clone, Copy, PartialEq, Eq, Structural)]
pub struct InvalidTransition {
    pub from: ProtocolState,
    pub to: ProtocolState,
}

/// The arcs of the lifecycle.
pub open spec fn allowed(from: ProtocolState, to: ProtocolState) -> bool {
    match from {
        ProtocolState::Initial => to == ProtocolState::Handshake,
        ProtocolState::Handshake => to == ProtocolState::Established || to == ProtocolState::Closed,
        ProtocolState::Established => to == ProtocolState::Rekey || to == ProtocolState::Closed,
        ProtocolState::Rekey => to == ProtocolState::Established || to == ProtocolState::Closed,
        ProtocolState::Closed => false,
    }
}

/// Stable name of a state.
pub open spec fn state_name(s: ProtocolState) -> Seq<char> {
    match s {
        ProtocolState::Initial => "initial"@,
        ProtocolState::Handshake => "handshake"@,
        ProtocolState::Established => "established"@,
        ProtocolState::Rekey => "rekey"@,
        ProtocolState::Closed => "closed"@,
    }
}

/// `Closed` is the only state without a way out, and every other state but
/// `Initial` leads to it in one step.
pub proof fn closed_is_the_only_sink(s: ProtocolState)
    ensures
        (forall|t: ProtocolState| !allowed(s, t)) <==> s == ProtocolState::Closed,
        s != ProtocolState::Initial && s != ProtocolState::Closed ==> allowed(
            s,
            ProtocolState::Closed,
        ),
{
    assert(allowed(ProtocolState::Initial, ProtocolState::Handshake));
    assert(allowed(ProtocolState::Handshake, ProtocolState::Closed));
    assert(allowed(ProtocolState::Established, ProtocolState::Closed));
    assert(allowed(ProtocolState::Rekey, ProtocolState::Closed));
}

/// The only way into `Established` leads through the handshake, or back from a
/// rotation of an established session.
pub proof fn established_needs_a_handshake(s: ProtocolState)
    ensures
        allowed(s, ProtocolState::Established) <==> s == ProtocolState::Handshake || s
            == ProtocolState::Rekey,
        allowed(s, ProtocolState::Rekey) <==> s == ProtocolState::Established,
        !allowed(s, ProtocolState::Initial),
{
}

impl ProtocolState {
    /// All states, in lifecycle order.
    pub const ALL: [ProtocolState; 5] = [
        ProtocolState::Initial,
        ProtocolState::Handshake,
        ProtocolState::Established,
        ProtocolState::Rekey,
        ProtocolState::Closed,
    ];

    /// Whether no transition leaves this state.
    pub fn is_terminal(self) -> (r: bool)
        ensures
            r == (self == ProtocolState::Closed),
            r == (forall|t: ProtocolState| !allowed(self, t)),
    {
        proof {
            closed_is_the_only_sink(self);
        }
        matches!(self, ProtocolState::Closed)
    }

    pub fn can_transition_to(self, to: ProtocolState) -> (r: bool)
        ensures
            r == allowed(self, to),
    {
        matches!(
            (self, to),
            (ProtocolState::Initial, ProtocolState::Handshake)
                | (ProtocolState::Handshake, ProtocolState::Established)
                | (ProtocolState::Handshake, ProtocolState::Closed)
                | (ProtocolState::Established, ProtocolState::Rekey)
                | (ProtocolState::Established, ProtocolState::Closed)
                | (ProtocolState::Rekey, ProtocolState::Established)
                | (ProtocolState::Rekey, ProtocolState::Closed)
        )
    }

    /// The next state, or the transition that was rejected.
    pub fn transition(self, to: ProtocolState) -> (r: Result<ProtocolState, InvalidTransition>)
        ensures
            r == if allowed(self, to) {
                Ok::<ProtocolState, InvalidTransition>(to)
            } else {
                Err::<ProtocolState, InvalidTransition>(InvalidTransition { from: self, to })
            },
    {
        if self.can_transition_to(to) {
            Ok(to)
        } else {
            Err(InvalidTransition { from: self, to })
        }
    }

    pub fn as_str(self) -> (r: &'static str)
        ensures
            r@ == state_name(self),
    {
        match self {
            ProtocolState::Initial => "initial",
            ProtocolState::Handshake => "handshake",
            ProtocolState::Established => "established",
            ProtocolState::Rekey => "rekey",
            ProtocolState::Closed => "closed",
        }
    }
}

impl InvalidTransition {
    /// The text of the error.
    pub fn describe(&self) -> (r: String)
        ensures
            r@ == "invalid state transition: "@ + state_name(self.from) + " -> "@ + state_name(
                self.to,
            ),
    {
        let mut text = String::from_str("invalid state transition: ");
        text.append(self.from.as_str());
        text.append(" -> ");
        text.append(self.to.as_str());
        text
    }
}

/// The lifecycle has exactly seven arcs: a handshake begins only once, it leads
/// to a session or to the end, a session goes back and forth between active and
/// rekeying, and every state but the first can be closed. No state leads to
/// itself.
pub proof fn lifecycle_has_no_other_arcs(s: ProtocolState, t: ProtocolState)
    ensures
        allowed(s, ProtocolState::Handshake) <==> s == ProtocolState::Initial,
        allowed(s, ProtocolState::Closed) <==> s == ProtocolState::Handshake || s
            == ProtocolState::Established || s == ProtocolState::Rekey,
        allowed(s, ProtocolState::Established) <==> s == ProtocolState::Handshake || s
            == ProtocolState::Rekey,
        allowed(s, ProtocolState::Rekey) <==> s == ProtocolState::Established,
        !allowed(s, ProtocolState::Initial),
        !allowed(s, s),
        allowed(s, t) && allowed(t, s) ==> s != ProtocolState::Initial && t
            != ProtocolState::Initial && s != ProtocolState::Closed && t != ProtocolState::Closed,
{
}

} // verus!
