use pq_tunnel_core::state::ProtocolState;

/// Expected transitions, indexed `[from][to]` in the order of
/// `ProtocolState::ALL`.
const EXPECTED_TRANSITIONS: [[bool; 5]; 5] = [
    // from \ to:        Initial  Handshake  Established  Rekey  Closed
    /* Initial */
    [false, true, false, false, false],
    /* Handshake */ [false, false, true, false, true],
    /* Established */ [false, false, false, true, true],
    /* Rekey */ [false, false, true, false, true],
    /* Closed */ [false, false, false, false, false],
];

fn idx(s: ProtocolState) -> usize {
    ProtocolState::ALL
        .iter()
        .position(|&x| x == s)
        .expect("state is in ALL")
}

/// Every (from, to) pair must match the documented lifecycle table, for both
/// `can_transition_to` and `transition` (which must fail closed, returning
/// the exact transition in the error).
#[test]
fn transition_matrix_matches_documented_lifecycle() {
    for from in ProtocolState::ALL {
        for to in ProtocolState::ALL {
            let expected = EXPECTED_TRANSITIONS[idx(from)][idx(to)];
            assert_eq!(
                from.can_transition_to(to),
                expected,
                "{from:?} -> {to:?} must be {}",
                if expected { "allowed" } else { "rejected" }
            );
            match from.transition(to) {
                Ok(got) => {
                    assert!(expected, "{from:?} -> {to:?} must be rejected, got Ok({got:?})");
                    assert_eq!(got, to);
                }
                Err(e) => {
                    assert!(!expected, "{from:?} -> {to:?} must succeed, got rejection");
                    assert_eq!(e.from, from);
                    assert_eq!(e.to, to);
                }
            }
        }
    }
}

/// The documented linear lifecycle:
/// INITIAL → HANDSHAKE → ESTABLISHED → REKEY → CLOSED
/// plus the terminal short-circuits (Handshake → Closed, Established →
/// Closed, Rekey → Closed) that make Closed
/// reachable from every non-terminal state.
#[test]
fn every_documented_arc_is_allowed() {
    let mut s = ProtocolState::Initial;
    s = s.transition(ProtocolState::Handshake).unwrap();
    s = s.transition(ProtocolState::Established).unwrap();
    s = s.transition(ProtocolState::Rekey).unwrap();
    s = s.transition(ProtocolState::Closed).unwrap();
    assert_eq!(s, ProtocolState::Closed);

    // Short-circuits to Closed from every non-terminal, non-initial state
    // (Initial may only proceed to Handshake — the documented lifecycle
    // never goes directly from Initial to Closed).
    for from in [
        ProtocolState::Handshake,
        ProtocolState::Established,
        ProtocolState::Rekey,
    ] {
        assert!(
            from.can_transition_to(ProtocolState::Closed),
            "{from:?} -> Closed must be allowed (Closed is reachable from every non-initial state)"
        );
    }
}

#[test]
fn closed_is_terminal() {
    assert!(ProtocolState::Closed.is_terminal());
    assert!(!ProtocolState::Initial.is_terminal());
    assert!(!ProtocolState::Handshake.is_terminal());
    assert!(!ProtocolState::Established.is_terminal());
    assert!(!ProtocolState::Rekey.is_terminal());
}

#[test]
fn rekey_returns_to_established() {
    // Rekeying preserves communication continuity → Rekey → Established.
    assert!(ProtocolState::Rekey.can_transition_to(ProtocolState::Established));
    let s = ProtocolState::Established
        .transition(ProtocolState::Rekey)
        .unwrap()
        .transition(ProtocolState::Established)
        .unwrap();
    assert_eq!(s, ProtocolState::Established);
}

#[test]
fn display_strings_are_stable() {
    assert_eq!(ProtocolState::Initial.as_str(), "initial");
    assert_eq!(ProtocolState::Handshake.as_str(), "handshake");
    assert_eq!(ProtocolState::Established.as_str(), "established");
    assert_eq!(ProtocolState::Rekey.as_str(), "rekey");
    assert_eq!(ProtocolState::Closed.as_str(), "closed");
}

#[test]
fn error_display_is_explicit() {
    let e = ProtocolState::Initial
        .transition(ProtocolState::Established)
        .unwrap_err();
    assert_eq!(
        e.describe(),
        "invalid state transition: initial -> established"
    );
}

#[test]
fn all_lists_every_state_once() {
    for (i, a) in ProtocolState::ALL.iter().enumerate() {
        for (j, b) in ProtocolState::ALL.iter().enumerate() {
            assert_eq!(a == b, i == j);
        }
    }
    assert_eq!(ProtocolState::ALL.len(), 5);
}
