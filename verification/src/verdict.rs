//! The verdict state machine: per intercepted packet, consult the latest
//! address observation, switch between dropping and rewriting, and decide
//! what to hand back to the kernel queue.

use vstd::prelude::*;

use crate::addr::Ipv6Address;
use crate::mutate::{modify, mutate_spec, RewriteOutcome, SpecOutcome};

verus! {

/// The latest word from the address watcher, drained from the single-slot
/// mailbox: nothing new since the last look, the interface currently has no
/// usable global address, or it has this one.
pub enum AddressObservation {
    NoNews,
    Absent,
    Present(Ipv6Address),
}

/// The two states of the verdict machine: dropping every packet while no
/// usable address is known, or rewriting with the currently known address.
pub enum VerdictState {
    Dropping,
    Rewriting(Ipv6Address),
}

/// What to do with the current queue message: drop it, or replace its
/// payload with these bytes, mark it, and ask the kernel to re-evaluate it.
pub enum PacketAction {
    Drop,
    Repeat(Vec<u8>),
}

/// The state after an observation is applied: a present address switches to
/// rewriting with it, an absent address switches to dropping, and no news
/// leaves the state alone.  The observation acts before the packet is
/// judged, so a change of address takes effect on the very message that
/// follows it, not on the next watcher tick.
pub open spec fn observed_state(state: VerdictState, obs: AddressObservation) -> VerdictState {
    match obs {
        AddressObservation::NoNews => state,
        AddressObservation::Absent => VerdictState::Dropping,
        AddressObservation::Present(a) => VerdictState::Rewriting(a),
    }
}

/// Handle one queue message: apply the latest observation to the state,
/// then either drop the packet (no usable address, a packet this mutator
/// does not handle, or a malformed one) or hand back the payload to
/// re-inject — the rewritten bytes, or the original ones when the packet
/// needed no change, so that the packet still picks up the firewall mark
/// that keeps it from being queued again.
pub fn step(state: &VerdictState, obs: &AddressObservation, payload: &[u8], mtu: Option<u32>) -> (r:
    (VerdictState, PacketAction))
    ensures
        r.0 == observed_state(*state, *obs),
        match observed_state(*state, *obs) {
            VerdictState::Dropping => r.1 is Drop,
            VerdictState::Rewriting(a) => match mutate_spec(payload@, a@, mtu) {
                SpecOutcome::Rewritten(v) => r.1 matches PacketAction::Repeat(p) && p@ == v,
                SpecOutcome::Unchanged => r.1 matches PacketAction::Repeat(p) && p@ == payload@,
                SpecOutcome::NotApplicable => r.1 is Drop,
            },
        },
{
    let next = match obs {
        AddressObservation::NoNews => match state {
            VerdictState::Dropping => VerdictState::Dropping,
            VerdictState::Rewriting(a) => VerdictState::Rewriting(*a),
        },
        AddressObservation::Absent => VerdictState::Dropping,
        AddressObservation::Present(a) => VerdictState::Rewriting(*a),
    };
    let action = match &next {
        VerdictState::Dropping => PacketAction::Drop,
        VerdictState::Rewriting(a) => match modify(payload, a, mtu) {
            RewriteOutcome::Rewritten(v) => PacketAction::Repeat(v),
            RewriteOutcome::Unchanged => PacketAction::Repeat(copy_payload(payload)),
            RewriteOutcome::NotApplicable => PacketAction::Drop,
        },
    };
    (next, action)
}

/// A fresh buffer holding the original payload, re-injected unchanged.
fn copy_payload(payload: &[u8]) -> (r: Vec<u8>)
    ensures
        r@ == payload@,
{
    let mut r: Vec<u8> = Vec::new();
    crate::options::extend_from_range(&mut r, payload, 0, payload.len());
    proof {
        assert(payload@.subrange(0, payload@.len() as int) =~= payload@);
    }
    r
}

} // verus!
