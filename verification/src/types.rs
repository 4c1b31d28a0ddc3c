//! The event and error taxonomy of the registry.

use vstd::prelude::*;

verus! {

/// A record of a successful mutation. The registry reports the event to its
/// caller; delivering it to an event sink is the host runtime's concern.
#[derive(Clone, Copy, Debug, PartialEq, Eq, Structural)]
pub enum MembershipEvent {
    /// An identity was added to the registry.
    MemberAdded,
    /// An identity was removed from the registry.
    MemberRemoved,
}

/// A recoverable, caller-visible failure of an operation. A failed operation
/// never mutates the registry.
#[derive(Clone, Copy, Debug, PartialEq, Eq, Structural)]
pub enum MembershipError {
    /// The identity is already a member.
    AlreadyMember,
    /// The identity is not a member.
    NotMember,
    /// The registry is at capacity.
    TooManyMembers,
    /// The caller does not hold the capability the operation demands.
    NotAuthorized,
}

/// A fatal, startup-only failure of genesis seeding. The host runtime must
/// refuse to start when it sees one: the registry never becomes active with
/// an invariant already violated.
#[derive(Clone, Copy, Debug, PartialEq, Eq, Structural)]
pub enum GenesisError {
    /// The genesis input names the same identity twice.
    DuplicateMemberAtGenesis,
    /// The genesis input is longer than the registry's capacity.
    TooManyMembers,
}

/// The verdict of an authorization policy for one caller.
#[derive(Clone, Copy, Debug, PartialEq, Eq, Structural)]
pub enum AuthorizationOutcome {
    /// The caller may perform the operation.
    Authorized,
    /// The caller may not perform the operation.
    Rejected,
}

} // verus!
