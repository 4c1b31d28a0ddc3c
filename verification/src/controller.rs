//! The operation layer over the membership store: authorization-gated
//! `add_member` and `remove_member`, and the one-time genesis `initialize`.
//!
//! Every operation is a pure state transition. The spec functions
//! [`add_member_outcome`], [`add_member_next`], [`remove_member_outcome`] and
//! [`remove_member_next`] say, for any state, exactly what an operation
//! returns and what the member sequence becomes; the executable methods are
//! proved to follow them.

use crate::store::{
    MembershipStore, genesis_outcome, insert_next, insert_outcome, remove_next, remove_outcome,
};
use crate::types::{AuthorizationOutcome, GenesisError, MembershipError, MembershipEvent};
use vstd::prelude::*;

verus! {

/// An authorization capability for one kind of operation. A deployment picks
/// one policy per operation; the controller depends only on this interface.
pub trait AuthorizationChecker {
    /// Which callers this policy authorizes.
    spec fn authorized(&self, caller: u64) -> bool;

    /// Evaluates the policy for `caller`. Deterministic and free of side
    /// effects on the registry.
    fn check(&self, caller: u64) -> (outcome: AuthorizationOutcome)
        ensures
            (outcome is Authorized) == self.authorized(caller),
    ;
}

/// The policy that admits exactly one designated root caller.
pub struct RootOnly {
    pub root: u64,
}

impl AuthorizationChecker for RootOnly {
    open spec fn authorized(&self, caller: u64) -> bool {
        caller == self.root
    }

    fn check(&self, caller: u64) -> (outcome: AuthorizationOutcome) {
        if caller == self.root {
            AuthorizationOutcome::Authorized
        } else {
            AuthorizationOutcome::Rejected
        }
    }
}

/// The policy that admits any caller on a fixed list of approvers.
pub struct AnyOfApprovers {
    pub approvers: Vec<u64>,
}

impl AuthorizationChecker for AnyOfApprovers {
    open spec fn authorized(&self, caller: u64) -> bool {
        self.approvers@.contains(caller)
    }

    fn check(&self, caller: u64) -> (outcome: AuthorizationOutcome) {
        let mut i: usize = 0;
        while i < self.approvers.len()
            invariant
                i <= self.approvers@.len(),
                forall|k: int| 0 <= k < i ==> self.approvers@[k] != caller,
            decreases self.approvers@.len() - i,
        {
            if self.approvers[i] == caller {
                return AuthorizationOutcome::Authorized;
            }
            i += 1;
        }
        AuthorizationOutcome::Rejected
    }
}

/// What `MembershipController::add_member` returns, for any authorization
/// verdict and member sequence.
pub open spec fn add_member_outcome(
    authorized: bool,
    members: Seq<u64>,
    max: nat,
    id: u64,
) -> Result<MembershipEvent, MembershipError> {
    if !authorized {
        Err(MembershipError::NotAuthorized)
    } else {
        match insert_outcome(members, max, id) {
            Ok(()) => Ok(MembershipEvent::MemberAdded),
            Err(e) => Err(e),
        }
    }
}

/// The member sequence after `MembershipController::add_member`.
pub open spec fn add_member_next(
    authorized: bool,
    members: Seq<u64>,
    max: nat,
    id: u64,
) -> Seq<u64> {
    if authorized {
        insert_next(members, max, id)
    } else {
        members
    }
}

/// What `MembershipController::remove_member` returns.
pub open spec fn remove_member_outcome(
    authorized: bool,
    members: Seq<u64>,
    id: u64,
) -> Result<MembershipEvent, MembershipError> {
    if !authorized {
        Err(MembershipError::NotAuthorized)
    } else {
        match remove_outcome(members, id) {
            Ok(()) => Ok(MembershipEvent::MemberRemoved),
            Err(e) => Err(e),
        }
    }
}

/// The member sequence after `MembershipController::remove_member`.
pub open spec fn remove_member_next(authorized: bool, members: Seq<u64>, id: u64) -> Seq<u64> {
    if authorized {
        remove_next(members, id)
    } else {
        members
    }
}

/// The operation layer of the registry. It owns the store exclusively,
/// validates authorization before every mutation, and reports each
/// successful change as an event for the host to deliver.
///
/// The controller starts out inactive; `initialize` is the one transition to
/// the active state, and the mutating operations demand an active registry.
pub struct MembershipController<A: AuthorizationChecker, R: AuthorizationChecker> {
    store: MembershipStore,
    add_checker: A,
    remove_checker: R,
    active: bool,
}

impl<A: AuthorizationChecker, R: AuthorizationChecker> MembershipController<A, R> {
    /// The member sequence, in ascending order.
    pub closed spec fn members(&self) -> Seq<u64> {
        self.store@
    }

    /// The fixed capacity bound.
    pub closed spec fn capacity(&self) -> nat {
        self.store.capacity()
    }

    /// Whether genesis has completed and normal operation may begin.
    pub closed spec fn is_active(&self) -> bool {
        self.active
    }

    /// Which callers the add policy authorizes.
    pub closed spec fn add_authorized(&self, caller: u64) -> bool {
        self.add_checker.authorized(caller)
    }

    /// Which callers the remove policy authorizes.
    pub closed spec fn remove_authorized(&self, caller: u64) -> bool {
        self.remove_checker.authorized(caller)
    }

    /// The registry's invariant: its store is well-formed.
    pub closed spec fn wf(&self) -> bool {
        self.store.wf()
    }

    /// Creates an inactive, empty registry with the given positive capacity
    /// and one authorization policy per operation kind.
    pub fn new(max_members: usize, add_checker: A, remove_checker: R) -> (ctl: Self)
        requires
            0 < max_members,
        ensures
            ctl.wf(),
            !ctl.is_active(),
            ctl.members() == Seq::<u64>::empty(),
            ctl.capacity() == max_members as nat,
            forall|caller: u64| ctl.add_authorized(caller) == add_checker.authorized(caller),
            forall|caller: u64| ctl.remove_authorized(caller) == remove_checker.authorized(caller),
    {
        MembershipController {
            store: MembershipStore::new(max_members),
            add_checker,
            remove_checker,
            active: false,
        }
    }

    /// Genesis seeding, run once in the trusted bootstrap phase before any
    /// other operation (so no authorization applies). The whole candidate is
    /// validated before anything is committed: a duplicate anywhere in it,
    /// or a length over capacity, aborts genesis and the registry never
    /// becomes active. On success the members are stored in ascending order.
    pub fn initialize(&mut self, candidate_members: Vec<u64>) -> (outcome: Result<
        (),
        GenesisError,
    >)
        requires
            old(self).wf(),
            !old(self).is_active(),
        ensures
            final(self).wf(),
            final(self).capacity() == old(self).capacity(),
            final(self).is_active() == (outcome is Ok),
            outcome == genesis_outcome(candidate_members@, old(self).capacity()),
            outcome is Ok ==> final(self).members().len() == candidate_members@.len()
                && (forall|y: u64|
                final(self).members().contains(y) <==> candidate_members@.contains(y)),
            outcome is Err ==> final(self).members() == old(self).members(),
            forall|c: u64| final(self).add_authorized(c) == old(self).add_authorized(c),
            forall|c: u64| final(self).remove_authorized(c) == old(self).remove_authorized(c),
    {
        match self.store.replace_all(candidate_members) {
            Ok(()) => {
                self.active = true;
                Ok(())
            },
            Err(e) => Err(e),
        }
    }

    /// Adds `identity` on behalf of `caller`. The add policy is consulted
    /// first; an unauthorized caller is rejected whatever the identity's
    /// membership status. A present identity fails with `AlreadyMember`, a
    /// full registry with `TooManyMembers`; every failure leaves the
    /// registry unchanged. Success reports `MemberAdded`.
    pub fn add_member(&mut self, caller: u64, identity: u64) -> (outcome: Result<
        MembershipEvent,
        MembershipError,
    >)
        requires
            old(self).wf(),
            old(self).is_active(),
        ensures
            final(self).wf(),
            final(self).is_active(),
            final(self).capacity() == old(self).capacity(),
            outcome == add_member_outcome(
                old(self).add_authorized(caller),
                old(self).members(),
                old(self).capacity(),
                identity,
            ),
            final(self).members() == add_member_next(
                old(self).add_authorized(caller),
                old(self).members(),
                old(self).capacity(),
                identity,
            ),
            forall|c: u64| final(self).add_authorized(c) == old(self).add_authorized(c),
            forall|c: u64| final(self).remove_authorized(c) == old(self).remove_authorized(c),
    {
        match self.add_checker.check(caller) {
            AuthorizationOutcome::Rejected => Err(MembershipError::NotAuthorized),
            AuthorizationOutcome::Authorized => match self.store.insert(identity) {
                Ok(()) => Ok(MembershipEvent::MemberAdded),
                Err(e) => Err(e),
            },
        }
    }

    /// Removes `identity` on behalf of `caller`. The remove policy is
    /// consulted first; an absent identity fails with `NotMember`; every
    /// failure leaves the registry unchanged. Success reports
    /// `MemberRemoved`.
    pub fn remove_member(&mut self, caller: u64, identity: u64) -> (outcome: Result<
        MembershipEvent,
        MembershipError,
    >)
        requires
            old(self).wf(),
            old(self).is_active(),
        ensures
            final(self).wf(),
            final(self).is_active(),
            final(self).capacity() == old(self).capacity(),
            outcome == remove_member_outcome(
                old(self).remove_authorized(caller),
                old(self).members(),
                identity,
            ),
            final(self).members() == remove_member_next(
                old(self).remove_authorized(caller),
                old(self).members(),
                identity,
            ),
            forall|c: u64| final(self).add_authorized(c) == old(self).add_authorized(c),
            forall|c: u64| final(self).remove_authorized(c) == old(self).remove_authorized(c),
    {
        match self.remove_checker.check(caller) {
            AuthorizationOutcome::Rejected => Err(MembershipError::NotAuthorized),
            AuthorizationOutcome::Authorized => match self.store.remove(identity) {
                Ok(()) => Ok(MembershipEvent::MemberRemoved),
                Err(e) => Err(e),
            },
        }
    }

    /// True exactly when `identity` is a member.
    pub fn contains(&self, identity: u64) -> (present: bool)
        requires
            self.wf(),
        ensures
            present == self.members().contains(identity),
    {
        self.store.contains(identity)
    }

    /// The number of members.
    pub fn member_count(&self) -> (n: usize)
        ensures
            n == self.members().len(),
    {
        self.store.len()
    }

    /// The member at position `i` in ascending order.
    pub fn member_at(&self, i: usize) -> (m: u64)
        requires
            i < self.members().len(),
        ensures
            m == self.members()[i as int],
    {
        self.store.member_at(i)
    }
}

} // verus!
