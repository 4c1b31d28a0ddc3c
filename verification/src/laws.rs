//! The registry's global guarantees, stated over the spec-level transitions
//! that the executable operations are proved to follow: the capacity bound,
//! uniqueness of members, the behaviour of operations on absent or present
//! identities, idempotence of failures, and authorization gating.

use crate::controller::{
    add_member_outcome, add_member_next, remove_member_outcome, remove_member_next,
};
use crate::store::{
    lemma_insert_sorted_properties, lemma_remove_value_properties,
    lemma_sorted_strict_no_duplicates, sorted_strict,
};
use crate::types::{MembershipError, MembershipEvent};
use vstd::prelude::*;

verus! {

/// Capacity invariant: from any state within the capacity bound, no
/// `add_member` step leaves it, and the step that would exceed it fails with
/// `TooManyMembers` and changes nothing.
pub proof fn lemma_capacity_invariant(authorized: bool, members: Seq<u64>, max: nat, id: u64)
    requires
        sorted_strict(members),
        members.len() <= max,
    ensures
        add_member_next(authorized, members, max, id).len() <= max,
        authorized && !members.contains(id) && members.len() == max ==> add_member_outcome(
            authorized,
            members,
            max,
            id,
        ) == Err::<MembershipEvent, MembershipError>(MembershipError::TooManyMembers)
            && add_member_next(authorized, members, max, id) == members,
{
    if authorized && !members.contains(id) && members.len() < max {
        lemma_insert_sorted_properties(members, id);
    }
}

/// Uniqueness invariant: from any duplicate-free state, add and remove steps
/// stay duplicate-free, and `add_member` of a present identity fails with
/// `AlreadyMember` without a change.
pub proof fn lemma_uniqueness_invariant(authorized: bool, members: Seq<u64>, max: nat, id: u64)
    requires
        sorted_strict(members),
    ensures
        sorted_strict(add_member_next(authorized, members, max, id)),
        add_member_next(authorized, members, max, id).no_duplicates(),
        sorted_strict(remove_member_next(authorized, members, id)),
        remove_member_next(authorized, members, id).no_duplicates(),
        authorized && members.contains(id) ==> add_member_outcome(authorized, members, max, id)
            == Err::<MembershipEvent, MembershipError>(MembershipError::AlreadyMember)
            && add_member_next(authorized, members, max, id) == members,
{
    if authorized && !members.contains(id) && members.len() < max {
        lemma_insert_sorted_properties(members, id);
    }
    if authorized && members.contains(id) {
        lemma_remove_value_properties(members, id);
    }
    lemma_sorted_strict_no_duplicates(add_member_next(authorized, members, max, id));
    lemma_sorted_strict_no_duplicates(remove_member_next(authorized, members, id));
}

/// Removing an absent identity fails with `NotMember` and changes nothing,
/// however the caller is authorized.
pub proof fn lemma_remove_of_absent(members: Seq<u64>, id: u64)
    requires
        !members.contains(id),
    ensures
        remove_member_outcome(true, members, id) == Err::<MembershipEvent, MembershipError>(
            MembershipError::NotMember,
        ),
        remove_member_next(true, members, id) == members,
{
}

/// Idempotence of failure: a failed `add_member` or `remove_member` leaves
/// the state unchanged, so repeating the same call fails identically.
pub proof fn lemma_failed_calls_idempotent(authorized: bool, members: Seq<u64>, max: nat, id: u64)
    ensures
        add_member_outcome(authorized, members, max, id) is Err ==> {
            let next = add_member_next(authorized, members, max, id);
            &&& next == members
            &&& add_member_outcome(authorized, next, max, id) == add_member_outcome(
                authorized,
                members,
                max,
                id,
            )
        },
        remove_member_outcome(authorized, members, id) is Err ==> {
            let next = remove_member_next(authorized, members, id);
            &&& next == members
            &&& remove_member_outcome(authorized, next, id) == remove_member_outcome(
                authorized,
                members,
                id,
            )
        },
{
}

/// Authorization gating: an unauthorized caller is rejected with
/// `NotAuthorized` and nothing changes, whatever the identity's current
/// membership status.
pub proof fn lemma_unauthorized_rejected(members: Seq<u64>, max: nat, id: u64)
    ensures
        add_member_outcome(false, members, max, id) == Err::<MembershipEvent, MembershipError>(
            MembershipError::NotAuthorized,
        ),
        add_member_next(false, members, max, id) == members,
        remove_member_outcome(false, members, id) == Err::<MembershipEvent, MembershipError>(
            MembershipError::NotAuthorized,
        ),
        remove_member_next(false, members, id) == members,
{
}

} // verus!
