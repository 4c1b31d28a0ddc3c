//! End-to-end tests of the membership registry: the store's pure data
//! operations, genesis seeding, and the authorization-gated controller.

use membership_registry::controller::{AnyOfApprovers, MembershipController, RootOnly};
use membership_registry::store::MembershipStore;
use membership_registry::types::{GenesisError, MembershipError, MembershipEvent};

fn root_controller(max_members: usize) -> MembershipController<RootOnly, RootOnly> {
    MembershipController::new(max_members, RootOnly { root: 1 }, RootOnly { root: 1 })
}

fn members_of(ctl: &MembershipController<RootOnly, RootOnly>) -> Vec<u64> {
    let mut out = Vec::new();
    let mut i = 0;
    while i < ctl.member_count() {
        out.push(ctl.member_at(i));
        i += 1;
    }
    out
}

#[test]
fn store_insert_keeps_ascending_order() {
    let mut store = MembershipStore::new(3);
    assert_eq!(store.insert(20), Ok(()));
    assert_eq!(store.insert(10), Ok(()));
    assert_eq!(store.insert(30), Ok(()));
    assert_eq!(store.len(), 3);
    assert_eq!(store.member_at(0), 10);
    assert_eq!(store.member_at(1), 20);
    assert_eq!(store.member_at(2), 30);
    assert!(store.contains(10));
    assert!(store.contains(20));
    assert!(store.contains(30));
    assert!(!store.contains(15));
}

#[test]
fn store_insert_of_present_identity_fails() {
    let mut store = MembershipStore::new(3);
    assert_eq!(store.insert(10), Ok(()));
    assert_eq!(store.insert(10), Err(MembershipError::AlreadyMember));
    assert_eq!(store.len(), 1);
}

#[test]
fn store_insert_at_capacity_fails() {
    let mut store = MembershipStore::new(2);
    assert_eq!(store.insert(10), Ok(()));
    assert_eq!(store.insert(20), Ok(()));
    assert_eq!(store.insert(30), Err(MembershipError::TooManyMembers));
    assert_eq!(store.len(), 2);
    assert!(!store.contains(30));
}

#[test]
fn store_remove_of_absent_identity_fails() {
    let mut store = MembershipStore::new(2);
    assert_eq!(store.insert(10), Ok(()));
    assert_eq!(store.remove(20), Err(MembershipError::NotMember));
    assert_eq!(store.len(), 1);
    assert!(store.contains(10));
}

#[test]
fn store_remove_keeps_order() {
    let mut store = MembershipStore::new(3);
    assert_eq!(store.insert(10), Ok(()));
    assert_eq!(store.insert(20), Ok(()));
    assert_eq!(store.insert(30), Ok(()));
    assert_eq!(store.remove(20), Ok(()));
    assert_eq!(store.len(), 2);
    assert_eq!(store.member_at(0), 10);
    assert_eq!(store.member_at(1), 30);
}

#[test]
fn store_failed_insert_repeats_identically() {
    let mut store = MembershipStore::new(2);
    assert_eq!(store.insert(10), Ok(()));
    let first = store.insert(10);
    let second = store.insert(10);
    assert_eq!(first, Err(MembershipError::AlreadyMember));
    assert_eq!(second, first);
    assert_eq!(store.len(), 1);
}

#[test]
fn store_replace_all_sorts_valid_candidate() {
    let mut store = MembershipStore::new(3);
    assert_eq!(store.replace_all(vec![30, 10, 20]), Ok(()));
    assert_eq!(store.len(), 3);
    assert_eq!(store.member_at(0), 10);
    assert_eq!(store.member_at(1), 20);
    assert_eq!(store.member_at(2), 30);
}

#[test]
fn store_replace_all_rejects_duplicate() {
    let mut store = MembershipStore::new(3);
    assert_eq!(store.insert(5), Ok(()));
    assert_eq!(
        store.replace_all(vec![10, 20, 10]),
        Err(GenesisError::DuplicateMemberAtGenesis)
    );
    // All-or-nothing: the store is untouched by the failed seeding.
    assert_eq!(store.len(), 1);
    assert!(store.contains(5));
}

#[test]
fn store_replace_all_rejects_oversized_candidate() {
    let mut store = MembershipStore::new(2);
    assert_eq!(
        store.replace_all(vec![10, 20, 30]),
        Err(GenesisError::TooManyMembers)
    );
    assert_eq!(store.len(), 0);
}

#[test]
fn genesis_duplicate_aborts() {
    let mut ctl = root_controller(3);
    let outcome = ctl.initialize(vec![10, 20, 10]);
    assert_eq!(outcome, Err(GenesisError::DuplicateMemberAtGenesis));
    assert_eq!(ctl.member_count(), 0);
}

#[test]
fn genesis_over_capacity_aborts() {
    let mut ctl = root_controller(2);
    let outcome = ctl.initialize(vec![10, 20, 30]);
    assert_eq!(outcome, Err(GenesisError::TooManyMembers));
    assert_eq!(ctl.member_count(), 0);
}

#[test]
fn genesis_stores_candidate_in_ascending_order() {
    let mut ctl = root_controller(3);
    assert_eq!(ctl.initialize(vec![30, 10, 20]), Ok(()));
    assert_eq!(members_of(&ctl), vec![10, 20, 30]);
}

#[test]
fn unauthorized_add_is_rejected_whatever_the_membership() {
    let mut ctl = root_controller(3);
    assert_eq!(ctl.initialize(vec![10]), Ok(()));
    // Absent identity: still rejected before the store is consulted.
    assert_eq!(
        ctl.add_member(99, 20),
        Err(MembershipError::NotAuthorized)
    );
    assert!(!ctl.contains(20));
    // Present identity: the same rejection, not `AlreadyMember`.
    assert_eq!(
        ctl.add_member(99, 10),
        Err(MembershipError::NotAuthorized)
    );
    assert_eq!(members_of(&ctl), vec![10]);
}

#[test]
fn unauthorized_remove_is_rejected() {
    let mut ctl = root_controller(3);
    assert_eq!(ctl.initialize(vec![10]), Ok(()));
    assert_eq!(
        ctl.remove_member(99, 10),
        Err(MembershipError::NotAuthorized)
    );
    assert!(ctl.contains(10));
}

#[test]
fn remove_of_absent_member_fails() {
    let mut ctl = root_controller(3);
    assert_eq!(ctl.initialize(vec![10]), Ok(()));
    assert_eq!(ctl.remove_member(1, 20), Err(MembershipError::NotMember));
    assert_eq!(members_of(&ctl), vec![10]);
}

#[test]
fn any_of_approvers_policy_gates_by_list() {
    let add = AnyOfApprovers { approvers: vec![3, 4] };
    let remove = AnyOfApprovers { approvers: vec![4] };
    let mut ctl = MembershipController::new(3, add, remove);
    assert_eq!(ctl.initialize(Vec::new()), Ok(()));
    assert_eq!(ctl.add_member(3, 10), Ok(MembershipEvent::MemberAdded));
    assert_eq!(ctl.add_member(5, 20), Err(MembershipError::NotAuthorized));
    assert_eq!(
        ctl.remove_member(3, 10),
        Err(MembershipError::NotAuthorized)
    );
    assert_eq!(ctl.remove_member(4, 10), Ok(MembershipEvent::MemberRemoved));
    assert_eq!(ctl.member_count(), 0);
}

#[test]
fn end_to_end_lifecycle() {
    let mut ctl = root_controller(3);
    assert_eq!(ctl.initialize(Vec::new()), Ok(()));

    assert_eq!(ctl.add_member(1, 10), Ok(MembershipEvent::MemberAdded));
    assert_eq!(members_of(&ctl), vec![10]);

    assert_eq!(ctl.add_member(1, 10), Err(MembershipError::AlreadyMember));
    assert_eq!(members_of(&ctl), vec![10]);

    assert_eq!(ctl.add_member(1, 20), Ok(MembershipEvent::MemberAdded));
    assert_eq!(ctl.add_member(1, 30), Ok(MembershipEvent::MemberAdded));
    assert_eq!(members_of(&ctl), vec![10, 20, 30]);

    assert_eq!(ctl.add_member(1, 40), Err(MembershipError::TooManyMembers));
    assert_eq!(members_of(&ctl), vec![10, 20, 30]);

    assert_eq!(
        ctl.remove_member(1, 10),
        Ok(MembershipEvent::MemberRemoved)
    );
    assert_eq!(members_of(&ctl), vec![20, 30]);
}
