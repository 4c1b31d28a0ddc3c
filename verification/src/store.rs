//! The membership store: an ordered, duplicate-free collection of member
//! identities, capped at a fixed maximum size.
//!
//! An identity is an opaque, totally ordered value; the store holds it as a
//! `u64`. The store's contents are modelled as a strictly ascending sequence,
//! so uniqueness and order are one property: [`sorted_strict`].

use crate::types::{GenesisError, MembershipError};
use vstd::prelude::*;

verus! {

/// A sequence is strictly ascending. This is the shape the store maintains:
/// sorted, and therefore free of duplicates.
pub open spec fn sorted_strict(s: Seq<u64>) -> bool {
    forall|i: int, j: int| 0 <= i < j < s.len() ==> s[i] < s[j]
}

/// The sequence obtained by inserting `x` at its ordered position in `s`.
pub open spec fn insert_sorted(s: Seq<u64>, x: u64) -> Seq<u64>
    decreases s.len(),
{
    if s.len() == 0 {
        seq![x]
    } else if x < s[0] {
        seq![x] + s
    } else {
        seq![s[0]] + insert_sorted(s.drop_first(), x)
    }
}

/// How `MembershipStore::insert` decides: present identities are rejected
/// before the capacity bound is consulted.
pub open spec fn insert_outcome(members: Seq<u64>, max: nat, id: u64) -> Result<
    (),
    MembershipError,
> {
    if members.contains(id) {
        Err(MembershipError::AlreadyMember)
    } else if members.len() >= max {
        Err(MembershipError::TooManyMembers)
    } else {
        Ok(())
    }
}

/// The store's contents after `MembershipStore::insert`: unchanged on
/// failure, extended at the ordered position on success.
pub open spec fn insert_next(members: Seq<u64>, max: nat, id: u64) -> Seq<u64> {
    if insert_outcome(members, max, id) is Ok {
        insert_sorted(members, id)
    } else {
        members
    }
}

/// How `MembershipStore::remove` decides.
pub open spec fn remove_outcome(members: Seq<u64>, id: u64) -> Result<(), MembershipError> {
    if members.contains(id) {
        Ok(())
    } else {
        Err(MembershipError::NotMember)
    }
}

/// The store's contents after `MembershipStore::remove`: unchanged on
/// failure, shortened by the one occurrence of `id` on success.
pub open spec fn remove_next(members: Seq<u64>, id: u64) -> Seq<u64> {
    if members.contains(id) {
        members.remove_value(id)
    } else {
        members
    }
}

/// How `MembershipStore::replace_all` judges a whole genesis candidate:
/// a duplicate anywhere in the input is reported before the capacity bound.
pub open spec fn genesis_outcome(candidate: Seq<u64>, max: nat) -> Result<(), GenesisError> {
    if !candidate.no_duplicates() {
        Err(GenesisError::DuplicateMemberAtGenesis)
    } else if candidate.len() > max {
        Err(GenesisError::TooManyMembers)
    } else {
        Ok(())
    }
}

/// The ordered, duplicate-free registry of member identities, capped at
/// `max_members` entries. Viewed as the strictly ascending sequence of its
/// members.
pub struct MembershipStore {
    members: Vec<u64>,
    max_members: usize,
}

impl View for MembershipStore {
    type V = Seq<u64>;

    closed spec fn view(&self) -> Seq<u64> {
        self.members@
    }
}

impl MembershipStore {
    /// The fixed capacity bound this store was created with.
    pub closed spec fn capacity(&self) -> nat {
        self.max_members as nat
    }

    /// The store's invariant: a positive capacity, contents within it, and a
    /// strictly ascending (hence duplicate-free) member sequence.
    pub open spec fn wf(&self) -> bool {
        &&& 0 < self.capacity()
        &&& self@.len() <= self.capacity()
        &&& sorted_strict(self@)
    }

    /// Creates an empty store with the given positive capacity.
    pub fn new(max_members: usize) -> (store: Self)
        requires
            0 < max_members,
        ensures
            store.wf(),
            store@ == Seq::<u64>::empty(),
            store.capacity() == max_members as nat,
    {
        MembershipStore { members: Vec::new(), max_members }
    }

    /// The number of members currently stored.
    pub fn len(&self) -> (n: usize)
        ensures
            n == self@.len(),
    {
        self.members.len()
    }

    /// The member at position `i` in ascending order.
    pub fn member_at(&self, i: usize) -> (m: u64)
        requires
            i < self@.len(),
        ensures
            m == self@[i as int],
    {
        self.members[i]
    }

    /// Ordered search: the least index whose element is at least `x`, which
    /// is `v.len()` when every element is below `x`.
    fn lowest_at_least(v: &Vec<u64>, x: u64) -> (i: usize)
        requires
            sorted_strict(v@),
        ensures
            i <= v@.len(),
            forall|k: int| 0 <= k < i ==> v@[k] < x,
            forall|k: int| i <= k < v@.len() ==> v@[k] >= x,
    {
        let mut lo: usize = 0;
        let mut hi: usize = v.len();
        while lo < hi
            invariant
                lo <= hi <= v@.len(),
                sorted_strict(v@),
                forall|k: int| 0 <= k < lo ==> v@[k] < x,
                forall|k: int| hi <= k < v@.len() ==> v@[k] >= x,
            decreases hi - lo,
        {
            let mid: usize = lo + (hi - lo) / 2;
            if v[mid] < x {
                proof {
                    assert forall|k: int| 0 <= k < mid + 1 implies v@[k] < x by {
                        if k < mid {
                            assert(v@[k] < v@[mid as int]);
                        }
                    }
                }
                lo = mid + 1;
            } else {
                proof {
                    assert forall|k: int| mid <= k < v@.len() implies v@[k] >= x by {
                        if mid < k {
                            assert(v@[mid as int] < v@[k]);
                        }
                    }
                }
                hi = mid;
            }
        }
        lo
    }

    /// True exactly when `identity` is a member.
    pub fn contains(&self, identity: u64) -> (present: bool)
        requires
            self.wf(),
        ensures
            present == self@.contains(identity),
    {
        let i = Self::lowest_at_least(&self.members, identity);
        if i < self.members.len() && self.members[i] == identity {
            proof {
                assert(self@[i as int] == identity);
            }
            true
        } else {
            proof {
                lemma_all_differ_means_absent(self@, identity, i as int);
            }
            false
        }
    }

    /// Adds `identity` unless it is already present or the store is full;
    /// on failure the store is unchanged.
    pub fn insert(&mut self, identity: u64) -> (outcome: Result<(), MembershipError>)
        requires
            old(self).wf(),
        ensures
            final(self).wf(),
            final(self).capacity() == old(self).capacity(),
            outcome == insert_outcome(old(self)@, old(self).capacity(), identity),
            final(self)@ == insert_next(old(self)@, old(self).capacity(), identity),
    {
        let i = Self::lowest_at_least(&self.members, identity);
        if i < self.members.len() && self.members[i] == identity {
            proof {
                assert(self@[i as int] == identity);
            }
            return Err(MembershipError::AlreadyMember);
        }
        proof {
            lemma_all_differ_means_absent(self@, identity, i as int);
        }
        if self.members.len() == self.max_members {
            return Err(MembershipError::TooManyMembers);
        }
        self.members.insert(i, identity);
        proof {
            lemma_insert_at_position(old(self)@, identity, i as int);
            lemma_insert_sorted_properties(old(self)@, identity);
        }
        Ok(())
    }

    /// Removes `identity` if it is present; fails with `NotMember` and
    /// leaves the store unchanged otherwise.
    pub fn remove(&mut self, identity: u64) -> (outcome: Result<(), MembershipError>)
        requires
            old(self).wf(),
        ensures
            final(self).wf(),
            final(self).capacity() == old(self).capacity(),
            outcome == remove_outcome(old(self)@, identity),
            final(self)@ == remove_next(old(self)@, identity),
    {
        let i = Self::lowest_at_least(&self.members, identity);
        if i < self.members.len() && self.members[i] == identity {
            proof {
                assert(self@[i as int] == identity);
            }
            self.members.remove(i);
            proof {
                lemma_remove_at_position(old(self)@, identity, i as int);
                lemma_remove_value_properties(old(self)@, identity);
            }
            Ok(())
        } else {
            proof {
                lemma_all_differ_means_absent(self@, identity, i as int);
            }
            Err(MembershipError::NotMember)
        }
    }

    /// Genesis seeding: validates the whole candidate against both
    /// invariants before committing anything, then stores it in ascending
    /// order. All-or-nothing: on failure the store is untouched.
    #[verifier::loop_isolation(false)]
    pub fn replace_all(&mut self, candidate: Vec<u64>) -> (outcome: Result<(), GenesisError>)
        requires
            old(self).wf(),
        ensures
            final(self).wf(),
            final(self).capacity() == old(self).capacity(),
            outcome == genesis_outcome(candidate@, old(self).capacity()),
            outcome is Ok ==> final(self)@.len() == candidate@.len() && (forall|y: u64|
                final(self)@.contains(y) <==> candidate@.contains(y)),
            outcome is Err ==> final(self)@ == old(self)@,
    {
        let n = candidate.len();
        // A duplicate anywhere in the candidate aborts genesis, even between
        // elements that would individually be valid insertions.
        let mut i: usize = 0;
        while i < n
            invariant
                n == candidate@.len(),
                i <= n,
                forall|p: int, q: int| 0 <= p < q < n && p < i ==> candidate@[p] != candidate@[q],
            decreases n - i,
        {
            let mut j: usize = i + 1;
            while j < n
                invariant
                    n == candidate@.len(),
                    i < n,
                    i + 1 <= j <= n,
                    forall|q: int| i < q < j ==> candidate@[i as int] != candidate@[q],
                decreases n - j,
            {
                if candidate[i] == candidate[j] {
                    proof {
                        assert(candidate@[i as int] == candidate@[j as int]);
                        assert(!candidate@.no_duplicates());
                    }
                    return Err(GenesisError::DuplicateMemberAtGenesis);
                }
                j += 1;
            }
            i += 1;
        }
        proof {
            assert forall|p: int, q: int|
                0 <= p < n && 0 <= q < n && p != q implies candidate@[p] != candidate@[q] by {
                if q < p {
                    assert(candidate@[q] != candidate@[p]);
                }
            }
            assert(candidate@.no_duplicates());
        }
        if n > self.max_members {
            return Err(GenesisError::TooManyMembers);
        }
        // The candidate is valid as a whole; sort it into a fresh sequence
        // and commit in one step.
        let mut ordered: Vec<u64> = Vec::new();
        let mut k: usize = 0;
        while k < n
            invariant
                n == candidate@.len(),
                candidate@.no_duplicates(),
                k <= n,
                sorted_strict(ordered@),
                ordered@.len() == k,
                forall|y: u64| ordered@.contains(y) <==> candidate@.take(k as int).contains(y),
            decreases n - k,
        {
            let x = candidate[k];
            proof {
                if ordered@.contains(x) {
                    let p = choose|p: int|
                        0 <= p < k && candidate@.take(k as int)[p] == x;
                    assert(candidate@[p] == candidate@[k as int]);
                }
                assert(!ordered@.contains(x));
            }
            let ghost before = ordered@;
            let pos = Self::lowest_at_least(&ordered, x);
            proof {
                assert forall|q: int| pos <= q < before.len() implies before[q] > x by {
                    assert(before[q] >= x);
                    if before[q] == x {
                        assert(before.contains(x));
                    }
                }
            }
            ordered.insert(pos, x);
            proof {
                lemma_insert_at_position(before, x, pos as int);
                lemma_insert_sorted_properties(before, x);
                assert(ordered@ == insert_sorted(before, x));
                let taken = candidate@.take(k as int);
                let taken_next = candidate@.take(k as int + 1);
                assert forall|y: u64| ordered@.contains(y) implies taken_next.contains(y) by {
                    assert(insert_sorted(before, x).contains(y));
                    if before.contains(y) {
                        let p = choose|p: int| 0 <= p < taken.len() && taken[p] == y;
                        assert(taken_next[p] == y);
                    } else {
                        assert(y == x);
                        assert(taken_next[k as int] == y);
                    }
                }
                assert forall|y: u64| taken_next.contains(y) implies ordered@.contains(y) by {
                    let p = choose|p: int| 0 <= p < taken_next.len() && taken_next[p] == y;
                    if p < k as int {
                        assert(taken[p] == y);
                        assert(taken.contains(y));
                    } else {
                        assert(y == x);
                    }
                    assert(before.contains(y) || y == x);
                    assert(insert_sorted(before, x).contains(y));
                }
            }
            k += 1;
        }
        proof {
            assert(candidate@.take(n as int) =~= candidate@);
        }
        self.members = ordered;
        Ok(())
    }
}

/// A strictly ascending sequence holds no element twice.
pub proof fn lemma_sorted_strict_no_duplicates(s: Seq<u64>)
    requires
        sorted_strict(s),
    ensures
        s.no_duplicates(),
{
    assert forall|i: int, j: int|
        0 <= i < s.len() && 0 <= j < s.len() && i != j implies s[i] != s[j] by {
        if i < j {
            assert(s[i] < s[j]);
        } else {
            assert(s[j] < s[i]);
        }
    }
}

/// Inserting a fresh element at its ordered position keeps the sequence
/// strictly ascending, lengthens it by one, and adds exactly that element.
#[verifier::rlimit(50)]
pub proof fn lemma_insert_sorted_properties(s: Seq<u64>, x: u64)
    requires
        sorted_strict(s),
        !s.contains(x),
    ensures
        sorted_strict(insert_sorted(s, x)),
        insert_sorted(s, x).len() == s.len() + 1,
        forall|y: u64| insert_sorted(s, x).contains(y) <==> (s.contains(y) || y == x),
    decreases s.len(),
{
    let t = insert_sorted(s, x);
    if s.len() == 0 {
        assert(t =~= seq![x]);
        assert(t[0] == x);
        assert forall|y: u64| t.contains(y) implies (s.contains(y) || y == x) by {
            let i = choose|i: int| 0 <= i < t.len() && t[i] == y;
            assert(i == 0);
        }
    } else if x < s[0] {
        assert(t =~= seq![x] + s);
        assert forall|i: int, j: int| 0 <= i < j < t.len() implies t[i] < t[j] by {
            if i == 0 {
                assert(t[0] == x);
                assert(t[j] == s[j - 1]);
                if j > 1 {
                    assert(s[0] < s[j - 1]);
                }
            } else {
                assert(t[i] == s[i - 1] && t[j] == s[j - 1]);
            }
        }
        assert forall|y: u64| t.contains(y) implies (s.contains(y) || y == x) by {
            let i = choose|i: int| 0 <= i < t.len() && t[i] == y;
            if i > 0 {
                assert(s[i - 1] == y);
            }
        }
        assert forall|y: u64| s.contains(y) || y == x implies t.contains(y) by {
            if y == x {
                assert(t[0] == y);
            } else {
                let i = choose|i: int| 0 <= i < s.len() && s[i] == y;
                assert(t[i + 1] == y);
            }
        }
    } else {
        // `x` is not the head (it is absent), so `s[0] < x` and the tail
        // receives it.
        assert(s[0] != x) by {
            if s[0] == x {
                assert(s.contains(x));
            }
        }
        let rest = s.drop_first();
        assert forall|i: int, j: int| 0 <= i < j < rest.len() implies rest[i] < rest[j] by {
            assert(s[i + 1] < s[j + 1]);
        }
        assert(!rest.contains(x)) by {
            if rest.contains(x) {
                let i = choose|i: int| 0 <= i < rest.len() && rest[i] == x;
                assert(s[i + 1] == x);
                assert(s.contains(x));
            }
        }
        lemma_insert_sorted_properties(rest, x);
        let u = insert_sorted(rest, x);
        assert(t =~= seq![s[0]] + u);
        // Every element of the extended tail exceeds the head.
        assert forall|j: int| 0 <= j < u.len() implies s[0] < u[j] by {
            assert(u.contains(u[j]));
            let y = u[j];
            if rest.contains(y) {
                let k = choose|k: int| 0 <= k < rest.len() && rest[k] == y;
                assert(s[0] < s[k + 1]);
            } else {
                assert(y == x);
            }
        }
        assert forall|i: int, j: int| 0 <= i < j < t.len() implies t[i] < t[j] by {
            if i == 0 {
                assert(t[j] == u[j - 1]);
                assert(s[0] < u[j - 1]);
            } else {
                assert(t[i] == u[i - 1] && t[j] == u[j - 1]);
            }
        }
        assert forall|y: u64| t.contains(y) implies (s.contains(y) || y == x) by {
            let i = choose|i: int| 0 <= i < t.len() && t[i] == y;
            if i == 0 {
                assert(s[0] == y);
                assert(s.contains(y));
            } else {
                assert(u[i - 1] == y);
                assert(u.contains(y));
                if rest.contains(y) {
                    let k = choose|k: int| 0 <= k < rest.len() && rest[k] == y;
                    assert(s[k + 1] == y);
                    assert(s.contains(y));
                }
            }
        }
        assert forall|y: u64| s.contains(y) || y == x implies t.contains(y) by {
            if y == x {
                assert(u.contains(y));
                let k = choose|k: int| 0 <= k < u.len() && u[k] == y;
                assert(t[k + 1] == y);
            } else {
                let i = choose|i: int| 0 <= i < s.len() && s[i] == y;
                if i == 0 {
                    assert(t[0] == y);
                } else {
                    assert(rest[i - 1] == y);
                    assert(rest.contains(y));
                    assert(u.contains(y));
                    let k = choose|k: int| 0 <= k < u.len() && u[k] == y;
                    assert(t[k + 1] == y);
                }
            }
        }
    }
}

/// Inserting at the position an ordered search finds is the same as the
/// ordered insertion `insert_sorted`.
pub proof fn lemma_insert_at_position(s: Seq<u64>, x: u64, i: int)
    requires
        sorted_strict(s),
        0 <= i <= s.len(),
        forall|k: int| 0 <= k < i ==> s[k] < x,
        forall|k: int| i <= k < s.len() ==> s[k] > x,
    ensures
        s.insert(i, x) == insert_sorted(s, x),
    decreases s.len(),
{
    if s.len() == 0 {
        assert(s.insert(0, x) =~= seq![x]);
    } else if i == 0 {
        assert(s[0] > x);
        assert(s.insert(0, x) =~= seq![x] + s);
    } else {
        assert(s[0] < x);
        let rest = s.drop_first();
        assert forall|p: int, q: int| 0 <= p < q < rest.len() implies rest[p] < rest[q] by {
            assert(s[p + 1] < s[q + 1]);
        }
        assert forall|k: int| 0 <= k < i - 1 implies rest[k] < x by {
            assert(s[k + 1] < x);
        }
        assert forall|k: int| i - 1 <= k < rest.len() implies rest[k] > x by {
            assert(s[k + 1] > x);
        }
        lemma_insert_at_position(rest, x, i - 1);
        assert(s.insert(i, x) =~= seq![s[0]] + rest.insert(i - 1, x));
        assert(insert_sorted(s, x) == seq![s[0]] + insert_sorted(rest, x));
    }
}

/// Removing a present element from a strictly ascending sequence keeps it
/// strictly ascending, shortens it by one, and removes exactly that element.
pub proof fn lemma_remove_value_properties(s: Seq<u64>, x: u64)
    requires
        sorted_strict(s),
        s.contains(x),
    ensures
        sorted_strict(s.remove_value(x)),
        s.remove_value(x).len() == s.len() - 1,
        forall|y: u64| s.remove_value(x).contains(y) <==> (s.contains(y) && y != x),
{
    s.index_of_first_ensures(x);
    let i = s.index_of_first(x)->Some_0;
    let r = s.remove(i);
    s.remove_ensures(i);
    assert forall|p: int, q: int| 0 <= p < q < r.len() implies r[p] < r[q] by {
        if q < i {
            assert(r[p] == s[p] && r[q] == s[q]);
        } else if p >= i {
            assert(r[p] == s[p + 1] && r[q] == s[q + 1]);
        } else {
            assert(r[p] == s[p] && r[q] == s[q + 1]);
        }
    }
    assert forall|y: u64| r.contains(y) implies (s.contains(y) && y != x) by {
        let k = choose|k: int| 0 <= k < r.len() && r[k] == y;
        if k < i {
            assert(s[k] == y);
            assert(s[k] < s[i]);
        } else {
            assert(s[k + 1] == y);
            assert(s[i] < s[k + 1]);
        }
    }
    assert forall|y: u64| s.contains(y) && y != x implies r.contains(y) by {
        let k = choose|k: int| 0 <= k < s.len() && s[k] == y;
        if k < i {
            assert(r[k] == y);
        } else {
            assert(k != i);
            assert(r[k - 1] == y);
        }
    }
}

/// Removing at the position an ordered search finds is the same as removing
/// the value's (single) occurrence.
pub proof fn lemma_remove_at_position(s: Seq<u64>, x: u64, i: int)
    requires
        sorted_strict(s),
        0 <= i < s.len(),
        s[i] == x,
        forall|k: int| 0 <= k < i ==> s[k] < x,
    ensures
        s.remove(i) == s.remove_value(x),
{
    assert(s.contains(x));
    s.index_of_first_ensures(x);
    let j = s.index_of_first(x)->Some_0;
    if j < i {
        assert(s[j] < x);
    }
    if j > i {
        assert(s[i] != x);
    }
    assert(j == i);
}

/// If an ordered search for `x` stops at a position that does not hold `x`,
/// then `x` is nowhere in the sequence.
proof fn lemma_all_differ_means_absent(s: Seq<u64>, x: u64, i: int)
    requires
        sorted_strict(s),
        0 <= i <= s.len(),
        forall|k: int| 0 <= k < i ==> s[k] < x,
        forall|k: int| i <= k < s.len() ==> s[k] >= x,
        i < s.len() ==> s[i] != x,
    ensures
        !s.contains(x),
{
    assert forall|k: int| 0 <= k < s.len() implies s[k] != x by {
        if k >= i {
            if k == i {
                assert(s[k] != x);
            } else {
                assert(s[i] >= x && s[i] != x);
                assert(s[i] < s[k]);
            }
        }
    }
}

} // verus!
