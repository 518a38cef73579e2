//! Communicators: the ordered, duplicate-free sets of party ids that take
//! part in a collective operation.

use vstd::prelude::*;

use crate::PartyID;

verus! {

/// An ordered set of party ids.
///
/// The parties are held in strictly increasing order, so the set is
/// duplicate-free and iteration order is the id order.
#[derive(Debug, Clone)]
pub struct Communicator {
    parties: Vec<PartyID>,
}

/// Whether a sequence of party ids is strictly increasing.
pub open spec fn strictly_sorted(s: Seq<PartyID>) -> bool {
    forall|i: int, j: int| 0 <= i < j < s.len() ==> s[i] < s[j]
}

/// The subsequence of a sequence of party ids without two given ids.
pub open spec fn seq_without_two(parties: Seq<PartyID>, a: PartyID, b: PartyID) -> Seq<PartyID>
    decreases parties.len(),
{
    if parties.len() == 0 {
        Seq::<PartyID>::empty()
    } else {
        seq_without_two(parties.drop_last(), a, b) + if parties.last() != a && parties.last()
            != b {
            seq![parties.last()]
        } else {
            Seq::<PartyID>::empty()
        }
    }
}

/// Membership in the subsequence without two ids.
pub proof fn lemma_seq_without_two_contains(parties: Seq<PartyID>, a: PartyID, b: PartyID)
    ensures
        forall|p: PartyID| #[trigger] seq_without_two(parties, a, b).contains(p) <==> (
        parties.contains(p) && p != a && p != b),
    decreases parties.len(),
{
    if parties.len() > 0 {
        lemma_seq_without_two_contains(parties.drop_last(), a, b);
        assert forall|p: PartyID| #[trigger]
            seq_without_two(parties, a, b).contains(p) <==> (parties.contains(p) && p != a && p
                != b) by {
            let rest = seq_without_two(parties.drop_last(), a, b);
            let whole = seq_without_two(parties, a, b);
            if whole.contains(p) {
                let k = choose|k: int| 0 <= k < whole.len() && whole[k] == p;
                if k < rest.len() {
                    assert(rest.contains(p));
                    assert(parties.drop_last().contains(p));
                    let m = choose|m: int|
                        0 <= m < parties.drop_last().len() && parties.drop_last()[m] == p;
                    assert(parties[m] == p);
                } else {
                    assert(p == parties.last());
                    assert(parties[parties.len() - 1] == p);
                }
            }
            if parties.contains(p) && p != a && p != b {
                let m = choose|m: int| 0 <= m < parties.len() && parties[m] == p;
                if m < parties.len() - 1 {
                    assert(parties.drop_last()[m] == p);
                    assert(rest.contains(p));
                    let k = choose|k: int| 0 <= k < rest.len() && rest[k] == p;
                    assert(whole[k] == p);
                } else {
                    assert(whole[whole.len() - 1] == p);
                }
            }
        }
    }
}

impl View for Communicator {
    type V = Seq<PartyID>;

    closed spec fn view(&self) -> Seq<PartyID> {
        self.parties@
    }
}

impl Communicator {
    /// The parties are strictly sorted, hence unique.
    pub open spec fn well_formed(&self) -> bool {
        strictly_sorted(self@)
    }

    /// An empty communicator.
    pub fn new() -> (r: Communicator)
        ensures
            r@ == Seq::<PartyID>::empty(),
            r.well_formed(),
    {
        Communicator { parties: Vec::new() }
    }

    /// The number of parties.
    pub fn len(&self) -> (r: usize)
        ensures
            r == self@.len(),
    {
        self.parties.len()
    }

    /// Whether no party is in the communicator.
    pub fn is_empty(&self) -> (r: bool)
        ensures
            r == (self@.len() == 0),
    {
        self.parties.len() == 0
    }

    /// The party at a position, in ascending id order.
    pub fn get(&self, i: usize) -> (r: PartyID)
        requires
            i < self@.len(),
        ensures
            r == self@[i as int],
    {
        self.parties[i]
    }

    /// Whether a party is a member.
    pub fn contains(&self, party: PartyID) -> (r: bool)
        ensures
            r == self@.contains(party),
    {
        let mut i: usize = 0;
        while i < self.parties.len()
            invariant
                i <= self.parties.len(),
                forall|k: int| 0 <= k < i ==> self.parties@[k] != party,
            decreases self.parties.len() - i,
        {
            if self.parties[i] == party {
                return true;
            }
            i = i + 1;
        }
        false
    }

    /// Whether every member of `self` is a member of `other`.
    pub fn is_subset(&self, other: &Communicator) -> (r: bool)
        ensures
            r == forall|p: PartyID| self@.contains(p) ==> other@.contains(p),
    {
        let mut i: usize = 0;
        while i < self.parties.len()
            invariant
                i <= self.parties.len(),
                forall|k: int| 0 <= k < i ==> other@.contains(#[trigger] self.parties@[k]),
            decreases self.parties.len() - i,
        {
            if !other.contains(self.parties[i]) {
                assert(self@.contains(self.parties@[i as int]));
                return false;
            }
            i = i + 1;
        }
        assert(forall|p: PartyID| self@.contains(p) ==> other@.contains(p)) by {
            assert(forall|p: PartyID| #[trigger] self@.contains(p) ==> exists|k: int|
                0 <= k < self@.len() && self@[k] == p);
        }
        true
    }

    /// Insert a party, keeping the order; inserting a member changes nothing.
    pub fn insert(&mut self, party: PartyID)
        requires
            old(self).well_formed(),
        ensures
            final(self).well_formed(),
            forall|p: PartyID| final(self)@.contains(p) <==> (old(self)@.contains(p) || p
                == party),
    {
        let ghost pre = self@;
        let mut i: usize = 0;
        while i < self.parties.len() && self.parties[i] < party
            invariant
                i <= self.parties.len(),
                forall|k: int| 0 <= k < i ==> self.parties@[k] < party,
                self@ == pre,
                strictly_sorted(pre),
            decreases self.parties.len() - i,
        {
            i = i + 1;
        }
        if i < self.parties.len() && self.parties[i] == party {
            // already a member
            assert(self@.contains(party));
            return ;
        }
        self.parties.insert(i, party);
        assert(self@ == pre.insert(i as int, party));
        assert(self.well_formed()) by {
            assert(forall|a: int, b: int| 0 <= a < b < self@.len() ==> self@[a] < self@[b]) by {
                assert(forall|k: int| 0 <= k < i ==> self@[k] == pre[k]);
                assert(self@[i as int] == party);
                assert(forall|k: int| i < k < self@.len() ==> self@[k] == pre[k - 1]);
                assert(forall|k: int| i <= k < pre.len() ==> pre[k] >= party);
            }
        }
        assert forall|p: PartyID| self@.contains(p) <==> (pre.contains(p) || p == party) by {
            if self@.contains(p) {
                let k = choose|k: int| 0 <= k < self@.len() && self@[k] == p;
                if k < i {
                    assert(pre[k] == p);
                } else if k == i {
                } else {
                    assert(pre[k - 1] == p);
                }
            }
            if pre.contains(p) {
                let k = choose|k: int| 0 <= k < pre.len() && pre[k] == p;
                if k < i {
                    assert(self@[k] == p);
                } else {
                    assert(self@[k + 1] == p);
                }
            }
            if p == party {
                assert(self@[i as int] == p);
            }
        }
    }

    /// Build a communicator holding exactly the ids of `parties`.
    pub fn from_parties(parties: &Vec<PartyID>) -> (r: Communicator)
        ensures
            r.well_formed(),
            forall|p: PartyID| r@.contains(p) <==> parties@.contains(p),
    {
        let mut r = Communicator::new();
        let mut i: usize = 0;
        while i < parties.len()
            invariant
                i <= parties.len(),
                r.well_formed(),
                forall|p: PartyID| r@.contains(p) <==> parties@.take(i as int).contains(p),
            decreases parties.len() - i,
        {
            let ghost before = parties@.take(i as int);
            r.insert(parties[i]);
            assert(parties@.take(i as int + 1) == before.push(parties@[i as int]));
            assert forall|p: PartyID|
                parties@.take(i as int + 1).contains(p) <==> (before.contains(p) || p
                    == parties@[i as int]) by {
                let taken = parties@.take(i as int + 1);
                if taken.contains(p) {
                    let k = choose|k: int| 0 <= k < taken.len() && taken[k] == p;
                    if k < i {
                        assert(before[k] == p);
                    }
                }
                if before.contains(p) {
                    let k = choose|k: int| 0 <= k < before.len() && before[k] == p;
                    assert(taken[k] == p);
                }
                if p == parties@[i as int] {
                    assert(taken[i as int] == p);
                }
            }
            i = i + 1;
        }
        assert(parties@.take(parties@.len() as int) == parties@);
        r
    }

    /// The members of `self` that are neither `a` nor `b`, in order.
    pub fn without_two(&self, a: PartyID, b: PartyID) -> (r: Communicator)
        requires
            self.well_formed(),
        ensures
            r@ == seq_without_two(self@, a, b),
            r.well_formed(),
    {
        let mut kept: Vec<PartyID> = Vec::new();
        let mut i: usize = 0;
        while i < self.parties.len()
            invariant
                i <= self.parties.len(),
                self.well_formed(),
                kept@ == seq_without_two(self@.take(i as int), a, b),
                strictly_sorted(kept@),
                kept@.len() == 0 || exists|m: int| 0 <= m < i && kept@.last() == self@[m],
            decreases self.parties.len() - i,
        {
            let ghost pre = kept@;
            let party = self.parties[i];
            if party != a && party != b {
                proof {
                    if pre.len() > 0 {
                        let m = choose|m: int| 0 <= m < i && pre.last() == self@[m];
                        assert(self@[m] < self@[i as int]);
                    }
                }
                kept.push(party);
            }
            proof {
                assert(self@.take(i as int + 1).drop_last() == self@.take(i as int));
                assert(self@.take(i as int + 1).last() == self@[i as int]);
                assert(kept@ == seq_without_two(self@.take(i as int + 1), a, b));
            }
            i = i + 1;
        }
        assert(self@.take(self@.len() as int) == self@);
        Communicator { parties: kept }
    }

    /// The members as a vector, in ascending id order.
    pub fn to_vec(&self) -> (r: Vec<PartyID>)
        ensures
            r@ == self@,
    {
        let mut r: Vec<PartyID> = Vec::new();
        let mut i: usize = 0;
        while i < self.parties.len()
            invariant
                i <= self.parties.len(),
                r@ == self@.take(i as int),
            decreases self.parties.len() - i,
        {
            r.push(self.parties[i]);
            assert(self@.take(i as int + 1) == self@.take(i as int).push(self@[i as int]));
            i = i + 1;
        }
        assert(self@.take(self@.len() as int) == self@);
        r
    }
}

} // verus!
