//! The in-memory storage backend: a keyed collection of bills backed
//! by a vector of identifier/bill pairs with pairwise distinct keys.
//! Identifiers are random 128-bit values; the store checks each fresh
//! identifier against its contents, so a returned identifier is
//! guaranteed unused even in the (practically impossible) event that
//! the random source repeats itself.

use vstd::prelude::*;

use crate::bill::{Bill, BillView, BillWithId};
use crate::data::Data;
use crate::error::BillError;

verus! {

/// The contents of a backing sequence as a mathematical map; a later
/// entry with the same key would shadow an earlier one, but the store
/// keeps its keys distinct.
pub open spec fn store_map(s: Seq<(u128, Bill)>) -> Map<u128, BillView>
    decreases s.len(),
{
    if s.len() == 0 {
        Map::empty()
    } else {
        store_map(s.drop_last()).insert(s.last().0, s.last().1@)
    }
}

/// No two entries of the backing sequence share a key.
pub open spec fn distinct_keys(s: Seq<(u128, Bill)>) -> bool {
    forall|i: int, j: int|
        0 <= i < s.len() && 0 <= j < s.len() && i != j ==> (#[trigger] s[i]).0 != (
        #[trigger] s[j]).0
}

/// Every stored bill is well formed.
pub open spec fn wf_values(s: Seq<(u128, Bill)>) -> bool {
    forall|i: int| 0 <= i < s.len() ==> (#[trigger] s[i]).1@.wf()
}

/// A key is in the map exactly when some entry carries it.
proof fn lemma_store_map_contains(s: Seq<(u128, Bill)>, k: u128)
    ensures
        store_map(s).contains_key(k) <==> exists|i: int|
            0 <= i < s.len() && (#[trigger] s[i]).0 == k,
    decreases s.len(),
{
    if s.len() > 0 {
        lemma_store_map_contains(s.drop_last(), k);
        assert(s.last() == s[s.len() - 1]);
        if store_map(s).contains_key(k) {
            if s.last().0 != k {
                let i = choose|i: int| 0 <= i < s.drop_last().len() && (#[trigger] s.drop_last()[i]).0 == k;
                assert(s[i].0 == k);
            }
        }
        if exists|i: int| 0 <= i < s.len() && (#[trigger] s[i]).0 == k {
            let i = choose|i: int| 0 <= i < s.len() && (#[trigger] s[i]).0 == k;
            if i < s.len() - 1 {
                assert(s.drop_last()[i].0 == k);
            }
        }
    }
}

/// With distinct keys, the map sends each entry's key to that entry's
/// bill.
proof fn lemma_store_map_value(s: Seq<(u128, Bill)>, i: int)
    requires
        distinct_keys(s),
        0 <= i < s.len(),
    ensures
        store_map(s).contains_key(s[i].0),
        store_map(s)[s[i].0] == s[i].1@,
    decreases s.len(),
{
    assert(s.last() == s[s.len() - 1]);
    if i < s.len() - 1 {
        lemma_store_map_value(s.drop_last(), i);
        assert(s.drop_last()[i] == s[i]);
    }
}

/// With distinct keys, the map has exactly one entry per element of
/// the backing sequence.
proof fn lemma_store_map_len(s: Seq<(u128, Bill)>)
    requires
        distinct_keys(s),
    ensures
        store_map(s).dom().finite(),
        store_map(s).dom().len() == s.len(),
    decreases s.len(),
{
    if s.len() > 0 {
        lemma_store_map_len(s.drop_last());
        lemma_store_map_contains(s.drop_last(), s.last().0);
        assert(s.last() == s[s.len() - 1]);
        assert(forall|i: int|
            0 <= i < s.drop_last().len() ==> (#[trigger] s.drop_last()[i]).0 != s.last().0);
        assert(!store_map(s.drop_last()).contains_key(s.last().0));
        assert(store_map(s).dom() =~= store_map(s.drop_last()).dom().insert(s.last().0));
    }
}

/// Removing an entry removes exactly its key from the map.
proof fn lemma_store_map_remove(s: Seq<(u128, Bill)>, i: int)
    requires
        distinct_keys(s),
        0 <= i < s.len(),
    ensures
        store_map(s.remove(i)) == store_map(s).remove(s[i].0),
    decreases s.len(),
{
    s.remove_ensures(i);
    assert(s.last() == s[s.len() - 1]);
    if i == s.len() - 1 {
        assert(s.remove(i) =~= s.drop_last());
        lemma_store_map_contains(s.drop_last(), s[i].0);
        assert(forall|j: int|
            0 <= j < s.drop_last().len() ==> (#[trigger] s.drop_last()[j]).0 != s[i].0);
        assert(!store_map(s.drop_last()).contains_key(s[i].0));
        assert(store_map(s.drop_last()).insert(s[i].0, s[i].1@).remove(s[i].0) =~= store_map(
            s.drop_last(),
        ));
    } else {
        assert(s.remove(i).drop_last() =~= s.drop_last().remove(i));
        assert(s.remove(i).last() == s.last());
        lemma_store_map_remove(s.drop_last(), i);
        assert(s.drop_last()[i] == s[i]);
        assert(store_map(s.drop_last()).remove(s[i].0).insert(s.last().0, s.last().1@)
            =~= store_map(s.drop_last()).insert(s.last().0, s.last().1@).remove(s[i].0));
    }
}

/// Overwriting an entry in place updates exactly its key's image.
proof fn lemma_store_map_update(s: Seq<(u128, Bill)>, i: int, b: Bill)
    requires
        distinct_keys(s),
        0 <= i < s.len(),
    ensures
        store_map(s.update(i, (s[i].0, b))) == store_map(s).insert(s[i].0, b@),
    decreases s.len(),
{
    assert(s.last() == s[s.len() - 1]);
    let u = s.update(i, (s[i].0, b));
    if i == s.len() - 1 {
        assert(u.drop_last() =~= s.drop_last());
        assert(u.last() == (s[i].0, b));
        assert(store_map(s.drop_last()).insert(s[i].0, b@) =~= store_map(s.drop_last()).insert(
            s[i].0,
            s[i].1@,
        ).insert(s[i].0, b@));
    } else {
        assert(u.drop_last() =~= s.drop_last().update(i, (s[i].0, b)));
        assert(u.last() == s.last());
        lemma_store_map_update(s.drop_last(), i, b);
        assert(s.drop_last()[i] == s[i]);
        assert(store_map(s.drop_last()).insert(s[i].0, b@).insert(s.last().0, s.last().1@)
            =~= store_map(s.drop_last()).insert(s.last().0, s.last().1@).insert(s[i].0, b@));
    }
}

/// Relies on `uuid::Uuid::new_v4` to draw a random version-4
/// identifier, taken as its 128-bit value. The result is random, so
/// nothing is promised about it; the store itself checks freshness.
#[verifier::external_body]
fn random_id() -> u128 {
    uuid::Uuid::new_v4().as_u128()
}

/// The in-memory backend: bills in a vector of identifier/bill pairs.
pub struct Memory {
    bills: Vec<(u128, Bill)>,
}

impl Memory {
    /// An empty store.
    pub fn new() -> (m: Memory)
        ensures
            m.inv(),
            m.bills() == Map::<u128, BillView>::empty(),
    {
        let m = Memory { bills: Vec::new() };
        proof {
            assert(m.bills@ =~= Seq::<(u128, Bill)>::empty());
        }
        m
    }

    /// Looks up the position of the entry stored under `id`.
    fn find_bill(&self, id: u128) -> (r: Option<usize>)
        ensures
            match r {
                Some(i) => i < self.bills@.len() && self.bills@[i as int].0 == id,
                None => !store_map(self.bills@).contains_key(id),
            },
    {
        let mut i: usize = 0;
        while i < self.bills.len()
            invariant
                i <= self.bills@.len(),
                forall|k: int| 0 <= k < i ==> (#[trigger] self.bills@[k]).0 != id,
            decreases self.bills@.len() - i,
        {
            if self.bills[i].0 == id {
                return Some(i);
            }
            i = i + 1;
        }
        proof {
            lemma_store_map_contains(self.bills@, id);
        }
        None
    }

    /// An identifier no current entry uses. A random draw is taken
    /// first; if it collides, the smallest unused small number is
    /// found by scanning — among `len + 1` candidates one must be
    /// free, since the store holds only `len` entries.
    fn fresh_id(&self) -> (id: u128)
        requires
            distinct_keys(self.bills@),
        ensures
            !store_map(self.bills@).contains_key(id),
    {
        let candidate = random_id();
        if self.find_bill(candidate).is_none() {
            return candidate;
        }
        proof {
            lemma_store_map_len(self.bills@);
        }
        let n = self.bills.len();
        let ghost m = store_map(self.bills@);
        let ghost mut used: Set<u128> = Set::empty();
        let mut c: u128 = 0;
        while c <= n as u128
            invariant
                n == self.bills@.len(),
                m == store_map(self.bills@),
                m.dom().finite(),
                m.dom().len() == n,
                c <= n as u128 + 1,
                used.finite(),
                used.len() == c,
                used.subset_of(m.dom()),
                forall|k: u128| used.contains(k) ==> k < c,
            decreases n as u128 + 1 - c,
        {
            match self.find_bill(c) {
                None => {
                    return c;
                },
                Some(idx) => {
                    proof {
                        lemma_store_map_contains(self.bills@, c);
                        assert(self.bills@[idx as int].0 == c);
                        assert(m.contains_key(c));
                        assert(!used.contains(c));
                        used = used.insert(c);
                    }
                },
            }
            c = c + 1;
        }
        proof {
            vstd::set_lib::lemma_len_subset(used, m.dom());
            assert(false);
        }
        0
    }
}

impl Data for Memory {
    closed spec fn bills(&self) -> Map<u128, BillView> {
        store_map(self.bills@)
    }

    closed spec fn inv(&self) -> bool {
        distinct_keys(self.bills@) && wf_values(self.bills@)
    }

    fn add_bill(&mut self, bill: &Bill) -> (id: u128) {
        let id = self.fresh_id();
        proof {
            lemma_store_map_contains(self.bills@, id);
        }
        let copied = bill.duplicate();
        self.bills.push((id, copied));
        proof {
            let s = old(self).bills@;
            assert(self.bills@.drop_last() =~= s);
            assert(self.bills@.last().0 == id);
            assert(self.bills@.last().1@ == bill@);
            assert(store_map(self.bills@) =~= store_map(s).insert(id, bill@));
            assert forall|i: int, j: int|
                0 <= i < self.bills@.len() && 0 <= j < self.bills@.len() && i != j implies (
            #[trigger] self.bills@[i]).0 != (#[trigger] self.bills@[j]).0 by {
                if i < s.len() && j < s.len() {
                    assert(s[i].0 != s[j].0);
                } else if i < s.len() {
                    assert(s[i].0 != id);
                } else {
                    assert(s[j].0 != id);
                }
            }
        }
        id
    }

    fn delete_bill(&mut self, id: u128) -> (r: Result<u128, BillError>) {
        match self.find_bill(id) {
            Some(i) => {
                proof {
                    lemma_store_map_contains(self.bills@, id);
                    lemma_store_map_remove(self.bills@, i as int);
                    self.bills@.remove_ensures(i as int);
                }
                self.bills.remove(i);
                proof {
                    let s = old(self).bills@;
                    assert(self.bills@ =~= s.remove(i as int));
                    assert forall|a: int, b: int|
                        0 <= a < self.bills@.len() && 0 <= b < self.bills@.len() && a != b implies (
                    #[trigger] self.bills@[a]).0 != (#[trigger] self.bills@[b]).0 by {
                        let a0: int = if a < i { a } else { a + 1 };
                        let b0: int = if b < i { b } else { b + 1 };
                        assert(self.bills@[a] == s[a0] && self.bills@[b] == s[b0]);
                    }
                    assert forall|a: int| 0 <= a < self.bills@.len() implies (
                    #[trigger] self.bills@[a]).1@.wf() by {
                        let a0: int = if a < i { a } else { a + 1 };
                        assert(self.bills@[a] == s[a0]);
                    }
                }
                Ok(id)
            },
            None => Err(BillError::NotFound),
        }
    }

    fn get_bill(&self, id: u128) -> (r: Option<Bill>) {
        match self.find_bill(id) {
            Some(i) => {
                proof {
                    lemma_store_map_value(self.bills@, i as int);
                }
                Some(self.bills[i].1.duplicate())
            },
            None => None,
        }
    }

    fn get_bills(&self) -> (r: Vec<BillWithId>) {
        proof {
            lemma_store_map_len(self.bills@);
        }
        let mut out: Vec<BillWithId> = Vec::new();
        let mut i: usize = 0;
        while i < self.bills.len()
            invariant
                self.inv(),
                i <= self.bills@.len(),
                out@.len() == i,
                forall|k: int|
                    0 <= k < i ==> (#[trigger] out@[k]).id == self.bills@[k].0 && out@[k].bill@
                        == self.bills@[k].1@,
            decreases self.bills@.len() - i,
        {
            let id = self.bills[i].0;
            let copied = self.bills[i].1.duplicate();
            out.push(BillWithId { id, bill: copied });
            i = i + 1;
        }
        proof {
            assert forall|k: int| 0 <= k < out@.len() implies store_map(self.bills@).contains_key(
                #[trigger] out@[k].id,
            ) && out@[k].bill@ == store_map(self.bills@)[out@[k].id] by {
                lemma_store_map_value(self.bills@, k);
            }
            assert forall|k: u128| store_map(self.bills@).contains_key(k) implies exists|j: int|
                0 <= j < out@.len() && (#[trigger] out@[j]).id == k by {
                lemma_store_map_contains(self.bills@, k);
                let j = choose|j: int| 0 <= j < self.bills@.len() && (#[trigger] self.bills@[j]).0 == k;
                assert(out@[j].id == k);
            }
        }
        out
    }

    fn update_bill(&mut self, id: u128, bill: &Bill) -> (r: Result<u128, BillError>) {
        match self.find_bill(id) {
            Some(i) => {
                let copied = bill.duplicate();
                proof {
                    lemma_store_map_contains(self.bills@, id);
                    lemma_store_map_update(self.bills@, i as int, copied);
                }
                self.bills.remove(i);
                self.bills.insert(i, (id, copied));
                proof {
                    let s = old(self).bills@;
                    assert(self.bills@ =~= s.update(i as int, (s[i as int].0, copied)));
                    assert forall|a: int, b: int|
                        0 <= a < self.bills@.len() && 0 <= b < self.bills@.len() && a != b implies (
                    #[trigger] self.bills@[a]).0 != (#[trigger] self.bills@[b]).0 by {
                        assert(self.bills@[a].0 == s[a].0 && self.bills@[b].0 == s[b].0);
                    }
                    assert forall|a: int| 0 <= a < self.bills@.len() implies (
                    #[trigger] self.bills@[a]).1@.wf() by {
                        if a != i {
                            assert(self.bills@[a] == s[a]);
                        }
                    }
                }
                Ok(id)
            },
            None => Err(BillError::NotFound),
        }
    }
}

} // verus!
