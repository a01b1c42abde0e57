//! The storage abstraction: a keyed collection of bills addressed by
//! opaque 128-bit identifiers that the store itself generates. The
//! interface is pluggable so another backend can replace the
//! in-memory one without changing the core.

use vstd::prelude::*;

use crate::bill::{Bill, BillView, BillWithId};
use crate::error::BillError;
use crate::memory::Memory;

verus! {

/// A keyed collection of bills. Reads hand back independent copies,
/// never references into shared state; identifiers are generated at
/// insertion and never chosen by the caller.
pub trait Data: Sized {
    /// The bills currently stored, keyed by identifier.
    spec fn bills(&self) -> Map<u128, BillView>;

    /// The backend's representation invariant.
    spec fn inv(&self) -> bool;

    /// Stores a copy of `bill` under a fresh identifier — one no
    /// current entry uses — and returns that identifier. Never fails.
    fn add_bill(&mut self, bill: &Bill) -> (id: u128)
        requires
            old(self).inv(),
            bill@.wf(),
        ensures
            final(self).inv(),
            !old(self).bills().contains_key(id),
            final(self).bills() == old(self).bills().insert(id, bill@),
    ;

    /// Removes the bill stored under `id`, or reports `NotFound` and
    /// leaves the store unchanged.
    fn delete_bill(&mut self, id: u128) -> (r: Result<u128, BillError>)
        requires
            old(self).inv(),
        ensures
            final(self).inv(),
            old(self).bills().contains_key(id) ==> r == Ok::<u128, BillError>(id)
                && final(self).bills() == old(self).bills().remove(id),
            !old(self).bills().contains_key(id) ==> r == Err::<u128, BillError>(
                BillError::NotFound,
            ) && final(self).bills() == old(self).bills(),
    ;

    /// A copy of the bill stored under `id`; absence is not an error.
    fn get_bill(&self, id: u128) -> (r: Option<Bill>)
        requires
            self.inv(),
        ensures
            match r {
                Some(b) => self.bills().contains_key(id) && b@ == self.bills()[id] && b@.wf(),
                None => !self.bills().contains_key(id),
            },
    ;

    /// A snapshot of all entries as independent copies: one entry per
    /// stored identifier, in unspecified order.
    fn get_bills(&self) -> (r: Vec<BillWithId>)
        requires
            self.inv(),
        ensures
            r@.len() == self.bills().dom().len(),
            forall|i: int|
                0 <= i < r@.len() ==> self.bills().contains_key(#[trigger] r@[i].id)
                    && r@[i].bill@ == self.bills()[r@[i].id],
            forall|i: int, j: int| 0 <= i < j < r@.len() ==> r@[i].id != r@[j].id,
            forall|k: u128|
                self.bills().contains_key(k) ==> exists|i: int|
                    0 <= i < r@.len() && (#[trigger] r@[i]).id == k,
    ;

    /// Replaces the bill stored under `id` with a copy of `bill`, or
    /// reports `NotFound` and leaves the store unchanged.
    fn update_bill(&mut self, id: u128, bill: &Bill) -> (r: Result<u128, BillError>)
        requires
            old(self).inv(),
            bill@.wf(),
        ensures
            final(self).inv(),
            old(self).bills().contains_key(id) ==> r == Ok::<u128, BillError>(id)
                && final(self).bills() == old(self).bills().insert(id, bill@),
            !old(self).bills().contains_key(id) ==> r == Err::<u128, BillError>(
                BillError::NotFound,
            ) && final(self).bills() == old(self).bills(),
    ;
}

/// The available storage backends; only the in-memory one exists today.
pub enum DataProvider {
    Memory(Memory),
}

impl Data for DataProvider {
    open spec fn bills(&self) -> Map<u128, BillView> {
        match self {
            DataProvider::Memory(m) => m.bills(),
        }
    }

    open spec fn inv(&self) -> bool {
        match self {
            DataProvider::Memory(m) => m.inv(),
        }
    }

    fn add_bill(&mut self, bill: &Bill) -> (id: u128) {
        match self {
            DataProvider::Memory(m) => m.add_bill(bill),
        }
    }

    fn delete_bill(&mut self, id: u128) -> (r: Result<u128, BillError>) {
        match self {
            DataProvider::Memory(m) => m.delete_bill(id),
        }
    }

    fn get_bill(&self, id: u128) -> (r: Option<Bill>) {
        match self {
            DataProvider::Memory(m) => m.get_bill(id),
        }
    }

    fn get_bills(&self) -> (r: Vec<BillWithId>) {
        match self {
            DataProvider::Memory(m) => m.get_bills(),
        }
    }

    fn update_bill(&mut self, id: u128, bill: &Bill) -> (r: Result<u128, BillError>) {
        match self {
            DataProvider::Memory(m) => m.update_bill(id, bill),
        }
    }
}

/// Law (distinct identifiers): what `add_bill`'s contract gives two
/// successive calls — the two returned identifiers differ, and the
/// store has gained exactly two entries, so a run of adds yields
/// pairwise distinct identifiers and a listing with one entry each.
pub proof fn lemma_add_bill_ids_distinct(
    m: Map<u128, BillView>,
    id1: u128,
    b1: BillView,
    id2: u128,
    b2: BillView,
)
    requires
        m.dom().finite(),
        !m.contains_key(id1),
        !m.insert(id1, b1).contains_key(id2),
    ensures
        id1 != id2,
        m.insert(id1, b1).insert(id2, b2).dom().len() == m.dom().len() + 2,
{
    assert(m.insert(id1, b1).contains_key(id1));
}

/// Law (delete then get): after a bill is added and then deleted, its
/// identifier maps to nothing — by the contracts of `get_bill` and
/// `delete_bill`, a get returns `None` and a second delete reports
/// `NotFound`.
pub proof fn lemma_delete_then_get(m: Map<u128, BillView>, id: u128, b: BillView)
    ensures
        !m.insert(id, b).remove(id).contains_key(id),
{
}

} // verus!
