//! A bill: a named collection of line items, an optional blended total,
//! and the apportionment algorithm that splits that total across
//! participants in proportion to their share of the raw item subtotal.

use vstd::prelude::*;

use crate::currency::{currency_of_cents, Currency, MAX_CENTS};
use crate::error::BillError;
use crate::item::{ItemView, LineItem};

verus! {

/// A named collection of line items. Item identifiers are handed out by a
/// counter that only ever grows, so an identifier is never reused, even
/// after the item it named was deleted.
#[derive(Clone, Debug, PartialEq, Eq)]
pub struct Bill {
    name: String,
    total: Option<Currency>,
    items: Vec<(u16, LineItem)>,
    counter: u16,
}

/// The mathematical value of a `Bill`: its items as a sequence of
/// identifier/item pairs, in insertion order.
#[verifier::ext_equal]
pub ghost struct BillView {
    pub name: Seq<char>,
    pub total: Option<Currency>,
    pub items: Seq<(u16, ItemView)>,
    pub counter: u16,
}

/// The item pairs of a bill, item values abstracted.
pub open spec fn pairs_view(s: Seq<(u16, LineItem)>) -> Seq<(u16, ItemView)> {
    s.map_values(|p: (u16, LineItem)| (p.0, p.1@))
}

impl View for Bill {
    type V = BillView;

    closed spec fn view(&self) -> BillView {
        BillView {
            name: self.name@,
            total: self.total,
            items: pairs_view(self.items@),
            counter: self.counter,
        }
    }
}

/// The sum, in cents, of the prices of a sequence of identified items.
pub open spec fn sum_cents(items: Seq<(u16, ItemView)>) -> int
    decreases items.len(),
{
    if items.len() == 0 {
        0
    } else {
        sum_cents(items.drop_last()) + items.last().1.price.as_cents()
    }
}

/// The sum, in cents, of the prices of a sequence of items.
pub open spec fn sum_item_cents(items: Seq<ItemView>) -> int
    decreases items.len(),
{
    if items.len() == 0 {
        0
    } else {
        sum_item_cents(items.drop_last()) + items.last().price.as_cents()
    }
}

/// The items of `items` whose orderer is exactly `who`, in order.
/// Items without an orderer match nobody.
pub open spec fn matched(items: Seq<(u16, ItemView)>, who: Seq<char>) -> Seq<ItemView>
    decreases items.len(),
{
    if items.len() == 0 {
        Seq::empty()
    } else if items.last().1.orderer == Some(who) {
        matched(items.drop_last(), who).push(items.last().1)
    } else {
        matched(items.drop_last(), who)
    }
}

/// A participant's share of `total`, proportional to `part` out of
/// `whole`, rounded half up. When `whole` is zero the share is zero:
/// with no priced items there is nothing to apportion by.
pub open spec fn apportion(total: int, part: int, whole: int) -> int {
    if whole == 0 {
        0
    } else {
        (total * part + whole / 2) / whole
    }
}

impl BillView {
    /// Well-formedness: the total and every price are well-formed
    /// amounts, item identifiers are distinct and below the counter,
    /// and there are no more items than identifiers handed out.
    pub open spec fn wf(self) -> bool {
        &&& (match self.total {
            Some(t) => t.wf(),
            None => true,
        })
        &&& (forall|i: int|
            0 <= i < self.items.len() ==> (#[trigger] self.items[i]).1.price.wf())
        &&& (forall|i: int| 0 <= i < self.items.len() ==> (#[trigger] self.items[i]).0 < self.counter)
        &&& (forall|i: int, j: int|
            0 <= i < self.items.len() && 0 <= j < self.items.len() && i != j
                ==> (#[trigger] self.items[i]).0 != (#[trigger] self.items[j]).0)
        &&& self.items.len() <= self.counter
    }

    /// Whether some item carries the identifier `id`.
    pub open spec fn contains_item(self, id: u16) -> bool {
        exists|i: int| 0 <= i < self.items.len() && (#[trigger] self.items[i]).0 == id
    }

    /// The position of the item with identifier `id`, when there is one.
    pub open spec fn idx_of(self, id: u16) -> int {
        choose|i: int| 0 <= i < self.items.len() && (#[trigger] self.items[i]).0 == id
    }

    /// The item stored under `id`, when there is one.
    pub open spec fn item_at(self, id: u16) -> ItemView {
        self.items[self.idx_of(id)].1
    }

    /// The exact subtotal of all items, in cents.
    pub open spec fn subtotal_cents(self) -> int {
        sum_cents(self.items)
    }
}

impl Bill {
    /// An empty bill: no items, no total, counter at zero.
    pub fn new(name: String) -> (b: Bill)
        ensures
            b@.wf(),
            b@.name == name@,
            b@.total is None,
            b@.items == Seq::<(u16, ItemView)>::empty(),
            b@.counter == 0,
    {
        let b = Bill { name, total: None, items: Vec::new(), counter: 0 };
        proof {
            assert(b@.items =~= Seq::<(u16, ItemView)>::empty());
        }
        b
    }

    /// An empty bill that already knows its blended total.
    pub fn from(name: String, total: Currency) -> (b: Bill)
        requires
            total.wf(),
        ensures
            b@.wf(),
            b@.name == name@,
            b@.total == Some(total),
            b@.items == Seq::<(u16, ItemView)>::empty(),
            b@.counter == 0,
    {
        let mut b = Bill::new(name);
        b.total = Some(total);
        b
    }

    /// Hands out the next item identifier and advances the counter.
    fn get_counter(&mut self) -> (id: u16)
        requires
            old(self).counter < u16::MAX,
        ensures
            id == old(self).counter,
            final(self).counter == old(self).counter + 1,
            final(self).name == old(self).name,
            final(self).total == old(self).total,
            final(self).items == old(self).items,
    {
        self.counter = self.counter + 1;
        self.counter - 1
    }

    /// Appends `item` under a fresh identifier and returns it. The
    /// identifier equals the counter before the call, so successive
    /// calls return consecutive identifiers.
    pub fn add_item(&mut self, item: LineItem) -> (id: u16)
        requires
            old(self)@.wf(),
            old(self)@.counter < u16::MAX,
            item@.price.wf(),
        ensures
            final(self)@.wf(),
            id == old(self)@.counter,
            final(self)@.items == old(self)@.items.push((id, item@)),
            final(self)@.counter == old(self)@.counter + 1,
            final(self)@.name == old(self)@.name,
            final(self)@.total == old(self)@.total,
            final(self)@.contains_item(id),
            !old(self)@.contains_item(id),
            final(self)@ == after_adds(old(self)@, seq![item@]),
    {
        let id = self.get_counter();
        self.items.push((id, item));
        proof {
            assert(self@.items =~= old(self)@.items.push((id, item@)));
            assert(self@.items[old(self)@.items.len() as int].0 == id);
            assert(seq![item@].drop_last() =~= Seq::<ItemView>::empty());
            assert(after_adds(old(self)@, Seq::<ItemView>::empty()) == old(self)@);
            assert(self@ =~= after_adds(old(self)@, seq![item@]));
        }
        id
    }

    /// Looks up the position of the item carrying identifier `id`.
    fn find_item(&self, id: u16) -> (r: Option<usize>)
        ensures
            match r {
                Some(i) => i < self@.items.len() && self@.items[i as int].0 == id,
                None => !self@.contains_item(id),
            },
    {
        let mut i: usize = 0;
        while i < self.items.len()
            invariant
                i <= self.items@.len(),
                self@.items.len() == self.items@.len(),
                forall|k: int| 0 <= k < i ==> (#[trigger] self@.items[k]).0 != id,
            decreases self.items@.len() - i,
        {
            if self.items[i].0 == id {
                return Some(i);
            }
            i = i + 1;
        }
        None
    }

    /// Removes the item with identifier `id`, or reports `ItemNotFound`
    /// and leaves the bill unchanged. Other items, the name, the total
    /// and the counter are untouched either way, so a deleted
    /// identifier is never handed out again.
    pub fn delete_item(&mut self, id: u16) -> (r: Result<u16, BillError>)
        requires
            old(self)@.wf(),
        ensures
            final(self)@.wf(),
            old(self)@.contains_item(id) ==> {
                &&& r == Ok::<u16, BillError>(id)
                &&& final(self)@.items == old(self)@.items.remove(old(self)@.idx_of(id))
                &&& !final(self)@.contains_item(id)
            },
            !old(self)@.contains_item(id) ==> {
                &&& r == Err::<u16, BillError>(BillError::ItemNotFound)
                &&& final(self)@ == old(self)@
            },
            final(self)@.name == old(self)@.name,
            final(self)@.total == old(self)@.total,
            final(self)@.counter == old(self)@.counter,
    {
        match self.find_item(id) {
            Some(i) => {
                proof {
                    assert(old(self)@.contains_item(id));
                    lemma_idx_of_found(old(self)@, id, i as int);
                }
                self.items.remove(i);
                proof {
                    old(self)@.items.remove_ensures(i as int);
                    assert(self@.items =~= old(self)@.items.remove(i as int));
                    assert forall|k: int| 0 <= k < self@.items.len() implies (
                    #[trigger] self@.items[k]).0 != id by {
                        if k < i {
                            assert(self@.items[k] == old(self)@.items[k]);
                        } else {
                            assert(self@.items[k] == old(self)@.items[k + 1]);
                        }
                    }
                }
                Ok(id)
            },
            None => {
                proof {
                    assert(self@ =~= old(self)@);
                }
                Err(BillError::ItemNotFound)
            },
        }
    }

    /// Replaces the item stored under `id`, or reports `ItemNotFound`
    /// and leaves the bill unchanged.
    pub fn update_item(&mut self, id: u16, item: LineItem) -> (r: Result<u16, BillError>)
        requires
            old(self)@.wf(),
            item@.price.wf(),
        ensures
            final(self)@.wf(),
            old(self)@.contains_item(id) ==> {
                &&& r == Ok::<u16, BillError>(id)
                &&& final(self)@.items == old(self)@.items.update(
                    old(self)@.idx_of(id),
                    (id, item@),
                )
                &&& final(self)@.contains_item(id)
                &&& final(self)@.item_at(id) == item@
            },
            !old(self)@.contains_item(id) ==> {
                &&& r == Err::<u16, BillError>(BillError::ItemNotFound)
                &&& final(self)@ == old(self)@
            },
            final(self)@.name == old(self)@.name,
            final(self)@.total == old(self)@.total,
            final(self)@.counter == old(self)@.counter,
    {
        match self.find_item(id) {
            Some(i) => {
                proof {
                    assert(old(self)@.contains_item(id));
                    lemma_idx_of_found(old(self)@, id, i as int);
                }
                self.items.remove(i);
                self.items.insert(i, (id, item));
                proof {
                    assert(self@.items =~= old(self)@.items.update(i as int, (id, item@)));
                    assert(self@.items[i as int].0 == id);
                    lemma_idx_of_found(self@, id, i as int);
                }
                Ok(id)
            },
            None => {
                proof {
                    assert(self@ =~= old(self)@);
                }
                Err(BillError::ItemNotFound)
            },
        }
    }

    /// The bill's name.
    pub fn name(&self) -> (r: &str)
        ensures
            r@ == self@.name,
    {
        self.name.as_str()
    }

    /// The blended total, when one is known.
    pub fn total(&self) -> (r: Option<Currency>)
        ensures
            r == self@.total,
    {
        self.total
    }

    /// How many items the bill currently holds.
    pub fn items_len(&self) -> (r: usize)
        ensures
            r == self@.items.len(),
    {
        self.items.len()
    }

    /// The value of the item counter: the identifier the next added
    /// item will receive.
    pub fn counter(&self) -> (r: u16)
        ensures
            r == self@.counter,
    {
        self.counter
    }

    /// The identifier/item pairs, in insertion order.
    pub fn items(&self) -> (r: &Vec<(u16, LineItem)>)
        ensures
            r@.len() == self@.items.len(),
            forall|k: int|
                0 <= k < r@.len() ==> ((#[trigger] r@[k]).0, r@[k].1@) == self@.items[k],
    {
        &self.items
    }

    /// The item stored under `id`, when there is one.
    pub fn get_item(&self, id: u16) -> (r: Option<&LineItem>)
        requires
            self@.wf(),
        ensures
            match r {
                Some(it) => self@.contains_item(id) && it@ == self@.item_at(id),
                None => !self@.contains_item(id),
            },
    {
        match self.find_item(id) {
            Some(i) => {
                proof {
                    lemma_idx_of_found(self@, id, i as int);
                }
                Some(&self.items[i].1)
            },
            None => None,
        }
    }

    /// Rebuilds a bill from its parts — as a transport layer must
    /// after decoding one — provided they satisfy the bill invariant:
    /// well-formed amounts, distinct item identifiers all below the
    /// counter. Malformed parts are rejected rather than repaired.
    pub fn try_from_parts(
        name: String,
        total: Option<Currency>,
        items: Vec<(u16, LineItem)>,
        counter: u16,
    ) -> (r: Option<Bill>)
        ensures
            ({
                let v = BillView { name: name@, total, items: pairs_view(items@), counter };
                match r {
                    Some(b) => b@ == v && v.wf(),
                    None => !v.wf(),
                }
            }),
    {
        let ghost v = BillView { name: name@, total, items: pairs_view(items@), counter };
        match total {
            Some(t) => {
                if t.cents > 99 {
                    return None;
                }
            },
            None => {},
        }
        if items.len() > counter as usize {
            return None;
        }
        let mut i: usize = 0;
        while i < items.len()
            invariant
                v.items == pairs_view(items@),
                v.counter == counter,
                i <= items@.len(),
                forall|k: int| 0 <= k < i ==> (#[trigger] v.items[k]).1.price.wf(),
                forall|k: int| 0 <= k < i ==> (#[trigger] v.items[k]).0 < counter,
                forall|k: int, l: int|
                    0 <= k < i && 0 <= l < i && k != l ==> (#[trigger] v.items[k]).0 != (
                    #[trigger] v.items[l]).0,
            decreases items@.len() - i,
        {
            if items[i].1.price.cents > 99 {
                assert(!v.items[i as int].1.price.wf());
                return None;
            }
            if items[i].0 >= counter {
                assert(v.items[i as int].0 >= counter);
                return None;
            }
            let mut j: usize = 0;
            while j < i
                invariant
                    v.items == pairs_view(items@),
                    j <= i < items@.len(),
                    forall|k: int| 0 <= k < j ==> (#[trigger] v.items[k]).0 != v.items[i as int].0,
                decreases i - j,
            {
                if items[j].0 == items[i].0 {
                    assert(v.items[j as int].0 == v.items[i as int].0);
                    return None;
                }
                j = j + 1;
            }
            i = i + 1;
        }
        let b = Bill { name, total, items, counter };
        proof {
            assert(b@ =~= v);
        }
        Some(b)
    }

    /// An independent deep copy with the same mathematical value, so
    /// callers can hand bills across the store boundary without
    /// sharing state.
    pub fn duplicate(&self) -> (r: Bill)
        ensures
            r@ == self@,
    {
        let mut items: Vec<(u16, LineItem)> = Vec::new();
        let mut i: usize = 0;
        while i < self.items.len()
            invariant
                i <= self.items@.len(),
                items@.len() == i,
                forall|k: int|
                    0 <= k < i ==> (#[trigger] items@[k]).0 == self.items@[k].0 && items@[k].1@
                        == self.items@[k].1@,
            decreases self.items@.len() - i,
        {
            let id = self.items[i].0;
            let it = &self.items[i].1;
            items.push(
                (
                    id,
                    LineItem {
                        name: it.name.clone(),
                        price: it.price,
                        orderer: match &it.orderer {
                            Some(s) => Some(s.clone()),
                            None => None,
                        },
                    },
                ),
            );
            i = i + 1;
        }
        let r = Bill { name: self.name.clone(), total: self.total, items, counter: self.counter };
        proof {
            assert(r@.items =~= self@.items);
            assert(r@ =~= self@);
        }
        r
    }

    /// The exact subtotal of all items, accumulated in integer cents.
    /// The sum of zero items is zero.
    pub fn subtotal_cents(&self) -> (r: u64)
        requires
            self@.wf(),
        ensures
            r == self@.subtotal_cents(),
    {
        let ghost all = self@.items;
        let mut sum: u64 = 0;
        let mut i: usize = 0;
        while i < self.items.len()
            invariant
                self@.wf(),
                all == self@.items,
                self@.items.len() == self.items@.len(),
                i <= self.items@.len(),
                sum == sum_cents(all.take(i as int)),
            decreases self.items@.len() - i,
        {
            proof {
                lemma_sum_cents_take_step(all, i as int);
                lemma_sum_cents_bounds(all.take(i as int + 1));
                assert(all.take(i as int + 1).len() * (MAX_CENTS as int) <= 65535 * (
                MAX_CENTS as int));
            }
            let price_cents = self.items[i].1.price.to_cents();
            sum = sum + price_cents;
            i = i + 1;
        }
        proof {
            assert(all.take(self.items@.len() as int) =~= all);
        }
        sum
    }

    /// The subtotal as a `Currency`. The caller must know the sum is
    /// small enough to be represented, which `u16` dollars force.
    pub fn calculate_subtotal(&self) -> (r: Currency)
        requires
            self@.wf(),
            self@.subtotal_cents() <= MAX_CENTS,
        ensures
            r.wf(),
            r.as_cents() == self@.subtotal_cents(),
    {
        proof {
            lemma_sum_cents_bounds(self@.items);
        }
        Currency::from_cents(self.subtotal_cents())
    }

    /// The sub-bill of one participant: the items `orderer` ordered,
    /// re-numbered from zero, and — when this bill knows its blended
    /// total — that total apportioned by the participant's share of
    /// the raw item subtotal, rounded half up. Items with no orderer
    /// count toward the shared subtotal but belong to nobody. When no
    /// item has a price the share is zero.
    pub fn get_bill_for(&self, orderer: &str) -> (r: Bill)
        requires
            self@.wf(),
        ensures
            r@.wf(),
            r@.name == self@.name,
            r@.counter == matched(self@.items, orderer@).len(),
            r@.items.len() == matched(self@.items, orderer@).len(),
            forall|k: int|
                0 <= k < r@.items.len() ==> r@.items[k] == (k as u16, matched(
                    self@.items,
                    orderer@,
                )[k]),
            r@.subtotal_cents() == sum_item_cents(matched(self@.items, orderer@)),
            (match self@.total {
                None => r@.total is None,
                Some(t) => r@.total == Some(
                    currency_of_cents(
                        apportion(
                            t.as_cents(),
                            sum_item_cents(matched(self@.items, orderer@)),
                            self@.subtotal_cents(),
                        ),
                    ),
                ),
            }),
    {
        let ghost all = self@.items;
        let ghost who = orderer@;
        let owned_orderer: String = orderer.to_owned();
        let mut out = Bill::new(self.name.clone());
        let mut my: u64 = 0;
        let mut i: usize = 0;
        while i < self.items.len()
            invariant
                self@.wf(),
                all == self@.items,
                self@.items.len() == self.items@.len(),
                i <= self.items@.len(),
                owned_orderer@ == who,
                out@.wf(),
                out@.name == self@.name,
                out@.total is None,
                out@.counter == matched(all.take(i as int), who).len(),
                out@.items.len() == matched(all.take(i as int), who).len(),
                forall|k: int|
                    0 <= k < out@.items.len() ==> out@.items[k] == (k as u16, matched(
                        all.take(i as int),
                        who,
                    )[k]),
                my == sum_item_cents(matched(all.take(i as int), who)),
            decreases self.items@.len() - i,
        {
            proof {
                lemma_matched_take_step(all, who, i as int);
                lemma_matched_props(all.take(i as int), who);
                lemma_matched_props(all.take(i as int + 1), who);
                lemma_sum_cents_bounds(all.take(i as int + 1));
                assert(all.take(i as int + 1).len() * (MAX_CENTS as int) <= 65535 * (
                MAX_CENTS as int));
                if all[i as int].1.orderer == Some(who) {
                    lemma_sum_item_cents_push(matched(all.take(i as int), who), all[i as int].1);
                }
                assert(matched(all.take(i as int), who).len() <= i);
            }
            let it = &self.items[i].1;
            let is_mine = match &it.orderer {
                Some(s) => s.eq(&owned_orderer),
                None => false,
            };
            if is_mine {
                let copied = LineItem {
                    name: it.name.clone(),
                    price: it.price,
                    orderer: match &it.orderer {
                        Some(s) => Some(s.clone()),
                        None => None,
                    },
                };
                assert(copied@ == all[i as int].1);
                out.add_item(copied);
                my = my + it.price.to_cents();
            }
            i = i + 1;
        }
        proof {
            assert(all.take(self.items@.len() as int) =~= all);
            lemma_rekeyed_sum(out@.items, matched(all, who));
        }
        match self.total {
            None => out,
            Some(t) => {
                let all_cents = self.subtotal_cents();
                let t_cents = t.to_cents();
                proof {
                    lemma_matched_props(all, who);
                    lemma_sum_cents_bounds(all);
                    assert(all.len() * (MAX_CENTS as int) <= 65535 * (MAX_CENTS as int));
                    vstd::arithmetic::mul::lemma_mul_upper_bound(
                        t_cents as int,
                        MAX_CENTS as int,
                        my as int,
                        65535 * (MAX_CENTS as int),
                    );
                    lemma_apportion_bounds(t_cents as int, my as int, all_cents as int);
                }
                let share: u64 = if all_cents == 0 {
                    0
                } else {
                    (t_cents * my + all_cents / 2) / all_cents
                };
                out.total = Some(Currency::from_cents(share));
                out
            },
        }
    }
}

/// A read-only pairing of a store identifier with a bill, produced
/// when listing a store's contents; it is not itself stored.
#[derive(Clone, Debug, PartialEq, Eq)]
pub struct BillWithId {
    pub id: u128,
    pub bill: Bill,
}

/// Price sums are non-negative, and when every price is well formed
/// each item contributes at most `MAX_CENTS` cents.
pub proof fn lemma_sum_cents_bounds(items: Seq<(u16, ItemView)>)
    requires
        forall|i: int| 0 <= i < items.len() ==> (#[trigger] items[i]).1.price.wf(),
    ensures
        0 <= sum_cents(items),
        sum_cents(items) <= items.len() * (MAX_CENTS as int),
    decreases items.len(),
{
    if items.len() > 0 {
        assert(forall|i: int|
            0 <= i < items.drop_last().len() ==> (#[trigger] items.drop_last()[i]).1.price.wf());
        lemma_sum_cents_bounds(items.drop_last());
        assert(items.last() == items[items.len() - 1]);
    }
}

/// Extending a prefix by one item grows its price sum by that item's
/// price.
pub proof fn lemma_sum_cents_take_step(items: Seq<(u16, ItemView)>, i: int)
    requires
        0 <= i < items.len(),
    ensures
        sum_cents(items.take(i + 1)) == sum_cents(items.take(i)) + items[i].1.price.as_cents(),
{
    assert(items.take(i + 1).drop_last() =~= items.take(i));
    assert(items.take(i + 1).last() == items[i]);
}

/// Appending an item to a plain item sequence grows its price sum by
/// that item's price.
pub proof fn lemma_sum_item_cents_push(items: Seq<ItemView>, it: ItemView)
    ensures
        sum_item_cents(items.push(it)) == sum_item_cents(items) + it.price.as_cents(),
{
    assert(items.push(it).drop_last() =~= items);
    assert(items.push(it).last() == it);
}

/// Re-keying items changes none of their prices: a pair sequence
/// whose item parts are `its` has the same price sum as `its`.
pub proof fn lemma_rekeyed_sum(pairs: Seq<(u16, ItemView)>, its: Seq<ItemView>)
    requires
        pairs.len() == its.len(),
        forall|k: int| 0 <= k < its.len() ==> (#[trigger] pairs[k]).1 == its[k],
    ensures
        sum_cents(pairs) == sum_item_cents(its),
    decreases its.len(),
{
    if its.len() > 0 {
        assert(forall|k: int|
            0 <= k < its.drop_last().len() ==> (#[trigger] pairs.drop_last()[k]).1
                == its.drop_last()[k]);
        lemma_rekeyed_sum(pairs.drop_last(), its.drop_last());
        assert(pairs.last() == pairs[pairs.len() - 1]);
    }
}

/// A participant's matched items are no more numerous than the bill's
/// items, and their prices sum to no more than the whole subtotal.
pub proof fn lemma_matched_props(items: Seq<(u16, ItemView)>, who: Seq<char>)
    ensures
        matched(items, who).len() <= items.len(),
        0 <= sum_item_cents(matched(items, who)),
        sum_item_cents(matched(items, who)) <= sum_cents(items),
    decreases items.len(),
{
    if items.len() > 0 {
        lemma_matched_props(items.drop_last(), who);
        if items.last().1.orderer == Some(who) {
            lemma_sum_item_cents_push(matched(items.drop_last(), who), items.last().1);
        }
    }
}

/// Extending a prefix by one item extends the matched items exactly
/// when that item's orderer is `who`.
pub proof fn lemma_matched_take_step(items: Seq<(u16, ItemView)>, who: Seq<char>, i: int)
    requires
        0 <= i < items.len(),
    ensures
        matched(items.take(i + 1), who) == (if items[i].1.orderer == Some(who) {
            matched(items.take(i), who).push(items[i].1)
        } else {
            matched(items.take(i), who)
        }),
{
    assert(items.take(i + 1).drop_last() =~= items.take(i));
    assert(items.take(i + 1).last() == items[i]);
}

/// A proportional share is never negative and never exceeds the total
/// being apportioned.
pub proof fn lemma_apportion_bounds(total: int, part: int, whole: int)
    requires
        0 <= total,
        0 <= part <= whole,
    ensures
        0 <= apportion(total, part, whole),
        apportion(total, part, whole) <= total,
{
    if whole != 0 {
        let h = whole / 2;
        vstd::arithmetic::div_mod::lemma_fundamental_div_mod(whole, 2);
        vstd::arithmetic::div_mod::lemma_mod_bound(whole, 2);
        assert(total * part >= 0) by (nonlinear_arith)
            requires
                total >= 0,
                part >= 0,
        ;
        vstd::arithmetic::div_mod::lemma_div_pos_is_pos(total * part + h, whole);
        assert(total * part <= total * whole) by (nonlinear_arith)
            requires
                total >= 0,
                part <= whole,
        ;
        assert((whole * total + h) / whole == total) by {
            vstd::arithmetic::div_mod::lemma_div_multiples_vanish_fancy(total, h, whole);
        }
        vstd::arithmetic::div_mod::lemma_div_is_ordered(
            total * part + h,
            whole * total + h,
            whole,
        );
    }
}

/// Law (conservation): when all items are split between two
/// participants whose shares of the subtotal are `a` and `b`, the two
/// apportioned totals differ from the bill's total by at most one
/// cent, the slack coming from the two independent roundings.
pub proof fn lemma_apportion_conservation(total: int, a: int, b: int)
    requires
        0 <= total,
        0 <= a,
        0 <= b,
        0 < a + b,
    ensures
        total - 1 <= apportion(total, a, a + b) + apportion(total, b, a + b),
        apportion(total, a, a + b) + apportion(total, b, a + b) <= total + 1,
{
    let s = a + b;
    let h = s / 2;
    let x = (total * a + h) / s;
    let y = (total * b + h) / s;
    let r1 = (total * a + h) % s;
    let r2 = (total * b + h) % s;
    vstd::arithmetic::div_mod::lemma_fundamental_div_mod(s, 2);
    vstd::arithmetic::div_mod::lemma_mod_bound(s, 2);
    assert(total * a >= 0 && total * b >= 0) by (nonlinear_arith)
        requires
            total >= 0,
            a >= 0,
            b >= 0,
    ;
    vstd::arithmetic::div_mod::lemma_fundamental_div_mod(total * a + h, s);
    vstd::arithmetic::div_mod::lemma_mod_bound(total * a + h, s);
    vstd::arithmetic::div_mod::lemma_fundamental_div_mod(total * b + h, s);
    vstd::arithmetic::div_mod::lemma_mod_bound(total * b + h, s);
    assert(s * x + s * y == total * s + 2 * h - r1 - r2) by (nonlinear_arith)
        requires
            total * a + h == s * x + r1,
            total * b + h == s * y + r2,
            s == a + b,
    ;
    assert(s * (x + y) == s * x + s * y) by (nonlinear_arith);
    assert(s * (total - 2) == s * total - 2 * s) by (nonlinear_arith);
    assert(s * (total + 1) == s * total + s) by (nonlinear_arith);
    assert(s * total == total * s) by (nonlinear_arith);
    assert(s * (total - 2) < s * (x + y));
    assert(s * (x + y) <= s * (total + 1));
    vstd::arithmetic::mul::lemma_mul_strict_inequality_converse(total - 2, x + y, s);
    vstd::arithmetic::mul::lemma_mul_inequality_converse(x + y, total + 1, s);
}

/// Law (idempotent delete): once the item carrying `id` has been
/// removed, no item carries `id` any more, so by `delete_item`'s
/// contract a second delete of the same identifier reports
/// `ItemNotFound` and changes nothing.
pub proof fn lemma_delete_item_idempotent(b: BillView, id: u16)
    requires
        b.wf(),
        b.contains_item(id),
    ensures
        !(BillView { items: b.items.remove(b.idx_of(id)), ..b }).contains_item(id),
{
    let i = b.idx_of(id);
    assert(0 <= i < b.items.len() && b.items[i].0 == id);
    b.items.remove_ensures(i);
    let after = BillView { items: b.items.remove(i), ..b };
    assert forall|k: int| 0 <= k < after.items.len() implies (#[trigger] after.items[k]).0 != id
    by {
        if k < i {
            assert(after.items[k] == b.items[k]);
        } else {
            assert(after.items[k] == b.items[k + 1]);
        }
    }
}

/// Law (identifiers are never reused): the identifier `add_item` hands
/// out next — the current counter — is carried by no present item,
/// however many items were added and deleted before; every identifier
/// ever handed out stays below the counter.
pub proof fn lemma_add_item_fresh_id(b: BillView)
    requires
        b.wf(),
    ensures
        !b.contains_item(b.counter),
{
}

/// The bill after the items of `its` have been appended in order by
/// `add_item`: each gets the counter at its turn as identifier.
pub open spec fn after_adds(b: BillView, its: Seq<ItemView>) -> BillView
    decreases its.len(),
{
    if its.len() == 0 {
        b
    } else {
        let prev = after_adds(b, its.drop_last());
        BillView {
            items: prev.items.push((prev.counter, its.last())),
            counter: (prev.counter + 1) as u16,
            ..prev
        }
    }
}

/// Law (counter monotonicity): as long as the counter does not exhaust
/// `u16`, a run of adds hands out consecutive identifiers — the k-th
/// add returns `counter + k`. On a fresh bill that is exactly
/// `0, 1, .., N-1`, in call order, each identifier handed out once.
pub proof fn lemma_adds_return_consecutive_ids(b: BillView, its: Seq<ItemView>, k: int)
    requires
        b.counter + its.len() <= u16::MAX,
        0 <= k <= its.len(),
    ensures
        after_adds(b, its.take(k)).counter == b.counter + k,
    decreases k,
{
    if k > 0 {
        lemma_adds_return_consecutive_ids(b, its, k - 1);
        assert(its.take(k).drop_last() =~= its.take(k - 1));
    } else {
        assert(its.take(0) =~= Seq::<ItemView>::empty());
    }
}

/// Removing any one item lowers the price sum by exactly that item's
/// price, wherever the item sits.
pub proof fn lemma_sum_cents_remove(items: Seq<(u16, ItemView)>, i: int)
    requires
        0 <= i < items.len(),
    ensures
        sum_cents(items.remove(i)) == sum_cents(items) - items[i].1.price.as_cents(),
    decreases items.len(),
{
    if i == items.len() - 1 {
        assert(items.remove(i) =~= items.drop_last());
    } else {
        assert(items.remove(i).drop_last() =~= items.drop_last().remove(i));
        assert(items.remove(i).last() == items.last());
        lemma_sum_cents_remove(items.drop_last(), i);
    }
}

/// Law (subtotal additivity): the subtotal is the sum of the item
/// prices and depends only on which items are present, not on the
/// order they were inserted or what was deleted around them — two
/// bills whose items agree up to reordering have equal subtotals.
pub proof fn lemma_sum_cents_permutation(s1: Seq<(u16, ItemView)>, s2: Seq<(u16, ItemView)>)
    requires
        s1.to_multiset() == s2.to_multiset(),
    ensures
        sum_cents(s1) == sum_cents(s2),
    decreases s1.len(),
{
    broadcast use vstd::seq_lib::group_to_multiset_ensures;

    if s1.len() == 0 {
        assert(s2.to_multiset().len() == 0);
        assert(s2.len() == 0);
    } else {
        let x = s1.last();
        assert(s1.contains(x));
        assert(s1.to_multiset().count(x) > 0);
        assert(s2.to_multiset().count(x) > 0);
        assert(s2.contains(x));
        let j = choose|j: int| 0 <= j < s2.len() && s2[j] == x;
        assert(s1.drop_last() =~= s1.remove(s1.len() - 1));
        assert(s1.drop_last().to_multiset() == s1.to_multiset().remove(x));
        assert(s2.remove(j).to_multiset() == s2.to_multiset().remove(x));
        lemma_sum_cents_permutation(s1.drop_last(), s2.remove(j));
        lemma_sum_cents_remove(s2, j);
    }
}

/// When every item belongs to one of two distinct orderers, their two
/// matched sums split the whole subtotal exactly.
pub proof fn lemma_matched_partition(items: Seq<(u16, ItemView)>, a: Seq<char>, b: Seq<char>)
    requires
        a != b,
        forall|i: int|
            0 <= i < items.len() ==> ((#[trigger] items[i]).1.orderer == Some(a)
                || items[i].1.orderer == Some(b)),
    ensures
        sum_item_cents(matched(items, a)) + sum_item_cents(matched(items, b)) == sum_cents(items),
    decreases items.len(),
{
    if items.len() > 0 {
        assert(forall|i: int|
            0 <= i < items.drop_last().len() ==> ((#[trigger] items.drop_last()[i]).1.orderer
                == Some(a) || items.drop_last()[i].1.orderer == Some(b)));
        lemma_matched_partition(items.drop_last(), a, b);
        assert(items.last() == items[items.len() - 1]);
        if items.last().1.orderer == Some(a) {
            lemma_sum_item_cents_push(matched(items.drop_last(), a), items.last().1);
        } else {
            lemma_sum_item_cents_push(matched(items.drop_last(), b), items.last().1);
        }
    }
}

/// Law (apportionment conservation, two parties): for a bill whose
/// total is known, whose items all belong to one of two distinct
/// orderers, and whose subtotal is not zero, the two derived totals
/// computed by `get_bill_for` add up to the bill's total within one
/// cent — the slack coming from the two independent half-up
/// roundings. (With a zero subtotal both derived totals are zero by
/// the stated zero-ratio policy.)
pub proof fn lemma_two_party_conservation(bill: BillView, a: Seq<char>, b: Seq<char>)
    requires
        bill.wf(),
        a != b,
        bill.total is Some,
        bill.subtotal_cents() > 0,
        forall|i: int|
            0 <= i < bill.items.len() ==> ((#[trigger] bill.items[i]).1.orderer == Some(a)
                || bill.items[i].1.orderer == Some(b)),
    ensures
        ({
            let t = bill.total->Some_0.as_cents();
            let ta = apportion(t, sum_item_cents(matched(bill.items, a)), bill.subtotal_cents());
            let tb = apportion(t, sum_item_cents(matched(bill.items, b)), bill.subtotal_cents());
            t - 1 <= ta + tb <= t + 1
        }),
{
    let t = bill.total->Some_0.as_cents();
    lemma_matched_partition(bill.items, a, b);
    lemma_matched_props(bill.items, a);
    lemma_matched_props(bill.items, b);
    lemma_apportion_conservation(
        t,
        sum_item_cents(matched(bill.items, a)),
        sum_item_cents(matched(bill.items, b)),
    );
}

/// When a bill with distinct item identifiers holds `id` at position
/// `i`, that position is the one `idx_of` picks.
proof fn lemma_idx_of_found(b: BillView, id: u16, i: int)
    requires
        b.wf(),
        0 <= i < b.items.len(),
        b.items[i].0 == id,
    ensures
        b.contains_item(id),
        b.idx_of(id) == i,
{
    assert(b.contains_item(id));
    let j = b.idx_of(id);
    assert(0 <= j < b.items.len() && b.items[j].0 == id);
}

} // verus!
