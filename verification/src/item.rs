//! A line item: one purchased thing on a bill, with a name, an exact
//! price, and optionally the name of the participant who ordered it.

use vstd::prelude::*;

use crate::currency::Currency;

verus! {

/// One priced entry of a bill. An empty name is permitted; an item with
/// no `orderer` belongs to nobody and is excluded from every
/// participant's sub-bill.
#[derive(Clone, Debug, PartialEq, Eq)]
pub struct LineItem {
    pub name: String,
    pub price: Currency,
    pub orderer: Option<String>,
}

/// The mathematical value of a `LineItem`.
#[verifier::ext_equal]
pub ghost struct ItemView {
    pub name: Seq<char>,
    pub price: Currency,
    pub orderer: Option<Seq<char>>,
}

impl View for LineItem {
    type V = ItemView;

    open spec fn view(&self) -> ItemView {
        ItemView {
            name: self.name@,
            price: self.price,
            orderer: match self.orderer {
                Some(s) => Some(s@),
                None => None,
            },
        }
    }
}

impl LineItem {
    /// An empty item: no name, zero price, no orderer.
    pub fn new() -> (it: LineItem)
        ensures
            it@.name == Seq::<char>::empty(),
            it@.price.as_cents() == 0,
            it@.price.wf(),
            it@.orderer is None,
    {
        LineItem { name: String::new(), price: Currency::new(), orderer: None }
    }

    /// Direct construction; no validation is performed.
    pub fn from(name: String, price: Currency, orderer: Option<String>) -> (it: LineItem)
        ensures
            it@.name == name@,
            it@.price == price,
            it@.orderer == (match orderer {
                Some(s) => Some(s@),
                None => None::<Seq<char>>,
            }),
    {
        LineItem { name, price, orderer }
    }
}

} // verus!
