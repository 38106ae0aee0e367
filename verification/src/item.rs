//! Stocked items and the rules that their fields obey.

use vstd::prelude::*;

use crate::error::Invalid;
use crate::price::Price;
use crate::text::{blank, is_blank};

verus! {

/// A stocked product.
#[derive(Debug, PartialEq, Eq)]
pub struct InventoryItem {
    pub id: u64,
    pub name: String,
    /// Units in stock. Zero is legal: the item is sold out.
    pub quantity: u64,
    pub price: Price,
}

/// The mathematical value of an [`InventoryItem`].
pub ghost struct ItemView {
    pub id: u64,
    pub name: Seq<char>,
    pub quantity: nat,
    pub price: Price,
}

impl ItemView {
    /// What holds of every stored item: its name is not blank, its quantity
    /// fits 64 bits and its price is above zero.
    pub open spec fn valid(self) -> bool {
        &&& !blank(self.name)
        &&& self.quantity <= u64::MAX
        &&& self.price.is_positive()
    }

    /// The item with the fields that are given replaced, and the others kept.
    pub open spec fn changed(
        self,
        name: Option<Seq<char>>,
        quantity: Option<u64>,
        price: Option<Price>,
    ) -> ItemView {
        ItemView {
            id: self.id,
            name: if name is Some { name->0 } else { self.name },
            quantity: if quantity is Some { quantity->0 as nat } else { self.quantity },
            price: if price is Some { price->0 } else { self.price },
        }
    }
}

impl View for InventoryItem {
    type V = ItemView;

    open spec fn view(&self) -> ItemView {
        ItemView {
            id: self.id,
            name: self.name@,
            quantity: self.quantity as nat,
            price: self.price,
        }
    }
}

impl DeepView for InventoryItem {
    type V = ItemView;

    open spec fn deep_view(&self) -> ItemView {
        self@
    }
}

impl Clone for InventoryItem {
    fn clone(&self) -> (copy: Self)
        ensures
            copy == *self,
    {
        InventoryItem {
            id: self.id,
            name: self.name.clone(),
            quantity: self.quantity,
            price: self.price,
        }
    }
}

/// The first rule that the given fields break, or `None` if they break none.
/// A field that is not given breaks no rule. The name is examined first, then
/// the quantity, then the price.
pub open spec fn first_invalid(
    name: Option<Seq<char>>,
    quantity: Option<u64>,
    price: Option<Price>,
) -> Option<Invalid> {
    if name is Some && blank(name->0) {
        Some(Invalid::EmptyName)
    } else if quantity == Some(0u64) {
        Some(Invalid::ZeroQuantity)
    } else if price is Some && !price->0.is_positive() {
        Some(Invalid::NonPositivePrice)
    } else {
        None
    }
}

/// Decides [`first_invalid`].
pub fn validate(name: Option<&str>, quantity: Option<u64>, price: Option<Price>) -> (r: Option<
    Invalid,
>)
    ensures
        r == first_invalid(name.deep_view(), quantity, price),
{
    if let Some(n) = name {
        if is_blank(n) {
            return Some(Invalid::EmptyName);
        }
    }
    if let Some(q) = quantity {
        if q == 0 {
            return Some(Invalid::ZeroQuantity);
        }
    }
    if let Some(p) = price {
        if !p.check_positive() {
            return Some(Invalid::NonPositivePrice);
        }
    }
    None
}

} // verus!
