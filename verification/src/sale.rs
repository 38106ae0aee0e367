//! Sales: the lines of a sale, the record that a committed sale leaves, and
//! the rule by which a sale is accepted or refused.
//!
//! A sale is a sequence of lines, each an item identifier and a quantity. The
//! lines are taken in order, each against the stock that the lines before it
//! have left. The sale is accepted if every line finds its item and enough of
//! it; otherwise the first line that does not decides the error, and nothing
//! is sold.

use vstd::prelude::*;

use crate::error::ErrorView;
use crate::inventory::InventoryView;
use crate::item::ItemView;
use crate::price::Price;
use crate::views::lemma_deep_view_push;

verus! {

/// One item's part in a sale, with the name and the unit price that the item
/// had when the sale was made.
#[derive(Debug, PartialEq, Eq)]
pub struct SaleItem {
    pub id: u64,
    pub name: String,
    pub quantity: u64,
    pub unit_price: Price,
}

/// The mathematical value of a [`SaleItem`].
pub ghost struct SaleItemView {
    pub id: u64,
    pub name: Seq<char>,
    pub quantity: nat,
    pub unit_price: Price,
}

impl View for SaleItem {
    type V = SaleItemView;

    open spec fn view(&self) -> SaleItemView {
        SaleItemView {
            id: self.id,
            name: self.name@,
            quantity: self.quantity as nat,
            unit_price: self.unit_price,
        }
    }
}

impl DeepView for SaleItem {
    type V = SaleItemView;

    open spec fn deep_view(&self) -> SaleItemView {
        self@
    }
}

impl Clone for SaleItem {
    fn clone(&self) -> (copy: Self)
        ensures
            copy == *self,
    {
        SaleItem {
            id: self.id,
            name: self.name.clone(),
            quantity: self.quantity,
            unit_price: self.unit_price,
        }
    }
}

/// A committed sale: when it was made and what was sold, line by line.
///
/// The amount of a sale is the sum, over its lines in order, of unit price
/// times quantity. The lines never change, so neither does that sum; being
/// arithmetic on prices, it is left to the caller.
#[derive(Debug, PartialEq, Eq)]
pub struct SaleRecord {
    pub timestamp: u64,
    pub items: Vec<SaleItem>,
}

/// The mathematical value of a [`SaleRecord`].
pub ghost struct SaleRecordView {
    pub timestamp: u64,
    pub items: Seq<SaleItemView>,
}

impl View for SaleRecord {
    type V = SaleRecordView;

    open spec fn view(&self) -> SaleRecordView {
        SaleRecordView { timestamp: self.timestamp, items: self.items.deep_view() }
    }
}

impl DeepView for SaleRecord {
    type V = SaleRecordView;

    open spec fn deep_view(&self) -> SaleRecordView {
        self@
    }
}

impl Clone for SaleRecord {
    fn clone(&self) -> (copy: Self)
        ensures
            copy@ == self@,
    {
        let mut items: Vec<SaleItem> = Vec::new();
        let mut i: usize = 0;
        while i < self.items.len()
            invariant
                i <= self.items@.len(),
                items.deep_view() == self.items.deep_view().take(i as int),
            decreases self.items@.len() - i,
        {
            let ghost before = items;
            let line = self.items[i].clone();
            items.push(line);
            proof {
                lemma_deep_view_push(before, items, line);
                assert(self.items.deep_view().take(i + 1) =~= self.items.deep_view().take(
                    i as int,
                ).push(line@));
            }
            i += 1;
        }
        assert(self.items.deep_view().take(i as int) =~= self.items.deep_view());
        SaleRecord { timestamp: self.timestamp, items }
    }
}

/// How many units of the item `id` the lines ask for, all lines together.
pub open spec fn requested(lines: Seq<(u64, u64)>, id: u64) -> nat
    decreases lines.len(),
{
    if lines.len() == 0 {
        0
    } else {
        requested(lines.drop_last(), id) + if lines.last().0 == id {
            lines.last().1 as nat
        } else {
            0
        }
    }
}

impl InventoryView {
    /// Whether line `k` can be served: its item exists, and the stock covers
    /// what the lines up to and including `k` ask of that item.
    pub open spec fn line_ok(self, lines: Seq<(u64, u64)>, k: int) -> bool {
        &&& self.has(lines[k].0)
        &&& requested(lines.take(k + 1), lines[k].0) <= self.item(lines[k].0).quantity
    }

    /// Whether the sale is accepted: every line can be served.
    pub open spec fn sale_ok(self, lines: Seq<(u64, u64)>) -> bool {
        forall|k: int| 0 <= k < lines.len() ==> self.line_ok(lines, k)
    }

    /// Whether `k` is the first line that cannot be served.
    pub open spec fn first_refused(self, lines: Seq<(u64, u64)>, k: int) -> bool {
        &&& 0 <= k < lines.len()
        &&& !self.line_ok(lines, k)
        &&& forall|j: int| 0 <= j < k ==> self.line_ok(lines, j)
    }

    /// The error that line `k` gives when it cannot be served: its item is
    /// unknown, or else the item, by its name, has too little in stock.
    pub open spec fn refusal(self, lines: Seq<(u64, u64)>, k: int) -> ErrorView {
        if !self.has(lines[k].0) {
            ErrorView::NotFound(lines[k].0)
        } else {
            ErrorView::InsufficientStock(self.item(lines[k].0).name)
        }
    }

    /// The store after an accepted sale: every item has lost what the lines
    /// ask of it, and nothing else has changed.
    pub open spec fn after_sale(self, lines: Seq<(u64, u64)>) -> InventoryView {
        InventoryView {
            items: Seq::new(
                self.items.len(),
                |i: int|
                    ItemView {
                        id: self.items[i].id,
                        name: self.items[i].name,
                        quantity: (self.items[i].quantity - requested(
                            lines,
                            self.items[i].id,
                        )) as nat,
                        price: self.items[i].price,
                    },
            ),
            next_id: self.next_id,
        }
    }

    /// What an accepted sale records: for each line its item's identifier,
    /// the item's name and price as they stand in the store, and the quantity
    /// of the line.
    pub open spec fn sale_lines(self, lines: Seq<(u64, u64)>) -> Seq<SaleItemView> {
        Seq::new(
            lines.len(),
            |k: int|
                SaleItemView {
                    id: lines[k].0,
                    name: self.item(lines[k].0).name,
                    quantity: lines[k].1 as nat,
                    unit_price: self.item(lines[k].0).price,
                },
        )
    }
}

/// One more line counted.
pub proof fn lemma_requested_step(lines: Seq<(u64, u64)>, k: int, id: u64)
    requires
        0 <= k < lines.len(),
    ensures
        requested(lines.take(k + 1), id) == requested(lines.take(k), id) + if lines[k].0 == id {
            lines[k].1 as nat
        } else {
            0
        },
{
    assert(lines.take(k + 1).drop_last() =~= lines.take(k));
}

} // verus!
