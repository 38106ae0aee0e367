//! The inventory store: the stocked items by identifier, and the counter that
//! identifiers come from.

use std::mem::swap;

use vstd::prelude::*;

use crate::error::InventoryError;
use crate::item::{first_invalid, validate, InventoryItem, ItemView};
use crate::laws::{
    law_added_identifier_is_new, law_addition_keeps_validity, law_changed_item_stays_valid,
    law_counter_keeps_validity, law_removed_item_is_gone, law_sale_takes_what_was_asked,
};
use crate::price::Price;
use crate::sale::{lemma_requested_step, requested, SaleItem};
use crate::text::{contains_chars, lowercase, lowercase_chars, name_matches};
use crate::views::{lemma_deep_view_push, lemma_deep_view_remove, lemma_deep_view_update};

verus! {

/// The mathematical value of an [`InventoryStore`]: its items in the order in
/// which they were added, and the identifier that the next added item gets.
pub ghost struct InventoryView {
    pub items: Seq<ItemView>,
    pub next_id: nat,
}

impl InventoryView {
    /// What holds of every store. Identifiers start at 1 and every identifier
    /// in use is below `next_id`; items stand in the order of their
    /// identifiers, so no identifier occurs twice; every item is valid: its
    /// name is not blank, its quantity fits 64 bits, its price is above zero.
    pub open spec fn valid(self) -> bool {
        &&& 1 <= self.next_id <= u64::MAX
        &&& forall|i: int|
            0 <= i < self.items.len() ==> {
                &&& (#[trigger] self.items[i]).valid()
                &&& 1 <= self.items[i].id < self.next_id
            }
        &&& forall|i: int, j: int|
            0 <= i < j < self.items.len() ==> (#[trigger] self.items[i]).id < (
            #[trigger] self.items[j]).id
    }

    /// Whether an item has the identifier `id`.
    pub open spec fn has(self, id: u64) -> bool {
        exists|i: int| 0 <= i < self.items.len() && (#[trigger] self.items[i]).id == id
    }

    /// The place of the item with the identifier `id`, if there is one.
    pub open spec fn index_of(self, id: u64) -> int {
        choose|i: int| 0 <= i < self.items.len() && (#[trigger] self.items[i]).id == id
    }

    /// The item with the identifier `id`, if there is one.
    pub open spec fn item(self, id: u64) -> ItemView {
        self.items[self.index_of(id)]
    }

    /// The store after an item with the given fields was added: the item
    /// stands last, under the identifier `next_id`, and the counter has moved
    /// on by one.
    pub open spec fn with_item(
        self,
        name: Seq<char>,
        quantity: u64,
        price: Price,
    ) -> InventoryView {
        InventoryView {
            items: self.items.push(
                ItemView { id: self.next_id as u64, name, quantity: quantity as nat, price },
            ),
            next_id: self.next_id + 1,
        }
    }

    /// The store after the given fields of the item `id` were replaced.
    pub open spec fn with_changes(
        self,
        id: u64,
        name: Option<Seq<char>>,
        quantity: Option<u64>,
        price: Option<Price>,
    ) -> InventoryView {
        InventoryView {
            items: self.items.update(
                self.index_of(id),
                self.item(id).changed(name, quantity, price),
            ),
            next_id: self.next_id,
        }
    }

    /// The store after the item `id` was removed. The counter stays: the
    /// identifier is not handed out again.
    pub open spec fn without(self, id: u64) -> InventoryView {
        InventoryView { items: self.items.remove(self.index_of(id)), next_id: self.next_id }
    }

    /// In a valid store an identifier names one place.
    pub proof fn lemma_place(self, i: int)
        requires
            self.valid(),
            0 <= i < self.items.len(),
        ensures
            self.has(self.items[i].id),
            self.index_of(self.items[i].id) == i,
            self.item(self.items[i].id) == self.items[i],
    {
        let id = self.items[i].id;
        let j = self.index_of(id);
        assert(self.items[j].id == id);
        if j < i {
            assert(self.items[j].id < self.items[i].id);
        } else if i < j {
            assert(self.items[i].id < self.items[j].id);
        }
    }
}

/// The items whose name matches the search pattern, in their order.
pub open spec fn matching(items: Seq<ItemView>, pattern: Seq<char>) -> Seq<ItemView> {
    items.filter(|it: ItemView| name_matches(it.name, pattern))
}

/// The items with less than `threshold` units in stock, in their order.
pub open spec fn running_low(items: Seq<ItemView>, threshold: u64) -> Seq<ItemView> {
    items.filter(|it: ItemView| it.quantity < threshold)
}

/// One more item examined: it joins the matches if and only if it matches.
proof fn lemma_matching_step(items: Seq<ItemView>, pattern: Seq<char>, i: int)
    requires
        0 <= i < items.len(),
    ensures
        matching(items.take(i + 1), pattern) == if name_matches(items[i].name, pattern) {
            matching(items.take(i), pattern).push(items[i])
        } else {
            matching(items.take(i), pattern)
        },
{
    reveal(Seq::filter);
    assert(items.take(i + 1).drop_last() =~= items.take(i));
}

/// One more item examined: it joins the low items if and only if it is low.
proof fn lemma_running_low_step(items: Seq<ItemView>, threshold: u64, i: int)
    requires
        0 <= i < items.len(),
    ensures
        running_low(items.take(i + 1), threshold) == if items[i].quantity < threshold {
            running_low(items.take(i), threshold).push(items[i])
        } else {
            running_low(items.take(i), threshold)
        },
{
    reveal(Seq::filter);
    assert(items.take(i + 1).drop_last() =~= items.take(i));
}

/// The stocked items and the identifier counter.
#[derive(Debug)]
pub struct InventoryStore {
    items: Vec<InventoryItem>,
    next_id: u64,
}

impl View for InventoryStore {
    type V = InventoryView;

    closed spec fn view(&self) -> InventoryView {
        InventoryView { items: self.items.deep_view(), next_id: self.next_id as nat }
    }
}

impl InventoryStore {
    /// What every store keeps: its value is valid.
    #[verifier::type_invariant]
    spec fn wf(&self) -> bool {
        self@.valid()
    }

    /// An empty store, whose first item will get the identifier 1.
    pub fn new() -> (store: InventoryStore)
        ensures
            store@.valid(),
            store@ == (InventoryView { items: Seq::empty(), next_id: 1 }),
    {
        let store = InventoryStore { items: Vec::new(), next_id: 1 };
        assert(store@.items =~= Seq::empty());
        store
    }

    /// The identifier that the next added item gets.
    pub fn next_id(&self) -> (id: u64)
        ensures
            self@.valid(),
            id == self@.next_id,
    {
        proof {
            use_type_invariant(self);
        }
        self.next_id
    }

    /// Hands out the next identifier and moves the counter on by one. The
    /// items stay as they are.
    pub fn generate_id(&mut self) -> (id: u64)
        requires
            old(self)@.next_id < u64::MAX,
        ensures
            final(self)@.valid(),
            id == old(self)@.next_id,
            final(self)@ == (InventoryView {
                items: old(self)@.items,
                next_id: old(self)@.next_id + 1,
            }),
    {
        proof {
            use_type_invariant(&*self);
            law_counter_keeps_validity(self@);
        }
        let id = self.next_id;
        self.next_id = id + 1;
        id
    }

    /// Adds an item and returns its identifier.
    ///
    /// The fields are validated first; a refused field leaves the store as it
    /// was and uses up no identifier. The identifier of an added item is the
    /// counter's value, which is above every identifier handed out before.
    pub fn add_item(&mut self, name: String, quantity: u64, price: Price) -> (r: Result<
        u64,
        InventoryError,
    >)
        requires
            first_invalid(Some(name@), Some(quantity), Some(price)) is None ==> old(self)@.next_id
                < u64::MAX,
        ensures
            final(self)@.valid(),
            match first_invalid(Some(name@), Some(quantity), Some(price)) {
                Some(why) => r == Err::<u64, InventoryError>(InventoryError::Validation(why))
                    && final(self)@ == old(self)@,
                None => r == Ok::<u64, InventoryError>(old(self)@.next_id as u64) && final(self)@
                    == old(self)@.with_item(name@, quantity, price) && !old(self)@.has(
                    old(self)@.next_id as u64,
                ),
            },
    {
        proof {
            use_type_invariant(&*self);
        }
        if let Some(why) = validate(Some(name.as_str()), Some(quantity), Some(price)) {
            return Err(InventoryError::Validation(why));
        }
        proof {
            law_added_identifier_is_new(self@, name@, quantity, price);
            law_addition_keeps_validity(self@, name@, quantity, price);
        }
        let id = self.generate_id();
        let item = InventoryItem { id, name, quantity, price };
        let mut items = self.take_items();
        let ghost before = items;
        items.push(item);
        proof {
            lemma_deep_view_push(before, items, item);
        }
        self.items = items;
        Ok(id)
    }

    /// Moves the items out of the store, to be changed and put back. The
    /// store is empty meanwhile, which is valid, so that it is valid at every
    /// step of a change.
    fn take_items(&mut self) -> (items: Vec<InventoryItem>)
        ensures
            items == old(self).items,
            final(self).items@.len() == 0,
            final(self).next_id == old(self).next_id,
    {
        proof {
            use_type_invariant(&*self);
        }
        let mut items: Vec<InventoryItem> = Vec::new();
        swap(&mut items, &mut self.items);
        items
    }

    /// The place of the item `id`, found by bisection on the identifiers.
    fn position(&self, id: u64) -> (place: Option<usize>)
        requires
            self@.valid(),
        ensures
            match place {
                Some(p) => {
                    &&& p < self.items@.len()
                    &&& self.items@[p as int].id == id
                    &&& self@.has(id)
                    &&& self@.index_of(id) == p
                },
                None => !self@.has(id),
            },
    {
        let mut low: usize = 0;
        let mut high: usize = self.items.len();
        while low < high
            invariant
                self@.valid(),
                low <= high <= self.items@.len(),
                forall|i: int| 0 <= i < low ==> (#[trigger] self@.items[i]).id < id,
                forall|i: int|
                    high <= i < self.items@.len() ==> (#[trigger] self@.items[i]).id > id,
            decreases high - low,
        {
            let mid: usize = low + (high - low) / 2;
            let found: u64 = self.items[mid].id;
            assert(self@.items[mid as int].id == found);
            if found == id {
                proof {
                    self@.lemma_place(mid as int);
                }
                return Some(mid);
            } else if found < id {
                assert forall|i: int| 0 <= i < mid + 1 implies (#[trigger] self@.items[i]).id
                    < id by {
                    if i < mid {
                        assert(self@.items[i].id < self@.items[mid as int].id);
                    }
                }
                low = mid + 1;
            } else {
                assert forall|i: int| mid <= i < self.items@.len() implies (
                #[trigger] self@.items[i]).id > id by {
                    if mid < i {
                        assert(self@.items[mid as int].id < self@.items[i].id);
                    }
                }
                high = mid;
            }
        }
        None
    }

    /// The item `id`, or `None` if no item has that identifier.
    pub fn get_item_details(&self, id: u64) -> (found: Option<InventoryItem>)
        ensures
            self@.valid(),
            match found {
                Some(item) => self@.has(id) && item@ == self@.item(id),
                None => !self@.has(id),
            },
    {
        proof {
            use_type_invariant(self);
        }
        match self.position(id) {
            Some(p) => Some(self.items[p].clone()),
            None => None,
        }
    }

    /// Every item, in the order in which the items were added.
    pub fn get_inventory(&self) -> (all: Vec<InventoryItem>)
        ensures
            self@.valid(),
            all.deep_view() == self@.items,
    {
        proof {
            use_type_invariant(self);
        }
        let mut all: Vec<InventoryItem> = Vec::new();
        let mut i: usize = 0;
        while i < self.items.len()
            invariant
                i <= self.items@.len(),
                all.deep_view() == self@.items.take(i as int),
            decreases self.items@.len() - i,
        {
            let ghost before = all;
            let item = self.items[i].clone();
            all.push(item);
            proof {
                lemma_deep_view_push(before, all, item);
                assert(self@.items.take(i + 1) =~= self@.items.take(i as int).push(item@));
            }
            i += 1;
        }
        assert(self@.items.take(i as int) =~= self@.items);
        all
    }

    /// Replaces the fields of the item `id` that are given and keeps the
    /// others.
    ///
    /// An unknown identifier is reported before any field is examined. The
    /// fields are then validated together, so that either every given field is
    /// replaced or none is.
    pub fn update_item(
        &mut self,
        id: u64,
        name: Option<String>,
        quantity: Option<u64>,
        price: Option<Price>,
    ) -> (r: Result<(), InventoryError>)
        ensures
            final(self)@.valid(),
            if !old(self)@.has(id) {
                r == Err::<(), InventoryError>(InventoryError::NotFound(id)) && final(self)@
                    == old(self)@
            } else {
                match first_invalid(name.deep_view(), quantity, price) {
                    Some(why) => r == Err::<(), InventoryError>(InventoryError::Validation(why))
                        && final(self)@ == old(self)@,
                    None => r == Ok::<(), InventoryError>(()) && final(self)@
                        == old(self)@.with_changes(id, name.deep_view(), quantity, price),
                }
            },
    {
        proof {
            use_type_invariant(&*self);
        }
        let place = match self.position(id) {
            Some(p) => p,
            None => {
                return Err(InventoryError::NotFound(id));
            },
        };
        let given: Option<&str> = match &name {
            Some(n) => Some(n.as_str()),
            None => None,
        };
        if let Some(why) = validate(given, quantity, price) {
            return Err(InventoryError::Validation(why));
        }
        let mut items = self.take_items();
        let ghost before = items;
        let current = &items[place];
        let changed = InventoryItem {
            id: current.id,
            name: match name {
                Some(n) => n,
                None => current.name.clone(),
            },
            quantity: match quantity {
                Some(q) => q,
                None => current.quantity,
            },
            price: match price {
                Some(p) => p,
                None => current.price,
            },
        };
        items.set(place, changed);
        proof {
            lemma_deep_view_update(before, items, place as int, changed);
            assert(changed@ == old(self)@.item(id).changed(name.deep_view(), quantity, price));
            law_changed_item_stays_valid(old(self)@, id, name.deep_view(), quantity, price);
        }
        self.items = items;
        Ok(())
    }

    /// Removes the item `id`. Its identifier is not handed out again.
    pub fn remove_item(&mut self, id: u64) -> (r: Result<(), InventoryError>)
        ensures
            final(self)@.valid(),
            !final(self)@.has(id),
            if old(self)@.has(id) {
                r == Ok::<(), InventoryError>(()) && final(self)@ == old(self)@.without(id)
            } else {
                r == Err::<(), InventoryError>(InventoryError::NotFound(id)) && final(self)@
                    == old(self)@
            },
    {
        proof {
            use_type_invariant(&*self);
        }
        let place = match self.position(id) {
            Some(p) => p,
            None => {
                return Err(InventoryError::NotFound(id));
            },
        };
        let mut items = self.take_items();
        let ghost before = items;
        let _ = items.remove(place);
        proof {
            lemma_deep_view_remove(before, items, place as int);
            law_removed_item_is_gone(old(self)@, id);
        }
        self.items = items;
        Ok(())
    }

    /// The items whose name matches `name` without regard to case, in the
    /// order in which the items were added. The empty pattern matches every
    /// item.
    pub fn search_item_by_name(&self, name: String) -> (found: Vec<InventoryItem>)
        ensures
            self@.valid(),
            found.deep_view() == matching(self@.items, name@),
    {
        proof {
            use_type_invariant(self);
        }
        let pattern = lowercase_chars(name.as_str());
        let mut found: Vec<InventoryItem> = Vec::new();
        let mut i: usize = 0;
        while i < self.items.len()
            invariant
                i <= self.items@.len(),
                pattern@ == lowercase(name@),
                found.deep_view() == matching(self@.items.take(i as int), name@),
            decreases self.items@.len() - i,
        {
            let candidate = lowercase_chars(self.items[i].name.as_str());
            proof {
                lemma_matching_step(self@.items, name@, i as int);
            }
            if contains_chars(&candidate, &pattern) {
                let ghost before = found;
                let item = self.items[i].clone();
                found.push(item);
                proof {
                    lemma_deep_view_push(before, found, item);
                }
            }
            i += 1;
        }
        assert(self@.items.take(i as int) =~= self@.items);
        found
    }

    /// The items with less than `threshold` units in stock, in the order in
    /// which the items were added.
    pub fn reorder_suggestions(&self, threshold: u64) -> (low: Vec<InventoryItem>)
        ensures
            self@.valid(),
            low.deep_view() == running_low(self@.items, threshold),
    {
        proof {
            use_type_invariant(self);
        }
        let mut low: Vec<InventoryItem> = Vec::new();
        let mut i: usize = 0;
        while i < self.items.len()
            invariant
                i <= self.items@.len(),
                low.deep_view() == running_low(self@.items.take(i as int), threshold),
            decreases self.items@.len() - i,
        {
            proof {
                lemma_running_low_step(self@.items, threshold, i as int);
            }
            if self.items[i].quantity < threshold {
                let ghost before = low;
                let item = self.items[i].clone();
                low.push(item);
                proof {
                    lemma_deep_view_push(before, low, item);
                }
            }
            i += 1;
        }
        assert(self@.items.take(i as int) =~= self@.items);
        low
    }

    /// Takes the lines of a sale out of stock, all of them or none.
    ///
    /// The lines are examined in order on a copy of the quantities, so that a
    /// line sees what the lines before it have taken. Only when every line can
    /// be served are the quantities written back. A refused sale leaves the
    /// store untouched and reports its first line that cannot be served.
    pub fn sell(&mut self, lines: &Vec<(u64, u64)>) -> (r: Result<Vec<SaleItem>, InventoryError>)
        ensures
            final(self)@.valid(),
            match r {
                Ok(sold) => {
                    &&& old(self)@.sale_ok(lines@)
                    &&& sold.deep_view() == old(self)@.sale_lines(lines@)
                    &&& final(self)@ == old(self)@.after_sale(lines@)
                },
                Err(e) => {
                    &&& *final(self) == *old(self)
                    &&& exists|k: int|
                        old(self)@.first_refused(lines@, k) && e@ == old(self)@.refusal(lines@, k)
                },
            },
    {
        proof {
            use_type_invariant(&*self);
        }
        let count: usize = self.items.len();
        let mut left: Vec<u64> = Vec::new();
        let mut i: usize = 0;
        while i < count
            invariant
                i <= count == self.items@.len(),
                left@.len() == i,
                forall|j: int| 0 <= j < i ==> left@[j] == self@.items[j].quantity,
            decreases count - i,
        {
            left.push(self.items[i].quantity);
            i += 1;
        }
        let mut sold: Vec<SaleItem> = Vec::new();
        let mut k: usize = 0;
        while k < lines.len()
            invariant
                self@.valid(),
                *self == *old(self),
                k <= lines@.len(),
                left@.len() == count == self.items@.len(),
                forall|j: int|
                    0 <= j < count ==> left@[j] + requested(
                        lines@.take(k as int),
                        (#[trigger] self@.items[j]).id,
                    ) == self@.items[j].quantity,
                forall|j: int| 0 <= j < k ==> self@.line_ok(lines@, j),
                sold.deep_view() == self@.sale_lines(lines@).take(k as int),
            decreases lines@.len() - k,
        {
            let id: u64 = lines[k].0;
            let quantity: u64 = lines[k].1;
            let place = match self.position(id) {
                Some(p) => p,
                None => {
                    assert(self@.first_refused(lines@, k as int));
                    return Err(InventoryError::NotFound(id));
                },
            };
            proof {
                self@.lemma_place(place as int);
                lemma_requested_step(lines@, k as int, id);
            }
            if left[place] < quantity {
                assert(self@.first_refused(lines@, k as int));
                return Err(InventoryError::InsufficientStock(self.items[place].name.clone()));
            }
            let ghost left_before = left@;
            left.set(place, left[place] - quantity);
            let ghost sold_before = sold;
            let line = SaleItem {
                id,
                name: self.items[place].name.clone(),
                quantity,
                unit_price: self.items[place].price,
            };
            sold.push(line);
            proof {
                assert forall|j: int| 0 <= j < count implies left@[j] + requested(
                    lines@.take(k + 1),
                    (#[trigger] self@.items[j]).id,
                ) == self@.items[j].quantity by {
                    lemma_requested_step(lines@, k as int, self@.items[j].id);
                    if j != place {
                        self@.lemma_place(j);
                        assert(left@[j] == left_before[j]);
                    }
                }
                lemma_deep_view_push(sold_before, sold, line);
                assert(self@.sale_lines(lines@).take(k + 1) =~= self@.sale_lines(lines@).take(
                    k as int,
                ).push(line@));
            }
            k += 1;
        }
        proof {
            assert(lines@.take(k as int) =~= lines@);
            assert(self@.sale_lines(lines@).take(k as int) =~= self@.sale_lines(lines@));
        }
        let mut items = self.take_items();
        let mut j: usize = 0;
        while j < count
            invariant
                j <= count == items@.len() == left@.len() == old(self)@.items.len(),
                forall|t: int|
                    0 <= t < count ==> {
                        &&& (#[trigger] items.deep_view()[t]).id == old(self)@.items[t].id
                        &&& items.deep_view()[t].name == old(self)@.items[t].name
                        &&& items.deep_view()[t].price == old(self)@.items[t].price
                        &&& items.deep_view()[t].quantity == if t < j {
                            left@[t] as nat
                        } else {
                            old(self)@.items[t].quantity
                        }
                    },
            decreases count - j,
        {
            let ghost before = items;
            items[j].quantity = left[j];
            proof {
                assert(items@.len() == before@.len());
                assert forall|t: int| 0 <= t < count implies {
                    &&& (#[trigger] items.deep_view()[t]).id == before.deep_view()[t].id
                    &&& items.deep_view()[t].name == before.deep_view()[t].name
                    &&& items.deep_view()[t].price == before.deep_view()[t].price
                    &&& items.deep_view()[t].quantity == if t == j {
                        left@[t] as nat
                    } else {
                        before.deep_view()[t].quantity
                    }
                } by {
                    if t != j {
                        assert(items@[t] == before@[t]);
                    }
                }
            }
            j += 1;
        }
        proof {
            assert(items.deep_view() =~= old(self)@.after_sale(lines@).items);
            law_sale_takes_what_was_asked(old(self)@, lines@);
        }
        self.items = items;
        Ok(sold)
    }
}

} // verus!
