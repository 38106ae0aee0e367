//! Laws of the store and of the ranking, proved over their mathematical
//! values.

use vstd::prelude::*;

use crate::inventory::InventoryView;
use crate::item::{first_invalid, ItemView};
use crate::price::Price;
use crate::ranking::{is_top_selling, listed, outsells, sold_at_all};
use crate::sale::{lemma_requested_step, requested, SaleItemView};

verus! {

/// One call on a store, by what it did to the store's value.
pub ghost enum Change {
    /// A call that reported an error.
    Refused,
    /// An identifier was handed out and no item added.
    Issued,
    /// An item was added.
    Added { name: Seq<char>, quantity: u64, price: Price },
    /// Fields of an item were replaced.
    Changed {
        id: u64,
        new_name: Option<Seq<char>>,
        new_quantity: Option<u64>,
        new_price: Option<Price>,
    },
    /// An item was removed.
    Removed { id: u64 },
    /// A sale was accepted.
    Sold { lines: Seq<(u64, u64)> },
}

impl InventoryView {
    /// The store after the given change.
    pub open spec fn after(self, change: Change) -> InventoryView {
        match change {
            Change::Refused => self,
            Change::Issued => InventoryView { items: self.items, next_id: self.next_id + 1 },
            Change::Added { name, quantity, price } => self.with_item(name, quantity, price),
            Change::Changed { id, new_name, new_quantity, new_price } => self.with_changes(
                id,
                new_name,
                new_quantity,
                new_price,
            ),
            Change::Removed { id } => self.without(id),
            Change::Sold { lines } => self.after_sale(lines),
        }
    }
}

/// Whether `states` are the values that a store went through under
/// `changes`, one after the other.
pub open spec fn is_history(states: Seq<InventoryView>, changes: Seq<Change>) -> bool {
    &&& states.len() == changes.len() + 1
    &&& forall|k: int|
        0 <= k < changes.len() ==> states[k + 1] == states[k].after(#[trigger] changes[k])
}

/// No change lowers the identifier counter, and an addition raises it.
pub proof fn law_counter_never_falls(store: InventoryView, change: Change)
    ensures
        store.next_id <= store.after(change).next_id,
        change is Added ==> store.next_id < store.after(change).next_id,
{
}

/// Handing out an identifier without adding an item keeps the store valid.
pub proof fn law_counter_keeps_validity(store: InventoryView)
    requires
        store.valid(),
        store.next_id < u64::MAX,
    ensures
        store.after(Change::Issued).valid(),
{
    let after = store.after(Change::Issued);
    assert forall|i: int| 0 <= i < after.items.len() implies {
        &&& (#[trigger] after.items[i]).valid()
        &&& 1 <= after.items[i].id < after.next_id
    } by {
        assert(store.items[i].valid());
    }
}

/// An added item gets an identifier that no item of the store has, above the
/// identifier of every item of the store. It is stored under that identifier
/// with the fields as they were given, and every other item stays as it was.
pub proof fn law_added_identifier_is_new(
    store: InventoryView,
    name: Seq<char>,
    quantity: u64,
    price: Price,
)
    requires
        store.valid(),
    ensures
        !store.has(store.next_id as u64),
        forall|i: int|
            0 <= i < store.items.len() ==> (#[trigger] store.items[i]).id < store.next_id,
        store.with_item(name, quantity, price).items.len() == store.items.len() + 1,
        store.with_item(name, quantity, price).has(store.next_id as u64),
        store.with_item(name, quantity, price).item(store.next_id as u64) == (ItemView {
            id: store.next_id as u64,
            name,
            quantity: quantity as nat,
            price,
        }),
        forall|other: u64|
            store.has(other) ==> {
                &&& #[trigger] store.with_item(name, quantity, price).has(other)
                &&& store.with_item(name, quantity, price).item(other) == store.item(other)
            },
{
    let after = store.with_item(name, quantity, price);
    let last = store.items.len() as int;
    let id = store.next_id as u64;
    assert(after.items[last].id == id);
    let at = after.index_of(id);
    if at < last {
        assert(after.items[at] == store.items[at]);
    }
    assert forall|other: u64| store.has(other) implies {
        &&& #[trigger] after.has(other)
        &&& after.item(other) == store.item(other)
    } by {
        let there = store.index_of(other);
        store.lemma_place(there);
        assert(after.items[there] == store.items[there]);
        let found = after.index_of(other);
        assert(after.items[found].id == other);
        if found < last {
            assert(after.items[found] == store.items[found]);
            store.lemma_place(found);
        }
    }
}

/// Adding an item with valid fields, while the counter can still move on,
/// keeps the store valid.
pub proof fn law_addition_keeps_validity(
    store: InventoryView,
    name: Seq<char>,
    quantity: u64,
    price: Price,
)
    requires
        store.valid(),
        store.next_id < u64::MAX,
        first_invalid(Some(name), Some(quantity), Some(price)) is None,
    ensures
        store.with_item(name, quantity, price).valid(),
{
    let after = store.with_item(name, quantity, price);
    let last = store.items.len() as int;
    assert forall|i: int| 0 <= i < after.items.len() implies {
        &&& (#[trigger] after.items[i]).valid()
        &&& 1 <= after.items[i].id < after.next_id
    } by {
        if i < last {
            assert(after.items[i] == store.items[i]);
        }
    }
    assert forall|i: int, j: int| 0 <= i < j < after.items.len() implies (
    #[trigger] after.items[i]).id < (#[trigger] after.items[j]).id by {
        assert(after.items[i] == store.items[i]);
        if j < last {
            assert(after.items[j] == store.items[j]);
        }
    }
}

/// Two additions to one store never get the same identifier, whatever
/// happened to the store between them: the later one gets the larger. (An
/// addition hands out the value that the counter has before it.)
pub proof fn law_identifiers_are_never_reissued(
    states: Seq<InventoryView>,
    changes: Seq<Change>,
    first: int,
    second: int,
)
    requires
        is_history(states, changes),
        0 <= first < second < changes.len(),
        changes[first] is Added,
        changes[second] is Added,
    ensures
        states[first].next_id < states[second].next_id,
{
    lemma_counter_over_history(states, changes, first, second);
}

/// Over a history that starts with an addition the counter rises.
proof fn lemma_counter_over_history(
    states: Seq<InventoryView>,
    changes: Seq<Change>,
    from: int,
    to: int,
)
    requires
        is_history(states, changes),
        0 <= from < to <= changes.len(),
        changes[from] is Added,
    ensures
        states[from].next_id < states[to].next_id,
    decreases to - from,
{
    law_counter_never_falls(states[to - 1], changes[to - 1]);
    if from < to - 1 {
        lemma_counter_over_history(states, changes, from, to - 1);
    }
}

/// The lines up to some point ask of an item no more than all lines do.
proof fn lemma_requested_grows(lines: Seq<(u64, u64)>, k: int, id: u64)
    requires
        0 <= k <= lines.len(),
    ensures
        requested(lines.take(k), id) <= requested(lines, id),
    decreases lines.len() - k,
{
    if k < lines.len() {
        lemma_requested_step(lines, k, id);
        lemma_requested_grows(lines, k + 1, id);
    } else {
        assert(lines.take(k) =~= lines);
    }
}

/// While every line up to `m` can be served, those lines ask of each item no
/// more than it has.
proof fn lemma_served_is_covered(store: InventoryView, lines: Seq<(u64, u64)>, m: int, i: int)
    requires
        store.valid(),
        0 <= m <= lines.len(),
        0 <= i < store.items.len(),
        forall|k: int| 0 <= k < m ==> store.line_ok(lines, k),
    ensures
        requested(lines.take(m), store.items[i].id) <= store.items[i].quantity,
    decreases m,
{
    if m == 0 {
        assert(lines.take(0) =~= Seq::<(u64, u64)>::empty());
    } else {
        lemma_requested_step(lines, m - 1, store.items[i].id);
        if lines[m - 1].0 == store.items[i].id {
            assert(store.line_ok(lines, m - 1));
            store.lemma_place(i);
        } else {
            lemma_served_is_covered(store, lines, m - 1, i);
        }
    }
}

/// A sale is accepted if and only if every line names an item of the store
/// and no item is asked for more than it has, all lines together. So taking
/// the lines one after the other accepts the same sales as adding them up
/// first, and an accepted sale never takes more than is there.
pub proof fn law_accepted_means_covered(store: InventoryView, lines: Seq<(u64, u64)>)
    requires
        store.valid(),
    ensures
        store.sale_ok(lines) <==> {
            &&& forall|k: int| 0 <= k < lines.len() ==> store.has((#[trigger] lines[k]).0)
            &&& forall|i: int|
                0 <= i < store.items.len() ==> requested(lines, (#[trigger] store.items[i]).id)
                    <= store.items[i].quantity
        },
{
    if store.sale_ok(lines) {
        assert forall|k: int| 0 <= k < lines.len() implies store.has((#[trigger] lines[k]).0) by {
            assert(store.line_ok(lines, k));
        }
        assert forall|i: int| 0 <= i < store.items.len() implies requested(
            lines,
            (#[trigger] store.items[i]).id,
        ) <= store.items[i].quantity by {
            lemma_served_is_covered(store, lines, lines.len() as int, i);
            assert(lines.take(lines.len() as int) =~= lines);
        }
    }
    if (forall|k: int| 0 <= k < lines.len() ==> store.has((#[trigger] lines[k]).0)) && (forall|
        i: int,
    |
        0 <= i < store.items.len() ==> requested(lines, (#[trigger] store.items[i]).id)
            <= store.items[i].quantity) {
        assert forall|k: int| 0 <= k < lines.len() implies store.line_ok(lines, k) by {
            let id = lines[k].0;
            assert(store.has(lines[k].0));
            let i = store.index_of(id);
            assert(store.items[i].id == id);
            lemma_requested_grows(lines, k + 1, id);
        }
    }
}

/// An accepted sale leaves every item with what it had less what the lines
/// ask of it, which is never below zero; names, prices, identifiers and the
/// counter stay, and the store stays valid.
pub proof fn law_sale_takes_what_was_asked(store: InventoryView, lines: Seq<(u64, u64)>)
    requires
        store.valid(),
        store.sale_ok(lines),
    ensures
        store.after_sale(lines).valid(),
        store.after_sale(lines).items.len() == store.items.len(),
        forall|i: int|
            0 <= i < store.items.len() ==> (#[trigger] store.after_sale(lines).items[i]).quantity
                + requested(lines, store.items[i].id) == store.items[i].quantity,
{
    law_accepted_means_covered(store, lines);
    let after = store.after_sale(lines);
    assert forall|i: int| 0 <= i < after.items.len() implies {
        &&& (#[trigger] after.items[i]).valid()
        &&& 1 <= after.items[i].id < after.next_id
    } by {
        assert(store.items[i].valid());
    }
    assert forall|i: int, j: int| 0 <= i < j < after.items.len() implies (
    #[trigger] after.items[i]).id < (#[trigger] after.items[j]).id by {
        assert(store.items[i].id < store.items[j].id);
    }
    assert forall|i: int| 0 <= i < store.items.len() implies (#[trigger] after.items[i]).quantity
        + requested(lines, store.items[i].id) == store.items[i].quantity by {
        assert(requested(lines, store.items[i].id) <= store.items[i].quantity);
    }
}

/// A removed item is gone: removing it a second time finds nothing, and the
/// store stays valid.
pub proof fn law_removed_item_is_gone(store: InventoryView, id: u64)
    requires
        store.valid(),
        store.has(id),
    ensures
        store.without(id).valid(),
        !store.without(id).has(id),
        store.without(id).items.len() + 1 == store.items.len(),
{
    let at = store.index_of(id);
    let rest = store.without(id);
    assert forall|i: int| 0 <= i < rest.items.len() implies {
        &&& (#[trigger] rest.items[i]).valid()
        &&& 1 <= rest.items[i].id < rest.next_id
        &&& rest.items[i].id != id
    } by {
        if i < at {
            assert(rest.items[i] == store.items[i]);
            assert(store.items[i].id < store.items[at].id);
        } else {
            assert(rest.items[i] == store.items[i + 1]);
            assert(store.items[at].id < store.items[i + 1].id);
        }
    }
    assert forall|i: int, j: int| 0 <= i < j < rest.items.len() implies (
    #[trigger] rest.items[i]).id < (#[trigger] rest.items[j]).id by {
        let a = if i < at { i } else { i + 1 };
        let b = if j < at { j } else { j + 1 };
        assert(rest.items[i] == store.items[a]);
        assert(rest.items[j] == store.items[b]);
        assert(store.items[a].id < store.items[b].id);
    }
}

/// Replacing fields of an item by valid ones keeps the store valid: the item
/// stays in its place under its identifier, with the given fields replaced
/// and the others kept, and no other item changes.
pub proof fn law_changed_item_stays_valid(
    store: InventoryView,
    id: u64,
    name: Option<Seq<char>>,
    quantity: Option<u64>,
    price: Option<Price>,
)
    requires
        store.valid(),
        store.has(id),
        first_invalid(name, quantity, price) is None,
    ensures
        store.with_changes(id, name, quantity, price).valid(),
        store.with_changes(id, name, quantity, price).has(id),
        store.with_changes(id, name, quantity, price).item(id) == store.item(id).changed(
            name,
            quantity,
            price,
        ),
        forall|other: u64|
            other != id && store.has(other) ==> #[trigger] store.with_changes(
                id,
                name,
                quantity,
                price,
            ).item(other) == store.item(other),
{
    let at = store.index_of(id);
    let after = store.with_changes(id, name, quantity, price);
    assert forall|i: int| 0 <= i < after.items.len() implies {
        &&& (#[trigger] after.items[i]).valid()
        &&& 1 <= after.items[i].id < after.next_id
        &&& after.items[i].id == store.items[i].id
    } by {
        assert(store.items[i].valid());
    }
    assert forall|i: int, j: int| 0 <= i < j < after.items.len() implies (
    #[trigger] after.items[i]).id < (#[trigger] after.items[j]).id by {
        assert(store.items[i].id < store.items[j].id);
    }
    after.lemma_place(at);
    assert forall|other: u64| other != id && store.has(other) implies #[trigger] after.item(other)
        == store.item(other) by {
        let there = store.index_of(other);
        store.lemma_place(there);
        after.lemma_place(there);
    }
}

/// A ranking is decided by the lines and the number of names asked for: no
/// two rankings of the same lines differ.
pub proof fn law_ranking_is_unique(
    lines: Seq<SaleItemView>,
    n: nat,
    one: Seq<(Seq<char>, u64)>,
    other: Seq<(Seq<char>, u64)>,
)
    requires
        is_top_selling(lines, n, one),
        is_top_selling(lines, n, other),
    ensures
        one == other,
{
    lemma_rankings_agree(lines, n, one, other, one.len() as int);
    lemma_rankings_agree(lines, n, other, one, other.len() as int);
    if one.len() <= other.len() {
        lemma_ranking_is_full(lines, n, one, other);
    } else {
        lemma_ranking_is_full(lines, n, other, one);
    }
    assert(one =~= other);
}

/// In a ranking, the entry at `at` ranks before a name that was sold and
/// does not stand before `at`.
proof fn lemma_ranks_before(
    lines: Seq<SaleItemView>,
    n: nat,
    top: Seq<(Seq<char>, u64)>,
    at: int,
    name: Seq<char>,
)
    requires
        is_top_selling(lines, n, top),
        0 <= at < top.len(),
        name != top[at].0,
        forall|j: int| 0 <= j < at ==> (#[trigger] top[j]).0 != name,
        sold_at_all(lines, name),
    ensures
        outsells(lines, top[at].0, name),
{
    if listed(top, name) {
        let j = choose|j: int| 0 <= j < top.len() && (#[trigger] top[j]).0 == name;
        assert(at < j);
        assert(outsells(lines, top[at].0, top[j].0));
    }
}

/// Two rankings of the same lines agree as far as both reach.
proof fn lemma_rankings_agree(
    lines: Seq<SaleItemView>,
    n: nat,
    one: Seq<(Seq<char>, u64)>,
    other: Seq<(Seq<char>, u64)>,
    upto: int,
)
    requires
        is_top_selling(lines, n, one),
        is_top_selling(lines, n, other),
        0 <= upto <= one.len(),
    ensures
        forall|i: int| 0 <= i < upto && i < other.len() ==> one[i] == other[i],
    decreases upto,
{
    if upto > 0 {
        lemma_rankings_agree(lines, n, one, other, upto - 1);
        let at = upto - 1;
        if at < other.len() {
            let a = one[at].0;
            let b = other[at].0;
            if a != b {
                assert forall|j: int| 0 <= j < at implies (#[trigger] other[j]).0 != a by {
                    assert(other[j] == one[j]);
                    assert(outsells(lines, one[j].0, one[at].0));
                }
                assert forall|j: int| 0 <= j < at implies (#[trigger] one[j]).0 != b by {
                    assert(one[j] == other[j]);
                    assert(outsells(lines, other[j].0, other[at].0));
                }
                lemma_ranks_before(lines, n, other, at, a);
                lemma_ranks_before(lines, n, one, at, b);
            }
            assert(one[at] == other[at]);
        }
    }
}

/// Of two rankings of the same lines, one that begins as the other is as
/// long as the other.
proof fn lemma_ranking_is_full(
    lines: Seq<SaleItemView>,
    n: nat,
    short: Seq<(Seq<char>, u64)>,
    long: Seq<(Seq<char>, u64)>,
)
    requires
        is_top_selling(lines, n, short),
        is_top_selling(lines, n, long),
        short.len() <= long.len(),
        forall|i: int| 0 <= i < short.len() ==> short[i] == long[i],
    ensures
        short.len() == long.len(),
{
    if short.len() < long.len() {
        let at = short.len() as int;
        let name = long[at].0;
        assert(listed(short, name));
        let j = choose|j: int| 0 <= j < short.len() && (#[trigger] short[j]).0 == name;
        assert(short[j] == long[j]);
        assert(outsells(lines, long[j].0, long[at].0));
    }
}

} // verus!
