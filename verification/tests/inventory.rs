use inventory_ledger::{InventoryError, InventoryItem, InventoryStore, Invalid, Price};

fn price(amount: f64) -> Price {
    Price::from_bits(amount.to_bits())
}

fn stocked() -> InventoryStore {
    let mut store = InventoryStore::new();
    assert_eq!(store.add_item("Widget".to_string(), 10, price(2.5)), Ok(1));
    assert_eq!(store.add_item("Gadget".to_string(), 5, price(10.0)), Ok(2));
    assert_eq!(store.add_item("Small widget".to_string(), 1, price(0.75)), Ok(3));
    store
}

fn names(items: &[InventoryItem]) -> Vec<String> {
    items.iter().map(|item| item.name.clone()).collect()
}

#[test]
fn new_store_is_empty_and_starts_at_one() {
    let store = InventoryStore::new();
    assert!(store.get_inventory().is_empty());
    assert_eq!(store.next_id(), 1);
}

#[test]
fn add_item_assigns_ids_from_one() {
    let mut store = InventoryStore::new();
    assert_eq!(store.add_item("Widget".to_string(), 10, price(2.5)), Ok(1));
    assert_eq!(store.add_item("Gadget".to_string(), 5, price(10.0)), Ok(2));
    assert_eq!(store.next_id(), 3);
}

#[test]
fn add_item_stores_the_fields() {
    let store = stocked();
    let item = store.get_item_details(2).unwrap();
    assert_eq!(
        item,
        InventoryItem { id: 2, name: "Gadget".to_string(), quantity: 5, price: price(10.0) }
    );
    assert_eq!(f64::from_bits(item.price.to_bits()), 10.0);
}

#[test]
fn add_item_rejects_empty_name() {
    let mut store = InventoryStore::new();
    assert_eq!(
        store.add_item(String::new(), 10, price(2.5)),
        Err(InventoryError::Validation(Invalid::EmptyName))
    );
    assert!(store.get_inventory().is_empty());
}

#[test]
fn add_item_rejects_blank_name() {
    let mut store = InventoryStore::new();
    assert_eq!(
        store.add_item(" \t\n\u{a0}\u{3000}".to_string(), 10, price(2.5)),
        Err(InventoryError::Validation(Invalid::EmptyName))
    );
    assert!(store.get_inventory().is_empty());
}

#[test]
fn add_item_accepts_name_with_surrounding_space() {
    let mut store = InventoryStore::new();
    assert_eq!(store.add_item("  Widget ".to_string(), 1, price(1.0)), Ok(1));
    assert_eq!(store.get_item_details(1).unwrap().name, "  Widget ");
}

#[test]
fn add_item_rejects_zero_quantity() {
    let mut store = InventoryStore::new();
    assert_eq!(
        store.add_item("Widget".to_string(), 0, price(2.5)),
        Err(InventoryError::Validation(Invalid::ZeroQuantity))
    );
    assert!(store.get_inventory().is_empty());
}

#[test]
fn add_item_rejects_non_positive_price() {
    let mut store = InventoryStore::new();
    for amount in [0.0, -0.0, -2.5, f64::NEG_INFINITY] {
        assert_eq!(
            store.add_item("Widget".to_string(), 1, price(amount)),
            Err(InventoryError::Validation(Invalid::NonPositivePrice))
        );
    }
    assert!(store.get_inventory().is_empty());
}

#[test]
fn add_item_rejects_price_that_is_no_number() {
    let mut store = InventoryStore::new();
    for amount in [f64::NAN, -f64::NAN] {
        assert_eq!(
            store.add_item("Widget".to_string(), 1, price(amount)),
            Err(InventoryError::Validation(Invalid::NonPositivePrice))
        );
    }
    assert!(store.get_inventory().is_empty());
}

#[test]
fn add_item_accepts_infinite_price() {
    let mut store = InventoryStore::new();
    assert_eq!(store.add_item("Widget".to_string(), 10, price(f64::INFINITY)), Ok(1));
    let item = store.get_item_details(1).unwrap();
    assert_eq!(item.quantity, 10);
    assert_eq!(f64::from_bits(item.price.to_bits()), f64::INFINITY);
}

#[test]
fn update_item_accepts_infinite_price() {
    let mut store = stocked();
    assert_eq!(store.update_item(2, None, None, Some(price(f64::INFINITY))), Ok(()));
    assert_eq!(
        store.get_item_details(2).unwrap(),
        InventoryItem {
            id: 2,
            name: "Gadget".to_string(),
            quantity: 5,
            price: price(f64::INFINITY)
        }
    );
}

#[test]
fn update_item_rejects_price_that_is_no_number() {
    let mut store = stocked();
    assert_eq!(
        store.update_item(2, None, None, Some(price(f64::NAN))),
        Err(InventoryError::Validation(Invalid::NonPositivePrice))
    );
    assert_eq!(store.get_item_details(2).unwrap().price, price(10.0));
}

#[test]
fn add_item_accepts_smallest_and_largest_price() {
    let mut store = InventoryStore::new();
    assert_eq!(store.add_item("Dust".to_string(), 1, price(f64::from_bits(1))), Ok(1));
    assert_eq!(store.add_item("Moon".to_string(), 1, price(f64::MAX)), Ok(2));
}

#[test]
fn add_item_reports_the_name_before_the_quantity_before_the_price() {
    let mut store = InventoryStore::new();
    assert_eq!(
        store.add_item(" ".to_string(), 0, price(0.0)),
        Err(InventoryError::Validation(Invalid::EmptyName))
    );
    assert_eq!(
        store.add_item("Widget".to_string(), 0, price(0.0)),
        Err(InventoryError::Validation(Invalid::ZeroQuantity))
    );
}

#[test]
fn refused_add_uses_up_no_identifier() {
    let mut store = InventoryStore::new();
    assert!(store.add_item(String::new(), 1, price(1.0)).is_err());
    assert_eq!(store.next_id(), 1);
    assert_eq!(store.add_item("Widget".to_string(), 1, price(1.0)), Ok(1));
}

#[test]
fn identifiers_are_not_reused_after_removal() {
    let mut store = stocked();
    assert_eq!(store.remove_item(3), Ok(()));
    assert_eq!(store.remove_item(1), Ok(()));
    assert_eq!(store.add_item("Doohickey".to_string(), 2, price(3.0)), Ok(4));
    let ids: Vec<u64> = store.get_inventory().iter().map(|item| item.id).collect();
    assert_eq!(ids, vec![2, 4]);
}

#[test]
fn generate_id_moves_the_counter_only() {
    let mut store = stocked();
    assert_eq!(store.generate_id(), 4);
    assert_eq!(store.generate_id(), 5);
    assert_eq!(store.get_inventory().len(), 3);
    assert_eq!(store.add_item("Doohickey".to_string(), 2, price(3.0)), Ok(6));
}

#[test]
fn get_item_details_of_unknown_id_is_none() {
    let store = stocked();
    assert_eq!(store.get_item_details(0), None);
    assert_eq!(store.get_item_details(4), None);
    assert_eq!(store.get_item_details(u64::MAX), None);
}

#[test]
fn get_item_details_finds_every_item() {
    let mut store = InventoryStore::new();
    for n in 1..=40u64 {
        assert_eq!(store.add_item(format!("item {}", n), n, price(n as f64)), Ok(n));
    }
    for n in (1..=40u64).step_by(3) {
        assert_eq!(store.remove_item(n), Ok(()));
    }
    for n in 1..=40u64 {
        let found = store.get_item_details(n);
        if n % 3 == 1 {
            assert_eq!(found, None);
        } else {
            let item = found.unwrap();
            assert_eq!(item.id, n);
            assert_eq!(item.quantity, n);
            assert_eq!(item.name, format!("item {}", n));
        }
    }
}

#[test]
fn get_inventory_lists_in_order_of_addition() {
    let store = stocked();
    assert_eq!(names(&store.get_inventory()), vec!["Widget", "Gadget", "Small widget"]);
}

#[test]
fn update_item_replaces_only_what_is_given() {
    let mut store = stocked();
    assert_eq!(store.update_item(1, None, Some(42), None), Ok(()));
    assert_eq!(
        store.get_item_details(1).unwrap(),
        InventoryItem { id: 1, name: "Widget".to_string(), quantity: 42, price: price(2.5) }
    );
    assert_eq!(store.update_item(1, Some("Sprocket".to_string()), None, Some(price(3.25))), Ok(()));
    assert_eq!(
        store.get_item_details(1).unwrap(),
        InventoryItem { id: 1, name: "Sprocket".to_string(), quantity: 42, price: price(3.25) }
    );
    assert_eq!(store.get_item_details(2).unwrap().quantity, 5);
}

#[test]
fn update_item_with_nothing_given_changes_nothing() {
    let mut store = stocked();
    assert_eq!(store.update_item(2, None, None, None), Ok(()));
    assert_eq!(
        store.get_item_details(2).unwrap(),
        InventoryItem { id: 2, name: "Gadget".to_string(), quantity: 5, price: price(10.0) }
    );
}

#[test]
fn update_item_of_unknown_id_is_not_found() {
    let mut store = stocked();
    assert_eq!(store.update_item(9, None, Some(1), None), Err(InventoryError::NotFound(9)));
}

#[test]
fn update_item_reports_unknown_id_before_invalid_fields() {
    let mut store = stocked();
    assert_eq!(
        store.update_item(9, Some(String::new()), Some(0), Some(price(-1.0))),
        Err(InventoryError::NotFound(9))
    );
}

#[test]
fn update_item_rejects_each_invalid_field() {
    let mut store = stocked();
    assert_eq!(
        store.update_item(1, Some("  ".to_string()), None, None),
        Err(InventoryError::Validation(Invalid::EmptyName))
    );
    assert_eq!(
        store.update_item(1, None, Some(0), None),
        Err(InventoryError::Validation(Invalid::ZeroQuantity))
    );
    assert_eq!(
        store.update_item(1, None, None, Some(price(0.0))),
        Err(InventoryError::Validation(Invalid::NonPositivePrice))
    );
}

#[test]
fn update_item_applies_all_changes_or_none() {
    let mut store = stocked();
    assert_eq!(
        store.update_item(1, Some("Sprocket".to_string()), Some(0), Some(price(9.0))),
        Err(InventoryError::Validation(Invalid::ZeroQuantity))
    );
    assert_eq!(
        store.update_item(1, Some("Sprocket".to_string()), Some(7), Some(price(-9.0))),
        Err(InventoryError::Validation(Invalid::NonPositivePrice))
    );
    assert_eq!(
        store.get_item_details(1).unwrap(),
        InventoryItem { id: 1, name: "Widget".to_string(), quantity: 10, price: price(2.5) }
    );
}

#[test]
fn remove_item_deletes_the_item() {
    let mut store = stocked();
    assert_eq!(store.remove_item(2), Ok(()));
    assert_eq!(store.get_item_details(2), None);
    assert_eq!(names(&store.get_inventory()), vec!["Widget", "Small widget"]);
}

#[test]
fn remove_item_twice_is_not_found_the_second_time() {
    let mut store = stocked();
    assert_eq!(store.remove_item(2), Ok(()));
    assert_eq!(store.remove_item(2), Err(InventoryError::NotFound(2)));
    assert_eq!(store.remove_item(2), Err(InventoryError::NotFound(2)));
    assert_eq!(store.get_inventory().len(), 2);
}

#[test]
fn remove_item_of_unknown_id_is_not_found() {
    let mut store = InventoryStore::new();
    assert_eq!(store.remove_item(1), Err(InventoryError::NotFound(1)));
}

#[test]
fn search_item_by_name_ignores_case() {
    let store = stocked();
    assert_eq!(
        names(&store.search_item_by_name("WIDGET".to_string())),
        vec!["Widget", "Small widget"]
    );
    assert_eq!(names(&store.search_item_by_name("gAd".to_string())), vec!["Gadget"]);
}

#[test]
fn search_item_by_name_matches_inside_the_name() {
    let store = stocked();
    assert_eq!(names(&store.search_item_by_name("dge".to_string())), vec![
        "Widget",
        "Gadget",
        "Small widget"
    ]);
    assert_eq!(names(&store.search_item_by_name("l w".to_string())), vec!["Small widget"]);
}

#[test]
fn search_item_by_name_with_empty_pattern_finds_all() {
    let store = stocked();
    assert_eq!(store.search_item_by_name(String::new()).len(), 3);
}

#[test]
fn search_item_by_name_without_match_finds_nothing() {
    let store = stocked();
    assert!(store.search_item_by_name("sprocket".to_string()).is_empty());
    assert!(store.search_item_by_name("widgets".to_string()).is_empty());
}

#[test]
fn search_item_by_name_folds_letters_beyond_ascii() {
    let mut store = InventoryStore::new();
    assert_eq!(store.add_item("CAFÉ Crème".to_string(), 1, price(4.0)), Ok(1));
    assert_eq!(store.add_item("ΟΔΟΣ".to_string(), 1, price(4.0)), Ok(2));
    assert_eq!(names(&store.search_item_by_name("café".to_string())), vec!["CAFÉ Crème"]);
    assert_eq!(names(&store.search_item_by_name("CRÈME".to_string())), vec!["CAFÉ Crème"]);
    assert_eq!(names(&store.search_item_by_name("οδος".to_string())), vec!["ΟΔΟΣ"]);
    assert!(store.search_item_by_name("οδοσ".to_string()).is_empty());
}

#[test]
fn reorder_suggestions_is_strictly_below_threshold() {
    let store = stocked();
    assert_eq!(names(&store.reorder_suggestions(5)), vec!["Small widget"]);
    assert_eq!(names(&store.reorder_suggestions(6)), vec!["Gadget", "Small widget"]);
    assert_eq!(names(&store.reorder_suggestions(u64::MAX)), vec![
        "Widget",
        "Gadget",
        "Small widget"
    ]);
}

#[test]
fn reorder_suggestions_with_zero_threshold_is_empty() {
    let store = stocked();
    assert!(store.reorder_suggestions(0).is_empty());
}
