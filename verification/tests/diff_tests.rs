use anylist_notify::diff::{detect_changes, FieldChange, ItemInfo, ListChange};
use anylist_notify::models::{DbItem, LiveItem};

fn create_db_item(id: &str, name: &str, is_checked: bool) -> DbItem {
    DbItem {
        id: id.to_string(),
        list_id: "list-1".to_string(),
        name: name.to_string(),
        details: "".to_string(),
        quantity: None,
        category: None,
        is_checked,
        user_id: Some("test-user".to_string()),
        last_seen: 0,
    }
}

fn create_list_item(id: &str, name: &str, is_checked: bool) -> LiveItem {
    LiveItem {
        id: id.to_string(),
        list_id: "list-1".to_string(),
        name: name.to_string(),
        details: "".to_string(),
        quantity: None,
        category: None,
        is_checked,
        user_id: Some("test-user".to_string()),
    }
}

#[test]
fn test_detect_added_item() {
    let cached = vec![];
    let current = vec![create_list_item("item-1", "Milk", false)];

    let changes = detect_changes("list-1", "Groceries", &cached, &current);

    assert_eq!(changes.len(), 1);
    match &changes[0] {
        ListChange::ItemAdded { item, .. } => {
            assert_eq!(item.name, "Milk");
        }
        _ => panic!("Expected ItemAdded"),
    }
}

#[test]
fn test_detect_removed_item() {
    let cached = vec![create_db_item("item-1", "Milk", false)];
    let current = vec![];

    let changes = detect_changes("list-1", "Groceries", &cached, &current);

    assert_eq!(changes.len(), 1);
    match &changes[0] {
        ListChange::ItemRemoved { item_name, .. } => {
            assert_eq!(item_name, "Milk");
        }
        _ => panic!("Expected ItemRemoved"),
    }
}

#[test]
fn test_detect_checked_item() {
    let cached = vec![create_db_item("item-1", "Milk", false)];
    let current = vec![create_list_item("item-1", "Milk", true)];

    let changes = detect_changes("list-1", "Groceries", &cached, &current);

    assert_eq!(changes.len(), 1);
    match &changes[0] {
        ListChange::ItemChecked { item_name, .. } => {
            assert_eq!(item_name, "Milk");
        }
        _ => panic!("Expected ItemChecked"),
    }
}

#[test]
fn test_detect_unchecked_item() {
    let cached = vec![create_db_item("item-1", "Milk", true)];
    let current = vec![create_list_item("item-1", "Milk", false)];

    let changes = detect_changes("list-1", "Groceries", &cached, &current);

    assert_eq!(changes.len(), 1);
    match &changes[0] {
        ListChange::ItemUnchecked { item_name, .. } => {
            assert_eq!(item_name, "Milk");
        }
        _ => panic!("Expected ItemUnchecked"),
    }
}

#[test]
fn test_detect_modified_quantity() {
    let cached = vec![DbItem {
        id: "item-1".to_string(),
        list_id: "list-1".to_string(),
        name: "Milk".to_string(),
        details: "".to_string(),
        quantity: Some("1 gallon".to_string()),
        category: None,
        is_checked: false,
        user_id: Some("test-user".to_string()),
        last_seen: 0,
    }];

    let current = vec![LiveItem {
        id: "item-1".to_string(),
        list_id: "list-1".to_string(),
        name: "Milk".to_string(),
        details: "".to_string(),
        quantity: Some("2 gallons".to_string()),
        category: None,
        is_checked: false,
        user_id: Some("test-user".to_string()),
    }];

    let changes = detect_changes("list-1", "Groceries", &cached, &current);

    assert_eq!(changes.len(), 1);
    match &changes[0] {
        ListChange::ItemModified { changes, .. } => {
            assert_eq!(changes.len(), 1);
            match &changes[0] {
                FieldChange::Quantity { old, new } => {
                    assert_eq!(old, &Some("1 gallon".to_string()));
                    assert_eq!(new, &Some("2 gallons".to_string()));
                }
                _ => panic!("Expected Quantity change"),
            }
        }
        _ => panic!("Expected ItemModified"),
    }
}

#[test]
fn test_no_changes() {
    let cached = vec![create_db_item("item-1", "Milk", false)];
    let current = vec![create_list_item("item-1", "Milk", false)];

    let changes = detect_changes("list-1", "Groceries", &cached, &current);

    assert_eq!(changes.len(), 0);
}

#[test]
fn test_multiple_changes() {
    let cached = vec![
        create_db_item("item-1", "Milk", false),
        create_db_item("item-2", "Bread", false),
    ];

    let current = vec![
        create_list_item("item-1", "Milk", true),
        create_list_item("item-3", "Eggs", false),
    ];

    let changes = detect_changes("list-1", "Groceries", &cached, &current);

    assert_eq!(changes.len(), 3);
}

#[test]
fn test_added_never_reports_modification() {
    // An item absent from the mirror produces exactly one added event and
    // no checked or modified event, whatever its fields hold.
    let cached = vec![create_db_item("item-2", "Bread", true)];
    let current = vec![
        create_list_item("item-2", "Bread", true),
        LiveItem {
            id: "item-9".to_string(),
            list_id: "list-1".to_string(),
            name: "Jam".to_string(),
            details: "raspberry".to_string(),
            quantity: Some("2".to_string()),
            category: Some("Pantry".to_string()),
            is_checked: true,
            user_id: None,
        },
    ];

    let changes = detect_changes("list-1", "Groceries", &cached, &current);

    assert_eq!(changes.len(), 1);
    match &changes[0] {
        ListChange::ItemAdded { item, user_id, .. } => {
            assert_eq!(item.id, "item-9");
            assert_eq!(item.name, "Jam");
            assert_eq!(item.details, "raspberry");
            assert_eq!(item.quantity, Some("2".to_string()));
            assert_eq!(item.category, Some("Pantry".to_string()));
            assert_eq!(user_id, &None);
        }
        _ => panic!("Expected ItemAdded"),
    }
}

#[test]
fn test_checked_and_field_change_give_two_events() {
    // One checked transition plus one field edit: exactly two events.
    let mut cached_item = create_db_item("item-1", "Milk", false);
    cached_item.quantity = Some("1 gallon".to_string());
    let cached = vec![cached_item];

    let mut live_item = create_list_item("item-1", "Milk", true);
    live_item.quantity = Some("2 gallons".to_string());
    let current = vec![live_item];

    let changes = detect_changes("list-1", "Groceries", &cached, &current);

    assert_eq!(changes.len(), 2);
    assert!(matches!(&changes[0], ListChange::ItemChecked { .. }));
    match &changes[1] {
        ListChange::ItemModified { changes, .. } => {
            assert_eq!(changes.len(), 1);
            assert!(matches!(&changes[0], FieldChange::Quantity { .. }));
        }
        _ => panic!("Expected ItemModified"),
    }
}

#[test]
fn test_empty_sets_give_no_changes() {
    let changes = detect_changes("list-1", "Groceries", &vec![], &vec![]);
    assert_eq!(changes.len(), 0);
}

#[test]
fn test_item_info_from_db_item() {
    let item = create_db_item("item-1", "Milk", false);
    let info = ItemInfo::from_db_item(&item);
    assert_eq!(info.id, "item-1");
    assert_eq!(info.name, "Milk");
    assert_eq!(info.details, "");
    assert_eq!(info.quantity, None);
    assert_eq!(info.category, None);
    assert_eq!(info.user_id, Some("test-user".to_string()));
}

#[test]
fn test_item_info_from_list_item() {
    let item = create_list_item("item-1", "Milk", true);
    let info = ItemInfo::from_list_item(&item);
    assert_eq!(info.id, "item-1");
    assert_eq!(info.name, "Milk");
    assert_eq!(info.user_id, Some("test-user".to_string()));
}

#[test]
fn test_absent_and_present_optional_fields_differ() {
    // `none` versus a present value is a modification; two absent values
    // are equal and report nothing.
    let mut cached_item = create_db_item("item-1", "Milk", false);
    cached_item.quantity = None;
    cached_item.category = None;
    let cached = vec![cached_item];

    let mut live = create_list_item("item-1", "Milk", false);
    live.quantity = Some("1 gallon".to_string());
    live.category = None;
    let current = vec![live];

    let changes = detect_changes("list-1", "Groceries", &cached, &current);

    assert_eq!(changes.len(), 1);
    match &changes[0] {
        ListChange::ItemModified { changes, .. } => {
            assert_eq!(changes.len(), 1);
            match &changes[0] {
                FieldChange::Quantity { old, new } => {
                    assert_eq!(old, &None);
                    assert_eq!(new, &Some("1 gallon".to_string()));
                }
                _ => panic!("Expected Quantity change"),
            }
        }
        _ => panic!("Expected ItemModified"),
    }
}

#[test]
fn test_field_changes_keep_declared_order() {
    // Name, details, quantity, category — in that order, in one event.
    let mut cached_item = create_db_item("item-1", "Milk", false);
    cached_item.details = "old details".to_string();
    cached_item.quantity = Some("1".to_string());
    cached_item.category = Some("Dairy".to_string());
    let cached = vec![cached_item];

    let mut live = create_list_item("item-1", "Oat milk", false);
    live.details = "new details".to_string();
    live.quantity = Some("2".to_string());
    live.category = Some("Pantry".to_string());
    let current = vec![live];

    let changes = detect_changes("list-1", "Groceries", &cached, &current);

    assert_eq!(changes.len(), 1);
    match &changes[0] {
        ListChange::ItemModified { changes, .. } => {
            assert_eq!(changes.len(), 4);
            assert!(matches!(&changes[0], FieldChange::Name { .. }));
            assert!(matches!(&changes[1], FieldChange::Details { .. }));
            assert!(matches!(&changes[2], FieldChange::Quantity { .. }));
            assert!(matches!(&changes[3], FieldChange::Category { .. }));
        }
        _ => panic!("Expected ItemModified"),
    }
}
