use anylist_notify::models::{DbItem, DbList, LiveItem, LiveList};
use anylist_notify::store::MirrorStore;

fn item(id: &str, list_id: &str, name: &str, last_seen: i64) -> DbItem {
    DbItem {
        id: id.to_string(),
        list_id: list_id.to_string(),
        name: name.to_string(),
        details: "".to_string(),
        quantity: None,
        category: None,
        is_checked: false,
        user_id: None,
        last_seen,
    }
}

fn live_item(id: &str, list_id: &str, name: &str, is_checked: bool) -> LiveItem {
    LiveItem {
        id: id.to_string(),
        list_id: list_id.to_string(),
        name: name.to_string(),
        details: "".to_string(),
        quantity: None,
        category: None,
        is_checked,
        user_id: None,
    }
}

#[test]
fn test_cache_operations() {
    let mut cache = MirrorStore::new();

    let list = DbList::new("test-list-1".to_string(), "Test List".to_string());
    cache.upsert_list(&list);

    let fetched = cache.get_list("test-list-1").expect("List not found");
    assert_eq!(fetched.name, "Test List");

    let item = DbItem::new(
        "item-1".to_string(),
        "test-list-1".to_string(),
        "Milk".to_string(),
        "Whole milk".to_string(),
        Some("1 gallon".to_string()),
        Some("Dairy".to_string()),
        false,
        None,
    );
    cache.upsert_item(&item);

    let items = cache.get_items("test-list-1");
    assert_eq!(items.len(), 1);
    assert_eq!(items[0].name, "Milk");
}

#[test]
fn test_upsert_list_replaces_every_field() {
    let mut cache = MirrorStore::new();
    cache.upsert_list(&DbList {
        id: "l1".to_string(),
        name: "Old name".to_string(),
        last_updated: 10,
    });
    cache.upsert_list(&DbList {
        id: "l1".to_string(),
        name: "New name".to_string(),
        last_updated: 20,
    });

    let stats = cache.get_stats();
    assert_eq!(stats.total_lists, 1);
    let fetched = cache.get_list("l1").unwrap();
    assert_eq!(fetched.name, "New name");
    assert_eq!(fetched.last_updated, 20);
}

#[test]
fn test_upsert_item_overwrites_attribution_and_timestamp() {
    let mut cache = MirrorStore::new();
    let mut a = item("i1", "l1", "Milk", 5);
    a.user_id = Some("alice".to_string());
    cache.upsert_item(&a);

    let mut b = item("i1", "l1", "Milk", 9);
    b.user_id = None;
    cache.upsert_item(&b);

    let items = cache.get_items("l1");
    assert_eq!(items.len(), 1);
    assert_eq!(items[0].user_id, None);
    assert_eq!(items[0].last_seen, 9);
}

#[test]
fn test_get_list_absent() {
    let cache = MirrorStore::new();
    assert!(cache.get_list("nope").is_none());
}

#[test]
fn test_get_all_lists_ordered_by_name() {
    let mut cache = MirrorStore::new();
    cache.upsert_list(&DbList {
        id: "l1".to_string(),
        name: "Pantry".to_string(),
        last_updated: 0,
    });
    cache.upsert_list(&DbList {
        id: "l2".to_string(),
        name: "Groceries".to_string(),
        last_updated: 0,
    });
    cache.upsert_list(&DbList {
        id: "l3".to_string(),
        name: "Hardware".to_string(),
        last_updated: 0,
    });

    let all = cache.get_all_lists();
    let names: Vec<&str> = all.iter().map(|l| l.name.as_str()).collect();
    assert_eq!(names, vec!["Groceries", "Hardware", "Pantry"]);
}

#[test]
fn test_delete_list_cascades_to_items() {
    let mut cache = MirrorStore::new();
    cache.upsert_list(&DbList {
        id: "l1".to_string(),
        name: "A".to_string(),
        last_updated: 0,
    });
    cache.upsert_list(&DbList {
        id: "l2".to_string(),
        name: "B".to_string(),
        last_updated: 0,
    });
    cache.upsert_item(&item("i1", "l1", "Milk", 0));
    cache.upsert_item(&item("i2", "l2", "Nails", 0));

    cache.delete_list("l1");

    assert!(cache.get_list("l1").is_none());
    assert!(cache.get_list("l2").is_some());
    assert_eq!(cache.get_items("l1").len(), 0);
    assert_eq!(cache.get_items("l2").len(), 1);
    let stats = cache.get_stats();
    assert_eq!(stats.total_lists, 1);
    assert_eq!(stats.total_items, 1);
}

#[test]
fn test_delete_stale_items_returns_removed_rows() {
    let mut cache = MirrorStore::new();
    cache.upsert_item(&item("i1", "l1", "Old", 5));
    cache.upsert_item(&item("i2", "l1", "Fresh", 20));
    cache.upsert_item(&item("i3", "l2", "Other list", 5));

    let removed = cache.delete_stale_items("l1", 10);

    assert_eq!(removed.len(), 1);
    assert_eq!(removed[0].id, "i1");
    assert_eq!(removed[0].name, "Old");
    assert_eq!(cache.get_items("l1").len(), 1);
    assert_eq!(cache.get_items("l2").len(), 1);
}

#[test]
fn test_delete_stale_items_keeps_boundary_timestamp() {
    let mut cache = MirrorStore::new();
    cache.upsert_item(&item("i1", "l1", "At cutoff", 10));

    let removed = cache.delete_stale_items("l1", 10);
    assert_eq!(removed.len(), 0);
    assert_eq!(cache.get_items("l1").len(), 1);
}

#[test]
fn test_sync_list_upserts_list_and_items() {
    let mut cache = MirrorStore::new();
    let list = LiveList {
        id: "l1".to_string(),
        name: "Groceries".to_string(),
        items: vec![
            live_item("i1", "l1", "Milk", false),
            live_item("i2", "l1", "Bread", true),
        ],
        shared_users: vec![],
    };

    cache.sync_list_at(&list, 42);

    let fetched = cache.get_list("l1").unwrap();
    assert_eq!(fetched.name, "Groceries");
    assert_eq!(fetched.last_updated, 42);
    let items = cache.get_items("l1");
    assert_eq!(items.len(), 2);
    assert!(items.iter().all(|it| it.last_seen == 42));
}

#[test]
fn test_sync_list_does_not_remove_absent_items() {
    let mut cache = MirrorStore::new();
    cache.upsert_item(&item("gone", "l1", "Gone remotely", 1));

    let list = LiveList {
        id: "l1".to_string(),
        name: "Groceries".to_string(),
        items: vec![live_item("i1", "l1", "Milk", false)],
        shared_users: vec![],
    };
    cache.sync_list_at(&list, 42);

    // The snapshot upsert alone leaves the stale row; removal is the
    // orchestrator's distinct reconciliation step.
    assert_eq!(cache.get_items("l1").len(), 2);
    let removed = cache.delete_stale_items("l1", 42);
    assert_eq!(removed.len(), 1);
    assert_eq!(removed[0].id, "gone");
    assert_eq!(cache.get_items("l1").len(), 1);
}
