use anylist_notify::config::{
    AnyListConfig, CacheConfig, Config, LoggingConfig, NotificationsConfig, NtfyConfig,
    NtfyPriorities, NtfyTags,
};
use anylist_notify::diff::{ItemInfo, ListChange};
use anylist_notify::handler::{event_triggers_sync, SyncEvent, SyncHandler};
use anylist_notify::models::{DbItem, LiveItem, LiveList, SharedUser};
use anylist_notify::store::MirrorStore;

fn config(filter_own_changes: bool) -> Config {
    Config {
        anylist: AnyListConfig {
            email: "a@b.c".to_string(),
            password: "secret".to_string(),
        },
        cache: CacheConfig {
            database_path: "./anylist.db".to_string(),
        },
        ntfy: NtfyConfig {
            base_url: "https://ntfy.sh".to_string(),
            topic: "test".to_string(),
            priorities: NtfyPriorities::default(),
            tags: NtfyTags::default(),
        },
        notifications: NotificationsConfig { filter_own_changes },
        logging: LoggingConfig {
            level: "info".to_string(),
        },
    }
}

fn handler(filter_own: bool) -> SyncHandler {
    SyncHandler::new(MirrorStore::new(), config(filter_own), "me".to_string())
}

fn live_item(id: &str, list_id: &str, name: &str, is_checked: bool, user: Option<&str>) -> LiveItem {
    LiveItem {
        id: id.to_string(),
        list_id: list_id.to_string(),
        name: name.to_string(),
        details: "".to_string(),
        quantity: None,
        category: None,
        is_checked,
        user_id: user.map(|u| u.to_string()),
    }
}

fn added(name: &str, user: Option<&str>) -> ListChange {
    ListChange::ItemAdded {
        list_id: "l1".to_string(),
        list_name: "Groceries".to_string(),
        item: ItemInfo {
            id: format!("id-{}", name),
            name: name.to_string(),
            details: "".to_string(),
            quantity: None,
            category: None,
            user_id: user.map(|u| u.to_string()),
        },
        user_id: user.map(|u| u.to_string()),
    }
}

#[test]
fn test_only_shopping_list_changes_trigger_sync() {
    assert!(event_triggers_sync(&SyncEvent::ShoppingListsChanged));
    assert!(!event_triggers_sync(&SyncEvent::Heartbeat));
    assert!(!event_triggers_sync(&SyncEvent::RecipeDataChanged));
    assert!(!event_triggers_sync(&SyncEvent::AccountDeleted));
}

#[test]
fn test_filter_own_changes_drops_only_own() {
    let h = handler(true);
    let changes = vec![
        added("Milk", Some("me")),
        added("Bread", Some("someone-else")),
        added("Eggs", None),
    ];

    let kept = h.filter_own_changes(changes);

    assert_eq!(kept.len(), 2);
    match &kept[0] {
        ListChange::ItemAdded { item, .. } => assert_eq!(item.name, "Bread"),
        _ => panic!("Expected ItemAdded"),
    }
    match &kept[1] {
        ListChange::ItemAdded { item, user_id, .. } => {
            assert_eq!(item.name, "Eggs");
            assert_eq!(user_id, &None);
        }
        _ => panic!("Expected ItemAdded"),
    }
}

#[test]
fn test_cycle_keeps_unattributed_events_when_filtering() {
    let mut h = handler(true);
    let list = LiveList {
        id: "l1".to_string(),
        name: "Groceries".to_string(),
        items: vec![
            live_item("i1", "l1", "Mine", false, Some("me")),
            live_item("i2", "l1", "Anonymous", false, None),
        ],
        shared_users: vec![],
    };

    let notifications = h.handle_shopping_lists_changed(&vec![list], 100);

    // The event attributed to the authenticated user is dropped; the
    // unattributed one is kept.
    assert_eq!(notifications.len(), 1);
    assert!(notifications[0].title.contains("Anonymous"));
    // The mirror still converges for both items.
    assert_eq!(h.cache.get_items("l1").len(), 2);
}

#[test]
fn test_cycle_without_filtering_keeps_own_events() {
    let mut h = handler(false);
    let list = LiveList {
        id: "l1".to_string(),
        name: "Groceries".to_string(),
        items: vec![live_item("i1", "l1", "Mine", false, Some("me"))],
        shared_users: vec![],
    };

    let notifications = h.handle_shopping_lists_changed(&vec![list], 100);
    assert_eq!(notifications.len(), 1);
    assert!(notifications[0].title.contains("Mine"));
}

#[test]
fn test_cycle_checked_transition_updates_mirror() {
    // The mirror holds Milk, unchecked, quantity "1 gallon"; the fetch
    // returns it checked with the same quantity: one checked event, and the
    // stored item ends up checked.
    let mut h = handler(false);
    h.cache.upsert_list(&anylist_notify::models::DbList {
        id: "l1".to_string(),
        name: "Groceries".to_string(),
        last_updated: 50,
    });
    h.cache.upsert_item(&DbItem {
        id: "i1".to_string(),
        list_id: "l1".to_string(),
        name: "Milk".to_string(),
        details: "".to_string(),
        quantity: Some("1 gallon".to_string()),
        category: None,
        is_checked: false,
        user_id: None,
        last_seen: 50,
    });

    let mut fetched_item = live_item("i1", "l1", "Milk", true, None);
    fetched_item.quantity = Some("1 gallon".to_string());
    let list = LiveList {
        id: "l1".to_string(),
        name: "Groceries".to_string(),
        items: vec![fetched_item],
        shared_users: vec![],
    };

    let notifications = h.handle_shopping_lists_changed(&vec![list], 100);

    assert_eq!(notifications.len(), 1);
    assert_eq!(
        notifications[0].title,
        "\u{2705} Milk checked off in Groceries"
    );
    assert_eq!(notifications[0].priority, "low");

    let items = h.cache.get_items("l1");
    assert_eq!(items.len(), 1);
    assert!(items[0].is_checked);
    assert_eq!(items[0].quantity, Some("1 gallon".to_string()));
}

#[test]
fn test_cycle_prunes_deleted_lists() {
    // The mirror holds lists A and B; the fetch returns only A: afterwards
    // the mirror holds only A, and B's items are gone with it.
    let mut h = handler(false);
    let list_a = LiveList {
        id: "a".to_string(),
        name: "A".to_string(),
        items: vec![live_item("a1", "a", "Apples", false, None)],
        shared_users: vec![],
    };
    let list_b = LiveList {
        id: "b".to_string(),
        name: "B".to_string(),
        items: vec![live_item("b1", "b", "Bolts", false, None)],
        shared_users: vec![],
    };
    h.initialize_cache(&vec![list_a, list_b], 50);
    assert_eq!(h.cache.get_all_lists().len(), 2);

    let fetched_a = LiveList {
        id: "a".to_string(),
        name: "A".to_string(),
        items: vec![live_item("a1", "a", "Apples", false, None)],
        shared_users: vec![],
    };
    let notifications = h.handle_shopping_lists_changed(&vec![fetched_a], 100);

    assert_eq!(notifications.len(), 0);
    let remaining = h.cache.get_all_lists();
    assert_eq!(remaining.len(), 1);
    assert_eq!(remaining[0].id, "a");
    assert_eq!(h.cache.get_items("b").len(), 0);
    assert_eq!(h.cache.get_items("a").len(), 1);
}

#[test]
fn test_cycle_removes_items_absent_from_snapshot() {
    let mut h = handler(false);
    let seeded = LiveList {
        id: "l1".to_string(),
        name: "Groceries".to_string(),
        items: vec![
            live_item("i1", "l1", "Milk", false, None),
            live_item("i2", "l1", "Bread", false, None),
        ],
        shared_users: vec![],
    };
    h.initialize_cache(&vec![seeded], 50);

    let fetched = LiveList {
        id: "l1".to_string(),
        name: "Groceries".to_string(),
        items: vec![live_item("i1", "l1", "Milk", false, None)],
        shared_users: vec![],
    };
    let notifications = h.handle_shopping_lists_changed(&vec![fetched], 100);

    assert_eq!(notifications.len(), 1);
    assert!(notifications[0].title.contains("Bread"));
    assert!(notifications[0].title.contains("removed"));
    let items = h.cache.get_items("l1");
    assert_eq!(items.len(), 1);
    assert_eq!(items[0].id, "i1");
}

#[test]
fn test_update_user_names_prefers_full_name_then_email() {
    let mut h = handler(false);
    let list = LiveList {
        id: "l1".to_string(),
        name: "Groceries".to_string(),
        items: vec![],
        shared_users: vec![
            SharedUser {
                user_id: "u1".to_string(),
                full_name: Some("Alice Example".to_string()),
                email: Some("alice@example.com".to_string()),
            },
            SharedUser {
                user_id: "u2".to_string(),
                full_name: Some("".to_string()),
                email: Some("bob@example.com".to_string()),
            },
            SharedUser {
                user_id: "u3".to_string(),
                full_name: None,
                email: None,
            },
        ],
    };

    h.update_user_names(&vec![list]);

    assert_eq!(h.get_user_name("u1"), Some("Alice Example".to_string()));
    assert_eq!(h.get_user_name("u2"), Some("bob@example.com".to_string()));
    assert_eq!(h.get_user_name("u3"), Some("u3".to_string()));
    assert_eq!(h.get_user_name("unknown"), None);
}

#[test]
fn test_update_user_names_overwrites_but_never_removes() {
    let mut h = handler(false);
    let first = LiveList {
        id: "l1".to_string(),
        name: "Groceries".to_string(),
        items: vec![],
        shared_users: vec![SharedUser {
            user_id: "u1".to_string(),
            full_name: Some("Old Name".to_string()),
            email: None,
        }],
    };
    h.update_user_names(&vec![first]);

    let second = LiveList {
        id: "l2".to_string(),
        name: "Hardware".to_string(),
        items: vec![],
        shared_users: vec![SharedUser {
            user_id: "u2".to_string(),
            full_name: Some("New Person".to_string()),
            email: None,
        }],
    };
    h.update_user_names(&vec![second]);

    assert_eq!(h.get_user_name("u1"), Some("Old Name".to_string()));
    assert_eq!(h.get_user_name("u2"), Some("New Person".to_string()));
}

#[test]
fn test_initialize_cache_seeds_without_notifications() {
    let mut h = handler(false);
    let list = LiveList {
        id: "l1".to_string(),
        name: "Groceries".to_string(),
        items: vec![live_item("i1", "l1", "Milk", false, None)],
        shared_users: vec![],
    };

    h.initialize_cache(&vec![list], 50);

    let stats = h.cache.get_stats();
    assert_eq!(stats.total_lists, 1);
    assert_eq!(stats.total_items, 1);
}

#[test]
fn test_identical_snapshot_yields_no_notifications() {
    let mut h = handler(false);
    let seeded = LiveList {
        id: "l1".to_string(),
        name: "Groceries".to_string(),
        items: vec![live_item("i1", "l1", "Milk", false, None)],
        shared_users: vec![],
    };
    h.initialize_cache(&vec![seeded], 50);

    let same = LiveList {
        id: "l1".to_string(),
        name: "Groceries".to_string(),
        items: vec![live_item("i1", "l1", "Milk", false, None)],
        shared_users: vec![],
    };
    let notifications = h.handle_shopping_lists_changed(&vec![same], 100);
    assert_eq!(notifications.len(), 0);
}
