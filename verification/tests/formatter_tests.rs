use anylist_notify::config::{NtfyConfig, NtfyPriorities, NtfyTags};
use anylist_notify::diff::{FieldChange, ItemInfo, ListChange};
use anylist_notify::notify::{format_field_changes, format_user_id, parse_tags};

fn test_config() -> NtfyConfig {
    NtfyConfig {
        base_url: "https://ntfy.sh".to_string(),
        topic: "test".to_string(),
        priorities: NtfyPriorities::default(),
        tags: NtfyTags::default(),
    }
}

#[test]
fn test_parse_tags() {
    let tags = parse_tags("tag1,tag2,tag3");
    assert_eq!(tags, vec!["tag1", "tag2", "tag3"]);

    let tags = parse_tags("tag1, tag2 , tag3");
    assert_eq!(tags, vec!["tag1", "tag2", "tag3"]);

    let tags = parse_tags("");
    assert_eq!(tags.len(), 0);
}

#[test]
fn test_parse_tags_drops_empty_segments() {
    let tags = parse_tags(" , tag1,, ,tag2 ,");
    assert_eq!(tags, vec!["tag1", "tag2"]);
}

#[test]
fn test_format_field_changes() {
    let changes = vec![
        FieldChange::Quantity {
            old: Some("1".to_string()),
            new: Some("2".to_string()),
        },
        FieldChange::Category {
            old: None,
            new: Some("Dairy".to_string()),
        },
    ];

    let message = format_field_changes(&changes);
    assert!(message.contains("Quantity: 1 \u{2192} 2"));
    assert!(message.contains("Category: none \u{2192} Dairy"));
}

#[test]
fn test_format_field_changes_details_phrasing() {
    let added = format_field_changes(&vec![FieldChange::Details {
        old: "".to_string(),
        new: "organic".to_string(),
    }]);
    assert_eq!(added, "Details added: organic");

    let removed = format_field_changes(&vec![FieldChange::Details {
        old: "organic".to_string(),
        new: "".to_string(),
    }]);
    assert_eq!(removed, "Details removed: organic");

    let changed = format_field_changes(&vec![FieldChange::Details {
        old: "skim".to_string(),
        new: "whole".to_string(),
    }]);
    assert_eq!(changed, "Details: skim \u{2192} whole");
}

#[test]
fn test_format_field_changes_name_line() {
    let msg = format_field_changes(&vec![FieldChange::Name {
        old: "Milk".to_string(),
        new: "Oat milk".to_string(),
    }]);
    assert_eq!(msg, "Name: Milk \u{2192} Oat milk");
}

#[test]
fn test_format_added_notification() {
    let config = test_config();

    let change = ListChange::ItemAdded {
        list_id: "list-1".to_string(),
        list_name: "Groceries".to_string(),
        item: ItemInfo {
            id: "item-1".to_string(),
            name: "Milk".to_string(),
            details: "Whole milk".to_string(),
            quantity: Some("1 gallon".to_string()),
            category: Some("Dairy".to_string()),
            user_id: None,
        },
        user_id: None,
    };

    let (title, message, priority, tags) = config.format_notification(&change);

    assert!(title.contains("Milk"));
    assert!(title.contains("Groceries"));
    assert!(message.contains("Quantity: 1 gallon"));
    assert!(message.contains("Details: Whole milk"));
    assert!(message.contains("Category: Dairy"));
    assert_eq!(priority, "default");
    assert!(!tags.is_empty());
}

#[test]
fn test_format_added_notification_fallback_body() {
    let config = test_config();

    let change = ListChange::ItemAdded {
        list_id: "list-1".to_string(),
        list_name: "Groceries".to_string(),
        item: ItemInfo {
            id: "item-1".to_string(),
            name: "Milk".to_string(),
            details: "".to_string(),
            quantity: None,
            category: None,
            user_id: None,
        },
        user_id: None,
    };

    let (title, message, _, _) = config.format_notification(&change);
    assert_eq!(title, "\u{2795} Milk added to Groceries");
    assert_eq!(message, "Added to Groceries");
}

#[test]
fn test_format_removed_notification_with_attribution() {
    let config = test_config();

    let change = ListChange::ItemRemoved {
        list_id: "list-1".to_string(),
        list_name: "Groceries".to_string(),
        item_name: "Milk".to_string(),
        user_id: Some("user-7".to_string()),
    };

    let (title, message, priority, tags) = config.format_notification(&change);
    assert_eq!(title, "\u{274c} Milk removed from Groceries");
    assert_eq!(message, "Removed from Groceries\nChanged by: user-7");
    assert_eq!(priority, "default");
    assert_eq!(tags, vec!["x", "shopping_cart"]);
}

#[test]
fn test_format_checked_notification_uses_low_priority() {
    let config = test_config();

    let change = ListChange::ItemChecked {
        list_id: "list-1".to_string(),
        list_name: "Groceries".to_string(),
        item_name: "Milk".to_string(),
        user_id: None,
    };

    let (title, message, priority, tags) = config.format_notification(&change);
    assert_eq!(title, "\u{2705} Milk checked off in Groceries");
    assert_eq!(message, "Checked off in Groceries");
    assert_eq!(priority, "low");
    assert_eq!(tags, vec!["white_check_mark"]);
}

#[test]
fn test_format_unchecked_notification() {
    let config = test_config();

    let change = ListChange::ItemUnchecked {
        list_id: "list-1".to_string(),
        list_name: "Groceries".to_string(),
        item_name: "Milk".to_string(),
        user_id: None,
    };

    let (title, message, priority, tags) = config.format_notification(&change);
    assert_eq!(title, "\u{25c0}\u{fe0f} Milk unchecked in Groceries");
    assert_eq!(message, "Unchecked in Groceries");
    assert_eq!(priority, "default");
    assert_eq!(tags, vec!["arrow_backward"]);
}

#[test]
fn test_format_modified_notification() {
    let config = test_config();

    let change = ListChange::ItemModified {
        list_id: "list-1".to_string(),
        list_name: "Groceries".to_string(),
        item_name: "Milk".to_string(),
        changes: vec![FieldChange::Quantity {
            old: Some("1 gallon".to_string()),
            new: Some("2 gallons".to_string()),
        }],
        user_id: Some("user-7".to_string()),
    };

    let (title, message, priority, tags) = config.format_notification(&change);
    assert_eq!(title, "\u{270f}\u{fe0f} Milk modified in Groceries");
    assert_eq!(
        message,
        "Quantity: 1 gallon \u{2192} 2 gallons\nChanged by: user-7"
    );
    assert_eq!(priority, "default");
    assert_eq!(tags, vec!["pencil2"]);
}

#[test]
fn test_format_user_id_returns_id() {
    assert_eq!(format_user_id("user-42"), "user-42");
}
