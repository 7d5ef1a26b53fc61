//! The diff engine: a pure function from the mirrored item set and the
//! freshly fetched item set of one list to the sequence of change events.
//!
//! All results are pinned down exactly by the spec functions `spec_diff`,
//! `spec_added_events`, `spec_removed_events` and `spec_update_events`; the
//! laws about them (identity of equal sets, one event per added or removed
//! id, and so on) are proved in [`crate::laws`].

use vstd::prelude::*;

use crate::models::{DbItem, ItemModel, LiveItem, LiveItemModel};
use crate::models::clone_opt_string;

verus! {

/// A change detected between the mirrored and the fetched state of a list.
#[derive(Debug)]
pub enum ListChange {
    /// An item was added to the list.
    ItemAdded { list_id: String, list_name: String, item: ItemInfo, user_id: Option<String> },
    /// An item was removed from the list.
    ItemRemoved { list_id: String, list_name: String, item_name: String, user_id: Option<String> },
    /// An item was checked off.
    ItemChecked { list_id: String, list_name: String, item_name: String, user_id: Option<String> },
    /// An item was unchecked.
    ItemUnchecked { list_id: String, list_name: String, item_name: String, user_id: Option<String> },
    /// An item's fields were modified.
    ItemModified {
        list_id: String,
        list_name: String,
        item_name: String,
        changes: Vec<FieldChange>,
        user_id: Option<String>,
    },
}

/// Information about a list item, as carried by an `ItemAdded` event.
#[derive(Debug)]
pub struct ItemInfo {
    pub id: String,
    pub name: String,
    pub details: String,
    pub quantity: Option<String>,
    pub category: Option<String>,
    pub user_id: Option<String>,
}

/// A change to one field of an item, carrying the value before and after.
#[derive(Debug)]
pub enum FieldChange {
    Name { old: String, new: String },
    Details { old: String, new: String },
    Quantity { old: Option<String>, new: Option<String> },
    Category { old: Option<String>, new: Option<String> },
}

/// Mathematical model of [`ItemInfo`].
#[verifier::ext_equal]
pub ghost struct ItemInfoModel {
    pub id: Seq<char>,
    pub name: Seq<char>,
    pub details: Seq<char>,
    pub quantity: Option<Seq<char>>,
    pub category: Option<Seq<char>>,
    pub user_id: Option<Seq<char>>,
}

/// Mathematical model of [`FieldChange`].
#[verifier::ext_equal]
pub ghost enum FieldChangeModel {
    Name { old: Seq<char>, new: Seq<char> },
    Details { old: Seq<char>, new: Seq<char> },
    Quantity { old: Option<Seq<char>>, new: Option<Seq<char>> },
    Category { old: Option<Seq<char>>, new: Option<Seq<char>> },
}

/// Mathematical model of [`ListChange`].
#[verifier::ext_equal]
pub ghost enum ChangeModel {
    ItemAdded {
        list_id: Seq<char>,
        list_name: Seq<char>,
        item: ItemInfoModel,
        user_id: Option<Seq<char>>,
    },
    ItemRemoved {
        list_id: Seq<char>,
        list_name: Seq<char>,
        item_name: Seq<char>,
        user_id: Option<Seq<char>>,
    },
    ItemChecked {
        list_id: Seq<char>,
        list_name: Seq<char>,
        item_name: Seq<char>,
        user_id: Option<Seq<char>>,
    },
    ItemUnchecked {
        list_id: Seq<char>,
        list_name: Seq<char>,
        item_name: Seq<char>,
        user_id: Option<Seq<char>>,
    },
    ItemModified {
        list_id: Seq<char>,
        list_name: Seq<char>,
        item_name: Seq<char>,
        changes: Seq<FieldChangeModel>,
        user_id: Option<Seq<char>>,
    },
}

impl View for ItemInfo {
    type V = ItemInfoModel;

    open spec fn view(&self) -> ItemInfoModel {
        ItemInfoModel {
            id: self.id@,
            name: self.name@,
            details: self.details@,
            quantity: self.quantity.deep_view(),
            category: self.category.deep_view(),
            user_id: self.user_id.deep_view(),
        }
    }
}

impl DeepView for ItemInfo {
    type V = ItemInfoModel;

    open spec fn deep_view(&self) -> ItemInfoModel {
        self@
    }
}

impl View for FieldChange {
    type V = FieldChangeModel;

    open spec fn view(&self) -> FieldChangeModel {
        match self {
            FieldChange::Name { old, new } => FieldChangeModel::Name { old: old@, new: new@ },
            FieldChange::Details { old, new } => FieldChangeModel::Details {
                old: old@,
                new: new@,
            },
            FieldChange::Quantity { old, new } => FieldChangeModel::Quantity {
                old: old.deep_view(),
                new: new.deep_view(),
            },
            FieldChange::Category { old, new } => FieldChangeModel::Category {
                old: old.deep_view(),
                new: new.deep_view(),
            },
        }
    }
}

impl DeepView for FieldChange {
    type V = FieldChangeModel;

    open spec fn deep_view(&self) -> FieldChangeModel {
        self@
    }
}

impl View for ListChange {
    type V = ChangeModel;

    open spec fn view(&self) -> ChangeModel {
        match self {
            ListChange::ItemAdded { list_id, list_name, item, user_id } => ChangeModel::ItemAdded {
                list_id: list_id@,
                list_name: list_name@,
                item: item@,
                user_id: user_id.deep_view(),
            },
            ListChange::ItemRemoved { list_id, list_name, item_name, user_id } => {
                ChangeModel::ItemRemoved {
                    list_id: list_id@,
                    list_name: list_name@,
                    item_name: item_name@,
                    user_id: user_id.deep_view(),
                }
            },
            ListChange::ItemChecked { list_id, list_name, item_name, user_id } => {
                ChangeModel::ItemChecked {
                    list_id: list_id@,
                    list_name: list_name@,
                    item_name: item_name@,
                    user_id: user_id.deep_view(),
                }
            },
            ListChange::ItemUnchecked { list_id, list_name, item_name, user_id } => {
                ChangeModel::ItemUnchecked {
                    list_id: list_id@,
                    list_name: list_name@,
                    item_name: item_name@,
                    user_id: user_id.deep_view(),
                }
            },
            ListChange::ItemModified { list_id, list_name, item_name, changes, user_id } => {
                ChangeModel::ItemModified {
                    list_id: list_id@,
                    list_name: list_name@,
                    item_name: item_name@,
                    changes: changes.deep_view(),
                    user_id: user_id.deep_view(),
                }
            },
        }
    }
}

impl DeepView for ListChange {
    type V = ChangeModel;

    open spec fn deep_view(&self) -> ChangeModel {
        self@
    }
}

/// The attributing user id carried by a change event, whatever its kind.
pub open spec fn change_user_id(c: ChangeModel) -> Option<Seq<char>> {
    match c {
        ChangeModel::ItemAdded { user_id, .. } => user_id,
        ChangeModel::ItemRemoved { user_id, .. } => user_id,
        ChangeModel::ItemChecked { user_id, .. } => user_id,
        ChangeModel::ItemUnchecked { user_id, .. } => user_id,
        ChangeModel::ItemModified { user_id, .. } => user_id,
    }
}

/// Decides whether two strings hold the same characters.
pub fn str_eq(a: &str, b: &str) -> (r: bool)
    ensures
        r == (a@ == b@),
{
    let a_len = a.unicode_len();
    let b_len = b.unicode_len();
    if a_len != b_len {
        return false;
    }
    let mut i: usize = 0;
    while i < a_len
        invariant
            a_len == a@.len(),
            b_len == b@.len(),
            a_len == b_len,
            i <= a_len,
            forall|k: int| 0 <= k < i ==> a@[k] == b@[k],
        decreases a_len - i,
    {
        if a.get_char(i) != b.get_char(i) {
            return false;
        }
        i = i + 1;
    }
    proof {
        assert(a@ =~= b@);
    }
    true
}

/// Decides whether two optional strings are equal, treating two absent
/// values as equal and an absent value as unequal to any present one.
pub fn opt_str_eq(a: &Option<String>, b: &Option<String>) -> (r: bool)
    ensures
        r == (a.deep_view() == b.deep_view()),
{
    match (a, b) {
        (Some(x), Some(y)) => str_eq(x.as_str(), y.as_str()),
        (None, None) => true,
        _ => false,
    }
}

/// First mirrored item with the given id, if any.
pub open spec fn lookup_item(items: Seq<ItemModel>, id: Seq<char>) -> Option<ItemModel>
    decreases items.len(),
{
    if items.len() == 0 {
        None
    } else if items[0].id == id {
        Some(items[0])
    } else {
        lookup_item(items.drop_first(), id)
    }
}

/// First fetched item with the given id, if any.
pub open spec fn lookup_live(items: Seq<LiveItemModel>, id: Seq<char>) -> Option<LiveItemModel>
    decreases items.len(),
{
    if items.len() == 0 {
        None
    } else if items[0].id == id {
        Some(items[0])
    } else {
        lookup_live(items.drop_first(), id)
    }
}

/// Whether some mirrored item carries the given id.
pub open spec fn has_item_id(items: Seq<ItemModel>, id: Seq<char>) -> bool {
    lookup_item(items, id) is Some
}

/// Whether some fetched item carries the given id.
pub open spec fn has_live_id(items: Seq<LiveItemModel>, id: Seq<char>) -> bool {
    lookup_live(items, id) is Some
}

/// Finds the first mirrored item with the given id.
fn find_item<'a>(items: &'a Vec<DbItem>, id: &str) -> (r: Option<&'a DbItem>)
    ensures
        match r {
            Some(it) => lookup_item(items.deep_view(), id@) == Some(it.deep_view()),
            None => lookup_item(items.deep_view(), id@) is None,
        },
{
    let ghost model = items.deep_view();
    proof {
        assert(model.skip(0) =~= model);
    }
    let mut i: usize = 0;
    while i < items.len()
        invariant
            model == items.deep_view(),
            i <= items.len(),
            model.len() == items.len(),
            lookup_item(model.skip(i as int), id@) == lookup_item(model, id@),
        decreases items.len() - i,
    {
        if str_eq(items[i].id.as_str(), id) {
            proof {
                assert(model.skip(i as int)[0] == model[i as int]);
            }
            return Some(&items[i]);
        }
        proof {
            assert(model.skip(i as int).drop_first() =~= model.skip(i as int + 1));
        }
        i = i + 1;
    }
    proof {
        assert(model.skip(items.len() as int).len() == 0);
    }
    None
}

/// Decides whether some fetched item carries the given id.
fn live_contains_id(items: &Vec<LiveItem>, id: &str) -> (r: bool)
    ensures
        r == has_live_id(items.deep_view(), id@),
{
    let ghost model = items.deep_view();
    proof {
        assert(model.skip(0) =~= model);
    }
    let mut i: usize = 0;
    while i < items.len()
        invariant
            model == items.deep_view(),
            i <= items.len(),
            model.len() == items.len(),
            lookup_live(model.skip(i as int), id@) == lookup_live(model, id@),
        decreases items.len() - i,
    {
        if str_eq(items[i].id.as_str(), id) {
            proof {
                assert(model.skip(i as int)[0] == model[i as int]);
            }
            return true;
        }
        proof {
            assert(model.skip(i as int).drop_first() =~= model.skip(i as int + 1));
        }
        i = i + 1;
    }
    proof {
        assert(model.skip(items.len() as int).len() == 0);
    }
    false
}

/// Decides whether some mirrored item carries the given id.
fn cached_contains_id(items: &Vec<DbItem>, id: &str) -> (r: bool)
    ensures
        r == has_item_id(items.deep_view(), id@),
{
    match find_item(items, id) {
        Some(_) => true,
        None => false,
    }
}

/// The event information carried for a mirrored item.
pub open spec fn info_of_item(it: ItemModel) -> ItemInfoModel {
    ItemInfoModel {
        id: it.id,
        name: it.name,
        details: it.details,
        quantity: it.quantity,
        category: it.category,
        user_id: it.user_id,
    }
}

/// The event information carried for a freshly fetched item.
pub open spec fn info_of_live(it: LiveItemModel) -> ItemInfoModel {
    ItemInfoModel {
        id: it.id,
        name: it.name,
        details: it.details,
        quantity: it.quantity,
        category: it.category,
        user_id: it.user_id,
    }
}

/// The event reported for an item present only in the fetched set.
pub open spec fn added_event(
    list_id: Seq<char>,
    list_name: Seq<char>,
    it: LiveItemModel,
) -> ChangeModel {
    ChangeModel::ItemAdded { list_id, list_name, item: info_of_live(it), user_id: it.user_id }
}

/// The event reported for an item present only in the mirrored set; it
/// carries the mirrored name, since the fetched set no longer has one.
pub open spec fn removed_event(
    list_id: Seq<char>,
    list_name: Seq<char>,
    it: ItemModel,
) -> ChangeModel {
    ChangeModel::ItemRemoved { list_id, list_name, item_name: it.name, user_id: it.user_id }
}

/// The single event reported for a checked-state transition, decided by the
/// fetched (new) value of the flag.
pub open spec fn checked_event(
    list_id: Seq<char>,
    list_name: Seq<char>,
    it: LiveItemModel,
) -> ChangeModel {
    if it.is_checked {
        ChangeModel::ItemChecked { list_id, list_name, item_name: it.name, user_id: it.user_id }
    } else {
        ChangeModel::ItemUnchecked { list_id, list_name, item_name: it.name, user_id: it.user_id }
    }
}

/// The event carrying the ordered field changes of a modified item.
pub open spec fn modified_event(
    list_id: Seq<char>,
    list_name: Seq<char>,
    it: LiveItemModel,
    changes: Seq<FieldChangeModel>,
) -> ChangeModel {
    ChangeModel::ItemModified {
        list_id,
        list_name,
        item_name: it.name,
        changes,
        user_id: it.user_id,
    }
}

/// The ordered differences (name, details, quantity, category) between the
/// mirrored and the fetched value of one item; the checked flag is never
/// part of this sequence.
pub open spec fn spec_field_changes(c: ItemModel, l: LiveItemModel) -> Seq<FieldChangeModel> {
    (if c.name != l.name {
        seq![FieldChangeModel::Name { old: c.name, new: l.name }]
    } else {
        Seq::<FieldChangeModel>::empty()
    }) + (if c.details != l.details {
        seq![FieldChangeModel::Details { old: c.details, new: l.details }]
    } else {
        Seq::<FieldChangeModel>::empty()
    }) + (if c.quantity != l.quantity {
        seq![FieldChangeModel::Quantity { old: c.quantity, new: l.quantity }]
    } else {
        Seq::<FieldChangeModel>::empty()
    }) + (if c.category != l.category {
        seq![FieldChangeModel::Category { old: c.category, new: l.category }]
    } else {
        Seq::<FieldChangeModel>::empty()
    })
}

/// The events reported for an item present in both sets: one checked or
/// unchecked event if the flag flipped, then one modification event if any
/// other field differs — never more.
pub open spec fn spec_update_events_for(
    list_id: Seq<char>,
    list_name: Seq<char>,
    c: ItemModel,
    l: LiveItemModel,
) -> Seq<ChangeModel> {
    (if c.is_checked != l.is_checked {
        seq![checked_event(list_id, list_name, l)]
    } else {
        Seq::<ChangeModel>::empty()
    }) + (if spec_field_changes(c, l).len() > 0 {
        seq![modified_event(list_id, list_name, l, spec_field_changes(c, l))]
    } else {
        Seq::<ChangeModel>::empty()
    })
}

/// One added event for every fetched item whose id is absent from the
/// mirror, in fetched order.
pub open spec fn spec_added_events(
    list_id: Seq<char>,
    list_name: Seq<char>,
    cached: Seq<ItemModel>,
    live: Seq<LiveItemModel>,
) -> Seq<ChangeModel>
    decreases live.len(),
{
    if live.len() == 0 {
        Seq::<ChangeModel>::empty()
    } else {
        spec_added_events(list_id, list_name, cached, live.drop_last()) + (if !has_item_id(
            cached,
            live.last().id,
        ) {
            seq![added_event(list_id, list_name, live.last())]
        } else {
            Seq::<ChangeModel>::empty()
        })
    }
}

/// One removed event for every mirrored item whose id is absent from the
/// fetched set, in mirrored order.
pub open spec fn spec_removed_events(
    list_id: Seq<char>,
    list_name: Seq<char>,
    cached: Seq<ItemModel>,
    live: Seq<LiveItemModel>,
) -> Seq<ChangeModel>
    decreases cached.len(),
{
    if cached.len() == 0 {
        Seq::<ChangeModel>::empty()
    } else {
        spec_removed_events(list_id, list_name, cached.drop_last(), live) + (if !has_live_id(
            live,
            cached.last().id,
        ) {
            seq![removed_event(list_id, list_name, cached.last())]
        } else {
            Seq::<ChangeModel>::empty()
        })
    }
}

/// The checked-state and modification events of every item present in both
/// sets, in fetched order.
pub open spec fn spec_update_events(
    list_id: Seq<char>,
    list_name: Seq<char>,
    cached: Seq<ItemModel>,
    live: Seq<LiveItemModel>,
) -> Seq<ChangeModel>
    decreases live.len(),
{
    if live.len() == 0 {
        Seq::<ChangeModel>::empty()
    } else {
        spec_update_events(list_id, list_name, cached, live.drop_last()) + (match lookup_item(
            cached,
            live.last().id,
        ) {
            Some(c) => spec_update_events_for(list_id, list_name, c, live.last()),
            None => Seq::<ChangeModel>::empty(),
        })
    }
}

/// The full reconciliation result for one list: added events, then removed
/// events, then the per-item update events.
pub open spec fn spec_diff(
    list_id: Seq<char>,
    list_name: Seq<char>,
    cached: Seq<ItemModel>,
    live: Seq<LiveItemModel>,
) -> Seq<ChangeModel> {
    spec_added_events(list_id, list_name, cached, live) + spec_removed_events(
        list_id,
        list_name,
        cached,
        live,
    ) + spec_update_events(list_id, list_name, cached, live)
}

/// Whether the ids within the item set are unique, as they are in an
/// id-keyed collection.
pub open spec fn distinct_item_ids(items: Seq<ItemModel>) -> bool {
    forall|i: int, j: int| 0 <= i < j < items.len() ==> items[i].id != items[j].id
}

/// Whether the ids within the fetched item set are unique.
pub open spec fn distinct_live_ids(items: Seq<LiveItemModel>) -> bool {
    forall|i: int, j: int| 0 <= i < j < items.len() ==> items[i].id != items[j].id
}

/// Decides whether the fetched items of a list all carry distinct ids, as
/// the diff engine's inputs must.
pub fn live_items_have_distinct_ids(items: &Vec<LiveItem>) -> (r: bool)
    ensures
        r == distinct_live_ids(items.deep_view()),
{
    let ghost model = items.deep_view();
    let mut i: usize = 0;
    while i < items.len()
        invariant
            model == items.deep_view(),
            i <= items.len(),
            model.len() == items.len(),
            forall|p: int, q: int|
                0 <= p < i && p < q < model.len() ==> model[p].id != model[q].id,
        decreases items.len() - i,
    {
        let mut j: usize = i + 1;
        while j < items.len()
            invariant
                model == items.deep_view(),
                i < j <= items.len(),
                model.len() == items.len(),
                forall|q: int| i < q < j ==> model[i as int].id != model[q].id,
            decreases items.len() - j,
        {
            if str_eq(items[i].id.as_str(), items[j].id.as_str()) {
                proof {
                    let p = i as int;
                    let q = j as int;
                    assert(model[p].id == model[q].id);
                }
                return false;
            }
            j = j + 1;
        }
        i = i + 1;
    }
    true
}

impl ItemInfo {
    /// Event information of a freshly fetched item.
    pub fn from_list_item(item: &LiveItem) -> (r: Self)
        ensures
            r.deep_view() == info_of_live(item.deep_view()),
    {
        Self {
            id: item.id.clone(),
            name: item.name.clone(),
            details: item.details.clone(),
            quantity: clone_opt_string(&item.quantity),
            category: clone_opt_string(&item.category),
            user_id: clone_opt_string(&item.user_id),
        }
    }

    /// Event information of a mirrored item.
    pub fn from_db_item(item: &DbItem) -> (r: Self)
        ensures
            r.deep_view() == info_of_item(item.deep_view()),
    {
        Self {
            id: item.id.clone(),
            name: item.name.clone(),
            details: item.details.clone(),
            quantity: clone_opt_string(&item.quantity),
            category: clone_opt_string(&item.category),
            user_id: clone_opt_string(&item.user_id),
        }
    }
}

/// Collects the field-level differences of one item present in both sets.
fn detect_field_changes(cached: &DbItem, current: &LiveItem) -> (changes: Vec<FieldChange>)
    ensures
        changes.deep_view() == spec_field_changes(cached.deep_view(), current.deep_view()),
{
    let mut changes: Vec<FieldChange> = Vec::new();

    if !str_eq(cached.name.as_str(), current.name.as_str()) {
        changes.push(
            FieldChange::Name { old: cached.name.clone(), new: current.name.clone() },
        );
    }

    if !str_eq(cached.details.as_str(), current.details.as_str()) {
        changes.push(
            FieldChange::Details { old: cached.details.clone(), new: current.details.clone() },
        );
    }

    if !opt_str_eq(&cached.quantity, &current.quantity) {
        changes.push(
            FieldChange::Quantity {
                old: clone_opt_string(&cached.quantity),
                new: clone_opt_string(&current.quantity),
            },
        );
    }

    if !opt_str_eq(&cached.category, &current.category) {
        changes.push(
            FieldChange::Category {
                old: clone_opt_string(&cached.category),
                new: clone_opt_string(&current.category),
            },
        );
    }

    proof {
        assert(changes.deep_view() =~= spec_field_changes(cached.deep_view(), current.deep_view()));
    }
    changes
}

/// Detects every change between the mirrored items and the freshly fetched
/// items of one list, classified as added, removed, checked or unchecked,
/// and field-modified events.
pub fn detect_changes(
    list_id: &str,
    list_name: &str,
    cached_items: &Vec<DbItem>,
    current_items: &Vec<LiveItem>,
) -> (changes: Vec<ListChange>)
    ensures
        changes.deep_view() == spec_diff(
            list_id@,
            list_name@,
            cached_items.deep_view(),
            current_items.deep_view(),
        ),
{
    let ghost lid = list_id@;
    let ghost lname = list_name@;
    let ghost cached = cached_items.deep_view();
    let ghost live = current_items.deep_view();

    let mut changes: Vec<ListChange> = Vec::new();

    // Added: in the fetched set but not in the mirror.
    let mut i: usize = 0;
    while i < current_items.len()
        invariant
            lid == list_id@,
            lname == list_name@,
            cached == cached_items.deep_view(),
            live == current_items.deep_view(),
            live.len() == current_items.len(),
            i <= current_items.len(),
            changes.deep_view() == spec_added_events(lid, lname, cached, live.take(i as int)),
        decreases current_items.len() - i,
    {
        let current_item = &current_items[i];
        proof {
            assert(live.take(i as int + 1).drop_last() =~= live.take(i as int));
            assert(live.take(i as int + 1).last() == live[i as int]);
        }
        if !cached_contains_id(cached_items, current_item.id.as_str()) {
            let info = ItemInfo::from_list_item(current_item);
            let user_id = clone_opt_string(&current_item.user_id);
            let ghost before = changes.deep_view();
            let change = ListChange::ItemAdded {
                list_id: list_id.to_owned(),
                list_name: list_name.to_owned(),
                item: info,
                user_id,
            };
            proof {
                assert(change@ == added_event(lid, lname, live[i as int]));
            }
            changes.push(change);
            proof {
                assert(changes.deep_view() =~~= before.push(added_event(lid, lname, live[i as int])));
                assert(changes.deep_view() =~= spec_added_events(
                    lid,
                    lname,
                    cached,
                    live.take(i as int + 1),
                ));
            }
        }
        i = i + 1;
    }
    proof {
        assert(live.take(live.len() as int) =~= live);
    }

    // Removed: in the mirror but not in the fetched set.
    let ghost added_full = spec_added_events(lid, lname, cached, live);
    let mut i: usize = 0;
    while i < cached_items.len()
        invariant
            lid == list_id@,
            lname == list_name@,
            cached == cached_items.deep_view(),
            live == current_items.deep_view(),
            cached.len() == cached_items.len(),
            i <= cached_items.len(),
            changes.deep_view() == added_full + spec_removed_events(
                lid,
                lname,
                cached.take(i as int),
                live,
            ),
        decreases cached_items.len() - i,
    {
        let cached_item = &cached_items[i];
        proof {
            assert(cached.take(i as int + 1).drop_last() =~= cached.take(i as int));
            assert(cached.take(i as int + 1).last() == cached[i as int]);
        }
        if !live_contains_id(current_items, cached_item.id.as_str()) {
            let user_id = clone_opt_string(&cached_item.user_id);
            let ghost before = changes.deep_view();
            changes.push(
                ListChange::ItemRemoved {
                    list_id: list_id.to_owned(),
                    list_name: list_name.to_owned(),
                    item_name: cached_item.name.clone(),
                    user_id,
                },
            );
            proof {
                assert(changes.deep_view() =~~= before.push(
                    removed_event(lid, lname, cached[i as int]),
                ));
                assert(changes.deep_view() =~= added_full + spec_removed_events(
                    lid,
                    lname,
                    cached.take(i as int + 1),
                    live,
                ));
            }
        }
        i = i + 1;
    }
    proof {
        assert(cached.take(cached.len() as int) =~= cached);
    }

    // Updated: in both sets, with a flipped checked flag or changed fields.
    let ghost removed_full = added_full + spec_removed_events(lid, lname, cached, live);
    let mut i: usize = 0;
    while i < current_items.len()
        invariant
            lid == list_id@,
            lname == list_name@,
            cached == cached_items.deep_view(),
            live == current_items.deep_view(),
            live.len() == current_items.len(),
            i <= current_items.len(),
            changes.deep_view() == removed_full + spec_update_events(
                lid,
                lname,
                cached,
                live.take(i as int),
            ),
        decreases current_items.len() - i,
    {
        let current_item = &current_items[i];
        proof {
            assert(live.take(i as int + 1).drop_last() =~= live.take(i as int));
            assert(live.take(i as int + 1).last() == live[i as int]);
        }
        if let Some(cached_item) = find_item(cached_items, current_item.id.as_str()) {
            let ghost c = cached_item.deep_view();
            let ghost l = live[i as int];
            if cached_item.is_checked != current_item.is_checked {
                let user_id = clone_opt_string(&current_item.user_id);
                let ghost before = changes.deep_view();
                if current_item.is_checked {
                    changes.push(
                        ListChange::ItemChecked {
                            list_id: list_id.to_owned(),
                            list_name: list_name.to_owned(),
                            item_name: current_item.name.clone(),
                            user_id,
                        },
                    );
                } else {
                    changes.push(
                        ListChange::ItemUnchecked {
                            list_id: list_id.to_owned(),
                            list_name: list_name.to_owned(),
                            item_name: current_item.name.clone(),
                            user_id,
                        },
                    );
                }
                proof {
                    assert(changes.deep_view() =~~= before.push(checked_event(lid, lname, l)));
                }
            }
            let field_changes = detect_field_changes(cached_item, current_item);
            if field_changes.len() > 0 {
                let user_id = clone_opt_string(&current_item.user_id);
                let ghost before = changes.deep_view();
                changes.push(
                    ListChange::ItemModified {
                        list_id: list_id.to_owned(),
                        list_name: list_name.to_owned(),
                        item_name: current_item.name.clone(),
                        changes: field_changes,
                        user_id,
                    },
                );
                proof {
                    assert(changes.deep_view() =~~= before.push(
                        modified_event(lid, lname, l, spec_field_changes(c, l)),
                    ));
                }
            }
            proof {
                assert(changes.deep_view() =~= removed_full + spec_update_events(
                    lid,
                    lname,
                    cached,
                    live.take(i as int),
                ) + spec_update_events_for(lid, lname, c, l));
                assert(changes.deep_view() =~= removed_full + spec_update_events(
                    lid,
                    lname,
                    cached,
                    live.take(i as int + 1),
                ));
            }
        } else {
            proof {
                assert(changes.deep_view() =~= removed_full + spec_update_events(
                    lid,
                    lname,
                    cached,
                    live.take(i as int + 1),
                ));
            }
        }
        i = i + 1;
    }
    proof {
        assert(live.take(live.len() as int) =~= live);
        assert(changes.deep_view() =~= spec_diff(lid, lname, cached, live));
    }

    changes
}

} // verus!

