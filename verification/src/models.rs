//! Data model: mirrored list and item records, and the plain-value snapshot
//! types that a fetch of the remote lists is converted into.
//!
//! Every executable type has a mathematical model (a `ghost` struct over
//! `Seq<char>` and `int`) reached through `DeepView`; all contracts in this
//! crate are stated over those models.

use vstd::prelude::*;

use crate::time::now_timestamp;

verus! {

/// Mathematical model of a mirrored list record.
#[verifier::ext_equal]
pub ghost struct ListModel {
    pub id: Seq<char>,
    pub name: Seq<char>,
    pub last_updated: int,
}

/// Mathematical model of a mirrored item record.
#[verifier::ext_equal]
pub ghost struct ItemModel {
    pub id: Seq<char>,
    pub list_id: Seq<char>,
    pub name: Seq<char>,
    pub details: Seq<char>,
    pub quantity: Option<Seq<char>>,
    pub category: Option<Seq<char>>,
    pub is_checked: bool,
    pub user_id: Option<Seq<char>>,
    pub last_seen: int,
}

/// Mathematical model of one item of a freshly fetched list.
#[verifier::ext_equal]
pub ghost struct LiveItemModel {
    pub id: Seq<char>,
    pub list_id: Seq<char>,
    pub name: Seq<char>,
    pub details: Seq<char>,
    pub quantity: Option<Seq<char>>,
    pub category: Option<Seq<char>>,
    pub is_checked: bool,
    pub user_id: Option<Seq<char>>,
}

/// Mathematical model of a shared-user entry of a fetched list.
#[verifier::ext_equal]
pub ghost struct SharedUserModel {
    pub user_id: Seq<char>,
    pub full_name: Option<Seq<char>>,
    pub email: Option<Seq<char>>,
}

/// Mathematical model of a freshly fetched list.
#[verifier::ext_equal]
pub ghost struct LiveListModel {
    pub id: Seq<char>,
    pub name: Seq<char>,
    pub items: Seq<LiveItemModel>,
    pub shared_users: Seq<SharedUserModel>,
}

/// Mirrored representation of a shopping list.
#[derive(Debug)]
pub struct DbList {
    pub id: String,
    pub name: String,
    /// Seconds since the epoch.
    pub last_updated: i64,
}

/// Mirrored representation of a list item.
#[derive(Debug)]
pub struct DbItem {
    pub id: String,
    pub list_id: String,
    pub name: String,
    pub details: String,
    pub quantity: Option<String>,
    pub category: Option<String>,
    pub is_checked: bool,
    pub user_id: Option<String>,
    /// Seconds since the epoch.
    pub last_seen: i64,
}

/// One item of a freshly fetched list, as plain values.
#[derive(Debug)]
pub struct LiveItem {
    pub id: String,
    pub list_id: String,
    pub name: String,
    pub details: String,
    pub quantity: Option<String>,
    pub category: Option<String>,
    pub is_checked: bool,
    pub user_id: Option<String>,
}

/// A shared user of a fetched list, as plain values.
#[derive(Debug)]
pub struct SharedUser {
    pub user_id: String,
    pub full_name: Option<String>,
    pub email: Option<String>,
}

/// A freshly fetched list, as plain values.
#[derive(Debug)]
pub struct LiveList {
    pub id: String,
    pub name: String,
    pub items: Vec<LiveItem>,
    pub shared_users: Vec<SharedUser>,
}

impl View for DbList {
    type V = ListModel;

    open spec fn view(&self) -> ListModel {
        ListModel { id: self.id@, name: self.name@, last_updated: self.last_updated as int }
    }
}

impl DeepView for DbList {
    type V = ListModel;

    open spec fn deep_view(&self) -> ListModel {
        self@
    }
}

impl View for DbItem {
    type V = ItemModel;

    open spec fn view(&self) -> ItemModel {
        ItemModel {
            id: self.id@,
            list_id: self.list_id@,
            name: self.name@,
            details: self.details@,
            quantity: self.quantity.deep_view(),
            category: self.category.deep_view(),
            is_checked: self.is_checked,
            user_id: self.user_id.deep_view(),
            last_seen: self.last_seen as int,
        }
    }
}

impl DeepView for DbItem {
    type V = ItemModel;

    open spec fn deep_view(&self) -> ItemModel {
        self@
    }
}

impl View for LiveItem {
    type V = LiveItemModel;

    open spec fn view(&self) -> LiveItemModel {
        LiveItemModel {
            id: self.id@,
            list_id: self.list_id@,
            name: self.name@,
            details: self.details@,
            quantity: self.quantity.deep_view(),
            category: self.category.deep_view(),
            is_checked: self.is_checked,
            user_id: self.user_id.deep_view(),
        }
    }
}

impl DeepView for LiveItem {
    type V = LiveItemModel;

    open spec fn deep_view(&self) -> LiveItemModel {
        self@
    }
}

impl View for SharedUser {
    type V = SharedUserModel;

    open spec fn view(&self) -> SharedUserModel {
        SharedUserModel {
            user_id: self.user_id@,
            full_name: self.full_name.deep_view(),
            email: self.email.deep_view(),
        }
    }
}

impl DeepView for SharedUser {
    type V = SharedUserModel;

    open spec fn deep_view(&self) -> SharedUserModel {
        self@
    }
}

impl View for LiveList {
    type V = LiveListModel;

    open spec fn view(&self) -> LiveListModel {
        LiveListModel {
            id: self.id@,
            name: self.name@,
            items: self.items.deep_view(),
            shared_users: self.shared_users.deep_view(),
        }
    }
}

impl DeepView for LiveList {
    type V = LiveListModel;

    open spec fn deep_view(&self) -> LiveListModel {
        self@
    }
}

impl DbList {
    /// A list record stamped with the current time.
    pub fn new(id: String, name: String) -> (r: Self)
        ensures
            r.id == id,
            r.name == name,
    {
        Self { id, name, last_updated: now_timestamp() }
    }

    /// The mirrored record of a freshly fetched list, stamped with the given
    /// observation time.
    pub fn from_live(list: &LiveList, updated: i64) -> (r: DbList)
        ensures
            r@ == list_of_live(list@, updated as int),
    {
        DbList { id: list.id.clone(), name: list.name.clone(), last_updated: updated }
    }
}

impl DbItem {
    /// An item record stamped with the current time.
    pub fn new(
        id: String,
        list_id: String,
        name: String,
        details: String,
        quantity: Option<String>,
        category: Option<String>,
        is_checked: bool,
        user_id: Option<String>,
    ) -> (r: Self)
        ensures
            r.id == id,
            r.list_id == list_id,
            r.name == name,
            r.details == details,
            r.quantity == quantity,
            r.category == category,
            r.is_checked == is_checked,
            r.user_id == user_id,
    {
        Self {
            id,
            list_id,
            name,
            details,
            quantity,
            category,
            is_checked,
            user_id,
            last_seen: now_timestamp(),
        }
    }

    /// The mirrored record of a freshly fetched item, stamped with the given
    /// observation time; every field of the fetched item is taken over.
    pub fn from_live(item: &LiveItem, seen: i64) -> (r: Self)
        ensures
            r.deep_view() == item_of_live(item.deep_view(), seen as int),
    {
        Self {
            id: item.id.clone(),
            list_id: item.list_id.clone(),
            name: item.name.clone(),
            details: item.details.clone(),
            quantity: clone_opt_string(&item.quantity),
            category: clone_opt_string(&item.category),
            is_checked: item.is_checked,
            user_id: clone_opt_string(&item.user_id),
            last_seen: seen,
        }
    }
}

/// The mirrored list record of a fetched list, observed at the given time.
pub open spec fn list_of_live(l: LiveListModel, updated: int) -> ListModel {
    ListModel { id: l.id, name: l.name, last_updated: updated }
}

/// The mirrored form of a fetched item, observed at the given time.
pub open spec fn item_of_live(it: LiveItemModel, seen: int) -> ItemModel {
    ItemModel {
        id: it.id,
        list_id: it.list_id,
        name: it.name,
        details: it.details,
        quantity: it.quantity,
        category: it.category,
        is_checked: it.is_checked,
        user_id: it.user_id,
        last_seen: seen,
    }
}

/// Copies an optional string, value for value.
pub fn clone_opt_string(s: &Option<String>) -> (r: Option<String>)
    ensures
        r == *s,
{
    match s {
        Some(v) => Some(v.clone()),
        None => None,
    }
}

impl Clone for DbList {
    fn clone(&self) -> (r: Self)
        ensures
            r == *self,
    {
        DbList { id: self.id.clone(), name: self.name.clone(), last_updated: self.last_updated }
    }
}

impl Clone for DbItem {
    fn clone(&self) -> (r: Self)
        ensures
            r == *self,
    {
        DbItem {
            id: self.id.clone(),
            list_id: self.list_id.clone(),
            name: self.name.clone(),
            details: self.details.clone(),
            quantity: clone_opt_string(&self.quantity),
            category: clone_opt_string(&self.category),
            is_checked: self.is_checked,
            user_id: clone_opt_string(&self.user_id),
            last_seen: self.last_seen,
        }
    }
}

impl Clone for LiveItem {
    fn clone(&self) -> (r: Self)
        ensures
            r == *self,
    {
        LiveItem {
            id: self.id.clone(),
            list_id: self.list_id.clone(),
            name: self.name.clone(),
            details: self.details.clone(),
            quantity: clone_opt_string(&self.quantity),
            category: clone_opt_string(&self.category),
            is_checked: self.is_checked,
            user_id: clone_opt_string(&self.user_id),
        }
    }
}

} // verus!
