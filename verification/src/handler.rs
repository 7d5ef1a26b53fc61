//! The sync orchestrator: drives one reconciliation cycle — read the mirror,
//! diff against the fetched snapshot, filter self-originated changes, render
//! notifications, persist the snapshot, and prune lists deleted remotely.
//!
//! Everything here is pure computation over the mirror store and the fetched
//! plain-value snapshot; fetching and delivery are the caller's I/O.

use vstd::prelude::*;

use crate::config::Config;
use crate::diff::{
    change_user_id, distinct_live_ids, str_eq, ChangeModel, ListChange,
};
use crate::models::{ItemModel, LiveList, LiveListModel, SharedUserModel};
use crate::models::{list_of_live, ListModel};
use crate::notify::{spec_body, spec_parse_tags, spec_priority, spec_tag_string, spec_title};
use crate::store::{snapshot_items, sweep_items, MirrorStore};

verus! {

/// A rendered notification, ready for the delivery sink.
#[derive(Debug)]
pub struct Notification {
    pub title: String,
    pub message: String,
    pub priority: String,
    pub tags: Vec<String>,
}

/// Mathematical model of [`Notification`].
#[verifier::ext_equal]
pub ghost struct NotificationModel {
    pub title: Seq<char>,
    pub message: Seq<char>,
    pub priority: Seq<char>,
    pub tags: Seq<Seq<char>>,
}

impl View for Notification {
    type V = NotificationModel;

    open spec fn view(&self) -> NotificationModel {
        NotificationModel {
            title: self.title@,
            message: self.message@,
            priority: self.priority@,
            tags: self.tags.deep_view(),
        }
    }
}

impl DeepView for Notification {
    type V = NotificationModel;

    open spec fn deep_view(&self) -> NotificationModel {
        self@
    }
}

/// A signal from the remote list provider's realtime stream. Only a
/// shopping-list change starts a reconciliation cycle; every other signal is
/// observed and ignored.
#[derive(Debug, PartialEq, Eq, Structural, Clone, Copy)]
pub enum SyncEvent {
    /// Shopping lists have changed; the mirror must be reconciled.
    ShoppingListsChanged,
    /// Categorized items have changed.
    CategorizedItemsChanged,
    /// List folders have changed.
    ListFoldersChanged,
    /// List settings have changed.
    ListSettingsChanged,
    /// Starter lists have changed.
    StarterListsChanged,
    /// Starter list order has changed.
    StarterListOrderChanged,
    /// Starter list settings have changed.
    StarterListSettingsChanged,
    /// Mobile app settings have changed.
    MobileAppSettingsChanged,
    /// User categories have changed.
    UserCategoriesChanged,
    /// Recipe data has changed.
    RecipeDataChanged,
    /// The meal plan calendar has changed.
    MealPlanCalendarChanged,
    /// Account info has changed.
    AccountInfoChanged,
    /// Subscription info has changed.
    SubscriptionInfoChanged,
    /// The account was deleted.
    AccountDeleted,
    /// A keep-alive, relevant only as a sign of liveness.
    Heartbeat,
}

/// Whether a signal starts a reconciliation cycle: only a shopping-list
/// change does.
pub fn event_triggers_sync(event: &SyncEvent) -> (r: bool)
    ensures
        r == (event is ShoppingListsChanged),
{
    match event {
        SyncEvent::ShoppingListsChanged => true,
        _ => false,
    }
}

/// Whether a change event survives self-filtering against the authenticated
/// user: an event attributed to that user is dropped; an event with no
/// attribution is always kept.
pub open spec fn keeps_change(c: ChangeModel, me: Seq<char>) -> bool {
    change_user_id(c) != Some(me)
}

/// The change events that survive self-filtering, in order.
pub open spec fn spec_filter_own(changes: Seq<ChangeModel>, me: Seq<char>) -> Seq<ChangeModel>
    decreases changes.len(),
{
    if changes.len() == 0 {
        Seq::<ChangeModel>::empty()
    } else {
        (if keeps_change(changes.first(), me) {
            seq![changes.first()]
        } else {
            Seq::<ChangeModel>::empty()
        }) + spec_filter_own(changes.drop_first(), me)
    }
}

/// Decides whether a change survives self-filtering.
fn keep_change(c: &ListChange, me: &str) -> (r: bool)
    ensures
        r == keeps_change(c@, me@),
{
    let user_id = match c {
        ListChange::ItemAdded { user_id, .. } => user_id,
        ListChange::ItemRemoved { user_id, .. } => user_id,
        ListChange::ItemChecked { user_id, .. } => user_id,
        ListChange::ItemUnchecked { user_id, .. } => user_id,
        ListChange::ItemModified { user_id, .. } => user_id,
    };
    match user_id {
        Some(id) => !str_eq(id.as_str(), me),
        None => true,
    }
}

/// The display name that a shared-user entry contributes: the full name if
/// present and non-empty, else the email if present, else the user id.
pub open spec fn display_name(u: SharedUserModel) -> Seq<char> {
    match u.full_name {
        Some(n) => if n.len() > 0 {
            n
        } else {
            match u.email {
                Some(e) => e,
                None => u.user_id,
            }
        },
        None => match u.email {
            Some(e) => e,
            None => u.user_id,
        },
    }
}

/// The directory after one list's shared users are added, in order.
pub open spec fn add_users(
    m: Map<Seq<char>, Seq<char>>,
    users: Seq<SharedUserModel>,
) -> Map<Seq<char>, Seq<char>>
    decreases users.len(),
{
    if users.len() == 0 {
        m
    } else {
        add_users(m, users.drop_last()).insert(users.last().user_id, display_name(users.last()))
    }
}

/// The directory after every fetched list's shared users are added.
pub open spec fn add_all_users(
    m: Map<Seq<char>, Seq<char>>,
    lists: Seq<LiveListModel>,
) -> Map<Seq<char>, Seq<char>>
    decreases lists.len(),
{
    if lists.len() == 0 {
        m
    } else {
        add_users(add_all_users(m, lists.drop_last()), lists.last().shared_users)
    }
}

/// One directory entry: a user id and the display name stored for it.
#[derive(Debug)]
pub struct UserEntry {
    pub user_id: String,
    pub name: String,
}

/// Mathematical model of [`UserEntry`].
#[verifier::ext_equal]
pub ghost struct UserEntryModel {
    pub uid_m: Seq<char>,
    pub name_m: Seq<char>,
}

impl View for UserEntry {
    type V = UserEntryModel;

    open spec fn view(&self) -> UserEntryModel {
        UserEntryModel { uid_m: self.user_id@, name_m: self.name@ }
    }
}

impl DeepView for UserEntry {
    type V = UserEntryModel;

    open spec fn deep_view(&self) -> UserEntryModel {
        self@
    }
}

/// The id-keyed map holding a sequence of directory entries; a later entry
/// with the same id overrides an earlier one.
pub open spec fn map_of_pairs(s: Seq<UserEntryModel>) -> Map<Seq<char>, Seq<char>>
    decreases s.len(),
{
    if s.len() == 0 {
        Map::<Seq<char>, Seq<char>>::empty()
    } else {
        map_of_pairs(s.drop_last()).insert(s.last().uid_m, s.last().name_m)
    }
}

/// Whether the keys within a sequence of directory entries are unique.
pub open spec fn distinct_keys(s: Seq<UserEntryModel>) -> bool {
    forall|i: int, j: int| 0 <= i < j < s.len() ==> s[i].uid_m != s[j].uid_m
}

/// The keys of the directory map are exactly the stored keys.
proof fn lemma_map_of_pairs_dom(s: Seq<UserEntryModel>)
    ensures
        map_of_pairs(s).dom().finite(),
        forall|k: Seq<char>| #![auto]
            map_of_pairs(s).contains_key(k) <==> exists|i: int| 0 <= i < s.len() && s[i].uid_m == k,
    decreases s.len(),
{
    if s.len() > 0 {
        lemma_map_of_pairs_dom(s.drop_last());
        let m = map_of_pairs(s);
        assert forall|k: Seq<char>| #![auto] m.contains_key(k) implies exists|i: int|
            0 <= i < s.len() && s[i].uid_m == k by {
            if k == s.last().uid_m {
                assert(s[s.len() - 1].uid_m == k);
            } else {
                let i = choose|i: int| 0 <= i < s.drop_last().len() && s.drop_last()[i].uid_m == k;
                assert(s[i].uid_m == k);
            }
        }
        assert forall|k: Seq<char>| #![auto]
            (exists|i: int| 0 <= i < s.len() && s[i].uid_m == k) implies m.contains_key(k) by {
            let i = choose|i: int| 0 <= i < s.len() && s[i].uid_m == k;
            if i < s.len() - 1 {
                assert(s.drop_last()[i].uid_m == k);
            }
        }
    }
}

/// With distinct keys, every stored entry is found under its key.
proof fn lemma_map_of_pairs_val(s: Seq<UserEntryModel>)
    requires
        distinct_keys(s),
    ensures
        forall|i: int| #![auto]
            0 <= i < s.len() ==> map_of_pairs(s).contains_key(s[i].uid_m) && map_of_pairs(
                s,
            )[s[i].uid_m] == s[i].name_m,
    decreases s.len(),
{
    if s.len() > 0 {
        assert(distinct_keys(s.drop_last()));
        lemma_map_of_pairs_val(s.drop_last());
        assert forall|i: int| #![auto] 0 <= i < s.len() implies map_of_pairs(s).contains_key(
            s[i].uid_m,
        ) && map_of_pairs(s)[s[i].uid_m] == s[i].name_m by {
            if i < s.len() - 1 {
                assert(s.drop_last()[i] == s[i]);
                assert(s[i].uid_m != s.last().uid_m);
            }
        }
    }
}

/// Replacing the entry at one position, key unchanged, is an insert on the
/// map.
proof fn lemma_map_of_pairs_update(s: Seq<UserEntryModel>, i: int, v: UserEntryModel)
    requires
        distinct_keys(s),
        0 <= i < s.len(),
        s[i].uid_m == v.uid_m,
    ensures
        map_of_pairs(s.update(i, v)) == map_of_pairs(s).insert(v.uid_m, v.name_m),
    decreases s.len(),
{
    let t = s.update(i, v);
    if i == s.len() - 1 {
        assert(t.drop_last() =~= s.drop_last());
        assert(map_of_pairs(t) =~= map_of_pairs(s).insert(v.uid_m, v.name_m));
    } else {
        assert(distinct_keys(s.drop_last()));
        assert(s.drop_last()[i].uid_m == v.uid_m);
        lemma_map_of_pairs_update(s.drop_last(), i, v);
        assert(t.drop_last() =~= s.drop_last().update(i, v));
        assert(t.last() == s.last());
        assert(s.last().uid_m != v.uid_m);
        assert(map_of_pairs(t) =~= map_of_pairs(s).insert(v.uid_m, v.name_m));
    }
}

/// The process-wide directory from user id to display name, rebuilt
/// additively from the shared users of every fetched list.
#[derive(Debug)]
pub struct UserDirectory {
    entries: Vec<UserEntry>,
}

impl View for UserDirectory {
    type V = Map<Seq<char>, Seq<char>>;

    closed spec fn view(&self) -> Map<Seq<char>, Seq<char>> {
        map_of_pairs(self.entries.deep_view())
    }
}

impl UserDirectory {
    /// The directory's internal invariant: one entry per user id.
    pub closed spec fn wf(&self) -> bool {
        distinct_keys(self.entries.deep_view())
    }

    /// An empty directory.
    pub fn new() -> (r: Self)
        ensures
            r.wf(),
            r@ == Map::<Seq<char>, Seq<char>>::empty(),
    {
        let r = UserDirectory { entries: Vec::new() };
        proof {
            assert(r.entries.deep_view() =~= Seq::<UserEntryModel>::empty());
        }
        r
    }

    /// Adds or overwrites one user's display name; entries are never
    /// removed.
    pub fn insert(&mut self, user_id: String, name: String)
        requires
            old(self).wf(),
        ensures
            final(self).wf(),
            final(self)@ == old(self)@.insert(user_id@, name@),
    {
        let ghost model = self.entries.deep_view();
        let mut i: usize = 0;
        while i < self.entries.len()
            invariant
                *self == *old(self),
                model == self.entries.deep_view(),
                model.len() == self.entries.len(),
                i <= self.entries.len(),
                self.wf(),
                forall|k: int| 0 <= k < i ==> model[k].uid_m != user_id@,
            decreases self.entries.len() - i,
        {
            if str_eq(self.entries[i].user_id.as_str(), user_id.as_str()) {
                let ghost entry_model = UserEntryModel { uid_m: user_id@, name_m: name@ };
                self.entries.remove(i);
                self.entries.insert(i, UserEntry { user_id, name });
                proof {
                    assert(self.entries.deep_view() =~= model.update(i as int, entry_model));
                    lemma_map_of_pairs_update(model, i as int, entry_model);
                    assert(distinct_keys(self.entries.deep_view()));
                }
                return ;
            }
            i = i + 1;
        }
        let ghost entry_model = UserEntryModel { uid_m: user_id@, name_m: name@ };
        self.entries.push(UserEntry { user_id, name });
        proof {
            let new_dv = self.entries.deep_view();
            assert(new_dv =~= model.push(entry_model));
            assert(new_dv.drop_last() =~= model);
            assert forall|p: int, q: int|
                0 <= p < q < new_dv.len() implies new_dv[p].uid_m != new_dv[q].uid_m by {
                if q == model.len() {
                    assert(model[p].uid_m != user_id@);
                }
            }
        }
    }

    /// The display name stored for a user id, if any.
    pub fn get(&self, user_id: &str) -> (r: Option<String>)
        requires
            self.wf(),
        ensures
            match r {
                Some(name) => self@.contains_key(user_id@) && name@ == self@[user_id@],
                None => !self@.contains_key(user_id@),
            },
    {
        let ghost model = self.entries.deep_view();
        proof {
            lemma_map_of_pairs_dom(model);
            lemma_map_of_pairs_val(model);
        }
        let mut i: usize = 0;
        while i < self.entries.len()
            invariant
                model == self.entries.deep_view(),
                model.len() == self.entries.len(),
                i <= self.entries.len(),
                self.wf(),
                forall|k: int| 0 <= k < i ==> model[k].uid_m != user_id@,
            decreases self.entries.len() - i,
        {
            if str_eq(self.entries[i].user_id.as_str(), user_id) {
                proof {
                    lemma_map_of_pairs_val(model);
                    assert(model[i as int].uid_m == user_id@);
                    assert(self@.contains_key(user_id@));
                    assert(self@[user_id@] == model[i as int].name_m);
                }
                return Some(self.entries[i].name.clone());
            }
            i = i + 1;
        }
        proof {
            lemma_map_of_pairs_dom(model);
            if self@.contains_key(user_id@) {
                let k = choose|k: int| 0 <= k < model.len() && model[k].uid_m == user_id@;
                assert(false);
            }
        }
        None
    }
}

/// Whether a fetched list is well-formed: its items carry distinct ids (the
/// set is id-keyed) and each item names this list as its owner.
pub open spec fn live_list_wf(l: LiveListModel) -> bool {
    distinct_live_ids(l.items) && (forall|i: int|
        0 <= i < l.items.len() ==> (#[trigger] l.items[i]).list_id == l.id)
}

/// Decides whether a fetched list is well-formed; a fetch that fails this
/// check is a malformed payload and aborts the cycle.
pub fn live_list_is_wf(list: &LiveList) -> (r: bool)
    ensures
        r == live_list_wf(list@),
{
    if !crate::diff::live_items_have_distinct_ids(&list.items) {
        return false;
    }
    let ghost items = list@.items;
    let mut i: usize = 0;
    while i < list.items.len()
        invariant
            items == list@.items,
            items.len() == list.items.len(),
            i <= list.items.len(),
            forall|k: int| 0 <= k < i ==> (#[trigger] items[k]).list_id == list@.id,
        decreases list.items.len() - i,
    {
        if !str_eq(list.items[i].list_id.as_str(), list.id.as_str()) {
            proof {
                assert(items[i as int].list_id != list@.id);
                assert(!live_list_wf(list@));
            }
            return false;
        }
        i = i + 1;
    }
    true
}

/// Decides whether every fetched list is well-formed.
pub fn live_lists_are_wf(lists: &Vec<LiveList>) -> (r: bool)
    ensures
        r == (forall|i: int|
            0 <= i < lists.deep_view().len() ==> live_list_wf(#[trigger] lists.deep_view()[i])),
{
    let ghost model = lists.deep_view();
    let mut i: usize = 0;
    while i < lists.len()
        invariant
            model == lists.deep_view(),
            model.len() == lists.len(),
            i <= lists.len(),
            forall|k: int| 0 <= k < i ==> live_list_wf(#[trigger] model[k]),
        decreases lists.len() - i,
    {
        if !live_list_is_wf(&lists[i]) {
            proof {
                assert(model[i as int] == lists@[i as int]@);
                assert(!live_list_wf(model[i as int]));
            }
            return false;
        }
        i = i + 1;
    }
    true
}

/// The sync orchestrator's state: the mirror, the configuration, the
/// authenticated user (for self-filtering) and the user directory.
#[derive(Debug)]
pub struct SyncHandler {
    pub cache: MirrorStore,
    pub config: Config,
    pub authenticated_user_id: String,
    pub users: UserDirectory,
}

impl SyncHandler {
    /// The orchestrator's invariant: mirror and directory are id-keyed.
    pub open spec fn wf(&self) -> bool {
        self.cache.wf() && self.users.wf()
    }

    /// An orchestrator over the given mirror, with an empty user directory.
    pub fn new(cache: MirrorStore, config: Config, authenticated_user_id: String) -> (r: Self)
        requires
            cache.wf(),
        ensures
            r.wf(),
            r.cache == cache,
            r.config == config,
            r.authenticated_user_id == authenticated_user_id,
            r.users@ == Map::<Seq<char>, Seq<char>>::empty(),
    {
        SyncHandler { cache, config, authenticated_user_id, users: UserDirectory::new() }
    }

    /// The display name recorded for a user id, if any.
    pub fn get_user_name(&self, user_id: &str) -> (r: Option<String>)
        requires
            self.wf(),
        ensures
            match r {
                Some(name) => self.users@.contains_key(user_id@) && name@
                    == self.users@[user_id@],
                None => !self.users@.contains_key(user_id@),
            },
    {
        self.users.get(user_id)
    }

    /// Drops every change event attributed to the authenticated user; events
    /// without attribution are always kept.
    pub fn filter_own_changes(&self, changes: Vec<ListChange>) -> (r: Vec<ListChange>)
        ensures
            r.deep_view() == spec_filter_own(
                changes.deep_view(),
                self.authenticated_user_id@,
            ),
    {
        let ghost orig = changes.deep_view();
        let ghost me = self.authenticated_user_id@;
        let mut rest = changes;
        let mut out: Vec<ListChange> = Vec::new();
        proof {
            assert(out.deep_view() + spec_filter_own(rest.deep_view(), me) =~= spec_filter_own(
                orig,
                me,
            ));
        }
        while rest.len() > 0
            invariant
                me == self.authenticated_user_id@,
                out.deep_view() + spec_filter_own(rest.deep_view(), me) == spec_filter_own(
                    orig,
                    me,
                ),
            decreases rest.len(),
        {
            let ghost rest_before = rest.deep_view();
            let ghost out_before = out.deep_view();
            let c = rest.remove(0);
            proof {
                assert(rest_before.first() == c@);
                assert(rest.deep_view() =~= rest_before.drop_first());
            }
            if keep_change(&c, self.authenticated_user_id.as_str()) {
                out.push(c);
                proof {
                    assert(out.deep_view() =~= out_before.push(rest_before.first()));
                    assert(out.deep_view() + spec_filter_own(rest.deep_view(), me)
                        =~= spec_filter_own(orig, me));
                }
            } else {
                proof {
                    assert(out.deep_view() + spec_filter_own(rest.deep_view(), me)
                        =~= spec_filter_own(orig, me));
                }
            }
        }
        proof {
            assert(rest.deep_view().len() == 0);
            assert(out.deep_view() =~= spec_filter_own(orig, me));
        }
        out
    }


    /// Reconciles one list: diffs the mirrored items against the fetched
    /// snapshot, self-filters if configured, renders the surviving events,
    /// then persists the snapshot and sweeps this list's stale items — the
    /// mirror converges whatever becomes of the notifications.
    pub fn process_list_changes(&mut self, list: &LiveList, now: i64) -> (r: Vec<Notification>)
        requires
            old(self).wf(),
            live_list_wf(list@),
        ensures
            final(self).wf(),
            final(self).config == old(self).config,
            final(self).authenticated_user_id == old(self).authenticated_user_id,
            final(self).users == old(self).users,
            final(self).cache@.lists == old(self).cache@.lists.insert(
                list@.id,
                list_of_live(list@, now as int),
            ),
            final(self).cache@.items == sweep_items(
                old(self).cache@.items.union_prefer_right(snapshot_items(list@.items, now as int)),
                list@.id,
                now as int,
            ),
            exists|cached: Seq<ItemModel>|
                enumerates_list_items(cached, old(self).cache@.items, list@.id)
                    && r.deep_view() == list_notifications(
                    &old(self).config,
                    old(self).authenticated_user_id@,
                    cached,
                    list@,
                ),
    {
        let cached_items = self.cache.get_items(list.id.as_str());
        let ghost cached = cached_items.deep_view();
        proof {
            assert(enumerates_list_items(cached, self.cache@.items, list@.id));
        }

        let changes = crate::diff::detect_changes(
            list.id.as_str(),
            list.name.as_str(),
            &cached_items,
            &list.items,
        );
        proof {
            assert(list.items.deep_view() == list@.items);
        }
        let changes = if self.config.notifications.filter_own_changes {
            self.filter_own_changes(changes)
        } else {
            changes
        };
        let ghost surviving = surviving_changes(
            &self.config,
            self.authenticated_user_id@,
            cached,
            list@,
        );
        proof {
            assert(changes.deep_view() == surviving);
        }

        let mut notifications: Vec<Notification> = Vec::new();
        let mut i: usize = 0;
        proof {
            assert(notifications.deep_view() =~= render_all(
                &self.config.ntfy,
                surviving.take(0),
            ));
        }
        while i < changes.len()
            invariant
                *self == *old(self),
                changes.deep_view() == surviving,
                surviving.len() == changes.len(),
                i <= changes.len(),
                notifications.deep_view() == render_all(
                    &self.config.ntfy,
                    surviving.take(i as int),
                ),
            decreases changes.len() - i,
        {
            proof {
                assert(surviving.take(i as int + 1).drop_last() =~= surviving.take(i as int));
                assert(surviving.take(i as int + 1).last() == surviving[i as int]);
            }
            let rendered = self.config.ntfy.format_notification(&changes[i]);
            let ghost before = notifications.deep_view();
            let (title, message, priority, tags) = rendered;
            notifications.push(Notification { title, message, priority, tags });
            proof {
                assert(notifications.deep_view() =~= before.push(
                    render_one(&self.config.ntfy, surviving[i as int]),
                ));
            }
            i = i + 1;
        }
        proof {
            assert(surviving.take(surviving.len() as int) =~= surviving);
        }

        self.cache.sync_list_at(list, now);
        let _removed = self.cache.delete_stale_items(list.id.as_str(), now);
        notifications
    }


    /// Deletes from the mirror every list whose id the fetch no longer
    /// carries, items cascading with their list; fetched lists and unrelated
    /// items are untouched.
    pub fn detect_deleted_lists(&mut self, current_lists: &Vec<LiveList>)
        requires
            old(self).wf(),
        ensures
            final(self).wf(),
            final(self).config == old(self).config,
            final(self).authenticated_user_id == old(self).authenticated_user_id,
            final(self).users == old(self).users,
            final(self).cache@.lists == surviving_lists(
                old(self).cache@.lists,
                current_lists.deep_view(),
            ),
            final(self).cache@.items == surviving_items(
                old(self).cache@.items,
                old(self).cache@.lists,
                current_lists.deep_view(),
            ),
    {
        let ghost ls = current_lists.deep_view();
        let ghost lists0 = self.cache@.lists;
        let ghost items0 = self.cache@.items;
        let cached_lists = self.cache.get_all_lists();
        let ghost cdv = cached_lists.deep_view();
        let mut i: usize = 0;
        proof {
            assert(self.cache@.lists =~= Map::new(
                |k: Seq<char>|
                    lists0.contains_key(k) && !(prefix_has_id(cdv, 0, k) && !has_live_list_id(
                        ls,
                        k,
                    )),
                |k: Seq<char>| lists0[k],
            ));
            assert(self.cache@.items =~= Map::new(
                |k: Seq<char>|
                    items0.contains_key(k) && !(prefix_has_id(cdv, 0, items0[k].list_id)
                        && !has_live_list_id(ls, items0[k].list_id)),
                |k: Seq<char>| items0[k],
            ));
        }
        while i < cached_lists.len()
            invariant
                self.wf(),
                self.config == old(self).config,
                self.authenticated_user_id == old(self).authenticated_user_id,
                self.users == old(self).users,
                ls == current_lists.deep_view(),
                lists0 == old(self).cache@.lists,
                items0 == old(self).cache@.items,
                cdv == cached_lists.deep_view(),
                cdv.len() == cached_lists.len(),
                i <= cached_lists.len(),
                forall|j: int| #![auto]
                    0 <= j < cdv.len() ==> lists0.contains_key(cdv[j].id) && lists0[cdv[j].id]
                        == cdv[j],
                forall|k: Seq<char>| #![auto]
                    lists0.contains_key(k) ==> exists|j: int|
                        0 <= j < cdv.len() && cdv[j].id == k,
                self.cache@.lists == Map::new(
                    |k: Seq<char>|
                        lists0.contains_key(k) && !(prefix_has_id(cdv, i as int, k)
                            && !has_live_list_id(ls, k)),
                    |k: Seq<char>| lists0[k],
                ),
                self.cache@.items == Map::new(
                    |k: Seq<char>|
                        items0.contains_key(k) && !(prefix_has_id(cdv, i as int, items0[k].list_id)
                            && !has_live_list_id(ls, items0[k].list_id)),
                    |k: Seq<char>| items0[k],
                ),
            decreases cached_lists.len() - i,
        {
            let ghost lists_before = self.cache@.lists;
            let ghost items_before = self.cache@.items;
            let ghost cur_id = cdv[i as int].id;
            proof {
                assert forall|k: Seq<char>|
                    prefix_has_id(cdv, i as int + 1, k) == (prefix_has_id(cdv, i as int, k) || k
                        == cur_id) by {
                    if prefix_has_id(cdv, i as int + 1, k) {
                        let q = choose|q: int| 0 <= q < i + 1 && (#[trigger] cdv[q]).id == k;
                        if q < i {
                            assert(prefix_has_id(cdv, i as int, k));
                        }
                    }
                    if prefix_has_id(cdv, i as int, k) {
                        let q = choose|q: int| 0 <= q < i && (#[trigger] cdv[q]).id == k;
                        assert(prefix_has_id(cdv, i as int + 1, k));
                    }
                    if k == cur_id {
                        assert(cdv[i as int].id == k);
                        assert(prefix_has_id(cdv, i as int + 1, k));
                    }
                }
            }
            if !live_lists_contain_id(current_lists, cached_lists[i].id.as_str()) {
                self.cache.delete_list(cached_lists[i].id.as_str());
                proof {
                    assert(cached_lists@[i as int]@ == cdv[i as int]);
                    assert(self.cache@.lists =~= Map::new(
                        |k: Seq<char>|
                            lists0.contains_key(k) && !(prefix_has_id(cdv, i as int + 1, k)
                                && !has_live_list_id(ls, k)),
                        |k: Seq<char>| lists0[k],
                    ));
                    assert(self.cache@.items =~= Map::new(
                        |k: Seq<char>|
                            items0.contains_key(k) && !(prefix_has_id(
                                cdv,
                                i as int + 1,
                                items0[k].list_id,
                            ) && !has_live_list_id(ls, items0[k].list_id)),
                        |k: Seq<char>| items0[k],
                    ));
                }
            } else {
                proof {
                    assert(cached_lists@[i as int]@ == cdv[i as int]);
                    assert(has_live_list_id(ls, cur_id));
                    assert(self.cache@.lists =~= Map::new(
                        |k: Seq<char>|
                            lists0.contains_key(k) && !(prefix_has_id(cdv, i as int + 1, k)
                                && !has_live_list_id(ls, k)),
                        |k: Seq<char>| lists0[k],
                    ));
                    assert(self.cache@.items =~= Map::new(
                        |k: Seq<char>|
                            items0.contains_key(k) && !(prefix_has_id(
                                cdv,
                                i as int + 1,
                                items0[k].list_id,
                            ) && !has_live_list_id(ls, items0[k].list_id)),
                        |k: Seq<char>| items0[k],
                    ));
                }
            }
            i = i + 1;
        }
        proof {
            assert forall|k: Seq<char>|
                lists0.contains_key(k) implies prefix_has_id(cdv, cdv.len() as int, k) by {
                let j = choose|j: int| 0 <= j < cdv.len() && (#[trigger] cdv[j]).id == k;
            }
            assert(self.cache@.lists =~= surviving_lists(lists0, ls));
            assert(self.cache@.items =~= surviving_items(items0, lists0, ls));
        }
    }


    /// Seeds the mirror once at startup: records every fetched list's shared
    /// users, then persists every snapshot — no diffing, no notifications,
    /// no deletion.
    pub fn initialize_cache(&mut self, lists: &Vec<LiveList>, now: i64)
        requires
            old(self).wf(),
        ensures
            final(self).wf(),
            final(self).config == old(self).config,
            final(self).authenticated_user_id == old(self).authenticated_user_id,
            final(self).users@ == add_all_users(old(self).users@, lists.deep_view()),
            final(self).cache@.lists == lists_after_sync(
                old(self).cache@.lists,
                lists.deep_view(),
                now as int,
            ),
            final(self).cache@.items == seed_items(
                old(self).cache@.items,
                lists.deep_view(),
                now as int,
            ),
    {
        let ghost ls = lists.deep_view();
        let ghost lists0 = self.cache@.lists;
        let ghost items0 = self.cache@.items;
        let ghost users_target = add_all_users(self.users@, ls);
        self.update_user_names(lists);
        let mut i: usize = 0;
        while i < lists.len()
            invariant
                self.wf(),
                self.config == old(self).config,
                self.authenticated_user_id == old(self).authenticated_user_id,
                self.users@ == users_target,
                ls == lists.deep_view(),
                ls.len() == lists.len(),
                i <= lists.len(),
                self.cache@.lists == lists_after_sync(lists0, ls.take(i as int), now as int),
                self.cache@.items == seed_items(items0, ls.take(i as int), now as int),
            decreases lists.len() - i,
        {
            proof {
                assert(ls.take(i as int + 1).drop_last() =~= ls.take(i as int));
                assert(ls.take(i as int + 1).last() == ls[i as int]);
            }
            self.cache.sync_list_at(&lists[i], now);
            proof {
                assert(lists@[i as int]@ == ls[i as int]);
            }
            i = i + 1;
        }
        proof {
            assert(ls.take(ls.len() as int) =~= ls);
        }
    }

    /// One full reconciliation cycle over a fetched snapshot set: records
    /// shared users, reconciles each list in order (diff, filter, render,
    /// persist), then prunes lists deleted remotely. Returns the rendered
    /// notifications to dispatch; the mirror converges whatever becomes of
    /// them.
    pub fn handle_shopping_lists_changed(
        &mut self,
        current_lists: &Vec<LiveList>,
        now: i64,
    ) -> (r: Vec<Notification>)
        requires
            old(self).wf(),
            forall|i: int|
                0 <= i < current_lists.deep_view().len() ==> live_list_wf(
                    #[trigger] current_lists.deep_view()[i],
                ),
        ensures
            final(self).wf(),
            final(self).config == old(self).config,
            final(self).authenticated_user_id == old(self).authenticated_user_id,
            final(self).users@ == add_all_users(old(self).users@, current_lists.deep_view()),
            final(self).cache@.lists == surviving_lists(
                lists_after_sync(old(self).cache@.lists, current_lists.deep_view(), now as int),
                current_lists.deep_view(),
            ),
            final(self).cache@.items == surviving_items(
                items_after_sync(old(self).cache@.items, current_lists.deep_view(), now as int),
                lists_after_sync(old(self).cache@.lists, current_lists.deep_view(), now as int),
                current_lists.deep_view(),
            ),
            exists|obs: Seq<Seq<ItemModel>>|
                cycle_notifications_ok(
                    &old(self).config,
                    old(self).authenticated_user_id@,
                    old(self).cache@.items,
                    current_lists.deep_view(),
                    now as int,
                    obs,
                    r.deep_view(),
                ),
    {
        let ghost ls = current_lists.deep_view();
        let ghost lists0 = self.cache@.lists;
        let ghost items0 = self.cache@.items;
        let ghost users_target = add_all_users(self.users@, ls);
        let ghost cfg = self.config;
        let ghost me = self.authenticated_user_id@;
        self.update_user_names(current_lists);

        let mut notifications: Vec<Notification> = Vec::new();
        let ghost mut obs: Seq<Seq<ItemModel>> = Seq::empty();
        let mut i: usize = 0;
        while i < current_lists.len()
            invariant
                self.wf(),
                self.config == old(self).config,
                self.config == cfg,
                self.authenticated_user_id == old(self).authenticated_user_id,
                me == self.authenticated_user_id@,
                self.users@ == users_target,
                ls == current_lists.deep_view(),
                ls.len() == current_lists.len(),
                forall|k: int| 0 <= k < ls.len() ==> live_list_wf(#[trigger] ls[k]),
                i <= current_lists.len(),
                obs.len() == i,
                self.cache@.lists == lists_after_sync(lists0, ls.take(i as int), now as int),
                self.cache@.items == items_after_sync(items0, ls.take(i as int), now as int),
                forall|k: int|
                    0 <= k < i ==> enumerates_list_items(
                        #[trigger] obs[k],
                        items_after_sync(items0, ls.take(k), now as int),
                        ls[k].id,
                    ),
                notifications.deep_view() == concat_notifs(&cfg, me, ls, obs, i as int),
            decreases current_lists.len() - i,
        {
            proof {
                assert(ls.take(i as int + 1).drop_last() =~= ls.take(i as int));
                assert(ls.take(i as int + 1).last() == ls[i as int]);
                assert(current_lists@[i as int]@ == ls[i as int]);
            }
            let ghost items_before = self.cache@.items;
            let mut per_list = self.process_list_changes(&current_lists[i], now);
            proof {
                let cached = choose|cached: Seq<ItemModel>|
                    enumerates_list_items(cached, items_before, ls[i as int].id)
                        && per_list.deep_view() == list_notifications(
                        &cfg,
                        me,
                        cached,
                        ls[i as int],
                    );
                lemma_concat_notifs_push(&cfg, me, ls, obs, cached, i as int);
                obs = obs.push(cached);
            }
            let ghost notifs_before = notifications.deep_view();
            let ghost per_model = per_list.deep_view();
            notifications.append(&mut per_list);
            proof {
                assert(notifications.deep_view() =~= notifs_before + per_model);
                assert(notifications.deep_view() =~= concat_notifs(
                    &cfg,
                    me,
                    ls,
                    obs,
                    i as int + 1,
                ));
            }
            i = i + 1;
        }
        proof {
            assert(ls.take(ls.len() as int) =~= ls);
        }
        self.detect_deleted_lists(current_lists);
        proof {
            assert(cycle_notifications_ok(
                &cfg,
                me,
                items0,
                ls,
                now as int,
                obs,
                notifications.deep_view(),
            ));
        }
        notifications
    }

    /// Rebuilds the user directory, additively, from the shared users of
    /// every fetched list; existing entries may be overwritten, never
    /// removed.
    pub fn update_user_names(&mut self, lists: &Vec<LiveList>)
        requires
            old(self).wf(),
        ensures
            final(self).wf(),
            final(self).cache == old(self).cache,
            final(self).config == old(self).config,
            final(self).authenticated_user_id == old(self).authenticated_user_id,
            final(self).users@ == add_all_users(old(self).users@, lists.deep_view()),
    {
        let ghost ls = lists.deep_view();
        let ghost users0 = self.users@;
        let mut i: usize = 0;
        proof {
            assert(add_all_users(users0, ls.take(0)) == users0);
        }
        while i < lists.len()
            invariant
                self.wf(),
                self.cache == old(self).cache,
                self.config == old(self).config,
                self.authenticated_user_id == old(self).authenticated_user_id,
                ls == lists.deep_view(),
                ls.len() == lists.len(),
                users0 == old(self).users@,
                i <= lists.len(),
                self.users@ == add_all_users(users0, ls.take(i as int)),
            decreases lists.len() - i,
        {
            let list = &lists[i];
            let ghost sus = list@.shared_users;
            let ghost dir0 = self.users@;
            let mut u: usize = 0;
            proof {
                assert(ls.take(i as int + 1).drop_last() =~= ls.take(i as int));
                assert(ls.take(i as int + 1).last() == ls[i as int]);
                assert(add_users(dir0, sus.take(0)) == dir0);
            }
            while u < list.shared_users.len()
                invariant
                    self.wf(),
                    self.cache == old(self).cache,
                    self.config == old(self).config,
                    self.authenticated_user_id == old(self).authenticated_user_id,
                    list == &lists@[i as int],
                    sus == list@.shared_users,
                    sus.len() == list.shared_users.len(),
                    u <= list.shared_users.len(),
                    self.users@ == add_users(dir0, sus.take(u as int)),
                decreases list.shared_users.len() - u,
            {
                let su = &list.shared_users[u];
                proof {
                    assert(sus.take(u as int + 1).drop_last() =~= sus.take(u as int));
                    assert(sus.take(u as int + 1).last() == sus[u as int]);
                }
                let shown: String = match &su.full_name {
                    Some(n) => if !n.as_str().is_empty() {
                        n.clone()
                    } else {
                        match &su.email {
                            Some(e) => e.clone(),
                            None => su.user_id.clone(),
                        }
                    },
                    None => match &su.email {
                        Some(e) => e.clone(),
                        None => su.user_id.clone(),
                    },
                };
                proof {
                    assert(shown@ == display_name(sus[u as int]));
                }
                self.users.insert(su.user_id.clone(), shown);
                proof {
                    assert(self.users@ =~= add_users(dir0, sus.take(u as int + 1)));
                }
                u = u + 1;
            }
            proof {
                assert(sus.take(sus.len() as int) =~= sus);
                assert(self.users@ == add_users(dir0, sus));
                assert(self.users@ == add_all_users(users0, ls.take(i as int + 1)));
            }
            i = i + 1;
        }
        proof {
            assert(ls.take(ls.len() as int) =~= ls);
        }
    }
}

/// Whether a sequence enumerates, exactly once each, the mirrored items of
/// one list.
pub open spec fn enumerates_list_items(
    cached: Seq<ItemModel>,
    items: Map<Seq<char>, ItemModel>,
    list_id: Seq<char>,
) -> bool {
    &&& crate::diff::distinct_item_ids(cached)
    &&& forall|j: int| #![auto]
        0 <= j < cached.len() ==> cached[j].list_id == list_id && items.contains_key(cached[j].id)
            && items[cached[j].id] == cached[j]
    &&& forall|k: Seq<char>| #![auto]
        items.contains_key(k) && items[k].list_id == list_id ==> exists|j: int|
            0 <= j < cached.len() && cached[j].id == k
}

/// One change event rendered for delivery.
pub open spec fn render_one(cfg: &crate::config::NtfyConfig, c: ChangeModel) -> NotificationModel {
    NotificationModel {
        title: spec_title(c),
        message: spec_body(c),
        priority: spec_priority(&cfg.priorities, c),
        tags: spec_parse_tags(spec_tag_string(&cfg.tags, c)),
    }
}

/// A sequence of change events rendered for delivery, in order.
pub open spec fn render_all(
    cfg: &crate::config::NtfyConfig,
    changes: Seq<ChangeModel>,
) -> Seq<NotificationModel>
    decreases changes.len(),
{
    if changes.len() == 0 {
        Seq::<NotificationModel>::empty()
    } else {
        render_all(cfg, changes.drop_last()).push(render_one(cfg, changes.last()))
    }
}

/// The change events of one list that are dispatched: the diff of the
/// mirrored items against the fetched items, self-filtered when configured.
pub open spec fn surviving_changes(
    cfg: &Config,
    me: Seq<char>,
    cached: Seq<ItemModel>,
    l: LiveListModel,
) -> Seq<ChangeModel> {
    let diff = crate::diff::spec_diff(l.id, l.name, cached, l.items);
    if cfg.notifications.filter_own_changes {
        spec_filter_own(diff, me)
    } else {
        diff
    }
}

/// The notifications dispatched for one list's reconciliation.
pub open spec fn list_notifications(
    cfg: &Config,
    me: Seq<char>,
    cached: Seq<ItemModel>,
    l: LiveListModel,
) -> Seq<NotificationModel> {
    render_all(&cfg.ntfy, surviving_changes(cfg, me, cached, l))
}

/// Whether some fetched list carries the given id.
pub open spec fn has_live_list_id(ls: Seq<LiveListModel>, k: Seq<char>) -> bool {
    exists|i: int| 0 <= i < ls.len() && (#[trigger] ls[i]).id == k
}

/// Whether one of the first `n` list records carries the given id.
pub open spec fn prefix_has_id(c: Seq<ListModel>, n: int, k: Seq<char>) -> bool {
    exists|q: int| 0 <= q < n && (#[trigger] c[q]).id == k
}

/// The list table after the deleted-list sweep: exactly the mirrored lists
/// whose ids the fetch still carries.
pub open spec fn surviving_lists(
    lists: Map<Seq<char>, ListModel>,
    live: Seq<LiveListModel>,
) -> Map<Seq<char>, ListModel> {
    Map::new(
        |k: Seq<char>| lists.contains_key(k) && has_live_list_id(live, k),
        |k: Seq<char>| lists[k],
    )
}

/// The item table after the deleted-list sweep: an item falls only with its
/// list — when its owning list was mirrored and the fetch no longer carries
/// that id.
pub open spec fn surviving_items(
    items: Map<Seq<char>, ItemModel>,
    lists: Map<Seq<char>, ListModel>,
    live: Seq<LiveListModel>,
) -> Map<Seq<char>, ItemModel> {
    Map::new(
        |k: Seq<char>|
            items.contains_key(k) && !(lists.contains_key(items[k].list_id) && !has_live_list_id(
                live,
                items[k].list_id,
            )),
        |k: Seq<char>| items[k],
    )
}

/// Decides whether some fetched list carries the given id.
fn live_lists_contain_id(lists: &Vec<LiveList>, id: &str) -> (r: bool)
    ensures
        r == has_live_list_id(lists.deep_view(), id@),
{
    let ghost model = lists.deep_view();
    let mut i: usize = 0;
    while i < lists.len()
        invariant
            model == lists.deep_view(),
            model.len() == lists.len(),
            i <= lists.len(),
            forall|k: int| 0 <= k < i ==> (#[trigger] model[k]).id != id@,
        decreases lists.len() - i,
    {
        if str_eq(lists[i].id.as_str(), id) {
            proof {
                assert(model[i as int].id == id@);
            }
            return true;
        }
        i = i + 1;
    }
    proof {
        if has_live_list_id(model, id@) {
            let k = choose|k: int| 0 <= k < model.len() && (#[trigger] model[k]).id == id@;
            assert(false);
        }
    }
    false
}

/// The list table after every fetched list's snapshot is applied, in order.
pub open spec fn lists_after_sync(
    m: Map<Seq<char>, ListModel>,
    live: Seq<LiveListModel>,
    now: int,
) -> Map<Seq<char>, ListModel>
    decreases live.len(),
{
    if live.len() == 0 {
        m
    } else {
        lists_after_sync(m, live.drop_last(), now).insert(
            live.last().id,
            list_of_live(live.last(), now),
        )
    }
}

/// The item table after the mirror is seeded with every fetched snapshot, in
/// order, with no stale-item sweep.
pub open spec fn seed_items(
    m: Map<Seq<char>, ItemModel>,
    live: Seq<LiveListModel>,
    now: int,
) -> Map<Seq<char>, ItemModel>
    decreases live.len(),
{
    if live.len() == 0 {
        m
    } else {
        seed_items(m, live.drop_last(), now).union_prefer_right(
            snapshot_items(live.last().items, now),
        )
    }
}

/// The item table after every fetched list is reconciled, in order: each
/// list's snapshot is applied and its stale items are swept.
pub open spec fn items_after_sync(
    m: Map<Seq<char>, ItemModel>,
    live: Seq<LiveListModel>,
    now: int,
) -> Map<Seq<char>, ItemModel>
    decreases live.len(),
{
    if live.len() == 0 {
        m
    } else {
        sweep_items(
            items_after_sync(m, live.drop_last(), now).union_prefer_right(
                snapshot_items(live.last().items, now),
            ),
            live.last().id,
            now,
        )
    }
}

/// The notifications of the first `n` reconciled lists, in order, where
/// `obs[i]` enumerates the mirrored items that list `i` was diffed against.
pub open spec fn concat_notifs(
    cfg: &Config,
    me: Seq<char>,
    ls: Seq<LiveListModel>,
    obs: Seq<Seq<ItemModel>>,
    n: int,
) -> Seq<NotificationModel>
    decreases n,
{
    if n <= 0 {
        Seq::<NotificationModel>::empty()
    } else {
        concat_notifs(cfg, me, ls, obs, n - 1) + list_notifications(cfg, me, obs[n - 1], ls[n - 1])
    }
}

/// The first `n` lists' notifications do not depend on observations made
/// after them.
proof fn lemma_concat_notifs_push(
    cfg: &Config,
    me: Seq<char>,
    ls: Seq<LiveListModel>,
    obs: Seq<Seq<ItemModel>>,
    c: Seq<ItemModel>,
    n: int,
)
    requires
        0 <= n <= obs.len(),
    ensures
        concat_notifs(cfg, me, ls, obs.push(c), n) == concat_notifs(cfg, me, ls, obs, n),
    decreases n,
{
    if n > 0 {
        lemma_concat_notifs_push(cfg, me, ls, obs, c, n - 1);
        assert(obs.push(c)[n - 1] == obs[n - 1]);
    }
}

/// What one reconciliation cycle dispatches: for each fetched list, in
/// order, the rendered surviving diff of the mirrored items it was compared
/// against — where those mirrored items are the result of the lists
/// reconciled before it.
pub open spec fn cycle_notifications_ok(
    cfg: &Config,
    me: Seq<char>,
    items0: Map<Seq<char>, ItemModel>,
    ls: Seq<LiveListModel>,
    now: int,
    obs: Seq<Seq<ItemModel>>,
    r: Seq<NotificationModel>,
) -> bool {
    &&& obs.len() == ls.len()
    &&& forall|i: int|
        0 <= i < ls.len() ==> enumerates_list_items(
            #[trigger] obs[i],
            items_after_sync(items0, ls.take(i), now),
            ls[i].id,
        )
    &&& r == concat_notifs(cfg, me, ls, obs, ls.len() as int)
}

} // verus!
