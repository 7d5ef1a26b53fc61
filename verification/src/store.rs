//! The mirror store: the durable local cache of the last-observed remote
//! state, modelled as two id-keyed maps — list records and item records.
//!
//! Every operation's contract is stated over that map model: upserts are
//! insert-or-fully-replace, a list deletion cascades to the list's items,
//! and the stale-item sweep returns exactly the rows it removed.

use vstd::prelude::*;

use crate::diff::{distinct_item_ids, str_eq};
use crate::models::{DbItem, DbList, ItemModel, ListModel};
use crate::models::{item_of_live, list_of_live, LiveItemModel, LiveList};
use crate::time::now_timestamp;

verus! {

/// Mathematical model of the mirror store: both tables keyed by id.
#[verifier::ext_equal]
pub ghost struct StoreModel {
    pub lists: Map<Seq<char>, ListModel>,
    pub items: Map<Seq<char>, ItemModel>,
}

/// Whether the ids within a sequence of list records are unique.
pub open spec fn distinct_list_ids(s: Seq<ListModel>) -> bool {
    forall|i: int, j: int| 0 <= i < j < s.len() ==> s[i].id != s[j].id
}

/// The id-keyed map holding a sequence of list records; a later record with
/// the same id overrides an earlier one.
pub open spec fn map_of_lists(s: Seq<ListModel>) -> Map<Seq<char>, ListModel>
    decreases s.len(),
{
    if s.len() == 0 {
        Map::<Seq<char>, ListModel>::empty()
    } else {
        map_of_lists(s.drop_last()).insert(s.last().id, s.last())
    }
}

/// The id-keyed map holding a sequence of item records; a later record with
/// the same id overrides an earlier one.
pub open spec fn map_of_items(s: Seq<ItemModel>) -> Map<Seq<char>, ItemModel>
    decreases s.len(),
{
    if s.len() == 0 {
        Map::<Seq<char>, ItemModel>::empty()
    } else {
        map_of_items(s.drop_last()).insert(s.last().id, s.last())
    }
}

/// The keys of the list map are exactly the stored ids, and the map is
/// finite.
pub proof fn lemma_map_of_lists_dom(s: Seq<ListModel>)
    ensures
        map_of_lists(s).dom().finite(),
        forall|k: Seq<char>| #![auto]
            map_of_lists(s).contains_key(k) <==> exists|i: int| 0 <= i < s.len() && s[i].id == k,
    decreases s.len(),
{
    if s.len() > 0 {
        lemma_map_of_lists_dom(s.drop_last());
        let m = map_of_lists(s);
        let m0 = map_of_lists(s.drop_last());
        assert forall|k: Seq<char>| #![auto] m.contains_key(k) implies exists|i: int|
            0 <= i < s.len() && s[i].id == k by {
            if k == s.last().id {
                assert(s[s.len() - 1].id == k);
            } else {
                let i = choose|i: int| 0 <= i < s.drop_last().len() && s.drop_last()[i].id == k;
                assert(s[i].id == k);
            }
        }
        assert forall|k: Seq<char>| #![auto]
            (exists|i: int| 0 <= i < s.len() && s[i].id == k) implies m.contains_key(k) by {
            let i = choose|i: int| 0 <= i < s.len() && s[i].id == k;
            if i < s.len() - 1 {
                assert(s.drop_last()[i].id == k);
            }
        }
    }
}

/// With distinct ids, every stored record is found under its id.
pub proof fn lemma_map_of_lists_val(s: Seq<ListModel>)
    requires
        distinct_list_ids(s),
    ensures
        forall|i: int| #![auto]
            0 <= i < s.len() ==> map_of_lists(s).contains_key(s[i].id) && map_of_lists(s)[s[i].id]
                == s[i],
    decreases s.len(),
{
    if s.len() > 0 {
        assert(distinct_list_ids(s.drop_last()));
        lemma_map_of_lists_val(s.drop_last());
        assert forall|i: int| #![auto] 0 <= i < s.len() implies map_of_lists(s).contains_key(
            s[i].id,
        ) && map_of_lists(s)[s[i].id] == s[i] by {
            if i < s.len() - 1 {
                assert(s.drop_last()[i] == s[i]);
                assert(s[i].id != s.last().id);
            }
        }
    }
}

/// With distinct ids, the map holds one entry per stored record.
pub proof fn lemma_map_of_lists_len(s: Seq<ListModel>)
    requires
        distinct_list_ids(s),
    ensures
        map_of_lists(s).len() == s.len(),
    decreases s.len(),
{
    if s.len() > 0 {
        assert(distinct_list_ids(s.drop_last()));
        lemma_map_of_lists_len(s.drop_last());
        lemma_map_of_lists_dom(s.drop_last());
        if map_of_lists(s.drop_last()).contains_key(s.last().id) {
            let i = choose|i: int|
                0 <= i < s.drop_last().len() && s.drop_last()[i].id == s.last().id;
            assert(s[i].id == s[s.len() - 1].id);
            assert(false);
        }
    }
}

/// Replacing the record at one position, id unchanged, is an insert on the
/// map.
pub proof fn lemma_map_of_lists_update(s: Seq<ListModel>, i: int, v: ListModel)
    requires
        distinct_list_ids(s),
        0 <= i < s.len(),
        s[i].id == v.id,
    ensures
        map_of_lists(s.update(i, v)) == map_of_lists(s).insert(v.id, v),
    decreases s.len(),
{
    let t = s.update(i, v);
    if i == s.len() - 1 {
        assert(t.drop_last() =~= s.drop_last());
        assert(map_of_lists(t) =~= map_of_lists(s).insert(v.id, v));
    } else {
        assert(distinct_list_ids(s.drop_last()));
        assert(s.drop_last()[i].id == v.id);
        lemma_map_of_lists_update(s.drop_last(), i, v);
        assert(t.drop_last() =~= s.drop_last().update(i, v));
        assert(t.last() == s.last());
        assert(s.last().id != v.id);
        assert(map_of_lists(t) =~= map_of_lists(s).insert(v.id, v));
    }
}

/// The keys of the item map are exactly the stored ids, and the map is
/// finite.
pub proof fn lemma_map_of_items_dom(s: Seq<ItemModel>)
    ensures
        map_of_items(s).dom().finite(),
        forall|k: Seq<char>| #![auto]
            map_of_items(s).contains_key(k) <==> exists|i: int| 0 <= i < s.len() && s[i].id == k,
    decreases s.len(),
{
    if s.len() > 0 {
        lemma_map_of_items_dom(s.drop_last());
        let m = map_of_items(s);
        assert forall|k: Seq<char>| #![auto] m.contains_key(k) implies exists|i: int|
            0 <= i < s.len() && s[i].id == k by {
            if k == s.last().id {
                assert(s[s.len() - 1].id == k);
            } else {
                let i = choose|i: int| 0 <= i < s.drop_last().len() && s.drop_last()[i].id == k;
                assert(s[i].id == k);
            }
        }
        assert forall|k: Seq<char>| #![auto]
            (exists|i: int| 0 <= i < s.len() && s[i].id == k) implies m.contains_key(k) by {
            let i = choose|i: int| 0 <= i < s.len() && s[i].id == k;
            if i < s.len() - 1 {
                assert(s.drop_last()[i].id == k);
            }
        }
    }
}

/// With distinct ids, every stored item is found under its id.
pub proof fn lemma_map_of_items_val(s: Seq<ItemModel>)
    requires
        distinct_item_ids(s),
    ensures
        forall|i: int| #![auto]
            0 <= i < s.len() ==> map_of_items(s).contains_key(s[i].id) && map_of_items(s)[s[i].id]
                == s[i],
    decreases s.len(),
{
    if s.len() > 0 {
        assert(distinct_item_ids(s.drop_last()));
        lemma_map_of_items_val(s.drop_last());
        assert forall|i: int| #![auto] 0 <= i < s.len() implies map_of_items(s).contains_key(
            s[i].id,
        ) && map_of_items(s)[s[i].id] == s[i] by {
            if i < s.len() - 1 {
                assert(s.drop_last()[i] == s[i]);
                assert(s[i].id != s.last().id);
            }
        }
    }
}

/// With distinct ids, the item map holds one entry per stored record.
pub proof fn lemma_map_of_items_len(s: Seq<ItemModel>)
    requires
        distinct_item_ids(s),
    ensures
        map_of_items(s).len() == s.len(),
    decreases s.len(),
{
    if s.len() > 0 {
        assert(distinct_item_ids(s.drop_last()));
        lemma_map_of_items_len(s.drop_last());
        lemma_map_of_items_dom(s.drop_last());
        if map_of_items(s.drop_last()).contains_key(s.last().id) {
            let i = choose|i: int|
                0 <= i < s.drop_last().len() && s.drop_last()[i].id == s.last().id;
            assert(s[i].id == s[s.len() - 1].id);
            assert(false);
        }
    }
}

/// Replacing the item at one position, id unchanged, is an insert on the
/// map.
pub proof fn lemma_map_of_items_update(s: Seq<ItemModel>, i: int, v: ItemModel)
    requires
        distinct_item_ids(s),
        0 <= i < s.len(),
        s[i].id == v.id,
    ensures
        map_of_items(s.update(i, v)) == map_of_items(s).insert(v.id, v),
    decreases s.len(),
{
    let t = s.update(i, v);
    if i == s.len() - 1 {
        assert(t.drop_last() =~= s.drop_last());
        assert(map_of_items(t) =~= map_of_items(s).insert(v.id, v));
    } else {
        assert(distinct_item_ids(s.drop_last()));
        assert(s.drop_last()[i].id == v.id);
        lemma_map_of_items_update(s.drop_last(), i, v);
        assert(t.drop_last() =~= s.drop_last().update(i, v));
        assert(t.last() == s.last());
        assert(s.last().id != v.id);
        assert(map_of_items(t) =~= map_of_items(s).insert(v.id, v));
    }
}


/// The item table after a list's cascading delete: every item of that list
/// is gone, everything else is untouched.
pub open spec fn cascade_items(
    items: Map<Seq<char>, ItemModel>,
    list_id: Seq<char>,
) -> Map<Seq<char>, ItemModel> {
    Map::new(
        |k: Seq<char>| items.contains_key(k) && items[k].list_id != list_id,
        |k: Seq<char>| items[k],
    )
}

/// The item table after the stale sweep of one list: every item of that list
/// last seen strictly before the cutoff is gone.
pub open spec fn sweep_items(
    items: Map<Seq<char>, ItemModel>,
    list_id: Seq<char>,
    since: int,
) -> Map<Seq<char>, ItemModel> {
    Map::new(
        |k: Seq<char>|
            items.contains_key(k) && !(items[k].list_id == list_id && items[k].last_seen < since),
        |k: Seq<char>| items[k],
    )
}

/// The id-keyed map of a fetched snapshot's items, each stamped with the
/// observation time.
pub open spec fn snapshot_items(
    items: Seq<LiveItemModel>,
    seen: int,
) -> Map<Seq<char>, ItemModel>
    decreases items.len(),
{
    if items.len() == 0 {
        Map::<Seq<char>, ItemModel>::empty()
    } else {
        snapshot_items(items.drop_last(), seen).insert(
            items.last().id,
            item_of_live(items.last(), seen),
        )
    }
}

/// The stored items that survive a list's cascading delete, in stored order.
pub open spec fn kept_after_cascade(s: Seq<ItemModel>, list_id: Seq<char>) -> Seq<ItemModel>
    decreases s.len(),
{
    if s.len() == 0 {
        Seq::<ItemModel>::empty()
    } else {
        kept_after_cascade(s.drop_last(), list_id) + (if s.last().list_id != list_id {
            seq![s.last()]
        } else {
            Seq::<ItemModel>::empty()
        })
    }
}

/// The stored items of one list, in stored order.
pub open spec fn items_of_list(s: Seq<ItemModel>, list_id: Seq<char>) -> Seq<ItemModel>
    decreases s.len(),
{
    if s.len() == 0 {
        Seq::<ItemModel>::empty()
    } else {
        items_of_list(s.drop_last(), list_id) + (if s.last().list_id == list_id {
            seq![s.last()]
        } else {
            Seq::<ItemModel>::empty()
        })
    }
}

/// Whether an item falls to the stale sweep of a list at a cutoff.
pub open spec fn is_stale(it: ItemModel, list_id: Seq<char>, since: int) -> bool {
    it.list_id == list_id && it.last_seen < since
}

/// The stored items that survive the stale sweep, in stored order.
pub open spec fn kept_after_sweep(
    s: Seq<ItemModel>,
    list_id: Seq<char>,
    since: int,
) -> Seq<ItemModel>
    decreases s.len(),
{
    if s.len() == 0 {
        Seq::<ItemModel>::empty()
    } else {
        kept_after_sweep(s.drop_last(), list_id, since) + (if !is_stale(s.last(), list_id, since) {
            seq![s.last()]
        } else {
            Seq::<ItemModel>::empty()
        })
    }
}

/// The stored items that the stale sweep removes, in stored order.
pub open spec fn removed_by_sweep(
    s: Seq<ItemModel>,
    list_id: Seq<char>,
    since: int,
) -> Seq<ItemModel>
    decreases s.len(),
{
    if s.len() == 0 {
        Seq::<ItemModel>::empty()
    } else {
        removed_by_sweep(s.drop_last(), list_id, since) + (if is_stale(s.last(), list_id, since) {
            seq![s.last()]
        } else {
            Seq::<ItemModel>::empty()
        })
    }
}

/// A subsequence selected by any of the filters above keeps only stored
/// records; with distinct ids it is itself distinct, and every element is
/// found in the item map.
pub proof fn lemma_filtered_subsequence(s: Seq<ItemModel>, t: Seq<ItemModel>)
    requires
        distinct_item_ids(s),
        forall|j: int| #![auto] 0 <= j < t.len() ==> s.contains(t[j]),
    ensures
        forall|j: int| #![auto]
            0 <= j < t.len() ==> map_of_items(s).contains_key(t[j].id) && map_of_items(s)[t[j].id]
                == t[j],
{
    lemma_map_of_items_val(s);
    assert forall|j: int| #![auto] 0 <= j < t.len() implies map_of_items(s).contains_key(t[j].id)
        && map_of_items(s)[t[j].id] == t[j] by {
        assert(s.contains(t[j]));
        let i = choose|i: int| 0 <= i < s.len() && s[i] == t[j];
        assert(map_of_items(s)[s[i].id] == s[i]);
    }
}

/// What the cascading delete keeps: exactly the items of other lists, with
/// their ids still distinct, and as a map the cascade of the item table.
pub proof fn lemma_kept_after_cascade(s: Seq<ItemModel>, list_id: Seq<char>)
    requires
        distinct_item_ids(s),
    ensures
        distinct_item_ids(kept_after_cascade(s, list_id)),
        forall|j: int| #![auto]
            0 <= j < kept_after_cascade(s, list_id).len() ==> kept_after_cascade(s, list_id)[j].list_id
                != list_id && s.contains(kept_after_cascade(s, list_id)[j]),
        map_of_items(kept_after_cascade(s, list_id)) == cascade_items(map_of_items(s), list_id),
    decreases s.len(),
{
    let t = kept_after_cascade(s, list_id);
    if s.len() == 0 {
        assert(map_of_items(t) =~= cascade_items(map_of_items(s), list_id));
    } else {
        let s0 = s.drop_last();
        let t0 = kept_after_cascade(s0, list_id);
        assert(distinct_item_ids(s0));
        lemma_kept_after_cascade(s0, list_id);
        lemma_map_of_items_dom(s0);
        assert forall|j: int| #![auto] 0 <= j < t.len() implies t[j].list_id != list_id
            && s.contains(t[j]) by {
            if j < t0.len() {
                assert(t[j] == t0[j]);
                assert(s0.contains(t0[j]));
                let i = choose|i: int| 0 <= i < s0.len() && s0[i] == t0[j];
                assert(s[i] == t[j]);
                assert(s.contains(t[j]));
            } else {
                assert(t[j] == s.last());
                assert(s[s.len() - 1] == t[j]);
                assert(s.contains(t[j]));
            }
        }
        if s.last().list_id != list_id {
            assert(t =~= t0.push(s.last()));
            assert forall|p: int, q: int| 0 <= p < q < t.len() implies t[p].id != t[q].id by {
                if q == t0.len() {
                    assert(s0.contains(t0[p]));
                    let i = choose|i: int| 0 <= i < s0.len() && s0[i] == t0[p];
                    assert(s[i].id == t[p].id);
                    assert(s[i].id != s.last().id);
                }
            }
            assert(t.drop_last() =~= t0);
            assert(t.last() == s.last());
            assert(map_of_items(t) == map_of_items(t0).insert(s.last().id, s.last()));
            assert(map_of_items(t) =~= cascade_items(map_of_items(s), list_id));
        } else {
            assert(t =~= t0);
            if map_of_items(s0).contains_key(s.last().id) {
                let i = choose|i: int| 0 <= i < s0.len() && s0[i].id == s.last().id;
                assert(s[i].id == s[s.len() - 1].id);
                assert(false);
            }
            assert(map_of_items(t) =~= cascade_items(map_of_items(s), list_id));
        }
    }
}

/// What the stale sweep keeps, as a map: the sweep of the item table.
pub proof fn lemma_kept_after_sweep(s: Seq<ItemModel>, list_id: Seq<char>, since: int)
    requires
        distinct_item_ids(s),
    ensures
        distinct_item_ids(kept_after_sweep(s, list_id, since)),
        forall|j: int| #![auto]
            0 <= j < kept_after_sweep(s, list_id, since).len() ==> s.contains(
                kept_after_sweep(s, list_id, since)[j],
            ),
        map_of_items(kept_after_sweep(s, list_id, since)) == sweep_items(
            map_of_items(s),
            list_id,
            since,
        ),
    decreases s.len(),
{
    let t = kept_after_sweep(s, list_id, since);
    if s.len() == 0 {
        assert(map_of_items(t) =~= sweep_items(map_of_items(s), list_id, since));
    } else {
        let s0 = s.drop_last();
        let t0 = kept_after_sweep(s0, list_id, since);
        assert(distinct_item_ids(s0));
        lemma_kept_after_sweep(s0, list_id, since);
        lemma_map_of_items_dom(s0);
        assert forall|j: int| #![auto] 0 <= j < t.len() implies s.contains(t[j]) by {
            if j < t0.len() {
                assert(t[j] == t0[j]);
                assert(s0.contains(t0[j]));
                let i = choose|i: int| 0 <= i < s0.len() && s0[i] == t0[j];
                assert(s[i] == t[j]);
                assert(s.contains(t[j]));
            } else {
                assert(t[j] == s.last());
                assert(s[s.len() - 1] == t[j]);
                assert(s.contains(t[j]));
            }
        }
        if !is_stale(s.last(), list_id, since) {
            assert(t =~= t0.push(s.last()));
            assert forall|p: int, q: int| 0 <= p < q < t.len() implies t[p].id != t[q].id by {
                if q == t0.len() {
                    assert(s0.contains(t0[p]));
                    let i = choose|i: int| 0 <= i < s0.len() && s0[i] == t0[p];
                    assert(s[i].id == t[p].id);
                    assert(s[i].id != s.last().id);
                }
            }
            assert(t.drop_last() =~= t0);
            assert(t.last() == s.last());
            assert(map_of_items(t) == map_of_items(t0).insert(s.last().id, s.last()));
            assert(map_of_items(t) =~= sweep_items(map_of_items(s), list_id, since));
        } else {
            assert(t =~= t0);
            if map_of_items(s0).contains_key(s.last().id) {
                let i = choose|i: int| 0 <= i < s0.len() && s0[i].id == s.last().id;
                assert(s[i].id == s[s.len() - 1].id);
                assert(false);
            }
            assert(map_of_items(t) =~= sweep_items(map_of_items(s), list_id, since));
        }
    }
}

/// What the stale sweep removes: exactly the stale items, one occurrence per
/// stored id.
pub proof fn lemma_removed_by_sweep(s: Seq<ItemModel>, list_id: Seq<char>, since: int)
    requires
        distinct_item_ids(s),
    ensures
        distinct_item_ids(removed_by_sweep(s, list_id, since)),
        forall|j: int| #![auto]
            0 <= j < removed_by_sweep(s, list_id, since).len() ==> is_stale(
                removed_by_sweep(s, list_id, since)[j],
                list_id,
                since,
            ) && s.contains(removed_by_sweep(s, list_id, since)[j]),
        forall|k: Seq<char>| #![auto]
            map_of_items(s).contains_key(k) && is_stale(map_of_items(s)[k], list_id, since)
                ==> exists|j: int|
                0 <= j < removed_by_sweep(s, list_id, since).len() && removed_by_sweep(
                    s,
                    list_id,
                    since,
                )[j].id == k,
    decreases s.len(),
{
    let t = removed_by_sweep(s, list_id, since);
    if s.len() > 0 {
        let s0 = s.drop_last();
        let t0 = removed_by_sweep(s0, list_id, since);
        assert(distinct_item_ids(s0));
        lemma_removed_by_sweep(s0, list_id, since);
        lemma_map_of_items_dom(s0);
        lemma_map_of_items_val(s);
        assert forall|j: int| #![auto] 0 <= j < t.len() implies is_stale(t[j], list_id, since)
            && s.contains(t[j]) by {
            if j < t0.len() {
                assert(t[j] == t0[j]);
                assert(s0.contains(t0[j]));
                let i = choose|i: int| 0 <= i < s0.len() && s0[i] == t0[j];
                assert(s[i] == t[j]);
                assert(s.contains(t[j]));
            } else {
                assert(t[j] == s.last());
                assert(s[s.len() - 1] == t[j]);
                assert(s.contains(t[j]));
            }
        }
        if is_stale(s.last(), list_id, since) {
            assert forall|p: int, q: int| 0 <= p < q < t.len() implies t[p].id != t[q].id by {
                if q == t0.len() {
                    assert(t[q] == s.last());
                    assert(s0.contains(t0[p]));
                    let i = choose|i: int| 0 <= i < s0.len() && s0[i] == t0[p];
                    assert(s[i].id == t[p].id);
                    assert(s[i].id != s.last().id);
                }
            }
        } else {
            assert(t =~= t0);
        }
        assert forall|k: Seq<char>| #![auto]
            map_of_items(s).contains_key(k) && is_stale(map_of_items(s)[k], list_id, since)
                implies exists|j: int| 0 <= j < t.len() && t[j].id == k by {
            if map_of_items(s0).contains_key(k) && k != s.last().id {
                let m = map_of_items(s);
                let m0 = map_of_items(s0);
                assert(m == m0.insert(s.last().id, s.last()));
                assert(m[k] == m0[k]);
                let j = choose|j: int| 0 <= j < t0.len() && t0[j].id == k;
                assert(t[j].id == k);
            } else {
                assert(k == s.last().id);
                assert(map_of_items(s)[k] == s.last());
                assert(t[t.len() - 1].id == k);
            }
        }
    }
}

/// Removing the record at one position is a remove on the map.
pub proof fn lemma_map_of_lists_remove(s: Seq<ListModel>, i: int)
    requires
        distinct_list_ids(s),
        0 <= i < s.len(),
    ensures
        distinct_list_ids(s.remove(i)),
        map_of_lists(s.remove(i)) == map_of_lists(s).remove(s[i].id),
    decreases s.len(),
{
    lemma_map_of_lists_dom(s.drop_last());
    if i == s.len() - 1 {
        assert(s.remove(i) =~= s.drop_last());
        if map_of_lists(s.drop_last()).contains_key(s.last().id) {
            let j = choose|j: int|
                0 <= j < s.drop_last().len() && s.drop_last()[j].id == s.last().id;
            assert(s[j].id == s[s.len() - 1].id);
            assert(false);
        }
        assert(map_of_lists(s.remove(i)) =~= map_of_lists(s).remove(s[i].id));
    } else {
        assert(distinct_list_ids(s.drop_last()));
        lemma_map_of_lists_remove(s.drop_last(), i);
        assert(s.remove(i).drop_last() =~= s.drop_last().remove(i));
        assert(s.remove(i).last() == s.last());
        assert(s.drop_last()[i] == s[i]);
        assert(s[i].id != s.last().id);
        assert(map_of_lists(s.remove(i)) =~= map_of_lists(s).remove(s[i].id));
        assert(distinct_list_ids(s.remove(i)));
    }
}


/// What a list's item lookup returns: exactly the stored items of that list,
/// one occurrence per id.
pub proof fn lemma_items_of_list(s: Seq<ItemModel>, list_id: Seq<char>)
    requires
        distinct_item_ids(s),
    ensures
        distinct_item_ids(items_of_list(s, list_id)),
        forall|j: int| #![auto]
            0 <= j < items_of_list(s, list_id).len() ==> items_of_list(s, list_id)[j].list_id
                == list_id && s.contains(items_of_list(s, list_id)[j]),
        forall|k: Seq<char>| #![auto]
            map_of_items(s).contains_key(k) && map_of_items(s)[k].list_id == list_id
                ==> exists|j: int|
                0 <= j < items_of_list(s, list_id).len() && items_of_list(s, list_id)[j].id == k,
    decreases s.len(),
{
    let t = items_of_list(s, list_id);
    if s.len() > 0 {
        let s0 = s.drop_last();
        let t0 = items_of_list(s0, list_id);
        assert(distinct_item_ids(s0));
        lemma_items_of_list(s0, list_id);
        lemma_map_of_items_dom(s0);
        lemma_map_of_items_val(s);
        assert forall|j: int| #![auto] 0 <= j < t.len() implies t[j].list_id == list_id
            && s.contains(t[j]) by {
            if j < t0.len() {
                assert(t[j] == t0[j]);
                assert(s0.contains(t0[j]));
                let i = choose|i: int| 0 <= i < s0.len() && s0[i] == t0[j];
                assert(s[i] == t[j]);
                assert(s.contains(t[j]));
            } else {
                assert(t[j] == s.last());
                assert(s[s.len() - 1] == t[j]);
                assert(s.contains(t[j]));
            }
        }
        if s.last().list_id == list_id {
            assert forall|p: int, q: int| 0 <= p < q < t.len() implies t[p].id != t[q].id by {
                if q == t0.len() {
                    assert(t[q] == s.last());
                    assert(s0.contains(t0[p]));
                    let i = choose|i: int| 0 <= i < s0.len() && s0[i] == t0[p];
                    assert(s[i].id == t[p].id);
                    assert(s[i].id != s.last().id);
                }
            }
        } else {
            assert(t =~= t0);
        }
        assert forall|k: Seq<char>| #![auto]
            map_of_items(s).contains_key(k) && map_of_items(s)[k].list_id == list_id
                implies exists|j: int| 0 <= j < t.len() && t[j].id == k by {
            if map_of_items(s0).contains_key(k) && k != s.last().id {
                let m = map_of_items(s);
                let m0 = map_of_items(s0);
                assert(m == m0.insert(s.last().id, s.last()));
                assert(m[k] == m0[k]);
                let j = choose|j: int| 0 <= j < t0.len() && t0[j].id == k;
                assert(t[j].id == k);
            } else {
                assert(k == s.last().id);
                assert(map_of_items(s)[k] == s.last());
                assert(t[t.len() - 1].id == k);
            }
        }
    }
}


/// Lexicographic order on strings by code point; a prefix comes first.
pub open spec fn str_le(a: Seq<char>, b: Seq<char>) -> bool
    decreases a.len(),
{
    if a.len() == 0 {
        true
    } else if b.len() == 0 {
        false
    } else if a.first() == b.first() {
        str_le(a.drop_first(), b.drop_first())
    } else {
        (a.first() as u32) < (b.first() as u32)
    }
}

/// The order is total.
pub proof fn lemma_str_le_total(a: Seq<char>, b: Seq<char>)
    ensures
        str_le(a, b) || str_le(b, a),
    decreases a.len(),
{
    if a.len() > 0 && b.len() > 0 {
        if a.first() == b.first() {
            lemma_str_le_total(a.drop_first(), b.drop_first());
        } else {
            let ua = a.first() as u32;
            let ub = b.first() as u32;
            vstd::utf8::char_u32_cast(a.first(), ua);
            vstd::utf8::char_u32_cast(b.first(), ub);
            assert(ua != ub);
        }
    }
}

/// The order is transitive.
pub proof fn lemma_str_le_trans(a: Seq<char>, b: Seq<char>, c: Seq<char>)
    requires
        str_le(a, b),
        str_le(b, c),
    ensures
        str_le(a, c),
    decreases a.len(),
{
    if a.len() == 0 {
    } else {
        assert(b.len() > 0);
        assert(c.len() > 0);
        if a.first() == b.first() && b.first() == c.first() {
            lemma_str_le_trans(a.drop_first(), b.drop_first(), c.drop_first());
        }
    }
}

/// At the first position where the strings differ (or one ends), the order
/// is decided.
pub proof fn lemma_str_le_at(a: Seq<char>, b: Seq<char>, i: int)
    requires
        0 <= i <= a.len(),
        i <= b.len(),
        forall|k: int| 0 <= k < i ==> a[k] == b[k],
        i == a.len() || i == b.len() || a[i] != b[i],
    ensures
        str_le(a, b) == (if i == a.len() {
            true
        } else if i == b.len() {
            false
        } else {
            (a[i] as u32) < (b[i] as u32)
        }),
    decreases i,
{
    if i == 0 {
    } else {
        assert(a.first() == b.first());
        lemma_str_le_at(a.drop_first(), b.drop_first(), i - 1);
        assert(forall|k: int|
            0 <= k < i - 1 ==> a.drop_first()[k] == a[k + 1] && b.drop_first()[k] == b[k + 1]);
    }
}

/// Decides the lexicographic order of two strings.
fn str_le_exec(a: &str, b: &str) -> (r: bool)
    ensures
        r == str_le(a@, b@),
{
    let na = a.unicode_len();
    let nb = b.unicode_len();
    let mut i: usize = 0;
    while i < na && i < nb
        invariant
            na == a@.len(),
            nb == b@.len(),
            i <= na,
            i <= nb,
            forall|k: int| 0 <= k < i ==> a@[k] == b@[k],
        decreases na - i,
    {
        let ca = a.get_char(i);
        let cb = b.get_char(i);
        if ca != cb {
            proof {
                lemma_str_le_at(a@, b@, i as int);
            }
            return (ca as u32) < (cb as u32);
        }
        i = i + 1;
    }
    proof {
        lemma_str_le_at(a@, b@, i as int);
    }
    na <= nb
}

/// Counts of what the mirror currently holds.
#[derive(Debug)]
pub struct CacheStats {
    pub total_lists: usize,
    pub total_items: usize,
}

/// The in-memory mirror of the last-observed remote state.
#[derive(Debug)]
pub struct MirrorStore {
    lists: Vec<DbList>,
    items: Vec<DbItem>,
}

impl View for MirrorStore {
    type V = StoreModel;

    closed spec fn view(&self) -> StoreModel {
        StoreModel {
            lists: map_of_lists(self.lists.deep_view()),
            items: map_of_items(self.items.deep_view()),
        }
    }
}

impl MirrorStore {
    /// The store's internal invariant: both tables are id-keyed, so the
    /// stored ids are unique.
    pub closed spec fn wf(&self) -> bool {
        distinct_list_ids(self.lists.deep_view()) && distinct_item_ids(self.items.deep_view())
    }

    /// An empty mirror.
    pub fn new() -> (r: Self)
        ensures
            r.wf(),
            r@.lists == Map::<Seq<char>, ListModel>::empty(),
            r@.items == Map::<Seq<char>, ItemModel>::empty(),
    {
        let r = MirrorStore { lists: Vec::new(), items: Vec::new() };
        proof {
            assert(r.lists.deep_view() =~= Seq::<ListModel>::empty());
            assert(r.items.deep_view() =~= Seq::<ItemModel>::empty());
        }
        r
    }

    /// The mirrored list with the given id, if one is stored.
    pub fn get_list(&self, list_id: &str) -> (r: Option<DbList>)
        requires
            self.wf(),
        ensures
            match r {
                Some(l) => self@.lists.contains_key(list_id@) && l@ == self@.lists[list_id@],
                None => !self@.lists.contains_key(list_id@),
            },
    {
        let ghost model = self.lists.deep_view();
        proof {
            lemma_map_of_lists_dom(model);
            lemma_map_of_lists_val(model);
        }
        let mut i: usize = 0;
        while i < self.lists.len()
            invariant
                model == self.lists.deep_view(),
                model.len() == self.lists.len(),
                i <= self.lists.len(),
                self.wf(),
                forall|k: int| 0 <= k < i ==> model[k].id != list_id@,
            decreases self.lists.len() - i,
        {
            if crate::diff::str_eq(self.lists[i].id.as_str(), list_id) {
                proof {
                    lemma_map_of_lists_val(model);
                    assert(model[i as int].id == list_id@);
                    assert(self@.lists.contains_key(list_id@));
                    assert(self@.lists[list_id@] == model[i as int]);
                }
                return Some(self.lists[i].clone());
            }
            i = i + 1;
        }
        proof {
            lemma_map_of_lists_dom(model);
            if self@.lists.contains_key(list_id@) {
                let k = choose|k: int| 0 <= k < model.len() && model[k].id == list_id@;
                assert(false);
            }
        }
        None
    }

    /// Inserts the list record, or fully replaces the one with the same id.
    pub fn upsert_list(&mut self, list: &DbList)
        requires
            old(self).wf(),
        ensures
            final(self).wf(),
            final(self)@.lists == old(self)@.lists.insert(list@.id, list@),
            final(self)@.items == old(self)@.items,
    {
        let ghost model = self.lists.deep_view();
        let mut i: usize = 0;
        while i < self.lists.len()
            invariant
                *self == *old(self),
                model == self.lists.deep_view(),
                model.len() == self.lists.len(),
                i <= self.lists.len(),
                self.wf(),
                forall|k: int| 0 <= k < i ==> model[k].id != list@.id,
            decreases self.lists.len() - i,
        {
            if crate::diff::str_eq(self.lists[i].id.as_str(), list.id.as_str()) {
                self.lists.remove(i);
                self.lists.insert(i, list.clone());
                proof {
                    assert(self.lists.deep_view() =~= model.update(i as int, list@));
                    lemma_map_of_lists_update(model, i as int, list@);
                    assert(distinct_list_ids(self.lists.deep_view()));
                }
                return ;
            }
            i = i + 1;
        }
        self.lists.push(list.clone());
        proof {
            let new_dv = self.lists.deep_view();
            assert(new_dv =~= model.push(list@));
            assert(new_dv.drop_last() =~= model);
            assert forall|p: int, q: int|
                0 <= p < q < new_dv.len() implies new_dv[p].id != new_dv[q].id by {
                if q == model.len() {
                    assert(model[p].id != list@.id);
                }
            }
        }
    }

    /// Inserts the item record, or fully replaces the one with the same id —
    /// every field, attribution and timestamp included, is overwritten.
    pub fn upsert_item(&mut self, item: &DbItem)
        requires
            old(self).wf(),
        ensures
            final(self).wf(),
            final(self)@.items == old(self)@.items.insert(item@.id, item@),
            final(self)@.lists == old(self)@.lists,
    {
        let ghost model = self.items.deep_view();
        let mut i: usize = 0;
        while i < self.items.len()
            invariant
                *self == *old(self),
                model == self.items.deep_view(),
                model.len() == self.items.len(),
                i <= self.items.len(),
                self.wf(),
                forall|k: int| 0 <= k < i ==> model[k].id != item@.id,
            decreases self.items.len() - i,
        {
            if crate::diff::str_eq(self.items[i].id.as_str(), item.id.as_str()) {
                self.items.remove(i);
                self.items.insert(i, item.clone());
                proof {
                    assert(self.items.deep_view() =~= model.update(i as int, item@));
                    lemma_map_of_items_update(model, i as int, item@);
                    assert(distinct_item_ids(self.items.deep_view()));
                }
                return ;
            }
            i = i + 1;
        }
        self.items.push(item.clone());
        proof {
            let new_dv = self.items.deep_view();
            assert(new_dv =~= model.push(item@));
            assert(new_dv.drop_last() =~= model);
            assert forall|p: int, q: int|
                0 <= p < q < new_dv.len() implies new_dv[p].id != new_dv[q].id by {
                if q == model.len() {
                    assert(model[p].id != item@.id);
                }
            }
        }
    }


    /// The mirrored items of one list, each exactly once, in stored order.
    pub fn get_items(&self, list_id: &str) -> (r: Vec<DbItem>)
        requires
            self.wf(),
        ensures
            distinct_item_ids(r.deep_view()),
            forall|j: int| #![auto]
                0 <= j < r.deep_view().len() ==> r.deep_view()[j].list_id == list_id@
                    && self@.items.contains_key(r.deep_view()[j].id)
                    && self@.items[r.deep_view()[j].id] == r.deep_view()[j],
            forall|k: Seq<char>| #![auto]
                self@.items.contains_key(k) && self@.items[k].list_id == list_id@
                    ==> exists|j: int| 0 <= j < r.deep_view().len() && r.deep_view()[j].id == k,
    {
        let ghost model = self.items.deep_view();
        let mut r: Vec<DbItem> = Vec::new();
        let mut i: usize = 0;
        proof {
            assert(r.deep_view() =~= items_of_list(model.take(0), list_id@));
        }
        while i < self.items.len()
            invariant
                model == self.items.deep_view(),
                model.len() == self.items.len(),
                i <= self.items.len(),
                r.deep_view() == items_of_list(model.take(i as int), list_id@),
            decreases self.items.len() - i,
        {
            proof {
                assert(model.take(i as int + 1).drop_last() =~= model.take(i as int));
                assert(model.take(i as int + 1).last() == model[i as int]);
            }
            let ghost before = r.deep_view();
            if str_eq(self.items[i].list_id.as_str(), list_id) {
                r.push(self.items[i].clone());
                proof {
                    assert(r.deep_view() =~= before.push(model[i as int]));
                    assert(r.deep_view() =~= items_of_list(model.take(i as int + 1), list_id@));
                }
            } else {
                proof {
                    assert(r.deep_view() =~= items_of_list(model.take(i as int + 1), list_id@));
                }
            }
            i = i + 1;
        }
        proof {
            assert(model.take(model.len() as int) =~= model);
            lemma_items_of_list(model, list_id@);
            lemma_filtered_subsequence(model, r.deep_view());
        }
        r
    }

    /// Removes the list with the given id and, in the same step, every item
    /// belonging to it; other lists and their items are untouched.
    pub fn delete_list(&mut self, list_id: &str)
        requires
            old(self).wf(),
        ensures
            final(self).wf(),
            final(self)@.lists == old(self)@.lists.remove(list_id@),
            final(self)@.items == cascade_items(old(self)@.items, list_id@),
    {
        let ghost lmodel = self.lists.deep_view();
        let mut i: usize = 0;
        let mut found: bool = false;
        while i < self.lists.len() && !found
            invariant
                *self == *old(self),
                lmodel == self.lists.deep_view(),
                lmodel.len() == self.lists.len(),
                i <= self.lists.len(),
                !found ==> forall|k: int| 0 <= k < i ==> lmodel[k].id != list_id@,
                found ==> i < self.lists.len() && lmodel[i as int].id == list_id@,
            decreases self.lists.len() - i + (if found { 0int } else { 1int }),
        {
            if str_eq(self.lists[i].id.as_str(), list_id) {
                found = true;
            } else {
                i = i + 1;
            }
        }
        if found {
            self.lists.remove(i);
            proof {
                lemma_map_of_lists_remove(lmodel, i as int);
                assert(self.lists.deep_view() =~= lmodel.remove(i as int));
            }
        } else {
            proof {
                lemma_map_of_lists_dom(lmodel);
                if map_of_lists(lmodel).contains_key(list_id@) {
                    let k = choose|k: int| 0 <= k < lmodel.len() && lmodel[k].id == list_id@;
                    assert(false);
                }
                assert(map_of_lists(lmodel) =~= map_of_lists(lmodel).remove(list_id@));
            }
        }

        let ghost lists_after = self.lists.deep_view();
        let ghost imodel = self.items.deep_view();
        let mut kept: Vec<DbItem> = Vec::new();
        let mut j: usize = 0;
        proof {
            assert(kept.deep_view() =~= kept_after_cascade(imodel.take(0), list_id@));
        }
        while j < self.items.len()
            invariant
                lists_after == self.lists.deep_view(),
                imodel == self.items.deep_view(),
                imodel.len() == self.items.len(),
                j <= self.items.len(),
                kept.deep_view() == kept_after_cascade(imodel.take(j as int), list_id@),
            decreases self.items.len() - j,
        {
            proof {
                assert(imodel.take(j as int + 1).drop_last() =~= imodel.take(j as int));
                assert(imodel.take(j as int + 1).last() == imodel[j as int]);
            }
            let ghost before = kept.deep_view();
            if !str_eq(self.items[j].list_id.as_str(), list_id) {
                kept.push(self.items[j].clone());
                proof {
                    assert(kept.deep_view() =~= before.push(imodel[j as int]));
                    assert(kept.deep_view() =~= kept_after_cascade(
                        imodel.take(j as int + 1),
                        list_id@,
                    ));
                }
            } else {
                proof {
                    assert(kept.deep_view() =~= kept_after_cascade(
                        imodel.take(j as int + 1),
                        list_id@,
                    ));
                }
            }
            j = j + 1;
        }
        proof {
            assert(imodel.take(imodel.len() as int) =~= imodel);
        }
        self.items = kept;
        proof {
            lemma_kept_after_cascade(imodel, list_id@);
        }
    }

    /// Removes, from one list, every item whose last-seen timestamp is
    /// strictly older than the cutoff, and returns exactly the removed rows.
    pub fn delete_stale_items(&mut self, list_id: &str, since: i64) -> (r: Vec<DbItem>)
        requires
            old(self).wf(),
        ensures
            final(self).wf(),
            final(self)@.lists == old(self)@.lists,
            final(self)@.items == sweep_items(old(self)@.items, list_id@, since as int),
            distinct_item_ids(r.deep_view()),
            forall|j: int| #![auto]
                0 <= j < r.deep_view().len() ==> is_stale(r.deep_view()[j], list_id@, since as int)
                    && old(self)@.items.contains_key(r.deep_view()[j].id)
                    && old(self)@.items[r.deep_view()[j].id] == r.deep_view()[j],
            forall|k: Seq<char>| #![auto]
                old(self)@.items.contains_key(k) && is_stale(
                    old(self)@.items[k],
                    list_id@,
                    since as int,
                ) ==> exists|j: int| 0 <= j < r.deep_view().len() && r.deep_view()[j].id == k,
    {
        let ghost imodel = self.items.deep_view();
        let mut kept: Vec<DbItem> = Vec::new();
        let mut removed: Vec<DbItem> = Vec::new();
        let mut j: usize = 0;
        proof {
            assert(kept.deep_view() =~= kept_after_sweep(imodel.take(0), list_id@, since as int));
            assert(removed.deep_view() =~= removed_by_sweep(
                imodel.take(0),
                list_id@,
                since as int,
            ));
        }
        while j < self.items.len()
            invariant
                *self == *old(self),
                imodel == self.items.deep_view(),
                imodel.len() == self.items.len(),
                j <= self.items.len(),
                kept.deep_view() == kept_after_sweep(imodel.take(j as int), list_id@, since as int),
                removed.deep_view() == removed_by_sweep(
                    imodel.take(j as int),
                    list_id@,
                    since as int,
                ),
            decreases self.items.len() - j,
        {
            proof {
                assert(imodel.take(j as int + 1).drop_last() =~= imodel.take(j as int));
                assert(imodel.take(j as int + 1).last() == imodel[j as int]);
            }
            let ghost kept_before = kept.deep_view();
            let ghost removed_before = removed.deep_view();
            if str_eq(self.items[j].list_id.as_str(), list_id) && self.items[j].last_seen < since {
                removed.push(self.items[j].clone());
                proof {
                    assert(removed.deep_view() =~= removed_before.push(imodel[j as int]));
                }
            } else {
                kept.push(self.items[j].clone());
                proof {
                    assert(kept.deep_view() =~= kept_before.push(imodel[j as int]));
                }
            }
            proof {
                assert(kept.deep_view() =~= kept_after_sweep(
                    imodel.take(j as int + 1),
                    list_id@,
                    since as int,
                ));
                assert(removed.deep_view() =~= removed_by_sweep(
                    imodel.take(j as int + 1),
                    list_id@,
                    since as int,
                ));
            }
            j = j + 1;
        }
        proof {
            assert(imodel.take(imodel.len() as int) =~= imodel);
        }
        self.items = kept;
        proof {
            lemma_kept_after_sweep(imodel, list_id@, since as int);
            lemma_removed_by_sweep(imodel, list_id@, since as int);
            lemma_filtered_subsequence(imodel, removed.deep_view());
        }
        removed
    }

    /// Applies a fetched snapshot observed at the given time: upserts the
    /// list record, then upserts every item of the snapshot. Items absent
    /// from the snapshot are not removed here.
    pub fn sync_list_at(&mut self, list: &LiveList, now: i64)
        requires
            old(self).wf(),
        ensures
            final(self).wf(),
            final(self)@.lists == old(self)@.lists.insert(
                list@.id,
                list_of_live(list@, now as int),
            ),
            final(self)@.items == old(self)@.items.union_prefer_right(
                snapshot_items(list@.items, now as int),
            ),
    {
        let db_list = DbList::from_live(list, now);
        self.upsert_list(&db_list);
        let ghost lists_target = old(self)@.lists.insert(list@.id, list_of_live(list@, now as int));
        let ghost items0 = old(self)@.items;
        let mut i: usize = 0;
        proof {
            assert(self@.items =~= items0.union_prefer_right(
                snapshot_items(list@.items.take(0), now as int),
            ));
        }
        while i < list.items.len()
            invariant
                self.wf(),
                list@.items.len() == list.items.len(),
                i <= list.items.len(),
                self@.lists == lists_target,
                self@.items == items0.union_prefer_right(
                    snapshot_items(list@.items.take(i as int), now as int),
                ),
            decreases list.items.len() - i,
        {
            proof {
                assert(list@.items.take(i as int + 1).drop_last() =~= list@.items.take(i as int));
                assert(list@.items.take(i as int + 1).last() == list@.items[i as int]);
            }
            let db_item = DbItem::from_live(&list.items[i], now);
            self.upsert_item(&db_item);
            proof {
                assert(self@.items =~= items0.union_prefer_right(
                    snapshot_items(list@.items.take(i as int + 1), now as int),
                ));
            }
            i = i + 1;
        }
        proof {
            assert(list@.items.take(list@.items.len() as int) =~= list@.items);
        }
    }

    /// Applies a fetched snapshot, stamping it with the current time.
    pub fn sync_list(&mut self, list: &LiveList)
        requires
            old(self).wf(),
        ensures
            final(self).wf(),
            exists|now: int| #![auto]
                final(self)@.lists == old(self)@.lists.insert(list@.id, list_of_live(list@, now))
                    && final(self)@.items == old(self)@.items.union_prefer_right(
                    snapshot_items(list@.items, now),
                ),
    {
        let now = Self::current_timestamp();
        self.sync_list_at(list, now);
        proof {
            let w = now as int;
            assert(self@.lists == old(self)@.lists.insert(list@.id, list_of_live(list@, w))
                && self@.items == old(self)@.items.union_prefer_right(
                snapshot_items(list@.items, w),
            ));
        }
    }


    /// Every mirrored list exactly once, ordered by name for deterministic
    /// display.
    pub fn get_all_lists(&self) -> (r: Vec<DbList>)
        requires
            self.wf(),
        ensures
            forall|p: int, q: int| #![auto]
                0 <= p < q < r.deep_view().len() ==> str_le(
                    r.deep_view()[p].name,
                    r.deep_view()[q].name,
                ),
            distinct_list_ids(r.deep_view()),
            forall|j: int| #![auto]
                0 <= j < r.deep_view().len() ==> self@.lists.contains_key(r.deep_view()[j].id)
                    && self@.lists[r.deep_view()[j].id] == r.deep_view()[j],
            forall|k: Seq<char>| #![auto]
                self@.lists.contains_key(k) ==> exists|j: int|
                    0 <= j < r.deep_view().len() && r.deep_view()[j].id == k,
    {
        let ghost model = self.lists.deep_view();
        let mut r: Vec<DbList> = Vec::new();
        let mut t: usize = 0;
        while t < self.lists.len()
            invariant
                self.wf(),
                model == self.lists.deep_view(),
                model.len() == self.lists.len(),
                t <= self.lists.len(),
                forall|p: int, q: int| #![auto]
                    0 <= p < q < r.deep_view().len() ==> str_le(
                        r.deep_view()[p].name,
                        r.deep_view()[q].name,
                    ),
                forall|j: int| #![auto]
                    0 <= j < r.deep_view().len() ==> model.take(t as int).contains(
                        r.deep_view()[j],
                    ),
                forall|q: int| #![trigger model[q]]
                    0 <= q < t ==> exists|j: int|
                        0 <= j < r.deep_view().len() && (#[trigger] r.deep_view()[j].id)
                            == model[q].id,
                distinct_list_ids(r.deep_view()),
            decreases self.lists.len() - t,
        {
            let cur = &self.lists[t];
            let ghost old_dv = r.deep_view();
            let mut pos: usize = 0;
            let mut placed: bool = false;
            while pos < r.len() && !placed
                invariant
                    old_dv == r.deep_view(),
                    old_dv.len() == r.len(),
                    pos <= r.len(),
                    cur == self.lists@[t as int],
                    forall|k: int| 0 <= k < pos ==> str_le(
                        #[trigger] old_dv[k].name,
                        cur@.name,
                    ),
                    placed ==> pos < r.len() && !str_le(old_dv[pos as int].name, cur@.name),
                decreases r.len() - pos + (if placed { 0int } else { 1int }),
            {
                if str_le_exec(r[pos].name.as_str(), cur.name.as_str()) {
                    pos = pos + 1;
                } else {
                    placed = true;
                }
            }
            r.insert(pos, cur.clone());
            proof {
                let new_dv = r.deep_view();
                let ghost cm = cur@;
                assert(new_dv =~= old_dv.take(pos as int) + seq![cm] + old_dv.skip(pos as int));
                assert(forall|k: int| 0 <= k < pos ==> new_dv[k] == old_dv[k]);
                assert(new_dv[pos as int] == cm);
                assert(forall|k: int|
                    pos < k < new_dv.len() ==> new_dv[k] == old_dv[k - 1]);
                // order around the insertion point
                if placed {
                    lemma_str_le_total(old_dv[pos as int].name, cm.name);
                }
                assert forall|k: int| pos <= k < old_dv.len() implies str_le(
                    cm.name,
                    #[trigger] old_dv[k].name,
                ) by {
                    if k > pos {
                        lemma_str_le_trans(cm.name, old_dv[pos as int].name, old_dv[k].name);
                    }
                }
                assert forall|p: int, q: int| #![auto] 0 <= p < q < new_dv.len() implies str_le(
                    new_dv[p].name,
                    new_dv[q].name,
                ) by {
                    if q == pos {
                        assert(new_dv[p] == old_dv[p]);
                    } else if p == pos {
                        assert(new_dv[q] == old_dv[q - 1]);
                    } else if p < pos && q > pos {
                        assert(new_dv[p] == old_dv[p] && new_dv[q] == old_dv[q - 1]);
                    }
                }
                // contents: everything comes from the processed prefix
                assert(model.take(t as int + 1).drop_last() =~= model.take(t as int));
                assert(model.take(t as int + 1).last() == model[t as int]);
                assert(cm == model[t as int]);
                assert forall|j: int| #![auto] 0 <= j < new_dv.len() implies model.take(
                    t as int + 1,
                ).contains(new_dv[j]) by {
                    if j == pos {
                        assert(model.take(t as int + 1)[t as int] == model[t as int]);
                    } else {
                        let e = if j < pos {
                            old_dv[j]
                        } else {
                            old_dv[j - 1]
                        };
                        assert(model.take(t as int).contains(e));
                        let w = choose|w: int|
                            0 <= w < model.take(t as int).len() && model.take(t as int)[w] == e;
                        assert(model.take(t as int + 1)[w] == e);
                    }
                }
                // every processed id is present
                assert forall|q: int| #![trigger model[q]] 0 <= q < t + 1 implies exists|j: int|
                    0 <= j < new_dv.len() && (#[trigger] new_dv[j].id) == model[q].id by {
                    if q == t {
                        assert(new_dv[pos as int].id == model[q].id);
                    } else {
                        let j = choose|j: int|
                            0 <= j < old_dv.len() && (#[trigger] old_dv[j].id) == model[q].id;
                        if j < pos {
                            assert(new_dv[j].id == model[q].id);
                        } else {
                            assert(new_dv[j + 1].id == model[q].id);
                        }
                    }
                }
                // ids stay distinct: the new record's id is not yet present
                assert forall|p: int, q: int| 0 <= p < q < new_dv.len() implies new_dv[p].id
                    != new_dv[q].id by {
                    let ep = if p == pos {
                        cm
                    } else if p < pos {
                        old_dv[p]
                    } else {
                        old_dv[p - 1]
                    };
                    let eq = if q == pos {
                        cm
                    } else if q < pos {
                        old_dv[q]
                    } else {
                        old_dv[q - 1]
                    };
                    assert(new_dv[p] == ep && new_dv[q] == eq);
                    if p == pos || q == pos {
                        let other = if p == pos {
                            eq
                        } else {
                            ep
                        };
                        assert(model.take(t as int).contains(other));
                        let w = choose|w: int|
                            0 <= w < model.take(t as int).len() && model.take(t as int)[w]
                                == other;
                        assert(model[w] == other);
                        assert(model[w].id != model[t as int].id);
                    }
                }
            }
            t = t + 1;
        }
        proof {
            assert(model.take(model.len() as int) =~= model);
            lemma_map_of_lists_dom(model);
            lemma_map_of_lists_val(model);
            assert forall|j: int| #![auto] 0 <= j < r.deep_view().len() implies self@.lists.contains_key(
                r.deep_view()[j].id,
            ) && self@.lists[r.deep_view()[j].id] == r.deep_view()[j] by {
                assert(model.contains(r.deep_view()[j]));
                let w = choose|w: int| 0 <= w < model.len() && model[w] == r.deep_view()[j];
                assert(map_of_lists(model)[model[w].id] == model[w]);
            }
            assert forall|k: Seq<char>| #![auto] self@.lists.contains_key(k) implies exists|j: int|
                0 <= j < r.deep_view().len() && r.deep_view()[j].id == k by {
                let q = choose|q: int| 0 <= q < model.len() && model[q].id == k;
            }
        }
        r
    }

    /// The current time, for stamping observations.
    pub fn current_timestamp() -> i64 {
        now_timestamp()
    }

    /// How many lists and items the mirror holds.
    pub fn get_stats(&self) -> (r: CacheStats)
        requires
            self.wf(),
        ensures
            r.total_lists == self@.lists.len(),
            r.total_items == self@.items.len(),
    {
        proof {
            lemma_map_of_lists_len(self.lists.deep_view());
            lemma_map_of_items_len(self.items.deep_view());
        }
        CacheStats { total_lists: self.lists.len(), total_items: self.items.len() }
    }
}

} // verus!
