//! The laws of the diff engine, the self-filter and the tag parser, proved
//! once and for all inputs: reconciling identical sets reports nothing; an
//! item present on only one side is reported exactly once, as an addition or
//! a removal; a checked-state flip and a field edit are reported separately;
//! filtering drops exactly the authenticated user's changes; parsed tags are
//! never empty.

use vstd::prelude::*;

use crate::diff::{
    added_event, change_user_id, checked_event, has_item_id, has_live_id, lookup_item,
    lookup_live, modified_event, removed_event, spec_added_events, spec_diff, spec_field_changes,
    spec_removed_events, spec_update_events, spec_update_events_for, ChangeModel,
    FieldChangeModel, distinct_item_ids, distinct_live_ids,
};
use crate::handler::{add_all_users, add_users, keeps_change, spec_filter_own};
use crate::models::LiveListModel;
use crate::models::{ItemModel, LiveItemModel, SharedUserModel};
use crate::notify::{kept_tag, spec_parse_tags, split_commas, tags_of_segments};

verus! {

/// Whether a mirrored item and a fetched item agree on every compared
/// field: id, name, details, quantity, category and checked flag.
pub open spec fn item_matches_live(c: ItemModel, l: LiveItemModel) -> bool {
    &&& c.id == l.id
    &&& c.name == l.name
    &&& c.details == l.details
    &&& c.quantity == l.quantity
    &&& c.category == l.category
    &&& c.is_checked == l.is_checked
}

/// The fetched items absent from the mirror, in fetched order.
pub open spec fn added_items(cached: Seq<ItemModel>, live: Seq<LiveItemModel>) -> Seq<
    LiveItemModel,
>
    decreases live.len(),
{
    if live.len() == 0 {
        Seq::<LiveItemModel>::empty()
    } else {
        added_items(cached, live.drop_last()) + (if !has_item_id(cached, live.last().id) {
            seq![live.last()]
        } else {
            Seq::<LiveItemModel>::empty()
        })
    }
}

/// The mirrored items absent from the fetched set, in mirrored order.
pub open spec fn removed_items(cached: Seq<ItemModel>, live: Seq<LiveItemModel>) -> Seq<ItemModel>
    decreases cached.len(),
{
    if cached.len() == 0 {
        Seq::<ItemModel>::empty()
    } else {
        removed_items(cached.drop_last(), live) + (if !has_live_id(live, cached.last().id) {
            seq![cached.last()]
        } else {
            Seq::<ItemModel>::empty()
        })
    }
}

/// How many fetched items carry the given id.
pub open spec fn count_live_with_id(s: Seq<LiveItemModel>, id: Seq<char>) -> int
    decreases s.len(),
{
    if s.len() == 0 {
        0
    } else {
        count_live_with_id(s.drop_last(), id) + (if s.last().id == id {
            1int
        } else {
            0int
        })
    }
}

/// How many mirrored items carry the given id.
pub open spec fn count_items_with_id(s: Seq<ItemModel>, id: Seq<char>) -> int
    decreases s.len(),
{
    if s.len() == 0 {
        0
    } else {
        count_items_with_id(s.drop_last(), id) + (if s.last().id == id {
            1int
        } else {
            0int
        })
    }
}

/// The checked-state and modification events that the diff derives for one
/// id: those of the fetched item with that id, compared against the
/// mirrored item with that id — nothing when either side lacks the id.
pub open spec fn update_events_for_id(
    list_id: Seq<char>,
    list_name: Seq<char>,
    cached: Seq<ItemModel>,
    live: Seq<LiveItemModel>,
    id: Seq<char>,
) -> Seq<ChangeModel> {
    match lookup_live(live, id) {
        Some(l) => match lookup_item(cached, l.id) {
            Some(c) => spec_update_events_for(list_id, list_name, c, l),
            None => Seq::<ChangeModel>::empty(),
        },
        None => Seq::<ChangeModel>::empty(),
    }
}

/// With distinct ids, the item at each position is the one its id looks up.
pub proof fn lemma_lookup_found(cached: Seq<ItemModel>, i: int)
    requires
        distinct_item_ids(cached),
        0 <= i < cached.len(),
    ensures
        lookup_item(cached, cached[i].id) == Some(cached[i]),
    decreases i,
{
    if i > 0 {
        assert(cached[0].id != cached[i].id);
        assert(distinct_item_ids(cached.drop_first()));
        lemma_lookup_found(cached.drop_first(), i - 1);
        assert(cached.drop_first()[i - 1] == cached[i]);
    }
}

/// With distinct ids, the fetched item at each position is the one its id
/// looks up.
pub proof fn lemma_lookup_live_found(live: Seq<LiveItemModel>, i: int)
    requires
        distinct_live_ids(live),
        0 <= i < live.len(),
    ensures
        lookup_live(live, live[i].id) == Some(live[i]),
    decreases i,
{
    if i > 0 {
        assert(live[0].id != live[i].id);
        assert(distinct_live_ids(live.drop_first()));
        lemma_lookup_live_found(live.drop_first(), i - 1);
        assert(live.drop_first()[i - 1] == live[i]);
    }
}

/// A fetched set that carries every id of the mirror yields no additions.
pub proof fn lemma_no_added_events(
    list_id: Seq<char>,
    list_name: Seq<char>,
    cached: Seq<ItemModel>,
    live: Seq<LiveItemModel>,
)
    requires
        forall|i: int| 0 <= i < live.len() ==> has_item_id(cached, (#[trigger] live[i]).id),
    ensures
        spec_added_events(list_id, list_name, cached, live) == Seq::<ChangeModel>::empty(),
    decreases live.len(),
{
    if live.len() > 0 {
        assert(forall|i: int|
            0 <= i < live.drop_last().len() ==> has_item_id(
                cached,
                (#[trigger] live.drop_last()[i]).id,
            ));
        lemma_no_added_events(list_id, list_name, cached, live.drop_last());
        assert(has_item_id(cached, live[live.len() - 1].id));
        assert(spec_added_events(list_id, list_name, cached, live) =~= Seq::<
            ChangeModel,
        >::empty());
    }
}

/// A mirror whose every id the fetched set still carries yields no removals.
pub proof fn lemma_no_removed_events(
    list_id: Seq<char>,
    list_name: Seq<char>,
    cached: Seq<ItemModel>,
    live: Seq<LiveItemModel>,
)
    requires
        forall|i: int| 0 <= i < cached.len() ==> has_live_id(live, (#[trigger] cached[i]).id),
    ensures
        spec_removed_events(list_id, list_name, cached, live) == Seq::<ChangeModel>::empty(),
    decreases cached.len(),
{
    if cached.len() > 0 {
        assert(forall|i: int|
            0 <= i < cached.drop_last().len() ==> has_live_id(
                live,
                (#[trigger] cached.drop_last()[i]).id,
            ));
        lemma_no_removed_events(list_id, list_name, cached.drop_last(), live);
        assert(has_live_id(live, cached[cached.len() - 1].id));
        assert(spec_removed_events(list_id, list_name, cached, live) =~= Seq::<
            ChangeModel,
        >::empty());
    }
}

/// An item that agrees on the checked flag and every compared field
/// contributes no update event.
pub proof fn lemma_no_update_for_matching(
    list_id: Seq<char>,
    list_name: Seq<char>,
    c: ItemModel,
    l: LiveItemModel,
)
    requires
        item_matches_live(c, l),
    ensures
        spec_update_events_for(list_id, list_name, c, l) == Seq::<ChangeModel>::empty(),
{
    assert(spec_field_changes(c, l) =~= Seq::<FieldChangeModel>::empty());
    assert(spec_update_events_for(list_id, list_name, c, l) =~= Seq::<ChangeModel>::empty());
}

/// Reconciling a mirror against a fetched set that matches it item for item
/// yields no events at all.
pub proof fn lemma_diff_of_identical_sets(
    list_id: Seq<char>,
    list_name: Seq<char>,
    cached: Seq<ItemModel>,
    live: Seq<LiveItemModel>,
)
    requires
        distinct_item_ids(cached),
        cached.len() == live.len(),
        forall|i: int| #![auto] 0 <= i < live.len() ==> item_matches_live(cached[i], live[i]),
    ensures
        spec_diff(list_id, list_name, cached, live) == Seq::<ChangeModel>::empty(),
{
    assert forall|i: int| 0 <= i < live.len() implies has_item_id(
        cached,
        (#[trigger] live[i]).id,
    ) by {
        lemma_lookup_found(cached, i);
    }
    assert forall|i: int| 0 <= i < cached.len() implies has_live_id(
        live,
        (#[trigger] cached[i]).id,
    ) by {
        assert(distinct_live_ids(live));
        lemma_lookup_live_found(live, i);
    }
    lemma_no_added_events(list_id, list_name, cached, live);
    lemma_no_removed_events(list_id, list_name, cached, live);
    lemma_no_update_events_of_identical(list_id, list_name, cached, live, live.len() as int);
    assert(live.take(live.len() as int) =~= live);
    assert(spec_diff(list_id, list_name, cached, live) =~= Seq::<ChangeModel>::empty());
}

/// No update events arise from any prefix of a fetched set that matches the
/// mirror item for item.
proof fn lemma_no_update_events_of_identical(
    list_id: Seq<char>,
    list_name: Seq<char>,
    cached: Seq<ItemModel>,
    live: Seq<LiveItemModel>,
    n: int,
)
    requires
        distinct_item_ids(cached),
        cached.len() == live.len(),
        forall|i: int| #![auto] 0 <= i < live.len() ==> item_matches_live(cached[i], live[i]),
        0 <= n <= live.len(),
    ensures
        spec_update_events(list_id, list_name, cached, live.take(n)) == Seq::<
            ChangeModel,
        >::empty(),
    decreases n,
{
    if n == 0 {
        assert(live.take(0).len() == 0);
    } else {
        lemma_no_update_events_of_identical(list_id, list_name, cached, live, n - 1);
        assert(live.take(n).drop_last() =~= live.take(n - 1));
        assert(live.take(n).last() == live[n - 1]);
        lemma_lookup_found(cached, n - 1);
        assert(lookup_item(cached, live[n - 1].id) == Some(cached[n - 1]));
        lemma_no_update_for_matching(list_id, list_name, cached[n - 1], live[n - 1]);
        assert(spec_update_events(list_id, list_name, cached, live.take(n)) =~= Seq::<
            ChangeModel,
        >::empty());
    }
}

/// The addition events are exactly the fetched-only items, rendered in
/// order.
pub proof fn lemma_added_events_are_renderings(
    list_id: Seq<char>,
    list_name: Seq<char>,
    cached: Seq<ItemModel>,
    live: Seq<LiveItemModel>,
)
    ensures
        spec_added_events(list_id, list_name, cached, live).len() == added_items(
            cached,
            live,
        ).len(),
        forall|j: int| #![auto]
            0 <= j < added_items(cached, live).len() ==> spec_added_events(
                list_id,
                list_name,
                cached,
                live,
            )[j] == added_event(list_id, list_name, added_items(cached, live)[j]),
    decreases live.len(),
{
    if live.len() > 0 {
        lemma_added_events_are_renderings(list_id, list_name, cached, live.drop_last());
    }
}

/// The removal events are exactly the mirror-only items, rendered in order —
/// each carries the mirrored name.
pub proof fn lemma_removed_events_are_renderings(
    list_id: Seq<char>,
    list_name: Seq<char>,
    cached: Seq<ItemModel>,
    live: Seq<LiveItemModel>,
)
    ensures
        spec_removed_events(list_id, list_name, cached, live).len() == removed_items(
            cached,
            live,
        ).len(),
        forall|j: int| #![auto]
            0 <= j < removed_items(cached, live).len() ==> spec_removed_events(
                list_id,
                list_name,
                cached,
                live,
            )[j] == removed_event(list_id, list_name, removed_items(cached, live)[j]),
    decreases cached.len(),
{
    if cached.len() > 0 {
        lemma_removed_events_are_renderings(list_id, list_name, cached.drop_last(), live);
    }
}

/// An id the fetch carries and the mirror lacks appears exactly once among
/// the added items — as the fetched item itself — and contributes no
/// checked-state or modification event.
pub proof fn lemma_added_exactly_once(
    list_id: Seq<char>,
    list_name: Seq<char>,
    cached: Seq<ItemModel>,
    live: Seq<LiveItemModel>,
    id: Seq<char>,
)
    requires
        distinct_live_ids(live),
        has_live_id(live, id),
        !has_item_id(cached, id),
    ensures
        count_live_with_id(added_items(cached, live), id) == 1,
        forall|j: int| #![auto]
            0 <= j < added_items(cached, live).len() && added_items(cached, live)[j].id == id
                ==> lookup_live(live, id) == Some(added_items(cached, live)[j]),
        update_events_for_id(list_id, list_name, cached, live, id) == Seq::<ChangeModel>::empty(),
{
    lemma_added_items_count(cached, live, id);
    lemma_lookup_live_id(live, id);
    let l = lookup_live(live, id)->Some_0;
    assert(lookup_item(cached, l.id) is None);
}

/// A successful lookup returns an item carrying the looked-up id.
proof fn lemma_lookup_live_id(live: Seq<LiveItemModel>, id: Seq<char>)
    requires
        lookup_live(live, id) is Some,
    ensures
        lookup_live(live, id)->Some_0.id == id,
    decreases live.len(),
{
    if live.len() > 0 && live[0].id != id {
        lemma_lookup_live_id(live.drop_first(), id);
    }
}

/// Among the added items, an id absent from the mirror is counted once per
/// fetched occurrence, and each occurrence is the fetched item its id looks
/// up.
proof fn lemma_added_items_count(
    cached: Seq<ItemModel>,
    live: Seq<LiveItemModel>,
    id: Seq<char>,
)
    requires
        distinct_live_ids(live),
        !has_item_id(cached, id),
    ensures
        count_live_with_id(added_items(cached, live), id) == count_live_with_id(live, id),
        has_live_id(live, id) ==> count_live_with_id(live, id) == 1,
        forall|j: int| #![auto]
            0 <= j < added_items(cached, live).len() && added_items(cached, live)[j].id == id
                ==> lookup_live(live, id) == Some(added_items(cached, live)[j]),
    decreases live.len(),
{
    if live.len() == 0 {
    } else {
        let pre = live.drop_last();
        assert(distinct_live_ids(pre));
        lemma_added_items_count(cached, pre, id);
        let ad = added_items(cached, live);
        let ad0 = added_items(cached, pre);
        if !has_item_id(cached, live.last().id) {
            assert(ad =~= ad0.push(live.last()));
            assert(ad.drop_last() =~= ad0);
            assert(count_live_with_id(ad, id) == count_live_with_id(ad0, id) + (
            if live.last().id == id {
                1int
            } else {
                0int
            }));
        } else {
            assert(ad =~= ad0);
        }
        if live.last().id == id {
            assert(count_live_with_id(pre, id) == 0) by {
                if has_live_id(pre, id) {
                    lemma_lookup_in_range(pre, id);
                    let k = choose|k: int| 0 <= k < pre.len() && (#[trigger] pre[k]).id == id;
                    assert(live[k].id == live[live.len() - 1].id);
                    assert(false);
                }
                lemma_count_zero_without_id(pre, id);
            }
            assert(lookup_live(live, id) == Some(live.last())) by {
                lemma_lookup_live_found(live, live.len() - 1);
            }
        } else {
            if has_live_id(live, id) && !has_live_id(pre, id) {
                lemma_lookup_in_range(live, id);
                let k = choose|k: int| 0 <= k < live.len() && (#[trigger] live[k]).id == id;
                assert(k < live.len() - 1);
                assert(pre[k].id == id);
                lemma_lookup_at_index(pre, k);
                assert(false);
            }
            if has_live_id(pre, id) {
                assert(lookup_live(live, id) == lookup_live(pre, id)) by {
                    lemma_lookup_live_prefix(live, id);
                }
            } else {
                lemma_count_zero_without_id(pre, id);
                lemma_count_zero_without_id(live, id);
            }
        }
        assert forall|j: int| #![auto]
            0 <= j < ad.len() && ad[j].id == id implies lookup_live(live, id) == Some(
            ad[j],
        ) by {
            if j < ad0.len() {
                assert(ad[j] == ad0[j]);
            } else {
                assert(ad[j] == live.last());
            }
        }
    }
}

/// A fetched set without an id counts no occurrence of it.
proof fn lemma_count_zero_without_id(live: Seq<LiveItemModel>, id: Seq<char>)
    requires
        !has_live_id(live, id),
    ensures
        count_live_with_id(live, id) == 0,
    decreases live.len(),
{
    if live.len() > 0 {
        if live.last().id == id {
            lemma_lookup_in_range_back(live);
        }
        assert(!has_live_id(live.drop_last(), id)) by {
            if has_live_id(live.drop_last(), id) {
                lemma_lookup_in_range(live.drop_last(), id);
                let k = choose|k: int|
                    0 <= k < live.drop_last().len() && (#[trigger] live.drop_last()[k]).id == id;
                lemma_lookup_at_index(live, k);
            }
        }
        lemma_count_zero_without_id(live.drop_last(), id);
    }
}

/// A carried id is found at some position.
proof fn lemma_lookup_in_range(live: Seq<LiveItemModel>, id: Seq<char>)
    requires
        has_live_id(live, id),
    ensures
        exists|k: int| 0 <= k < live.len() && (#[trigger] live[k]).id == id,
    decreases live.len(),
{
    if live.len() > 0 {
        if live[0].id == id {
            assert(live[0].id == id);
        } else {
            lemma_lookup_in_range(live.drop_first(), id);
            let k = choose|k: int|
                0 <= k < live.drop_first().len() && (#[trigger] live.drop_first()[k]).id == id;
            assert(live[k + 1].id == id);
        }
    }
}

/// An id present at some position is carried.
proof fn lemma_lookup_at_index(live: Seq<LiveItemModel>, k: int)
    requires
        0 <= k < live.len(),
    ensures
        has_live_id(live, live[k].id),
    decreases k,
{
    if live[0].id == live[k].id {
    } else {
        lemma_lookup_at_index(live.drop_first(), k - 1);
        assert(live.drop_first()[k - 1] == live[k]);
    }
}

/// The last item's id is carried.
proof fn lemma_lookup_in_range_back(live: Seq<LiveItemModel>)
    requires
        live.len() > 0,
    ensures
        has_live_id(live, live.last().id),
{
    lemma_lookup_at_index(live, live.len() - 1);
}

/// On a set whose prefix carries an id, the lookup ignores the last item.
proof fn lemma_lookup_live_prefix(live: Seq<LiveItemModel>, id: Seq<char>)
    requires
        live.len() > 0,
        has_live_id(live.drop_last(), id),
    ensures
        lookup_live(live, id) == lookup_live(live.drop_last(), id),
    decreases live.len(),
{
    let pre = live.drop_last();
    if live[0].id == id {
        assert(pre[0].id == id);
    } else {
        assert(pre[0].id != id);
        if pre.len() > 1 {
            assert(live.drop_first().drop_last() =~= pre.drop_first());
            assert(has_live_id(pre.drop_first(), id)) by {
                lemma_lookup_in_range(pre, id);
                let k = choose|k: int| 0 <= k < pre.len() && (#[trigger] pre[k]).id == id;
                assert(k > 0);
                lemma_lookup_at_index(pre.drop_first(), k - 1);
                assert(pre.drop_first()[k - 1] == pre[k]);
            }
            lemma_lookup_live_prefix(live.drop_first(), id);
        } else {
            assert(pre.len() == 1);
            assert(pre.drop_first().len() == 0);
            assert(lookup_live(pre.drop_first(), id) is None);
            assert(!has_live_id(pre, id));
            assert(false);
        }
    }
}

/// A successful mirror lookup returns an item carrying the looked-up id.
proof fn lemma_lookup_item_id(cached: Seq<ItemModel>, id: Seq<char>)
    requires
        lookup_item(cached, id) is Some,
    ensures
        lookup_item(cached, id)->Some_0.id == id,
    decreases cached.len(),
{
    if cached.len() > 0 && cached[0].id != id {
        lemma_lookup_item_id(cached.drop_first(), id);
    }
}

/// A mirrored set without an id counts no occurrence of it.
proof fn lemma_items_count_zero_without_id(cached: Seq<ItemModel>, id: Seq<char>)
    requires
        !has_item_id(cached, id),
    ensures
        count_items_with_id(cached, id) == 0,
    decreases cached.len(),
{
    if cached.len() > 0 {
        if cached.last().id == id {
            lemma_item_at_index(cached, cached.len() - 1);
        }
        assert(!has_item_id(cached.drop_last(), id)) by {
            if has_item_id(cached.drop_last(), id) {
                lemma_item_in_range(cached.drop_last(), id);
                let k = choose|k: int|
                    0 <= k < cached.drop_last().len() && (#[trigger] cached.drop_last()[k]).id
                        == id;
                lemma_item_at_index(cached, k);
            }
        }
        lemma_items_count_zero_without_id(cached.drop_last(), id);
    }
}

/// A carried id is found at some position of the mirror.
proof fn lemma_item_in_range(cached: Seq<ItemModel>, id: Seq<char>)
    requires
        has_item_id(cached, id),
    ensures
        exists|k: int| 0 <= k < cached.len() && (#[trigger] cached[k]).id == id,
    decreases cached.len(),
{
    if cached.len() > 0 {
        if cached[0].id == id {
            assert(cached[0].id == id);
        } else {
            lemma_item_in_range(cached.drop_first(), id);
            let k = choose|k: int|
                0 <= k < cached.drop_first().len() && (#[trigger] cached.drop_first()[k]).id == id;
            assert(cached[k + 1].id == id);
        }
    }
}

/// An id present at some position of the mirror is carried.
proof fn lemma_item_at_index(cached: Seq<ItemModel>, k: int)
    requires
        0 <= k < cached.len(),
    ensures
        has_item_id(cached, cached[k].id),
    decreases k,
{
    if cached[0].id == cached[k].id {
    } else {
        lemma_item_at_index(cached.drop_first(), k - 1);
        assert(cached.drop_first()[k - 1] == cached[k]);
    }
}

/// On a mirror whose prefix carries an id, the lookup ignores the last item.
proof fn lemma_lookup_item_prefix(cached: Seq<ItemModel>, id: Seq<char>)
    requires
        cached.len() > 0,
        has_item_id(cached.drop_last(), id),
    ensures
        lookup_item(cached, id) == lookup_item(cached.drop_last(), id),
    decreases cached.len(),
{
    let pre = cached.drop_last();
    if cached[0].id == id {
        assert(pre[0].id == id);
    } else {
        assert(pre[0].id != id);
        if pre.len() > 1 {
            assert(cached.drop_first().drop_last() =~= pre.drop_first());
            assert(has_item_id(pre.drop_first(), id)) by {
                lemma_item_in_range(pre, id);
                let k = choose|k: int| 0 <= k < pre.len() && (#[trigger] pre[k]).id == id;
                assert(k > 0);
                lemma_item_at_index(pre.drop_first(), k - 1);
                assert(pre.drop_first()[k - 1] == pre[k]);
            }
            lemma_lookup_item_prefix(cached.drop_first(), id);
        } else {
            assert(pre.len() == 1);
            assert(pre.drop_first().len() == 0);
            assert(lookup_item(pre.drop_first(), id) is None);
            assert(!has_item_id(pre, id));
            assert(false);
        }
    }
}

/// Among the removed items, an id absent from the fetch is counted once per
/// mirrored occurrence, and each occurrence is the mirrored item its id
/// looks up.
proof fn lemma_removed_items_count(
    cached: Seq<ItemModel>,
    live: Seq<LiveItemModel>,
    id: Seq<char>,
)
    requires
        distinct_item_ids(cached),
        !has_live_id(live, id),
    ensures
        count_items_with_id(removed_items(cached, live), id) == count_items_with_id(cached, id),
        has_item_id(cached, id) ==> count_items_with_id(cached, id) == 1,
        forall|j: int| #![auto]
            0 <= j < removed_items(cached, live).len() && removed_items(cached, live)[j].id == id
                ==> lookup_item(cached, id) == Some(removed_items(cached, live)[j]),
    decreases cached.len(),
{
    if cached.len() == 0 {
    } else {
        let pre = cached.drop_last();
        assert(distinct_item_ids(pre));
        lemma_removed_items_count(pre, live, id);
        let rm = removed_items(cached, live);
        let rm0 = removed_items(pre, live);
        if !has_live_id(live, cached.last().id) {
            assert(rm =~= rm0.push(cached.last()));
            assert(rm.drop_last() =~= rm0);
            assert(count_items_with_id(rm, id) == count_items_with_id(rm0, id) + (
            if cached.last().id == id {
                1int
            } else {
                0int
            }));
        } else {
            assert(rm =~= rm0);
        }
        if cached.last().id == id {
            assert(count_items_with_id(pre, id) == 0) by {
                if has_item_id(pre, id) {
                    lemma_item_in_range(pre, id);
                    let k = choose|k: int| 0 <= k < pre.len() && (#[trigger] pre[k]).id == id;
                    assert(cached[k].id == cached[cached.len() - 1].id);
                    assert(false);
                }
                lemma_items_count_zero_without_id(pre, id);
            }
            assert(lookup_item(cached, id) == Some(cached.last())) by {
                lemma_lookup_found(cached, cached.len() - 1);
            }
        } else {
            if has_item_id(cached, id) && !has_item_id(pre, id) {
                lemma_item_in_range(cached, id);
                let k = choose|k: int| 0 <= k < cached.len() && (#[trigger] cached[k]).id == id;
                assert(k < cached.len() - 1);
                assert(pre[k].id == id);
                lemma_item_at_index(pre, k);
                assert(false);
            }
            if has_item_id(pre, id) {
                assert(lookup_item(cached, id) == lookup_item(pre, id)) by {
                    lemma_lookup_item_prefix(cached, id);
                }
            } else {
                lemma_items_count_zero_without_id(pre, id);
                lemma_items_count_zero_without_id(cached, id);
            }
        }
        assert forall|j: int| #![auto]
            0 <= j < rm.len() && rm[j].id == id implies lookup_item(cached, id) == Some(
            rm[j],
        ) by {
            if j < rm0.len() {
                assert(rm[j] == rm0[j]);
            } else {
                assert(rm[j] == cached.last());
            }
        }
    }
}

/// An id the mirror carries and the fetch lacks appears exactly once among
/// the removed items — as the mirrored item itself, whose name the removal
/// event carries.
pub proof fn lemma_removed_exactly_once(
    cached: Seq<ItemModel>,
    live: Seq<LiveItemModel>,
    id: Seq<char>,
)
    requires
        distinct_item_ids(cached),
        has_item_id(cached, id),
        !has_live_id(live, id),
    ensures
        count_items_with_id(removed_items(cached, live), id) == 1,
        forall|j: int| #![auto]
            0 <= j < removed_items(cached, live).len() && removed_items(cached, live)[j].id == id
                ==> lookup_item(cached, id) == Some(removed_items(cached, live)[j]),
{
    lemma_removed_items_count(cached, live, id);
}

/// An item whose only difference is the checked flag yields exactly one
/// event: checked when the fetched flag is set, unchecked when it is
/// cleared — and no modification event.
pub proof fn lemma_checked_transition_only(
    list_id: Seq<char>,
    list_name: Seq<char>,
    c: ItemModel,
    l: LiveItemModel,
)
    requires
        c.is_checked != l.is_checked,
        c.name == l.name,
        c.details == l.details,
        c.quantity == l.quantity,
        c.category == l.category,
    ensures
        spec_update_events_for(list_id, list_name, c, l) == seq![
            checked_event(list_id, list_name, l),
        ],
        l.is_checked ==> checked_event(list_id, list_name, l) is ItemChecked,
        !l.is_checked ==> checked_event(list_id, list_name, l) is ItemUnchecked,
{
    assert(spec_field_changes(c, l) =~= Seq::<FieldChangeModel>::empty());
    assert(spec_update_events_for(list_id, list_name, c, l) =~= seq![
        checked_event(list_id, list_name, l),
    ]);
}

/// An item whose only difference is the quantity yields exactly one
/// modification event, carrying exactly one quantity change with the old and
/// new values — and no checked-state event.
pub proof fn lemma_quantity_change_only(
    list_id: Seq<char>,
    list_name: Seq<char>,
    c: ItemModel,
    l: LiveItemModel,
)
    requires
        c.is_checked == l.is_checked,
        c.name == l.name,
        c.details == l.details,
        c.quantity != l.quantity,
        c.category == l.category,
    ensures
        spec_update_events_for(list_id, list_name, c, l) == seq![
            modified_event(
                list_id,
                list_name,
                l,
                seq![FieldChangeModel::Quantity { old: c.quantity, new: l.quantity }],
            ),
        ],
{
    assert(spec_field_changes(c, l) =~= seq![
        FieldChangeModel::Quantity { old: c.quantity, new: l.quantity },
    ]);
    assert(spec_update_events_for(list_id, list_name, c, l) =~= seq![
        modified_event(list_id, list_name, l, spec_field_changes(c, l)),
    ]);
}

/// An item that changes both the checked flag and some other field yields
/// exactly two events: the checked-state transition, then one modification
/// event carrying the field changes.
pub proof fn lemma_checked_and_field_changes(
    list_id: Seq<char>,
    list_name: Seq<char>,
    c: ItemModel,
    l: LiveItemModel,
)
    requires
        c.is_checked != l.is_checked,
        spec_field_changes(c, l).len() > 0,
    ensures
        spec_update_events_for(list_id, list_name, c, l) == seq![
            checked_event(list_id, list_name, l),
            modified_event(list_id, list_name, l, spec_field_changes(c, l)),
        ],
{
    assert(spec_update_events_for(list_id, list_name, c, l) =~= seq![
        checked_event(list_id, list_name, l),
        modified_event(list_id, list_name, l, spec_field_changes(c, l)),
    ]);
}

/// For a one-item mirror and a one-item fetch sharing the id, the whole diff
/// is that item's update events.
pub proof fn lemma_diff_of_single_item(
    list_id: Seq<char>,
    list_name: Seq<char>,
    c: ItemModel,
    l: LiveItemModel,
)
    requires
        c.id == l.id,
    ensures
        spec_diff(list_id, list_name, seq![c], seq![l]) == spec_update_events_for(
            list_id,
            list_name,
            c,
            l,
        ),
{
    let cached = seq![c];
    let live = seq![l];
    assert(cached[0] == c);
    assert(live[0] == l);
    assert(lookup_item(cached, l.id) == Some(c));
    assert(lookup_live(live, c.id) == Some(l));
    assert(live.drop_last() =~= Seq::<LiveItemModel>::empty());
    assert(cached.drop_last() =~= Seq::<ItemModel>::empty());
    assert(spec_added_events(list_id, list_name, cached, live.drop_last()) =~= Seq::<
        ChangeModel,
    >::empty());
    assert(spec_removed_events(list_id, list_name, cached.drop_last(), live) =~= Seq::<
        ChangeModel,
    >::empty());
    assert(spec_update_events(list_id, list_name, cached, live.drop_last()) =~= Seq::<
        ChangeModel,
    >::empty());
    assert(spec_added_events(list_id, list_name, cached, live) =~= Seq::<ChangeModel>::empty());
    assert(spec_removed_events(list_id, list_name, cached, live) =~= Seq::<ChangeModel>::empty());
    assert(spec_update_events(list_id, list_name, cached, live) =~= spec_update_events_for(
        list_id,
        list_name,
        c,
        l,
    ));
    assert(spec_diff(list_id, list_name, cached, live) =~= spec_update_events_for(
        list_id,
        list_name,
        c,
        l,
    ));
}

/// Self-filtering drops exactly the events attributed to the authenticated
/// user: everything kept comes from the input and is not the user's own, and
/// every input event that is not the user's own — in particular every event
/// without attribution — is kept.
pub proof fn lemma_self_filtering(changes: Seq<ChangeModel>, me: Seq<char>)
    ensures
        forall|i: int| #![auto]
            0 <= i < spec_filter_own(changes, me).len() ==> keeps_change(
                spec_filter_own(changes, me)[i],
                me,
            ) && changes.contains(spec_filter_own(changes, me)[i]),
        forall|i: int| #![auto]
            0 <= i < changes.len() && keeps_change(changes[i], me) ==> spec_filter_own(
                changes,
                me,
            ).contains(changes[i]),
        forall|i: int| #![auto]
            0 <= i < changes.len() && change_user_id(changes[i]) is None ==> spec_filter_own(
                changes,
                me,
            ).contains(changes[i]),
    decreases changes.len(),
{
    let out = spec_filter_own(changes, me);
    if changes.len() > 0 {
        let rest = changes.drop_first();
        lemma_self_filtering(rest, me);
        let out0 = spec_filter_own(rest, me);
        let kept = if keeps_change(changes.first(), me) {
            seq![changes.first()]
        } else {
            Seq::<ChangeModel>::empty()
        };
        assert(out == kept + out0);
        assert forall|i: int| #![auto] 0 <= i < out.len() implies keeps_change(out[i], me)
            && changes.contains(out[i]) by {
            if i < kept.len() {
                assert(out[i] == changes.first());
                assert(changes[0] == changes.first());
            } else {
                assert(out[i] == out0[i - kept.len()]);
                let w = choose|w: int| 0 <= w < rest.len() && rest[w] == out0[i - kept.len()];
                assert(changes[w + 1] == rest[w]);
            }
        }
        assert forall|i: int| #![auto]
            0 <= i < changes.len() && keeps_change(changes[i], me) implies out.contains(
            changes[i],
        ) by {
            if i == 0 {
                assert(out[0] == changes.first());
            } else {
                assert(rest[i - 1] == changes[i]);
                assert(out0.contains(changes[i]));
                let w = choose|w: int| 0 <= w < out0.len() && out0[w] == changes[i];
                assert(out[kept.len() + w] == changes[i]);
            }
        }
        assert forall|i: int| #![auto]
            0 <= i < changes.len() && change_user_id(changes[i]) is None implies out.contains(
            changes[i],
        ) by {
            assert(keeps_change(changes[i], me));
        }
    }
}

/// Every parsed tag is non-empty: empty segments are dropped.
pub proof fn lemma_parse_tags_nonempty(s: Seq<char>)
    ensures
        forall|i: int| #![auto]
            0 <= i < spec_parse_tags(s).len() ==> spec_parse_tags(s)[i].len() > 0,
{
    lemma_tags_of_segments_nonempty(split_commas(s));
}

/// Each segment contributes only its trimmed, non-empty text.
proof fn lemma_tags_of_segments_nonempty(segs: Seq<Seq<char>>)
    ensures
        forall|i: int| #![auto]
            0 <= i < tags_of_segments(segs).len() ==> tags_of_segments(segs)[i].len() > 0,
    decreases segs.len(),
{
    if segs.len() > 0 {
        lemma_tags_of_segments_nonempty(segs.drop_last());
        let t = tags_of_segments(segs);
        let t0 = tags_of_segments(segs.drop_last());
        assert forall|i: int| #![auto] 0 <= i < t.len() implies t[i].len() > 0 by {
            if i < t0.len() {
                assert(t[i] == t0[i]);
            } else {
                assert(t[i] == kept_tag(segs.last())[i - t0.len()]);
            }
        }
    }
}

/// Rebuilding the user directory from one list's shared users is additive:
/// every entry that was present stays present, and every shared user gains
/// an entry with their display name.
proof fn lemma_add_users_additive(
    m: Map<Seq<char>, Seq<char>>,
    users: Seq<SharedUserModel>,
)
    ensures
        forall|k: Seq<char>| #![auto]
            m.contains_key(k) ==> add_users(m, users).contains_key(k),
        forall|i: int| #![auto]
            0 <= i < users.len() ==> add_users(m, users).contains_key(users[i].user_id),
    decreases users.len(),
{
    if users.len() > 0 {
        lemma_add_users_additive(m, users.drop_last());
        assert forall|i: int| #![auto] 0 <= i < users.len() implies add_users(
            m,
            users,
        ).contains_key(users[i].user_id) by {
            if i < users.len() - 1 {
                assert(users.drop_last()[i] == users[i]);
            }
        }
    }
}

/// Rebuilding the user directory from every fetched list is additive:
/// existing entries may be overwritten, never removed, and every shared user
/// of every fetched list is present afterwards.
pub proof fn lemma_user_directory_additive(
    m: Map<Seq<char>, Seq<char>>,
    lists: Seq<LiveListModel>,
)
    ensures
        forall|k: Seq<char>| #![auto]
            m.contains_key(k) ==> add_all_users(m, lists).contains_key(k),
        forall|i: int, j: int| #![auto]
            0 <= i < lists.len() && 0 <= j < lists[i].shared_users.len() ==> add_all_users(
                m,
                lists,
            ).contains_key(lists[i].shared_users[j].user_id),
    decreases lists.len(),
{
    if lists.len() > 0 {
        let pre = lists.drop_last();
        lemma_user_directory_additive(m, pre);
        lemma_add_users_additive(add_all_users(m, pre), lists.last().shared_users);
        assert forall|i: int, j: int| #![auto]
            0 <= i < lists.len() && 0 <= j < lists[i].shared_users.len() implies add_all_users(
            m,
            lists,
        ).contains_key(lists[i].shared_users[j].user_id) by {
            if i < lists.len() - 1 {
                assert(pre[i] == lists[i]);
            } else {
                assert(lists[i] == lists.last());
            }
        }
    }
}

} // verus!
