//! The change formatter: a pure function from a change event to the
//! `(title, body, priority, tags)` tuple handed to the delivery sink, plus
//! the parsing of the configured comma-separated tag strings.

use vstd::prelude::*;

use crate::config::NtfyConfig;
use crate::config::{NtfyPriorities, NtfyTags};
use crate::diff::{ChangeModel, FieldChange, FieldChangeModel, ItemInfoModel, ListChange};

verus! {

/// The characters trimmed from the ends of a configured tag.
pub open spec fn is_space(c: char) -> bool {
    c == ' ' || c == '\t' || c == '\n' || c == '\r'
}

/// The string without its leading spaces.
pub open spec fn trim_front(s: Seq<char>) -> Seq<char>
    decreases s.len(),
{
    if s.len() > 0 && is_space(s.first()) {
        trim_front(s.drop_first())
    } else {
        s
    }
}

/// The string without its trailing spaces.
pub open spec fn trim_back(s: Seq<char>) -> Seq<char>
    decreases s.len(),
{
    if s.len() > 0 && is_space(s.last()) {
        trim_back(s.drop_last())
    } else {
        s
    }
}

/// The string without leading or trailing spaces.
pub open spec fn spec_trim(s: Seq<char>) -> Seq<char> {
    trim_back(trim_front(s))
}

/// The segments of a string between its commas; a string without commas is
/// one segment, and every comma starts a new (possibly empty) segment.
pub open spec fn split_commas(s: Seq<char>) -> Seq<Seq<char>>
    decreases s.len(),
{
    if s.len() == 0 {
        seq![Seq::<char>::empty()]
    } else if s.last() == ',' {
        split_commas(s.drop_last()).push(Seq::<char>::empty())
    } else {
        let pre = split_commas(s.drop_last());
        pre.update(pre.len() - 1, pre.last().push(s.last()))
    }
}

/// A segment's contribution to the parsed tags: its trimmed text, unless
/// that is empty.
pub open spec fn kept_tag(t: Seq<char>) -> Seq<Seq<char>> {
    if spec_trim(t).len() > 0 {
        seq![spec_trim(t)]
    } else {
        Seq::<Seq<char>>::empty()
    }
}

/// The tags of a sequence of segments, in order.
pub open spec fn tags_of_segments(segs: Seq<Seq<char>>) -> Seq<Seq<char>>
    decreases segs.len(),
{
    if segs.len() == 0 {
        Seq::<Seq<char>>::empty()
    } else {
        tags_of_segments(segs.drop_last()) + kept_tag(segs.last())
    }
}

/// What a comma-separated tag string parses to: each segment trimmed, empty
/// segments dropped.
pub open spec fn spec_parse_tags(s: Seq<char>) -> Seq<Seq<char>> {
    tags_of_segments(split_commas(s))
}

/// Splitting never yields an empty segment list.
proof fn lemma_split_commas_nonempty(s: Seq<char>)
    ensures
        split_commas(s).len() >= 1,
    decreases s.len(),
{
    if s.len() > 0 {
        lemma_split_commas_nonempty(s.drop_last());
    }
}

/// Decides whether a character is trimmed from tag ends.
fn is_space_char(c: char) -> (r: bool)
    ensures
        r == is_space(c),
{
    c == ' ' || c == '\t' || c == '\n' || c == '\r'
}

/// Dropping leading spaces reaches the first non-space position.
proof fn lemma_trim_front_skip(s: Seq<char>, a: int)
    requires
        0 <= a <= s.len(),
        forall|k: int| 0 <= k < a ==> is_space(s[k]),
        a == s.len() || !is_space(s[a]),
    ensures
        trim_front(s) == s.skip(a),
    decreases a,
{
    if a == 0 {
        assert(s.skip(0) =~= s);
    } else {
        assert(is_space(s.first()));
        lemma_trim_front_skip(s.drop_first(), a - 1);
        assert(s.drop_first().skip(a - 1) =~= s.skip(a));
    }
}

/// Dropping trailing spaces reaches the last non-space position.
proof fn lemma_trim_back_take(s: Seq<char>, b: int)
    requires
        0 <= b <= s.len(),
        forall|k: int| b <= k < s.len() ==> is_space(s[k]),
        b == 0 || !is_space(s[b - 1]),
    ensures
        trim_back(s) == s.take(b),
    decreases s.len(),
{
    if b == s.len() {
        if s.len() > 0 {
            assert(!is_space(s.last()));
        }
        assert(s.take(b) =~= s);
    } else {
        assert(is_space(s.last()));
        lemma_trim_back_take(s.drop_last(), b);
        assert(s.drop_last().take(b) =~= s.take(b));
    }
}

/// Copies a string without its leading and trailing spaces.
fn trim_str(s: &str) -> (r: String)
    ensures
        r@ == spec_trim(s@),
{
    let n = s.unicode_len();
    let mut a: usize = 0;
    let mut done: bool = false;
    while a < n && !done
        invariant
            n == s@.len(),
            0 <= a <= n,
            forall|k: int| 0 <= k < a ==> is_space(s@[k]),
            done ==> a < n && !is_space(s@[a as int]),
        decreases n - a + (if done { 0int } else { 1int }),
    {
        if is_space_char(s.get_char(a)) {
            a = a + 1;
        } else {
            done = true;
        }
    }
    proof {
        lemma_trim_front_skip(s@, a as int);
    }
    let mut b: usize = n;
    let mut done_b: bool = false;
    while b > a && !done_b
        invariant
            n == s@.len(),
            a <= b <= n,
            forall|k: int| b <= k < n ==> is_space(s@[k]),
            done_b ==> b > a && !is_space(s@[b - 1]),
        decreases b - a + (if done_b { 0int } else { 1int }),
    {
        if is_space_char(s.get_char(b - 1)) {
            b = b - 1;
        } else {
            done_b = true;
        }
    }
    let r = s.substring_char(a, b).to_owned();
    proof {
        let front = s@.skip(a as int);
        if b == a {
            lemma_trim_back_take(front, 0);
        } else {
            lemma_trim_back_take(front, b - a);
        }
        assert(front.take(b - a) =~= s@.subrange(a as int, b as int));
    }
    r
}

/// Parses a comma-separated tag string: each tag is trimmed of surrounding
/// spaces, and empty tags are dropped.
pub fn parse_tags(tags: &str) -> (r: Vec<String>)
    ensures
        r.deep_view() == spec_parse_tags(tags@),
{
    let n = tags.unicode_len();
    let mut result: Vec<String> = Vec::new();
    let mut seg_start: usize = 0;
    let mut i: usize = 0;
    proof {
        assert(tags@.take(0) =~= Seq::<char>::empty());
        assert(split_commas(tags@.take(0)).last() =~= tags@.subrange(0, 0));
    }
    while i < n
        invariant
            n == tags@.len(),
            0 <= seg_start <= i <= n,
            split_commas(tags@.take(i as int)).len() >= 1,
            split_commas(tags@.take(i as int)).last() == tags@.subrange(
                seg_start as int,
                i as int,
            ),
            result.deep_view() == tags_of_segments(
                split_commas(tags@.take(i as int)).drop_last(),
            ),
        decreases n - i,
    {
        let c = tags.get_char(i);
        proof {
            assert(tags@.take(i as int + 1).drop_last() =~= tags@.take(i as int));
            assert(tags@.take(i as int + 1).last() == tags@[i as int]);
            lemma_split_commas_nonempty(tags@.take(i as int + 1));
        }
        let ghost pre = split_commas(tags@.take(i as int));
        if c == ',' {
            let segment = tags.substring_char(seg_start, i);
            let t = trim_str(segment);
            let ghost before = result.deep_view();
            if !t.as_str().is_empty() {
                result.push(t);
                proof {
                    assert(result.deep_view() =~= before + kept_tag(pre.last()));
                }
            } else {
                proof {
                    assert(result.deep_view() =~= before + kept_tag(pre.last()));
                }
            }
            seg_start = i + 1;
            proof {
                let post = split_commas(tags@.take(i as int + 1));
                assert(post == pre.push(Seq::<char>::empty()));
                assert(post.drop_last() =~= pre);
                assert(result.deep_view() == tags_of_segments(pre));
                assert(post.last() =~= tags@.subrange(i as int + 1, i as int + 1));
            }
        } else {
            proof {
                let post = split_commas(tags@.take(i as int + 1));
                assert(post == pre.update(pre.len() - 1, pre.last().push(tags@[i as int])));
                assert(post.drop_last() =~= pre.drop_last());
                assert(post.last() == pre.last().push(tags@[i as int]));
                assert(pre.last().push(tags@[i as int]) =~= tags@.subrange(
                    seg_start as int,
                    i as int + 1,
                ));
            }
        }
        i = i + 1;
    }
    proof {
        assert(tags@.take(n as int) =~= tags@);
    }
    let segment = tags.substring_char(seg_start, n);
    let t = trim_str(segment);
    let ghost before = result.deep_view();
    let ghost segs = split_commas(tags@);
    if !t.as_str().is_empty() {
        result.push(t);
        proof {
            assert(result.deep_view() =~= before + kept_tag(segs.last()));
        }
    } else {
        proof {
            assert(result.deep_view() =~= before + kept_tag(segs.last()));
        }
    }
    proof {
        lemma_split_commas_nonempty(tags@);
        assert(segs.drop_last().push(segs.last()) =~= segs);
        assert(result.deep_view() == tags_of_segments(segs));
    }
    result
}

/// An optional value rendered with the literal token `none` when absent.
pub open spec fn opt_text(v: Option<Seq<char>>) -> Seq<char> {
    match v {
        Some(t) => t,
        None => "none"@,
    }
}

/// One rendered line for a field change: `{Field}: {old} \u{2192} {new}`,
/// with added/removed phrasing when one side of the details is empty, and
/// `none` for an absent optional value.
pub open spec fn field_change_line(fc: FieldChangeModel) -> Seq<char> {
    match fc {
        FieldChangeModel::Name { old, new } => "Name: "@ + old + " \u{2192} "@ + new,
        FieldChangeModel::Details { old, new } => {
            if old.len() == 0 {
                "Details added: "@ + new
            } else if new.len() == 0 {
                "Details removed: "@ + old
            } else {
                "Details: "@ + old + " \u{2192} "@ + new
            }
        },
        FieldChangeModel::Quantity { old, new } => "Quantity: "@ + opt_text(old) + " \u{2192} "@
            + opt_text(new),
        FieldChangeModel::Category { old, new } => "Category: "@ + opt_text(old) + " \u{2192} "@
            + opt_text(new),
    }
}

/// Lines joined by a newline; no trailing newline.
pub open spec fn spec_join(parts: Seq<Seq<char>>) -> Seq<char>
    decreases parts.len(),
{
    if parts.len() == 0 {
        Seq::<char>::empty()
    } else if parts.len() == 1 {
        parts[0]
    } else {
        spec_join(parts.drop_last()) + "\n"@ + parts.last()
    }
}

/// The rendered lines of a sequence of field changes, in order.
pub open spec fn spec_field_change_lines(changes: Seq<FieldChangeModel>) -> Seq<Seq<char>>
    decreases changes.len(),
{
    if changes.len() == 0 {
        Seq::<Seq<char>>::empty()
    } else {
        spec_field_change_lines(changes.drop_last()).push(field_change_line(changes.last()))
    }
}

/// The body text of a modification event: one line per field change.
pub open spec fn spec_format_field_changes(changes: Seq<FieldChangeModel>) -> Seq<char> {
    spec_join(spec_field_change_lines(changes))
}

/// The attribution line appended to a body when the change carries a user.
pub open spec fn attribution_suffix(user: Option<Seq<char>>) -> Seq<char> {
    match user {
        Some(u) => "\nChanged by: "@ + u,
        None => Seq::<char>::empty(),
    }
}

/// The body lines of an added-item event, in order: quantity if present,
/// details if non-empty, category if present, attribution if present.
pub open spec fn added_parts(item: ItemInfoModel, user: Option<Seq<char>>) -> Seq<Seq<char>> {
    (match item.quantity {
        Some(q) => seq!["Quantity: "@ + q],
        None => Seq::<Seq<char>>::empty(),
    }) + (if item.details.len() > 0 {
        seq!["Details: "@ + item.details]
    } else {
        Seq::<Seq<char>>::empty()
    }) + (match item.category {
        Some(cg) => seq!["Category: "@ + cg],
        None => Seq::<Seq<char>>::empty(),
    }) + (match user {
        Some(u) => seq!["Changed by: "@ + u],
        None => Seq::<Seq<char>>::empty(),
    })
}

/// The notification title of a change event.
pub open spec fn spec_title(c: ChangeModel) -> Seq<char> {
    match c {
        ChangeModel::ItemAdded { list_name, item, .. } => "\u{2795} "@ + item.name
            + " added to "@ + list_name,
        ChangeModel::ItemRemoved { list_name, item_name, .. } => "\u{274c} "@ + item_name
            + " removed from "@ + list_name,
        ChangeModel::ItemChecked { list_name, item_name, .. } => "\u{2705} "@ + item_name
            + " checked off in "@ + list_name,
        ChangeModel::ItemUnchecked { list_name, item_name, .. } => "\u{25c0}\u{fe0f} "@
            + item_name + " unchecked in "@ + list_name,
        ChangeModel::ItemModified { list_name, item_name, .. } => "\u{270f}\u{fe0f} "@
            + item_name + " modified in "@ + list_name,
    }
}

/// The notification body of a change event.
pub open spec fn spec_body(c: ChangeModel) -> Seq<char> {
    match c {
        ChangeModel::ItemAdded { list_name, item, user_id, .. } => {
            if added_parts(item, user_id).len() == 0 {
                "Added to "@ + list_name
            } else {
                spec_join(added_parts(item, user_id))
            }
        },
        ChangeModel::ItemRemoved { list_name, user_id, .. } => "Removed from "@ + list_name
            + attribution_suffix(user_id),
        ChangeModel::ItemChecked { list_name, user_id, .. } => "Checked off in "@ + list_name
            + attribution_suffix(user_id),
        ChangeModel::ItemUnchecked { list_name, user_id, .. } => "Unchecked in "@ + list_name
            + attribution_suffix(user_id),
        ChangeModel::ItemModified { changes, user_id, .. } => spec_format_field_changes(changes)
            + attribution_suffix(user_id),
    }
}

/// The configured priority for a change event's kind.
pub open spec fn spec_priority(p: &NtfyPriorities, c: ChangeModel) -> Seq<char> {
    match c {
        ChangeModel::ItemAdded { .. } => p.item_added@,
        ChangeModel::ItemRemoved { .. } => p.item_removed@,
        ChangeModel::ItemChecked { .. } => p.item_checked@,
        ChangeModel::ItemUnchecked { .. } => p.item_unchecked@,
        ChangeModel::ItemModified { .. } => p.item_modified@,
    }
}

/// The configured tag string for a change event's kind.
pub open spec fn spec_tag_string(t: &NtfyTags, c: ChangeModel) -> Seq<char> {
    match c {
        ChangeModel::ItemAdded { .. } => t.item_added@,
        ChangeModel::ItemRemoved { .. } => t.item_removed@,
        ChangeModel::ItemChecked { .. } => t.item_checked@,
        ChangeModel::ItemUnchecked { .. } => t.item_unchecked@,
        ChangeModel::ItemModified { .. } => t.item_modified@,
    }
}

/// Renders a user id for display in an attribution line.
pub fn format_user_id(user_id: &str) -> (r: String)
    ensures
        r@ == user_id@,
{
    user_id.to_owned()
}

/// Joins rendered lines with newlines.
fn join_lines(parts: &Vec<String>) -> (r: String)
    ensures
        r@ == spec_join(parts.deep_view()),
{
    let ghost model = parts.deep_view();
    let mut r = String::new();
    let mut i: usize = 0;
    while i < parts.len()
        invariant
            model == parts.deep_view(),
            model.len() == parts.len(),
            i <= parts.len(),
            r@ == spec_join(model.take(i as int)),
        decreases parts.len() - i,
    {
        proof {
            assert(model.take(i as int + 1).drop_last() =~= model.take(i as int));
            assert(model.take(i as int + 1).last() == model[i as int]);
        }
        if i > 0 {
            r.append("\n");
        }
        r.append(parts[i].as_str());
        proof {
            if i == 0 {
                assert(model.take(1)[0] == model[0]);
            }
        }
        i = i + 1;
    }
    proof {
        assert(model.take(parts.len() as int) =~= model);
    }
    r
}

/// Renders one field change as a line of the modification body.
fn line_of_field_change(fc: &FieldChange) -> (r: String)
    ensures
        r@ == field_change_line(fc@),
{
    match fc {
        FieldChange::Name { old, new } => {
            let mut s = String::new();
            s.append("Name: ");
            s.append(old.as_str());
            s.append(" \u{2192} ");
            s.append(new.as_str());
            s
        },
        FieldChange::Details { old, new } => {
            if old.as_str().is_empty() {
                let mut s = String::new();
                s.append("Details added: ");
                s.append(new.as_str());
                s
            } else if new.as_str().is_empty() {
                let mut s = String::new();
                s.append("Details removed: ");
                s.append(old.as_str());
                s
            } else {
                let mut s = String::new();
                s.append("Details: ");
                s.append(old.as_str());
                s.append(" \u{2192} ");
                s.append(new.as_str());
                s
            }
        },
        FieldChange::Quantity { old, new } => {
            let mut s = String::new();
            s.append("Quantity: ");
            match old {
                Some(o) => s.append(o.as_str()),
                None => s.append("none"),
            }
            s.append(" \u{2192} ");
            match new {
                Some(nv) => s.append(nv.as_str()),
                None => s.append("none"),
            }
            s
        },
        FieldChange::Category { old, new } => {
            let mut s = String::new();
            s.append("Category: ");
            match old {
                Some(o) => s.append(o.as_str()),
                None => s.append("none"),
            }
            s.append(" \u{2192} ");
            match new {
                Some(nv) => s.append(nv.as_str()),
                None => s.append("none"),
            }
            s
        },
    }
}

/// Renders the field changes of a modification event, one line each.
pub fn format_field_changes(changes: &Vec<FieldChange>) -> (r: String)
    ensures
        r@ == spec_format_field_changes(changes.deep_view()),
{
    let ghost model = changes.deep_view();
    let mut lines: Vec<String> = Vec::new();
    let mut i: usize = 0;
    while i < changes.len()
        invariant
            model == changes.deep_view(),
            model.len() == changes.len(),
            i <= changes.len(),
            lines.deep_view() == spec_field_change_lines(model.take(i as int)),
        decreases changes.len() - i,
    {
        proof {
            assert(model.take(i as int + 1).drop_last() =~= model.take(i as int));
            assert(model.take(i as int + 1).last() == model[i as int]);
        }
        let ghost before = lines.deep_view();
        lines.push(line_of_field_change(&changes[i]));
        proof {
            assert(lines.deep_view() =~= before.push(field_change_line(model[i as int])));
        }
        i = i + 1;
    }
    proof {
        assert(model.take(changes.len() as int) =~= model);
    }
    join_lines(&lines)
}

impl NtfyConfig {
    /// Renders a change event into the notification's title, body, priority
    /// and tags, from the configured per-event-kind settings.
    pub fn format_notification(&self, change: &ListChange) -> (r: (
        String,
        String,
        String,
        Vec<String>,
    ))
        ensures
            r.0@ == spec_title(change@),
            r.1@ == spec_body(change@),
            r.2@ == spec_priority(&self.priorities, change@),
            r.3.deep_view() == spec_parse_tags(spec_tag_string(&self.tags, change@)),
    {
        match change {
            ListChange::ItemAdded { list_name, item, user_id, .. } => {
                let mut title = String::new();
                title.append("\u{2795} ");
                title.append(item.name.as_str());
                title.append(" added to ");
                title.append(list_name.as_str());

                let mut parts: Vec<String> = Vec::new();
                if let Some(quantity) = &item.quantity {
                    let mut p = String::new();
                    p.append("Quantity: ");
                    p.append(quantity.as_str());
                    parts.push(p);
                }
                if !item.details.as_str().is_empty() {
                    let mut p = String::new();
                    p.append("Details: ");
                    p.append(item.details.as_str());
                    parts.push(p);
                }
                if let Some(category) = &item.category {
                    let mut p = String::new();
                    p.append("Category: ");
                    p.append(category.as_str());
                    parts.push(p);
                }
                if let Some(uid) = user_id {
                    let mut p = String::new();
                    p.append("Changed by: ");
                    let shown = format_user_id(uid.as_str());
                    p.append(shown.as_str());
                    parts.push(p);
                }
                proof {
                    assert(parts.deep_view() =~~= added_parts(
                        change@->ItemAdded_item,
                        change@->ItemAdded_user_id,
                    ));
                }

                let message = if parts.len() == 0 {
                    let mut m = String::new();
                    m.append("Added to ");
                    m.append(list_name.as_str());
                    m
                } else {
                    join_lines(&parts)
                };

                let priority = self.priorities.item_added.clone();
                let tags = parse_tags(self.tags.item_added.as_str());
                (title, message, priority, tags)
            },
            ListChange::ItemRemoved { list_name, item_name, user_id, .. } => {
                let mut title = String::new();
                title.append("\u{274c} ");
                title.append(item_name.as_str());
                title.append(" removed from ");
                title.append(list_name.as_str());

                let mut message = String::new();
                message.append("Removed from ");
                message.append(list_name.as_str());
                if let Some(uid) = user_id {
                    message.append("\nChanged by: ");
                    let shown = format_user_id(uid.as_str());
                    message.append(shown.as_str());
                }

                let priority = self.priorities.item_removed.clone();
                let tags = parse_tags(self.tags.item_removed.as_str());
                (title, message, priority, tags)
            },
            ListChange::ItemChecked { list_name, item_name, user_id, .. } => {
                let mut title = String::new();
                title.append("\u{2705} ");
                title.append(item_name.as_str());
                title.append(" checked off in ");
                title.append(list_name.as_str());

                let mut message = String::new();
                message.append("Checked off in ");
                message.append(list_name.as_str());
                if let Some(uid) = user_id {
                    message.append("\nChanged by: ");
                    let shown = format_user_id(uid.as_str());
                    message.append(shown.as_str());
                }

                let priority = self.priorities.item_checked.clone();
                let tags = parse_tags(self.tags.item_checked.as_str());
                (title, message, priority, tags)
            },
            ListChange::ItemUnchecked { list_name, item_name, user_id, .. } => {
                let mut title = String::new();
                title.append("\u{25c0}\u{fe0f} ");
                title.append(item_name.as_str());
                title.append(" unchecked in ");
                title.append(list_name.as_str());

                let mut message = String::new();
                message.append("Unchecked in ");
                message.append(list_name.as_str());
                if let Some(uid) = user_id {
                    message.append("\nChanged by: ");
                    let shown = format_user_id(uid.as_str());
                    message.append(shown.as_str());
                }

                let priority = self.priorities.item_unchecked.clone();
                let tags = parse_tags(self.tags.item_unchecked.as_str());
                (title, message, priority, tags)
            },
            ListChange::ItemModified { list_name, item_name, changes, user_id, .. } => {
                let mut title = String::new();
                title.append("\u{270f}\u{fe0f} ");
                title.append(item_name.as_str());
                title.append(" modified in ");
                title.append(list_name.as_str());

                let mut message = format_field_changes(changes);
                if let Some(uid) = user_id {
                    message.append("\nChanged by: ");
                    let shown = format_user_id(uid.as_str());
                    message.append(shown.as_str());
                }

                let priority = self.priorities.item_modified.clone();
                let tags = parse_tags(self.tags.item_modified.as_str());
                (title, message, priority, tags)
            },
        }
    }
}

} // verus!
