//! The groups of the roster: making, renaming and listing them.

use vstd::prelude::*;
use crate::models::{
    LocalGroup,
    LocalGroupView,
};
use crate::roster::{
    ascending_groups,
    current_timestamp,
    find_group,
    has_group,
    link_views,
    GroupLink,
    GroupLinkView,
    GroupRow,
    GroupRowView,
    RosterStore,
    RosterView,
    StoreError,
};
use crate::sieve::lemma_filter_none;

verus! {

/// The id that the next group gets: one more than the greatest id in use,
/// and 1 in a roster without groups.
pub open spec fn next_group_id(groups: Seq<GroupRowView>) -> int {
    if groups.len() == 0 {
        1
    } else {
        groups.last().id + 1
    }
}

/// The roster after a group was added to it.
pub open spec fn roster_with_group(roster: RosterView, group: GroupRowView) -> RosterView {
    RosterView { groups: roster.groups.push(group), ..roster }
}

/// The group that is stored under the next id with this name at this time.
pub open spec fn created_group(groups: Seq<GroupRowView>, name: Seq<char>, now: Seq<char>) -> GroupRowView {
    GroupRowView { id: next_group_id(groups) as i64, name, created_at: now }
}

/// A group without people, as it is shown.
pub open spec fn shown_empty(group: GroupRowView) -> LocalGroupView {
    LocalGroupView {
        id: group.id,
        name: group.name,
        created_at: group.created_at,
        members_count: 0,
    }
}

/// Makes a group with this name at the time `now`. It gets the next id and
/// has nobody in it. Where no id is left, the roster is full.
pub fn create_local_group_at(store: &mut RosterStore, name: String, now: &str) -> (r: Result<
    LocalGroup,
    StoreError,
>)
    requires
        old(store).wf(),
    ensures
        final(store).wf(),
        next_group_id(old(store)@.groups) > i64::MAX ==> r == Err::<LocalGroup, StoreError>(
            StoreError::Full,
        ) && final(store)@ == old(store)@,
        next_group_id(old(store)@.groups) <= i64::MAX ==> r is Ok && r->Ok_0@ == shown_empty(
            created_group(old(store)@.groups, name@, now@),
        ) && final(store)@ == roster_with_group(
            old(store)@,
            created_group(old(store)@.groups, name@, now@),
        ),
{
    let ghost before = store@;
    let n = store.groups.len();
    let id: i64 = if n == 0 {
        1
    } else {
        let last = store.groups[n - 1].id;
        assert(last == before.groups.last().id);
        if last == i64::MAX {
            return Err(StoreError::Full);
        }
        last + 1
    };
    let row = GroupRow { id, name: name.clone(), created_at: now.to_owned() };
    store.groups.push(row);
    proof {
        assert(store@.groups =~= before.groups.push(created_group(before.groups, name@, now@)));
        assert forall|i: int| 0 <= i < store@.links.len() implies has_group(
            store@.groups,
            (#[trigger] store@.links[i]).group_id,
        ) by {
            let k = choose|k: int|
                0 <= k < before.groups.len() && (#[trigger] before.groups[k]).id
                    == before.links[i].group_id;
            assert(store@.groups[k].id == before.links[i].group_id);
        }
    }
    Ok(LocalGroup { id, name, created_at: now.to_owned(), members_count: 0 })
}

/// Makes a group with this name at the current time, as
/// `create_local_group_at` does.
pub fn create_local_group(store: &mut RosterStore, name: String) -> (r: Result<
    LocalGroup,
    StoreError,
>)
    requires
        old(store).wf(),
    ensures
        final(store).wf(),
        next_group_id(old(store)@.groups) > i64::MAX ==> r == Err::<LocalGroup, StoreError>(
            StoreError::Full,
        ) && final(store)@ == old(store)@,
        next_group_id(old(store)@.groups) <= i64::MAX ==> r is Ok && exists|now: Seq<char>|
            r->Ok_0@ == shown_empty(#[trigger] created_group(old(store)@.groups, name@, now))
                && final(store)@ == roster_with_group(
                old(store)@,
                created_group(old(store)@.groups, name@, now),
            ),
{
    let now = current_timestamp();
    create_local_group_at(store, name, now.as_str())
}

/// The group `group` under the name `name` if it has the id `id`, and as it
/// is otherwise.
pub open spec fn renames(id: i64, name: Seq<char>) -> spec_fn(GroupRowView) -> GroupRowView {
    |g: GroupRowView|
        if g.id == id {
            GroupRowView { name, ..g }
        } else {
            g
        }
}

/// The roster after the group with this id got this name.
pub open spec fn roster_renamed(roster: RosterView, id: i64, name: Seq<char>) -> RosterView {
    RosterView { groups: roster.groups.map_values(renames(id, name)), ..roster }
}

/// Gives the group with this id the name `name`. Its id and the time of its
/// making stay. An id that no group has changes nothing.
pub fn update_local_group(store: &mut RosterStore, id: i64, name: String)
    requires
        old(store).wf(),
    ensures
        final(store).wf(),
        final(store)@ == roster_renamed(old(store)@, id, name@),
{
    let ghost before = store@;
    match find_group(&store.groups, id) {
        Some(i) => {
            let created_at = store.groups[i].created_at.clone();
            store.groups.set(i, GroupRow { id, name, created_at });
            assert(store@.groups =~= before.groups.map_values(renames(id, name@))) by {
                assert forall|k: int| 0 <= k < before.groups.len() implies store@.groups[k]
                    == renames(id, name@)(before.groups[k]) by {
                    if k != i {
                        assert(before.groups[k].id != before.groups[i as int].id);
                    }
                }
            }
        },
        None => {
            assert(store@.groups =~= before.groups.map_values(renames(id, name@))) by {
                assert forall|k: int| 0 <= k < before.groups.len() implies before.groups[k]
                    == renames(id, name@)(before.groups[k]) by {
                    assert(before.groups[k].id != id);
                }
            }
        },
    }
    proof {
        let after = store@;
        assert forall|k: int| 0 <= k < after.groups.len() implies (#[trigger] after.groups[k]).id
            == before.groups[k].id by {}
        assert(ascending_groups(after.groups)) by {
            assert forall|a: int, b: int| 0 <= a < b < after.groups.len() implies (
            #[trigger] after.groups[a]).id < (#[trigger] after.groups[b]).id by {
                assert(before.groups[a].id < before.groups[b].id);
            }
            assert forall|a: int| 0 <= a < after.groups.len() implies (
            #[trigger] after.groups[a]).id >= 1 by {
                assert(before.groups[a].id >= 1);
            }
        }
        assert forall|i: int| 0 <= i < after.links.len() implies has_group(
            after.groups,
            (#[trigger] after.links[i]).group_id,
        ) by {
            let k = choose|k: int|
                0 <= k < before.groups.len() && (#[trigger] before.groups[k]).id
                    == before.links[i].group_id;
            assert(after.groups[k].id == before.links[i].group_id);
        }
    }
}

/// The links into the group with this id.
pub open spec fn links_into(group_id: i64) -> spec_fn(GroupLinkView) -> bool {
    |l: GroupLinkView| l.group_id == group_id
}

/// How many people are in the group with this id.
pub open spec fn members_count(links: Seq<GroupLinkView>, group_id: i64) -> nat {
    links.filter(links_into(group_id)).len()
}

/// A group as it is shown, with the number of people that are in it now.
pub open spec fn shown_group(group: GroupRowView, links: Seq<GroupLinkView>) -> LocalGroupView {
    LocalGroupView {
        id: group.id,
        name: group.name,
        created_at: group.created_at,
        members_count: members_count(links, group.id) as i64,
    }
}

/// The groups of the roster as they are shown: the one made last first.
pub open spec fn shown_groups(roster: RosterView) -> Seq<LocalGroupView> {
    Seq::new(
        roster.groups.len(),
        |i: int| shown_group(roster.groups[roster.groups.len() - 1 - i], roster.links),
    )
}

/// The views of `groups`, in order.
pub open spec fn local_group_views(groups: Seq<LocalGroup>) -> Seq<LocalGroupView> {
    groups.map_values(|g: LocalGroup| g@)
}

fn count_links(links: &Vec<GroupLink>, group_id: i64) -> (count: i64)
    requires
        links@.len() <= i64::MAX,
    ensures
        count == members_count(link_views(links@), group_id),
{
    let ghost all = link_views(links@);
    let ghost into = links_into(group_id);
    let mut count: i64 = 0;
    let mut i: usize = 0;
    proof {
        assert(all.take(0) =~= Seq::empty());
        lemma_filter_none(all.take(0), into);
    }
    while i < links.len()
        invariant
            i <= links.len(),
            links@.len() <= i64::MAX,
            all == link_views(links@),
            into == links_into(group_id),
            0 <= count <= i,
            count == all.take(i as int).filter(into).len(),
        decreases links.len() - i,
    {
        proof {
            assert(all.take(i + 1) =~= all.take(i as int).push(all[i as int]));
            all.take(i as int).lemma_filter_push(all[i as int], into);
        }
        if links[i].group_id == group_id {
            count += 1;
        }
        i += 1;
    }
    assert(all.take(i as int) =~= all);
    count
}

/// The groups of the roster, the one made last first, each with the number
/// of people that are in it now.
pub fn list_local_groups(store: &RosterStore) -> (groups: Vec<LocalGroup>)
    requires
        store.wf(),
    ensures
        local_group_views(groups@) == shown_groups(store@),
{
    let n = store.groups.len();
    let mut out: Vec<LocalGroup> = Vec::new();
    let mut i: usize = 0;
    while i < n
        invariant
            i <= n == store.groups.len(),
            store.links@.len() <= i64::MAX,
            out@.len() == i,
            forall|k: int|
                0 <= k < i ==> (#[trigger] out@[k])@ == shown_group(
                    store@.groups[n - 1 - k],
                    store@.links,
                ),
        decreases n - i,
    {
        let row = &store.groups[n - 1 - i];
        out.push(
            LocalGroup {
                id: row.id,
                name: row.name.clone(),
                created_at: row.created_at.clone(),
                members_count: count_links(&store.links, row.id),
            },
        );
        i += 1;
    }
    assert(local_group_views(out@) =~= shown_groups(store@));
    out
}

} // verus!
