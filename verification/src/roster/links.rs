//! Putting people into groups.

use vstd::prelude::*;
use crate::models::LocalMemberView;
use crate::roster::{
    current_timestamp,
    distinct_links,
    find_group,
    find_member,
    has_group,
    has_link,
    has_member,
    link_capacity,
    link_exists,
    link_views,
    roster_wf,
    GroupLink,
    GroupLinkView,
    RosterStore,
    RosterView,
    StoreError,
};

verus! {

/// The link that puts this person into this group at this time.
pub open spec fn new_link(group_id: i64, user_id: u64, now: Seq<char>) -> GroupLinkView {
    GroupLinkView { group_id, user_id, created_at: now }
}

/// `links` after this person was put into this group: as they were if the
/// person is in the group already, and with one more link if not.
pub open spec fn link_one(
    links: Seq<GroupLinkView>,
    group_id: i64,
    user_id: u64,
    now: Seq<char>,
) -> Seq<GroupLinkView> {
    if has_link(links, group_id, user_id) {
        links
    } else {
        links.push(new_link(group_id, user_id, now))
    }
}

/// `links` after these people were put into this group one after the other.
pub open spec fn linked(
    links: Seq<GroupLinkView>,
    group_id: i64,
    user_ids: Seq<u64>,
    now: Seq<char>,
) -> Seq<GroupLinkView>
    decreases user_ids.len(),
{
    if user_ids.len() == 0 {
        links
    } else {
        link_one(linked(links, group_id, user_ids.drop_last(), now), group_id, user_ids.last(), now)
    }
}

/// Whether everyone of `user_ids` is stored.
pub open spec fn all_stored(members: Seq<LocalMemberView>, user_ids: Seq<u64>) -> bool {
    forall|k: int| 0 <= k < user_ids.len() ==> has_member(members, #[trigger] user_ids[k])
}

/// Whether `k` is the place of the first of `user_ids` who is not stored.
pub open spec fn is_first_stranger(members: Seq<LocalMemberView>, user_ids: Seq<u64>, k: int) -> bool {
    &&& 0 <= k < user_ids.len()
    &&& !has_member(members, user_ids[k])
    &&& forall|j: int| 0 <= j < k ==> has_member(members, #[trigger] user_ids[j])
}

/// The first of `user_ids` who is not stored.
pub open spec fn first_stranger(members: Seq<LocalMemberView>, user_ids: Seq<u64>) -> u64 {
    user_ids[choose|k: int| is_first_stranger(members, user_ids, k)]
}

/// Why these people cannot be put into this group, if they cannot: the
/// group is not stored, or one of them is not, or there is no room for the
/// new links. Putting nobody into a group is never refused.
pub open spec fn link_refusal(
    roster: RosterView,
    group_id: i64,
    user_ids: Seq<u64>,
    now: Seq<char>,
) -> Option<StoreError> {
    if user_ids.len() == 0 {
        None
    } else if !has_group(roster.groups, group_id) {
        Some(StoreError::UnknownGroup { group_id })
    } else if !all_stored(roster.members, user_ids) {
        Some(StoreError::UnknownMember { user_id: first_stranger(roster.members, user_ids) })
    } else if linked(roster.links, group_id, user_ids, now).len() > link_capacity() {
        Some(StoreError::Full)
    } else {
        None
    }
}

/// The roster after these people were put into this group.
pub open spec fn roster_linked(
    roster: RosterView,
    group_id: i64,
    user_ids: Seq<u64>,
    now: Seq<char>,
) -> RosterView {
    RosterView { links: linked(roster.links, group_id, user_ids, now), ..roster }
}

/// Putting people into a group puts nobody into it twice, keeps every link
/// that was there in its place, and adds links into this group alone, of
/// these people alone.
pub proof fn lemma_linked(
    links: Seq<GroupLinkView>,
    group_id: i64,
    user_ids: Seq<u64>,
    now: Seq<char>,
)
    requires
        distinct_links(links),
    ensures
        ({
            let after = linked(links, group_id, user_ids, now);
            &&& distinct_links(after)
            &&& links.len() <= after.len() <= links.len() + user_ids.len()
            &&& after.take(links.len() as int) == links
            &&& forall|i: int|
                links.len() <= i < after.len() ==> (#[trigger] after[i]).group_id == group_id
                    && user_ids.contains(after[i].user_id) && after[i].created_at == now
            &&& forall|k: int|
                0 <= k < user_ids.len() ==> has_link(after, group_id, #[trigger] user_ids[k])
        }),
    decreases user_ids.len(),
{
    let after = linked(links, group_id, user_ids, now);
    if user_ids.len() == 0 {
        assert(after.take(links.len() as int) =~= links);
    } else {
        let head = user_ids.drop_last();
        let last = user_ids.last();
        let before = linked(links, group_id, head, now);
        lemma_linked(links, group_id, head, now);
        assert(after.take(links.len() as int) =~= before.take(links.len() as int));
        assert forall|i: int| links.len() <= i < after.len() implies (#[trigger] after[i]).group_id
            == group_id && user_ids.contains(after[i].user_id) && after[i].created_at == now by {
            if i < before.len() {
                let u = before[i].user_id;
                let k = choose|k: int| 0 <= k < head.len() && head[k] == u;
                assert(user_ids[k] == u);
            } else {
                assert(user_ids[user_ids.len() - 1] == last);
            }
        }
        assert forall|k: int| 0 <= k < user_ids.len() implies has_link(
            after,
            group_id,
            #[trigger] user_ids[k],
        ) by {
            if k < head.len() {
                assert(has_link(before, group_id, head[k]));
                let i = choose|i: int|
                    0 <= i < before.len() && (#[trigger] before[i]).group_id == group_id
                        && before[i].user_id == head[k];
                assert(after[i] == before[i]);
            } else if has_link(before, group_id, last) {
            } else {
                assert(after[before.len() as int].user_id == last);
            }
        }
    }
}

/// Putting more people into a group never leaves fewer links than putting
/// the first of them into it.
pub proof fn lemma_linked_grows(
    links: Seq<GroupLinkView>,
    group_id: i64,
    user_ids: Seq<u64>,
    now: Seq<char>,
    k: int,
)
    requires
        0 <= k <= user_ids.len(),
    ensures
        linked(links, group_id, user_ids.take(k), now).len() <= linked(
            links,
            group_id,
            user_ids,
            now,
        ).len(),
    decreases user_ids.len() - k,
{
    if k == user_ids.len() {
        assert(user_ids.take(k) =~= user_ids);
    } else {
        lemma_linked_grows(links, group_id, user_ids, now, k + 1);
        assert(user_ids.take(k + 1).drop_last() =~= user_ids.take(k));
    }
}

/// Puts the people with `user_ids` into the group at the time `now`. Who is
/// in the group already is passed over. The group and each of the people
/// have to be stored: if anything is refused, nobody is put into the group.
pub fn add_members_to_group_at(
    store: &mut RosterStore,
    group_id: i64,
    user_ids: &Vec<u64>,
    now: &str,
) -> (r: Result<(), StoreError>)
    requires
        old(store).wf(),
    ensures
        final(store).wf(),
        match link_refusal(old(store)@, group_id, user_ids@, now@) {
            Some(e) => r == Err::<(), StoreError>(e) && final(store)@ == old(store)@,
            None => r is Ok && final(store)@ == roster_linked(
                old(store)@,
                group_id,
                user_ids@,
                now@,
            ),
        },
{
    let ghost before = store@;
    let ghost ids = user_ids@;
    if user_ids.len() == 0 {
        return Ok(());
    }
    match find_group(&store.groups, group_id) {
        Some(at) => {
            assert(before.groups[at as int].id == group_id);
        },
        None => {
            return Err(StoreError::UnknownGroup { group_id });
        },
    }
    let mut i: usize = 0;
    while i < user_ids.len()
        invariant
            i <= user_ids.len(),
            ids == user_ids@,
            ids.len() > 0,
            store@ == before,
            roster_wf(before),
            has_group(before.groups, group_id),
            forall|j: int| 0 <= j < i ==> has_member(before.members, #[trigger] ids[j]),
        decreases user_ids.len() - i,
    {
        let found = find_member(&store.members, user_ids[i]);
        if let Some(at) = found {
            assert(before.members[at as int].user_id == ids[i as int]);
        } else {
            proof {
                assert(is_first_stranger(before.members, ids, i as int));
                let k = choose|k: int| is_first_stranger(before.members, ids, k);
                assert(k == i) by {
                    if k < i {
                        assert(has_member(before.members, ids[k]));
                    } else if k > i {
                        assert(has_member(before.members, ids[i as int]));
                    }
                }
            }
            return Err(StoreError::UnknownMember { user_id: user_ids[i] });
        }
        i += 1;
    }
    assert(all_stored(before.members, ids));
    let held = store.links.len();
    let mut i: usize = 0;
    assert(ids.take(0) =~= Seq::empty());
    while i < user_ids.len()
        invariant
            i <= user_ids.len(),
            ids == user_ids@,
            roster_wf(before),
            ids.len() > 0,
            has_group(before.groups, group_id),
            all_stored(before.members, ids),
            store.members == old(store).members,
            store.groups == old(store).groups,
            before == old(store)@,
            held == before.links.len(),
            link_views(store.links@) == linked(before.links, group_id, ids.take(i as int), now@),
            store.links@.len() <= i64::MAX,
        decreases user_ids.len() - i,
    {
        proof {
            assert(ids.take(i + 1).drop_last() =~= ids.take(i as int));
            lemma_linked(before.links, group_id, ids.take(i as int), now@);
        }
        if !link_exists(&store.links, group_id, user_ids[i]) {
            if store.links.len() as u64 >= i64::MAX as u64 {
                proof {
                    lemma_linked_grows(before.links, group_id, ids, now@, i + 1);
                    assert(linked(before.links, group_id, ids.take(i + 1), now@).len()
                        == store.links@.len() + 1);
                }
                store.links.truncate(held);
                assert(link_views(store.links@) =~= before.links);
                return Err(StoreError::Full);
            }
            let ghost so_far = link_views(store.links@);
            store.links.push(GroupLink { group_id, user_id: user_ids[i], created_at: now.to_owned() });
            assert(link_views(store.links@) =~= so_far.push(
                new_link(group_id, ids[i as int], now@),
            ));
        }
        i += 1;
    }
    proof {
        assert(ids.take(i as int) =~= ids);
        lemma_linked(before.links, group_id, ids, now@);
        let after = store@;
        assert forall|n: int| 0 <= n < after.links.len() implies has_group(
            after.groups,
            (#[trigger] after.links[n]).group_id,
        ) && has_member(after.members, after.links[n].user_id) by {
            if n < before.links.len() {
                assert(after.links[n] == after.links.take(before.links.len() as int)[n]);
                assert(after.links[n] == before.links[n]);
                assert(has_group(before.groups, before.links[n].group_id));
            } else {
                let u = after.links[n].user_id;
                let k = choose|k: int| 0 <= k < ids.len() && ids[k] == u;
                assert(has_member(before.members, ids[k]));
            }
        }
    }
    Ok(())
}

/// Puts the people with `user_ids` into the group at the current time, as
/// `add_members_to_group_at` does.
pub fn add_members_to_group(store: &mut RosterStore, group_id: i64, user_ids: Vec<u64>) -> (r:
    Result<(), StoreError>)
    requires
        old(store).wf(),
    ensures
        final(store).wf(),
        exists|now: Seq<char>|
            match #[trigger] link_refusal(old(store)@, group_id, user_ids@, now) {
                Some(e) => r == Err::<(), StoreError>(e) && final(store)@ == old(store)@,
                None => r is Ok && final(store)@ == roster_linked(
                    old(store)@,
                    group_id,
                    user_ids@,
                    now,
                ),
            },
{
    let now = current_timestamp();
    add_members_to_group_at(store, group_id, &user_ids, now.as_str())
}

/// Putting people into a group in which they all are already changes
/// nothing and is not refused.
pub proof fn lemma_linking_again_changes_nothing(
    roster: RosterView,
    group_id: i64,
    user_ids: Seq<u64>,
    now: Seq<char>,
)
    requires
        roster_wf(roster),
        forall|k: int|
            0 <= k < user_ids.len() ==> has_link(roster.links, group_id, #[trigger] user_ids[k]),
    ensures
        link_refusal(roster, group_id, user_ids, now) is None,
        roster_linked(roster, group_id, user_ids, now) == roster,
    decreases user_ids.len(),
{
    if user_ids.len() > 0 {
        let head = user_ids.drop_last();
        assert forall|k: int| 0 <= k < head.len() implies has_link(
            roster.links,
            group_id,
            #[trigger] head[k],
        ) by {
            assert(head[k] == user_ids[k]);
        }
        lemma_linking_again_changes_nothing(roster, group_id, head, now);
        assert(has_link(roster.links, group_id, user_ids[user_ids.len() - 1]));
        assert forall|k: int| 0 <= k < user_ids.len() implies has_member(
            roster.members,
            #[trigger] user_ids[k],
        ) && has_group(roster.groups, group_id) by {
            let i = choose|i: int|
                0 <= i < roster.links.len() && (#[trigger] roster.links[i]).group_id == group_id
                    && roster.links[i].user_id == user_ids[k];
            assert(has_member(roster.members, roster.links[i].user_id));
        }
        assert(has_member(roster.members, user_ids[0]) && has_group(roster.groups, group_id));
    }
}

} // verus!
