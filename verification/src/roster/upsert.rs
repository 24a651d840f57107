//! Taking people into the roster: a person who is stored already is
//! overwritten, a new person is stored behind all others.

use vstd::prelude::*;
use crate::models::{
    clone_opt,
    LocalMember,
    LocalMemberUpsert,
    LocalMemberUpsertView,
    LocalMemberView,
};
use crate::roster::{
    current_timestamp,
    distinct_members,
    find_member,
    has_member,
    member_views,
    roster_wf,
    upsert_views,
    RosterStore,
    RosterView,
};

verus! {

/// The row that is stored for `record` at the time `now`.
pub open spec fn stored_member(record: LocalMemberUpsertView, now: Seq<char>) -> LocalMemberView {
    LocalMemberView {
        user_id: record.user_id,
        username: record.username,
        name: record.name,
        avatar_url: record.avatar_url,
        updated_at: now,
        project_id: record.project_id,
        project_name: record.project_name,
    }
}

/// Where the person with this id is stored.
pub open spec fn member_position(members: Seq<LocalMemberView>, user_id: u64) -> int {
    choose|i: int| 0 <= i < members.len() && (#[trigger] members[i]).user_id == user_id
}

/// `members` after `row` was stored: in the place of the row with the same
/// id if there is one, and behind all others if there is none.
pub open spec fn upsert_one(members: Seq<LocalMemberView>, row: LocalMemberView) -> Seq<
    LocalMemberView,
> {
    if has_member(members, row.user_id) {
        members.update(member_position(members, row.user_id), row)
    } else {
        members.push(row)
    }
}

/// `members` after `records` were stored one after the other at the time
/// `now`.
pub open spec fn upserted(
    members: Seq<LocalMemberView>,
    records: Seq<LocalMemberUpsertView>,
    now: Seq<char>,
) -> Seq<LocalMemberView>
    decreases records.len(),
{
    if records.len() == 0 {
        members
    } else {
        upsert_one(upserted(members, records.drop_last(), now), stored_member(records.last(), now))
    }
}

/// Storing a row keeps the ids distinct, keeps everyone who was stored, and
/// stores nobody but them and the person of the row.
pub proof fn lemma_upsert_one(members: Seq<LocalMemberView>, row: LocalMemberView)
    requires
        distinct_members(members),
    ensures
        distinct_members(upsert_one(members, row)),
        forall|id: u64|
            has_member(upsert_one(members, row), id) <==> (id == row.user_id || has_member(
                members,
                id,
            )),
{
    let after = upsert_one(members, row);
    if has_member(members, row.user_id) {
        let p = member_position(members, row.user_id);
        assert forall|id: u64|
            has_member(after, id) <==> (id == row.user_id || has_member(members, id)) by {
            if has_member(after, id) {
                let i = choose|i: int| 0 <= i < after.len() && (#[trigger] after[i]).user_id == id;
                if i != p {
                    assert(members[i].user_id == id);
                }
            }
            if id == row.user_id {
                assert(after[p].user_id == id);
            } else if has_member(members, id) {
                let i = choose|i: int|
                    0 <= i < members.len() && (#[trigger] members[i]).user_id == id;
                assert(after[i].user_id == id);
            }
        }
    } else {
        assert forall|id: u64|
            has_member(after, id) <==> (id == row.user_id || has_member(members, id)) by {
            if has_member(after, id) {
                let i = choose|i: int| 0 <= i < after.len() && (#[trigger] after[i]).user_id == id;
                if i < members.len() {
                    assert(members[i].user_id == id);
                }
            }
            if id == row.user_id {
                assert(after[members.len() as int].user_id == id);
            } else if has_member(members, id) {
                let i = choose|i: int|
                    0 <= i < members.len() && (#[trigger] members[i]).user_id == id;
                assert(after[i].user_id == id);
            }
        }
    }
}

fn stored_row(record: &LocalMemberUpsert, now: &str) -> (row: LocalMember)
    ensures
        row@ == stored_member(record@, now@),
{
    LocalMember {
        user_id: record.user_id,
        username: record.username.clone(),
        name: record.name.clone(),
        avatar_url: clone_opt(&record.avatar_url),
        updated_at: now.to_owned(),
        project_id: record.project_id,
        project_name: clone_opt(&record.project_name),
    }
}

fn upsert_row(members: &mut Vec<LocalMember>, row: LocalMember)
    requires
        distinct_members(member_views(old(members)@)),
    ensures
        member_views(final(members)@) == upsert_one(member_views(old(members)@), row@),
{
    let ghost before = member_views(members@);
    match find_member(members, row.user_id) {
        Some(i) => {
            assert(before[i as int].user_id == row.user_id);
            assert(member_position(before, row.user_id) == i);
            members.set(i, row);
            assert(member_views(members@) =~= before.update(i as int, row@));
        },
        None => {
            members.push(row);
            assert(member_views(members@) =~= before.push(row@));
        },
    }
}

/// The roster after `records` were stored at the time `now`.
pub open spec fn roster_upserted(
    roster: RosterView,
    records: Seq<LocalMemberUpsertView>,
    now: Seq<char>,
) -> RosterView {
    RosterView { members: upserted(roster.members, records, now), ..roster }
}

/// Storing records keeps the ids distinct and keeps everyone who was stored.
pub proof fn lemma_upserted_keeps(
    members: Seq<LocalMemberView>,
    records: Seq<LocalMemberUpsertView>,
    now: Seq<char>,
)
    requires
        distinct_members(members),
    ensures
        distinct_members(upserted(members, records, now)),
        forall|id: u64| has_member(members, id) ==> has_member(upserted(members, records, now), id),
    decreases records.len(),
{
    if records.len() > 0 {
        lemma_upserted_keeps(members, records.drop_last(), now);
        lemma_upsert_one(
            upserted(members, records.drop_last(), now),
            stored_member(records.last(), now),
        );
    }
}

/// Stores `members` at the time `now`: a person who is stored already is
/// overwritten, the time included, and keeps their place; a new person is
/// stored behind all others. Of two records for one person the later wins.
pub fn upsert_local_members_at(store: &mut RosterStore, members: &Vec<LocalMemberUpsert>, now: &str)
    requires
        old(store).wf(),
    ensures
        final(store).wf(),
        final(store)@ == roster_upserted(old(store)@, upsert_views(members@), now@),
{
    let ghost records = upsert_views(members@);
    let mut i: usize = 0;
    assert(records.take(0) =~= Seq::empty());
    while i < members.len()
        invariant
            i <= members.len(),
            records == upsert_views(members@),
            store.groups == old(store).groups,
            store.links == old(store).links,
            roster_wf(old(store)@),
            member_views(store.members@) == upserted(old(store)@.members, records.take(i as int), now@),
        decreases members.len() - i,
    {
        proof {
            lemma_upserted_keeps(old(store)@.members, records.take(i as int), now@);
            assert(records.take(i + 1).drop_last() =~= records.take(i as int));
        }
        let row = stored_row(&members[i], now);
        upsert_row(&mut store.members, row);
        i += 1;
    }
    proof {
        assert(records.take(i as int) =~= records);
        lemma_upserted_keeps(old(store)@.members, records, now@);
    }
}

/// Stores `members` at the current time, as `upsert_local_members_at` does.
pub fn upsert_local_members(store: &mut RosterStore, members: Vec<LocalMemberUpsert>)
    requires
        old(store).wf(),
    ensures
        final(store).wf(),
        exists|now: Seq<char>|
            final(store)@ == #[trigger] roster_upserted(old(store)@, upsert_views(members@), now),
{
    let now = current_timestamp();
    upsert_local_members_at(store, &members, now.as_str());
}

/// The last record for a person is the one that stays: after `records` were
/// stored, the roster holds exactly one row for the person of `records[k]`
/// if no later record is for the same person, and the row is the one stored
/// for `records[k]`.
pub proof fn lemma_last_write_wins(
    members: Seq<LocalMemberView>,
    records: Seq<LocalMemberUpsertView>,
    now: Seq<char>,
    k: int,
)
    requires
        distinct_members(members),
        0 <= k < records.len(),
        forall|j: int| k < j < records.len() ==> records[j].user_id != records[k].user_id,
    ensures
        ({
            let after = upserted(members, records, now);
            let id = records[k].user_id;
            &&& has_member(after, id)
            &&& after[member_position(after, id)] == stored_member(records[k], now)
            &&& forall|i: int|
                0 <= i < after.len() && (#[trigger] after[i]).user_id == id ==> i == member_position(
                    after,
                    id,
                )
        }),
    decreases records.len(),
{
    let after = upserted(members, records, now);
    let id = records[k].user_id;
    let before = upserted(members, records.drop_last(), now);
    let row = stored_member(records.last(), now);
    lemma_upserted_keeps(members, records.drop_last(), now);
    lemma_upserted_keeps(members, records, now);
    lemma_upsert_one(before, row);
    assert(has_member(after, id)) by {
        if k < records.len() - 1 {
            lemma_last_write_wins(members, records.drop_last(), now, k);
        }
    }
    let p = member_position(after, id);
    if k == records.len() - 1 {
        if has_member(before, id) {
            let q = member_position(before, id);
            assert(after[q].user_id == id);
        } else {
            assert(after[before.len() as int].user_id == id);
        }
    } else {
        lemma_last_write_wins(members, records.drop_last(), now, k);
        let q = member_position(before, id);
        assert(row.user_id != id);
        if has_member(before, row.user_id) {
            let r = member_position(before, row.user_id);
            assert(r != q);
        }
        assert(after[q] == before[q]);
        assert(after[q].user_id == id);
    }
}

/// Of two calls that store records, the second decides: after both, the
/// roster holds exactly one row for the person of `second[k]` if no later
/// record of the second call is for the same person, and the row is the one
/// stored for `second[k]` at the time of the second call.
pub proof fn lemma_second_upsert_wins(
    members: Seq<LocalMemberView>,
    first: Seq<LocalMemberUpsertView>,
    earlier: Seq<char>,
    second: Seq<LocalMemberUpsertView>,
    later: Seq<char>,
    k: int,
)
    requires
        distinct_members(members),
        0 <= k < second.len(),
        forall|j: int| k < j < second.len() ==> second[j].user_id != second[k].user_id,
    ensures
        ({
            let after = upserted(upserted(members, first, earlier), second, later);
            let id = second[k].user_id;
            &&& distinct_members(after)
            &&& has_member(after, id)
            &&& after[member_position(after, id)] == stored_member(second[k], later)
            &&& forall|i: int|
                0 <= i < after.len() && (#[trigger] after[i]).user_id == id ==> i == member_position(
                    after,
                    id,
                )
        }),
{
    lemma_upserted_keeps(members, first, earlier);
    lemma_upserted_keeps(upserted(members, first, earlier), second, later);
    lemma_last_write_wins(upserted(members, first, earlier), second, later, k);
}

} // verus!
