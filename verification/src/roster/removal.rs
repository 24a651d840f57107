//! Taking people, groups and links out of the roster, and with them
//! whatever would be left hanging.

use vstd::prelude::*;
use crate::models::{
    LocalMember,
    LocalMemberView,
};
use crate::roster::{
    ascending_groups,
    distinct_links,
    distinct_members,
    group_views,
    has_group,
    has_link,
    has_member,
    link_views,
    member_views,
    roster_wf,
    GroupLink,
    GroupLinkView,
    GroupRow,
    GroupRowView,
    RosterStore,
    RosterView,
};
use crate::sieve::{
    lemma_filter_members,
    lemma_filter_none,
    lemma_filter_origin,
    origin,
};

verus! {

/// The people that stay when those with one of `ids` leave.
pub open spec fn keeps_member(ids: Seq<u64>) -> spec_fn(LocalMemberView) -> bool {
    |m: LocalMemberView| !ids.contains(m.user_id)
}

/// The groups that stay when the one with this id leaves.
pub open spec fn keeps_group(id: i64) -> spec_fn(GroupRowView) -> bool {
    |g: GroupRowView| g.id != id
}

/// Whether a link is one of those meant: of the given group, if one is
/// given, and of one of the given people, if some are given.
pub open spec fn link_selected(
    link: GroupLinkView,
    group: Option<i64>,
    users: Option<Seq<u64>>,
) -> bool {
    &&& group matches Some(g) ==> link.group_id == g
    &&& users matches Some(ids) ==> ids.contains(link.user_id)
}

/// The links that stay when the selected ones leave.
pub open spec fn keeps_link(group: Option<i64>, users: Option<Seq<u64>>) -> spec_fn(
    GroupLinkView,
) -> bool {
    |l: GroupLinkView| !link_selected(l, group, users)
}

/// Taking people out keeps the ids of the others distinct.
pub proof fn lemma_filter_distinct_members(
    members: Seq<LocalMemberView>,
    keep: spec_fn(LocalMemberView) -> bool,
)
    requires
        distinct_members(members),
    ensures
        distinct_members(members.filter(keep)),
{
    lemma_filter_origin(members, keep);
    let f = members.filter(keep);
    assert forall|i: int, j: int| 0 <= i < j < f.len() implies (#[trigger] f[i]).user_id != (
    #[trigger] f[j]).user_id by {
        let a = origin(members, keep, i);
        let b = origin(members, keep, j);
        assert(members[a].user_id != members[b].user_id);
    }
}

/// Taking groups out keeps the ids of the others in order.
pub proof fn lemma_filter_ascending_groups(
    groups: Seq<GroupRowView>,
    keep: spec_fn(GroupRowView) -> bool,
)
    requires
        ascending_groups(groups),
    ensures
        ascending_groups(groups.filter(keep)),
{
    lemma_filter_origin(groups, keep);
    let f = groups.filter(keep);
    assert forall|i: int| 0 <= i < f.len() implies (#[trigger] f[i]).id >= 1 by {
        let a = origin(groups, keep, i);
        assert(groups[a].id >= 1);
    }
    assert forall|i: int, j: int| 0 <= i < j < f.len() implies (#[trigger] f[i]).id < (
    #[trigger] f[j]).id by {
        let a = origin(groups, keep, i);
        let b = origin(groups, keep, j);
        assert(groups[a].id < groups[b].id);
    }
}

/// Taking links out leaves no person in a group twice, and every link that
/// stays was there before.
pub proof fn lemma_filter_distinct_links(
    links: Seq<GroupLinkView>,
    keep: spec_fn(GroupLinkView) -> bool,
)
    requires
        distinct_links(links),
    ensures
        distinct_links(links.filter(keep)),
        links.filter(keep).len() <= links.len(),
        forall|g: i64, u: u64| has_link(links.filter(keep), g, u) ==> has_link(links, g, u),
{
    lemma_filter_origin(links, keep);
    links.lemma_filter_len(keep);
    let f = links.filter(keep);
    assert forall|i: int, j: int| 0 <= i < j < f.len() implies !((#[trigger] f[i]).group_id == (
    #[trigger] f[j]).group_id && f[i].user_id == f[j].user_id) by {
        let a = origin(links, keep, i);
        let b = origin(links, keep, j);
        assert(!(links[a].group_id == links[b].group_id && links[a].user_id == links[b].user_id));
    }
    assert forall|g: i64, u: u64| has_link(f, g, u) implies has_link(links, g, u) by {
        let i = choose|i: int|
            0 <= i < f.len() && (#[trigger] f[i]).group_id == g && f[i].user_id == u;
        let a = origin(links, keep, i);
        assert(links[a].group_id == g && links[a].user_id == u);
    }
}

/// Whether `id` is one of `ids`.
fn contains_id(ids: &Vec<u64>, id: u64) -> (b: bool)
    ensures
        b == ids@.contains(id),
{
    let mut i: usize = 0;
    while i < ids.len()
        invariant
            i <= ids.len(),
            forall|k: int| 0 <= k < i ==> ids[k] != id,
        decreases ids.len() - i,
    {
        if ids[i] == id {
            return true;
        }
        i += 1;
    }
    false
}

fn kept_members(members: &Vec<LocalMember>, ids: &Vec<u64>) -> (out: Vec<LocalMember>)
    ensures
        member_views(out@) == member_views(members@).filter(keeps_member(ids@)),
{
    let ghost all = member_views(members@);
    let ghost keep = keeps_member(ids@);
    let mut out: Vec<LocalMember> = Vec::new();
    let mut i: usize = 0;
    proof {
        assert(all.take(0) =~= Seq::empty());
        lemma_filter_none(all.take(0), keep);
        assert(member_views(out@) =~= Seq::empty());
    }
    while i < members.len()
        invariant
            i <= members.len(),
            all == member_views(members@),
            keep == keeps_member(ids@),
            member_views(out@) == all.take(i as int).filter(keep),
        decreases members.len() - i,
    {
        proof {
            assert(all.take(i + 1) =~= all.take(i as int).push(all[i as int]));
            all.take(i as int).lemma_filter_push(all[i as int], keep);
        }
        if !contains_id(ids, members[i].user_id) {
            let ghost before = member_views(out@);
            out.push(members[i].clone());
            assert(member_views(out@) =~= before.push(all[i as int]));
        }
        i += 1;
    }
    assert(all.take(i as int) =~= all);
    out
}

fn kept_groups(groups: &Vec<GroupRow>, id: i64) -> (out: Vec<GroupRow>)
    ensures
        group_views(out@) == group_views(groups@).filter(keeps_group(id)),
{
    let ghost all = group_views(groups@);
    let ghost keep = keeps_group(id);
    let mut out: Vec<GroupRow> = Vec::new();
    let mut i: usize = 0;
    proof {
        assert(all.take(0) =~= Seq::empty());
        lemma_filter_none(all.take(0), keep);
        assert(group_views(out@) =~= Seq::empty());
    }
    while i < groups.len()
        invariant
            i <= groups.len(),
            all == group_views(groups@),
            keep == keeps_group(id),
            group_views(out@) == all.take(i as int).filter(keep),
        decreases groups.len() - i,
    {
        proof {
            assert(all.take(i + 1) =~= all.take(i as int).push(all[i as int]));
            all.take(i as int).lemma_filter_push(all[i as int], keep);
        }
        if groups[i].id != id {
            let ghost before = group_views(out@);
            out.push(groups[i].clone());
            assert(group_views(out@) =~= before.push(all[i as int]));
        }
        i += 1;
    }
    assert(all.take(i as int) =~= all);
    out
}

/// The ids behind an optional list of ids.
pub open spec fn ids_of(users: Option<&Vec<u64>>) -> Option<Seq<u64>> {
    match users {
        Some(ids) => Some(ids@),
        None => None,
    }
}

fn selects(link: &GroupLink, group: Option<i64>, users: Option<&Vec<u64>>) -> (b: bool)
    ensures
        b == link_selected(link@, group, ids_of(users)),
{
    let of_group = match group {
        Some(g) => link.group_id == g,
        None => true,
    };
    let of_users = match users {
        Some(ids) => contains_id(ids, link.user_id),
        None => true,
    };
    of_group && of_users
}

fn kept_links(links: &Vec<GroupLink>, group: Option<i64>, users: Option<&Vec<u64>>) -> (out: Vec<
    GroupLink,
>)
    ensures
        link_views(out@) == link_views(links@).filter(keeps_link(group, ids_of(users))),
{
    let ghost all = link_views(links@);
    let ghost keep = keeps_link(group, ids_of(users));
    let mut out: Vec<GroupLink> = Vec::new();
    let mut i: usize = 0;
    proof {
        assert(all.take(0) =~= Seq::empty());
        lemma_filter_none(all.take(0), keep);
        assert(link_views(out@) =~= Seq::empty());
    }
    while i < links.len()
        invariant
            i <= links.len(),
            all == link_views(links@),
            keep == keeps_link(group, ids_of(users)),
            link_views(out@) == all.take(i as int).filter(keep),
        decreases links.len() - i,
    {
        proof {
            assert(all.take(i + 1) =~= all.take(i as int).push(all[i as int]));
            all.take(i as int).lemma_filter_push(all[i as int], keep);
        }
        if !selects(&links[i], group, users) {
            let ghost before = link_views(out@);
            out.push(links[i].clone());
            assert(link_views(out@) =~= before.push(all[i as int]));
        }
        i += 1;
    }
    assert(all.take(i as int) =~= all);
    out
}

/// The roster after the people with one of `ids` left it, and with them
/// every link of theirs.
pub open spec fn roster_without_members(roster: RosterView, ids: Seq<u64>) -> RosterView {
    RosterView {
        members: roster.members.filter(keeps_member(ids)),
        groups: roster.groups,
        links: roster.links.filter(keeps_link(None, Some(ids))),
    }
}

/// The roster after the group with this id left it, and with it every link
/// into it.
pub open spec fn roster_without_group(roster: RosterView, id: i64) -> RosterView {
    RosterView {
        members: roster.members,
        groups: roster.groups.filter(keeps_group(id)),
        links: roster.links.filter(keeps_link(Some(id), None)),
    }
}

/// The roster after the people with one of `ids` left the group.
pub open spec fn roster_without_links(roster: RosterView, group_id: i64, ids: Seq<u64>) -> RosterView {
    RosterView { links: roster.links.filter(keeps_link(Some(group_id), Some(ids))), ..roster }
}

/// A roster stays sound when people leave it.
pub proof fn lemma_without_members_wf(roster: RosterView, ids: Seq<u64>)
    requires
        roster_wf(roster),
    ensures
        roster_wf(roster_without_members(roster, ids)),
{
    let after = roster_without_members(roster, ids);
    let keep_m = keeps_member(ids);
    let keep_l = keeps_link(None, Some(ids));
    lemma_filter_distinct_members(roster.members, keep_m);
    lemma_filter_distinct_links(roster.links, keep_l);
    lemma_filter_origin(roster.links, keep_l);
    lemma_filter_members(roster.members, keep_m);
    assert forall|i: int| 0 <= i < after.links.len() implies has_group(
        after.groups,
        (#[trigger] after.links[i]).group_id,
    ) && has_member(after.members, after.links[i].user_id) by {
        let link = after.links[i];
        let a = origin(roster.links, keep_l, i);
        assert(roster.links[a] == link);
        roster.links.lemma_filter_pred(keep_l, i);
        assert(!ids.contains(link.user_id));
        let k = choose|k: int|
            0 <= k < roster.members.len() && (#[trigger] roster.members[k]).user_id == link.user_id;
        let m = roster.members[k];
        assert(roster.members.contains(m));
        assert(after.members.contains(m));
        let n = choose|n: int| 0 <= n < after.members.len() && after.members[n] == m;
        assert(after.members[n].user_id == link.user_id);
    }
}

/// A roster stays sound when a group leaves it.
pub proof fn lemma_without_group_wf(roster: RosterView, id: i64)
    requires
        roster_wf(roster),
    ensures
        roster_wf(roster_without_group(roster, id)),
{
    let after = roster_without_group(roster, id);
    let keep_g = keeps_group(id);
    let keep_l = keeps_link(Some(id), None);
    lemma_filter_ascending_groups(roster.groups, keep_g);
    lemma_filter_distinct_links(roster.links, keep_l);
    lemma_filter_origin(roster.links, keep_l);
    lemma_filter_members(roster.groups, keep_g);
    assert forall|i: int| 0 <= i < after.links.len() implies has_group(
        after.groups,
        (#[trigger] after.links[i]).group_id,
    ) && has_member(after.members, after.links[i].user_id) by {
        let link = after.links[i];
        let a = origin(roster.links, keep_l, i);
        assert(roster.links[a] == link);
        roster.links.lemma_filter_pred(keep_l, i);
        assert(link.group_id != id);
        let k = choose|k: int|
            0 <= k < roster.groups.len() && (#[trigger] roster.groups[k]).id == link.group_id;
        let g = roster.groups[k];
        assert(roster.groups.contains(g));
        assert(after.groups.contains(g));
        let n = choose|n: int| 0 <= n < after.groups.len() && after.groups[n] == g;
        assert(after.groups[n].id == link.group_id);
    }
}

/// A roster stays sound when links leave it.
pub proof fn lemma_without_links_wf(roster: RosterView, group_id: i64, ids: Seq<u64>)
    requires
        roster_wf(roster),
    ensures
        roster_wf(roster_without_links(roster, group_id, ids)),
{
    let after = roster_without_links(roster, group_id, ids);
    let keep_l = keeps_link(Some(group_id), Some(ids));
    lemma_filter_distinct_links(roster.links, keep_l);
    lemma_filter_origin(roster.links, keep_l);
    assert forall|i: int| 0 <= i < after.links.len() implies has_group(
        after.groups,
        (#[trigger] after.links[i]).group_id,
    ) && has_member(after.members, after.links[i].user_id) by {
        let a = origin(roster.links, keep_l, i);
        assert(roster.links[a] == after.links[i]);
    }
}

/// Takes the people with one of `user_ids` out of the roster, and with them
/// every link of theirs. An id that nobody has changes nothing.
pub fn delete_local_members(store: &mut RosterStore, user_ids: Vec<u64>)
    requires
        old(store).wf(),
    ensures
        final(store).wf(),
        final(store)@ == roster_without_members(old(store)@, user_ids@),
{
    proof {
        lemma_without_members_wf(store@, user_ids@);
    }
    let members = kept_members(&store.members, &user_ids);
    let links = kept_links(&store.links, None, Some(&user_ids));
    store.members = members;
    store.links = links;
}

/// Takes the group with this id out of the roster, and with it every link
/// into it. An id that no group has changes nothing.
pub fn delete_local_group(store: &mut RosterStore, id: i64)
    requires
        old(store).wf(),
    ensures
        final(store).wf(),
        final(store)@ == roster_without_group(old(store)@, id),
{
    proof {
        lemma_without_group_wf(store@, id);
    }
    let groups = kept_groups(&store.groups, id);
    let links = kept_links(&store.links, Some(id), None);
    store.groups = groups;
    store.links = links;
}

/// Takes the people with one of `user_ids` out of the group. Who is not in
/// the group is passed over.
pub fn remove_members_from_group(store: &mut RosterStore, group_id: i64, user_ids: Vec<u64>)
    requires
        old(store).wf(),
    ensures
        final(store).wf(),
        final(store)@ == roster_without_links(old(store)@, group_id, user_ids@),
{
    proof {
        lemma_without_links_wf(store@, group_id, user_ids@);
    }
    let links = kept_links(&store.links, Some(group_id), Some(&user_ids));
    store.links = links;
}

} // verus!
