//! The local roster: the people that were taken in from the remote
//! directory, the groups they were sorted into, and the links between the
//! two. The roster lives in memory; keeping it on disk is the caller's part.

use vstd::prelude::*;
use vstd::string::StringExecFns;
use crate::decimal::{decimal_text, i64_to_string, signed_decimal_text, u64_to_string};
use crate::models::{LocalMember, LocalMemberUpsert, LocalMemberUpsertView, LocalMemberView};

pub mod groups;
pub mod links;
pub mod removal;
pub mod upsert;

verus! {

/// A group as it is stored.
#[derive(Debug)]
pub struct GroupRow {
    pub id: i64,
    pub name: String,
    pub created_at: String,
}

pub ghost struct GroupRowView {
    pub id: i64,
    pub name: Seq<char>,
    pub created_at: Seq<char>,
}

impl View for GroupRow {
    type V = GroupRowView;

    open spec fn view(&self) -> GroupRowView {
        GroupRowView { id: self.id, name: self.name@, created_at: self.created_at@ }
    }
}

impl Clone for GroupRow {
    fn clone(&self) -> (res: Self)
        ensures
            res == *self,
    {
        GroupRow { id: self.id, name: self.name.clone(), created_at: self.created_at.clone() }
    }
}

/// The link that puts one person into one group.
#[derive(Debug)]
pub struct GroupLink {
    pub group_id: i64,
    pub user_id: u64,
    pub created_at: String,
}

pub ghost struct GroupLinkView {
    pub group_id: i64,
    pub user_id: u64,
    pub created_at: Seq<char>,
}

impl View for GroupLink {
    type V = GroupLinkView;

    open spec fn view(&self) -> GroupLinkView {
        GroupLinkView {
            group_id: self.group_id,
            user_id: self.user_id,
            created_at: self.created_at@,
        }
    }
}

impl Clone for GroupLink {
    fn clone(&self) -> (res: Self)
        ensures
            res == *self,
    {
        GroupLink {
            group_id: self.group_id,
            user_id: self.user_id,
            created_at: self.created_at.clone(),
        }
    }
}

/// The views of `members`, in order.
pub open spec fn member_views(members: Seq<LocalMember>) -> Seq<LocalMemberView> {
    members.map_values(|m: LocalMember| m@)
}

/// The views of `groups`, in order.
pub open spec fn group_views(groups: Seq<GroupRow>) -> Seq<GroupRowView> {
    groups.map_values(|g: GroupRow| g@)
}

/// The views of `links`, in order.
pub open spec fn link_views(links: Seq<GroupLink>) -> Seq<GroupLinkView> {
    links.map_values(|l: GroupLink| l@)
}

/// The views of `records`, in order.
pub open spec fn upsert_views(records: Seq<LocalMemberUpsert>) -> Seq<LocalMemberUpsertView> {
    records.map_values(|r: LocalMemberUpsert| r@)
}

/// What a roster holds: its people in the order in which they were first
/// stored, its groups in the order of their ids, and its links in the order
/// in which they were made.
pub ghost struct RosterView {
    pub members: Seq<LocalMemberView>,
    pub groups: Seq<GroupRowView>,
    pub links: Seq<GroupLinkView>,
}

/// Whether a person with this id is stored.
pub open spec fn has_member(members: Seq<LocalMemberView>, user_id: u64) -> bool {
    exists|i: int| 0 <= i < members.len() && (#[trigger] members[i]).user_id == user_id
}

/// Whether a group with this id is stored.
pub open spec fn has_group(groups: Seq<GroupRowView>, id: i64) -> bool {
    exists|i: int| 0 <= i < groups.len() && (#[trigger] groups[i]).id == id
}

/// Whether this person is in this group.
pub open spec fn has_link(links: Seq<GroupLinkView>, group_id: i64, user_id: u64) -> bool {
    exists|i: int|
        0 <= i < links.len() && (#[trigger] links[i]).group_id == group_id && links[i].user_id
            == user_id
}

/// No two people share an id.
pub open spec fn distinct_members(members: Seq<LocalMemberView>) -> bool {
    forall|i: int, j: int|
        0 <= i < j < members.len() ==> (#[trigger] members[i]).user_id != (
        #[trigger] members[j]).user_id
}

/// The ids of the groups are positive and grow from each group to the next.
pub open spec fn ascending_groups(groups: Seq<GroupRowView>) -> bool {
    &&& forall|i: int| 0 <= i < groups.len() ==> (#[trigger] groups[i]).id >= 1
    &&& forall|i: int, j: int|
        0 <= i < j < groups.len() ==> (#[trigger] groups[i]).id < (#[trigger] groups[j]).id
}

/// No person is in a group twice.
pub open spec fn distinct_links(links: Seq<GroupLinkView>) -> bool {
    forall|i: int, j: int|
        0 <= i < j < links.len() ==> !((#[trigger] links[i]).group_id == (
        #[trigger] links[j]).group_id && links[i].user_id == links[j].user_id)
}

/// Every link is between a group and a person that are stored.
pub open spec fn links_resolve(
    members: Seq<LocalMemberView>,
    groups: Seq<GroupRowView>,
    links: Seq<GroupLinkView>,
) -> bool {
    forall|i: int|
        0 <= i < links.len() ==> has_group(groups, (#[trigger] links[i]).group_id) && has_member(
            members,
            links[i].user_id,
        )
}

/// The most links a roster holds.
pub open spec fn link_capacity() -> nat {
    i64::MAX as nat
}

/// What holds of every roster.
pub open spec fn roster_wf(roster: RosterView) -> bool {
    &&& distinct_members(roster.members)
    &&& ascending_groups(roster.groups)
    &&& distinct_links(roster.links)
    &&& links_resolve(roster.members, roster.groups, roster.links)
    &&& roster.links.len() <= link_capacity()
}

/// The local roster.
#[derive(Debug)]
pub struct RosterStore {
    members: Vec<LocalMember>,
    groups: Vec<GroupRow>,
    links: Vec<GroupLink>,
}

impl View for RosterStore {
    type V = RosterView;

    closed spec fn view(&self) -> RosterView {
        RosterView {
            members: member_views(self.members@),
            groups: group_views(self.groups@),
            links: link_views(self.links@),
        }
    }
}

impl RosterStore {
    /// What holds of every roster that this library hands out.
    pub open spec fn wf(&self) -> bool {
        roster_wf(self@)
    }

    /// A roster without people and groups.
    pub fn new() -> (store: RosterStore)
        ensures
            store.wf(),
            store@ == (RosterView { members: Seq::empty(), groups: Seq::empty(), links: Seq::empty() }),
    {
        let store = RosterStore { members: Vec::new(), groups: Vec::new(), links: Vec::new() };
        assert(store@.members =~= Seq::empty());
        assert(store@.groups =~= Seq::empty());
        assert(store@.links =~= Seq::empty());
        store
    }

    /// The people of the roster, in the order in which they were first stored.
    pub fn members(&self) -> (rows: &Vec<LocalMember>)
        ensures
            member_views(rows@) == self@.members,
    {
        &self.members
    }

    /// The groups of the roster, in the order of their ids.
    pub fn groups(&self) -> (rows: &Vec<GroupRow>)
        ensures
            group_views(rows@) == self@.groups,
    {
        &self.groups
    }

    /// The links of the roster, in the order in which they were made.
    pub fn links(&self) -> (rows: &Vec<GroupLink>)
        ensures
            link_views(rows@) == self@.links,
    {
        &self.links
    }

    /// Whether this person is in this group.
    pub fn is_in_group(&self, group_id: i64, user_id: u64) -> (b: bool)
        ensures
            b == has_link(self@.links, group_id, user_id),
    {
        link_exists(&self.links, group_id, user_id)
    }
}

/// Why the roster refused a change. A refused change leaves nothing behind.
#[derive(Debug, Clone, Copy, PartialEq, Eq, Structural)]
pub enum StoreError {
    /// A link was asked for into a group that is not stored.
    UnknownGroup { group_id: i64 },
    /// A link was asked for of a person who is not stored.
    UnknownMember { user_id: u64 },
    /// The roster has no room or no id left for what was to be added.
    Full,
    /// Rows that were handed in break a rule of the roster.
    Inconsistent,
}

impl StoreError {
    /// The message that the user sees for this refusal.
    pub open spec fn message_text(self) -> Seq<char> {
        match self {
            StoreError::UnknownGroup { group_id } => "group "@ + signed_decimal_text(group_id as int)
                + " is not stored"@,
            StoreError::UnknownMember { user_id } => "member "@ + decimal_text(user_id as nat)
                + " is not stored"@,
            StoreError::Full => "the roster is full"@,
            StoreError::Inconsistent => "the stored rows break a rule of the roster"@,
        }
    }

    /// The message that the user sees for this refusal.
    pub fn message(&self) -> (out: String)
        ensures
            out@ == self.message_text(),
    {
        match self {
            StoreError::UnknownGroup { group_id } => {
                let mut out = "group ".to_owned();
                out.append(i64_to_string(*group_id).as_str());
                out.append(" is not stored");
                out
            },
            StoreError::UnknownMember { user_id } => {
                let mut out = "member ".to_owned();
                out.append(u64_to_string(*user_id).as_str());
                out.append(" is not stored");
                out
            },
            StoreError::Full => "the roster is full".to_owned(),
            StoreError::Inconsistent => "the stored rows break a rule of the roster".to_owned(),
        }
    }
}

/// `chrono::Utc::now` and `to_rfc3339` on what it gives: the current time
/// in UTC in the format of RFC 3339. Nothing is stated of the result: every
/// call may give another text.
#[verifier::external_body]
fn current_timestamp() -> String {
    chrono::Utc::now().to_rfc3339()
}

/// Where the person with this id is stored, if at all.
fn find_member(members: &Vec<LocalMember>, user_id: u64) -> (r: Option<usize>)
    ensures
        match r {
            Some(i) => i < members.len() && members[i as int].user_id == user_id,
            None => !has_member(member_views(members@), user_id),
        },
{
    let mut i: usize = 0;
    while i < members.len()
        invariant
            i <= members.len(),
            forall|k: int| 0 <= k < i ==> members[k].user_id != user_id,
        decreases members.len() - i,
    {
        if members[i].user_id == user_id {
            return Some(i);
        }
        i += 1;
    }
    assert(!has_member(member_views(members@), user_id)) by {
        assert forall|k: int| 0 <= k < members.len() implies (#[trigger] member_views(
            members@,
        )[k]).user_id != user_id by {
            assert(members[k].user_id != user_id);
        }
    }
    None
}

/// Where the group with this id is stored, if at all.
fn find_group(groups: &Vec<GroupRow>, id: i64) -> (r: Option<usize>)
    ensures
        match r {
            Some(i) => i < groups.len() && groups[i as int].id == id,
            None => !has_group(group_views(groups@), id),
        },
{
    let mut i: usize = 0;
    while i < groups.len()
        invariant
            i <= groups.len(),
            forall|k: int| 0 <= k < i ==> groups[k].id != id,
        decreases groups.len() - i,
    {
        if groups[i].id == id {
            return Some(i);
        }
        i += 1;
    }
    assert(!has_group(group_views(groups@), id)) by {
        assert forall|k: int| 0 <= k < groups.len() implies (#[trigger] group_views(
            groups@,
        )[k]).id != id by {
            assert(groups[k].id != id);
        }
    }
    None
}

/// Whether this person is in this group.
fn link_exists(links: &Vec<GroupLink>, group_id: i64, user_id: u64) -> (b: bool)
    ensures
        b == has_link(link_views(links@), group_id, user_id),
{
    let mut i: usize = 0;
    while i < links.len()
        invariant
            i <= links.len(),
            forall|k: int|
                0 <= k < i ==> !(links[k].group_id == group_id && links[k].user_id == user_id),
        decreases links.len() - i,
    {
        if links[i].group_id == group_id && links[i].user_id == user_id {
            assert(link_views(links@)[i as int].group_id == group_id);
            return true;
        }
        i += 1;
    }
    assert(!has_link(link_views(links@), group_id, user_id)) by {
        assert forall|k: int| 0 <= k < links.len() implies !((#[trigger] link_views(
            links@,
        )[k]).group_id == group_id && link_views(links@)[k].user_id == user_id) by {
            assert(!(links[k].group_id == group_id && links[k].user_id == user_id));
        }
    }
    false
}

fn members_are_distinct(members: &Vec<LocalMember>) -> (b: bool)
    ensures
        b == distinct_members(member_views(members@)),
{
    let ghost all = member_views(members@);
    let mut j: usize = 0;
    while j < members.len()
        invariant
            j <= members.len(),
            all == member_views(members@),
            forall|a: int, b: int|
                0 <= a < b < j ==> (#[trigger] all[a]).user_id != (#[trigger] all[b]).user_id,
        decreases members.len() - j,
    {
        let mut i: usize = 0;
        while i < j
            invariant
                i <= j < members.len(),
                all == member_views(members@),
                forall|a: int| 0 <= a < i ==> (#[trigger] all[a]).user_id != all[j as int].user_id,
            decreases j - i,
        {
            if members[i].user_id == members[j].user_id {
                assert(all[i as int].user_id == all[j as int].user_id);
                return false;
            }
            i += 1;
        }
        j += 1;
    }
    true
}

fn groups_are_ascending(groups: &Vec<GroupRow>) -> (b: bool)
    ensures
        b == ascending_groups(group_views(groups@)),
{
    let ghost all = group_views(groups@);
    let mut j: usize = 0;
    while j < groups.len()
        invariant
            j <= groups.len(),
            all == group_views(groups@),
            forall|a: int| 0 <= a < j ==> (#[trigger] all[a]).id >= 1,
            forall|a: int, b: int| 0 <= a < b < j ==> (#[trigger] all[a]).id < (#[trigger] all[b]).id,
        decreases groups.len() - j,
    {
        if groups[j].id < 1 {
            assert(all[j as int].id < 1);
            return false;
        }
        if j > 0 && groups[j - 1].id >= groups[j].id {
            assert(all[j - 1].id >= all[j as int].id);
            return false;
        }
        assert forall|a: int| 0 <= a < j implies (#[trigger] all[a]).id < all[j as int].id by {
            if a < j - 1 {
                assert(all[a].id < all[j - 1].id);
            }
        }
        j += 1;
    }
    true
}

fn links_are_sound(members: &Vec<LocalMember>, groups: &Vec<GroupRow>, links: &Vec<GroupLink>) -> (b:
    bool)
    ensures
        b == (distinct_links(link_views(links@)) && links_resolve(
            member_views(members@),
            group_views(groups@),
            link_views(links@),
        )),
{
    let ghost all = link_views(links@);
    let ghost people = member_views(members@);
    let ghost rows = group_views(groups@);
    let mut j: usize = 0;
    while j < links.len()
        invariant
            j <= links.len(),
            all == link_views(links@),
            people == member_views(members@),
            rows == group_views(groups@),
            forall|a: int|
                0 <= a < j ==> has_group(rows, (#[trigger] all[a]).group_id) && has_member(
                    people,
                    all[a].user_id,
                ),
            forall|a: int, b: int|
                0 <= a < b < j ==> !((#[trigger] all[a]).group_id == (#[trigger] all[b]).group_id
                    && all[a].user_id == all[b].user_id),
        decreases links.len() - j,
    {
        match find_group(groups, links[j].group_id) {
            Some(at) => {
                assert(rows[at as int].id == all[j as int].group_id);
            },
            None => {
                assert(!has_group(rows, all[j as int].group_id));
                return false;
            },
        }
        match find_member(members, links[j].user_id) {
            Some(at) => {
                assert(people[at as int].user_id == all[j as int].user_id);
            },
            None => {
                assert(!has_member(people, all[j as int].user_id));
                return false;
            },
        }
        let mut i: usize = 0;
        while i < j
            invariant
                i <= j < links.len(),
                all == link_views(links@),
                forall|a: int|
                    0 <= a < i ==> !((#[trigger] all[a]).group_id == all[j as int].group_id
                        && all[a].user_id == all[j as int].user_id),
            decreases j - i,
        {
            if links[i].group_id == links[j].group_id && links[i].user_id == links[j].user_id {
                assert(all[i as int].group_id == all[j as int].group_id && all[i as int].user_id
                    == all[j as int].user_id);
                return false;
            }
            i += 1;
        }
        j += 1;
    }
    true
}

/// The roster that holds these rows.
pub open spec fn roster_of(
    members: Seq<LocalMember>,
    groups: Seq<GroupRow>,
    links: Seq<GroupLink>,
) -> RosterView {
    RosterView {
        members: member_views(members),
        groups: group_views(groups),
        links: link_views(links),
    }
}

impl RosterStore {
    /// The roster that holds these rows, if they keep its rules: no two
    /// people with one id, the groups by growing positive ids, nobody in a
    /// group twice, and no link to a group or a person that is not among
    /// the rows.
    pub fn from_rows(members: Vec<LocalMember>, groups: Vec<GroupRow>, links: Vec<GroupLink>) -> (r:
        Result<RosterStore, StoreError>)
        ensures
            roster_wf(roster_of(members@, groups@, links@)) ==> r is Ok && r->Ok_0@ == roster_of(
                members@,
                groups@,
                links@,
            ),
            !roster_wf(roster_of(members@, groups@, links@)) ==> r is Err && r->Err_0
                == StoreError::Inconsistent,
    {
        if links.len() as u64 > i64::MAX as u64 {
            return Err(StoreError::Inconsistent);
        }
        if !members_are_distinct(&members) {
            return Err(StoreError::Inconsistent);
        }
        if !groups_are_ascending(&groups) {
            return Err(StoreError::Inconsistent);
        }
        if !links_are_sound(&members, &groups, &links) {
            return Err(StoreError::Inconsistent);
        }
        Ok(RosterStore { members, groups, links })
    }
}

} // verus!
