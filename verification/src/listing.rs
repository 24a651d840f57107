//! How the people of the roster are listed: which of them, in which order,
//! and which page of the list.

use vstd::prelude::*;
use crate::models::{opt_text, LocalMember, LocalMemberView};
use crate::roster::removal::{
    keeps_link,
    keeps_member,
    roster_without_group,
    roster_without_members,
};
use crate::roster::{has_link, has_member, member_views, GroupLinkView, RosterStore, RosterView};
use crate::sieve::{lemma_filter_members, lemma_filter_none};
use crate::text::{contains_folded, contains_ignore_ascii_case, to_chars};
use crate::order::{lemma_bytes_lt_irreflexive, lemma_bytes_lt_transitive, text_before, text_lt};

verus! {

/// The orders in which people are listed.
#[derive(Debug, Clone, Copy, PartialEq, Eq, Structural)]
pub enum MemberOrder {
    /// Who was stored or overwritten last comes first.
    NewestFirst,
    /// By user name, from the first in the order of texts to the last.
    ByUsername,
}

/// Whether `a` has to stand before `b` in this order. Of two people of whom
/// neither has to stand before the other, the one stored first stands first.
pub open spec fn goes_before(order: MemberOrder, a: LocalMemberView, b: LocalMemberView) -> bool {
    match order {
        MemberOrder::NewestFirst => text_lt(b.updated_at, a.updated_at),
        MemberOrder::ByUsername => text_lt(a.username, b.username),
    }
}

/// Nobody has to stand before themselves, and who has to stand before
/// someone has to stand before everyone that one has to stand before.
pub proof fn lemma_goes_before_is_strict(
    order: MemberOrder,
    a: LocalMemberView,
    b: LocalMemberView,
    c: LocalMemberView,
)
    ensures
        !goes_before(order, a, a),
        goes_before(order, a, b) && goes_before(order, b, c) ==> goes_before(order, a, c),
{
    let enc = |s: Seq<char>| vstd::utf8::encode_utf8(s);
    match order {
        MemberOrder::NewestFirst => {
            lemma_bytes_lt_irreflexive(enc(a.updated_at));
            if goes_before(order, a, b) && goes_before(order, b, c) {
                lemma_bytes_lt_transitive(enc(c.updated_at), enc(b.updated_at), enc(a.updated_at));
            }
        },
        MemberOrder::ByUsername => {
            lemma_bytes_lt_irreflexive(enc(a.username));
            if goes_before(order, a, b) && goes_before(order, b, c) {
                lemma_bytes_lt_transitive(enc(a.username), enc(b.username), enc(c.username));
            }
        },
    }
}

/// Whether everyone in `s` stands where this order allows.
pub open spec fn in_order(s: Seq<LocalMemberView>, order: MemberOrder) -> bool {
    forall|i: int, j: int|
        0 <= i < j < s.len() ==> !goes_before(order, #[trigger] s[j], #[trigger] s[i])
}

/// Where `m` goes into `sorted`: before the first who has to stand behind
/// `m`, and at the end if there is no such person.
pub open spec fn insertion_point(
    sorted: Seq<LocalMemberView>,
    m: LocalMemberView,
    order: MemberOrder,
) -> int
    decreases sorted.len(),
{
    if sorted.len() == 0 || goes_before(order, m, sorted[0]) {
        0
    } else {
        1 + insertion_point(sorted.drop_first(), m, order)
    }
}

/// `sorted` with `m` in its place.
pub open spec fn placed(sorted: Seq<LocalMemberView>, m: LocalMemberView, order: MemberOrder) -> Seq<
    LocalMemberView,
> {
    sorted.insert(insertion_point(sorted, m, order), m)
}

/// The people of `s` in this order.
pub open spec fn ordered(s: Seq<LocalMemberView>, order: MemberOrder) -> Seq<LocalMemberView>
    decreases s.len(),
{
    if s.len() == 0 {
        s
    } else {
        placed(ordered(s.drop_last(), order), s.last(), order)
    }
}

/// The place of `m` is behind everyone who need not stand behind `m`, and
/// in front of someone who has to.
pub proof fn lemma_insertion_point(
    sorted: Seq<LocalMemberView>,
    m: LocalMemberView,
    order: MemberOrder,
)
    ensures
        0 <= insertion_point(sorted, m, order) <= sorted.len(),
        forall|k: int|
            0 <= k < insertion_point(sorted, m, order) ==> !goes_before(
                order,
                m,
                #[trigger] sorted[k],
            ),
        insertion_point(sorted, m, order) < sorted.len() ==> goes_before(
            order,
            m,
            sorted[insertion_point(sorted, m, order)],
        ),
    decreases sorted.len(),
{
    if sorted.len() == 0 || goes_before(order, m, sorted[0]) {
    } else {
        let tail = sorted.drop_first();
        lemma_insertion_point(tail, m, order);
        let p = insertion_point(sorted, m, order);
        assert forall|k: int| 0 <= k < p implies !goes_before(order, m, #[trigger] sorted[k]) by {
            if k > 0 {
                assert(sorted[k] == tail[k - 1]);
            }
        }
        if p < sorted.len() {
            assert(sorted[p] == tail[p - 1]);
        }
    }
}

/// Putting someone in their place keeps the order.
pub proof fn lemma_placed_in_order(
    sorted: Seq<LocalMemberView>,
    m: LocalMemberView,
    order: MemberOrder,
)
    requires
        in_order(sorted, order),
    ensures
        in_order(placed(sorted, m, order), order),
{
    let p = insertion_point(sorted, m, order);
    let out = placed(sorted, m, order);
    lemma_insertion_point(sorted, m, order);
    assert forall|i: int, j: int| 0 <= i < j < out.len() implies !goes_before(
        order,
        #[trigger] out[j],
        #[trigger] out[i],
    ) by {
        if j == p {
            assert(out[i] == sorted[i]);
        } else if i == p {
            let x = sorted[j - 1];
            assert(out[j] == x);
            lemma_goes_before_is_strict(order, x, m, sorted[p]);
            lemma_goes_before_is_strict(order, x, x, x);
            if j - 1 > p {
                assert(!goes_before(order, sorted[j - 1], sorted[p]));
            }
        } else {
            let a = if i < p { i } else { i - 1 };
            let b = if j < p { j } else { j - 1 };
            assert(out[i] == sorted[a] && out[j] == sorted[b]);
            assert(!goes_before(order, sorted[b], sorted[a]));
        }
    }
}

/// The ordered list holds the same people as the list it was made from,
/// each as often, and everyone in it stands where the order allows.
pub proof fn lemma_ordered(s: Seq<LocalMemberView>, order: MemberOrder)
    ensures
        in_order(ordered(s, order), order),
        ordered(s, order).to_multiset() == s.to_multiset(),
        ordered(s, order).len() == s.len(),
        forall|m: LocalMemberView| ordered(s, order).contains(m) <==> s.contains(m),
    decreases s.len(),
{
    broadcast use vstd::seq_lib::group_to_multiset_ensures;

    let out = ordered(s, order);
    if s.len() > 0 {
        let head = s.drop_last();
        lemma_ordered(head, order);
        lemma_placed_in_order(ordered(head, order), s.last(), order);
        lemma_insertion_point(ordered(head, order), s.last(), order);
        assert(s =~= head.push(s.last()));
        assert(out.to_multiset() =~= s.to_multiset());
    }
    assert(out.len() == s.len());
    assert forall|m: LocalMemberView| out.contains(m) <==> s.contains(m) by {
        assert(out.to_multiset().count(m) == s.to_multiset().count(m));
    }
}

/// Whether `a` has to stand before `b` in this order.
fn precedes(order: MemberOrder, a: &LocalMember, b: &LocalMember) -> (r: bool)
    ensures
        r == goes_before(order, a@, b@),
{
    match order {
        MemberOrder::NewestFirst => text_before(b.updated_at.as_str(), a.updated_at.as_str()),
        MemberOrder::ByUsername => text_before(a.username.as_str(), b.username.as_str()),
    }
}

/// Puts `m` in its place in `sorted`.
pub fn place(sorted: &mut Vec<LocalMember>, m: LocalMember, order: MemberOrder)
    ensures
        member_views(final(sorted)@) == placed(member_views(old(sorted)@), m@, order),
{
    let ghost before = member_views(sorted@);
    let mut i: usize = 0;
    assert(before.skip(0) =~= before);
    while i < sorted.len() && !precedes(order, &m, &sorted[i])
        invariant
            i <= sorted.len(),
            before == member_views(sorted@),
            insertion_point(before, m@, order) == i + insertion_point(
                before.skip(i as int),
                m@,
                order,
            ),
        decreases sorted.len() - i,
    {
        assert(before.skip(i as int).drop_first() =~= before.skip(i as int + 1));
        assert(before.skip(i as int)[0] == sorted[i as int]@);
        i += 1;
    }
    assert(insertion_point(before, m@, order) == i) by {
        if i < sorted.len() {
            assert(before.skip(i as int)[0] == sorted[i as int]@);
        }
    }
    sorted.insert(i, m);
    assert(member_views(sorted@) =~= before.insert(i as int, m@));
}

/// The size of a page: what was asked for, but at least 1 and at most 100.
pub open spec fn page_size(per_page: u32) -> int {
    if per_page < 1 {
        1
    } else if per_page > 100 {
        100
    } else {
        per_page as int
    }
}

/// How many items stand before page `page`. Pages count from 1, and page 0
/// is taken for page 1.
pub open spec fn page_offset(page: u32, per_page: u32) -> int {
    (if page == 0 {
        0int
    } else {
        page - 1
    }) * page_size(per_page)
}

/// Where page `page` of a list of `len` items begins.
pub open spec fn page_start(len: int, page: u32, per_page: u32) -> int {
    if page_offset(page, per_page) < len {
        page_offset(page, per_page)
    } else {
        len
    }
}

/// Where page `page` of a list of `len` items ends.
pub open spec fn page_end(len: int, page: u32, per_page: u32) -> int {
    if page_start(len, page, per_page) + page_size(per_page) < len {
        page_start(len, page, per_page) + page_size(per_page)
    } else {
        len
    }
}

/// Page `page` of `s`.
pub open spec fn page_of<T>(s: Seq<T>, page: u32, per_page: u32) -> Seq<T> {
    s.subrange(
        page_start(s.len() as int, page, per_page),
        page_end(s.len() as int, page, per_page),
    )
}

/// The bounds of page `page` of a list of `len` items.
pub fn page_bounds(len: usize, page: u32, per_page: u32) -> (r: (usize, usize))
    ensures
        r.0 == page_start(len as int, page, per_page),
        r.1 == page_end(len as int, page, per_page),
        r.0 <= r.1 <= len,
        r.1 - r.0 <= page_size(per_page) <= 100,
{
    let size: u64 = if per_page < 1 {
        1
    } else if per_page > 100 {
        100
    } else {
        per_page as u64
    };
    let before: u64 = if page == 0 {
        0
    } else {
        (page - 1) as u64
    };
    assert(before * size <= 0xffff_ffff * 100) by (nonlinear_arith)
        requires
            0 <= before <= 0xffff_ffff,
            0 <= size <= 100,
    ;
    let offset: u64 = before * size;
    let from: usize = if offset < len as u64 {
        offset as usize
    } else {
        len
    };
    let to: usize = if size < (len - from) as u64 {
        from + size as usize
    } else {
        len
    };
    (from, to)
}

/// A copy of page `page` of `rows`.
pub fn page_rows(rows: &Vec<LocalMember>, page: u32, per_page: u32) -> (out: Vec<LocalMember>)
    ensures
        member_views(out@) == page_of(member_views(rows@), page, per_page),
{
    let (from, to) = page_bounds(rows.len(), page, per_page);
    let mut out: Vec<LocalMember> = Vec::new();
    let mut i: usize = from;
    while i < to
        invariant
            from <= i <= to <= rows.len(),
            member_views(out@) == member_views(rows@).subrange(from as int, i as int),
        decreases to - i,
    {
        let ghost so_far = member_views(out@);
        out.push(rows[i].clone());
        assert(member_views(out@) =~= so_far.push(rows[i as int]@));
        assert(member_views(rows@).subrange(from as int, i + 1) =~= member_views(rows@).subrange(
            from as int,
            i as int,
        ).push(rows[i as int]@));
        i += 1;
    }
    out
}

// ---------------------------------------------------------------------------
// Searching the roster
// ---------------------------------------------------------------------------

/// The people that a query finds: those in whose user name or name the
/// query stands, the case of ASCII letters aside. Without a query everyone
/// is found.
pub open spec fn matches_query(query: Option<Seq<char>>) -> spec_fn(LocalMemberView) -> bool {
    |m: LocalMemberView|
        match query {
            Some(q) => contains_folded(m.username, q) || contains_folded(m.name, q),
            None => true,
        }
}

/// The people of the roster that the query finds, in the order in which
/// they are stored.
pub open spec fn found_members(roster: RosterView, query: Option<Seq<char>>) -> Seq<LocalMemberView> {
    roster.members.filter(matches_query(query))
}

/// Page `page` of the people that the query finds, the newest first.
pub open spec fn listed_members(
    roster: RosterView,
    query: Option<Seq<char>>,
    page: u32,
    per_page: u32,
) -> Seq<LocalMemberView> {
    page_of(ordered(found_members(roster, query), MemberOrder::NewestFirst), page, per_page)
}

/// The characters behind an optional list of characters.
pub open spec fn needle_of(needle: Option<Vec<char>>) -> Option<Seq<char>> {
    match needle {
        Some(chars) => Some(chars@),
        None => None,
    }
}

fn found(member: &LocalMember, needle: &Option<Vec<char>>) -> (b: bool)
    ensures
        b == matches_query(needle_of(*needle))(member@),
{
    match needle {
        Some(chars) => {
            let username = to_chars(member.username.as_str());
            if contains_ignore_ascii_case(&username, chars) {
                true
            } else {
                let name = to_chars(member.name.as_str());
                contains_ignore_ascii_case(&name, chars)
            }
        },
        None => true,
    }
}

/// One page of the people that `query` finds, and how many it finds in
/// all. The newest come first; `per_page` counts as at least 1 and at most
/// 100; pages count from 1.
pub fn list_local_members(store: &RosterStore, query: Option<String>, page: u32, per_page: u32) -> (r:
    (Vec<LocalMember>, u64))
    ensures
        member_views(r.0@) == listed_members(store@, opt_text(query), page, per_page),
        r.1 == found_members(store@, opt_text(query)).len(),
{
    let needle: Option<Vec<char>> = match &query {
        Some(q) => Some(to_chars(q.as_str())),
        None => None,
    };
    let members = store.members();
    let ghost all = member_views(members@);
    let ghost wanted = matches_query(opt_text(query));
    let order = MemberOrder::NewestFirst;
    let mut sorted: Vec<LocalMember> = Vec::new();
    let mut i: usize = 0;
    proof {
        assert(all.take(0) =~= Seq::empty());
        lemma_filter_none(all.take(0), wanted);
        assert(member_views(sorted@) =~= Seq::empty());
    }
    while i < members.len()
        invariant
            i <= members.len(),
            all == member_views(members@),
            wanted == matches_query(opt_text(query)),
            needle_of(needle) == opt_text(query),
            order == MemberOrder::NewestFirst,
            member_views(sorted@) == ordered(all.take(i as int).filter(wanted), order),
        decreases members.len() - i,
    {
        proof {
            assert(all.take(i + 1) =~= all.take(i as int).push(all[i as int]));
            all.take(i as int).lemma_filter_push(all[i as int], wanted);
            assert(all.take(i as int).filter(wanted).push(all[i as int]).drop_last()
                =~= all.take(i as int).filter(wanted));
        }
        if found(&members[i], &needle) {
            place(&mut sorted, members[i].clone(), order);
        }
        i += 1;
    }
    proof {
        assert(all.take(i as int) =~= all);
        lemma_ordered(all.filter(wanted), order);
    }
    let total = sorted.len() as u64;
    (page_rows(&sorted, page, per_page), total)
}

/// The people whom the links put into this group.
pub open spec fn in_group(links: Seq<GroupLinkView>, group_id: i64) -> spec_fn(
    LocalMemberView,
) -> bool {
    |m: LocalMemberView| has_link(links, group_id, m.user_id)
}

/// The people of the group with this id, by user name.
pub open spec fn group_members(roster: RosterView, group_id: i64) -> Seq<LocalMemberView> {
    ordered(roster.members.filter(in_group(roster.links, group_id)), MemberOrder::ByUsername)
}

/// The people of the group with this id, by user name. A group that is not
/// stored has nobody in it.
pub fn list_group_members(store: &RosterStore, group_id: i64) -> (members: Vec<LocalMember>)
    ensures
        member_views(members@) == group_members(store@, group_id),
{
    let rows = store.members();
    let ghost all = member_views(rows@);
    let ghost wanted = in_group(store@.links, group_id);
    let order = MemberOrder::ByUsername;
    let mut sorted: Vec<LocalMember> = Vec::new();
    let mut i: usize = 0;
    proof {
        assert(all.take(0) =~= Seq::empty());
        lemma_filter_none(all.take(0), wanted);
        assert(member_views(sorted@) =~= Seq::empty());
    }
    while i < rows.len()
        invariant
            i <= rows.len(),
            all == member_views(rows@),
            wanted == in_group(store@.links, group_id),
            order == MemberOrder::ByUsername,
            member_views(sorted@) == ordered(all.take(i as int).filter(wanted), order),
        decreases rows.len() - i,
    {
        proof {
            assert(all.take(i + 1) =~= all.take(i as int).push(all[i as int]));
            all.take(i as int).lemma_filter_push(all[i as int], wanted);
            assert(all.take(i as int).filter(wanted).push(all[i as int]).drop_last()
                =~= all.take(i as int).filter(wanted));
        }
        if store.is_in_group(group_id, rows[i].user_id) {
            place(&mut sorted, rows[i].clone(), order);
        }
        i += 1;
    }
    assert(all.take(i as int) =~= all);
    sorted
}

// ---------------------------------------------------------------------------
// What holds of the lists
// ---------------------------------------------------------------------------

/// A page of a search holds at most as many people as a page may, and never
/// more than 100. Each of them is stored and is found by the query, and
/// nobody on the page was stored or overwritten later than someone who
/// stands before them.
pub proof fn lemma_listed_members(
    roster: RosterView,
    query: Option<Seq<char>>,
    page: u32,
    per_page: u32,
)
    ensures
        ({
            let items = listed_members(roster, query, page, per_page);
            &&& items.len() <= page_size(per_page) <= 100
            &&& forall|i: int|
                0 <= i < items.len() ==> roster.members.contains(#[trigger] items[i])
                    && matches_query(query)(items[i])
            &&& forall|i: int, j: int|
                0 <= i < j < items.len() ==> !text_lt(
                    (#[trigger] items[i]).updated_at,
                    (#[trigger] items[j]).updated_at,
                )
        }),
{
    let wanted = matches_query(query);
    let hits = found_members(roster, query);
    let sorted = ordered(hits, MemberOrder::NewestFirst);
    let items = listed_members(roster, query, page, per_page);
    let from = page_start(sorted.len() as int, page, per_page);
    lemma_ordered(hits, MemberOrder::NewestFirst);
    lemma_filter_members(roster.members, wanted);
    assert(page_offset(page, per_page) >= 0) by (nonlinear_arith)
        requires
            page_size(per_page) >= 1,
            page >= 0,
    {
    }
    assert forall|i: int| 0 <= i < items.len() implies roster.members.contains(#[trigger] items[i])
        && wanted(items[i]) by {
        assert(items[i] == sorted[from + i]);
        assert(sorted.contains(sorted[from + i]));
        assert(hits.contains(items[i]));
    }
    assert forall|i: int, j: int| 0 <= i < j < items.len() implies !text_lt(
        (#[trigger] items[i]).updated_at,
        (#[trigger] items[j]).updated_at,
    ) by {
        assert(items[i] == sorted[from + i] && items[j] == sorted[from + j]);
        assert(!goes_before(MemberOrder::NewestFirst, sorted[from + j], sorted[from + i]));
    }
}

/// A group that was taken out of the roster has no links and nobody in it.
pub proof fn lemma_deleted_group_is_empty(roster: RosterView, id: i64)
    ensures
        ({
            let after = roster_without_group(roster, id);
            &&& forall|u: u64| !has_link(after.links, id, u)
            &&& group_members(after, id) == Seq::<LocalMemberView>::empty()
        }),
{
    let after = roster_without_group(roster, id);
    let keep = keeps_link(Some(id), None);
    assert forall|u: u64| !has_link(after.links, id, u) by {
        if has_link(after.links, id, u) {
            let i = choose|i: int|
                0 <= i < after.links.len() && (#[trigger] after.links[i]).group_id == id
                    && after.links[i].user_id == u;
            roster.links.lemma_filter_pred(keep, i);
        }
    }
    lemma_filter_none(after.members, in_group(after.links, id));
}

/// People who were taken out of the roster are stored no more, are in no
/// group, and are listed in no group.
pub proof fn lemma_deleted_members_are_gone(roster: RosterView, ids: Seq<u64>, group_id: i64)
    ensures
        ({
            let after = roster_without_members(roster, ids);
            let listed = group_members(after, group_id);
            &&& forall|u: u64| ids.contains(u) ==> !has_member(after.members, u)
            &&& forall|u: u64| ids.contains(u) ==> !has_link(after.links, group_id, u)
            &&& forall|i: int| 0 <= i < listed.len() ==> !ids.contains((#[trigger] listed[i]).user_id)
        }),
{
    let after = roster_without_members(roster, ids);
    let listed = group_members(after, group_id);
    let keep_m = keeps_member(ids);
    let keep_l = keeps_link(None, Some(ids));
    assert forall|u: u64| ids.contains(u) implies !has_member(after.members, u) by {
        if has_member(after.members, u) {
            let i = choose|i: int|
                0 <= i < after.members.len() && (#[trigger] after.members[i]).user_id == u;
            roster.members.lemma_filter_pred(keep_m, i);
        }
    }
    assert forall|u: u64| ids.contains(u) implies !has_link(after.links, group_id, u) by {
        if has_link(after.links, group_id, u) {
            let i = choose|i: int|
                0 <= i < after.links.len() && (#[trigger] after.links[i]).group_id == group_id
                    && after.links[i].user_id == u;
            roster.links.lemma_filter_pred(keep_l, i);
        }
    }
    let chosen = after.members.filter(in_group(after.links, group_id));
    lemma_ordered(chosen, MemberOrder::ByUsername);
    lemma_filter_members(after.members, in_group(after.links, group_id));
    assert forall|i: int| 0 <= i < listed.len() implies !ids.contains(
        (#[trigger] listed[i]).user_id,
    ) by {
        assert(listed.contains(listed[i]));
        assert(chosen.contains(listed[i]));
        assert(after.members.contains(listed[i]));
        let k = choose|k: int| 0 <= k < after.members.len() && after.members[k] == listed[i];
        assert(after.members[k].user_id == listed[i].user_id);
    }
}

} // verus!
