use gitlab_member_manager::listing::{list_group_members, list_local_members};
use gitlab_member_manager::models::{LocalMember, LocalMemberUpsert};
use gitlab_member_manager::roster::groups::{
    create_local_group, create_local_group_at, list_local_groups, update_local_group,
};
use gitlab_member_manager::roster::links::{add_members_to_group, add_members_to_group_at};
use gitlab_member_manager::roster::removal::{
    delete_local_group, delete_local_members, remove_members_from_group,
};
use gitlab_member_manager::roster::upsert::{upsert_local_members, upsert_local_members_at};
use gitlab_member_manager::roster::{GroupLink, GroupRow, RosterStore, StoreError};

fn record(user_id: u64, username: &str, name: &str) -> LocalMemberUpsert {
    LocalMemberUpsert {
        user_id,
        username: username.to_string(),
        name: name.to_string(),
        avatar_url: None,
        project_id: None,
        project_name: None,
    }
}

fn member(user_id: u64, username: &str, updated_at: &str) -> LocalMember {
    LocalMember {
        user_id,
        username: username.to_string(),
        name: username.to_uppercase(),
        avatar_url: None,
        updated_at: updated_at.to_string(),
        project_id: None,
        project_name: None,
    }
}

fn ids(members: &[LocalMember]) -> Vec<u64> {
    members.iter().map(|m| m.user_id).collect()
}

fn sample() -> RosterStore {
    let mut store = RosterStore::new();
    upsert_local_members_at(
        &mut store,
        &vec![record(1, "carol", "Carol"), record(2, "alice", "Alice"), record(3, "bob", "Bob")],
        "2026-01-01T00:00:00+00:00",
    );
    let g1 = create_local_group_at(&mut store, "core".to_string(), "t1").unwrap();
    let g2 = create_local_group_at(&mut store, "ops".to_string(), "t2").unwrap();
    assert_eq!((g1.id, g2.id), (1, 2));
    add_members_to_group_at(&mut store, 1, &vec![1, 2, 3], "t3").unwrap();
    add_members_to_group_at(&mut store, 2, &vec![2], "t4").unwrap();
    store
}

#[test]
fn new_roster_is_empty() {
    let store = RosterStore::new();
    assert!(store.members().is_empty());
    assert!(store.groups().is_empty());
    assert!(store.links().is_empty());
    assert!(list_local_groups(&store).is_empty());
    let (items, total) = list_local_members(&store, None, 1, 20);
    assert!(items.is_empty());
    assert_eq!(total, 0);
}

#[test]
fn upsert_twice_keeps_one_row_with_the_second_values() {
    let mut store = RosterStore::new();
    upsert_local_members_at(&mut store, &vec![record(7, "ann", "Ann")], "2026-01-01");
    let mut second = record(7, "ann2", "Ann Second");
    second.avatar_url = Some("https://a/7.png".to_string());
    second.project_id = Some(99);
    second.project_name = Some("demo".to_string());
    upsert_local_members_at(&mut store, &vec![second], "2026-01-02");
    let rows = store.members();
    assert_eq!(rows.len(), 1);
    assert_eq!(rows[0].user_id, 7);
    assert_eq!(rows[0].username, "ann2");
    assert_eq!(rows[0].name, "Ann Second");
    assert_eq!(rows[0].avatar_url, Some("https://a/7.png".to_string()));
    assert_eq!(rows[0].updated_at, "2026-01-02");
    assert_eq!(rows[0].project_id, Some(99));
    assert_eq!(rows[0].project_name, Some("demo".to_string()));
}

#[test]
fn upsert_overwrites_in_place_and_appends_new_people() {
    let mut store = sample();
    upsert_local_members_at(
        &mut store,
        &vec![record(2, "alice", "Alice B"), record(9, "zed", "Zed"), record(9, "zed", "Zed Two")],
        "2026-02-01T00:00:00+00:00",
    );
    let rows = store.members();
    assert_eq!(ids(rows), vec![1, 2, 3, 9]);
    assert_eq!(rows[1].name, "Alice B");
    assert_eq!(rows[1].updated_at, "2026-02-01T00:00:00+00:00");
    assert_eq!(rows[0].updated_at, "2026-01-01T00:00:00+00:00");
    assert_eq!(rows[3].name, "Zed Two");
    assert_eq!(store.links().len(), 4);
}

#[test]
fn upsert_clears_fields_that_the_new_record_lacks() {
    let mut store = RosterStore::new();
    let mut first = record(1, "a", "A");
    first.avatar_url = Some("x".to_string());
    first.project_id = Some(1);
    first.project_name = Some("p".to_string());
    upsert_local_members_at(&mut store, &vec![first], "t1");
    upsert_local_members_at(&mut store, &vec![record(1, "a", "A")], "t2");
    let row = &store.members()[0];
    assert_eq!(row.avatar_url, None);
    assert_eq!(row.project_id, None);
    assert_eq!(row.project_name, None);
}

#[test]
fn upsert_stamps_the_current_time() {
    let mut store = RosterStore::new();
    upsert_local_members(&mut store, vec![record(1, "a", "A"), record(2, "b", "B")]);
    let rows = store.members();
    assert_eq!(rows.len(), 2);
    assert_eq!(rows[0].updated_at, rows[1].updated_at);
    assert!(rows[0].updated_at.len() >= 20);
    assert_eq!(&rows[0].updated_at[4..5], "-");
    assert_eq!(&rows[0].updated_at[10..11], "T");
    assert!(rows[0].updated_at.ends_with("+00:00"));
}

#[test]
fn adding_a_linked_member_again_makes_no_duplicate() {
    let mut store = sample();
    assert_eq!(add_members_to_group_at(&mut store, 1, &vec![2], "later"), Ok(()));
    assert_eq!(add_members_to_group_at(&mut store, 1, &vec![3, 3, 1], "later"), Ok(()));
    assert_eq!(store.links().len(), 4);
    let of_first: Vec<u64> =
        store.links().iter().filter(|l| l.group_id == 1).map(|l| l.user_id).collect();
    assert_eq!(of_first, vec![1, 2, 3]);
    assert_eq!(store.links()[1].created_at, "t3");
    assert_eq!(ids(&list_group_members(&store, 1)), vec![2, 3, 1]);
}

#[test]
fn adding_links_keeps_old_ones_and_appends_new_ones() {
    let mut store = sample();
    assert_eq!(add_members_to_group_at(&mut store, 2, &vec![2, 1, 1], "t5"), Ok(()));
    let pairs: Vec<(i64, u64, String)> = store
        .links()
        .iter()
        .map(|l| (l.group_id, l.user_id, l.created_at.clone()))
        .collect();
    assert_eq!(
        pairs,
        vec![
            (1, 1, "t3".to_string()),
            (1, 2, "t3".to_string()),
            (1, 3, "t3".to_string()),
            (2, 2, "t4".to_string()),
            (2, 1, "t5".to_string()),
        ]
    );
}

#[test]
fn adding_to_an_unknown_group_is_refused() {
    let mut store = sample();
    assert_eq!(
        add_members_to_group_at(&mut store, 77, &vec![1], "t"),
        Err(StoreError::UnknownGroup { group_id: 77 })
    );
    assert_eq!(store.links().len(), 4);
    assert_eq!(add_members_to_group_at(&mut store, 77, &vec![], "t"), Ok(()));
}

#[test]
fn adding_an_unknown_member_is_refused_as_a_whole() {
    let mut store = sample();
    delete_local_members(&mut store, vec![3]);
    assert_eq!(store.links().len(), 3);
    assert_eq!(
        add_members_to_group_at(&mut store, 2, &vec![1, 42, 3], "t"),
        Err(StoreError::UnknownMember { user_id: 42 })
    );
    assert_eq!(store.links().len(), 3);
    assert_eq!(ids(&list_group_members(&store, 2)), vec![2]);
    assert_eq!(
        add_members_to_group_at(&mut store, 2, &vec![3, 42], "t"),
        Err(StoreError::UnknownMember { user_id: 3 })
    );
}

#[test]
fn adding_with_the_current_time_links_everyone() {
    let mut store = sample();
    assert_eq!(add_members_to_group(&mut store, 2, vec![1, 3]), Ok(()));
    assert_eq!(ids(&list_group_members(&store, 2)), vec![2, 3, 1]);
    assert!(store.links()[4].created_at.ends_with("+00:00"));
    assert_eq!(add_members_to_group(&mut store, 5, vec![1]), Err(StoreError::UnknownGroup { group_id: 5 }));
}

#[test]
fn deleting_a_group_removes_its_links() {
    let mut store = sample();
    delete_local_group(&mut store, 1);
    assert!(list_group_members(&store, 1).is_empty());
    assert!(store.links().iter().all(|l| l.group_id != 1));
    assert_eq!(store.links().len(), 1);
    assert_eq!(ids(&list_group_members(&store, 2)), vec![2]);
    let groups = list_local_groups(&store);
    assert_eq!(groups.len(), 1);
    assert_eq!(groups[0].id, 2);
    assert_eq!(store.members().len(), 3);
}

#[test]
fn listing_an_unknown_group_is_empty_and_no_error() {
    let store = sample();
    assert!(list_group_members(&store, 404).is_empty());
    let mut other = sample();
    delete_local_group(&mut other, 404);
    assert_eq!(other.groups().len(), 2);
    assert_eq!(other.links().len(), 4);
}

#[test]
fn deleting_a_member_removes_them_from_every_group() {
    let mut store = sample();
    delete_local_members(&mut store, vec![2, 999]);
    assert_eq!(ids(store.members()), vec![1, 3]);
    assert_eq!(ids(&list_group_members(&store, 1)), vec![3, 1]);
    assert!(list_group_members(&store, 2).is_empty());
    assert!(store.links().iter().all(|l| l.user_id != 2));
    let groups = list_local_groups(&store);
    assert_eq!(groups[0].members_count, 0);
    assert_eq!(groups[1].members_count, 2);
}

#[test]
fn deleting_nobody_changes_nothing() {
    let mut store = sample();
    delete_local_members(&mut store, vec![]);
    assert_eq!(store.members().len(), 3);
    assert_eq!(store.links().len(), 4);
}

#[test]
fn removing_from_a_group_ignores_missing_links() {
    let mut store = sample();
    remove_members_from_group(&mut store, 1, vec![2, 2, 55]);
    assert_eq!(ids(&list_group_members(&store, 1)), vec![3, 1]);
    assert_eq!(ids(&list_group_members(&store, 2)), vec![2]);
    remove_members_from_group(&mut store, 9, vec![1]);
    remove_members_from_group(&mut store, 1, vec![]);
    assert_eq!(store.links().len(), 3);
    assert_eq!(store.members().len(), 3);
}

#[test]
fn groups_are_listed_newest_first_with_live_counts() {
    let mut store = sample();
    let third = create_local_group_at(&mut store, "empty".to_string(), "t9").unwrap();
    assert_eq!(third.id, 3);
    assert_eq!(third.name, "empty");
    assert_eq!(third.created_at, "t9");
    assert_eq!(third.members_count, 0);
    let groups = list_local_groups(&store);
    let shown: Vec<(i64, String, String, i64)> = groups
        .iter()
        .map(|g| (g.id, g.name.clone(), g.created_at.clone(), g.members_count))
        .collect();
    assert_eq!(
        shown,
        vec![
            (3, "empty".to_string(), "t9".to_string(), 0),
            (2, "ops".to_string(), "t2".to_string(), 1),
            (1, "core".to_string(), "t1".to_string(), 3),
        ]
    );
}

#[test]
fn group_ids_follow_the_greatest_id_in_use() {
    let mut store = sample();
    delete_local_group(&mut store, 1);
    assert_eq!(create_local_group_at(&mut store, "x".to_string(), "t").unwrap().id, 3);
    delete_local_group(&mut store, 3);
    delete_local_group(&mut store, 2);
    assert_eq!(create_local_group_at(&mut store, "y".to_string(), "t").unwrap().id, 1);
}

#[test]
fn creating_a_group_with_the_current_time() {
    let mut store = RosterStore::new();
    let g = create_local_group(&mut store, "now".to_string()).unwrap();
    assert_eq!(g.id, 1);
    assert_eq!(g.members_count, 0);
    assert!(g.created_at.ends_with("+00:00"));
    assert_eq!(store.groups()[0].created_at, g.created_at);
}

#[test]
fn a_roster_without_ids_left_is_full() {
    let groups = vec![GroupRow { id: i64::MAX, name: "last".to_string(), created_at: "t".to_string() }];
    let mut store = RosterStore::from_rows(vec![], groups, vec![]).unwrap();
    assert_eq!(create_local_group_at(&mut store, "more".to_string(), "t").err(), Some(StoreError::Full));
    assert_eq!(store.groups().len(), 1);
}

#[test]
fn renaming_keeps_id_and_creation_time() {
    let mut store = sample();
    update_local_group(&mut store, 2, "operations".to_string());
    assert_eq!(store.groups()[1].id, 2);
    assert_eq!(store.groups()[1].name, "operations");
    assert_eq!(store.groups()[1].created_at, "t2");
    assert_eq!(store.groups()[0].name, "core");
    update_local_group(&mut store, 8, "nobody".to_string());
    assert_eq!(store.groups().len(), 2);
    assert_eq!(store.groups()[0].name, "core");
    assert_eq!(store.links().len(), 4);
}

#[test]
fn group_members_are_listed_by_username() {
    let store = sample();
    let listed = list_group_members(&store, 1);
    let names: Vec<&str> = listed.iter().map(|m| m.username.as_str()).collect();
    assert_eq!(names, vec!["alice", "bob", "carol"]);
}

#[test]
fn usernames_are_ordered_by_their_bytes() {
    let rows = vec![
        member(1, "b", "t"),
        member(2, "B", "t"),
        member(3, "a", "t"),
        member(4, "é", "t"),
        member(5, "", "t"),
        member(6, "ab", "t"),
        member(7, "a", "t"),
    ];
    let groups = vec![GroupRow { id: 4, name: "g".to_string(), created_at: "t".to_string() }];
    let links = (1..=7)
        .map(|u| GroupLink { group_id: 4, user_id: u, created_at: "t".to_string() })
        .collect();
    let store = RosterStore::from_rows(rows, groups, links).unwrap();
    let listed = list_group_members(&store, 4);
    assert_eq!(ids(&listed), vec![5, 2, 3, 7, 6, 1, 4]);
    let mut expected: Vec<String> = listed.iter().map(|m| m.username.clone()).collect();
    expected.sort();
    assert_eq!(listed.iter().map(|m| m.username.clone()).collect::<Vec<_>>(), expected);
}

#[test]
fn search_finds_ali_in_username_or_name_ignoring_case() {
    let rows = vec![
        member(1, "alice", "2026-01-03"),
        member(2, "bob", "2026-01-05"),
        member(3, "SALIM", "2026-01-04"),
        LocalMember { name: "Natalie Ali".to_string(), ..member(4, "nat", "2026-01-01") },
        member(5, "al", "2026-01-09"),
        member(6, "Khalid", "2026-01-02"),
    ];
    let store = RosterStore::from_rows(rows, vec![], vec![]).unwrap();
    let (items, total) = list_local_members(&store, Some("ali".to_string()), 1, 20);
    assert_eq!(total, 4);
    assert_eq!(ids(&items), vec![3, 1, 6, 4]);
    let (upper, _) = list_local_members(&store, Some("ALI".to_string()), 1, 20);
    assert_eq!(ids(&upper), vec![3, 1, 6, 4]);
    let (none, zero) = list_local_members(&store, Some("xyz".to_string()), 1, 20);
    assert!(none.is_empty());
    assert_eq!(zero, 0);
}

#[test]
fn search_without_query_or_with_an_empty_one_finds_everyone() {
    let store = sample();
    let (all, total) = list_local_members(&store, None, 1, 20);
    assert_eq!(total, 3);
    assert_eq!(ids(&all), vec![1, 2, 3]);
    let (empty, total_empty) = list_local_members(&store, Some(String::new()), 1, 20);
    assert_eq!(total_empty, 3);
    assert_eq!(empty.len(), 3);
}

#[test]
fn search_folds_ascii_letters_only() {
    let plain = |id, username: &str| LocalMember { name: "n".to_string(), ..member(id, username, "t") };
    let rows = vec![plain(1, "émile"), plain(2, "Émile")];
    let store = RosterStore::from_rows(rows, vec![], vec![]).unwrap();
    let (items, total) = list_local_members(&store, Some("ÉMILE".to_string()), 1, 20);
    assert_eq!(total, 1);
    assert_eq!(ids(&items), vec![2]);
    let (lower, _) = list_local_members(&store, Some("éMILE".to_string()), 1, 20);
    assert_eq!(ids(&lower), vec![1]);
    let (both, _) = list_local_members(&store, Some("MILE".to_string()), 1, 20);
    assert_eq!(ids(&both), vec![1, 2]);
}

#[test]
fn members_are_paged_newest_first() {
    let rows: Vec<LocalMember> =
        (1..=7u64).map(|i| member(i, &format!("user{}", i), &format!("2026-01-0{}", i))).collect();
    let store = RosterStore::from_rows(rows, vec![], vec![]).unwrap();
    let (first, total) = list_local_members(&store, None, 1, 3);
    assert_eq!(total, 7);
    assert_eq!(ids(&first), vec![7, 6, 5]);
    let (second, _) = list_local_members(&store, None, 2, 3);
    assert_eq!(ids(&second), vec![4, 3, 2]);
    let (third, _) = list_local_members(&store, None, 3, 3);
    assert_eq!(ids(&third), vec![1]);
    let (beyond, still) = list_local_members(&store, None, 4, 3);
    assert!(beyond.is_empty());
    assert_eq!(still, 7);
    let (zero_page, _) = list_local_members(&store, None, 0, 3);
    assert_eq!(ids(&zero_page), vec![7, 6, 5]);
    let (far, _) = list_local_members(&store, None, u32::MAX, u32::MAX);
    assert!(far.is_empty());
}

#[test]
fn page_size_is_clamped_between_one_and_a_hundred() {
    let rows: Vec<LocalMember> =
        (1..=150u64).map(|i| member(i, &format!("u{}", i), &format!("{:04}", i))).collect();
    let store = RosterStore::from_rows(rows, vec![], vec![]).unwrap();
    let (big, total) = list_local_members(&store, None, 1, 1000);
    assert_eq!(total, 150);
    assert_eq!(big.len(), 100);
    assert_eq!(big[0].user_id, 150);
    assert_eq!(big[99].user_id, 51);
    let (rest, _) = list_local_members(&store, None, 2, 1000);
    assert_eq!(rest.len(), 50);
    let (one, _) = list_local_members(&store, None, 1, 0);
    assert_eq!(ids(&one), vec![150]);
    let (next, _) = list_local_members(&store, None, 2, 0);
    assert_eq!(ids(&next), vec![149]);
    let (exact, _) = list_local_members(&store, None, 1, 100);
    assert_eq!(exact.len(), 100);
}

#[test]
fn members_with_equal_times_keep_their_stored_order() {
    let rows = vec![member(5, "e", "t1"), member(3, "c", "t2"), member(9, "i", "t1"), member(1, "a", "t2")];
    let store = RosterStore::from_rows(rows, vec![], vec![]).unwrap();
    let (items, _) = list_local_members(&store, None, 1, 20);
    assert_eq!(ids(&items), vec![3, 1, 5, 9]);
}

#[test]
fn from_rows_accepts_sound_rows() {
    let store = sample();
    let copy = RosterStore::from_rows(
        store.members().clone(),
        store.groups().clone(),
        store.links().clone(),
    )
    .unwrap();
    assert_eq!(ids(copy.members()), vec![1, 2, 3]);
    assert_eq!(copy.groups().len(), 2);
    assert_eq!(copy.links().len(), 4);
    assert!(copy.is_in_group(2, 2));
    assert!(!copy.is_in_group(2, 1));
}

#[test]
fn from_rows_refuses_broken_rows() {
    let m = |id| member(id, "x", "t");
    let g = |id| GroupRow { id, name: "g".to_string(), created_at: "t".to_string() };
    let l = |group_id, user_id| GroupLink { group_id, user_id, created_at: "t".to_string() };
    let refused = |members, groups, links| {
        RosterStore::from_rows(members, groups, links).err() == Some(StoreError::Inconsistent)
    };
    assert!(refused(vec![m(1), m(2), m(1)], vec![], vec![]));
    assert!(refused(vec![], vec![g(2), g(1)], vec![]));
    assert!(refused(vec![], vec![g(1), g(1)], vec![]));
    assert!(refused(vec![], vec![g(0)], vec![]));
    assert!(refused(vec![m(1)], vec![g(1)], vec![l(1, 1), l(1, 1)]));
    assert!(refused(vec![m(1)], vec![g(1)], vec![l(2, 1)]));
    assert!(refused(vec![m(1)], vec![g(1)], vec![l(1, 2)]));
    assert!(!refused(vec![m(1), m(2)], vec![g(1), g(5)], vec![l(5, 1), l(1, 1), l(5, 2)]));
}

#[test]
fn refusals_read_as_documented() {
    assert_eq!(StoreError::UnknownGroup { group_id: -3 }.message(), "group -3 is not stored");
    assert_eq!(StoreError::UnknownMember { user_id: 42 }.message(), "member 42 is not stored");
    assert_eq!(StoreError::Full.message(), "the roster is full");
    assert_eq!(StoreError::Inconsistent.message(), "the stored rows break a rule of the roster");
}
