use gitlab_member_manager::batch::run_batch;
use gitlab_member_manager::error::GitLabError;
use gitlab_member_manager::gitlab::{add_member, remove_member, HttpReply};
use gitlab_member_manager::models::BatchResult;
use std::cell::RefCell;

fn transport() -> GitLabError {
    GitLabError::Transport { detail: "connection reset".to_string() }
}

fn status(code: u16) -> Result<HttpReply, String> {
    Ok(HttpReply { status: code, total: None, body: String::new() })
}

#[test]
fn batch_collects_one_outcome_per_user() {
    let ids = vec![1u64, 2, 3];
    let result = run_batch(&ids, |id| if id == 2 { Err(transport()) } else { Ok(()) });
    assert_eq!(result.success_user_ids, vec![1, 3]);
    assert_eq!(result.failed.len(), 1);
    assert_eq!(result.failed[0].user_id, 2);
    assert_eq!(result.failed[0].message, "GitLab request failed");
}

#[test]
fn batch_add_reports_a_transport_failure_for_one_user() {
    let ids = vec![1u64, 2, 3];
    let result = run_batch(&ids, |id| {
        add_member(if id == 2 { Err("connection reset".to_string()) } else { status(201) })
    });
    assert_eq!(result.success_user_ids, vec![1, 3]);
    assert_eq!(result.failed.len(), 1);
    assert_eq!(result.failed[0].user_id, 2);
    assert_eq!(result.failed[0].message, "GitLab request failed");
}

#[test]
fn batch_never_stops_at_a_failure() {
    let seen = RefCell::new(Vec::new());
    let ids = vec![10u64, 20, 30, 40];
    let result = run_batch(&ids, |id| {
        seen.borrow_mut().push(id);
        Err(GitLabError::Remote { status: 500, body: format!("boom {}", id) })
    });
    assert_eq!(*seen.borrow(), vec![10, 20, 30, 40]);
    assert!(result.success_user_ids.is_empty());
    let failed: Vec<(u64, String)> =
        result.failed.iter().map(|e| (e.user_id, e.message.clone())).collect();
    assert_eq!(
        failed,
        vec![
            (10, "GitLab API error 500 Internal Server Error: boom 10".to_string()),
            (20, "GitLab API error 500 Internal Server Error: boom 20".to_string()),
            (30, "GitLab API error 500 Internal Server Error: boom 30".to_string()),
            (40, "GitLab API error 500 Internal Server Error: boom 40".to_string()),
        ]
    );
}

#[test]
fn batch_covers_every_input_exactly_once() {
    let ids: Vec<u64> = (1..=50).collect();
    let result = run_batch(&ids, |id| if id % 3 == 0 { Err(transport()) } else { Ok(()) });
    assert_eq!(result.success_user_ids.len() + result.failed.len(), ids.len());
    let mut all: Vec<u64> = result.success_user_ids.clone();
    all.extend(result.failed.iter().map(|e| e.user_id));
    all.sort();
    assert_eq!(all, ids);
    for e in &result.failed {
        assert!(!result.success_user_ids.contains(&e.user_id));
    }
    let expected_ok: Vec<u64> = ids.iter().copied().filter(|id| id % 3 != 0).collect();
    assert_eq!(result.success_user_ids, expected_ok);
}

#[test]
fn batch_of_nothing_is_empty() {
    let result = run_batch(&Vec::new(), |_| Ok(()));
    assert!(result.success_user_ids.is_empty());
    assert!(result.failed.is_empty());
}

#[test]
fn batch_keeps_a_user_submitted_twice_in_both_places() {
    let calls = RefCell::new(0u32);
    let ids = vec![1u64, 1];
    let result = run_batch(&ids, |_| {
        *calls.borrow_mut() += 1;
        if *calls.borrow() == 1 { Err(transport()) } else { Ok(()) }
    });
    assert_eq!(result.success_user_ids, vec![1]);
    assert_eq!(result.failed.len(), 1);
    assert_eq!(result.failed[0].user_id, 1);
}

#[test]
fn record_appends_in_submission_order() {
    let mut result = BatchResult::new();
    assert!(result.success_user_ids.is_empty());
    assert!(result.failed.is_empty());
    result.record(3, Ok(()));
    result.record(1, Err(GitLabError::Validation { message: "no".to_string() }));
    result.record(2, Ok(()));
    assert_eq!(result.success_user_ids, vec![3, 2]);
    assert_eq!(result.failed.len(), 1);
    assert_eq!(result.failed[0].user_id, 1);
    assert_eq!(result.failed[0].message, "no");
    let copy = result.clone();
    assert_eq!(copy.success_user_ids, vec![3, 2]);
    assert_eq!(copy.failed.len(), 1);
    assert_eq!(copy.failed[0].user_id, 1);
    assert_eq!(copy.failed[0].message, "no");
}

#[test]
fn retried_batch_add_reports_applied_changes_as_success() {
    let ids = vec![1u64, 2, 3];
    let first = run_batch(&ids, |id| add_member(status(if id == 2 { 502 } else { 201 })));
    assert_eq!(first.success_user_ids, vec![1, 3]);
    assert_eq!(first.failed[0].message, "GitLab API error 502 Bad Gateway: ");
    let again = run_batch(&ids, |id| add_member(status(if id == 2 { 201 } else { 409 })));
    assert_eq!(again.success_user_ids, vec![1, 2, 3]);
    assert!(again.failed.is_empty());
}

#[test]
fn retried_batch_remove_reports_applied_changes_as_success() {
    let ids = vec![7u64, 8];
    let again = run_batch(&ids, |_| {
        remove_member(Ok(HttpReply { status: 404, total: None, body: "404 Not found".to_string() }))
    });
    assert_eq!(again.success_user_ids, vec![7, 8]);
    assert!(again.failed.is_empty());
}
