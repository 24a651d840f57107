use gitlab_member_manager::decimal::{i64_to_string, parse_u64, u64_to_string};
use gitlab_member_manager::error::GitLabError;
use gitlab_member_manager::gitlab::{
    add_member, add_member_request, api_url, check_status, encode_project, header_total,
    can_resolve_total, list_project_members, list_project_members_request, normalize_base_url,
    remove_member,
    remove_member_request, resolve_total, search_projects, search_projects_request, summarize,
    ApiNamespace, ApiProject, GitLabConfig, HttpMethod, HttpReply, HttpRequest, Param,
};
use gitlab_member_manager::models::ProjectMember;

fn cfg() -> GitLabConfig {
    GitLabConfig { base_url: "https://gitlab.example.com//".to_string(), token: "tok".to_string() }
}

fn pairs(params: &Vec<Param>) -> Vec<(String, String)> {
    params.iter().map(|p| (p.name.clone(), p.value.clone())).collect()
}

fn pair(name: &str, value: &str) -> (String, String) {
    (name.to_string(), value.to_string())
}

fn reply(status: u16, body: &str) -> Result<HttpReply, String> {
    Ok(HttpReply { status, total: None, body: body.to_string() })
}

fn no_reply() -> Result<HttpReply, String> {
    Err("connection refused".to_string())
}

fn project(path: &str, namespace: Option<ApiNamespace>) -> ApiProject {
    ApiProject {
        id: 7,
        name: "demo".to_string(),
        path_with_namespace: path.to_string(),
        description: Some("d".to_string()),
        last_activity_at: "2026-01-19T00:00:00Z".to_string(),
        namespace,
    }
}

#[test]
fn normalize_base_url_strips_every_trailing_slash() {
    assert_eq!(normalize_base_url("https://gitlab.example.com///"), "https://gitlab.example.com");
    assert_eq!(normalize_base_url("https://gitlab.example.com"), "https://gitlab.example.com");
    assert_eq!(normalize_base_url("///"), "");
    assert_eq!(normalize_base_url(""), "");
    assert_eq!(normalize_base_url("a/b/"), "a/b");
}

#[test]
fn api_url_joins_base_and_path() {
    assert_eq!(api_url("https://h/", "/api/v4/projects"), "https://h/api/v4/projects");
    assert_eq!(api_url("https://h", "/x"), "https://h/x");
}

#[test]
fn encode_project_passes_numeric_ids_through() {
    assert_eq!(encode_project("12345"), "12345");
    assert_eq!(encode_project("007"), "007");
    assert_eq!(encode_project(""), "");
}

#[test]
fn encode_project_percent_encodes_paths() {
    assert_eq!(encode_project("group/sub/project"), "group%2Fsub%2Fproject");
    assert_eq!(encode_project("12a"), "12a");
    assert_eq!(encode_project("a b"), "a%20b");
    assert_eq!(encode_project("12 3"), "12%203");
    assert_eq!(encode_project("组/x-y_z.~"), "%E7%BB%84%2Fx-y_z.~");
}

#[test]
fn search_request_has_the_documented_shape() {
    let request: HttpRequest = search_projects_request(&cfg(), "  kernel ", 3, 20);
    assert_eq!(request.method, HttpMethod::Get);
    assert_eq!(request.url, "https://gitlab.example.com/api/v4/projects");
    assert_eq!(request.private_token, "tok");
    assert_eq!(
        pairs(&request.query),
        vec![
            pair("search", "kernel"),
            pair("simple", "true"),
            pair("per_page", "20"),
            pair("page", "3"),
            pair("order_by", "last_activity_at"),
            pair("sort", "desc"),
        ]
    );
    assert!(request.form.is_empty());
}

#[test]
fn search_request_accepts_an_empty_keyword() {
    let request = search_projects_request(&cfg(), "", 1, 50);
    assert_eq!(pairs(&request.query)[0], pair("search", ""));
}

#[test]
fn member_listing_request_encodes_the_project() {
    let request = list_project_members_request(&cfg(), " group/project ", 2, 100);
    assert_eq!(request.method, HttpMethod::Get);
    assert_eq!(
        request.url,
        "https://gitlab.example.com/api/v4/projects/group%2Fproject/members/all"
    );
    assert_eq!(pairs(&request.query), vec![pair("per_page", "100"), pair("page", "2")]);
    let by_id = list_project_members_request(&cfg(), "42", 1, 20);
    assert_eq!(by_id.url, "https://gitlab.example.com/api/v4/projects/42/members/all");
}

#[test]
fn add_member_request_forwards_a_given_expiry() {
    let request = add_member_request(&cfg(), "42", 9, 30, Some("2027-01-01".to_string()));
    assert_eq!(request.method, HttpMethod::Post);
    assert_eq!(request.url, "https://gitlab.example.com/api/v4/projects/42/members");
    assert!(request.query.is_empty());
    assert_eq!(
        pairs(&request.form),
        vec![pair("user_id", "9"), pair("access_level", "30"), pair("expires_at", "2027-01-01")]
    );
}

#[test]
fn add_member_request_leaves_out_a_blank_expiry() {
    let absent = add_member_request(&cfg(), "42", 9, 30, None);
    assert_eq!(pairs(&absent.form), vec![pair("user_id", "9"), pair("access_level", "30")]);
    let blank = add_member_request(&cfg(), "42", 9, 30, Some(" \t\n".to_string()));
    assert_eq!(pairs(&blank.form), vec![pair("user_id", "9"), pair("access_level", "30")]);
    let empty = add_member_request(&cfg(), "42", 9, 30, Some(String::new()));
    assert_eq!(empty.form.len(), 2);
    let padded = add_member_request(&cfg(), "42", 9, -5, Some(" 2027-01-01 ".to_string()));
    assert_eq!(
        pairs(&padded.form),
        vec![pair("user_id", "9"), pair("access_level", "-5"), pair("expires_at", " 2027-01-01 ")]
    );
}

#[test]
fn remove_member_request_names_the_user_in_the_path() {
    let request = remove_member_request(&cfg(), "group/project", 18446744073709551615);
    assert_eq!(request.method, HttpMethod::Delete);
    assert_eq!(
        request.url,
        "https://gitlab.example.com/api/v4/projects/group%2Fproject/members/18446744073709551615"
    );
    assert!(request.query.is_empty());
    assert!(request.form.is_empty());
}

#[test]
fn add_member_treats_conflict_as_success() {
    assert!(add_member(reply(201, "")).is_ok());
    assert!(add_member(reply(200, "")).is_ok());
    assert!(add_member(reply(409, "Member already exists")).is_ok());
    assert!(add_member(reply(409, "Member already exists")).is_ok());
}

#[test]
fn add_member_surfaces_other_statuses() {
    match add_member(reply(404, "no project")) {
        Err(GitLabError::Remote { status, body }) => {
            assert_eq!(status, 404);
            assert_eq!(body, "no project");
        }
        other => panic!("unexpected {:?}", other),
    }
    assert!(add_member(reply(500, "")).is_err());
    assert!(add_member(reply(199, "")).is_err());
    assert!(add_member(reply(300, "")).is_err());
}

#[test]
fn remove_member_treats_not_found_as_success() {
    assert!(remove_member(reply(204, "")).is_ok());
    assert!(remove_member(reply(404, "404 Not found")).is_ok());
    assert!(remove_member(reply(404, "404 Not found")).is_ok());
}

#[test]
fn remove_member_surfaces_other_statuses() {
    match remove_member(reply(409, "busy")) {
        Err(GitLabError::Remote { status, body }) => {
            assert_eq!(status, 409);
            assert_eq!(body, "busy");
        }
        other => panic!("unexpected {:?}", other),
    }
    assert!(remove_member(reply(403, "")).is_err());
}

#[test]
fn check_status_accepts_only_successes() {
    let accepted = check_status(reply(200, "[]")).unwrap();
    assert_eq!(accepted.status, 200);
    assert_eq!(accepted.body, "[]");
    assert!(check_status(reply(299, "")).is_ok());
    assert!(check_status(reply(409, "")).is_err());
    assert!(check_status(reply(404, "")).is_err());
    match check_status(reply(401, "denied")) {
        Err(e) => assert_eq!(e.message(), "GitLab API error 401 Unauthorized: denied"),
        Ok(_) => panic!("accepted"),
    }
}

#[test]
fn no_reply_is_a_transport_failure() {
    for outcome in [add_member(no_reply()), remove_member(no_reply())] {
        match outcome {
            Err(GitLabError::Transport { detail }) => assert_eq!(detail, "connection refused"),
            other => panic!("unexpected {:?}", other),
        }
    }
    match check_status(no_reply()) {
        Err(GitLabError::Transport { detail }) => assert_eq!(detail, "connection refused"),
        other => panic!("unexpected {:?}", other),
    }
}

#[test]
fn unreadable_body_is_a_decode_failure() {
    match search_projects(Err("expected value at line 1".to_string()), &None, 1, 20) {
        Err(GitLabError::Decode { detail }) => assert_eq!(detail, "expected value at line 1"),
        other => panic!("unexpected {:?}", other.map(|r| r.1)),
    }
    match list_project_members(Err("eof".to_string()), &Some("7".to_string()), 0, 20) {
        Err(e) => assert_eq!(e.message(), "Parse JSON"),
        Ok(_) => panic!("accepted"),
    }
}

#[test]
fn error_messages_read_as_documented() {
    let remote = GitLabError::Remote { status: 404, body: "gone".to_string() };
    assert_eq!(remote.message(), "GitLab API error 404 Not Found: gone");
    let odd = GitLabError::Remote { status: 799, body: String::new() };
    assert_eq!(odd.message(), "GitLab API error 799 <unknown status code>: ");
    let no_status = GitLabError::Remote { status: 42, body: "x".to_string() };
    assert_eq!(no_status.message(), "GitLab API error 42: x");
    let transport = GitLabError::Transport { detail: "connection refused".to_string() };
    assert_eq!(transport.message(), "GitLab request failed");
    let decode = GitLabError::Decode { detail: "eof".to_string() };
    assert_eq!(decode.message(), "Parse JSON");
    let validation = GitLabError::Validation { message: "token is empty".to_string() };
    assert_eq!(validation.message(), "token is empty");
}

#[test]
fn full_page_without_header_resolves_to_one_more() {
    assert_eq!(resolve_total(0, 1, 20, 20), 21);
}

#[test]
fn short_page_without_header_resolves_to_its_size() {
    assert_eq!(resolve_total(0, 1, 20, 5), 5);
}

#[test]
fn estimate_counts_the_pages_before() {
    assert_eq!(resolve_total(0, 3, 20, 20), 61);
    assert_eq!(resolve_total(0, 3, 20, 7), 47);
    assert_eq!(resolve_total(0, 2, 20, 0), 20);
    assert_eq!(resolve_total(0, 1, 20, 25), 26);
    assert_eq!(resolve_total(0, 1, 0, 0), 1);
    assert_eq!(resolve_total(0, 4294967295, 4294967295, 1), 18446744060824649731);
}

#[test]
fn totals_are_resolvable_from_page_one_on_within_64_bits() {
    assert!(can_resolve_total(0, 1, 20, 20));
    assert!(can_resolve_total(0, 4294967295, 4294967295, 1));
    assert!(!can_resolve_total(0, 0, 20, 20));
    assert!(can_resolve_total(5, 0, 20, 20));
    assert!(can_resolve_total(0, 1, 0, usize::MAX - 1));
    assert!(!can_resolve_total(0, 1, 0, usize::MAX));
    assert!(!can_resolve_total(0, 1, u32::MAX, usize::MAX));
    assert!(!can_resolve_total(0, 2, 1, usize::MAX));
    assert!(can_resolve_total(9, 2, 1, usize::MAX));
}

#[test]
fn reported_total_wins_unless_it_is_zero() {
    assert_eq!(resolve_total(137, 1, 20, 20), 137);
    assert_eq!(resolve_total(1, 5, 20, 20), 1);
    assert_eq!(resolve_total(0, 5, 20, 20), 101);
}

#[test]
fn header_total_reads_a_number_or_zero() {
    assert_eq!(header_total(&Some("137".to_string())), 137);
    assert_eq!(header_total(&Some("+9".to_string())), 9);
    assert_eq!(header_total(&Some("0".to_string())), 0);
    assert_eq!(header_total(&Some("".to_string())), 0);
    assert_eq!(header_total(&Some(" 12".to_string())), 0);
    assert_eq!(header_total(&Some("12a".to_string())), 0);
    assert_eq!(header_total(&Some("-1".to_string())), 0);
    assert_eq!(header_total(&None), 0);
}

#[test]
fn parse_u64_agrees_with_the_standard_parser() {
    let samples = [
        "", "+", "-", "0", "00", "007", "+0", "++1", "+-1", "1", "42", "18446744073709551615",
        "18446744073709551616", "99999999999999999999", "184467440737095516150", " 1", "1 ", "1_0",
        "0x10", "１２", "+18446744073709551615", "000000000000000000000000000001",
    ];
    for s in samples {
        assert_eq!(parse_u64(s), s.parse::<u64>().ok(), "{:?}", s);
    }
}

#[test]
fn integers_are_written_as_the_standard_library_writes_them() {
    for n in [0u64, 1, 9, 10, 11, 99, 100, 101, 12345, 4294967295, u64::MAX] {
        assert_eq!(u64_to_string(n), n.to_string());
    }
    for v in [0i64, 1, -1, 10, -10, 50, i64::MAX, i64::MIN, i64::MIN + 1] {
        assert_eq!(i64_to_string(v), v.to_string());
    }
}

#[test]
fn namespace_prefers_the_declared_full_path() {
    let p = project(
        "group/sub/demo",
        Some(ApiNamespace { full_path: Some("group/sub".to_string()), name: Some("Sub".to_string()) }),
    );
    assert_eq!(summarize(&p).namespace, "group/sub");
}

#[test]
fn namespace_falls_back_to_the_declared_name() {
    let p = project("group/sub/demo", Some(ApiNamespace { full_path: None, name: Some("Sub".to_string()) }));
    assert_eq!(summarize(&p).namespace, "Sub");
}

#[test]
fn namespace_falls_back_to_the_path_before_the_last_slash() {
    let none = project("group/sub/demo", None);
    assert_eq!(summarize(&none).namespace, "group/sub");
    let hollow = project("group/demo", Some(ApiNamespace { full_path: None, name: None }));
    assert_eq!(summarize(&hollow).namespace, "group");
    let leading = project("/demo", None);
    assert_eq!(summarize(&leading).namespace, "");
}

#[test]
fn namespace_is_the_whole_path_without_a_slash() {
    let p = project("demo", None);
    let s = summarize(&p);
    assert_eq!(s.namespace, "demo");
    assert_eq!(s.id, 7);
    assert_eq!(s.name, "demo");
    assert_eq!(s.path_with_namespace, "demo");
    assert_eq!(s.description, Some("d".to_string()));
    assert_eq!(s.last_activity_at, "2026-01-19T00:00:00Z");
}

#[test]
fn search_projects_keeps_order_and_resolves_the_total() {
    let projects = || Ok(vec![project("a/one", None), project("b/two", None)]);
    let (items, total) = search_projects(projects(), &Some("12".to_string()), 1, 2).unwrap();
    assert_eq!(items.len(), 2);
    assert_eq!(items[0].namespace, "a");
    assert_eq!(items[1].namespace, "b");
    assert_eq!(total, 12);
    let (_, estimated) = search_projects(projects(), &None, 2, 2).unwrap();
    assert_eq!(estimated, 5);
    let (_, zero_header) = search_projects(projects(), &Some("0".to_string()), 1, 20).unwrap();
    assert_eq!(zero_header, 2);
    let (none, empty_total) = search_projects(Ok(Vec::new()), &None, 1, 20).unwrap();
    assert!(none.is_empty());
    assert_eq!(empty_total, 0);
}

#[test]
fn list_project_members_hands_the_members_on() {
    let members = vec![ProjectMember {
        id: 5,
        username: "alice".to_string(),
        name: "Alice".to_string(),
        avatar_url: None,
        access_level: 40,
        created_at: None,
        expires_at: Some("2027-01-01".to_string()),
    }];
    let (items, total) = list_project_members(Ok(members), &None, 1, 1).unwrap();
    assert_eq!(items.len(), 1);
    assert_eq!(items[0].id, 5);
    assert_eq!(items[0].username, "alice");
    assert_eq!(items[0].access_level, 40);
    assert_eq!(items[0].expires_at, Some("2027-01-01".to_string()));
    assert_eq!(total, 2);
}
