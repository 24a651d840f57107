//! The remote project directory: which request each operation sends, and
//! what its reply means. Sending is left to the caller.

use vstd::prelude::*;
use vstd::string::StringExecFns;
use vstd::utf8::encode_utf8;
use crate::decimal::{
    decimal_text,
    i64_to_string,
    parse_u64,
    parsed_u64,
    signed_decimal_text,
    u64_to_string,
};
use crate::error::{GitLabError, GitLabErrorView};
use crate::models::{clone_opt, opt_text, ProjectMember, ProjectSummary, ProjectSummaryView};
use crate::text::{
    before_last,
    blank,
    is_blank,
    split_before_last,
    to_chars,
    trim,
    trim_end_matches,
    trimmed,
    without_trailing,
};

verus! {

broadcast use vstd::string::group_string_axioms;

// ---------------------------------------------------------------------------
// Connection profile
// ---------------------------------------------------------------------------

/// Where the remote directory is, and the token that opens it.
#[derive(Debug)]
pub struct GitLabConfig {
    pub base_url: String,
    pub token: String,
}

pub ghost struct GitLabConfigView {
    pub base_url: Seq<char>,
    pub token: Seq<char>,
}

impl View for GitLabConfig {
    type V = GitLabConfigView;

    open spec fn view(&self) -> GitLabConfigView {
        GitLabConfigView { base_url: self.base_url@, token: self.token@ }
    }
}

impl Clone for GitLabConfig {
    fn clone(&self) -> (res: Self)
        ensures
            res == *self,
    {
        GitLabConfig { base_url: self.base_url.clone(), token: self.token.clone() }
    }
}

// ---------------------------------------------------------------------------
// Addresses
// ---------------------------------------------------------------------------

/// `base_url` without the slashes at its end.
pub fn normalize_base_url(base_url: &str) -> (out: String)
    ensures
        out@ == without_trailing(base_url@, '/'),
{
    trim_end_matches(base_url, '/').to_owned()
}

/// The address of `path` below `base_url`.
pub open spec fn api_url_text(base_url: Seq<char>, path: Seq<char>) -> Seq<char> {
    without_trailing(base_url, '/') + path
}

/// The address of `path` below `base_url`.
pub fn api_url(base_url: &str, path: &str) -> (out: String)
    ensures
        out@ == api_url_text(base_url@, path@),
{
    let mut out = normalize_base_url(base_url);
    out.append(path);
    out
}

/// The bytes that stand in a path as they are: letters, digits and `-` `.` `_` `~`.
pub open spec fn is_unreserved(b: u8) -> bool {
    ||| 0x30 <= b <= 0x39
    ||| 0x41 <= b <= 0x5a
    ||| 0x61 <= b <= 0x7a
    ||| b == 0x2d
    ||| b == 0x2e
    ||| b == 0x5f
    ||| b == 0x7e
}

/// The upper-case hexadecimal digit for `d`.
pub open spec fn hex_digit(d: u8) -> char
    recommends
        d < 16,
{
    if d < 10 {
        (0x30 + d) as u8 as char
    } else {
        (0x37 + d) as u8 as char
    }
}

/// Each unreserved byte as itself, every other byte as `%` and two
/// hexadecimal digits.
pub open spec fn percent_encoded_bytes(bytes: Seq<u8>) -> Seq<char>
    decreases bytes.len(),
{
    if bytes.len() == 0 {
        Seq::empty()
    } else {
        let b = bytes.last();
        percent_encoded_bytes(bytes.drop_last()) + if is_unreserved(b) {
            seq![b as char]
        } else {
            seq!['%', hex_digit(b / 16), hex_digit(b % 16)]
        }
    }
}

/// The percent-encoding of the UTF-8 form of `s`.
pub open spec fn percent_encoded(s: Seq<char>) -> Seq<char> {
    percent_encoded_bytes(encode_utf8(s))
}

/// `urlencoding::encode`, which percent-encodes every byte of the UTF-8 form
/// of its argument except ASCII letters, digits and `-`, `_`, `.`, `~`, and
/// writes the hexadecimal digits in upper case.
#[verifier::external_body]
fn percent_encode(s: &str) -> (out: String)
    ensures
        out@ == percent_encoded(s@),
{
    urlencoding::encode(s).into_owned()
}

/// Whether `s` is made of the digits `0` to `9` alone. The empty text is.
pub open spec fn is_numeric_ref(s: Seq<char>) -> bool {
    forall|i: int| 0 <= i < s.len() ==> 48 <= (#[trigger] s[i]) as u32 <= 57
}

/// How a project reference stands in a request path: a numeric id as it is,
/// a path percent-encoded.
pub open spec fn encoded_project(project: Seq<char>) -> Seq<char> {
    if is_numeric_ref(project) {
        project
    } else {
        percent_encoded(project)
    }
}

/// Whether `project` is a numeric id.
pub fn numeric_ref(project: &str) -> (b: bool)
    ensures
        b == is_numeric_ref(project@),
{
    let chars = to_chars(project);
    let mut i: usize = 0;
    while i < chars.len()
        invariant
            i <= chars.len(),
            chars@ == project@,
            is_numeric_ref(chars@.take(i as int)),
        decreases chars.len() - i,
    {
        let u: u32 = chars[i] as u32;
        if u < 48 || u > 57 {
            return false;
        }
        i += 1;
    }
    assert(chars@.take(i as int) =~= chars@);
    true
}

/// A project reference as it stands in a request path.
pub fn encode_project(project: &str) -> (out: String)
    ensures
        out@ == encoded_project(project@),
{
    if numeric_ref(project) {
        project.to_owned()
    } else {
        percent_encode(project)
    }
}

// ---------------------------------------------------------------------------
// Requests
// ---------------------------------------------------------------------------

/// The verb of a request.
#[derive(Debug, Clone, Copy, PartialEq, Eq, Structural)]
pub enum HttpMethod {
    Get,
    Post,
    Delete,
}

/// A named value of a query string or of a form.
#[derive(Debug)]
pub struct Param {
    pub name: String,
    pub value: String,
}

impl View for Param {
    type V = (Seq<char>, Seq<char>);

    open spec fn view(&self) -> (Seq<char>, Seq<char>) {
        (self.name@, self.value@)
    }
}

/// The named values of `params`, in order.
pub open spec fn param_views(params: Seq<Param>) -> Seq<(Seq<char>, Seq<char>)> {
    params.map_values(|p: Param| p@)
}

/// A request to the remote directory. The token travels in the header
/// `PRIVATE-TOKEN`; `query` goes into the address and `form` into the body.
#[derive(Debug)]
pub struct HttpRequest {
    pub method: HttpMethod,
    pub url: String,
    pub private_token: String,
    pub query: Vec<Param>,
    pub form: Vec<Param>,
}

pub ghost struct HttpRequestView {
    pub method: HttpMethod,
    pub url: Seq<char>,
    pub private_token: Seq<char>,
    pub query: Seq<(Seq<char>, Seq<char>)>,
    pub form: Seq<(Seq<char>, Seq<char>)>,
}

impl View for HttpRequest {
    type V = HttpRequestView;

    open spec fn view(&self) -> HttpRequestView {
        HttpRequestView {
            method: self.method,
            url: self.url@,
            private_token: self.private_token@,
            query: param_views(self.query@),
            form: param_views(self.form@),
        }
    }
}

fn push_param(params: &mut Vec<Param>, name: &str, value: String)
    ensures
        param_views(final(params)@) == param_views(old(params)@).push((name@, value@)),
{
    params.push(Param { name: name.to_owned(), value });
    assert(param_views(params@) =~= param_views(old(params)@).push((name@, value@)));
}

/// The request that searches the projects for `keyword`, newest activity
/// first, and asks for page `page` of `per_page` items.
pub open spec fn search_projects_request_view(
    cfg: GitLabConfigView,
    keyword: Seq<char>,
    page: u32,
    per_page: u32,
) -> HttpRequestView {
    HttpRequestView {
        method: HttpMethod::Get,
        url: api_url_text(cfg.base_url, "/api/v4/projects"@),
        private_token: cfg.token,
        query: seq![
            ("search"@, trimmed(keyword)),
            ("simple"@, "true"@),
            ("per_page"@, decimal_text(per_page as nat)),
            ("page"@, decimal_text(page as nat)),
            ("order_by"@, "last_activity_at"@),
            ("sort"@, "desc"@),
        ],
        form: Seq::empty(),
    }
}

/// The request of a project search.
pub fn search_projects_request(cfg: &GitLabConfig, keyword: &str, page: u32, per_page: u32) -> (request:
    HttpRequest)
    ensures
        request@ == search_projects_request_view(cfg@, keyword@, page, per_page),
{
    let mut query: Vec<Param> = Vec::new();
    assert(param_views(query@) =~= Seq::empty());
    push_param(&mut query, "search", trim(keyword).to_owned());
    push_param(&mut query, "simple", "true".to_owned());
    push_param(&mut query, "per_page", u64_to_string(per_page as u64));
    push_param(&mut query, "page", u64_to_string(page as u64));
    push_param(&mut query, "order_by", "last_activity_at".to_owned());
    push_param(&mut query, "sort", "desc".to_owned());
    let form: Vec<Param> = Vec::new();
    assert(param_views(form@) =~= Seq::empty());
    let request = HttpRequest {
        method: HttpMethod::Get,
        url: api_url(cfg.base_url.as_str(), "/api/v4/projects"),
        private_token: cfg.token.clone(),
        query,
        form,
    };
    assert(request@.query =~= search_projects_request_view(
        cfg@,
        keyword@,
        page,
        per_page,
    ).query);
    request
}

/// The path of the members of `project`, followed by `tail`.
pub open spec fn members_path(project: Seq<char>, tail: Seq<char>) -> Seq<char> {
    "/api/v4/projects/"@ + encoded_project(trimmed(project)) + "/members"@ + tail
}

fn members_url(cfg: &GitLabConfig, project: &str, tail: &str) -> (out: String)
    ensures
        out@ == api_url_text(cfg@.base_url, members_path(project@, tail@)),
{
    let mut path = "/api/v4/projects/".to_owned();
    path.append(encode_project(trim(project)).as_str());
    path.append("/members");
    path.append(tail);
    api_url(cfg.base_url.as_str(), path.as_str())
}

/// The request that lists the members of `project`, inherited ones included,
/// and asks for page `page` of `per_page` items.
pub open spec fn list_project_members_request_view(
    cfg: GitLabConfigView,
    project: Seq<char>,
    page: u32,
    per_page: u32,
) -> HttpRequestView {
    HttpRequestView {
        method: HttpMethod::Get,
        url: api_url_text(cfg.base_url, members_path(project, "/all"@)),
        private_token: cfg.token,
        query: seq![
            ("per_page"@, decimal_text(per_page as nat)),
            ("page"@, decimal_text(page as nat)),
        ],
        form: Seq::empty(),
    }
}

/// The request of a member listing.
pub fn list_project_members_request(
    cfg: &GitLabConfig,
    project: &str,
    page: u32,
    per_page: u32,
) -> (request: HttpRequest)
    ensures
        request@ == list_project_members_request_view(cfg@, project@, page, per_page),
{
    let mut query: Vec<Param> = Vec::new();
    assert(param_views(query@) =~= Seq::empty());
    push_param(&mut query, "per_page", u64_to_string(per_page as u64));
    push_param(&mut query, "page", u64_to_string(page as u64));
    let form: Vec<Param> = Vec::new();
    assert(param_views(form@) =~= Seq::empty());
    let request = HttpRequest {
        method: HttpMethod::Get,
        url: members_url(cfg, project, "/all"),
        private_token: cfg.token.clone(),
        query,
        form,
    };
    assert(request@.query =~= list_project_members_request_view(
        cfg@,
        project@,
        page,
        per_page,
    ).query);
    request
}

/// The form of an added membership. An expiry date that is absent or blank
/// is left out; one that is given is sent as it was given.
pub open spec fn add_member_form(user_id: u64, access_level: i64, expires_at: Option<Seq<char>>) -> Seq<
    (Seq<char>, Seq<char>),
> {
    let fixed = seq![
        ("user_id"@, decimal_text(user_id as nat)),
        ("access_level"@, signed_decimal_text(access_level as int)),
    ];
    match expires_at {
        Some(date) if !is_blank(date) => fixed.push(("expires_at"@, date)),
        _ => fixed,
    }
}

/// The request that makes `user_id` a member of `project`.
pub open spec fn add_member_request_view(
    cfg: GitLabConfigView,
    project: Seq<char>,
    user_id: u64,
    access_level: i64,
    expires_at: Option<Seq<char>>,
) -> HttpRequestView {
    HttpRequestView {
        method: HttpMethod::Post,
        url: api_url_text(cfg.base_url, members_path(project, Seq::empty())),
        private_token: cfg.token,
        query: Seq::empty(),
        form: add_member_form(user_id, access_level, expires_at),
    }
}

/// The request of an added membership.
pub fn add_member_request(
    cfg: &GitLabConfig,
    project: &str,
    user_id: u64,
    access_level: i64,
    expires_at: Option<String>,
) -> (request: HttpRequest)
    ensures
        request@ == add_member_request_view(
            cfg@,
            project@,
            user_id,
            access_level,
            opt_text(expires_at),
        ),
{
    let query: Vec<Param> = Vec::new();
    assert(param_views(query@) =~= Seq::empty());
    let mut form: Vec<Param> = Vec::new();
    assert(param_views(form@) =~= Seq::empty());
    push_param(&mut form, "user_id", u64_to_string(user_id));
    push_param(&mut form, "access_level", i64_to_string(access_level));
    if let Some(date) = expires_at {
        if !blank(date.as_str()) {
            push_param(&mut form, "expires_at", date);
        }
    }
    let request = HttpRequest {
        method: HttpMethod::Post,
        url: members_url(cfg, project, ""),
        private_token: cfg.token.clone(),
        query,
        form,
    };
    proof {
        reveal_strlit("");
        assert(""@ =~= Seq::<char>::empty());
        assert(request@.form =~= add_member_form(user_id, access_level, opt_text(expires_at)));
    }
    request
}

/// The request that ends the membership of `user_id` in `project`.
pub open spec fn remove_member_request_view(
    cfg: GitLabConfigView,
    project: Seq<char>,
    user_id: u64,
) -> HttpRequestView {
    HttpRequestView {
        method: HttpMethod::Delete,
        url: api_url_text(
            cfg.base_url,
            members_path(project, "/"@ + decimal_text(user_id as nat)),
        ),
        private_token: cfg.token,
        query: Seq::empty(),
        form: Seq::empty(),
    }
}

/// The request of a removed membership.
pub fn remove_member_request(cfg: &GitLabConfig, project: &str, user_id: u64) -> (request:
    HttpRequest)
    ensures
        request@ == remove_member_request_view(cfg@, project@, user_id),
{
    let query: Vec<Param> = Vec::new();
    assert(param_views(query@) =~= Seq::empty());
    let form: Vec<Param> = Vec::new();
    assert(param_views(form@) =~= Seq::empty());
    let mut tail = "/".to_owned();
    tail.append(u64_to_string(user_id).as_str());
    HttpRequest {
        method: HttpMethod::Delete,
        url: members_url(cfg, project, tail.as_str()),
        private_token: cfg.token.clone(),
        query,
        form,
    }
}

// ---------------------------------------------------------------------------
// Replies
// ---------------------------------------------------------------------------

/// What came back for a request: the status, the text of the header
/// `x-total` if there was one, and the body.
#[derive(Debug)]
pub struct HttpReply {
    pub status: u16,
    pub total: Option<String>,
    pub body: String,
}

/// The status that says the user already is a member.
pub const STATUS_CONFLICT: u16 = 409;

/// The status that says the user is no member.
pub const STATUS_NOT_FOUND: u16 = 404;

/// A status from 200 to 299.
pub open spec fn is_success(status: u16) -> bool {
    200 <= status <= 299
}

/// Whether `status` is a success.
pub fn status_is_success(status: u16) -> (b: bool)
    ensures
        b == is_success(status),
{
    200 <= status && status <= 299
}

/// The failure that stands for a reply whose status is not accepted.
pub open spec fn remote_failure(status: u16, body: Seq<char>) -> GitLabErrorView {
    GitLabErrorView::Remote { status, body }
}

/// The failure that stands for a request to which no reply came.
pub open spec fn transport_failure(detail: Seq<char>) -> GitLabErrorView {
    GitLabErrorView::Transport { detail }
}

/// The failure that stands for a body that could not be read.
pub open spec fn decode_failure(detail: Seq<char>) -> GitLabErrorView {
    GitLabErrorView::Decode { detail }
}

/// What becomes of a request where the statuses in `accepted` count as done:
/// no reply is a transport failure, a reply with an accepted status is
/// fine, and every other reply is the failure that carries its status and
/// body.
pub open spec fn exchange_failure(
    exchange: Result<HttpReply, String>,
    accepted: spec_fn(u16) -> bool,
) -> Option<GitLabErrorView> {
    match exchange {
        Ok(reply) => if accepted(reply.status) {
            None
        } else {
            Some(remote_failure(reply.status, reply.body@))
        },
        Err(detail) => Some(transport_failure(detail@)),
    }
}

/// The failure of an outcome, if it is one.
pub open spec fn failure_view<T>(r: Result<T, GitLabError>) -> Option<GitLabErrorView> {
    match r {
        Ok(_) => None,
        Err(e) => Some(e@),
    }
}

/// Hands on a reply whose status is a success. Every other reply, and no
/// reply at all, is a failure.
pub fn check_status(exchange: Result<HttpReply, String>) -> (r: Result<HttpReply, GitLabError>)
    ensures
        failure_view(r) == exchange_failure(exchange, |status: u16| is_success(status)),
        r matches Ok(reply) ==> exchange == Ok::<HttpReply, String>(reply),
{
    match exchange {
        Ok(reply) => {
            if status_is_success(reply.status) {
                Ok(reply)
            } else {
                Err(GitLabError::Remote { status: reply.status, body: reply.body })
            }
        },
        Err(detail) => Err(GitLabError::Transport { detail }),
    }
}

/// Whether adding a member went through: a success, or the conflict that
/// says the user was a member already.
pub open spec fn add_member_accepted(status: u16) -> bool {
    is_success(status) || status == STATUS_CONFLICT
}

/// The outcome of adding a member. Adding someone who is a member already
/// succeeds, so that the request can be sent again safely.
pub fn add_member(exchange: Result<HttpReply, String>) -> (r: Result<(), GitLabError>)
    ensures
        failure_view(r) == exchange_failure(exchange, |status: u16| add_member_accepted(status)),
        exchange matches Ok(reply) && reply.status == STATUS_CONFLICT ==> r is Ok,
{
    match exchange {
        Ok(reply) => {
            if status_is_success(reply.status) || reply.status == STATUS_CONFLICT {
                Ok(())
            } else {
                Err(GitLabError::Remote { status: reply.status, body: reply.body })
            }
        },
        Err(detail) => Err(GitLabError::Transport { detail }),
    }
}

/// Whether removing a member went through: a success, or the answer that
/// there was no such member.
pub open spec fn remove_member_accepted(status: u16) -> bool {
    is_success(status) || status == STATUS_NOT_FOUND
}

/// The outcome of removing a member. Removing someone who is no member
/// succeeds, so that the request can be sent again safely.
pub fn remove_member(exchange: Result<HttpReply, String>) -> (r: Result<(), GitLabError>)
    ensures
        failure_view(r) == exchange_failure(exchange, |status: u16| remove_member_accepted(status)),
        exchange matches Ok(reply) && reply.status == STATUS_NOT_FOUND ==> r is Ok,
{
    match exchange {
        Ok(reply) => {
            if status_is_success(reply.status) || reply.status == STATUS_NOT_FOUND {
                Ok(())
            } else {
                Err(GitLabError::Remote { status: reply.status, body: reply.body })
            }
        },
        Err(detail) => Err(GitLabError::Transport { detail }),
    }
}

// ---------------------------------------------------------------------------
// Totals
// ---------------------------------------------------------------------------

/// The total that the directory reported in its header. A header that is
/// missing or is no number counts as 0.
pub open spec fn reported_total(header: Option<Seq<char>>) -> u64 {
    match header {
        Some(text) => match parsed_u64(text) {
            Some(n) => n,
            None => 0,
        },
        None => 0,
    }
}

/// The total that the directory reported in its header.
pub fn header_total(header: &Option<String>) -> (total: u64)
    ensures
        total == reported_total(opt_text(*header)),
{
    match header {
        Some(text) => match parse_u64(text.as_str()) {
            Some(n) => n,
            None => 0,
        },
        None => 0,
    }
}

/// The total guessed from one page: the items before this page, the items
/// on it, and one more when the page came back full, since more may follow.
pub open spec fn estimated_total(page: u32, per_page: u32, returned: nat) -> int {
    (page - 1) * per_page + returned + if returned >= per_page {
        1int
    } else {
        0int
    }
}

/// The total of a listing: the reported one unless it is 0, which counts
/// as not reported, and the estimate otherwise.
pub open spec fn resolved_total(reported: u64, page: u32, per_page: u32, returned: nat) -> int {
    if reported > 0 {
        reported as int
    } else {
        estimated_total(page, per_page, returned)
    }
}

/// Whether the total of a listing can be resolved: pages count from 1, and
/// an estimate has to fit in 64 bits.
pub open spec fn total_resolvable(reported: u64, page: u32, per_page: u32, returned: nat) -> bool {
    reported == 0 ==> page >= 1 && estimated_total(page, per_page, returned) <= u64::MAX
}

/// Whether the total of a listing can be resolved.
pub fn can_resolve_total(reported: u64, page: u32, per_page: u32, returned: usize) -> (b: bool)
    ensures
        b == total_resolvable(reported, page, per_page, returned as nat),
{
    if reported > 0 {
        return true;
    }
    if page == 0 {
        return false;
    }
    assert(0 <= (page - 1) * per_page <= 0xffff_ffff * 0xffff_ffff) by (nonlinear_arith)
        requires
            1 <= page <= 0xffff_ffff,
            0 <= per_page <= 0xffff_ffff,
    ;
    let before: u64 = (page - 1) as u64 * per_page as u64;
    let returned: u64 = returned as u64;
    let extra: u64 = if returned >= per_page as u64 {
        1
    } else {
        0
    };
    returned <= u64::MAX - before && extra <= u64::MAX - before - returned
}

/// The total of a listing of which page `page` came back with `returned`
/// items.
pub fn resolve_total(reported: u64, page: u32, per_page: u32, returned: usize) -> (total: u64)
    requires
        total_resolvable(reported, page, per_page, returned as nat),
    ensures
        total == resolved_total(reported, page, per_page, returned as nat),
{
    if reported > 0 {
        reported
    } else {
        assert((page - 1) * per_page >= 0) by (nonlinear_arith)
            requires
                page >= 1,
                per_page >= 0,
        ;
        let before: u64 = (page - 1) as u64 * per_page as u64;
        let returned: u64 = returned as u64;
        if returned >= per_page as u64 {
            before + returned + 1
        } else {
            before + returned
        }
    }
}

// ---------------------------------------------------------------------------
// Projects and members
// ---------------------------------------------------------------------------

/// The namespace of a project as the directory sends it.
#[derive(Debug)]
pub struct ApiNamespace {
    pub full_path: Option<String>,
    pub name: Option<String>,
}

/// A project as the directory sends it.
#[derive(Debug)]
pub struct ApiProject {
    pub id: u64,
    pub name: String,
    pub path_with_namespace: String,
    pub description: Option<String>,
    pub last_activity_at: String,
    pub namespace: Option<ApiNamespace>,
}

/// The namespace that the directory declared for a project: its full path,
/// or else its name.
pub open spec fn declared_namespace(namespace: Option<ApiNamespace>) -> Option<Seq<char>> {
    match namespace {
        Some(ns) => match ns.full_path {
            Some(path) => Some(path@),
            None => opt_text(ns.name),
        },
        None => None,
    }
}

/// The namespace under which a project is shown: the declared one, or else
/// what stands before the last `/` of its path, or else the whole path.
pub open spec fn namespace_of(project: ApiProject) -> Seq<char> {
    match declared_namespace(project.namespace) {
        Some(ns) => ns,
        None => match before_last(project.path_with_namespace@, '/') {
            Some(head) => head,
            None => project.path_with_namespace@,
        },
    }
}

/// The summary under which a project is shown.
pub open spec fn summary_of(project: ApiProject) -> ProjectSummaryView {
    ProjectSummaryView {
        id: project.id,
        name: project.name@,
        namespace: namespace_of(project),
        path_with_namespace: project.path_with_namespace@,
        description: opt_text(project.description),
        last_activity_at: project.last_activity_at@,
    }
}

/// The summaries of `projects`, in order.
pub open spec fn summaries_of(projects: Seq<ApiProject>) -> Seq<ProjectSummaryView> {
    projects.map_values(|p: ApiProject| summary_of(p))
}

/// The views of `summaries`, in order.
pub open spec fn summary_views(summaries: Seq<ProjectSummary>) -> Seq<ProjectSummaryView> {
    summaries.map_values(|s: ProjectSummary| s@)
}

fn project_namespace(project: &ApiProject) -> (out: String)
    ensures
        out@ == namespace_of(*project),
{
    if let Some(ns) = &project.namespace {
        if let Some(path) = &ns.full_path {
            return path.clone();
        }
        if let Some(name) = &ns.name {
            return name.clone();
        }
    }
    match split_before_last(project.path_with_namespace.as_str(), '/') {
        Some(head) => head.to_owned(),
        None => project.path_with_namespace.clone(),
    }
}

/// The summary under which `project` is shown.
pub fn summarize(project: &ApiProject) -> (summary: ProjectSummary)
    ensures
        summary@ == summary_of(*project),
{
    ProjectSummary {
        id: project.id,
        name: project.name.clone(),
        namespace: project_namespace(project),
        path_with_namespace: project.path_with_namespace.clone(),
        description: clone_opt(&project.description),
        last_activity_at: project.last_activity_at.clone(),
    }
}

/// Whether the page of a listing can be made of what was read from the
/// body: nothing is asked where the body could not be read.
pub open spec fn page_resolvable<T>(
    decoded: Result<Vec<T>, String>,
    total_header: Option<Seq<char>>,
    page: u32,
    per_page: u32,
) -> bool {
    decoded matches Ok(items) ==> total_resolvable(
        reported_total(total_header),
        page,
        per_page,
        items@.len(),
    )
}

/// One page of a project search: the summaries of the projects that were
/// read from the body, in the order in which they came, and the total of
/// the search. A body that could not be read is a failure.
pub fn search_projects(
    decoded: Result<Vec<ApiProject>, String>,
    total_header: &Option<String>,
    page: u32,
    per_page: u32,
) -> (r: Result<(Vec<ProjectSummary>, u64), GitLabError>)
    requires
        page_resolvable(decoded, opt_text(*total_header), page, per_page),
    ensures
        match decoded {
            Ok(projects) => r is Ok && summary_views(r->Ok_0.0@) == summaries_of(projects@)
                && r->Ok_0.1 == resolved_total(
                reported_total(opt_text(*total_header)),
                page,
                per_page,
                projects@.len(),
            ),
            Err(detail) => r is Err && r->Err_0@ == decode_failure(detail@),
        },
{
    match decoded {
        Ok(projects) => {
            let mut items: Vec<ProjectSummary> = Vec::new();
            let mut i: usize = 0;
            while i < projects.len()
                invariant
                    i <= projects.len(),
                    items@.len() == i,
                    forall|k: int|
                        0 <= k < i ==> (#[trigger] items@[k])@ == summary_of(projects@[k]),
                decreases projects.len() - i,
            {
                items.push(summarize(&projects[i]));
                i += 1;
            }
            assert(summary_views(items@) =~= summaries_of(projects@));
            let total = resolve_total(header_total(total_header), page, per_page, projects.len());
            Ok((items, total))
        },
        Err(detail) => Err(GitLabError::Decode { detail }),
    }
}

/// One page of a member listing: the members that were read from the body,
/// as they came, and the total of the listing. A body that could not be
/// read is a failure.
pub fn list_project_members(
    decoded: Result<Vec<ProjectMember>, String>,
    total_header: &Option<String>,
    page: u32,
    per_page: u32,
) -> (r: Result<(Vec<ProjectMember>, u64), GitLabError>)
    requires
        page_resolvable(decoded, opt_text(*total_header), page, per_page),
    ensures
        match decoded {
            Ok(members) => r is Ok && r->Ok_0.0 == members && r->Ok_0.1 == resolved_total(
                reported_total(opt_text(*total_header)),
                page,
                per_page,
                members@.len(),
            ),
            Err(detail) => r is Err && r->Err_0@ == decode_failure(detail@),
        },
{
    match decoded {
        Ok(members) => {
            let total = resolve_total(header_total(total_header), page, per_page, members.len());
            Ok((members, total))
        },
        Err(detail) => Err(GitLabError::Decode { detail }),
    }
}

} // verus!
