//! The records that travel between the remote directory, the batch
//! operations and the local roster, each with its mathematical view.

use vstd::prelude::*;

verus! {

/// The text of an optional string.
pub open spec fn opt_text(o: Option<String>) -> Option<Seq<char>> {
    match o {
        Some(s) => Some(s@),
        None => None,
    }
}

/// A copy of an optional string.
pub fn clone_opt(o: &Option<String>) -> (res: Option<String>)
    ensures
        res == *o,
{
    match o {
        Some(s) => Some(s.clone()),
        None => None,
    }
}

/// A project of the remote directory.
#[derive(Debug)]
pub struct ProjectSummary {
    pub id: u64,
    pub name: String,
    pub namespace: String,
    pub path_with_namespace: String,
    pub description: Option<String>,
    pub last_activity_at: String,
}

pub ghost struct ProjectSummaryView {
    pub id: u64,
    pub name: Seq<char>,
    pub namespace: Seq<char>,
    pub path_with_namespace: Seq<char>,
    pub description: Option<Seq<char>>,
    pub last_activity_at: Seq<char>,
}

impl View for ProjectSummary {
    type V = ProjectSummaryView;

    open spec fn view(&self) -> ProjectSummaryView {
        ProjectSummaryView {
            id: self.id,
            name: self.name@,
            namespace: self.namespace@,
            path_with_namespace: self.path_with_namespace@,
            description: opt_text(self.description),
            last_activity_at: self.last_activity_at@,
        }
    }
}

impl Clone for ProjectSummary {
    fn clone(&self) -> (res: Self)
        ensures
            res == *self,
    {
        ProjectSummary {
            id: self.id,
            name: self.name.clone(),
            namespace: self.namespace.clone(),
            path_with_namespace: self.path_with_namespace.clone(),
            description: clone_opt(&self.description),
            last_activity_at: self.last_activity_at.clone(),
        }
    }
}

/// A membership record of the remote directory.
#[derive(Debug)]
pub struct ProjectMember {
    pub id: u64,
    pub username: String,
    pub name: String,
    pub avatar_url: Option<String>,
    pub access_level: i64,
    pub created_at: Option<String>,
    pub expires_at: Option<String>,
}

pub ghost struct ProjectMemberView {
    pub id: u64,
    pub username: Seq<char>,
    pub name: Seq<char>,
    pub avatar_url: Option<Seq<char>>,
    pub access_level: i64,
    pub created_at: Option<Seq<char>>,
    pub expires_at: Option<Seq<char>>,
}

impl View for ProjectMember {
    type V = ProjectMemberView;

    open spec fn view(&self) -> ProjectMemberView {
        ProjectMemberView {
            id: self.id,
            username: self.username@,
            name: self.name@,
            avatar_url: opt_text(self.avatar_url),
            access_level: self.access_level,
            created_at: opt_text(self.created_at),
            expires_at: opt_text(self.expires_at),
        }
    }
}

impl Clone for ProjectMember {
    fn clone(&self) -> (res: Self)
        ensures
            res == *self,
    {
        ProjectMember {
            id: self.id,
            username: self.username.clone(),
            name: self.name.clone(),
            avatar_url: clone_opt(&self.avatar_url),
            access_level: self.access_level,
            created_at: clone_opt(&self.created_at),
            expires_at: clone_opt(&self.expires_at),
        }
    }
}

/// What is stored of a person when the roster takes them in.
#[derive(Debug)]
pub struct LocalMemberUpsert {
    pub user_id: u64,
    pub username: String,
    pub name: String,
    pub avatar_url: Option<String>,
    pub project_id: Option<u64>,
    pub project_name: Option<String>,
}

pub ghost struct LocalMemberUpsertView {
    pub user_id: u64,
    pub username: Seq<char>,
    pub name: Seq<char>,
    pub avatar_url: Option<Seq<char>>,
    pub project_id: Option<u64>,
    pub project_name: Option<Seq<char>>,
}

impl View for LocalMemberUpsert {
    type V = LocalMemberUpsertView;

    open spec fn view(&self) -> LocalMemberUpsertView {
        LocalMemberUpsertView {
            user_id: self.user_id,
            username: self.username@,
            name: self.name@,
            avatar_url: opt_text(self.avatar_url),
            project_id: self.project_id,
            project_name: opt_text(self.project_name),
        }
    }
}

impl Clone for LocalMemberUpsert {
    fn clone(&self) -> (res: Self)
        ensures
            res == *self,
    {
        LocalMemberUpsert {
            user_id: self.user_id,
            username: self.username.clone(),
            name: self.name.clone(),
            avatar_url: clone_opt(&self.avatar_url),
            project_id: self.project_id,
            project_name: clone_opt(&self.project_name),
        }
    }
}

/// A person of the local roster.
#[derive(Debug)]
pub struct LocalMember {
    pub user_id: u64,
    pub username: String,
    pub name: String,
    pub avatar_url: Option<String>,
    pub updated_at: String,
    pub project_id: Option<u64>,
    pub project_name: Option<String>,
}

pub ghost struct LocalMemberView {
    pub user_id: u64,
    pub username: Seq<char>,
    pub name: Seq<char>,
    pub avatar_url: Option<Seq<char>>,
    pub updated_at: Seq<char>,
    pub project_id: Option<u64>,
    pub project_name: Option<Seq<char>>,
}

impl View for LocalMember {
    type V = LocalMemberView;

    open spec fn view(&self) -> LocalMemberView {
        LocalMemberView {
            user_id: self.user_id,
            username: self.username@,
            name: self.name@,
            avatar_url: opt_text(self.avatar_url),
            updated_at: self.updated_at@,
            project_id: self.project_id,
            project_name: opt_text(self.project_name),
        }
    }
}

impl Clone for LocalMember {
    fn clone(&self) -> (res: Self)
        ensures
            res == *self,
    {
        LocalMember {
            user_id: self.user_id,
            username: self.username.clone(),
            name: self.name.clone(),
            avatar_url: clone_opt(&self.avatar_url),
            updated_at: self.updated_at.clone(),
            project_id: self.project_id,
            project_name: clone_opt(&self.project_name),
        }
    }
}

/// A named group of the local roster, with the number of people in it.
#[derive(Debug)]
pub struct LocalGroup {
    pub id: i64,
    pub name: String,
    pub created_at: String,
    pub members_count: i64,
}

pub ghost struct LocalGroupView {
    pub id: i64,
    pub name: Seq<char>,
    pub created_at: Seq<char>,
    pub members_count: i64,
}

impl View for LocalGroup {
    type V = LocalGroupView;

    open spec fn view(&self) -> LocalGroupView {
        LocalGroupView {
            id: self.id,
            name: self.name@,
            created_at: self.created_at@,
            members_count: self.members_count,
        }
    }
}

impl Clone for LocalGroup {
    fn clone(&self) -> (res: Self)
        ensures
            res == *self,
    {
        LocalGroup {
            id: self.id,
            name: self.name.clone(),
            created_at: self.created_at.clone(),
            members_count: self.members_count,
        }
    }
}

/// One user of a batch for whom the operation failed, and why.
#[derive(Debug)]
pub struct BatchItemError {
    pub user_id: u64,
    pub message: String,
}

pub ghost struct BatchItemErrorView {
    pub user_id: u64,
    pub message: Seq<char>,
}

impl View for BatchItemError {
    type V = BatchItemErrorView;

    open spec fn view(&self) -> BatchItemErrorView {
        BatchItemErrorView { user_id: self.user_id, message: self.message@ }
    }
}

impl Clone for BatchItemError {
    fn clone(&self) -> (res: Self)
        ensures
            res == *self,
    {
        BatchItemError { user_id: self.user_id, message: self.message.clone() }
    }
}

/// The outcome of a batch: who succeeded and who failed, each in the order
/// in which the users were submitted.
#[derive(Debug)]
pub struct BatchResult {
    pub success_user_ids: Vec<u64>,
    pub failed: Vec<BatchItemError>,
}

pub ghost struct BatchResultView {
    pub success_user_ids: Seq<u64>,
    pub failed: Seq<BatchItemErrorView>,
}

impl View for BatchResult {
    type V = BatchResultView;

    open spec fn view(&self) -> BatchResultView {
        BatchResultView {
            success_user_ids: self.success_user_ids@,
            failed: self.failed@.map_values(|e: BatchItemError| e@),
        }
    }
}

impl Clone for BatchResult {
    fn clone(&self) -> (res: Self)
        ensures
            res@ == self@,
    {
        let mut success_user_ids: Vec<u64> = Vec::new();
        let mut i: usize = 0;
        while i < self.success_user_ids.len()
            invariant
                i <= self.success_user_ids.len(),
                success_user_ids@ == self.success_user_ids@.take(i as int),
            decreases self.success_user_ids.len() - i,
        {
            success_user_ids.push(self.success_user_ids[i]);
            assert(success_user_ids@ =~= self.success_user_ids@.take(i + 1));
            i += 1;
        }
        assert(success_user_ids@ =~= self.success_user_ids@);
        let mut failed: Vec<BatchItemError> = Vec::new();
        let mut k: usize = 0;
        while k < self.failed.len()
            invariant
                k <= self.failed.len(),
                failed@ == self.failed@.take(k as int),
            decreases self.failed.len() - k,
        {
            failed.push(self.failed[k].clone());
            assert(failed@ =~= self.failed@.take(k + 1));
            k += 1;
        }
        assert(failed@ =~= self.failed@);
        BatchResult { success_user_ids, failed }
    }
}

} // verus!
