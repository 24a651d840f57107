//! What can go wrong when talking to the remote directory, and how each
//! failure reads when it is shown to the user.

use vstd::prelude::*;
use vstd::string::StringExecFns;
use crate::decimal::{decimal_text, u64_to_string};
use crate::models::opt_text;

verus! {

broadcast use vstd::string::group_string_axioms;

/// A failure of an operation on the remote directory.
#[derive(Debug)]
pub enum GitLabError {
    /// A required input was missing or blank; nothing was sent.
    Validation { message: String },
    /// No reply came back at all.
    Transport { detail: String },
    /// The directory replied with a status that is not a success.
    Remote { status: u16, body: String },
    /// The reply was a success, but its body could not be read.
    Decode { detail: String },
}

pub ghost enum GitLabErrorView {
    Validation { message: Seq<char> },
    Transport { detail: Seq<char> },
    Remote { status: u16, body: Seq<char> },
    Decode { detail: Seq<char> },
}

impl View for GitLabError {
    type V = GitLabErrorView;

    open spec fn view(&self) -> GitLabErrorView {
        match *self {
            GitLabError::Validation { message } => GitLabErrorView::Validation {
                message: message@,
            },
            GitLabError::Transport { detail } => GitLabErrorView::Transport { detail: detail@ },
            GitLabError::Remote { status, body } => GitLabErrorView::Remote {
                status,
                body: body@,
            },
            GitLabError::Decode { detail } => GitLabErrorView::Decode { detail: detail@ },
        }
    }
}

/// How `reqwest::StatusCode` displays the status `code`: the number and its
/// canonical reason phrase. Codes that are no status have no display.
pub uninterp spec fn status_display(code: u16) -> Option<Seq<char>>;

/// `reqwest::StatusCode::from_u16`, which accepts the codes from 100 to 999
/// and no others, and the `Display` of the status it gives.
#[verifier::external_body]
fn status_text(code: u16) -> (out: Option<String>)
    ensures
        opt_text(out) == status_display(code),
        out is Some <==> 100 <= code <= 999,
{
    match reqwest::StatusCode::from_u16(code) {
        Ok(status) => Some(status.to_string()),
        Err(_) => None,
    }
}

/// The status as it stands in a message: as the HTTP library displays it,
/// or the bare number where the code is no status.
pub open spec fn status_label(code: u16) -> Seq<char> {
    match status_display(code) {
        Some(text) => text,
        None => decimal_text(code as nat),
    }
}

impl GitLabErrorView {
    /// The message that the user sees for this failure.
    pub open spec fn message_text(self) -> Seq<char> {
        match self {
            GitLabErrorView::Validation { message } => message,
            GitLabErrorView::Transport { .. } => "GitLab request failed"@,
            GitLabErrorView::Remote { status, body } => "GitLab API error "@ + status_label(status)
                + ": "@ + body,
            GitLabErrorView::Decode { .. } => "Parse JSON"@,
        }
    }
}

impl GitLabError {
    /// The message that the user sees for this failure.
    pub fn message(&self) -> (out: String)
        ensures
            out@ == self@.message_text(),
    {
        match self {
            GitLabError::Validation { message } => message.clone(),
            GitLabError::Transport { .. } => "GitLab request failed".to_owned(),
            GitLabError::Remote { status, body } => {
                let mut out = "GitLab API error ".to_owned();
                match status_text(*status) {
                    Some(text) => out.append(text.as_str()),
                    None => out.append(u64_to_string(*status as u64).as_str()),
                }
                out.append(": ");
                out.append(body.as_str());
                out
            },
            GitLabError::Decode { .. } => "Parse JSON".to_owned(),
        }
    }
}

} // verus!
