//! The connection profile: the one place that holds where the remote
//! directory is and the token for it. It is replaced as a whole or not at
//! all, so a reader sees a complete profile or none.

use vstd::prelude::*;
use crate::error::{GitLabError, GitLabErrorView};
use crate::gitlab::{GitLabConfig, GitLabConfigView};
use crate::text::{blank, is_blank, trim, trimmed};

verus! {

/// What becomes of a profile that is offered: a blank address is refused,
/// then a blank token; otherwise both are kept without the white space
/// around them.
pub open spec fn offered_profile(base_url: Seq<char>, token: Seq<char>) -> Result<
    GitLabConfigView,
    GitLabErrorView,
> {
    if is_blank(base_url) {
        Err(GitLabErrorView::Validation { message: "baseUrl is empty"@ })
    } else if is_blank(token) {
        Err(GitLabErrorView::Validation { message: "token is empty"@ })
    } else {
        Ok(GitLabConfigView { base_url: trimmed(base_url), token: trimmed(token) })
    }
}

/// The view of the outcome of an offered profile.
pub open spec fn profile_outcome_view(r: Result<GitLabConfig, GitLabError>) -> Result<
    GitLabConfigView,
    GitLabErrorView,
> {
    match r {
        Ok(cfg) => Ok(cfg@),
        Err(e) => Err(e@),
    }
}

/// Checks an offered profile and trims it.
pub fn validated_config(base_url: &str, token: &str) -> (r: Result<GitLabConfig, GitLabError>)
    ensures
        profile_outcome_view(r) == offered_profile(base_url@, token@),
{
    if blank(base_url) {
        return Err(GitLabError::Validation { message: "baseUrl is empty".to_owned() });
    }
    if blank(token) {
        return Err(GitLabError::Validation { message: "token is empty".to_owned() });
    }
    Ok(GitLabConfig { base_url: trim(base_url).to_owned(), token: trim(token).to_owned() })
}

/// Replaces the profile in `holder` by the offered one if that is valid,
/// and leaves `holder` as it was if it is not.
pub fn set_gitlab_config(holder: &mut Option<GitLabConfig>, base_url: &str, token: &str) -> (r:
    Result<(), GitLabError>)
    ensures
        match offered_profile(base_url@, token@) {
            Ok(cfg) => r is Ok && *final(holder) is Some && final(holder)->Some_0@ == cfg,
            Err(e) => r is Err && r->Err_0@ == e && *final(holder) == *old(holder),
        },
{
    match validated_config(base_url, token) {
        Ok(cfg) => {
            *holder = Some(cfg);
            Ok(())
        },
        Err(e) => Err(e),
    }
}

/// The message for an operation that needs a profile when none is set.
pub open spec fn missing_profile() -> GitLabErrorView {
    GitLabErrorView::Validation {
        message: "GitLab config not set. Please go to 设置页保存 Base URL 和 Token"@,
    }
}

/// The profile in `holder`, which an operation on the remote directory
/// needs before it sends anything.
pub fn require_cfg(holder: &Option<GitLabConfig>) -> (r: Result<GitLabConfig, GitLabError>)
    ensures
        match *holder {
            Some(cfg) => r == Ok::<GitLabConfig, GitLabError>(cfg),
            None => r is Err && r->Err_0@ == missing_profile(),
        },
{
    match holder {
        Some(cfg) => Ok(cfg.clone()),
        None => Err(
            GitLabError::Validation {
                message: "GitLab config not set. Please go to 设置页保存 Base URL 和 Token".to_owned(),
            },
        ),
    }
}

/// The address and the token of the profile in `holder`, if one is set.
pub fn get_gitlab_config(holder: &Option<GitLabConfig>) -> (r: Option<(String, String)>)
    ensures
        match *holder {
            Some(cfg) => r == Some((cfg.base_url, cfg.token)),
            None => r is None,
        },
{
    match holder {
        Some(cfg) => Some((cfg.base_url.clone(), cfg.token.clone())),
        None => None,
    }
}

} // verus!
