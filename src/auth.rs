//! Records exchanged in the GitHub login flow.
use vstd::prelude::*;

verus! {

/// The query of GitHub's callback: the authorization code.
#[derive(Clone, Debug, PartialEq, Eq)]
pub struct AuthRequest {
    pub code: String,
}

/// The GitHub account behind an access token.
#[derive(Clone, Debug, PartialEq, Eq)]
pub struct GithubUser {
    pub login: String,
    pub id: u64,
    pub avatar_url: String,
    pub name: Option<String>,
    pub email: Option<String>,
}

#[derive(Clone, Copy, Debug, PartialEq, Eq, Structural)]
pub struct MemberId {
    pub member_id: i32,
}

/// What the login flow hands to the front end.
#[derive(Clone, Debug, PartialEq, Eq)]
pub struct TokenResponsePayload {
    pub access_token: String,
    pub member_id: MemberId,
    pub user: GithubUser,
}

} // verus!
