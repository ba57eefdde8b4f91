use vstd::prelude::*;
use super::model::UserInfo;

verus! {

/// What a successful login answers: the profile and the two tokens.
pub struct LoginInfo {
    pub info: UserInfo,
    pub token: String,
    pub refresh_token: String,
}

/// The users an administrator can list, split into customers and the rest.
pub struct GetUsers {
    pub customers: Option<Vec<UserInfo>>,
    pub others: Option<Vec<UserInfo>>,
}

} // verus!
