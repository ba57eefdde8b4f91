use vstd::prelude::*;
use super::model::RoleInfo;

verus! {

/// Credentials of a password login.
pub struct Login {
    pub username: String,
    pub password: String,
}

/// A request to trade a refresh token for new tokens.
pub struct RefreshToken {
    pub refresh_token: String,
}

/// A request to grant a role to a user.
pub struct AddRole {
    pub username: String,
    pub role_info: RoleInfo,
}

/// A request to change a user's real name and sex.
pub struct UpdateUserInfo {
    pub realname: Option<String>,
    pub sex: Option<bool>,
    pub user_desc: Option<String>,
}

/// A login by login key.
pub struct KeyLogin {
    pub key: String,
}

} // verus!
