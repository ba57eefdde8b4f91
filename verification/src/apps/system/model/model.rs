use vstd::prelude::*;

verus! {

/// A user's profile, as the system routes see it.
pub struct UserInfo {
    pub user_id: i64,
    pub username: String,
    pub realname: String,
    pub user_desc: String,
    pub avatar: String,
    pub roles: Vec<RoleInfo>,
    pub sex: Option<bool>,
}

/// A role held by a user.
pub struct RoleInfo {
    pub role_name: String,
    pub value: String,
}

} // verus!
