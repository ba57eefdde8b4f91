use vstd::prelude::*;
use super::model::UserInfo;

verus! {

/// What a successful login answers.
pub struct LoginInfo {
    pub info: UserInfo,
    pub token: String,
    pub refresh_token: String,
}

} // verus!
