use vstd::prelude::*;
use crate::jwt::Exp;

verus! {

/// The claims of a login key: who may log in, and until when.
pub struct LoginKey {
    pub username: String,
    pub exp: u64,
}

impl LoginKey {
    pub fn new(username: String) -> (r: Self)
        ensures
            r.username == username,
            r.exp == 0,
    {
        LoginKey { username, exp: 0 }
    }
}

impl Exp for LoginKey {
    open spec fn exp_spec(&self) -> u64 {
        self.exp
    }

    open spec fn with_exp(&self, exp: u64) -> Self {
        LoginKey { username: self.username, exp }
    }

    fn get_exp(&self) -> (r: u64) {
        self.exp
    }

    fn set_exp(&mut self, exp: u64) {
        self.exp = exp;
    }
}

/// A role held by a user: its display name and its value.
pub struct RoleInfo {
    pub role_name: String,
    pub value: String,
}

impl Clone for RoleInfo {
    fn clone(&self) -> (r: Self)
        ensures
            r == *self,
    {
        RoleInfo { role_name: self.role_name.clone(), value: self.value.clone() }
    }
}

/// Whether one of `roles` has the value `role`.
pub open spec fn has_role(roles: Seq<RoleInfo>, role: Seq<char>) -> bool {
    exists|i: int| 0 <= i < roles.len() && #[trigger] roles[i].value@ == role
}

/// A user's profile.
pub struct UserInfo {
    pub user_id: i64,
    pub username: String,
    pub realname: String,
    pub user_desc: String,
    pub avatar: String,
    pub roles: Vec<RoleInfo>,
    pub sex: Option<bool>,
}

/// Two profiles hold the same data.
pub open spec fn same_user(a: UserInfo, b: UserInfo) -> bool {
    &&& a.user_id == b.user_id
    &&& a.username == b.username
    &&& a.realname == b.realname
    &&& a.user_desc == b.user_desc
    &&& a.avatar == b.avatar
    &&& a.roles@ == b.roles@
    &&& a.sex == b.sex
}

impl Clone for UserInfo {
    fn clone(&self) -> (r: Self)
        ensures
            same_user(r, *self),
    {
        let roles = self.roles.clone();
        proof {
            assert forall|i: int| 0 <= i < roles@.len() implies roles@[i] == self.roles@[i] by {
                assert(vstd::pervasive::cloned::<RoleInfo>(self.roles[i], roles[i]));
            }
            assert(roles@ =~= self.roles@);
        }
        UserInfo {
            user_id: self.user_id,
            username: self.username.clone(),
            realname: self.realname.clone(),
            user_desc: self.user_desc.clone(),
            avatar: self.avatar.clone(),
            roles,
            sex: self.sex,
        }
    }
}

/// A clone of a profile holds the same data.
pub proof fn lemma_cloned_user(a: UserInfo, b: UserInfo)
    requires
        vstd::pervasive::cloned(a, b),
    ensures
        same_user(b, a),
{
}

impl UserInfo {
    pub open spec fn spec_is_admin(&self) -> bool {
        has_role(self.roles@, "admin"@)
    }

    pub open spec fn spec_is_customer(&self) -> bool {
        has_role(self.roles@, "customer"@)
    }

    /// Whether one of the roles has the value `role`.
    fn has_role_value(&self, role: &str) -> (r: bool)
        ensures
            r == has_role(self.roles@, role@),
    {
        let wanted = role.to_owned();
        let mut i: usize = 0;
        while i < self.roles.len()
            invariant
                0 <= i <= self.roles@.len(),
                wanted@ == role@,
                forall|j: int| 0 <= j < i ==> #[trigger] self.roles@[j].value@ != role@,
            decreases self.roles@.len() - i,
        {
            if self.roles[i].value == wanted {
                return true;
            }
            i = i + 1;
        }
        false
    }

    /// Whether the user holds the `admin` role.
    pub fn is_admin(&self) -> (r: bool)
        ensures
            r == self.spec_is_admin(),
    {
        self.has_role_value("admin")
    }

    /// Whether the user holds the `customer` role.
    pub fn is_customer(&self) -> (r: bool)
        ensures
            r == self.spec_is_customer(),
    {
        self.has_role_value("customer")
    }
}

/// A list of users.
pub struct Users {
    pub users: Vec<UserInfo>,
}

} // verus!
