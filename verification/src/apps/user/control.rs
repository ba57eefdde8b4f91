use vstd::prelude::*;
use crate::extension::Cache;
use crate::jwt::{AuthError, Token};
use crate::response::{ErrCode, Meta};
use super::model::model::{UserInfo, same_user, lemma_cloned_user};
use super::model::req::UpdateUserInfo;
use super::model::resp::{GetUsers, LoginInfo};

verus! {

/// Lifetime of an access token, in seconds.
pub const EXPIRE: u64 = 3600 * 24 * 30;

/// How much longer a refresh token lives than its access token, in seconds.
pub const REFRESH_EXPIRE: u64 = 24 * 3600;

/// Lifetime of a login key, in seconds.
pub const LOGIN_KEY_EXP: u64 = 24 * 3600;

/// Refresh tokens and the claims they were issued for.
pub type RefreshTokenCache = Cache<Token<UserInfo>>;

/// The answer when tokens could not be issued.
pub fn server_error() -> (r: Meta)
    ensures
        r.err_code == ErrCode::InternalServerError,
        r.err_message@ == "服务器错误,请联系管理员!"@,
{
    Meta { err_code: ErrCode::InternalServerError, err_message: "服务器错误,请联系管理员!".to_owned() }
}

/// The answer when no user matches the credentials.
pub fn bad_credentials() -> (r: Meta)
    ensures
        r.err_code == ErrCode::BadRequest,
        r.err_message@ == "用户名或密码错误!"@,
{
    Meta { err_code: ErrCode::BadRequest, err_message: "用户名或密码错误!".to_owned() }
}

/// A bad-request answer carrying `message`.
pub fn bad_request(message: &str) -> (r: Meta)
    ensures
        r.err_code == ErrCode::BadRequest,
        r.err_message@ == message@,
{
    Meta { err_code: ErrCode::BadRequest, err_message: message.to_owned() }
}

/// What looking up a user found: the user, a row that does not read as a
/// user (with the reader's message), or no matching row.
pub enum UserLookup {
    Found(UserInfo),
    Unreadable(String),
    NotFound,
}

/// Answers a user lookup: the user found; a bad request carrying the
/// reader's message for a row that does not read as a user; the
/// bad-credentials answer when no user matched.
pub fn lookup_result(found: UserLookup) -> (r: Result<UserInfo, Meta>)
    ensures
        match found {
            UserLookup::Found(u) => r == Ok::<UserInfo, Meta>(u),
            UserLookup::Unreadable(message) => {
                &&& r is Err
                &&& r->Err_0.err_code == ErrCode::BadRequest
                &&& r->Err_0.err_message@ == message@
            },
            UserLookup::NotFound => {
                &&& r is Err
                &&& r->Err_0.err_code == ErrCode::BadRequest
                &&& r->Err_0.err_message@ == "用户名或密码错误!"@
            },
        },
{
    match found {
        UserLookup::Found(u) => Ok(u),
        UserLookup::Unreadable(message) => Err(bad_request(message.as_str())),
        UserLookup::NotFound => Err(bad_credentials()),
    }
}

/// Completes a login once tokens were (or were not) signed for `token_info`.
/// On success the claims are kept under the refresh token with their expiry
/// moved `REFRESH_EXPIRE` later, and the profile and tokens are answered; on
/// failure the answer is a server error and the cache is left alone.
pub fn issue_login(
    cache: &mut RefreshTokenCache,
    token_info: Token<UserInfo>,
    tokens: Result<(String, String), AuthError>,
) -> (r: Result<LoginInfo, Meta>)
    requires
        old(cache).wf(),
        tokens is Ok ==> token_info.exp + REFRESH_EXPIRE <= u64::MAX,
    ensures
        final(cache).wf(),
        match tokens {
            Ok((token, refresh_token)) => {
                &&& r is Ok
                &&& same_user(r->Ok_0.info, token_info.info)
                &&& r->Ok_0.token == token
                &&& r->Ok_0.refresh_token == refresh_token
                &&& final(cache)@.contains_key(refresh_token@)
                &&& final(cache)@[refresh_token@].exp == token_info.exp + REFRESH_EXPIRE
                &&& same_user(final(cache)@[refresh_token@].info, token_info.info)
                &&& final(cache)@.remove(refresh_token@) == old(cache)@.remove(refresh_token@)
            },
            Err(_) => {
                &&& r is Err
                &&& r->Err_0.err_code == ErrCode::InternalServerError
                &&& r->Err_0.err_message@ == "服务器错误,请联系管理员!"@
                &&& final(cache)@ == old(cache)@
            },
        },
{
    match tokens {
        Ok((token, refresh_token)) => {
            let mut token_info = token_info;
            token_info.exp = token_info.exp + REFRESH_EXPIRE;
            let stored = token_info.clone();
            proof {
                lemma_cloned_user(token_info.info, stored.info);
            }
            cache.insert(refresh_token.clone(), stored);
            proof {
                assert(final(cache)@.remove(refresh_token@) =~= old(cache)@.remove(refresh_token@));
            }
            Ok(LoginInfo { info: token_info.info, token, refresh_token })
        },
        Err(_) => Err(server_error()),
    }
}

/// Takes the claims stored under a refresh token out of the cache; an
/// unknown refresh token is a bad request.
pub fn take_refresh_token(cache: &mut RefreshTokenCache, refresh_token: &str) -> (r: Result<
    Token<UserInfo>,
    Meta,
>)
    requires
        old(cache).wf(),
    ensures
        final(cache).wf(),
        final(cache)@ == old(cache)@.remove(refresh_token@),
        old(cache)@.contains_key(refresh_token@) ==> r == Ok::<Token<UserInfo>, Meta>(
            old(cache)@[refresh_token@],
        ),
        !old(cache)@.contains_key(refresh_token@) ==> {
            &&& r is Err
            &&& r->Err_0.err_code == ErrCode::BadRequest
            &&& r->Err_0.err_message@ == "refresh token不存在或已过期!"@
        },
{
    match cache.remove(refresh_token) {
        Some(token_info) => Ok(token_info),
        None => Err(bad_request("refresh token不存在或已过期!")),
    }
}

/// Only administrators may change roles.
pub fn check_admin(user_info: &UserInfo) -> (r: Result<(), Meta>)
    ensures
        user_info.spec_is_admin() ==> r is Ok,
        !user_info.spec_is_admin() ==> {
            &&& r is Err
            &&& r->Err_0.err_code == ErrCode::UnAuthorized
            &&& r->Err_0.err_message@ == "权限不足!"@
        },
{
    if !user_info.is_admin() {
        return Err(Meta { err_code: ErrCode::UnAuthorized, err_message: "权限不足!".to_owned() });
    }
    Ok(())
}

/// Decides a profile update: the new real name (the requested one, or the
/// current one) and the requested sex. A request that names neither is a
/// bad request. A request that names a real name must also name the sex.
pub fn plan_user_update(user_info: &UserInfo, req: &UpdateUserInfo) -> (r: Result<
    (String, bool),
    Meta,
>)
    requires
        !(req.realname is Some && req.sex is None),
    ensures
        req.sex is None ==> {
            &&& r is Err
            &&& r->Err_0.err_code == ErrCode::BadRequest
            &&& r->Err_0.err_message@ == "昵称和性别为空!"@
        },
        req.sex is Some ==> {
            &&& r is Ok
            &&& r->Ok_0.1 == req.sex->Some_0
            &&& r->Ok_0.0@ == (match req.realname {
                Some(name) => name@,
                None => user_info.realname@,
            })
        },
{
    match req.sex {
        Some(sex) => {
            let realname = match &req.realname {
                Some(name) => name.clone(),
                None => user_info.realname.clone(),
            };
            Ok((realname, sex))
        },
        None => Err(bad_request("昵称和性别为空!")),
    }
}

/// Writes a planned update into the claims.
pub fn apply_user_update(token: &mut Token<UserInfo>, realname: String, sex: bool)
    ensures
        final(token).info.realname == realname,
        final(token).info.sex == Some(sex),
        final(token).exp == old(token).exp,
        final(token).info.user_id == old(token).info.user_id,
        final(token).info.username == old(token).info.username,
        final(token).info.user_desc == old(token).info.user_desc,
        final(token).info.avatar == old(token).info.avatar,
        final(token).info.roles == old(token).info.roles,
{
    token.info.realname = realname;
    token.info.sex = Some(sex);
}

/// An administrator who is also a customer.
pub open spec fn admin_customer(u: UserInfo) -> bool {
    u.spec_is_admin() && u.spec_is_customer()
}

/// An administrator who is not a customer.
pub open spec fn admin_other(u: UserInfo) -> bool {
    u.spec_is_admin() && !u.spec_is_customer()
}

/// Splits the administrators among `users` into those who are also
/// customers and the others, keeping their order.
pub fn split_users(users: Vec<UserInfo>) -> (r: (Vec<UserInfo>, Vec<UserInfo>))
    ensures
        r.0@ == users@.filter(|u: UserInfo| admin_customer(u)),
        r.1@ == users@.filter(|u: UserInfo| admin_other(u)),
{
    let ghost all = users@;
    let mut customers: Vec<UserInfo> = Vec::new();
    let mut others: Vec<UserInfo> = Vec::new();
    let mut rest = users;
    let ghost mut done: int = 0;
    proof {
        reveal(Seq::filter);
        assert(all.subrange(0, 0) =~= Seq::<UserInfo>::empty());
    }
    while rest.len() > 0
        invariant
            0 <= done <= all.len(),
            rest@ == all.subrange(done, all.len() as int),
            customers@ == all.subrange(0, done).filter(|u: UserInfo| admin_customer(u)),
            others@ == all.subrange(0, done).filter(|u: UserInfo| admin_other(u)),
        decreases rest@.len(),
    {
        let u = rest.remove(0);
        let ghost s0 = all.subrange(0, done);
        let ghost s1 = all.subrange(0, done + 1);
        proof {
            assert(u == all[done]);
            assert(s1.drop_last() =~= s0);
            assert(s1.last() == u);
        }
        if u.is_admin() {
            if u.is_customer() {
                customers.push(u);
            } else {
                others.push(u);
            }
        }
        proof {
            reveal(Seq::filter);
            assert(s1.filter(|u: UserInfo| admin_customer(u)) == (if admin_customer(s1.last()) { s1.drop_last().filter(|u: UserInfo| admin_customer(u)).push(s1.last()) } else { s1.drop_last().filter(|u: UserInfo| admin_customer(u)) }));
            assert(s1.filter(|u: UserInfo| admin_other(u)) == (if admin_other(s1.last()) { s1.drop_last().filter(|u: UserInfo| admin_other(u)).push(s1.last()) } else { s1.drop_last().filter(|u: UserInfo| admin_other(u)) }));
            assert(s1.drop_last().filter(|u: UserInfo| admin_customer(u)) == s0.filter(|u: UserInfo| admin_customer(u)));
            assert(customers@ == s1.filter(|u: UserInfo| admin_customer(u)));
            assert(others@ == s1.filter(|u: UserInfo| admin_other(u)));
            done = done + 1;
            assert(rest@ =~= all.subrange(done, all.len() as int));
        }
    }
    proof {
        assert(all.subrange(0, done) =~= all);
    }
    (customers, others)
}

/// Splitting the users partitions the administrators: every administrator
/// lands in exactly one of the two lists, and no one else lands in either.
pub proof fn lemma_split_partitions_admins(users: Seq<UserInfo>, u: UserInfo)
    requires
        users.contains(u),
    ensures
        u.spec_is_admin() ==> (users.filter(|x: UserInfo| admin_customer(x)).contains(u) || users.filter(
            |x: UserInfo| admin_other(x),
        ).contains(u)),
        !(users.filter(|x: UserInfo| admin_customer(x)).contains(u) && users.filter(
            |x: UserInfo| admin_other(x),
        ).contains(u)),
        !u.spec_is_admin() ==> !users.filter(|x: UserInfo| admin_customer(x)).contains(u)
            && !users.filter(|x: UserInfo| admin_other(x)).contains(u),
{
    let pc = |x: UserInfo| admin_customer(x);
    let po = |x: UserInfo| admin_other(x);
    let i = choose|i: int| 0 <= i < users.len() && users[i] == u;
    if admin_customer(u) {
        users.lemma_filter_contains(pc, i);
    }
    if admin_other(u) {
        users.lemma_filter_contains(po, i);
    }
    if users.filter(pc).contains(u) {
        let j = choose|j: int| 0 <= j < users.filter(pc).len() && users.filter(pc)[j] == u;
        users.lemma_filter_pred(pc, j);
    }
    if users.filter(po).contains(u) {
        let j = choose|j: int| 0 <= j < users.filter(po).len() && users.filter(po)[j] == u;
        users.lemma_filter_pred(po, j);
    }
}

/// A refresh token can be redeemed once: after it was taken out of the
/// cache, taking it again finds nothing.
pub proof fn lemma_refresh_token_redeemed_once(cache: Map<Seq<char>, Token<UserInfo>>, refresh_token: Seq<char>)
    ensures
        !cache.remove(refresh_token).contains_key(refresh_token),
        cache.remove(refresh_token).remove(refresh_token) == cache.remove(refresh_token),
{
    assert(cache.remove(refresh_token).remove(refresh_token) =~= cache.remove(refresh_token));
}

/// A login stores what a later refresh redeems: the claims kept under the
/// refresh token are handed back by the refresh, which removes them.
pub proof fn lemma_issued_refresh_token_redeems(
    cache: Map<Seq<char>, Token<UserInfo>>,
    refresh_token: Seq<char>,
    claims: Token<UserInfo>,
)
    ensures
        cache.insert(refresh_token, claims).contains_key(refresh_token),
        cache.insert(refresh_token, claims)[refresh_token] == claims,
        cache.insert(refresh_token, claims).remove(refresh_token) == cache.remove(refresh_token),
{
    assert(cache.insert(refresh_token, claims).remove(refresh_token) =~= cache.remove(refresh_token));
}

/// Answers an administrator's request for the user list.
pub fn get_users_result(viewer: &UserInfo, users: Vec<UserInfo>) -> (r: Result<GetUsers, Meta>)
    ensures
        !viewer.spec_is_admin() ==> {
            &&& r is Err
            &&& r->Err_0.err_code == ErrCode::UnAuthorized
            &&& r->Err_0.err_message@ == "权限不足"@
        },
        viewer.spec_is_admin() ==> {
            &&& r is Ok
            &&& r->Ok_0.customers is Some
            &&& r->Ok_0.others is Some
            &&& r->Ok_0.customers->Some_0@ == users@.filter(
                |u: UserInfo| admin_customer(u),
            )
            &&& r->Ok_0.others->Some_0@ == users@.filter(
                |u: UserInfo| admin_other(u),
            )
        },
{
    if !viewer.is_admin() {
        return Err(Meta::from(401, "权限不足"));
    }
    let (customers, others) = split_users(users);
    Ok(GetUsers { customers: Some(customers), others: Some(others) })
}

} // verus!
