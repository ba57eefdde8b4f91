use utils::apps::user::control::{
    bad_credentials, check_admin, get_users_result, issue_login, lookup_result, plan_user_update,
    split_users, UserLookup,
    take_refresh_token, apply_user_update, server_error, RefreshTokenCache, REFRESH_EXPIRE,
};
use utils::apps::user::model::model::{LoginKey, RoleInfo, UserInfo};
use utils::apps::user::model::req::UpdateUserInfo;
use utils::extension::Cache;
use utils::jwt::{AuthError, Token};
use utils::response::ErrCode;

fn role(v: &str) -> RoleInfo {
    RoleInfo { role_name: format!("{} role", v), value: v.to_string() }
}

fn user(name: &str, roles: Vec<RoleInfo>) -> UserInfo {
    UserInfo {
        user_id: 1,
        username: name.to_string(),
        realname: format!("{} real", name),
        user_desc: String::new(),
        avatar: String::new(),
        roles,
        sex: None,
    }
}

#[test]
fn roles_are_checked_by_value() {
    let u = user("x", vec![role("customer"), role("admin")]);
    assert!(u.is_admin());
    assert!(u.is_customer());
    let v = user("y", vec![RoleInfo { role_name: "admin".to_string(), value: "staff".to_string() }]);
    assert!(!v.is_admin());
    assert!(!v.is_customer());
    assert!(!user("z", vec![]).is_admin());
}

#[test]
fn login_key_starts_unexpired_at_zero() {
    let k = LoginKey::new("bob".to_string());
    assert_eq!(k.username, "bob");
    assert_eq!(k.exp, 0);
}

#[test]
fn only_admins_pass_the_role_check() {
    assert!(check_admin(&user("a", vec![role("admin")])).is_ok());
    let e = check_admin(&user("b", vec![role("customer")])).unwrap_err();
    assert_eq!(e.err_code, ErrCode::UnAuthorized);
    assert_eq!(e.err_message, "权限不足!");
}

#[test]
fn users_split_keeps_admins_only() {
    let users = vec![
        user("a", vec![role("admin"), role("customer")]),
        user("b", vec![role("customer")]),
        user("c", vec![role("admin")]),
        user("d", vec![]),
        user("e", vec![role("customer"), role("admin")]),
    ];
    let (customers, others) = split_users(users);
    let names = |v: &Vec<UserInfo>| v.iter().map(|u| u.username.clone()).collect::<Vec<_>>();
    assert_eq!(names(&customers), vec!["a", "e"]);
    assert_eq!(names(&others), vec!["c"]);
}

#[test]
fn user_list_needs_admin() {
    let e = get_users_result(&user("v", vec![]), vec![]).err().unwrap();
    assert_eq!(e.err_code, ErrCode::UnAuthorized);
    assert_eq!(e.err_message, "权限不足");
    let ok = get_users_result(&user("v", vec![role("admin")]), vec![user("c", vec![role("admin")])])
        .ok()
        .unwrap();
    assert_eq!(ok.customers.unwrap().len(), 0);
    assert_eq!(ok.others.unwrap().len(), 1);
}

#[test]
fn update_plan_uses_current_name_when_absent() {
    let u = user("a", vec![]);
    let req = UpdateUserInfo { realname: None, sex: Some(true), user_desc: None };
    let (name, sex) = plan_user_update(&u, &req).ok().unwrap();
    assert_eq!(name, "a real");
    assert!(sex);
    let req = UpdateUserInfo { realname: Some("New".to_string()), sex: Some(false), user_desc: None };
    let (name, sex) = plan_user_update(&u, &req).ok().unwrap();
    assert_eq!(name, "New");
    assert!(!sex);
}

#[test]
fn empty_update_is_refused() {
    let req = UpdateUserInfo { realname: None, sex: None, user_desc: Some("d".to_string()) };
    let e = plan_user_update(&user("a", vec![]), &req).err().unwrap();
    assert_eq!(e.err_code, ErrCode::BadRequest);
    assert_eq!(e.err_message, "昵称和性别为空!");
}

#[test]
fn update_is_applied_to_claims() {
    let mut t = Token::new(user("a", vec![role("admin")]));
    t.exp = 9;
    apply_user_update(&mut t, "Ann".to_string(), true);
    assert_eq!(t.info.realname, "Ann");
    assert_eq!(t.info.sex, Some(true));
    assert_eq!(t.exp, 9);
    assert_eq!(t.info.username, "a");
}

#[test]
fn issued_login_is_cached_under_refresh_token() {
    let mut cache: RefreshTokenCache = Cache::new();
    let mut t = Token::new(user("a", vec![]));
    t.exp = 1000;
    let info = issue_login(&mut cache, t, Ok(("tok".to_string(), "ref".to_string()))).ok().unwrap();
    assert_eq!(info.token, "tok");
    assert_eq!(info.refresh_token, "ref");
    assert_eq!(info.info.username, "a");
    let stored = cache.get("ref").unwrap();
    assert_eq!(stored.exp, 1000 + REFRESH_EXPIRE);
    let back = take_refresh_token(&mut cache, "ref").ok().unwrap();
    assert_eq!(back.exp, 1000 + REFRESH_EXPIRE);
    assert!(!cache.contains_key("ref"));
}

#[test]
fn failed_signing_is_server_error() {
    let mut cache: RefreshTokenCache = Cache::new();
    let e = issue_login(&mut cache, Token::new(user("a", vec![])), Err(AuthError::TokenCreation))
        .err()
        .unwrap();
    assert_eq!(e.err_code, ErrCode::InternalServerError);
    assert_eq!(e.err_message, server_error().err_message);
    assert!(!cache.contains_key("ref"));
}

#[test]
fn unknown_refresh_token_is_bad_request() {
    let mut cache: RefreshTokenCache = Cache::new();
    let e = take_refresh_token(&mut cache, "nope").err().unwrap();
    assert_eq!(e.err_code, ErrCode::BadRequest);
    assert_eq!(e.err_message, "refresh token不存在或已过期!");
    assert_eq!(bad_credentials().err_message, "用户名或密码错误!");
}

#[test]
fn user_lookup_answers() {
    let u = lookup_result(UserLookup::Found(user("ann", vec![]))).ok().unwrap();
    assert_eq!(u.username, "ann");
    let e = lookup_result(UserLookup::Unreadable("missing field".to_string())).err().unwrap();
    assert_eq!(e.err_code, ErrCode::BadRequest);
    assert_eq!(e.err_message, "missing field");
    let e = lookup_result(UserLookup::NotFound).err().unwrap();
    assert_eq!(e.err_code, ErrCode::BadRequest);
    assert_eq!(e.err_message, "用户名或密码错误!");
}
