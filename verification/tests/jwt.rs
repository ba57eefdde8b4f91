use utils::jwt::{
    decode_claims, expiry_from, secret_or_default, set_expiry, sign_claims, stamp_expiry,
    unix_now, AuthError, Exp, Keys, Token,
};
use utils::extension::CacheValue;

#[test]
fn secret_falls_back_to_default() {
    assert_eq!(secret_or_default(None), "default_secret");
    assert_eq!(secret_or_default(Some("s3")), "s3");
}

#[test]
fn expiry_adds_or_overflows() {
    assert_eq!(expiry_from(100, 20), Some(120));
    assert_eq!(expiry_from(u64::MAX, 1), None);
}

#[test]
fn stamping_sets_expiry() {
    let mut t = Token::new(3u8);
    assert_eq!(stamp_expiry(&mut t, 50, 1000), Ok(()));
    assert_eq!(t.get_exp(), 1050);
    assert_eq!(stamp_expiry(&mut t, 2, u64::MAX - 1), Err(AuthError::TokenCreation));
    assert_eq!(t.get_exp(), 1050);
}

#[test]
fn clock_expiry_is_in_the_future() {
    let mut t = Token::new(());
    assert_eq!(set_expiry(&mut t, 3600), Ok(()));
    let now = unix_now().unwrap();
    assert!(t.exp > now);
    assert!(!t.is_expire());
    t.set_exp(0);
    assert!(t.is_expire());
    assert!(t.is_expire_at(1));
    assert!(!t.is_expire_at(0));
}

#[test]
fn signed_claims_decode_with_the_same_keys() {
    let keys = Keys::new(Some("secret-a"));
    let refresh = Keys::new(None);
    let exp = unix_now().unwrap() + 600;
    let claims: serde_json::Value =
        serde_json::from_str(&format!("{{\"username\":\"bob\",\"exp\":{}}}", exp)).unwrap();
    let (token, refresh_token) = sign_claims(&claims, &keys, &refresh).unwrap();
    assert_ne!(token, refresh_token);
    assert_eq!(decode_claims(&token, &keys).unwrap(), claims);
    assert_eq!(decode_claims(&refresh_token, &refresh).unwrap(), claims);
    assert!(decode_claims(&token, &refresh).is_err());
    assert!(decode_claims("not a token", &keys).is_err());
}

#[test]
fn expired_claims_do_not_decode() {
    let keys = Keys::new(Some("k"));
    let claims: serde_json::Value = serde_json::from_str("{\"username\":\"bob\",\"exp\":1000}").unwrap();
    let (token, _) = sign_claims(&claims, &keys, &keys).unwrap();
    assert!(decode_claims(&token, &keys).is_err());
}
