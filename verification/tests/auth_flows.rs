use authcore::auth::{new_account_id, Login, Register, VerifyOtp};
use authcore::cache::TtlCache;
use authcore::store::UserStore;
use authcore::token::validate_token;

const SECRET: &[u8] = b"test-signing-secret";

fn register(
    store: &mut UserStore,
    cache: &mut TtlCache,
    username: &str,
    email: &str,
    password: &str,
    now: u64,
) -> (u16, Option<u32>) {
    let req = Register {
        username: username.to_string(),
        email: email.to_string(),
        password: password.to_string(),
    };
    let out = Register::register_user(store, cache, &req, new_account_id(), now);
    (out.reply.status, out.otp)
}

#[test]
fn register_with_fresh_id_then_login() {
    let mut store = UserStore::new();
    let mut cache = TtlCache::new();
    let req = Register {
        username: "zoe".to_string(),
        email: "z@x.com".to_string(),
        password: "pw".to_string(),
    };
    let out = Register::register_user_with_fresh_id(&mut store, &mut cache, &req, 1000);
    assert_eq!(out.reply.status, 201);
    assert_eq!(out.reply.body.message, "Email Sent Successfully");
    let body = Login { username: "zoe".to_string(), password: "pw".to_string() };
    let r = Register::login_user(&store, &body, SECRET, 1500);
    assert_eq!(r.status, 200);
}

#[test]
fn register_then_conflict() {
    let mut store = UserStore::new();
    let mut cache = TtlCache::new();
    let (status, otp) = register(&mut store, &mut cache, "alice", "a@x.com", "pw1", 1000);
    assert_eq!(status, 201);
    assert!(otp.is_some());
    let (status2, otp2) = register(&mut store, &mut cache, "alice", "b@y.com", "pw2", 1001);
    assert_eq!(status2, 409);
    assert!(otp2.is_none());
}

#[test]
fn otp_verifies_exactly_once() {
    let mut store = UserStore::new();
    let mut cache = TtlCache::new();
    let (status, otp) = register(&mut store, &mut cache, "bob", "b@x.com", "pw", 1000);
    assert_eq!(status, 201);
    let otp = otp.unwrap();
    assert!((100000..=999999).contains(&otp));
    let dto = VerifyOtp { email: "b@x.com".to_string(), otp: otp.to_string() };
    let r1 = Register::verify_otp(&mut cache, &dto, 1010);
    assert_eq!(r1.status, 200);
    assert_eq!(r1.body.message, "OTP verified successfully");
    let r2 = Register::verify_otp(&mut cache, &dto, 1011);
    assert_eq!(r2.status, 400);
    assert_eq!(r2.body.message, "OTP not found or expired");
}

#[test]
fn wrong_otp_leaves_code_retrievable() {
    let mut store = UserStore::new();
    let mut cache = TtlCache::new();
    let (_, otp) = register(&mut store, &mut cache, "carol", "c@x.com", "pw", 1000);
    let otp = otp.unwrap();
    let wrong = if otp == 100000 { 100001 } else { otp - 1 };
    let bad = VerifyOtp { email: "c@x.com".to_string(), otp: wrong.to_string() };
    let r1 = Register::verify_otp(&mut cache, &bad, 1010);
    assert_eq!(r1.status, 400);
    assert_eq!(r1.body.message, "Invalid OTP");
    let good = VerifyOtp { email: "c@x.com".to_string(), otp: otp.to_string() };
    let r2 = Register::verify_otp(&mut cache, &good, 1020);
    assert_eq!(r2.status, 200);
}

#[test]
fn otp_expires_after_ttl() {
    let mut store = UserStore::new();
    let mut cache = TtlCache::new();
    let (_, otp) = register(&mut store, &mut cache, "dave", "d@x.com", "pw", 1000);
    let dto = VerifyOtp { email: "d@x.com".to_string(), otp: otp.unwrap().to_string() };
    let r = Register::verify_otp(&mut cache, &dto, 1030);
    assert_eq!(r.status, 400);
    assert_eq!(r.body.message, "OTP not found or expired");
}

#[test]
fn login_wrong_password_then_success() {
    let mut store = UserStore::new();
    let mut cache = TtlCache::new();
    let (status, _) = register(&mut store, &mut cache, "alice", "a@x.com", "pw1", 1000);
    assert_eq!(status, 201);
    let bad = Login { username: "alice".to_string(), password: "wrongpw".to_string() };
    let r1 = Register::login_user(&store, &bad, SECRET, 2000);
    assert_eq!(r1.status, 400);
    assert_eq!(r1.message, "Password Not Matched");
    assert!(r1.token.is_none());
    let good = Login { username: "alice".to_string(), password: "pw1".to_string() };
    let r2 = Register::login_user(&store, &good, SECRET, 2000);
    assert_eq!(r2.status, 200);
    assert_eq!(r2.message, "Signin Successfully");
    let token = r2.token.expect("token expected");
    assert!(!token.is_empty());
    let cookie = r2.cookie.expect("cookie expected");
    assert_eq!(cookie.name, "auth_token");
    assert_eq!(cookie.value, token);
    assert_eq!(cookie.path, "/");
    assert!(cookie.http_only && cookie.secure && cookie.same_site_strict);
    assert_eq!(cookie.max_age_seconds, 86400);
}

#[test]
fn login_unknown_user() {
    let store = UserStore::new();
    let body = Login { username: "nobody".to_string(), password: "pw".to_string() };
    let r = Register::login_user(&store, &body, SECRET, 2000);
    assert_eq!(r.status, 404);
    assert_eq!(r.message, "User Not Found");
}

#[test]
fn login_token_round_trips_to_account_id() {
    let mut store = UserStore::new();
    let mut cache = TtlCache::new();
    register(&mut store, &mut cache, "erin", "e@x.com", "pw", 1000);
    let body = Login { username: "erin".to_string(), password: "pw".to_string() };
    let r = Register::login_user(&store, &body, SECRET, 2000);
    let token = r.token.unwrap();
    let id = validate_token(&token, SECRET, 2001).expect("fresh token must validate");
    assert_eq!(id.len(), 36);
    let again = Register::login_user(&store, &body, SECRET, 2000);
    let id2 = validate_token(&again.token.unwrap(), SECRET, 2500).unwrap();
    assert_eq!(id, id2);
}
