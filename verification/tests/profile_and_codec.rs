use authcore::auth::{new_account_id, Login, Register};
use authcore::base64url::{b64url_decode, b64url_encode};
use authcore::cache::TtlCache;
use authcore::numeric::{parse_dec, u64_to_dec};
use authcore::store::UserStore;
use authcore::token::generate_token;
use authcore::user::{get_profile, parse_profile, serialize_profile, Gender, User};

const SECRET: &[u8] = b"profile-secret";

fn empty_user() -> User {
    User {
        firstname: None,
        lastname: None,
        age: None,
        gender: None,
        bio: None,
        profile_picture_url: None,
    }
}

fn setup_account(username: &str) -> (UserStore, TtlCache, String) {
    let mut store = UserStore::new();
    let mut cache = TtlCache::new();
    let req = Register {
        username: username.to_string(),
        email: format!("{}@x.com", username),
        password: "pw".to_string(),
    };
    let out = Register::register_user(&mut store, &mut cache, &req, new_account_id(), 1000);
    assert_eq!(out.reply.status, 201);
    let login = Login { username: username.to_string(), password: "pw".to_string() };
    let r = Register::login_user(&store, &login, SECRET, 1000);
    let token = r.token.unwrap();
    (store, cache, token)
}

#[test]
fn base64url_known_values() {
    assert_eq!(b64url_encode("Man"), "TWFu");
    assert_eq!(b64url_encode("Ma"), "TWE");
    assert_eq!(b64url_encode("M"), "TQ");
    assert_eq!(b64url_encode(""), "");
    assert_eq!(b64url_decode("TWFu"), Some("Man".to_string()));
    assert_eq!(b64url_decode("TWE"), Some("Ma".to_string()));
    assert_eq!(b64url_decode("TQ"), Some("M".to_string()));
    assert_eq!(b64url_decode("T"), None);
    assert_eq!(b64url_decode("T!"), None);
}

#[test]
fn decimal_rendering_and_parsing() {
    assert_eq!(u64_to_dec(0), "0");
    assert_eq!(u64_to_dec(12345), "12345");
    assert_eq!(u64_to_dec(999999), "999999");
    assert_eq!(parse_dec("0"), Some(0));
    assert_eq!(parse_dec("12345"), Some(12345));
    assert_eq!(parse_dec(""), None);
    assert_eq!(parse_dec("12a"), None);
    assert_eq!(parse_dec("12345678901234567890"), None);
}

#[test]
fn gender_parsing() {
    assert_eq!(Gender::from_str("male"), Ok(Gender::Male));
    assert_eq!(Gender::from_str("FEMALE"), Ok(Gender::Female));
    assert_eq!(Gender::from_str("Other"), Ok(Gender::Other));
    assert_eq!(
        Gender::from_str("unknown"),
        Err("Invalid gender value: unknown".to_string())
    );
    assert_eq!(Gender::Male.as_str(), "Male");
    assert_eq!(Gender::Female.as_str(), "Female");
    assert_eq!(Gender::Other.as_str(), "Other");
}

#[test]
fn profile_snapshot_round_trip() {
    let u = User {
        firstname: Some("Ada".to_string()),
        lastname: Some("Lovelace".to_string()),
        age: Some(36),
        gender: Some(Gender::Female),
        bio: Some("first programmer | loves: math".to_string()),
        profile_picture_url: None,
    };
    let snap = serialize_profile(&u);
    let back = parse_profile(&snap).expect("snapshot must parse");
    assert_eq!(back.firstname, u.firstname);
    assert_eq!(back.lastname, u.lastname);
    assert_eq!(back.age, u.age);
    assert_eq!(back.gender, u.gender);
    assert_eq!(back.bio, u.bio);
    assert_eq!(back.profile_picture_url, u.profile_picture_url);
    assert!(parse_profile("not a snapshot").is_none());
    let empty = serialize_profile(&empty_user());
    assert_eq!(empty, "-|-|-|-|-|-|");
    assert!(parse_profile(&empty).is_some());
}

#[test]
fn update_profile_age_boundaries() {
    let (mut store, _cache, token) = setup_account("frank");
    for (age, status, msg) in [
        (17, 400, "Age must be greater than 18"),
        (18, 200, "User Data Updated Successfully"),
        (50, 200, "User Data Updated Successfully"),
        (51, 400, "Age must be less than 50"),
    ] {
        let mut u = empty_user();
        u.firstname = Some("Frank".to_string());
        u.age = Some(age);
        let r = User::insert_user_data(&mut store, Some(&token), SECRET, &u, 1500);
        assert_eq!(r.status, status, "age {}", age);
        assert_eq!(r.body.message, msg, "age {}", age);
    }
}

#[test]
fn update_profile_requires_session() {
    let (mut store, _cache, token) = setup_account("gina");
    let mut u = empty_user();
    u.firstname = Some("Gina".to_string());
    let r = User::insert_user_data(&mut store, None, SECRET, &u, 1500);
    assert_eq!(r.status, 401);
    assert_eq!(r.body.message, "Missing token");
    let expired = User::insert_user_data(&mut store, Some(&token), SECRET, &u, 1000 + 86400);
    assert_eq!(expired.status, 401);
    assert_eq!(expired.body.message, "Invalid token: expired");
}

#[test]
fn get_current_user_unauthorized_paths() {
    let (store, mut cache, token) = setup_account("hank");
    let missing = User::get_user(&store, &mut cache, None, SECRET, 1500);
    assert_eq!(missing.status, 401);
    assert_eq!(missing.message, "Missing token");
    let expired = User::get_user(&store, &mut cache, Some(&token), SECRET, 1000 + 86400);
    assert_eq!(expired.status, 401);
    assert_eq!(expired.message, "Invalid token: expired");
    let mut tampered = token.clone();
    tampered.push('x');
    let bad = User::get_user(&store, &mut cache, Some(&tampered), SECRET, 1500);
    assert_eq!(bad.status, 401);
    assert!(bad.message.starts_with("Invalid token:"));
}

#[test]
fn get_current_user_serves_profile() {
    let (mut store, mut cache, token) = setup_account("iris");
    let nodata = User::get_user(&store, &mut cache, Some(&token), SECRET, 1500);
    assert_eq!(nodata.status, 404);
    assert_eq!(nodata.message, "User Data Not Found");
    let mut u = empty_user();
    u.firstname = Some("Iris".to_string());
    u.age = Some(30);
    let w = User::insert_user_data(&mut store, Some(&token), SECRET, &u, 1600);
    assert_eq!(w.status, 200);
    let got = User::get_user(&store, &mut cache, Some(&token), SECRET, 1700);
    assert_eq!(got.status, 200);
    let data = got.data.expect("profile expected");
    assert_eq!(data.firstname, Some("Iris".to_string()));
    assert_eq!(data.age, Some(30));
}

#[test]
fn cache_takes_precedence_until_ttl() {
    let (mut store, mut cache, token) = setup_account("judy");
    let mut u = empty_user();
    u.firstname = Some("Judy".to_string());
    u.age = Some(40);
    User::insert_user_data(&mut store, Some(&token), SECRET, &u, 1600);
    // the id is internal; read through the endpoint once to fill the cache
    let first = User::get_user(&store, &mut cache, Some(&token), SECRET, 1700);
    assert_eq!(first.status, 200);
    let before = first.data.unwrap();
    // the durable store changes under the cache
    let mut change = empty_user();
    change.firstname = Some("Judith".to_string());
    User::insert_user_data(&mut store, Some(&token), SECRET, &change, 1800);
    // within the hour the cached snapshot still answers
    let second = User::get_user(&store, &mut cache, Some(&token), SECRET, 1900);
    let cached = second.data.unwrap();
    assert_eq!(cached.firstname, before.firstname);
    assert_eq!(cached.firstname, Some("Judy".to_string()));
    // after the snapshot expires the durable store answers again
    let third = User::get_user(&store, &mut cache, Some(&token), SECRET, 1700 + 3600);
    assert_eq!(third.data.unwrap().firstname, Some("Judith".to_string()));
}

#[test]
fn cache_aside_reader_populates_cache() {
    let (mut store, mut cache, token) = setup_account("kate");
    let mut u = empty_user();
    u.bio = Some("hi".to_string());
    u.firstname = Some("Kate".to_string());
    User::insert_user_data(&mut store, Some(&token), SECRET, &u, 1600);
    // find the account id by validating the session token
    let id = authcore::token::validate_token(&token, SECRET, 1601).unwrap();
    let id = id.to_string();
    let r1 = get_profile(&store, &mut cache, &id, 1700);
    assert!(r1.is_some());
    let r2 = get_profile(&store, &mut cache, &id, 1800);
    assert_eq!(r2.unwrap().firstname, Some("Kate".to_string()));
}

#[test]
fn partial_update_applies_names_before_age_rejection() {
    let (mut store, mut cache, token) = setup_account("liam");
    let mut first = empty_user();
    first.firstname = Some("Liam".to_string());
    first.lastname = Some("Ng".to_string());
    first.age = Some(17);
    let r = User::insert_user_data(&mut store, Some(&token), SECRET, &first, 1600);
    assert_eq!(r.status, 400);
    // the name fields were committed before the age was rejected
    let got = User::get_user(&store, &mut cache, Some(&token), SECRET, 1700);
    let data = got.data.expect("row was created by the firstname statement");
    assert_eq!(data.firstname, Some("Liam".to_string()));
    assert_eq!(data.lastname, Some("Ng".to_string()));
    assert_eq!(data.age, None);
}

#[test]
fn empty_update_reports_internal_error() {
    let (mut store, _cache, token) = setup_account("mona");
    let r = User::insert_user_data(&mut store, Some(&token), SECRET, &empty_user(), 1600);
    assert_eq!(r.status, 500);
}

#[test]
fn issued_ids_fit_token_subjects() {
    let id = new_account_id();
    assert_eq!(id.len(), 36);
    let token = generate_token(&id, SECRET, 100);
    assert_eq!(authcore::token::validate_token(&token, SECRET, 101), Ok(id));
}
