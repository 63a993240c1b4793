//! The registration and login flows: existence check, one-time-passcode
//! issue and verification, credential check, and session issuance. The
//! durable store, the TTL cache and the clock are explicit arguments, so
//! each flow's effect is pinned down completely.
use vstd::prelude::*;

use crate::cache::TtlCache;
use crate::claims::valid_sub;
use crate::hashing::{bcrypt_matches, decrypt_password, encrypt_password};
use crate::numeric::{dec_of, u64_to_dec};
use crate::response::{
    handle_bad_request, handle_conflict_error, handle_internal_server_error, Reply,
    ResponseToSend,
};
use crate::store::UserStore;
use crate::token::{generate_token, spec_token, MAX_CLOCK, TOKEN_TTL_SECONDS};

verus! {

/// Seconds a one-time passcode stays valid in the cache.
pub const OTP_TTL_SECONDS: u64 = 30;

/// A registration request.
pub struct Register {
    pub username: String,
    pub email: String,
    pub password: String,
}

/// A passcode-verification request.
pub struct VerifyOtp {
    pub email: String,
    pub otp: String,
}

/// A login request.
pub struct Login {
    pub username: String,
    pub password: String,
}

/// The credential row a login looks up: identifier and password hash.
pub struct User {
    pub id: String,
    pub password: String,
}

/// What registration reports: the reply for the client, and on success the
/// passcode that the notifier is to deliver.
pub struct RegisterOutcome {
    pub reply: Reply<()>,
    pub otp: Option<u32>,
}

/// A session cookie as the login flow builds it.
pub struct Cookie {
    pub name: String,
    pub value: String,
    pub path: String,
    pub http_only: bool,
    pub secure: bool,
    pub same_site_strict: bool,
    pub max_age_seconds: u64,
}

/// What a login reports: status, envelope fields, and on success the token
/// both bare and as a cookie.
pub struct LoginReply {
    pub status: u16,
    pub success: bool,
    pub message: String,
    pub token: Option<String>,
    pub cookie: Option<Cookie>,
}

/// The cache key under which the passcode for an email address is held.
pub open spec fn otp_key(email: Seq<char>) -> Seq<char> {
    "otp:"@ + email
}

/// Builds the passcode cache key for an email address.
pub fn make_otp_key(email: &String) -> (r: String)
    ensures
        r@ == otp_key(email@),
{
    let mut k = String::new();
    k.append("otp:");
    k.append(email.as_str());
    k
}

/// Law: a verified passcode is consumed. Once the cache no longer holds a
/// key — as after a successful verification — no later lookup finds it
/// live, so a second submission of the same code reports not found.
pub proof fn lemma_otp_single_use(cache: TtlCache, email: Seq<char>, later: u64)
    requires
        !cache.has(otp_key(email)),
    ensures
        !cache.live(otp_key(email), later),
{
}

/// Relies on uuid::Uuid::new_v4 and its hyphenated `Display` form: a fresh
/// random identifier of 36 lower-case hexadecimal digits and hyphens.
#[verifier::external_body]
pub fn new_account_id() -> (r: String)
    ensures
        r@.len() == 36,
        valid_sub(r@),
{
    uuid::Uuid::new_v4().to_string()
}

impl Register {
    /// Whether an account with this username already exists.
    pub fn check_user_existance(store: &UserStore, username: &String) -> (r: bool)
        requires
            store.wf(),
        ensures
            r == store.has_username(username@),
    {
        store.username_exists(username)
    }

    /// Relies on rand's thread-local generator: `gen_range` over an
    /// inclusive range draws a value uniformly from within it.
    #[verifier::external_body]
    fn get_otp() -> (r: u32)
        ensures
            100000 <= r <= 999999,
    {
        rand::Rng::gen_range(&mut rand::thread_rng(), 100000..=999999)
    }

    /// Registration: reports a conflict for a taken username, writing
    /// nothing; otherwise hashes the password, stores a fresh passcode
    /// under the email's cache key for thirty seconds, and inserts the
    /// account — unless the identifier is already taken, which reports an
    /// internal error as the store's uniqueness constraint would.
    pub fn register_user(
        store: &mut UserStore,
        cache: &mut TtlCache,
        user: &Register,
        user_id: String,
        now: u64,
    ) -> (r: RegisterOutcome)
        requires
            old(store).wf(),
            old(cache).wf(),
            valid_sub(user_id@),
            now <= MAX_CLOCK,
        ensures
            final(store).wf(),
            final(cache).wf(),
            old(store).has_username(user.username@) ==> r.reply.status == 409
                && r.reply.body.success && r.reply.body.message@ == "User Already Exists"@
                && r.reply.body.data is None && *final(store) == *old(store) && *final(cache)
                == *old(cache) && r.otp is None,
            !old(store).has_username(user.username@) && r.otp is None ==> r.reply.status == 500
                && !r.reply.body.success && r.reply.body.data is None && *final(store) == *old(
                store,
            ) && *final(cache) == *old(cache),
            r.otp matches Some(o) ==> (!old(store).has_username(user.username@) ==> ({
                &&& 100000 <= o <= 999999
                &&& final(cache).has(otp_key(user.email@))
                &&& final(cache).val(otp_key(user.email@)) == dec_of(o as nat)
                &&& final(cache).exp_of(otp_key(user.email@)) == now + OTP_TTL_SECONDS
                &&& forall|k: Seq<char>|
                    k != otp_key(user.email@) ==> (#[trigger] final(cache).has(k)) == old(cache).has(k)
                &&& forall|k: Seq<char>|
                    k != otp_key(user.email@) && old(cache).has(k) ==> (#[trigger] final(cache).val(k)) == old(cache).val(k) && final(cache).exp_of(k) == old(cache).exp_of(
                        k,
                    )
                &&& old(store).has_id(user_id@) ==> r.reply.status == 500
                    && !r.reply.body.success && r.reply.body.data is None && *final(store)
                    == *old(store)
                &&& !old(store).has_id(user_id@) ==> ({
                    &&& r.reply.status == 201
                    &&& r.reply.body.success
                    &&& r.reply.body.message@ == "Email Sent Successfully"@
                    &&& r.reply.body.data is None
                    &&& final(store).has_username(user.username@)
                    &&& final(store).id_of(user.username@) == user_id@
                    &&& final(store).email_of(user.username@) == user.email@
                    &&& bcrypt_matches(
                        user.password@,
                        final(store).password_of(user.username@),
                    )
                    &&& forall|u: Seq<char>|
                        u != user.username@ ==> (#[trigger] final(store).has_username(u)) == old(store).has_username(u)
                    &&& forall|u: Seq<char>|
                        u != user.username@ && old(store).has_username(u) ==> (#[trigger] final(store).id_of(u)) == old(store).id_of(u) && final(store).password_of(u) == old(store).password_of(u) && final(store).email_of(u) == old(store).email_of(u)
                    &&& forall|uid: Seq<char>|
                        (#[trigger] final(store).has_profile(uid)) == old(store).has_profile(uid)
                    &&& forall|uid: Seq<char>|
                        old(store).has_profile(uid) ==> (#[trigger] final(store).profile_of(uid))
                            == old(store).profile_of(uid)
                })
            })),
    {
        let is_user_exists = Self::check_user_existance(store, &user.username);
        if is_user_exists {
            return RegisterOutcome { reply: handle_conflict_error("User Already Exists"), otp: None };
        }
        let hash_password = match encrypt_password(user.password.as_str()) {
            Some(h) => h,
            None => {
                return RegisterOutcome {
                    reply: handle_internal_server_error("Error Hashing Password"),
                    otp: None,
                };
            },
        };
        let otp = Self::get_otp();
        let otp_text = u64_to_dec(otp as u64);
        let redis_key = make_otp_key(&user.email);
        cache.set_with_ttl(redis_key, otp_text, OTP_TTL_SECONDS, now);
        if store.id_exists(&user_id) {
            return RegisterOutcome {
                reply: handle_internal_server_error("Account Id Already Exists"),
                otp: Some(otp),
            };
        }
        store.insert_account(
            user_id,
            user.username.clone(),
            user.email.clone(),
            hash_password,
        );
        RegisterOutcome {
            reply: Reply {
                status: 201,
                body: ResponseToSend {
                    success: true,
                    message: "Email Sent Successfully".to_owned(),
                    data: None,
                },
            },
            otp: Some(otp),
        }
    }

    /// Registration as the endpoint runs it: draws a fresh random account
    /// identifier and hands the request on. Which identifier is drawn is
    /// not determined by the inputs, so the outcome is stated for every
    /// draw: a conflict writes nothing; otherwise on success the account
    /// stands in the store under some valid fresh identifier.
    pub fn register_user_with_fresh_id(
        store: &mut UserStore,
        cache: &mut TtlCache,
        user: &Register,
        now: u64,
    ) -> (r: RegisterOutcome)
        requires
            old(store).wf(),
            old(cache).wf(),
            now <= MAX_CLOCK,
        ensures
            final(store).wf(),
            final(cache).wf(),
            old(store).has_username(user.username@) ==> r.reply.status == 409
                && r.reply.body.success && r.reply.body.message@ == "User Already Exists"@
                && r.reply.body.data is None && *final(store) == *old(store) && *final(cache)
                == *old(cache) && r.otp is None,
            !old(store).has_username(user.username@) && r.otp is None ==> r.reply.status == 500
                && !r.reply.body.success && r.reply.body.data is None && *final(store) == *old(
                store,
            ) && *final(cache) == *old(cache),
            r.otp matches Some(o) ==> (!old(store).has_username(user.username@) ==> ({
                &&& 100000 <= o <= 999999
                &&& final(cache).has(otp_key(user.email@))
                &&& final(cache).val(otp_key(user.email@)) == dec_of(o as nat)
                &&& final(cache).exp_of(otp_key(user.email@)) == now + OTP_TTL_SECONDS
                &&& (r.reply.status == 201 || r.reply.status == 500)
                &&& r.reply.status == 500 ==> !r.reply.body.success && r.reply.body.data is None
                    && *final(store) == *old(store)
                &&& r.reply.status == 201 ==> ({
                    &&& r.reply.body.success
                    &&& r.reply.body.message@ == "Email Sent Successfully"@
                    &&& r.reply.body.data is None
                    &&& final(store).has_username(user.username@)
                    &&& final(store).email_of(user.username@) == user.email@
                    &&& valid_sub(final(store).id_of(user.username@))
                    &&& bcrypt_matches(
                        user.password@,
                        final(store).password_of(user.username@),
                    )
                    &&& forall|u: Seq<char>|
                        u != user.username@ ==> (#[trigger] final(store).has_username(u)) == old(store).has_username(u)
                    &&& forall|u: Seq<char>|
                        u != user.username@ && old(store).has_username(u) ==> (#[trigger] final(store).id_of(u)) == old(store).id_of(u) && final(store).password_of(u) == old(store).password_of(u) && final(store).email_of(u) == old(store).email_of(u)
                    &&& forall|uid: Seq<char>|
                        (#[trigger] final(store).has_profile(uid)) == old(store).has_profile(uid)
                    &&& forall|uid: Seq<char>|
                        old(store).has_profile(uid) ==> (#[trigger] final(store).profile_of(uid))
                            == old(store).profile_of(uid)
                })
            })),
    {
        let user_id = new_account_id();
        Self::register_user(store, cache, user, user_id, now)
    }

    /// Passcode verification: an absent or expired key reports not found; a
    /// wrong value leaves the stored passcode untouched for a retry; the
    /// right value consumes the key, so a second use finds nothing.
    pub fn verify_otp(cache: &mut TtlCache, verify_otp_dto: &VerifyOtp, now: u64) -> (r: Reply<
        (),
    >)
        requires
            old(cache).wf(),
        ensures
            final(cache).wf(),
            !old(cache).live(otp_key(verify_otp_dto.email@), now) ==> r.status == 400
                && !r.body.success && r.body.message@ == "OTP not found or expired"@
                && r.body.data is None && *final(cache) == *old(cache),
            old(cache).live(otp_key(verify_otp_dto.email@), now) && old(cache).val(
                otp_key(verify_otp_dto.email@),
            ) == verify_otp_dto.otp@ ==> ({
                &&& r.status == 200
                &&& r.body.success
                &&& r.body.message@ == "OTP verified successfully"@
                &&& r.body.data is None
                &&& !final(cache).has(otp_key(verify_otp_dto.email@))
                &&& forall|k: Seq<char>|
                    k != otp_key(verify_otp_dto.email@) ==> (#[trigger] final(cache).has(k))
                        == old(cache).has(k)
                &&& forall|k: Seq<char>|
                    k != otp_key(verify_otp_dto.email@) && old(cache).has(k) ==> (#[trigger] final(cache).val(k)) == old(cache).val(k) && final(cache).exp_of(k) == old(cache).exp_of(
                        k,
                    )
            }),
            old(cache).live(otp_key(verify_otp_dto.email@), now) && old(cache).val(
                otp_key(verify_otp_dto.email@),
            ) != verify_otp_dto.otp@ ==> r.status == 400 && !r.body.success && r.body.message@
                == "Invalid OTP"@ && r.body.data is None && *final(cache) == *old(cache),
    {
        let redis_key = make_otp_key(&verify_otp_dto.email);
        match cache.get(&redis_key, now) {
            Some(stored_otp) => {
                if stored_otp == verify_otp_dto.otp {
                    let deleted = cache.delete(&redis_key);
                    if deleted > 0 {
                        Reply {
                            status: 200,
                            body: ResponseToSend {
                                success: true,
                                message: "OTP verified successfully".to_owned(),
                                data: None,
                            },
                        }
                    } else {
                        handle_internal_server_error("Failed to delete OTP from cache")
                    }
                } else {
                    handle_bad_request("Invalid OTP")
                }
            },
            None => handle_bad_request("OTP not found or expired"),
        }
    }

    /// Login: looks the account up by username, checks the password against
    /// its hash, and on a match issues a session token with its cookie.
    pub fn login_user(store: &UserStore, body: &Login, secret: &[u8], now: u64) -> (r: LoginReply)
        requires
            store.wf(),
            now <= MAX_CLOCK,
        ensures
            !store.has_username(body.username@) ==> r.status == 404 && !r.success
                && r.message@ == "User Not Found"@ && r.token is None && r.cookie is None,
            store.has_username(body.username@) && !bcrypt_matches(
                body.password@,
                store.password_of(body.username@),
            ) ==> r.status == 400 && !r.success && r.message@ == "Password Not Matched"@
                && r.token is None && r.cookie is None,
            store.has_username(body.username@) && bcrypt_matches(
                body.password@,
                store.password_of(body.username@),
            ) ==> ({
                let t = spec_token(
                    store.id_of(body.username@),
                    (now + TOKEN_TTL_SECONDS) as u64,
                    now,
                    secret@,
                );
                &&& r.status == 200
                &&& r.success
                &&& r.message@ == "Signin Successfully"@
                &&& (r.token matches Some(tok) && tok@ == t)
                &&& (r.cookie matches Some(c) && c.name@ == "auth_token"@ && c.value@ == t
                    && c.path@ == "/"@ && c.http_only && c.secure && c.same_site_strict
                    && c.max_age_seconds == TOKEN_TTL_SECONDS)
            }),
    {
        let response = store.get_user_auth(&body.username);
        match response {
            Some(found) => {
                let user = User { id: found.0, password: found.1 };
                let is_password_match = decrypt_password(
                    body.password.as_str(),
                    user.password.as_str(),
                );
                if !is_password_match {
                    return LoginReply {
                        status: 400,
                        success: false,
                        message: "Password Not Matched".to_owned(),
                        token: None,
                        cookie: None,
                    };
                }
                let token = generate_token(user.id.as_str(), secret, now);
                let cookie = Cookie {
                    name: "auth_token".to_owned(),
                    value: token.clone(),
                    path: "/".to_owned(),
                    http_only: true,
                    secure: true,
                    same_site_strict: true,
                    max_age_seconds: TOKEN_TTL_SECONDS,
                };
                LoginReply {
                    status: 200,
                    success: true,
                    message: "Signin Successfully".to_owned(),
                    token: Some(token),
                    cookie: Some(cookie),
                }
            },
            None => LoginReply {
                status: 404,
                success: false,
                message: "User Not Found".to_owned(),
                token: None,
                cookie: None,
            },
        }
    }
}

} // verus!
