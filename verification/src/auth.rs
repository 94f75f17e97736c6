//! Accounts: the signed-in user, session claims, password hashes, and the
//! answers of the sign-in, registration and profile endpoints.
use vstd::prelude::*;
use vstd::utf8::encode_utf8;
use crate::avatar::{avatar_url, generate_avatar_url};
use crate::db::User;
use crate::api::UpdateProfileRequest;
use crate::git_output::opt_view;
use crate::text::has_prefix;

verus! {

/// The claims a session token carries.
pub struct Claims {
    /// The user name.
    pub sub: String,
    pub user_id: i64,
    pub is_admin: bool,
    /// When the token expires, in seconds since the Unix epoch.
    pub exp: usize,
}

/// The user a request is made by, as the session token names them.
pub struct AuthUser {
    pub user_id: i64,
    pub username: String,
    pub is_admin: bool,
}

/// The user a request is made by, when one is signed in.
pub struct OptionalAuthUser(pub Option<AuthUser>);

/// Body of `POST /api/auth/login`.
pub struct LoginRequest {
    pub username: String,
    pub password: String,
}

/// Body of `POST /api/auth/register`.
pub struct RegisterRequest {
    pub username: String,
    pub email: String,
    pub password: String,
    pub display_name: Option<String>,
}

/// What the account endpoints answer.
pub struct AuthResponse {
    pub success: bool,
    pub message: String,
    pub user: Option<UserInfo>,
}

/// The public part of an account.
pub struct UserInfo {
    pub id: i64,
    pub username: String,
    pub email: Option<String>,
    pub display_name: Option<String>,
    pub bio: Option<String>,
    pub avatar_url: Option<String>,
    pub is_admin: bool,
}

/// Why a password could not be hashed or checked.
#[derive(PartialEq, Eq, Structural, Clone, Copy)]
pub enum PasswordError {
    /// bcrypt failed (no randomness, or a malformed stored hash).
    Bcrypt,
}

/// Why no token could be made.
#[derive(PartialEq, Eq, Structural, Clone, Copy)]
pub enum TokenError {
    /// The expiry time is outside the range of dates.
    TimeOutOfRange,
}

#[verifier::external_type_specification]
#[verifier::external_body]
pub struct ExBcryptError(bcrypt::BcryptError);

/// What `bcrypt::verify(password, hash)` answers: whether the password
/// matches, or `None` for an error (a malformed hash).
pub uninterp spec fn bcrypt_verdict(password: Seq<u8>, hash: Seq<char>) -> Option<bool>;

/// `bcrypt::hash(password, DEFAULT_COST)`. The salt is random, so the hash
/// itself is not stated; a hash it returns is 60 characters long (the
/// `$2b$12$` prefix, 22 of salt and 31 of hash), and verifies the same
/// password. It fails only when the system gives no randomness, which is
/// not stated either.
#[verifier::external_body]
fn bcrypt_hash(password: &str) -> (r: Result<String, bcrypt::BcryptError>)
    ensures
        r matches Ok(h) ==> has_prefix(h@, "$2b$12$"@) && h@.len() == 60 && bcrypt_verdict(encode_utf8(password@), h@) == Some(true),
{
    bcrypt::hash(password, bcrypt::DEFAULT_COST)
}

/// `bcrypt::verify(password, hash)`.
#[verifier::external_body]
fn bcrypt_verify(password: &str, hash: &str) -> (r: Result<bool, bcrypt::BcryptError>)
    ensures
        match r {
            Ok(b) => bcrypt_verdict(encode_utf8(password@), hash@) == Some(b),
            Err(_) => bcrypt_verdict(encode_utf8(password@), hash@) is None,
        },
{
    bcrypt::verify(password, hash)
}

/// `chrono::Utc::now().timestamp()`: the current time in seconds since the
/// Unix epoch. It is read from the clock, so nothing is stated of it.
#[verifier::external_body]
fn clock_now() -> (r: i64) {
    chrono::Utc::now().timestamp()
}

/// Hashes a password with bcrypt at the default cost (12), as a
/// `$2b$` hash of 60 characters. Whether it succeeds rests on the system's
/// randomness alone. The hash is never the password in the clear, unless
/// the password itself has the shape of such a hash.
pub fn hash_password(password: &str) -> (r: Result<String, PasswordError>)
    ensures
        r matches Ok(h) ==> hash_matches(password@, h@) && has_prefix(h@, "$2b$12$"@) && h@.len() == 60,
        r matches Ok(h) ==> (!(has_prefix(password@, "$2b$12$"@) && password@.len() == 60) ==> h@ != password@),
{
    match bcrypt_hash(password) {
        Ok(h) => Ok(h),
        Err(_) => Err(PasswordError::Bcrypt),
    }
}

/// Checks a password against a stored bcrypt hash.
pub fn verify_password(password: &str, hash: &str) -> (r: Result<bool, PasswordError>)
    ensures
        match r {
            Ok(b) => bcrypt_verdict(encode_utf8(password@), hash@) == Some(b),
            Err(_) => bcrypt_verdict(encode_utf8(password@), hash@) is None,
        },
{
    match bcrypt_verify(password, hash) {
        Ok(b) => Ok(b),
        Err(_) => Err(PasswordError::Bcrypt),
    }
}

/// Whether `hash` is a bcrypt hash of `password`, as bcrypt checks it.
pub open spec fn hash_matches(password: Seq<char>, hash: Seq<char>) -> bool {
    bcrypt_verdict(encode_utf8(password), hash) == Some(true)
}

/// Whether signing in to account `u` with `password` is accepted.
pub open spec fn sign_in_accepts(u: User, password: Seq<char>) -> bool {
    hash_matches(password, u.password_hash@)
}

/// How long a session lasts: seven days, in seconds.
pub open spec fn session_seconds() -> int {
    604800
}

/// The expiry of a session started at `now` (Unix seconds), as the token's
/// `usize` field holds it.
pub open spec fn session_expiry(now: i64) -> usize {
    (now + session_seconds()) as usize
}

/// The earliest moment `chrono` can represent, in Unix seconds: the start of
/// its first day, in the year -262143.
pub const EARLIEST_TIMESTAMP: i64 = -8334601228800i64;

/// The last whole second `chrono` can represent, in Unix seconds:
/// 23:59:59 on December 31 of the year 262142.
pub const LATEST_TIMESTAMP: i64 = 8210266876799i64;

/// A session started at `now` ends at a moment `chrono` can represent.
pub open spec fn session_in_range(now: i64) -> bool {
    EARLIEST_TIMESTAMP <= now + session_seconds() <= LATEST_TIMESTAMP
}

/// The claims of a session token for a user, issued at `now` (Unix
/// seconds): it expires seven days later. Refused with `TimeOutOfRange`
/// exactly when that moment is outside the dates `chrono` can represent.
pub fn claims_for(username: &str, user_id: i64, is_admin: bool, now: i64) -> (r: Result<Claims, TokenError>)
    ensures
        session_in_range(now) ==> r is Ok && {
            let c = r->Ok_0;
            &&& c.sub@ == username@
            &&& c.user_id == user_id
            &&& c.is_admin == is_admin
            &&& c.exp == session_expiry(now)
        },
        !session_in_range(now) ==> r == Err::<Claims, TokenError>(TokenError::TimeOutOfRange),
{
    if now >= EARLIEST_TIMESTAMP - 604800 && now <= LATEST_TIMESTAMP - 604800 {
        let t = now + 604800;
        Ok(Claims { sub: String::from_str(username), user_id, is_admin, exp: #[verifier::truncate] (t as usize) })
    } else {
        Err(TokenError::TimeOutOfRange)
    }
}

/// The claims of a session token for a user, issued now and valid for seven
/// days. The time is read from the clock, so the clauses speak of some
/// reading `t`: the token expires at `t` plus seven days, a moment `chrono`
/// can represent; a refusal is always `TimeOutOfRange`.
pub fn create_claims(username: &str, user_id: i64, is_admin: bool) -> (r: Result<Claims, TokenError>)
    ensures
        r matches Ok(c) ==> c.sub@ == username@ && c.user_id == user_id && c.is_admin == is_admin
            && exists|t: i64| c.exp == #[trigger] session_expiry(t) && session_in_range(t),
        r is Err ==> r == Err::<Claims, TokenError>(TokenError::TimeOutOfRange),
{
    let now = clock_now();
    claims_for(username, user_id, is_admin, now)
}

/// The user that a token's claims name.
pub open spec fn user_of_claims(u: AuthUser, c: Claims) -> bool {
    u.user_id == c.user_id && u.username@ == c.sub@ && u.is_admin == c.is_admin
}

/// A 401 refusal with the given message.
pub open spec fn refused_with(r: Result<AuthUser, AuthReply>, message: Seq<char>) -> bool {
    match r {
        Err(e) => e.status == 401 && e.message@ == message,
        Ok(_) => false,
    }
}

/// The user named by the claims of a valid token.
pub fn user_from_claims(claims: Claims) -> (r: AuthUser)
    ensures
        user_of_claims(r, claims),
{
    AuthUser { user_id: claims.user_id, username: claims.sub, is_admin: claims.is_admin }
}

/// A refusal of the endpoints that require a signed-in user.
pub struct AuthReply {
    pub status: u16,
    pub message: String,
}

/// The signed-in user of a request that requires one: none without a token
/// (401 `Unauthorized`), none with a token that does not decode to claims
/// (401 `Invalid token`). `decoded` is the outcome of decoding the token.
pub fn required_user(has_token: bool, decoded: Option<Claims>) -> (r: Result<AuthUser, AuthReply>)
    ensures
        !has_token ==> refused_with(r, "Unauthorized"@),
        has_token && decoded is None ==> refused_with(r, "Invalid token"@),
        has_token && decoded is Some ==> r is Ok && user_of_claims(r->Ok_0, decoded->0),
{
    if !has_token {
        return Err(AuthReply { status: 401, message: String::from_str("Unauthorized") });
    }
    match decoded {
        None => Err(AuthReply { status: 401, message: String::from_str("Invalid token") }),
        Some(c) => Ok(user_from_claims(c)),
    }
}

/// The signed-in user of a request where signing in is optional: nobody
/// without a token or with a token that does not decode.
pub fn optional_user(has_token: bool, decoded: Option<Claims>) -> (r: OptionalAuthUser)
    ensures
        !has_token || decoded is None ==> r.0 is None,
        has_token && decoded is Some ==> r.0 is Some && user_of_claims(r.0->0, decoded->0),
{
    if !has_token {
        return OptionalAuthUser(None);
    }
    match decoded {
        None => OptionalAuthUser(None),
        Some(c) => OptionalAuthUser(Some(user_from_claims(c))),
    }
}

/// The public part of an account record.
pub open spec fn user_info_of(i: UserInfo, u: User) -> bool {
    &&& i.id == u.id
    &&& i.username@ == u.username@
    &&& opt_view(i.email) == opt_view(u.email)
    &&& opt_view(i.display_name) == opt_view(u.display_name)
    &&& opt_view(i.bio) == opt_view(u.bio)
    &&& opt_view(i.avatar_url) == opt_view(u.avatar_url)
    &&& i.is_admin == u.is_admin
}

/// The public part of an account record.
pub fn user_info(u: User) -> (r: UserInfo)
    ensures
        user_info_of(r, u),
{
    UserInfo {
        id: u.id,
        username: u.username,
        email: u.email,
        display_name: u.display_name,
        bio: u.bio,
        avatar_url: u.avatar_url,
        is_admin: u.is_admin,
    }
}

/// A failed answer: HTTP status and message, no user.
pub open spec fn failure(r: (u16, AuthResponse), status: u16, message: Seq<char>) -> bool {
    r.0 == status && !r.1.success && r.1.message@ == message && r.1.user is None
}

/// A result that is a failed answer with the given status and message.
pub open spec fn fails_with<T>(r: Result<T, (u16, AuthResponse)>, status: u16, message: Seq<char>) -> bool {
    match r {
        Err(f) => failure(f, status, message),
        Ok(_) => false,
    }
}

/// A successful answer with the given message, carrying the account `u`.
pub open spec fn answers_user(a: AuthResponse, message: Seq<char>, u: User) -> bool {
    &&& a.success
    &&& a.message@ == message
    &&& match a.user {
        Some(i) => user_info_of(i, u),
        None => false,
    }
}

fn fail(status: u16, message: &str) -> (r: (u16, AuthResponse))
    ensures
        failure(r, status, message@),
{
    (status, AuthResponse { success: false, message: String::from_str(message), user: None })
}

/// The user a sign-in is for, or why it fails: a database error (500
/// `Database error`), an unknown name (401), a stored hash bcrypt cannot read
/// (500 `Password verification error`), or a wrong password (401 `Invalid
/// username or password`). `lookup` is the outcome of finding the user by name.
pub fn login_check(lookup: Result<Option<User>, ()>, password: &str) -> (r: Result<User, (u16, AuthResponse)>)
    ensures
        lookup is Err ==> fails_with(r, 500, "Database error"@),
        lookup matches Ok(None) ==> fails_with(r, 401, "Invalid username or password"@),
        lookup matches Ok(Some(u)) ==> (r is Ok <==> sign_in_accepts(u, password@)),
        lookup matches Ok(Some(u)) ==> match bcrypt_verdict(encode_utf8(password@), u.password_hash@) {
            None => fails_with(r, 500, "Password verification error"@),
            Some(false) => fails_with(r, 401, "Invalid username or password"@),
            Some(true) => r == Ok::<User, (u16, AuthResponse)>(u),
        },
{
    match lookup {
        Err(_) => Err(fail(500, "Database error")),
        Ok(None) => Err(fail(401, "Invalid username or password")),
        Ok(Some(u)) => {
            match verify_password(password, u.password_hash.as_str()) {
                Err(_) => Err(fail(500, "Password verification error")),
                Ok(false) => Err(fail(401, "Invalid username or password")),
                Ok(true) => Ok(u),
            }
        },
    }
}

/// The answer of a successful sign-in.
pub fn login_success(u: User) -> (r: AuthResponse)
    ensures
        answers_user(r, "Login successful"@, u),
{
    AuthResponse { success: true, message: String::from_str("Login successful"), user: Some(user_info(u)) }
}

/// A user name is accepted when it has 1 to 50 bytes.
pub open spec fn username_ok(name: Seq<char>) -> bool {
    0 < encode_utf8(name).len() <= 50
}

/// The refusal of a registration whose user name has the wrong length.
pub fn check_username(username: &str) -> (r: Option<(u16, AuthResponse)>)
    ensures
        username_ok(username@) ==> r is None,
        !username_ok(username@) ==> r is Some && failure(r->0, 400, "Username must be between 1 and 50 characters"@),
{
    let n = username.as_bytes().len();
    if n == 0 || n > 50 {
        Some(fail(400, "Username must be between 1 and 50 characters"))
    } else {
        None
    }
}

/// After looking the name up: refused when the lookup failed (500) or the
/// name is taken (409); otherwise the password is hashed (500 when that
/// fails). `existing` is whether a user with the name exists.
pub fn registration_hash(existing: Result<bool, ()>, password: &str) -> (r: Result<String, (u16, AuthResponse)>)
    ensures
        existing is Err ==> fails_with(r, 500, "Database error"@),
        existing == Ok::<bool, ()>(true) ==> fails_with(r, 409, "Username already exists"@),
        existing == Ok::<bool, ()>(false) ==> match r {
            Ok(h) => hash_matches(password@, h@),
            Err(f) => failure(f, 500, "Failed to hash password"@),
        },
{
    match existing {
        Err(_) => Err(fail(500, "Database error")),
        Ok(true) => Err(fail(409, "Username already exists")),
        Ok(false) => match hash_password(password) {
            Ok(h) => Ok(h),
            Err(_) => Err(fail(500, "Failed to hash password")),
        },
    }
}

/// The answer of a registration of `req` as user `id`, with the default
/// avatar that is stored for the new account.
pub open spec fn registered(ok: (String, AuthResponse), req: RegisterRequest, id: i64) -> bool {
    &&& ok.0@ == avatar_url(req.username@, id)
    &&& ok.1.success
    &&& ok.1.message@ == "Registration successful"@
    &&& match ok.1.user {
        Some(i) => {
            &&& i.id == id
            &&& i.username@ == req.username@
            &&& opt_view(i.email) == Some(req.email@)
            &&& opt_view(i.display_name) == opt_view(req.display_name)
            &&& i.bio is None
            &&& opt_view(i.avatar_url) == Some(avatar_url(req.username@, id))
            &&& !i.is_admin
        },
        None => false,
    }
}

/// The answer of a registration: refused when the user could not be
/// created (500); otherwise the new account, not an administrator, with
/// its default avatar, which is also returned to be stored.
pub fn registration_done(req: RegisterRequest, created: Result<i64, ()>) -> (r: Result<(String, AuthResponse), (u16, AuthResponse)>)
    ensures
        created is Err ==> fails_with(r, 500, "Failed to create user"@),
        created matches Ok(id) ==> r is Ok && registered(r->Ok_0, req, id),
{
    match created {
        Err(_) => Err(fail(500, "Failed to create user")),
        Ok(id) => {
            let avatar = generate_avatar_url(req.username.as_str(), id);
            let info = UserInfo {
                id,
                username: req.username,
                email: Some(req.email),
                display_name: req.display_name,
                bio: None,
                avatar_url: Some(avatar.clone()),
                is_admin: false,
            };
            Ok((avatar, AuthResponse { success: true, message: String::from_str("Registration successful"), user: Some(info) }))
        },
    }
}

/// The answer of `GET /api/auth/me` once the token decoded: the account, or
/// 500 on a database error, or 401 when the account is gone.
pub fn current_user_reply(lookup: Result<Option<User>, ()>) -> (r: Result<AuthResponse, (u16, AuthResponse)>)
    ensures
        lookup is Err ==> fails_with(r, 500, "Database error"@),
        lookup matches Ok(None) ==> fails_with(r, 401, "User not found"@),
        lookup matches Ok(Some(u)) ==> r is Ok && answers_user(r->Ok_0, "Authenticated"@, u),
{
    match lookup {
        Err(_) => Err(fail(500, "Database error")),
        Ok(None) => Err(fail(401, "User not found")),
        Ok(Some(u)) => Ok(AuthResponse { success: true, message: String::from_str("Authenticated"), user: Some(user_info(u)) }),
    }
}

/// The refusal of `GET /api/auth/me` before any lookup: no token (401 `Not
/// authenticated`) or a token that does not decode (401 `Invalid token`).
pub fn current_user_token(has_token: bool, decoded: Option<Claims>) -> (r: Result<i64, (u16, AuthResponse)>)
    ensures
        !has_token ==> fails_with(r, 401, "Not authenticated"@),
        has_token && decoded is None ==> fails_with(r, 401, "Invalid token"@),
        has_token && decoded is Some ==> r == Ok::<i64, (u16, AuthResponse)>(decoded->0.user_id),
{
    if !has_token {
        return Err(fail(401, "Not authenticated"));
    }
    match decoded {
        None => Err(fail(401, "Invalid token")),
        Some(c) => Ok(c.user_id),
    }
}

/// The answer of a profile update: refused when the update failed (500),
/// the account could not be read back (500) or is gone (404); otherwise
/// the account as stored now.
pub fn profile_reply(updated: Result<(), ()>, lookup: Result<Option<User>, ()>) -> (r: Result<AuthResponse, (u16, AuthResponse)>)
    ensures
        updated is Err ==> fails_with(r, 500, "Failed to update profile"@),
        updated is Ok && lookup is Err ==> fails_with(r, 500, "Failed to fetch updated user"@),
        updated is Ok && lookup == Ok::<Option<User>, ()>(None) ==> fails_with(r, 404, "User not found"@),
        updated is Ok ==> (lookup matches Ok(Some(u)) ==> r is Ok && answers_user(r->Ok_0, "Profile updated successfully"@, u)),
{
    match updated {
        Err(_) => Err(fail(500, "Failed to update profile")),
        Ok(_) => match lookup {
            Err(_) => Err(fail(500, "Failed to fetch updated user")),
            Ok(None) => Err(fail(404, "User not found")),
            Ok(Some(u)) => Ok(AuthResponse { success: true, message: String::from_str("Profile updated successfully"), user: Some(user_info(u)) }),
        },
    }
}

/// The answer of a sign-out.
pub fn logout_reply() -> (r: AuthResponse)
    ensures
        r.success,
        r.message@ == "Logout successful"@,
        r.user is None,
{
    AuthResponse { success: true, message: String::from_str("Logout successful"), user: None }
}

/// The profile columns an update writes: display name, bio, location and
/// website, in that order.
pub struct ProfileColumns {
    pub display_name: Option<String>,
    pub bio: Option<String>,
    pub location: Option<String>,
    pub website: Option<String>,
}

/// The columns a profile update writes: the request's display name, e-mail,
/// bio and avatar, in that order, into display name, bio, location and
/// website.
pub fn profile_columns(req: UpdateProfileRequest) -> (r: ProfileColumns)
    ensures
        opt_view(r.display_name) == opt_view(req.display_name),
        opt_view(r.bio) == opt_view(req.email),
        opt_view(r.location) == opt_view(req.bio),
        opt_view(r.website) == opt_view(req.avatar_url),
{
    ProfileColumns { display_name: req.display_name, bio: req.email, location: req.bio, website: req.avatar_url }
}

/// The columns written for a new account: its display name, and its avatar
/// in the fourth column (website); bio and location stay empty.
pub fn registration_columns(display_name: Option<String>, avatar: String) -> (r: ProfileColumns)
    ensures
        opt_view(r.display_name) == opt_view(display_name),
        r.bio is None,
        r.location is None,
        opt_view(r.website) == Some(avatar@),
{
    ProfileColumns { display_name, bio: None, location: None, website: Some(avatar) }
}

/// Registering and then signing in with the same password is accepted:
/// once the hash that registration made is stored for the account, a
/// sign-in with that password passes the password check.
pub proof fn law_register_then_login(password: Seq<char>, hash: Seq<char>, u: User)
    requires
        hash_matches(password, hash),
        u.password_hash@ == hash,
    ensures
        sign_in_accepts(u, password),
{
}

} // verus!
