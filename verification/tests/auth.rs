use gitclub::auth::{
    claims_for, check_username, create_claims, current_user_reply, current_user_token, hash_password,
    login_check, login_success, logout_reply, optional_user, profile_reply, registration_done,
    registration_hash, required_user, user_from_claims, verify_password, Claims, RegisterRequest,
};
use gitclub::avatar::generate_avatar_url;
use gitclub::auth::TokenError;
use gitclub::db::User;

fn user(id: i64, name: &str, hash: &str) -> User {
    User {
        id,
        username: name.to_string(),
        password_hash: hash.to_string(),
        email: Some("a@x".to_string()),
        is_admin: false,
        display_name: None,
        avatar_url: None,
        bio: Some("hi".to_string()),
        location: None,
        website: None,
        repos_folder: None,
        created_at: String::new(),
        updated_at: String::new(),
    }
}

fn claims() -> Claims {
    Claims { sub: "alice".to_string(), user_id: 7, is_admin: false, exp: 0 }
}

#[test]
fn hash_then_verify() {
    let h = hash_password("s3cret").ok().unwrap();
    assert!(h.starts_with("$2b$12$"));
    assert_eq!(h.len(), 60);
    assert_ne!(h, "s3cret");
    assert_eq!(verify_password("s3cret", &h).ok(), Some(true));
    assert_eq!(verify_password("wrong", &h).ok(), Some(false));
    assert!(verify_password("s3cret", "not a hash").is_err());
}

#[test]
fn register_then_login() {
    let h = registration_hash(Ok(false), "pw").ok().unwrap();
    let u = user(3, "alice", &h);
    let ok = login_check(Ok(Some(u)), "pw").ok().unwrap();
    assert_eq!(ok.id, 3);
    let u = user(3, "alice", &h);
    let (status, resp) = login_check(Ok(Some(u)), "other").err().unwrap();
    assert_eq!((status, resp.success, resp.message.as_str()), (401, false, "Invalid username or password"));
}

#[test]
fn login_failures() {
    let (s, r) = login_check(Err(()), "pw").err().unwrap();
    assert_eq!((s, r.message.as_str()), (500, "Database error"));
    let (s, r) = login_check(Ok(None), "pw").err().unwrap();
    assert_eq!((s, r.message.as_str()), (401, "Invalid username or password"));
    let (s, r) = login_check(Ok(Some(user(1, "a", "garbage"))), "pw").err().unwrap();
    assert_eq!((s, r.message.as_str()), (500, "Password verification error"));
    let r = login_success(user(1, "a", ""));
    assert!(r.success);
    assert_eq!(r.message, "Login successful");
    let info = r.user.unwrap();
    assert_eq!((info.id, info.username.as_str(), info.bio.as_deref()), (1, "a", Some("hi")));
}

#[test]
fn registration_checks() {
    assert!(check_username("alice").is_none());
    let (s, r) = check_username("").unwrap();
    assert_eq!((s, r.message.as_str()), (400, "Username must be between 1 and 50 characters"));
    assert!(check_username(&"x".repeat(50)).is_none());
    assert!(check_username(&"x".repeat(51)).is_some());
    // Bytes are counted, not characters.
    assert!(check_username(&"用".repeat(17)).is_some());
    let (s, r) = registration_hash(Ok(true), "pw").err().unwrap();
    assert_eq!((s, r.message.as_str()), (409, "Username already exists"));
    let (s, _) = registration_hash(Err(()), "pw").err().unwrap();
    assert_eq!(s, 500);
}

#[test]
fn registration_answer() {
    let req = RegisterRequest {
        username: "bob".to_string(),
        email: "b@x".to_string(),
        password: "pw".to_string(),
        display_name: Some("Bob".to_string()),
    };
    let (avatar, resp) = registration_done(req, Ok(12)).ok().unwrap();
    assert_eq!(avatar, generate_avatar_url("bob", 12));
    assert_eq!(resp.message, "Registration successful");
    let info = resp.user.unwrap();
    assert_eq!((info.id, info.email.as_deref(), info.display_name.as_deref()), (12, Some("b@x"), Some("Bob")));
    assert_eq!(info.avatar_url, Some(avatar));
    assert!(!info.is_admin && info.bio.is_none());
    let req = RegisterRequest { username: "c".to_string(), email: "e".to_string(), password: "p".to_string(), display_name: None };
    let (s, r) = registration_done(req, Err(())).err().unwrap();
    assert_eq!((s, r.message.as_str()), (500, "Failed to create user"));
}

#[test]
fn token_users() {
    let u = user_from_claims(claims());
    assert_eq!((u.user_id, u.username.as_str(), u.is_admin), (7, "alice", false));
    let e = required_user(false, None).err().unwrap();
    assert_eq!((e.status, e.message.as_str()), (401, "Unauthorized"));
    let e = required_user(true, None).err().unwrap();
    assert_eq!((e.status, e.message.as_str()), (401, "Invalid token"));
    assert_eq!(required_user(true, Some(claims())).ok().unwrap().user_id, 7);
    assert!(optional_user(false, Some(claims())).0.is_none());
    assert!(optional_user(true, None).0.is_none());
    assert_eq!(optional_user(true, Some(claims())).0.unwrap().username, "alice");
    let c = create_claims("dave", 4, true).ok().unwrap();
    assert_eq!((c.sub.as_str(), c.user_id, c.is_admin), ("dave", 4, true));
    let now = std::time::SystemTime::now()
        .duration_since(std::time::UNIX_EPOCH)
        .unwrap()
        .as_secs() as usize;
    assert!(c.exp >= now + 604_800 - 5 && c.exp <= now + 604_800 + 5);
}

#[test]
fn current_user_and_profile() {
    let (s, r) = current_user_token(false, None).err().unwrap();
    assert_eq!((s, r.message.as_str()), (401, "Not authenticated"));
    let (s, r) = current_user_token(true, None).err().unwrap();
    assert_eq!((s, r.message.as_str()), (401, "Invalid token"));
    assert_eq!(current_user_token(true, Some(claims())).ok(), Some(7));
    let r = current_user_reply(Ok(Some(user(7, "alice", "")))).ok().unwrap();
    assert_eq!(r.message, "Authenticated");
    let (s, r) = current_user_reply(Ok(None)).err().unwrap();
    assert_eq!((s, r.message.as_str()), (401, "User not found"));
    let (s, _) = profile_reply(Err(()), Ok(None)).err().unwrap();
    assert_eq!(s, 500);
    let (s, r) = profile_reply(Ok(()), Ok(None)).err().unwrap();
    assert_eq!((s, r.message.as_str()), (404, "User not found"));
    let (s, r) = profile_reply(Ok(()), Err(())).err().unwrap();
    assert_eq!((s, r.message.as_str()), (500, "Failed to fetch updated user"));
    let r = profile_reply(Ok(()), Ok(Some(user(7, "alice", "")))).ok().unwrap();
    assert_eq!(r.message, "Profile updated successfully");
    let r = logout_reply();
    assert!(r.success && r.user.is_none());
    assert_eq!(r.message, "Logout successful");
}

#[test]
fn claims_from_expiry() {
    let c = claims_for("erin", 9, false, 1_700_000_000).ok().unwrap();
    assert_eq!((c.sub.as_str(), c.user_id, c.is_admin, c.exp), ("erin", 9, false, 1_700_604_800));
    assert!(matches!(claims_for("erin", 9, false, i64::MAX - 10), Err(TokenError::TimeOutOfRange)));
    let latest = chrono::DateTime::<chrono::Utc>::MAX_UTC.timestamp();
    let earliest = chrono::DateTime::<chrono::Utc>::MIN_UTC.timestamp();
    assert_eq!(latest, gitclub::auth::LATEST_TIMESTAMP);
    assert_eq!(earliest, gitclub::auth::EARLIEST_TIMESTAMP);
    assert!(claims_for("erin", 9, false, latest - 604_800).is_ok());
    assert!(matches!(claims_for("erin", 9, false, latest - 604_799), Err(TokenError::TimeOutOfRange)));
    assert!(claims_for("erin", 9, false, earliest - 604_800).is_ok());
    assert!(matches!(claims_for("erin", 9, false, earliest - 604_801), Err(TokenError::TimeOutOfRange)));
    // The clock's own check agrees at the top of the range.
    let at = chrono::DateTime::from_timestamp(latest - 604_800, 999_999_999).unwrap();
    assert!(at.checked_add_signed(chrono::Duration::days(7)).is_some());
    let past = chrono::DateTime::from_timestamp(latest - 604_799, 0).unwrap();
    assert!(past.checked_add_signed(chrono::Duration::days(7)).is_none());
}
