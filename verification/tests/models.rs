use lempek_assets::auth::{
    blank, hash_or_failure, judge_tokens, session_alive, AccountError, AdminData,
    ChangePasswordData, JWTData, LoginData, RefreshTokenData, Refusal, RemoveTokenData, Session,
    TokenState, UserAdminError, ACCESS_TOKEN_SECONDS, HASH_CHARS, REFRESH_TOKEN_SECONDS,
};
use lempek_assets::cors::{chars_of, options_handler, Cors};
use lempek_assets::models::{respond, ApiResponse, ErrorKind, Failure, Reply, Status, UserData};

#[test]
fn status_codes() {
    let codes = [
        (Status::Success, 200),
        (Status::Created, 201),
        (Status::NoContent, 204),
        (Status::BadRequest, 400),
        (Status::Unauthorized, 401),
        (Status::Forbidden, 403),
        (Status::NotFound, 404),
        (Status::Conflict, 409),
        (Status::InternalServerError, 500),
    ];
    for (status, code) in codes {
        assert_eq!(status.code(), code);
    }
}

#[test]
fn every_kind_of_failure_has_its_status() {
    let expect = [
        (ErrorKind::InvalidName, 403),
        (ErrorKind::Forbidden, 403),
        (ErrorKind::Conflict, 409),
        (ErrorKind::NotFound, 404),
        (ErrorKind::StorageFault, 500),
        (ErrorKind::PartialFailure, 500),
        (ErrorKind::DatabaseFault, 500),
    ];
    for (kind, code) in expect {
        assert_eq!(kind.status().code(), code, "{kind:?}");
    }
}

#[test]
fn success_bodies() {
    let bare = ApiResponse::success();
    assert!(bare.success);
    assert_eq!(bare.err_id, None);
    assert_eq!(bare.detail, None);
    let with = ApiResponse::success_with("renamed folder");
    assert!(with.success);
    assert_eq!(with.err_id, None);
    assert_eq!(with.detail.as_deref(), Some("renamed folder"));
}

fn looks_like_an_identifier(id: &str) -> bool {
    id.len() == 36
        && id.char_indices().all(|(i, c)| match i {
            8 | 13 | 18 | 23 => c == '-',
            _ => c.is_ascii_hexdigit() && !c.is_ascii_uppercase(),
        })
}

#[test]
fn failure_bodies_carry_a_fresh_identifier() {
    let (status, body) = ApiResponse::fail(Status::Conflict, "folder with this name already exists");
    assert_eq!(status, Status::Conflict);
    assert!(!body.success);
    assert_eq!(body.detail.as_deref(), Some("folder with this name already exists"));
    let first = body.err_id.unwrap();
    assert!(looks_like_an_identifier(&first), "{first}");
    // version 7
    assert_eq!(first.as_bytes()[14], b'7');
    let second = ApiResponse::no_success("x").err_id.unwrap();
    assert!(looks_like_an_identifier(&second));
    assert_ne!(first, second);
    assert_ne!(first, "folder with this name already exists");
}

#[test]
fn responding_to_a_success() {
    let result = Ok(Reply { status: Status::Created, message: "created folder named: \"a\"".to_string() });
    let (status, body) = respond(&result);
    assert_eq!(status, Status::Created);
    assert!(body.success);
    assert_eq!(body.err_id, None);
    assert_eq!(body.detail.as_deref(), Some("created folder named: \"a\""));
}

#[test]
fn responding_to_a_failure_keeps_the_orphaned_path_on_the_server() {
    let failure = Failure::partial("error while deleting folder", vec!["secret".to_string(), "dir".to_string()]);
    assert_eq!(failure.kind, ErrorKind::PartialFailure);
    let (status, body) = respond(&Err(failure));
    assert_eq!(status, Status::InternalServerError);
    assert!(!body.success);
    assert_eq!(body.detail.as_deref(), Some("error while deleting folder"));
    let shown = format!("{:?}{:?}", body.detail, body.err_id);
    assert!(!shown.contains("secret"));
    assert!(body.err_id.is_some());

    let plain = Failure::new(ErrorKind::NotFound, "file not found");
    assert!(plain.orphan.is_none());
    let (status, body) = respond(&Err(plain));
    assert_eq!(status.code(), 404);
    assert_eq!(body.detail.as_deref(), Some("file not found"));
}

#[test]
fn credentials_need_a_login_and_eight_bytes_of_password() {
    let ok = |login: &str, password: &str| {
        LoginData { login: login.to_string(), password: password.to_string() }.well_formed()
    };
    assert!(ok("alice", "12345678"));
    assert!(ok(" alice ", "123456789"));
    assert!(!ok("alice", "1234567"));
    assert!(!ok("", "12345678"));
    assert!(!ok("   ", "12345678"));
    assert!(!ok("\t\n\u{a0}\u{3000}", "12345678"));
    assert!(ok("\u{200b}", "12345678")); // zero width space is no white space
    assert!(ok("a", "éééé")); // four characters, eight bytes
    assert!(!ok("a", "ééé1"));
    assert!(blank(""));
    assert!(blank(" \r\n"));
    assert!(!blank(" x "));
}

#[test]
fn password_change_needs_the_present_password_and_a_long_enough_new_one() {
    let ok = |current: &str, new: &str| {
        ChangePasswordData { current_password: current.to_string(), new_password: new.to_string() }
            .well_formed()
    };
    assert!(ok("x", "12345678"));
    assert!(ok(" ", "12345678"));
    assert!(!ok("", "12345678"));
    assert!(!ok("old-password", "1234567"));
}

#[test]
fn tokens_run_out() {
    assert_eq!(ACCESS_TOKEN_SECONDS, 5 * 60);
    assert_eq!(REFRESH_TOKEN_SECONDS, 30 * 24 * 60 * 60);
    let claims = JWTData::issue("payload", 1_000, ACCESS_TOKEN_SECONDS).unwrap();
    assert_eq!(claims.exp, 1_300);
    assert_eq!(claims.data, "payload");
    assert!(!claims.expired(1_000));
    assert!(!claims.expired(1_299));
    assert!(claims.expired(1_300));
    assert!(claims.expired(1_301));
    assert!(!claims.expired(-5));
    let refresh = JWTData::issue(
        RefreshTokenData { user_id: 1, refresh_token: 2, stay_logged_in: true },
        0,
        REFRESH_TOKEN_SECONDS,
    )
    .unwrap();
    assert_eq!(refresh.exp, 2_592_000);
    assert!(JWTData::issue((), i64::MAX, 1).is_none());
    assert!(JWTData::issue((), -10, 5).is_none());
    assert_eq!(JWTData::issue((), -10, 10).unwrap().exp, 0);
    assert_eq!(RemoveTokenData { id: 3 }, RemoveTokenData { id: 3 });
}

#[test]
fn only_administrators_become_admin_data() {
    let plain = UserData { user_id: 3, login: "l".to_string(), username: "n".to_string(), admin: false };
    let err = AdminData::try_from(plain).unwrap_err();
    assert_eq!(err, UserAdminError);
    assert_eq!(err.message(), "User does not have admin rights");
    let boss = UserData { user_id: 4, login: "b".to_string(), username: "B".to_string(), admin: true };
    let admin = AdminData::try_from(boss).unwrap();
    assert_eq!((admin.user_id, admin.login.as_str(), admin.username.as_str()), (4, "b", "B"));
    let back = admin.into_user();
    assert!(back.admin);
    assert_eq!(back.user_id, 4);
}

#[test]
fn preflight_is_always_answered_with_success() {
    assert_eq!(options_handler(), Status::Success);
    assert_eq!(options_handler().code(), 200);
}

#[test]
fn logins_are_decided_by_the_stored_hash() {
    let data = LoginData { login: "alice".to_string(), password: "correct horse".to_string() };
    let stored = data.hashed().unwrap();
    assert!(stored.starts_with("$2b$12$"));
    assert_ne!(stored, "correct horse");
    assert_ne!(stored, data.hashed().unwrap());
    assert_eq!(data.check(Some(&stored)), Ok(()));
    let wrong = LoginData { login: "alice".to_string(), password: "battery staple".to_string() };
    assert_eq!(wrong.check(Some(&stored)), Err(AccountError::WrongLoginOrPassword));
    assert_eq!(data.check(None), Err(AccountError::WrongLoginOrPassword));
    assert_eq!(data.check(Some("not a hash")), Err(AccountError::Internal));
    // a hash made elsewhere, of the password "password"
    let known = bcrypt::hash("password", 4).unwrap();
    let guess = LoginData { login: "x".to_string(), password: "password".to_string() };
    assert_eq!(guess.check(Some(&known)), Ok(()));

    assert_eq!(data.may_log_in(false), Ok(()));
    assert_eq!(data.may_log_in(true), Err(AccountError::AlreadyLoggedIn));
    let short = LoginData { login: "alice".to_string(), password: "short".to_string() };
    assert_eq!(short.may_log_in(false), Err(AccountError::InvalidCredentials));
    assert_eq!(short.may_log_in(true), Err(AccountError::AlreadyLoggedIn));
    assert_eq!(short.hashed(), Err(AccountError::InvalidCredentials));
    assert_eq!(LoginData::judge(true, Some(true)), Ok(()));
    assert_eq!(LoginData::judge(false, Some(true)), Err(AccountError::WrongLoginOrPassword));
    assert_eq!(LoginData::judge(true, None), Err(AccountError::Internal));
}

#[test]
fn password_changes_are_decided_by_the_stored_hash() {
    let old = LoginData { login: "a".to_string(), password: "old password".to_string() };
    let stored = old.hashed().unwrap();
    let change = |current: &str, new: &str| ChangePasswordData {
        current_password: current.to_string(),
        new_password: new.to_string(),
    };
    assert_eq!(change("old password", "new password").check(&stored), Ok(()));
    assert_eq!(
        change("other password", "new password").check(&stored),
        Err(AccountError::WrongCurrentPassword)
    );
    assert_eq!(change("old password", "short").check(&stored), Err(AccountError::PasswordTooShort));
    assert_eq!(change("", "new password").check(&stored), Err(AccountError::PasswordTooShort));
    assert_eq!(change("old password", "new password").check("garbage"), Err(AccountError::Internal));
    let hashed = change("old password", "new password").hashed().unwrap();
    let renewed = LoginData { login: "a".to_string(), password: "new password".to_string() };
    assert_eq!(renewed.check(Some(&hashed)), Ok(()));
    assert_eq!(old.check(Some(&hashed)), Err(AccountError::WrongLoginOrPassword));
}

#[test]
fn the_hash_of_a_new_password_verifies_that_password() {
    let data = ChangePasswordData {
        current_password: "old password".to_string(),
        new_password: "new password".to_string(),
    };
    let stored = data.hashed().unwrap();
    assert_eq!(HASH_CHARS, 60);
    assert_eq!(stored.chars().count(), HASH_CHARS);
    assert!(stored.starts_with("$2b$12$"));
    assert_ne!(stored, "new password");
    assert_eq!(bcrypt::verify("new password", &stored).unwrap(), true);
    // the next change of password is checked against what was stored
    let next = ChangePasswordData {
        current_password: "new password".to_string(),
        new_password: "newer password".to_string(),
    };
    assert_eq!(next.check(&stored), Ok(()));
}

#[test]
fn long_and_odd_passwords_are_hashed_too() {
    let long = "x".repeat(100);
    let odd = "za\u{17c}\u{f3}\u{142}\u{107} $2b$ g\u{119}\u{15b}l\u{105}";
    for password in [long.as_str(), odd] {
        let data = ChangePasswordData {
            current_password: "old password".to_string(),
            new_password: password.to_string(),
        };
        let stored = data.hashed().unwrap();
        assert_eq!(stored.chars().count(), HASH_CHARS);
        assert_eq!(bcrypt::verify(password, &stored).unwrap(), true);
    }
}

#[test]
fn a_hash_that_was_made_is_handed_on() {
    assert_eq!(hash_or_failure(Some("$2b$".to_string())), Ok("$2b$".to_string()));
    assert_eq!(hash_or_failure(Some(String::new())), Ok(String::new()));
    assert_eq!(hash_or_failure(None), Err(AccountError::Internal));
}

#[test]
fn account_errors_have_their_status_and_message() {
    let expect = [
        (AccountError::AlreadyLoggedIn, 409, "you are already logged in"),
        (AccountError::InvalidCredentials, 400, "invalid credentials format"),
        (AccountError::WrongLoginOrPassword, 400, "wrong login or password"),
        (AccountError::PasswordTooShort, 400, "password must have at least 8 characters"),
        (AccountError::WrongCurrentPassword, 400, "wrong current password"),
        (AccountError::Internal, 500, "internal server error"),
    ];
    for (e, code, message) in expect {
        assert_eq!(e.status().code(), code);
        assert_eq!(e.message(), message);
    }
}

#[test]
fn tokens_decide_who_is_let_in() {
    let (absent, valid, expired, malformed, unreadable) = (
        TokenState::Absent,
        TokenState::Valid,
        TokenState::Expired,
        TokenState::Malformed,
        TokenState::Unreadable,
    );
    let not_authenticated = Session::Refuse(Refusal::NotAuthenticated);
    let error = Session::Refuse(Refusal::AuthenticationError);
    for access in [absent, valid, expired, malformed, unreadable] {
        assert_eq!(judge_tokens(access, absent), not_authenticated);
    }
    for refresh in [valid, expired, malformed, unreadable] {
        assert_eq!(judge_tokens(valid, refresh), Session::Accept);
        assert_eq!(judge_tokens(malformed, refresh), not_authenticated);
        assert_eq!(judge_tokens(unreadable, refresh), error);
    }
    for access in [absent, expired] {
        assert_eq!(judge_tokens(access, valid), Session::Renew);
        assert_eq!(judge_tokens(access, malformed), not_authenticated);
        assert_eq!(judge_tokens(access, expired), error);
        assert_eq!(judge_tokens(access, unreadable), error);
    }
    assert_eq!(Refusal::NotAuthenticated.message(), "you are not authenticated");
    assert_eq!(Refusal::AuthenticationError.message(), "authentication error");
    assert_eq!(Refusal::NotAuthenticated.status(), Status::Unauthorized);
    assert_eq!(Refusal::AuthenticationError.status().code(), 401);
    assert!(session_alive(Some(100), 99));
    assert!(session_alive(Some(100), 100));
    assert!(!session_alive(Some(100), 101));
    assert!(!session_alive(None, 0));
}

#[test]
fn origins_are_allowed_entry_by_entry() {
    let list = "https://a.example,https://b.example,http://localhost:3000";
    assert!(Cors::allows(list, "https://a.example"));
    assert!(Cors::allows(list, "https://b.example"));
    assert!(Cors::allows(list, "http://localhost:3000"));
    assert!(!Cors::allows(list, "https://c.example"));
    assert!(!Cors::allows(list, "https://a.example,https://b.example"));
    assert!(!Cors::allows(list, "https://a.exampl"));
    assert!(!Cors::allows(list, "ttps://b.example"));
    assert!(!Cors::allows(list, "localhost:3000"));
    assert!(!Cors::allows(list, ""));
    assert!(!Cors::allows(list, ","));
    // the empty list has one entry, the empty one
    assert!(Cors::allows("", ""));
    assert!(!Cors::allows("", "x"));
    assert!(Cors::allows("a,,b", ""));
    assert!(Cors::allows("a,", ""));
    assert!(Cors::allows(",a", "a"));
    assert!(!Cors::allows("ab", "a"));
    assert!(!Cors::allows("ab", "b"));
    assert!(Cors::allows("é,ü", "ü"));
    assert_eq!(chars_of("aé,"), vec!['a', 'é', ',']);
}
