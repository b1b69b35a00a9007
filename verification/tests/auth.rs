use rustling_chains::auth::{
    authenticate, check_cookie, decide_authentication, generate_cookie, login, new_cookie_value, AllowedToExchangeGuard,
    Auth, Authentication, CookieRow, StoredLogin, TournamentAuthentication, UserAuthentication, UserLogin, UserRow,
};
use rustling_chains::error::{AuthError, GenericError, UserError};

fn user_row(id: i32, admin: bool) -> UserRow {
    UserRow { id, name: format!("user{}", id), admin }
}

fn signed_in(id: i32, admin: bool) -> UserAuthentication {
    UserAuthentication(Authentication::Authenticated {
        cookie: CookieRow { user_id: id, cookie: "c".to_string() },
        user: user_row(id, admin),
    })
}

#[test]
fn cookies_are_thirty_letters_or_digits() {
    let c = new_cookie_value();
    assert_eq!(c.chars().count(), 30);
    assert!(c.chars().all(|ch| ch.is_ascii_alphanumeric()));
    let row = generate_cookie(7);
    assert_eq!(row.user_id, 7);
    assert_eq!(row.cookie.len(), 30);
}

#[test]
fn password_hash_accepts_its_password() {
    let login_data = UserLogin { username: "anna".to_string(), password: "hunter2".to_string() };
    let row = login_data.hashed_authentication(4).unwrap();
    assert_eq!(row.user_id, 4);
    assert!(row.hashed_password.starts_with("$2b$12$"));
    assert_eq!(row.hashed_password.len(), 60);
    let stored = Some(StoredLogin { hashed_password: Some(row.hashed_password.clone()), cookie_matches: false });
    assert!(authenticate(&stored, &Auth::Password("hunter2".to_string())));
    assert!(!authenticate(&stored, &Auth::Password("wrong".to_string())));
}

#[test]
fn unreadable_hash_or_unknown_user_refuses() {
    let stored = Some(StoredLogin { hashed_password: Some("not a hash".to_string()), cookie_matches: true });
    assert!(!authenticate(&stored, &Auth::Password("hunter2".to_string())));
    let no_hash = Some(StoredLogin { hashed_password: None, cookie_matches: true });
    assert!(!authenticate(&no_hash, &Auth::Password("hunter2".to_string())));
    assert!(!authenticate(&None, &Auth::Password("hunter2".to_string())));
    assert!(!authenticate(&None, &Auth::Cookie("c".to_string())));
    assert!(authenticate(&no_hash, &Auth::Cookie("c".to_string())));
    assert!(decide_authentication(&stored, &Auth::Password("x".to_string()), Some(true)));
    assert!(!decide_authentication(&stored, &Auth::Password("x".to_string()), Some(false)));
    assert!(!decide_authentication(&stored, &Auth::Password("x".to_string()), None));
}

#[test]
fn login_outcomes() {
    assert_eq!(login(Some(true), Some(3)).unwrap(), 3);
    assert_eq!(
        login(Some(true), None).unwrap_err(),
        GenericError::CookieError(AuthError::Invalid("Wrong username or password"))
    );
    assert_eq!(
        login(Some(false), Some(3)).unwrap_err(),
        GenericError::CookieError(AuthError::WrongPassword("Wrong username or password"))
    );
    assert_eq!(
        login(None, Some(3)).unwrap_err(),
        GenericError::CookieError(AuthError::UnknownError("Wrong username or password"))
    );
}

#[test]
fn admins_act_for_everyone() {
    let admin = signed_in(1, true);
    let plain = signed_in(2, false);
    assert!(admin.0.is_authenticated(9));
    assert!(admin.0.is_admin());
    assert!(plain.0.is_authenticated(2));
    assert!(!plain.0.is_authenticated(9));
    assert!(!Authentication::NoCookie.is_authenticated(2));
    assert!(admin.assure_admin().is_ok());
    assert_eq!(plain.assure_admin().unwrap_err(), GenericError::NotPermitted("You are not authorized to do this"));
}

#[test]
fn cookie_lookups() {
    let found = UserAuthentication::new(
        Ok(Some(CookieRow { user_id: 2, cookie: "c".to_string() })),
        Ok(Some(user_row(2, false))),
    )
    .unwrap();
    assert_eq!(found.to_user_model().unwrap().id, 2);
    let orphan = UserAuthentication::new(Ok(Some(CookieRow { user_id: 2, cookie: "c".to_string() })), Ok(None)).unwrap();
    assert!(matches!(orphan.0, Authentication::InvalidCookie));
    assert_eq!(
        UserAuthentication::new(Ok(None), Ok(None)).err().unwrap(),
        GenericError::CookieError(AuthError::Invalid("Cookie not found"))
    );
    assert_eq!(
        UserAuthentication::new(Err(()), Ok(None)).err().unwrap(),
        GenericError::UnknownError("db error while finding cookie")
    );
    let none = UserAuthentication::from_cookie(None);
    assert!(matches!(none.0, Authentication::NoCookie));
    let bad = UserAuthentication::from_cookie(Some(Err(GenericError::UnknownError("x"))));
    assert!(matches!(bad.0, Authentication::InvalidCookie));
    assert_eq!(
        bad.to_user_model().err().unwrap(),
        GenericError::CookieError(AuthError::Missing("No user found"))
    );
    assert_eq!(
        bad.assure_authorized().unwrap_err(),
        GenericError::CookieError(AuthError::Missing("You are not authorized to do that"))
    );
    assert_eq!(
        bad.require_authentication().unwrap_err(),
        GenericError::CookieError(AuthError::Invalid("You do not have permission to do that"))
    );
    assert_eq!(check_cookie(&found).unwrap(), "ELLO");
    assert!(check_cookie(&bad).is_err());
}

#[test]
fn logging_out() {
    let signed = signed_in(3, false);
    assert_eq!(signed.remove_cookie().unwrap().cookie, "c");
    assert_eq!(signed_in(3, false).remove_all_cookies().unwrap(), 3);
    assert_eq!(
        UserAuthentication(Authentication::NoCookie).remove_cookie().err().unwrap(),
        GenericError::CookieError(AuthError::Invalid("Cannot remove non-existing cookie"))
    );
}

#[test]
fn tournament_ownership() {
    let owner = TournamentAuthentication::new(signed_in(2, false), Ok(Some(2))).unwrap();
    assert!(owner.is_owner);
    assert!(owner.assure_ownership().is_ok());
    let other = TournamentAuthentication::new(signed_in(3, false), Ok(Some(2))).unwrap();
    assert!(!other.is_owner);
    assert_eq!(
        other.assure_ownership().unwrap_err(),
        GenericError::CookieError(AuthError::Invalid("You are not the owner of this tournament"))
    );
    assert!(other.is_authenticated());
    let admin = TournamentAuthentication::new(signed_in(1, true), Ok(Some(2))).unwrap();
    assert!(admin.is_owner);
    assert_eq!(
        TournamentAuthentication::new(signed_in(1, true), Ok(None)).err().unwrap(),
        GenericError::UserError(UserError::InvalidUserId("User not found"))
    );
    assert_eq!(
        TournamentAuthentication::new(signed_in(1, true), Err(())).err().unwrap(),
        GenericError::UnknownError("Unable to find tournament by id")
    );
}

#[test]
fn exchange_guard() {
    let g = AllowedToExchangeGuard(true);
    assert!(g.is_allowed());
    assert!(g.is_move_allowed(None, 0));
    let h = AllowedToExchangeGuard(false);
    assert!(!h.is_move_allowed(None, 0));
    assert!(!h.is_move_allowed(Some(&Vec::new()), 0));
    let r = AllowedToExchangeGuard::for_user(&UserAuthentication(Authentication::NoCookie), &Vec::new(), Vec::new(), 0);
    assert_eq!(r.err().unwrap(), GenericError::CookieError(AuthError::Missing("No user found")));
    let s = AllowedToExchangeGuard::for_user(&signed_in(2, false), &Vec::new(), Vec::new(), 0).unwrap();
    assert!(!s.is_allowed());
}

#[test]
fn stored_password_from_a_given_hash() {
    let login_data = UserLogin { username: "anna".to_string(), password: "pw".to_string() };
    let row = login_data.authentication_from_hash(Some("h".to_string()), 2).unwrap();
    assert_eq!(row.user_id, 2);
    assert_eq!(row.hashed_password, "h");
    assert_eq!(
        login_data.authentication_from_hash(None, 2).err().unwrap(),
        GenericError::UnknownError("Hashing the password failed")
    );
    let (name, admin) = login_data.active_user();
    assert_eq!(name, "anna");
    assert!(!admin);
}

#[test]
fn tournament_requests() {
    assert_eq!(
        TournamentAuthentication::from_request(None, Some(1), Ok(Some(2))).err().unwrap(),
        GenericError::CookieError(AuthError::Missing("No cookie found"))
    );
    assert_eq!(
        TournamentAuthentication::from_request(Some(signed_in(2, false)), None, Ok(Some(2))).err().unwrap(),
        GenericError::CookieError(AuthError::Invalid("Invalid tournament id"))
    );
    assert!(TournamentAuthentication::from_request(Some(signed_in(2, false)), Some(1), Ok(Some(2))).unwrap().is_owner);
}

#[test]
fn exchange_guard_requests() {
    let tournament = Ok(Some((Vec::new(), Vec::new())));
    assert_eq!(
        AllowedToExchangeGuard::from_request(&signed_in(2, false), None, Ok(Some((Vec::new(), Vec::new()))), 0).err().unwrap(),
        GenericError::NotFound("Tournament id not found")
    );
    assert_eq!(
        AllowedToExchangeGuard::from_request(&UserAuthentication(Authentication::NoCookie), Some(1), tournament, 0)
            .err()
            .unwrap(),
        GenericError::CookieError(AuthError::Missing("No user found"))
    );
    assert_eq!(
        AllowedToExchangeGuard::from_request(&signed_in(2, false), Some(1), Ok(None), 0).err().unwrap(),
        GenericError::NotFound("Tournament not found")
    );
    assert_eq!(
        AllowedToExchangeGuard::from_request(&signed_in(2, false), Some(1), Err(GenericError::UnknownError("db")), 0)
            .err()
            .unwrap(),
        GenericError::UnknownError("db")
    );
    let g = AllowedToExchangeGuard::from_request(&signed_in(2, false), Some(1), Ok(Some((Vec::new(), Vec::new()))), 0).unwrap();
    assert!(!g.is_allowed());
}
