use vstd::prelude::*;
use rand::Rng;
use crate::error::{AuthError, GenericError, UserError};
use crate::exchange::{
    CompetitionSchedule, UserWithScore, first_window, has_exchange_begun, is_user_allowed_to_exchange,
    schedule_inputs_valid, user_allowed,
};
use crate::time::TIME_LIMIT;

verus! {

#[verifier::external_type_specification]
#[verifier::external_body]
pub struct ExBcryptError(bcrypt::BcryptError);

/// A user as stored.
pub struct UserRow {
    pub id: i32,
    pub name: String,
    pub admin: bool,
}

/// A login cookie as stored: the user it belongs to and its value.
pub struct CookieRow {
    pub user_id: i32,
    pub cookie: String,
}

/// A stored password hash of a user.
pub struct UserAuthenticationRow {
    pub user_id: i32,
    pub hashed_password: String,
}

/// The details with which a user is created.
pub struct UserLogin {
    pub username: String,
    pub password: String,
}

/// The details with which a user logs in.
pub struct LoginInput {
    pub username: String,
    pub password: String,
}

/// How a user proves who they are.
pub enum Auth {
    Password(String),
    Cookie(String),
}

/// What the database holds for a known user at a login attempt: the stored password hash, if
/// any, and whether the presented cookie is one of the user's.
pub struct StoredLogin {
    pub hashed_password: Option<String>,
    pub cookie_matches: bool,
}

/// What a request's cookie showed.
pub enum Authentication {
    Authenticated { cookie: CookieRow, user: UserRow },
    NoCookie,
    InvalidCookie,
}

/// The authentication of the user making a request.
pub struct UserAuthentication(pub Authentication);

/// The authentication of a user for a tournament, and whether they own it.
pub struct TournamentAuthentication {
    pub user: UserAuthentication,
    pub is_owner: bool,
}

/// Whether the user making a request may exchange players now.
#[derive(Clone, Copy, Debug, PartialEq, Eq, Structural)]
pub struct AllowedToExchangeGuard(pub bool);

/// What bcrypt's `verify` gives for a password and a stored hash: `Some` of whether they match,
/// or `None` where it fails (a hash that it cannot read).
pub uninterp spec fn bcrypt_verdict(password: Seq<char>, hash: Seq<char>) -> Option<bool>;

/// bcrypt's `verify`: reads the cost and salt from the stored hash, hashes the password with
/// them and compares. The result is named: it depends on the password and the hash alone.
#[verifier::external_body]
fn bcrypt_verify(password: &str, hash: &str) -> (r: Result<bool, bcrypt::BcryptError>)
    ensures
        match r {
            Ok(matches) => bcrypt_verdict(password@, hash@) == Some(matches),
            Err(_) => bcrypt_verdict(password@, hash@) is None,
        },
{
    bcrypt::verify(password, hash)
}

/// bcrypt's `hash` with its default cost (12) and a random salt. The salt comes from the
/// operating system, so the hash itself is not stated; what holds of every outcome, as the
/// source shows, is that `verify` accepts the same password against a hash it returns, and
/// that the hash is written as `$2b$12$` followed by 22 characters of salt and 31 of hash,
/// 60 in all. It fails only where the operating system gives no randomness.
#[verifier::external_body]
fn bcrypt_hash(password: &str) -> (r: Result<String, bcrypt::BcryptError>)
    ensures
        r matches Ok(hash) ==> bcrypt_verdict(password@, hash@) == Some(true),
        r matches Ok(hash) ==> hash@.len() == 60 && hash@.subrange(0, 7) == "$2b$12$"@,
{
    bcrypt::hash(password, bcrypt::DEFAULT_COST)
}

/// Whether a character is an ASCII letter or digit.
pub open spec fn is_alphanumeric(c: char) -> bool {
    ('a' <= c <= 'z') || ('A' <= c <= 'Z') || ('0' <= c <= '9')
}

/// rand's thread generator sampled with `Alphanumeric`, `len` times. The characters are
/// random; what holds of every outcome is their number and that each is an ASCII letter or
/// digit, as rand's documentation says.
#[verifier::external_body]
fn random_alphanumeric(len: usize) -> (r: String)
    ensures
        r@.len() == len,
        forall|i: int| 0 <= i < len ==> is_alphanumeric(#[trigger] r@[i]),
{
    rand::thread_rng().sample_iter(&rand::distributions::Alphanumeric).take(len).map(char::from).collect()
}

/// The number of characters in a login cookie.
pub const COOKIE_LENGTH: usize = 30usize;

/// A new login cookie value: thirty random ASCII letters and digits.
pub fn new_cookie_value() -> (r: String)
    ensures
        r@.len() == COOKIE_LENGTH,
        forall|i: int| 0 <= i < r@.len() ==> is_alphanumeric(#[trigger] r@[i]),
{
    random_alphanumeric(COOKIE_LENGTH)
}

/// A new login cookie for a user.
pub fn generate_cookie(user_id: i32) -> (r: CookieRow)
    ensures
        r.user_id == user_id,
        r.cookie@.len() == COOKIE_LENGTH,
        forall|i: int| 0 <= i < r.cookie@.len() ==> is_alphanumeric(#[trigger] r.cookie@[i]),
{
    CookieRow { user_id, cookie: new_cookie_value() }
}

/// The verdict on a password that a login attempt needs: bcrypt's, where a known user with a
/// stored hash presents a password, else none.
pub open spec fn password_verdict(user: Option<StoredLogin>, auth: Auth) -> Option<bool> {
    match (user, auth) {
        (Some(s), Auth::Password(p)) => match s.hashed_password {
            Some(h) => bcrypt_verdict(p@, h@),
            None => None,
        },
        _ => None,
    }
}

/// Whether a login attempt succeeds: an unknown user never does; a password does where the
/// user has a stored hash and bcrypt says the password matches it; a cookie does where it is
/// one of the user's.
pub open spec fn authenticated(user: Option<StoredLogin>, auth: Auth, verdict: Option<bool>) -> bool {
    match user {
        None => false,
        Some(s) => match auth {
            Auth::Password(_) => s.hashed_password is Some && verdict == Some(true),
            Auth::Cookie(_) => s.cookie_matches,
        },
    }
}

/// Decides a login attempt, given bcrypt's verdict on the password.
pub fn decide_authentication(user: &Option<StoredLogin>, auth: &Auth, verdict: Option<bool>) -> (r: bool)
    ensures
        r == authenticated(*user, *auth, verdict),
{
    match user {
        None => false,
        Some(s) => match auth {
            Auth::Password(_) => s.hashed_password.is_some() && match verdict {
                Some(matches) => matches,
                None => false,
            },
            Auth::Cookie(_) => s.cookie_matches,
        },
    }
}

/// Decides a login attempt for what the database holds on the user.
pub fn authenticate(user: &Option<StoredLogin>, auth: &Auth) -> (r: bool)
    ensures
        r == authenticated(*user, *auth, password_verdict(*user, *auth)),
{
    let verdict = match (user, auth) {
        (Some(s), Auth::Password(p)) => match &s.hashed_password {
            Some(h) => match bcrypt_verify(p.as_str(), h.as_str()) {
                Ok(matches) => Some(matches),
                Err(_) => None,
            },
            None => None,
        },
        _ => None,
    };
    decide_authentication(user, auth, verdict)
}

/// The message of each failed login.
pub open spec fn login_failure() -> &'static str {
    "Wrong username or password"
}

/// The outcome of a login: the id of the user to give a cookie to, or the error. The
/// attempt's verdict is `None` where the database failed; the user is looked up by name only
/// after a successful attempt, and is `None` where that failed or found nobody.
pub open spec fn login_outcome(verdict: Option<bool>, user: Option<i32>) -> Result<i32, GenericError> {
    match verdict {
        Some(true) => match user {
            Some(id) => Ok(id),
            None => Err(GenericError::CookieError(AuthError::Invalid(login_failure()))),
        },
        Some(false) => Err(GenericError::CookieError(AuthError::WrongPassword(login_failure()))),
        None => Err(GenericError::CookieError(AuthError::UnknownError(login_failure()))),
    }
}

/// Decides a login from the attempt's verdict and the user found by name.
pub fn login(verdict: Option<bool>, user: Option<i32>) -> (r: Result<i32, GenericError>)
    ensures
        r == login_outcome(verdict, user),
{
    let message = "Wrong username or password";
    match verdict {
        Some(true) => match user {
            Some(id) => Ok(id),
            None => Err(GenericError::CookieError(AuthError::Invalid(message))),
        },
        Some(false) => Err(GenericError::CookieError(AuthError::WrongPassword(message))),
        None => Err(GenericError::CookieError(AuthError::UnknownError(message))),
    }
}

impl UserLogin {
    /// The user to store: the name, not an admin.
    pub fn active_user(&self) -> (r: (String, bool))
        ensures
            r.0@ == self.username@,
            !r.1,
    {
        (self.username.clone(), false)
    }

    /// The stored password of a new user.
    pub fn active_authentication(&self, hashed_password: String, user_id: i32) -> (r: UserAuthenticationRow)
        ensures
            r.user_id == user_id,
            r.hashed_password == hashed_password,
    {
        UserAuthenticationRow { user_id, hashed_password }
    }

    /// The stored password of a new user, hashed with bcrypt: a hash against which the
    /// password is accepted.
    pub fn hashed_authentication(&self, user_id: i32) -> (r: Result<UserAuthenticationRow, GenericError>)
        ensures
            r matches Ok(row) ==> row.user_id == user_id && bcrypt_verdict(self.password@, row.hashed_password@)
                == Some(true),
            r matches Ok(row) ==> row.hashed_password@.len() == 60 && row.hashed_password@.subrange(0, 7)
                == "$2b$12$"@,
            (self.password@.len() != 60 || self.password@.subrange(0, 7) != "$2b$12$"@) ==> (r matches Ok(row)
                ==> row.hashed_password@ != self.password@),
            r matches Err(e) ==> e == GenericError::UnknownError("Hashing the password failed"),
    {
        let hashed = match bcrypt_hash(self.password.as_str()) {
            Ok(h) => Some(h),
            Err(_) => None,
        };
        self.authentication_from_hash(hashed, user_id)
    }

    /// The stored password of a new user, given the hash made of it (`None` where hashing
    /// failed).
    pub fn authentication_from_hash(&self, hashed: Option<String>, user_id: i32) -> (r: Result<
        UserAuthenticationRow,
        GenericError,
    >)
        ensures
            match hashed {
                Some(h) => r matches Ok(row) && row.user_id == user_id && row.hashed_password == h,
                None => r matches Err(e) && e == GenericError::UnknownError("Hashing the password failed"),
            },
    {
        match hashed {
            Some(h) => Ok(self.active_authentication(h, user_id)),
            None => Err(GenericError::UnknownError("Hashing the password failed")),
        }
    }
}

/// Whether an authentication is that of an admin.
pub open spec fn admin_of(a: Authentication) -> bool {
    match a {
        Authentication::Authenticated { user, .. } => user.admin,
        _ => false,
    }
}

/// Whether an authentication lets its holder act for a user: an admin may act for anyone, a
/// user for themselves.
pub open spec fn acts_for(a: Authentication, user_id: i32) -> bool {
    match a {
        Authentication::Authenticated { user, .. } => user.admin || user.id == user_id,
        _ => false,
    }
}

impl Authentication {
    /// Whether the holder may act for a user.
    pub fn is_authenticated(&self, user_id: i32) -> (r: bool)
        ensures
            r == acts_for(*self, user_id),
    {
        match self {
            Authentication::Authenticated { user, .. } => user.admin || user.id == user_id,
            _ => false,
        }
    }

    /// Whether the holder is an admin.
    pub fn is_admin(&self) -> (r: bool)
        ensures
            r == admin_of(*self),
    {
        match self {
            Authentication::Authenticated { user, .. } => user.admin,
            _ => false,
        }
    }
}

/// What looking up a request's cookie gives: the error of a failed lookup, an error for an
/// unknown cookie, else the user it belongs to if there is one. The user is looked up only
/// for a known cookie.
pub open spec fn authentication_of(
    cookie: Result<Option<CookieRow>, ()>,
    user: Result<Option<UserRow>, ()>,
) -> Result<Authentication, GenericError> {
    match cookie {
        Err(_) => Err(GenericError::UnknownError("db error while finding cookie")),
        Ok(None) => Err(GenericError::CookieError(AuthError::Invalid("Cookie not found"))),
        Ok(Some(c)) => match user {
            Err(_) => Err(GenericError::UnknownError("Error while trying to find user by cookie")),
            Ok(Some(u)) => Ok(Authentication::Authenticated { cookie: c, user: u }),
            Ok(None) => Ok(Authentication::InvalidCookie),
        },
    }
}

impl UserAuthentication {
    /// The authentication for a presented cookie, from the lookups of the cookie and of its
    /// user.
    pub fn new(cookie: Result<Option<CookieRow>, ()>, user: Result<Option<UserRow>, ()>) -> (r: Result<
        UserAuthentication,
        GenericError,
    >)
        ensures
            match (r, authentication_of(cookie, user)) {
                (Ok(a), Ok(b)) => a.0 == b,
                (Err(e), Err(f)) => e == f,
                _ => false,
            },
    {
        match cookie {
            Err(_) => Err(GenericError::UnknownError("db error while finding cookie")),
            Ok(None) => Err(GenericError::CookieError(AuthError::Invalid("Cookie not found"))),
            Ok(Some(c)) => match user {
                Err(_) => Err(GenericError::UnknownError("Error while trying to find user by cookie")),
                Ok(Some(u)) => Ok(UserAuthentication(Authentication::Authenticated { cookie: c, user: u })),
                Ok(None) => Ok(UserAuthentication(Authentication::InvalidCookie)),
            },
        }
    }

    /// The authentication of a request: none without a cookie, and an invalid one where the
    /// cookie could not be resolved.
    pub fn from_cookie(resolved: Option<Result<UserAuthentication, GenericError>>) -> (r: UserAuthentication)
        ensures
            match resolved {
                None => r.0 is NoCookie,
                Some(Ok(a)) => r == a,
                Some(Err(_)) => r.0 is InvalidCookie,
            },
    {
        match resolved {
            None => UserAuthentication(Authentication::NoCookie),
            Some(Ok(a)) => a,
            Some(Err(_)) => UserAuthentication(Authentication::InvalidCookie),
        }
    }

    /// Succeeds for an authenticated user.
    pub fn assure_authorized(&self) -> (r: Result<(), GenericError>)
        ensures
            r == (if self.0 is Authenticated {
                Ok(())
            } else {
                Err(GenericError::CookieError(AuthError::Missing("You are not authorized to do that")))
            }),
    {
        match self.0 {
            Authentication::Authenticated { .. } => Ok(()),
            _ => Err(GenericError::CookieError(AuthError::Missing("You are not authorized to do that"))),
        }
    }

    /// Succeeds for an admin.
    pub fn assure_admin(&self) -> (r: Result<(), GenericError>)
        ensures
            r == (if admin_of(self.0) {
                Ok(())
            } else {
                Err(GenericError::NotPermitted("You are not authorized to do this"))
            }),
    {
        if !self.0.is_admin() {
            Err(GenericError::NotPermitted("You are not authorized to do this"))
        } else {
            Ok(())
        }
    }

    /// The authenticated user.
    pub fn to_user_model(&self) -> (r: Result<&UserRow, GenericError>)
        ensures
            match self.0 {
                Authentication::Authenticated { user, .. } => r == Ok::<&UserRow, GenericError>(&user),
                _ => r == Err::<&UserRow, GenericError>(GenericError::CookieError(AuthError::Missing("No user found"))),
            },
    {
        match &self.0 {
            Authentication::Authenticated { user, .. } => Ok(user),
            _ => Err(GenericError::CookieError(AuthError::Missing("No user found"))),
        }
    }

    /// Succeeds for an authenticated user.
    pub fn require_authentication(&self) -> (r: Result<(), GenericError>)
        ensures
            r == (if self.0 is Authenticated {
                Ok(())
            } else {
                Err(GenericError::CookieError(AuthError::Invalid("You do not have permission to do that")))
            }),
    {
        match self.0 {
            Authentication::Authenticated { .. } => Ok(()),
            _ => Err(GenericError::CookieError(AuthError::Invalid("You do not have permission to do that"))),
        }
    }

    /// The cookie to delete at logout.
    pub fn remove_cookie(self) -> (r: Result<CookieRow, GenericError>)
        ensures
            match self.0 {
                Authentication::Authenticated { cookie, .. } => r == Ok::<CookieRow, GenericError>(cookie),
                _ => r == Err::<CookieRow, GenericError>(
                    GenericError::CookieError(AuthError::Invalid("Cannot remove non-existing cookie")),
                ),
            },
    {
        match self.0 {
            Authentication::Authenticated { cookie, .. } => Ok(cookie),
            _ => Err(GenericError::CookieError(AuthError::Invalid("Cannot remove non-existing cookie"))),
        }
    }

    /// The user whose cookies are all deleted at a logout everywhere.
    pub fn remove_all_cookies(self) -> (r: Result<i32, GenericError>)
        ensures
            match self.0 {
                Authentication::Authenticated { user, .. } => r == Ok::<i32, GenericError>(user.id),
                _ => r == Err::<i32, GenericError>(
                    GenericError::CookieError(AuthError::Invalid("Cannot remove non-existing cookie")),
                ),
            },
    {
        match self.0 {
            Authentication::Authenticated { user, .. } => Ok(user.id),
            _ => Err(GenericError::CookieError(AuthError::Invalid("Cannot remove non-existing cookie"))),
        }
    }
}

/// What the answer to a request that checks its cookie is.
pub fn check_cookie(auth: &UserAuthentication) -> (r: Result<&'static str, GenericError>)
    ensures
        match r {
            Ok(s) => auth.0 is Authenticated && s == "ELLO",
            Err(e) => !(auth.0 is Authenticated) && e == GenericError::CookieError(
                AuthError::Missing("You are not authorized to do that"),
            ),
        },
{
    match auth.assure_authorized() {
        Ok(()) => Ok("ELLO"),
        Err(e) => Err(e),
    }
}

/// Whether a user owns a tournament, given the lookup of its owner: the error of a failed
/// lookup, an error for an unknown tournament, else whether the user is an admin or the owner.
pub open spec fn ownership_of(user: Authentication, owner: Result<Option<i32>, ()>) -> Result<bool, GenericError> {
    match owner {
        Err(_) => Err(GenericError::UnknownError("Unable to find tournament by id")),
        Ok(None) => Err(GenericError::UserError(UserError::InvalidUserId("User not found"))),
        Ok(Some(id)) => Ok(admin_of(user) || acts_for(user, id)),
    }
}

impl TournamentAuthentication {
    /// The authentication for a tournament, from the lookup of its owner.
    pub fn new(user: UserAuthentication, owner: Result<Option<i32>, ()>) -> (r: Result<
        TournamentAuthentication,
        GenericError,
    >)
        ensures
            match (r, ownership_of(user.0, owner)) {
                (Ok(t), Ok(is_owner)) => t.is_owner == is_owner && t.user == user,
                (Err(e), Err(f)) => e == f,
                _ => false,
            },
    {
        match owner {
            Err(_) => Err(GenericError::UnknownError("Unable to find tournament by id")),
            Ok(None) => Err(GenericError::UserError(UserError::InvalidUserId("User not found"))),
            Ok(Some(id)) => {
                let is_owner = user.0.is_admin() || user.0.is_authenticated(id);
                Ok(TournamentAuthentication { user, is_owner })
            },
        }
    }

    /// Succeeds for the owner and for an admin.
    pub fn assure_ownership(&self) -> (r: Result<(), GenericError>)
        ensures
            r == (if self.is_owner || admin_of(self.user.0) {
                Ok(())
            } else {
                Err(GenericError::CookieError(AuthError::Invalid("You are not the owner of this tournament")))
            }),
    {
        if self.is_owner || self.user.0.is_admin() {
            Ok(())
        } else {
            Err(GenericError::CookieError(AuthError::Invalid("You are not the owner of this tournament")))
        }
    }

    /// Whether the user is authenticated.
    pub fn is_authenticated(&self) -> (r: bool)
        ensures
            r == (admin_of(self.user.0) || self.user.0 is Authenticated),
    {
        self.user.0.is_admin() || match self.user.0 {
            Authentication::Authenticated { .. } => true,
            _ => false,
        }
    }
}

impl AllowedToExchangeGuard {
    /// Whether the user may exchange players now.
    pub fn is_allowed(&self) -> (r: bool)
        ensures
            r == self.0,
    {
        self.0
    }

    /// Whether the user may move picks: where they may exchange, or once the first exchange
    /// window of the tournament has opened. Without the tournament's competitions (an unknown
    /// tournament, or a failed lookup) only the first holds.
    pub fn is_move_allowed(&self, comps: Option<&Vec<CompetitionSchedule>>, now: i64) -> (r: bool)
        requires
            comps matches Some(c) ==> schedule_inputs_valid(c@),
        ensures
            r == (self.0 || (comps matches Some(c) && first_window(c@) matches Some(f) && f.utc_seconds < now)),
    {
        if self.0 {
            true
        } else {
            match comps {
                Some(c) => has_exchange_begun(c, now),
                None => false,
            }
        }
    }

    /// The guard for the user making a request, in a tournament with these competitions and
    /// participants: an error where no user is authenticated.
    pub fn for_user(
        user: &UserAuthentication,
        comps: &Vec<CompetitionSchedule>,
        users: Vec<UserWithScore>,
        now: i64,
    ) -> (r: Result<AllowedToExchangeGuard, GenericError>)
        requires
            schedule_inputs_valid(comps@),
            -TIME_LIMIT <= now <= TIME_LIMIT,
        ensures
            match user.0 {
                Authentication::Authenticated { user: u, .. } => r == Ok::<AllowedToExchangeGuard, GenericError>(
                    AllowedToExchangeGuard(user_allowed(comps@, users@, u.id, now)),
                ),
                _ => r == Err::<AllowedToExchangeGuard, GenericError>(
                    GenericError::CookieError(AuthError::Missing("No user found")),
                ),
            },
    {
        match user.to_user_model() {
            Ok(u) => Ok(AllowedToExchangeGuard(is_user_allowed_to_exchange(comps, users, u.id, now))),
            Err(e) => Err(e),
        }
    }
}

/// A user who registered with a password is let in with that password: the hash stored at
/// registration is one that bcrypt accepts the password against.
pub proof fn law_registered_password_logs_in(password: String, hash: String, cookie_matches: bool)
    requires
        bcrypt_verdict(password@, hash@) == Some(true),
    ensures
        ({
            let user = Some(StoredLogin { hashed_password: Some(hash), cookie_matches });
            let auth = Auth::Password(password);
            authenticated(user, auth, password_verdict(user, auth))
        }),
{
}

/// A password that bcrypt does not accept against the stored hash, or any password of a user
/// without one, or of an unknown user, is refused.
pub proof fn law_wrong_password_refused(user: Option<StoredLogin>, password: String)
    requires
        match user {
            Some(s) => match s.hashed_password {
                Some(h) => bcrypt_verdict(password@, h@) != Some(true),
                None => true,
            },
            None => true,
        },
    ensures
        !authenticated(user, Auth::Password(password), password_verdict(user, Auth::Password(password))),
{
}

/// The owner of a tournament and an admin pass the ownership check; no one else does.
pub proof fn law_owner_or_admin_owns(user: Authentication, owner: i32)
    ensures
        ownership_of(user, Ok(Some(owner))) == Ok::<bool, GenericError>(
            match user {
                Authentication::Authenticated { user: u, .. } => u.admin || u.id == owner,
                _ => false,
            },
        ),
{
}

impl TournamentAuthentication {
    /// The authentication of a request about a tournament: an error without a usable cookie
    /// guard or without a readable tournament id, else the authentication from the lookup of
    /// the tournament's owner.
    pub fn from_request(
        user: Option<UserAuthentication>,
        tournament_id: Option<i32>,
        owner: Result<Option<i32>, ()>,
    ) -> (r: Result<TournamentAuthentication, GenericError>)
        ensures
            match (user, tournament_id) {
                (None, _) => r == Err::<TournamentAuthentication, GenericError>(
                    GenericError::CookieError(AuthError::Missing("No cookie found")),
                ),
                (Some(_), None) => r == Err::<TournamentAuthentication, GenericError>(
                    GenericError::CookieError(AuthError::Invalid("Invalid tournament id")),
                ),
                (Some(u), Some(_)) => match (r, ownership_of(u.0, owner)) {
                    (Ok(t), Ok(is_owner)) => t.is_owner == is_owner && t.user == u,
                    (Err(e), Err(f)) => e == f,
                    _ => false,
                },
            },
    {
        match user {
            None => Err(GenericError::CookieError(AuthError::Missing("No cookie found"))),
            Some(u) => match tournament_id {
                None => Err(GenericError::CookieError(AuthError::Invalid("Invalid tournament id"))),
                Some(_) => TournamentAuthentication::new(u, owner),
            },
        }
    }
}

impl AllowedToExchangeGuard {
    /// The guard of a request about a tournament: "not found" without a readable tournament
    /// id; an error where no user is authenticated; the error of a failed lookup of the
    /// tournament's competitions and participants, or "not found" for an unknown tournament;
    /// else whether the user may exchange now.
    pub fn from_request(
        user: &UserAuthentication,
        tournament_id: Option<u32>,
        tournament: Result<Option<(Vec<CompetitionSchedule>, Vec<UserWithScore>)>, GenericError>,
        now: i64,
    ) -> (r: Result<AllowedToExchangeGuard, GenericError>)
        requires
            tournament matches Ok(Some(t)) ==> schedule_inputs_valid(t.0@),
            -TIME_LIMIT <= now <= TIME_LIMIT,
        ensures
            tournament_id is None ==> r == Err::<AllowedToExchangeGuard, GenericError>(
                GenericError::NotFound("Tournament id not found"),
            ),
            tournament_id is Some ==> match user.0 {
                Authentication::Authenticated { user: u, .. } => match tournament {
                    Err(e) => r == Err::<AllowedToExchangeGuard, GenericError>(e),
                    Ok(None) => r == Err::<AllowedToExchangeGuard, GenericError>(
                        GenericError::NotFound("Tournament not found"),
                    ),
                    Ok(Some(t)) => r == Ok::<AllowedToExchangeGuard, GenericError>(
                        AllowedToExchangeGuard(user_allowed(t.0@, t.1@, u.id, now)),
                    ),
                },
                _ => r == Err::<AllowedToExchangeGuard, GenericError>(
                    GenericError::CookieError(AuthError::Missing("No user found")),
                ),
            },
    {
        if tournament_id.is_none() {
            return Err(GenericError::NotFound("Tournament id not found"));
        }
        match user.to_user_model() {
            Err(e) => Err(e),
            Ok(_) => match tournament {
                Err(e) => Err(e),
                Ok(None) => Err(GenericError::NotFound("Tournament not found")),
                Ok(Some((comps, users))) => AllowedToExchangeGuard::for_user(user, &comps, users, now),
            },
        }
    }
}

} // verus!
