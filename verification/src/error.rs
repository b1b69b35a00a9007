use vstd::prelude::*;
use vstd::std_specs::convert::FromSpecImpl;

verus! {

/// Errors that concern a fantasy tournament.
#[derive(Clone, Copy, Debug, PartialEq, Eq)]
pub enum TournamentError {
    TooManyTournaments(&'static str),
    TournamentNameConflict(&'static str),
    NotPermitted(&'static str),
    NotFound(&'static str),
}

/// Errors of authentication: missing, invalid or refused credentials.
#[derive(Clone, Copy, Debug, PartialEq, Eq)]
pub enum AuthError {
    Missing(&'static str),
    Invalid(&'static str),
    WrongPassword(&'static str),
    UnknownError(&'static str),
}

/// Errors that concern a user account.
#[derive(Clone, Copy, Debug, PartialEq, Eq)]
pub enum UserError {
    UsernameConflict(&'static str),
    InvalidUserId(&'static str),
    NotPermitted(&'static str),
}

/// Errors that concern a player.
#[derive(Clone, Copy, Debug, PartialEq, Eq, Structural)]
pub enum PlayerError {
    NotFound,
    WrongDivision,
}

/// Why an invitation to a tournament could not be made or answered.
#[derive(Clone, Copy, Debug, PartialEq, Eq, Structural)]
pub enum InviteError {
    TournamentNotFound,
    UserNotFound,
    NotOwner,
}

/// The error type of the service: each variant carries its message.
#[derive(Clone, Copy, Debug, PartialEq, Eq)]
pub enum GenericError {
    UnknownCompetition(&'static str),
    UnknownError(&'static str),
    TournamentError(TournamentError),
    UserError(UserError),
    CookieError(AuthError),
    AuthError(AuthError),
    ViolatesForeignKey(&'static str),
    UniqueError(&'static str),
    CheckError(&'static str),
    NotFound(&'static str),
    Conflict(&'static str),
    BadRequest(&'static str),
    PdgaGaveUp(&'static str),
    NotPermitted(&'static str),
}

pub open spec fn tournament_status(e: TournamentError) -> u16 {
    match e {
        TournamentError::TooManyTournaments(_) => 403,
        TournamentError::TournamentNameConflict(_) => 409,
        TournamentError::NotPermitted(_) => 403,
        TournamentError::NotFound(_) => 404,
    }
}

pub open spec fn auth_status(e: AuthError) -> u16 {
    match e {
        AuthError::Missing(_) => 401,
        _ => 403,
    }
}

pub open spec fn user_status(e: UserError) -> u16 {
    match e {
        UserError::UsernameConflict(_) => 409,
        UserError::InvalidUserId(_) => 404,
        UserError::NotPermitted(_) => 403,
    }
}

/// The HTTP status that answers an error. Variants that carry no status of their own answer
/// with the status of the text they carry, 200.
pub open spec fn generic_status(e: GenericError) -> u16 {
    match e {
        GenericError::UnknownCompetition(_) => 404,
        GenericError::UnknownError(_) => 500,
        GenericError::TournamentError(t) => tournament_status(t),
        GenericError::UserError(u) => user_status(u),
        GenericError::CookieError(a) => auth_status(a),
        GenericError::AuthError(a) => auth_status(a),
        GenericError::ViolatesForeignKey(_) => 403,
        GenericError::UniqueError(_) => 409,
        GenericError::CheckError(_) => 422,
        GenericError::NotFound(_) => 404,
        GenericError::Conflict(_) => 409,
        GenericError::BadRequest(_) => 400,
        GenericError::PdgaGaveUp(_) => 200,
        GenericError::NotPermitted(_) => 200,
    }
}

impl TournamentError {
    /// The HTTP status of a tournament error.
    pub fn status_code(&self) -> (code: u16)
        ensures
            code == tournament_status(*self),
    {
        match self {
            TournamentError::TooManyTournaments(_) => 403,
            TournamentError::TournamentNameConflict(_) => 409,
            TournamentError::NotPermitted(_) => 403,
            TournamentError::NotFound(_) => 404,
        }
    }
}

impl AuthError {
    /// The HTTP status of an authentication error.
    pub fn status_code(&self) -> (code: u16)
        ensures
            code == auth_status(*self),
    {
        match self {
            AuthError::Missing(_) => 401,
            AuthError::Invalid(_) => 403,
            AuthError::WrongPassword(_) => 403,
            AuthError::UnknownError(_) => 403,
        }
    }
}

impl UserError {
    /// The HTTP status of a user error.
    pub fn status_code(&self) -> (code: u16)
        ensures
            code == user_status(*self),
    {
        match self {
            UserError::UsernameConflict(_) => 409,
            UserError::InvalidUserId(_) => 404,
            UserError::NotPermitted(_) => 403,
        }
    }
}

impl GenericError {
    /// The HTTP status that answers the error.
    pub fn status_code(&self) -> (code: u16)
        ensures
            code == generic_status(*self),
    {
        match self {
            GenericError::UnknownCompetition(_) => 404,
            GenericError::UnknownError(_) => 500,
            GenericError::TournamentError(t) => t.status_code(),
            GenericError::UserError(u) => u.status_code(),
            GenericError::CookieError(a) => a.status_code(),
            GenericError::AuthError(a) => a.status_code(),
            GenericError::ViolatesForeignKey(_) => 403,
            GenericError::UniqueError(_) => 409,
            GenericError::CheckError(_) => 422,
            GenericError::NotFound(_) => 404,
            GenericError::Conflict(_) => 409,
            GenericError::BadRequest(_) => 400,
            GenericError::PdgaGaveUp(_) => 200,
            GenericError::NotPermitted(_) => 200,
        }
    }
}

impl From<TournamentError> for GenericError {
    fn from(e: TournamentError) -> (r: Self) {
        GenericError::TournamentError(e)
    }
}

impl FromSpecImpl<TournamentError> for GenericError {
    open spec fn obeys_from_spec() -> bool {
        true
    }

    open spec fn from_spec(e: TournamentError) -> GenericError {
        GenericError::TournamentError(e)
    }
}

impl From<AuthError> for GenericError {
    fn from(e: AuthError) -> (r: Self) {
        GenericError::CookieError(e)
    }
}

impl FromSpecImpl<AuthError> for GenericError {
    open spec fn obeys_from_spec() -> bool {
        true
    }

    open spec fn from_spec(e: AuthError) -> GenericError {
        GenericError::CookieError(e)
    }
}

impl From<UserError> for GenericError {
    fn from(e: UserError) -> (r: Self) {
        GenericError::UserError(e)
    }
}

impl FromSpecImpl<UserError> for GenericError {
    open spec fn obeys_from_spec() -> bool {
        true
    }

    open spec fn from_spec(e: UserError) -> GenericError {
        GenericError::UserError(e)
    }
}

pub open spec fn player_error_spec(e: PlayerError) -> GenericError {
    match e {
        PlayerError::NotFound => GenericError::NotFound("Player not found in tournament"),
        PlayerError::WrongDivision => GenericError::NotFound("Player not in specified division"),
    }
}

impl From<PlayerError> for GenericError {
    fn from(e: PlayerError) -> (r: Self) {
        match e {
            PlayerError::NotFound => GenericError::NotFound("Player not found in tournament"),
            PlayerError::WrongDivision => GenericError::NotFound("Player not in specified division"),
        }
    }
}

impl FromSpecImpl<PlayerError> for GenericError {
    open spec fn obeys_from_spec() -> bool {
        true
    }

    open spec fn from_spec(e: PlayerError) -> GenericError {
        player_error_spec(e)
    }
}

pub open spec fn invite_error_spec(e: InviteError) -> GenericError {
    match e {
        InviteError::TournamentNotFound => GenericError::TournamentError(
            TournamentError::NotFound("Tournament not found"),
        ),
        InviteError::UserNotFound => GenericError::UserError(UserError::InvalidUserId("User not found")),
        InviteError::NotOwner => GenericError::TournamentError(
            TournamentError::NotPermitted("You are not the owner of this tournament"),
        ),
    }
}

impl From<InviteError> for GenericError {
    fn from(e: InviteError) -> (r: Self) {
        match e {
            InviteError::TournamentNotFound => GenericError::TournamentError(
                TournamentError::NotFound("Tournament not found"),
            ),
            InviteError::UserNotFound => GenericError::UserError(
                UserError::InvalidUserId("User not found"),
            ),
            InviteError::NotOwner => GenericError::TournamentError(
                TournamentError::NotPermitted("You are not the owner of this tournament"),
            ),
        }
    }
}

impl FromSpecImpl<InviteError> for GenericError {
    open spec fn obeys_from_spec() -> bool {
        true
    }

    open spec fn from_spec(e: InviteError) -> GenericError {
        invite_error_spec(e)
    }
}

/// An invitation that failed answers "not found" when the tournament or the user is missing
/// and "forbidden" when the requester does not own the tournament.
pub proof fn law_invite_error_status(e: InviteError)
    ensures
        generic_status(invite_error_spec(e)) == (match e {
            InviteError::NotOwner => 403u16,
            _ => 404u16,
        }),
{
}

} // verus!
