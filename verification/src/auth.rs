//! What the store takes from authentication: the principal of a request
//! and the shapes of the requests that deal with accounts, each with the
//! rule that says when it is well formed.
use crate::models::{Status, UserData};
use vstd::prelude::*;
use vstd::utf8::encode_utf8;

verus! {

/// The fewest bytes a password may have.
pub const MIN_PASSWORD_BYTES: usize = 8;

/// How long an access token lives, in seconds: five minutes.
pub const ACCESS_TOKEN_SECONDS: i64 = 300;

/// How long a refresh token lives, in seconds: thirty days.
pub const REFRESH_TOKEN_SECONDS: i64 = 2_592_000;

/// White space: the characters that Unicode marks as `White_Space`.
pub open spec fn is_white_space(c: char) -> bool {
    let u = c as u32;
    ||| 0x09 <= u <= 0x0d
    ||| u == 0x20
    ||| u == 0x85
    ||| u == 0xa0
    ||| u == 0x1680
    ||| 0x2000 <= u <= 0x200a
    ||| u == 0x2028
    ||| u == 0x2029
    ||| u == 0x202f
    ||| u == 0x205f
    ||| u == 0x3000
}

/// A text with nothing in it but white space.
pub open spec fn is_blank(text: Seq<char>) -> bool {
    forall|i: int| 0 <= i < text.len() ==> is_white_space(#[trigger] text[i])
}

/// Whether `c` is white space.
pub fn white_space(c: char) -> (res: bool)
    ensures
        res == is_white_space(c),
{
    let u: u32 = c as u32;
    (0x09 <= u && u <= 0x0d) || u == 0x20 || u == 0x85 || u == 0xa0 || u == 0x1680 || (0x2000 <= u
        && u <= 0x200a) || u == 0x2028 || u == 0x2029 || u == 0x202f || u == 0x205f || u == 0x3000
}

/// Whether `text` holds nothing but white space.
pub fn blank(text: &str) -> (res: bool)
    ensures
        res == is_blank(text@),
{
    let mut all = true;
    for c in it: text.chars()
        invariant
            it.seq() == text@,
            all == forall|i: int| 0 <= i < it.index() ==> is_white_space(#[trigger] text@[i]),
    {
        if !white_space(c) {
            all = false;
        }
    }
    all
}

/// The number of bytes of `text` in UTF-8.
pub fn byte_len(text: &str) -> (res: usize)
    ensures
        res == encode_utf8(text@).len(),
{
    text.as_bytes().len()
}

/// The credentials of a login, or of an account that is to be made.
#[derive(Debug)]
pub struct LoginData {
    pub login: String,
    pub password: String,
}

/// Credentials are well formed when the login holds more than white space
/// and the password has at least [`MIN_PASSWORD_BYTES`] bytes.
pub open spec fn credentials_well_formed(login: Seq<char>, password: Seq<char>) -> bool {
    !is_blank(login) && encode_utf8(password).len() >= MIN_PASSWORD_BYTES
}

impl LoginData {
    /// Whether the credentials are well formed. Credentials that are not
    /// are turned away before any account is looked up.
    pub fn well_formed(&self) -> (res: bool)
        ensures
            res == credentials_well_formed(self.login@, self.password@),
    {
        !blank(self.login.as_str()) && byte_len(self.password.as_str()) >= MIN_PASSWORD_BYTES
    }
}

/// The request to change one's password.
#[derive(Debug)]
pub struct ChangePasswordData {
    pub current_password: String,
    pub new_password: String,
}

/// A change of password is well formed when the present password is given
/// and the new one has at least [`MIN_PASSWORD_BYTES`] bytes.
pub open spec fn password_change_well_formed(current: Seq<char>, new: Seq<char>) -> bool {
    current.len() > 0 && encode_utf8(new).len() >= MIN_PASSWORD_BYTES
}

impl ChangePasswordData {
    /// Whether the request is well formed. A request that is not is turned
    /// away before any password is compared.
    pub fn well_formed(&self) -> (res: bool)
        ensures
            res == password_change_well_formed(self.current_password@, self.new_password@),
    {
        !self.current_password.as_str().is_empty() && byte_len(self.new_password.as_str())
            >= MIN_PASSWORD_BYTES
    }
}

/// The request to end one of the caller's sessions.
#[derive(Debug, Clone, Copy, PartialEq, Eq, Structural)]
pub struct RemoveTokenData {
    pub id: u128,
}

/// What a refresh token speaks of.
#[derive(Debug, Clone, Copy, PartialEq, Eq, Structural)]
pub struct RefreshTokenData {
    pub user_id: u128,
    pub refresh_token: u128,
    pub stay_logged_in: bool,
}

/// The claims of a token: what it speaks of, and the second at which it
/// runs out.
#[derive(Debug)]
pub struct JWTData<T> {
    pub data: T,
    pub exp: usize,
}

/// The second at which a token made at `now` with `lifetime` seconds to
/// live runs out; none where that second cannot be written down.
pub open spec fn expiry(now: i64, lifetime: i64) -> Option<usize> {
    if 0 <= now + lifetime <= usize::MAX && now + lifetime <= i64::MAX {
        Some((now + lifetime) as usize)
    } else {
        None
    }
}

impl<T> JWTData<T> {
    /// The claims of a token made at second `now` that lives for `lifetime`
    /// seconds. There are none where the token would run out before the
    /// epoch or later than can be written down.
    pub fn issue(data: T, now: i64, lifetime: i64) -> (res: Option<JWTData<T>>)
        ensures
            match res {
                Some(claims) => expiry(now, lifetime) == Some(claims.exp) && claims.data == data,
                None => expiry(now, lifetime) is None,
            },
    {
        match now.checked_add(lifetime) {
            Some(at) => {
                if at < 0 {
                    None
                } else if at as u64 > usize::MAX as u64 {
                    None
                } else {
                    Some(JWTData { data, exp: at as usize })
                }
            },
            None => None,
        }
    }

    /// Whether the token has run out at second `now`: it has once `now`
    /// has reached the second written in it.
    pub fn expired(&self, now: i64) -> (res: bool)
        ensures
            res == (now >= self.exp),
    {
        now >= 0 && now as u64 >= self.exp as u64
    }
}

/// A principal that is known to be an administrator.
#[derive(Debug)]
pub struct AdminData {
    pub user_id: u128,
    pub login: String,
    pub username: String,
}

/// The principal is no administrator.
#[derive(Debug, Clone, Copy, PartialEq, Eq, Structural)]
pub struct UserAdminError;

impl UserAdminError {
    /// What the error says.
    pub fn message(&self) -> (res: String)
        ensures
            res@ == "User does not have admin rights"@,
    {
        String::from_str("User does not have admin rights")
    }
}

impl AdminData {
    /// The principal as an administrator, if it is one.
    pub fn try_from(value: UserData) -> (res: Result<AdminData, UserAdminError>)
        ensures
            res is Ok <==> value.admin,
            res is Ok ==> res->Ok_0.user_id == value.user_id && res->Ok_0.login == value.login
                && res->Ok_0.username == value.username,
    {
        if !value.admin {
            return Err(UserAdminError);
        }
        Ok(AdminData { user_id: value.user_id, login: value.login, username: value.username })
    }

    /// The administrator as a principal.
    pub fn into_user(self) -> (res: UserData)
        ensures
            res.admin,
            res.user_id == self.user_id,
            res.login == self.login,
            res.username == self.username,
    {
        UserData { user_id: self.user_id, login: self.login, username: self.username, admin: true }
    }
}

/// What became of a token when it was read.
#[derive(Debug, Clone, Copy, PartialEq, Eq, Structural)]
pub enum TokenState {
    /// The request carries no such token.
    Absent,
    /// The token is genuine and has not run out.
    Valid,
    /// The token is genuine and has run out.
    Expired,
    /// The token is not a token at all.
    Malformed,
    /// The token could not be read for any other reason.
    Unreadable,
}

/// Why a request is not let in: the status it is answered with and what
/// the caller is told.
#[derive(Debug, Clone, Copy, PartialEq, Eq, Structural)]
pub enum Refusal {
    /// 401, "you are not authenticated".
    NotAuthenticated,
    /// 401, "authentication error".
    AuthenticationError,
}

impl Refusal {
    /// What the caller is told.
    pub open spec fn text(self) -> Seq<char> {
        match self {
            Refusal::NotAuthenticated => "you are not authenticated"@,
            Refusal::AuthenticationError => "authentication error"@,
        }
    }

    /// What the caller is told.
    pub fn message(&self) -> (res: &'static str)
        ensures
            res@ == self.text(),
    {
        match self {
            Refusal::NotAuthenticated => "you are not authenticated",
            Refusal::AuthenticationError => "authentication error",
        }
    }

    /// The status the request is answered with.
    pub fn status(&self) -> (res: Status)
        ensures
            res == Status::Unauthorized,
    {
        Status::Unauthorized
    }
}

/// What to do with a request, going by its two tokens.
#[derive(Debug, Clone, Copy, PartialEq, Eq, Structural)]
pub enum Session {
    /// Let the request in as the principal of its access token.
    Accept,
    /// Look the refresh token up: if the session it names is alive, the
    /// request is let in and gets a new access token.
    Renew,
    /// Turn the request away.
    Refuse(Refusal),
}

/// What to do with a request, going by its two tokens.
///
/// Without a refresh token nobody is let in. A valid access token lets the
/// request in as it is. An access token that is missing or has run out
/// leaves it to the refresh token, which must be valid. A token that is no
/// token means the caller is not authenticated; one that cannot be read for
/// another reason is an authentication error, and so is a refresh token that
/// has run out.
pub open spec fn session_for(access: TokenState, refresh: TokenState) -> Session {
    if refresh == TokenState::Absent {
        Session::Refuse(Refusal::NotAuthenticated)
    } else {
        match access {
            TokenState::Valid => Session::Accept,
            TokenState::Malformed => Session::Refuse(Refusal::NotAuthenticated),
            TokenState::Unreadable => Session::Refuse(Refusal::AuthenticationError),
            _ => match refresh {
                TokenState::Valid => Session::Renew,
                TokenState::Malformed => Session::Refuse(Refusal::NotAuthenticated),
                _ => Session::Refuse(Refusal::AuthenticationError),
            },
        }
    }
}

/// Decides what to do with a request, going by its two tokens.
pub fn judge_tokens(access: TokenState, refresh: TokenState) -> (res: Session)
    ensures
        res == session_for(access, refresh),
{
    match refresh {
        TokenState::Absent => Session::Refuse(Refusal::NotAuthenticated),
        _ => match access {
            TokenState::Valid => Session::Accept,
            TokenState::Malformed => Session::Refuse(Refusal::NotAuthenticated),
            TokenState::Unreadable => Session::Refuse(Refusal::AuthenticationError),
            _ => match refresh {
                TokenState::Valid => Session::Renew,
                TokenState::Malformed => Session::Refuse(Refusal::NotAuthenticated),
                _ => Session::Refuse(Refusal::AuthenticationError),
            },
        },
    }
}

/// Whether the session that a refresh token names is alive at second
/// `now`: it is on record and runs out later than `now`.
pub fn session_alive(expires_at: Option<i64>, now: i64) -> (res: bool)
    ensures
        res == (expires_at is Some && expires_at->0 >= now),
{
    match expires_at {
        Some(at) => at >= now,
        None => false,
    }
}

/// The cost that passwords are hashed with.
pub const PASSWORD_COST: u32 = 12;

/// What `bcrypt::verify` says of a password and a hash: whether the
/// password is the one the hash was made of, or nothing where the hash
/// cannot be read.
pub uninterp spec fn bcrypt_verify(password: Seq<char>, hash: Seq<char>) -> Option<bool>;

/// `bcrypt::verify`: compares a password with a stored hash. The answer
/// depends on the two texts alone. An error of the crate, which a hash that
/// cannot be read gives, comes back as nothing.
#[verifier::external_body]
fn verify_password(password: &str, hash: &str) -> (res: Option<bool>)
    ensures
        res == bcrypt_verify(password@, hash@),
{
    match bcrypt::verify(password, hash) {
        Ok(matches) => Some(matches),
        Err(_) => None,
    }
}

/// The number of characters of a hash that `bcrypt` makes: the version,
/// the cost in two digits, the salt in 22 characters and the digest in 31,
/// with a `$` before each of the first three.
pub const HASH_CHARS: usize = 60;

/// `hash` is a hash of `password`: it has the length of the hashes that
/// `bcrypt` makes, and a comparison finds `password` to be the password that
/// it was made of.
pub open spec fn is_hash_of(password: Seq<char>, hash: Seq<char>) -> bool {
    hash.len() == HASH_CHARS && bcrypt_verify(password, hash) == Some(true)
}

/// `bcrypt::hash`: hashes a password at the given cost, with a salt that
/// the crate draws at random, so that two hashes of one password differ.
/// What is claimed of every hash that comes back: it is written as the
/// crate writes its hashes, in [`HASH_CHARS`] characters, and `bcrypt::verify`
/// finds the password to be the one it was made of, since it hashes the
/// password again with the salt and the cost that it reads from the hash.
/// Whether a hash comes back is left open: an error of the crate, which a
/// cost out of bounds or a failing source of randomness gives, comes back as
/// nothing.
#[verifier::external_body]
fn hash_password(password: &str, cost: u32) -> (res: Option<String>)
    ensures
        res is Some ==> is_hash_of(password@, res->0@),
{
    match bcrypt::hash(password, cost) {
        Ok(hashed) => Some(hashed),
        Err(_) => None,
    }
}

/// Why a request that deals with an account is turned away.
#[derive(Debug, Clone, Copy, PartialEq, Eq, Structural)]
pub enum AccountError {
    /// 409: the caller is logged in already.
    AlreadyLoggedIn,
    /// 400: the credentials are not well formed.
    InvalidCredentials,
    /// 400: no account has the login, or the password is not its password.
    WrongLoginOrPassword,
    /// 400: the request to change the password is not well formed.
    PasswordTooShort,
    /// 400: the present password is not the one given.
    WrongCurrentPassword,
    /// 500: a password could not be hashed or compared.
    Internal,
}

impl AccountError {
    /// The status the request is answered with.
    pub open spec fn spec_status(self) -> Status {
        match self {
            AccountError::AlreadyLoggedIn => Status::Conflict,
            AccountError::Internal => Status::InternalServerError,
            _ => Status::BadRequest,
        }
    }

    /// The status the request is answered with.
    #[verifier::when_used_as_spec(spec_status)]
    pub fn status(self) -> (res: Status)
        ensures
            res == self.spec_status(),
    {
        match self {
            AccountError::AlreadyLoggedIn => Status::Conflict,
            AccountError::Internal => Status::InternalServerError,
            _ => Status::BadRequest,
        }
    }

    /// What the caller is told.
    pub open spec fn text(self) -> Seq<char> {
        match self {
            AccountError::AlreadyLoggedIn => "you are already logged in"@,
            AccountError::InvalidCredentials => "invalid credentials format"@,
            AccountError::WrongLoginOrPassword => "wrong login or password"@,
            AccountError::PasswordTooShort => "password must have at least 8 characters"@,
            AccountError::WrongCurrentPassword => "wrong current password"@,
            AccountError::Internal => "internal server error"@,
        }
    }

    /// What the caller is told.
    pub fn message(&self) -> (res: &'static str)
        ensures
            res@ == self.text(),
    {
        match self {
            AccountError::AlreadyLoggedIn => "you are already logged in",
            AccountError::InvalidCredentials => "invalid credentials format",
            AccountError::WrongLoginOrPassword => "wrong login or password",
            AccountError::PasswordTooShort => "password must have at least 8 characters",
            AccountError::WrongCurrentPassword => "wrong current password",
            AccountError::Internal => "internal server error",
        }
    }
}

/// What becomes of a hash that was asked for: a hash that was made is
/// handed on as it is, and one that could not be made is a failure of the
/// server.
pub fn hash_or_failure(hashed: Option<String>) -> (res: Result<String, AccountError>)
    ensures
        res == (match hashed {
            Some(hash) => Ok::<String, AccountError>(hash),
            None => Err::<String, AccountError>(AccountError::Internal),
        }),
{
    match hashed {
        Some(hash) => Ok(hash),
        None => Err(AccountError::Internal),
    }
}

/// Whether a login may go on to look the account up: not for a caller who
/// is logged in already, and not with credentials that are not well formed.
pub open spec fn login_admitted(logged_in: bool, login: Seq<char>, password: Seq<char>) -> Result<
    (),
    AccountError,
> {
    if logged_in {
        Err(AccountError::AlreadyLoggedIn)
    } else if !credentials_well_formed(login, password) {
        Err(AccountError::InvalidCredentials)
    } else {
        Ok(())
    }
}

/// What a comparison of passwords means for a login: without an account,
/// and with a password that is not the account's, the login or the password
/// is wrong; a comparison that could not be made is a failure of the server.
pub open spec fn login_judged(account: bool, checked: Option<bool>) -> Result<(), AccountError> {
    if !account {
        Err(AccountError::WrongLoginOrPassword)
    } else {
        match checked {
            None => Err(AccountError::Internal),
            Some(false) => Err(AccountError::WrongLoginOrPassword),
            Some(true) => Ok(()),
        }
    }
}

/// What a comparison of passwords means for a change of password: a
/// present password that is not the account's is wrong; a comparison that
/// could not be made is a failure of the server.
pub open spec fn change_judged(well_formed: bool, checked: Option<bool>) -> Result<
    (),
    AccountError,
> {
    if !well_formed {
        Err(AccountError::PasswordTooShort)
    } else {
        match checked {
            None => Err(AccountError::Internal),
            Some(false) => Err(AccountError::WrongCurrentPassword),
            Some(true) => Ok(()),
        }
    }
}

impl LoginData {
    /// Decides whether the login may go on to look the account up.
    pub fn may_log_in(&self, logged_in: bool) -> (res: Result<(), AccountError>)
        ensures
            res == login_admitted(logged_in, self.login@, self.password@),
    {
        if logged_in {
            Err(AccountError::AlreadyLoggedIn)
        } else if !self.well_formed() {
            Err(AccountError::InvalidCredentials)
        } else {
            Ok(())
        }
    }

    /// Decides a login from the comparison of the passwords. `account`
    /// tells whether an account has the login; `checked` is what the
    /// comparison of the given password with the account's hash gave.
    pub fn judge(account: bool, checked: Option<bool>) -> (res: Result<(), AccountError>)
        ensures
            res == login_judged(account, checked),
    {
        if !account {
            return Err(AccountError::WrongLoginOrPassword);
        }
        match checked {
            None => Err(AccountError::Internal),
            Some(false) => Err(AccountError::WrongLoginOrPassword),
            Some(true) => Ok(()),
        }
    }

    /// Decides a login against the hash of the account that has the login,
    /// if there is one.
    pub fn check(&self, stored: Option<&str>) -> (res: Result<(), AccountError>)
        ensures
            res == login_judged(
                stored is Some,
                match stored {
                    Some(hash) => bcrypt_verify(self.password@, hash@),
                    None => None,
                },
            ),
    {
        match stored {
            Some(hash) => LoginData::judge(true, verify_password(self.password.as_str(), hash)),
            None => LoginData::judge(false, None),
        }
    }

    /// The hash to store for the password of a new account; nothing where
    /// the credentials are not well formed or the password cannot be hashed.
    pub fn hashed(&self) -> (res: Result<String, AccountError>)
        ensures
            res == Err::<String, AccountError>(AccountError::InvalidCredentials)
                <==> !credentials_well_formed(self.login@, self.password@),
            res is Err ==> res->Err_0 == AccountError::InvalidCredentials || res->Err_0
                == AccountError::Internal,
    {
        if !self.well_formed() {
            return Err(AccountError::InvalidCredentials);
        }
        match hash_password(self.password.as_str(), PASSWORD_COST) {
            Some(hashed) => Ok(hashed),
            None => Err(AccountError::Internal),
        }
    }
}

impl ChangePasswordData {
    /// Decides a change of password from the comparison of the present
    /// password with the account's hash.
    pub fn judge(well_formed: bool, checked: Option<bool>) -> (res: Result<(), AccountError>)
        ensures
            res == change_judged(well_formed, checked),
    {
        if !well_formed {
            return Err(AccountError::PasswordTooShort);
        }
        match checked {
            None => Err(AccountError::Internal),
            Some(false) => Err(AccountError::WrongCurrentPassword),
            Some(true) => Ok(()),
        }
    }

    /// Decides a change of password against the hash of the account.
    pub fn check(&self, stored: &str) -> (res: Result<(), AccountError>)
        ensures
            res == change_judged(
                password_change_well_formed(self.current_password@, self.new_password@),
                bcrypt_verify(self.current_password@, stored@),
            ),
    {
        if !self.well_formed() {
            return ChangePasswordData::judge(false, None);
        }
        ChangePasswordData::judge(true, verify_password(self.current_password.as_str(), stored))
    }

    /// The hash to store for the new password: a hash of the new password,
    /// so that a later comparison of that password with what is stored
    /// succeeds. Where the password cannot be hashed, that is a failure of
    /// the server.
    pub fn hashed(&self) -> (res: Result<String, AccountError>)
        ensures
            match res {
                Ok(hash) => is_hash_of(self.new_password@, hash@),
                Err(e) => e == AccountError::Internal,
            },
    {
        hash_or_failure(hash_password(self.new_password.as_str(), PASSWORD_COST))
    }
}

} // verus!
