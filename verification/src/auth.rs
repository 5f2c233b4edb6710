use argon2::password_hash::rand_core::{OsRng, RngCore};
use argon2::password_hash::{PasswordHash, PasswordHasher, PasswordVerifier, Salt, SaltString};
use argon2::Argon2;
use vstd::prelude::*;
use vstd::utf8::encode_utf8;

use crate::protocol::{ClientMessage, ServerMessage};
use crate::text::{chars_of, lemma_utf8_len_bounds, trim, trimmed};

verus! {

/// Whether Argon2 accepts `password` against the stored PHC string `stored`:
/// `PasswordHash::new` parses `stored`, and `Argon2::default().verify_password`
/// on the UTF-8 bytes of `password` and that parsed hash returns `Ok`.
pub uninterp spec fn argon2_accepts(password: Seq<char>, stored: Seq<char>) -> bool;

/// The PHC string that `Argon2::default().hash_password` gives for the UTF-8
/// bytes of `password` and the salt whose raw bytes are `salt`.
pub uninterp spec fn argon2_hash(password: Seq<char>, salt: Seq<u8>) -> Seq<char>;

/// Draws `Salt::RECOMMENDED_LENGTH` (16) random bytes with `OsRng`'s
/// `fill_bytes`, the source `SaltString::generate` draws from. Only their
/// number is promised: the bytes are random. Like `SaltString::generate`,
/// it panics if the operating system's random source fails.
#[verifier::external_body]
fn generate_salt() -> (r: Vec<u8>)
    ensures
        r@.len() == 16,
{
    let mut bytes = vec![0u8; Salt::RECOMMENDED_LENGTH];
    OsRng.fill_bytes(&mut bytes);
    bytes
}

/// Hashes `password` with `Argon2::default().hash_password`, taking `salt`
/// through `SaltString::encode_b64`, and renders the hash as its PHC string.
/// The result is named `argon2_hash`. The contract also states what the
/// crate shows: its documented round trip, that such a hash is accepted for
/// the same password; and that hashing fails only for a password over
/// 0xFFFF_FFFF bytes or a salt under 8 bytes (`verify_inputs`), so it
/// succeeds for a 16-byte salt and any shorter password.
#[verifier::external_body]
fn hash_password(password: &str, salt: &[u8]) -> (r: Option<String>)
    ensures
        r matches Some(h) ==> h@ == argon2_hash(password@, salt@),
        r matches Some(h) ==> argon2_accepts(password@, h@),
        salt@.len() == 16 && encode_utf8(password@).len() <= 0xFFFF_FFFF ==> r is Some,
{
    let salt = match SaltString::encode_b64(salt) {
        Ok(salt) => salt,
        Err(_) => return None,
    };
    match Argon2::default().hash_password(password.as_bytes(), &salt) {
        Ok(h) => Some(h.to_string()),
        Err(_) => None,
    }
}

/// Checks `password` against the stored PHC string with
/// `Argon2::default().verify_password`, after parsing the string with
/// `PasswordHash::new`; a string that does not parse is refused.
#[verifier::external_body]
fn verify_password(password: &str, stored: &str) -> (r: bool)
    ensures
        r == argon2_accepts(password@, stored@),
{
    match PasswordHash::new(stored) {
        Ok(parsed) => Argon2::default().verify_password(password.as_bytes(), &parsed).is_ok(),
        Err(_) => false,
    }
}

/// A user name is accepted when something other than white space remains
/// after trimming and it takes at most 20 bytes in UTF-8.
pub open spec fn valid_username(name: Seq<char>) -> bool {
    trimmed(name).len() > 0 && encode_utf8(name).len() <= 20
}

/// Whether `name` is acceptable as a user name.
pub fn is_valid_username(name: &str) -> (r: bool)
    ensures
        r == valid_username(name@),
{
    let t = trim(name);
    if t.as_str().is_empty() {
        return false;
    }
    let n = chars_of(name).len();
    proof {
        lemma_utf8_len_bounds(name@);
    }
    if n > 20 {
        return false;
    }
    name.len() <= 20
}

/// A registration that passed the checks and still has to be stored.
pub struct PendingRegistration {
    pub username: String,
    pub password: String,
}

/// A sign-in that passed the checks and still has to be compared with the
/// stored password hash.
pub struct PendingLogin {
    pub username: String,
    pub password: String,
}

/// What the first message of a connection leads to.
pub enum AuthStart {
    /// Send this message and close the connection.
    Reject(ServerMessage),
    /// Create the account.
    Register(PendingRegistration),
    /// Look up the account's password hash.
    Login(PendingLogin),
}

/// How the sign-in ended.
#[derive(Debug)]
pub enum AuthOutcome {
    /// Signed in under this user name.
    Authenticated(String),
    /// Send this message and close the connection.
    Rejected(ServerMessage),
}

/// An account as it is stored: the name and the Argon2 hash of its password.
pub struct UserRecord {
    pub username: String,
    pub password_hash: String,
}

/// What the lookup of an account's password hash gave.
pub enum PasswordLookup {
    /// The stored PHC string.
    Found(String),
    /// No such account.
    Unknown,
    /// The store could not be read.
    Failed,
}

/// `msg` is an `AuthError` with the text `text`.
pub open spec fn is_auth_error(msg: ServerMessage, text: Seq<char>) -> bool {
    msg matches ServerMessage::AuthError { message } && message@ == text
}

/// What the server does with the first message of a connection; `None`
/// stands for a line that is not a valid message.
pub open spec fn start_spec(first: Option<ClientMessage>, r: AuthStart) -> bool {
    match first {
        None => r matches AuthStart::Reject(ServerMessage::Error { message }) && message@
            == "Invalid protocol message"@,
        Some(ClientMessage::Register { username, password }) => {
            let u = trimmed(username@);
            let p = trimmed(password@);
            if !valid_username(u) {
                r matches AuthStart::Reject(m) && is_auth_error(m, "Invalid username"@)
            } else if p.len() == 0 {
                r matches AuthStart::Reject(m) && is_auth_error(m, "Password cannot be empty"@)
            } else {
                r matches AuthStart::Register(pending) && pending.username@ == u
                    && pending.password@ == p
            }
        },
        Some(ClientMessage::Login { username, password }) => {
            let u = trimmed(username@);
            let p = trimmed(password@);
            if !valid_username(u) {
                r matches AuthStart::Reject(m) && is_auth_error(m, "Invalid username"@)
            } else {
                r matches AuthStart::Login(pending) && pending.username@ == u
                    && pending.password@ == p
            }
        },
        Some(_) => r matches AuthStart::Reject(m) && is_auth_error(
            m,
            "First message must be register or login"@,
        ),
    }
}

fn auth_error(text: &str) -> (m: ServerMessage)
    ensures
        is_auth_error(m, text@),
{
    ServerMessage::AuthError { message: text.to_string() }
}

/// Decides what the first message of a connection leads to; `None` stands
/// for a line that is not a valid message.
pub fn start_session(first: Option<ClientMessage>) -> (r: AuthStart)
    ensures
        start_spec(first, r),
{
    match first {
        None => AuthStart::Reject(
            ServerMessage::Error { message: "Invalid protocol message".to_string() },
        ),
        Some(ClientMessage::Register { username, password }) => {
            let username = trim(username.as_str());
            let password = trim(password.as_str());
            if !is_valid_username(username.as_str()) {
                AuthStart::Reject(auth_error("Invalid username"))
            } else if password.as_str().is_empty() {
                AuthStart::Reject(auth_error("Password cannot be empty"))
            } else {
                AuthStart::Register(PendingRegistration { username, password })
            }
        },
        Some(ClientMessage::Login { username, password }) => {
            let username = trim(username.as_str());
            let password = trim(password.as_str());
            if !is_valid_username(username.as_str()) {
                AuthStart::Reject(auth_error("Invalid username"))
            } else {
                AuthStart::Login(PendingLogin { username, password })
            }
        },
        Some(_) => AuthStart::Reject(auth_error("First message must be register or login")),
    }
}

/// Makes the stored form of a new account: its name and an Argon2 hash of
/// its password with a fresh random 16-byte salt. It succeeds for every
/// password Argon2 takes (at most 0xFFFF_FFFF bytes); `None` otherwise. The
/// salt is random, so two calls give different hashes; each is accepted for
/// the password.
pub fn new_user_record(pending: &PendingRegistration) -> (r: Option<UserRecord>)
    ensures
        encode_utf8(pending.password@).len() <= 0xFFFF_FFFF ==> r is Some,
        r matches Some(rec) ==> rec.username@ == pending.username@ && argon2_accepts(
            pending.password@,
            rec.password_hash@,
        ),
        r matches Some(rec) ==> exists|salt: Seq<u8>|
            salt.len() == 16 && rec.password_hash@ == #[trigger] argon2_hash(
                pending.password@,
                salt,
            ),
{
    let salt = generate_salt();
    match hash_password(pending.password.as_str(), salt.as_slice()) {
        Some(h) => Some(UserRecord { username: pending.username.clone(), password_hash: h }),
        None => None,
    }
}

/// The end of a registration, once the store said whether the account was
/// created.
pub fn finish_registration(pending: PendingRegistration, stored: bool) -> (r: AuthOutcome)
    ensures
        stored ==> (r matches AuthOutcome::Authenticated(u) && u@ == pending.username@),
        !stored ==> (r matches AuthOutcome::Rejected(m) && is_auth_error(
            m,
            "Username already exists"@,
        )),
{
    if stored {
        AuthOutcome::Authenticated(pending.username)
    } else {
        AuthOutcome::Rejected(auth_error("Username already exists"))
    }
}

/// How a sign-in ends, given the lookup of the stored hash and whether the
/// password matched it.
pub open spec fn login_spec(
    username: Seq<char>,
    lookup: PasswordLookup,
    password_ok: bool,
    r: AuthOutcome,
) -> bool {
    match lookup {
        PasswordLookup::Found(_) => if password_ok {
            r matches AuthOutcome::Authenticated(u) && u@ == username
        } else {
            r matches AuthOutcome::Rejected(m) && is_auth_error(m, "Invalid username or password"@)
        },
        PasswordLookup::Unknown => r matches AuthOutcome::Rejected(m) && is_auth_error(
            m,
            "Invalid username or password"@,
        ),
        PasswordLookup::Failed => r matches AuthOutcome::Rejected(m) && is_auth_error(
            m,
            "Authentication failed"@,
        ),
    }
}

/// How a sign-in ends once the stored hash was looked up and, when there
/// was one, compared with the password.
pub fn login_outcome(username: String, lookup: &PasswordLookup, password_ok: bool) -> (r:
    AuthOutcome)
    ensures
        login_spec(username@, *lookup, password_ok, r),
{
    match lookup {
        PasswordLookup::Found(_) => if password_ok {
            AuthOutcome::Authenticated(username)
        } else {
            AuthOutcome::Rejected(auth_error("Invalid username or password"))
        },
        PasswordLookup::Unknown => AuthOutcome::Rejected(
            auth_error("Invalid username or password"),
        ),
        PasswordLookup::Failed => AuthOutcome::Rejected(auth_error("Authentication failed")),
    }
}

/// Whether the password of a sign-in matches what the lookup found.
pub open spec fn password_matches(password: Seq<char>, lookup: PasswordLookup) -> bool {
    lookup matches PasswordLookup::Found(h) && argon2_accepts(password, h@)
}

/// Ends a sign-in: compares the password with the stored hash, when the
/// lookup found one.
pub fn finish_login(pending: PendingLogin, lookup: PasswordLookup) -> (r: AuthOutcome)
    ensures
        login_spec(pending.username@, lookup, password_matches(pending.password@, lookup), r),
{
    let ok = match &lookup {
        PasswordLookup::Found(h) => verify_password(pending.password.as_str(), h.as_str()),
        _ => false,
    };
    login_outcome(pending.username, &lookup, ok)
}


/// An account created from a registration accepts a sign-in with the same
/// name and password: the sign-in passes the same checks, keeps the same
/// name and password, and ends signed in against the stored hash.
pub proof fn lemma_registered_account_signs_in(
    username: String,
    password: String,
    registered: AuthStart,
    login: AuthStart,
    record: UserRecord,
    r: AuthOutcome,
)
    requires
        start_spec(Some(ClientMessage::Register { username, password }), registered),
        registered is Register,
        start_spec(Some(ClientMessage::Login { username, password }), login),
        argon2_accepts(registered->Register_0.password@, record.password_hash@),
        login is Login ==> login_spec(
            login->Login_0.username@,
            PasswordLookup::Found(record.password_hash),
            password_matches(login->Login_0.password@, PasswordLookup::Found(record.password_hash)),
            r,
        ),
    ensures
        login is Login,
        login->Login_0.username@ == registered->Register_0.username@,
        r matches AuthOutcome::Authenticated(u) && u@ == registered->Register_0.username@,
{
}

/// Sign-up: a name that is not blank and takes at most 20 bytes once
/// trimmed, with a password that is not blank, goes on to account creation
/// with the trimmed name and password, whatever the password's length; a
/// blank or longer name is refused as an invalid user name; with an
/// acceptable name, only a blank password is refused.
pub proof fn lemma_signup_checks(username: String, password: String, r: AuthStart)
    requires
        start_spec(Some(ClientMessage::Register { username, password }), r),
    ensures
        ({
            let u = trimmed(username@);
            let p = trimmed(password@);
            &&& (u.len() > 0 && encode_utf8(u).len() <= 20 && p.len() > 0) ==> (r matches AuthStart::Register(
                pending,
            ) && pending.username@ == u && pending.password@ == p)
            &&& (u.len() == 0 || encode_utf8(u).len() > 20) ==> (r matches AuthStart::Reject(m)
                && is_auth_error(m, "Invalid username"@))
            &&& (u.len() > 0 && encode_utf8(u).len() <= 20 && p.len() == 0) ==> (r matches AuthStart::Reject(
                m,
            ) && is_auth_error(m, "Password cannot be empty"@))
        }),
{
    crate::text::lemma_trimmed_idempotent(username@);
}

/// Sign-in: a name that is not blank and takes at most 20 bytes once
/// trimmed goes on to the password check with the trimmed name and
/// password, whatever the password is (even blank); any other name is
/// refused as an invalid user name.
pub proof fn lemma_login_checks(username: String, password: String, r: AuthStart)
    requires
        start_spec(Some(ClientMessage::Login { username, password }), r),
    ensures
        ({
            let u = trimmed(username@);
            let p = trimmed(password@);
            &&& (u.len() > 0 && encode_utf8(u).len() <= 20) ==> (r matches AuthStart::Login(pending)
                && pending.username@ == u && pending.password@ == p)
            &&& (u.len() == 0 || encode_utf8(u).len() > 20) ==> (r matches AuthStart::Reject(m)
                && is_auth_error(m, "Invalid username"@))
        }),
{
    crate::text::lemma_trimmed_idempotent(username@);
}

/// Sign-in answers: the right password signs in under the trimmed name; an
/// unknown name and a wrong password get the same answer, so the answer does
/// not tell which names exist; a store that cannot be read gets another.
pub proof fn lemma_login_answers(
    username: Seq<char>,
    stored: String,
    r_ok: AuthOutcome,
    r_wrong: AuthOutcome,
    r_unknown: AuthOutcome,
    r_failed: AuthOutcome,
    password_ok: bool,
)
    requires
        login_spec(username, PasswordLookup::Found(stored), true, r_ok),
        login_spec(username, PasswordLookup::Found(stored), false, r_wrong),
        login_spec(username, PasswordLookup::Unknown, password_ok, r_unknown),
        login_spec(username, PasswordLookup::Failed, password_ok, r_failed),
    ensures
        r_ok matches AuthOutcome::Authenticated(u) && u@ == username,
        r_wrong is Rejected && r_unknown is Rejected && r_failed is Rejected,
        r_wrong->Rejected_0 is AuthError && r_unknown->Rejected_0 is AuthError
            && r_failed->Rejected_0 is AuthError,
        r_wrong->Rejected_0->AuthError_message@ == r_unknown->Rejected_0->AuthError_message@,
        r_wrong->Rejected_0->AuthError_message@ != r_failed->Rejected_0->AuthError_message@,
{
    reveal_strlit("Invalid username or password");
    reveal_strlit("Authentication failed");
    assert("Invalid username or password"@.len() != "Authentication failed"@.len());
}

} // verus!
