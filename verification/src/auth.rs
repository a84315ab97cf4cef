//! Accounts and sessions: users, password checks, session cookies and route guards.

use vstd::prelude::*;

use crate::error::Error;
use crate::memory::{trim, trimmed};
use crate::model::Model;
use crate::session::{claim, claim_of, hmac_sha256, hex_of, login_target, login_url, sign, signed_text, unhex, verify, Attempts};
use crate::spec::{plain_column, Field, Name, Table, Type};
use crate::text::{self, decimal};
use crate::value::{bool_at, int_at, is_value_error, moment_at, str_at, Cell, Row, StoreError, Value};

verus! {

/// Whether bcrypt accepts the password for the hash.
pub uninterp spec fn bcrypt_ok(password: Seq<char>, hash: Seq<char>) -> bool;

/// Checks a password against a bcrypt hash.
///
/// Trusted: calls `bcrypt::verify`, counting an unreadable hash as a mismatch. The contract
/// names the outcome, which depends on the password and hash alone.
#[verifier::external_body]
pub(crate) fn password_matches(password: &str, hash: &str) -> (r: bool)
    ensures
        r == bcrypt_ok(password@, hash@),
{
    bcrypt::verify(password, hash).unwrap_or(false)
}

/// Hashes a password with bcrypt at its default cost.
///
/// Trusted: calls `bcrypt::hash` with `bcrypt::DEFAULT_COST`; a failure becomes a server error
/// carrying its message. The salt is random, so only what bcrypt documents of every outcome is
/// stated: the hash verifies the password.
#[verifier::external_body]
pub(crate) fn hash_password(password: &str) -> (r: Result<String, Error>)
    ensures
        r matches Ok(h) ==> bcrypt_ok(password@, h@),
        r matches Err(e) ==> e is Server,
{
    bcrypt::hash(password, bcrypt::DEFAULT_COST).map_err(|fail| Error::Server(fail.to_string()))
}

/// A registered account.
#[derive(Clone, Debug)]
pub struct User {
    /// Store-assigned id.
    pub id: i64,
    /// Unique login name.
    pub username: String,
    /// Bcrypt password hash.
    pub password: String,
    /// Creation time, seconds since the Unix epoch.
    pub created: i64,
    /// Whether the user has superuser rights.
    pub superuser: bool,
}

/// The columns of the account table: the id, the unique name, the hash, the creation time and
/// the superuser flag (false unless set).
pub open spec fn user_fields() -> Seq<Field> {
    seq![
        plain_column("id", Type::Id),
        Field { unique: true, ..plain_column("username", Type::Str) },
        plain_column("password", Type::Str),
        plain_column("created", Type::Moment),
        Field { default: Some(Value::Bool(false)), ..plain_column("superuser", Type::Bool) },
    ]
}

/// An account read from a row: id, name, hash, creation time and flag, or the message of the
/// first cell that does not read.
pub open spec fn user_read(v: Seq<Value>) -> Result<(i64, Seq<char>, Seq<char>, i64, bool), Seq<char>> {
    match int_at(v, 0) {
        Err(m) => Err(m),
        Ok(id) => match str_at(v, 1) {
            Err(m) => Err(m),
            Ok(name) => match str_at(v, 2) {
                Err(m) => Err(m),
                Ok(hash) => match moment_at(v, 3) {
                    Err(m) => Err(m),
                    Ok(at) => match bool_at(v, 4) {
                        Err(m) => Err(m),
                        Ok(su) => Ok((id, name, hash, at, su)),
                    },
                },
            },
        },
    }
}

impl Model for User {
    open spec fn table_spec() -> Seq<char> {
        "users"@
    }

    open spec fn fields_spec() -> Seq<Field> {
        user_fields()
    }

    fn table() -> Table {
        assert(<User as Model>::table_spec() == "users"@);
        Table("users")
    }

    fn fields() -> Vec<Field> {
        let mut v: Vec<Field> = Vec::new();
        v.push(Field::id());
        v.push(Field::new("username", Type::Str).unique());
        v.push(Field::new("password", Type::Str));
        v.push(Field::new("created", Type::Moment));
        v.push(Field::new("superuser", Type::Bool).default(Value::Bool(false)));
        assert(v@ =~= user_fields());
        assert(<User as Model>::fields_spec() == user_fields());
        v
    }

    fn row(&self) -> (r: Vec<Value>)
        ensures
            r@.map_values(|v: Value| v@) == seq![
                Cell::Str(self.username@),
                Cell::Str(self.password@),
                Cell::DateTime(self.created as int),
                Cell::Bool(self.superuser),
            ],
    {
        let mut v: Vec<Value> = Vec::new();
        v.push(Value::Str(self.username.clone()));
        v.push(Value::Str(self.password.clone()));
        v.push(Value::DateTime(self.created));
        v.push(Value::Bool(self.superuser));
        assert(v@.map_values(|v: Value| v@) =~= seq![
            Cell::Str(self.username@),
            Cell::Str(self.password@),
            Cell::DateTime(self.created as int),
            Cell::Bool(self.superuser),
        ]);
        v
    }

    fn from_row(row: &Row) -> (r: Result<User, StoreError>)
        ensures
            match user_read(row.values@) {
                Ok((id, name, hash, at, su)) => r matches Ok(u) && u.id == id && u.username@ == name
                    && u.password@ == hash && u.created == at && u.superuser == su,
                Err(m) => r matches Err(e) && is_value_error(e, m),
            },
    {
        let id = match row.integer(0) {
            Ok(x) => x,
            Err(e) => return Err(e),
        };
        let username = match row.str(1) {
            Ok(x) => x,
            Err(e) => return Err(e),
        };
        let password = match row.str(2) {
            Ok(x) => x,
            Err(e) => return Err(e),
        };
        let created = match row.moment(3) {
            Ok(x) => x,
            Err(e) => return Err(e),
        };
        let superuser = match row.bool(4) {
            Ok(x) => x,
            Err(e) => return Err(e),
        };
        Ok(User { id, username, password, created, superuser })
    }

    fn set_id(&mut self, id: Value)
        ensures
            *final(self) == (match id {
                Value::Int(n) => User { id: n, ..*old(self) },
                _ => *old(self),
            }),
    {
        match id {
            Value::Int(n) => self.id = n,
            _ => {},
        }
    }

    fn id(&self) -> (r: Value)
        ensures
            r == Value::Int(self.id),
    {
        Value::Int(self.id)
    }
}

/// Why a signup is refused before anything is stored, if it is.
pub open spec fn signup_refusal(username: Seq<char>, password_bytes: nat) -> Option<Seq<char>> {
    if trimmed(username).len() == 0 {
        Some("username is required"@)
    } else if password_bytes < 8 {
        Some("password must be at least 8 characters"@)
    } else {
        None
    }
}

impl User {
    /// A new account ready to store: trimmed name, bcrypt hash, creation time `now`.
    pub fn prepare(username: &str, password: &str, superuser: bool, now: i64) -> (r: Result<User, Error>)
        ensures
            match signup_refusal(username@, vstd::utf8::encode_utf8(password@).len()) {
                Some(m) => r matches Err(Error::BadRequest(x)) && x@ == m,
                None => match r {
                    Ok(u) => u.id == 0 && u.username@ == trimmed(username@) && bcrypt_ok(password@, u.password@)
                        && u.created == now && u.superuser == superuser,
                    Err(e) => e is Server,
                },
            },
    {
        let name = trim(username);
        if name.as_str().is_empty() {
            return Err(Error::BadRequest(text::owned("username is required")));
        }
        if password.as_bytes().len() < 8 {
            return Err(Error::BadRequest(text::owned("password must be at least 8 characters")));
        }
        let hash = match hash_password(password) {
            Ok(h) => h,
            Err(e) => return Err(e),
        };
        Ok(User { id: 0, username: name, password: hash, created: now, superuser })
    }
}

} // verus!

verus! {

/// What a refused save of a new account answers: a taken name for a uniqueness failure, else a
/// server error with the store's message.
pub fn saved(result: Result<(), StoreError>) -> (r: Result<(), Error>)
    ensures
        match result {
            Ok(()) => r is Ok,
            Err(e) => if text::contains(e.text(), "UNIQUE"@) {
                r matches Err(Error::BadRequest(m)) && m@ == "username is taken"@
            } else {
                r matches Err(Error::Server(m)) && m@ == e.text()
            },
        },
{
    match result {
        Ok(()) => Ok(()),
        Err(e) => {
            let m = e.message();
            let cs = text::chars(m.as_str());
            let w = text::chars("UNIQUE");
            if text::has(cs.as_slice(), w.as_slice()) {
                Err(Error::BadRequest(text::owned("username is taken")))
            } else {
                Err(Error::Server(m))
            }
        },
    }
}

/// What a login picks among the accounts of a name: the first whose hash bcrypt accepts the
/// password for, or none when no hash does.
pub open spec fn picked(users: Seq<User>, password: Seq<char>, r: Option<usize>) -> bool {
    match r {
        Some(i) => i < users.len() && bcrypt_ok(password, users[i as int].password@)
            && forall|j: int| 0 <= j < i ==> !bcrypt_ok(password, #[trigger] users[j].password@),
        None => forall|j: int| 0 <= j < users.len() ==> !bcrypt_ok(password, #[trigger] users[j].password@),
    }
}

/// The first user whose hash bcrypt accepts the password for.
pub fn pick(users: &Vec<User>, password: &str) -> (r: Option<usize>)
    ensures
        picked(users@, password@, r),
{
    let mut i: usize = 0;
    while i < users.len()
        invariant
            i <= users@.len(),
            forall|j: int| 0 <= j < i ==> !bcrypt_ok(password@, #[trigger] users@[j].password@),
        decreases users@.len() - i,
    {
        if password_matches(password, users[i].password.as_str()) {
            return Some(i);
        }
        i = i + 1;
    }
    None
}

/// An account is let in with the password it was registered with: once a signup has prepared
/// it (its hash verifies the password), a login that reads it back among the accounts of its
/// name picks an account, at its place or before it.
pub proof fn register_then_login(users: Seq<User>, i: int, password: Seq<char>, r: Option<usize>)
    requires
        0 <= i < users.len(),
        bcrypt_ok(password, users[i].password@),
        picked(users, password, r),
    ensures
        r matches Some(j) && j <= i,
{
    match r {
        Some(j) => {
            if j > i {
                assert(!bcrypt_ok(password, users[i].password@));
            }
        },
        None => {
            assert(!bcrypt_ok(password, users[i].password@));
        },
    }
}

/// Why a password change is refused, if it is.
pub open spec fn change_refusal(hash: Seq<char>, current: Seq<char>, next: Seq<char>, confirm: Seq<char>) -> Option<Seq<char>> {
    if !bcrypt_ok(current, hash) {
        Some("Current password is incorrect."@)
    } else if vstd::utf8::encode_utf8(next).len() < 8 {
        Some("Password must be at least 8 characters."@)
    } else if next != confirm {
        Some("Passwords do not match."@)
    } else {
        None
    }
}

/// How a password change ends.
pub enum Change {
    /// Refused, with the message shown on the form.
    Refused(String),
    /// Accepted: the user's new hash.
    Hashed(String),
    /// Hashing failed.
    Failed(Error),
}

/// Checks a password change for a user with the given hash and hashes the new password.
pub fn change_password(hash: &str, current: &str, next: &str, confirm: &str) -> (r: Change)
    ensures
        match change_refusal(hash@, current@, next@, confirm@) {
            Some(m) => r matches Change::Refused(x) && x@ == m,
            None => match r {
                Change::Hashed(h) => bcrypt_ok(next@, h@),
                Change::Failed(e) => e is Server,
                Change::Refused(_) => false,
            },
        },
{
    if !password_matches(current, hash) {
        return Change::Refused(text::owned("Current password is incorrect."));
    }
    if next.as_bytes().len() < 8 {
        return Change::Refused(text::owned("Password must be at least 8 characters."));
    }
    if !text::same(next, confirm) {
        return Change::Refused(text::owned("Passwords do not match."));
    }
    match hash_password(next) {
        Ok(h) => Change::Hashed(h),
        Err(e) => Change::Failed(e),
    }
}

/// The currently signed-in user, if any.
#[derive(Clone, Debug)]
pub struct Current(pub Option<User>);

/// What a guarded route does with a request.
#[derive(Debug)]
pub enum Gate {
    /// Let the request through.
    Pass,
    /// Send the visitor to this login address.
    Login(String),
    /// Refuse: signed in without the rights.
    Forbidden,
}

/// `name=raw; Path=/; Max-Age=age; HttpOnly; SameSite=Lax`: the `Set-Cookie` value of a session.
pub open spec fn cookie_text(name: Seq<char>, raw: Seq<char>, age: i64) -> Seq<char> {
    name + "="@ + raw + "; Path=/; Max-Age="@ + decimal(age as int) + "; HttpOnly; SameSite=Lax"@
}

/// The `Set-Cookie` value of a session cookie.
pub fn set_cookie(name: &str, raw: &str, age: i64) -> (r: String)
    ensures
        r@ == cookie_text(name@, raw@, age),
{
    let mut out = text::owned(name);
    text::push_str(&mut out, "=");
    text::push_str(&mut out, raw);
    text::push_str(&mut out, "; Path=/; Max-Age=");
    let a = text::int_text(age);
    text::push_str(&mut out, a.as_str());
    text::push_str(&mut out, "; HttpOnly; SameSite=Lax");
    out
}

/// The signed cookie value `id.exp.sig` of a session.
pub open spec fn session_text(secret: Seq<char>, id: i64, exp: i64) -> Seq<char> {
    decimal(id as int) + "."@ + decimal(exp as int) + "."@
        + hex_of(hmac_sha256(vstd::utf8::encode_utf8(secret), vstd::utf8::encode_utf8(signed_text(id, exp))))
}

/// The user a session cookie value stands for at time `now`: its id, when the value reads as a
/// claim, has not expired, and carries the secret's signature.
pub open spec fn session_of(secret: Seq<char>, raw: Seq<char>, now: i64) -> Option<i64> {
    match claim_of(raw) {
        Some((id, exp, sig)) => if exp < now {
            None
        } else if unhex(sig) matches Some(want) && want == hmac_sha256(vstd::utf8::encode_utf8(secret), vstd::utf8::encode_utf8(signed_text(id, exp))) {
            Some(id)
        } else {
            None
        },
        None => None,
    }
}

/// Everything a configuration holds, by content: secret, login page, cookie name, lifetime,
/// signup switch, lockout limit and window, the failures counted, and whether the counter runs
/// with that limit and window.
pub open spec fn config(a: Authentication) -> (Seq<char>, Seq<char>, Seq<char>, i64, bool, u32, i64, Map<Seq<char>, (u32, u64)>, bool) {
    (a.secret_text(), a.login_path(), a.cookie_name(), a.lifetime(), a.open_signup(), a.limit(), a.window(), a.failures(), a.counter_ok())
}

/// `r` is `a` with the lockout limit set to `max` and the count started over.
pub open spec fn attempts_set(a: Authentication, max: u32, r: Authentication) -> bool {
    let c = config(a);
    config(r) == (c.0, c.1, c.2, c.3, c.4, max, c.6, Map::<Seq<char>, (u32, u64)>::empty(), true)
}

/// `r` is `a` with the lockout window set to `minutes` and the count started over.
pub open spec fn lockout_set(a: Authentication, minutes: i64, r: Authentication) -> bool {
    let c = config(a);
    config(r) == (c.0, c.1, c.2, c.3, c.4, c.5, minutes, Map::<Seq<char>, (u32, u64)>::empty(), true)
}

/// Setting the lockout limit and the lockout window commute: either order gives the same
/// configuration, with the limit and window asked for, no failures counted, and everything else
/// as it was.
pub proof fn lockout_commutes(a: Authentication, max: u32, minutes: i64, x1: Authentication, x: Authentication, y1: Authentication, y: Authentication)
    requires
        attempts_set(a, max, x1),
        lockout_set(x1, minutes, x),
        lockout_set(a, minutes, y1),
        attempts_set(y1, max, y),
    ensures
        config(x) == config(y),
        x.limit() == max && x.window() == minutes,
        x.failures() == Map::<Seq<char>, (u32, u64)>::empty(),
        x.secret_text() == a.secret_text() && x.login_path() == a.login_path() && x.cookie_name() == a.cookie_name()
            && x.lifetime() == a.lifetime() && x.open_signup() == a.open_signup(),
{
}

/// Session cookie and route-guard configuration for signup and login.
#[derive(Debug)]
pub struct Authentication {
    secret: String,
    login: String,
    name: String,
    days: i64,
    signup: bool,
    max: u32,
    minutes: i64,
    attempts: Attempts,
}

impl Authentication {
    /// The signing secret.
    pub closed spec fn secret_text(&self) -> Seq<char> { self.secret@ }
    /// The login page address.
    pub closed spec fn login_path(&self) -> Seq<char> { self.login@ }
    /// The session cookie's name.
    pub closed spec fn cookie_name(&self) -> Seq<char> { self.name@ }
    /// The session lifetime in days.
    pub closed spec fn lifetime(&self) -> i64 { self.days }
    /// Whether the signup page is on.
    pub closed spec fn open_signup(&self) -> bool { self.signup }
    /// Failed logins before lockout.
    pub closed spec fn limit(&self) -> u32 { self.max }
    /// The lockout window in minutes.
    pub closed spec fn window(&self) -> i64 { self.minutes }
    /// The failures counted so far.
    pub closed spec fn failures(&self) -> Map<Seq<char>, (u32, u64)> { self.attempts@ }

    /// The lockout limit and window the failure counter runs with.
    pub closed spec fn counter_ok(&self) -> bool {
        self.attempts.limit() == self.max && self.attempts.window() == crate::session::window_of(self.minutes)
    }

    /// A configuration with the given secret: login at `/login`, cookie `session`, sessions of
    /// 14 days, no signup page, lockout after 5 failures within 15 minutes.
    pub fn new(secret: &str) -> (r: Authentication)
        ensures
            r.secret_text() == secret@,
            r.login_path() == "/login"@,
            r.cookie_name() == "session"@,
            r.lifetime() == 14,
            !r.open_signup(),
            r.limit() == 5,
            r.window() == 15,
            r.failures() == Map::<Seq<char>, (u32, u64)>::empty(),
            r.counter_ok(),
    {
        Authentication {
            secret: text::owned(secret),
            login: text::owned("/login"),
            name: text::owned("session"),
            days: 14,
            signup: false,
            max: 5,
            minutes: 15,
            attempts: Attempts::new(5, 15),
        }
    }

    /// Sets the login page address.
    pub fn login(self, path: &str) -> (r: Authentication)
        ensures
            r.login_path() == path@,
            r.secret_text() == self.secret_text() && r.cookie_name() == self.cookie_name()
                && r.lifetime() == self.lifetime() && r.open_signup() == self.open_signup()
                && r.limit() == self.limit() && r.window() == self.window() && r.failures() == self.failures(),
            self.counter_ok() ==> r.counter_ok(),
    {
        Authentication { login: text::owned(path), ..self }
    }

    /// Sets the session cookie's name.
    pub fn cookie(self, name: &str) -> (r: Authentication)
        ensures
            r.cookie_name() == name@,
            r.secret_text() == self.secret_text() && r.login_path() == self.login_path()
                && r.lifetime() == self.lifetime() && r.open_signup() == self.open_signup()
                && r.limit() == self.limit() && r.window() == self.window() && r.failures() == self.failures(),
            self.counter_ok() ==> r.counter_ok(),
    {
        Authentication { name: text::owned(name), ..self }
    }

    /// Sets the session lifetime in days.
    pub fn expiry(self, days: i64) -> (r: Authentication)
        ensures
            r.lifetime() == days,
            r.secret_text() == self.secret_text() && r.login_path() == self.login_path()
                && r.cookie_name() == self.cookie_name() && r.open_signup() == self.open_signup()
                && r.limit() == self.limit() && r.window() == self.window() && r.failures() == self.failures(),
            self.counter_ok() ==> r.counter_ok(),
    {
        Authentication { days, ..self }
    }

    /// Turns the signup page on or off.
    pub fn signup(self, on: bool) -> (r: Authentication)
        ensures
            r.open_signup() == on,
            r.secret_text() == self.secret_text() && r.login_path() == self.login_path()
                && r.cookie_name() == self.cookie_name() && r.lifetime() == self.lifetime()
                && r.limit() == self.limit() && r.window() == self.window() && r.failures() == self.failures(),
            self.counter_ok() ==> r.counter_ok(),
    {
        Authentication { signup: on, ..self }
    }

    /// Sets the failed logins before lockout; the count starts over.
    pub fn attempts(self, max: u32) -> (r: Authentication)
        ensures
            r.limit() == max,
            r.failures() == Map::<Seq<char>, (u32, u64)>::empty(),
            r.counter_ok(),
            r.secret_text() == self.secret_text() && r.login_path() == self.login_path()
                && r.cookie_name() == self.cookie_name() && r.lifetime() == self.lifetime()
                && r.open_signup() == self.open_signup() && r.window() == self.window(),
            attempts_set(self, max, r),
    {
        let minutes = self.minutes;
        Authentication { max, attempts: Attempts::new(max, minutes), ..self }
    }

    /// Sets the lockout window in minutes; the count starts over.
    pub fn lockout(self, minutes: i64) -> (r: Authentication)
        ensures
            r.window() == minutes,
            r.failures() == Map::<Seq<char>, (u32, u64)>::empty(),
            r.counter_ok(),
            r.secret_text() == self.secret_text() && r.login_path() == self.login_path()
                && r.cookie_name() == self.cookie_name() && r.lifetime() == self.lifetime()
                && r.open_signup() == self.open_signup() && r.limit() == self.limit(),
            lockout_set(self, minutes, r),
    {
        let max = self.max;
        Authentication { minutes, attempts: Attempts::new(max, minutes), ..self }
    }

    /// The login page address.
    pub fn login_page(&self) -> (r: &str)
        ensures
            r@ == self.login_path(),
    {
        self.login.as_str()
    }

    /// The session cookie's name.
    pub fn cookie_key(&self) -> (r: &str)
        ensures
            r@ == self.cookie_name(),
    {
        self.name.as_str()
    }

    /// Whether the signup page is on.
    pub fn signup_open(&self) -> (r: bool)
        ensures
            r == self.open_signup(),
    {
        self.signup
    }

    /// The id of the user a session cookie value signs in at time `now`, if any.
    pub fn session_id(&self, raw: Option<&str>, now: i64) -> (r: Option<i64>)
        ensures
            r == match raw {
                Some(s) => session_of(self.secret_text(), s@, now),
                None => None,
            },
    {
        let raw = match raw {
            Some(s) => s,
            None => return None,
        };
        match claim(raw) {
            Some((id, exp, sig)) => {
                if exp < now {
                    None
                } else if verify(self.secret.as_str(), id, exp, sig.as_str()) {
                    Some(id)
                } else {
                    None
                }
            },
            None => None,
        }
    }

    /// The `Set-Cookie` value that signs a user in at `now`, for the configured lifetime.
    pub fn cookie_for(&self, id: i64, now: i64) -> (r: String)
        requires
            i64::MIN <= now + self.lifetime() * 86400 <= i64::MAX,
            i64::MIN <= self.lifetime() * 86400 <= i64::MAX,
        ensures
            r@ == cookie_text(self.cookie_name(),
                session_text(self.secret_text(), id, (now + self.lifetime() * 86400) as i64),
                (self.lifetime() * 86400) as i64),
    {
        let age = self.days * 86400;
        let exp = now + age;
        let mut raw = text::int_text(id);
        text::push_str(&mut raw, ".");
        let e = text::int_text(exp);
        text::push_str(&mut raw, e.as_str());
        text::push_str(&mut raw, ".");
        let s = sign(self.secret.as_str(), id, exp);
        text::push_str(&mut raw, s.as_str());
        set_cookie(self.name.as_str(), raw.as_str(), age)
    }

    /// The `Set-Cookie` value that ends a session.
    pub fn cookie_gone(&self) -> (r: String)
        ensures
            r@ == cookie_text(self.cookie_name(), Seq::empty(), 0),
    {
        proof { reveal_strlit(""); }
        set_cookie(self.name.as_str(), "", 0)
    }

    /// What a route that needs a signed-in user does for a request to `back`.
    pub fn require_login(&self, current: &Current, back: &str) -> (r: Gate)
        ensures
            match current.0 {
                Some(_) => r is Pass,
                None => r matches Gate::Login(url) && url@ == login_target(self.login_path(), back@),
            },
    {
        match &current.0 {
            Some(_) => Gate::Pass,
            None => Gate::Login(login_url(self.login.as_str(), back)),
        }
    }

    /// What a route for superusers does for a request to `back`.
    pub fn require_superuser(&self, current: &Current, back: &str) -> (r: Gate)
        ensures
            match current.0 {
                Some(u) => if u.superuser { r is Pass } else { r is Forbidden },
                None => r matches Gate::Login(url) && url@ == login_target(self.login_path(), back@),
            },
    {
        match &current.0 {
            Some(u) => if u.superuser { Gate::Pass } else { Gate::Forbidden },
            None => Gate::Login(login_url(self.login.as_str(), back)),
        }
    }

    /// Whether `name` is locked out at `now`, forgetting closed windows.
    pub fn locked(&mut self, name: &str, now: u64) -> (r: bool)
        requires
            old(self).counter_ok(),
        ensures
            final(self).counter_ok(),
            final(self).failures() == crate::session::kept_map(old(self).failures(),
                crate::session::open_at(now, crate::session::window_of(old(self).window()))),
            r == (final(self).failures().dom().contains(name@) && final(self).failures()[name@].0 >= old(self).limit()),
            final(self).secret_text() == old(self).secret_text() && final(self).login_path() == old(self).login_path()
                && final(self).cookie_name() == old(self).cookie_name() && final(self).lifetime() == old(self).lifetime()
                && final(self).open_signup() == old(self).open_signup() && final(self).limit() == old(self).limit()
                && final(self).window() == old(self).window(),
    {
        self.attempts.blocked_at(name, now)
    }

    /// Records the outcome of a login for `name` at `now`: a success clears its failures, a
    /// failure counts one more.
    pub fn record(&mut self, name: &str, succeeded: bool, now: u64)
        requires
            old(self).counter_ok(),
        ensures
            final(self).counter_ok(),
            final(self).failures() == if succeeded {
                old(self).failures().remove(name@)
            } else {
                old(self).failures().insert(name@, crate::session::bumped(old(self).failures(), name@, now,
                    crate::session::window_of(old(self).window())))
            },
            final(self).secret_text() == old(self).secret_text() && final(self).login_path() == old(self).login_path()
                && final(self).cookie_name() == old(self).cookie_name() && final(self).lifetime() == old(self).lifetime()
                && final(self).open_signup() == old(self).open_signup() && final(self).limit() == old(self).limit()
                && final(self).window() == old(self).window(),
    {
        if succeeded {
            self.attempts.clear(name);
        } else {
            self.attempts.fail_at(name, now);
        }
    }
}

/// Session cookie and login configuration of the first release of the framework.
#[derive(Debug)]
pub struct Auth {
    secret: String,
    login: String,
    cookie: String,
    days: i64,
    signup: bool,
}

impl Auth {
    /// The signing secret.
    pub closed spec fn secret_text(&self) -> Seq<char> { self.secret@ }
    /// The login page address.
    pub closed spec fn login_path(&self) -> Seq<char> { self.login@ }
    /// The session cookie's name.
    pub closed spec fn cookie_name(&self) -> Seq<char> { self.cookie@ }
    /// The session lifetime in days.
    pub closed spec fn lifetime(&self) -> i64 { self.days }
    /// Whether the signup page is on.
    pub closed spec fn open_signup(&self) -> bool { self.signup }

    /// A configuration with the given secret: login at `/login`, cookie `session`, sessions of
    /// 14 days, no signup page.
    pub fn new(secret: &str) -> (r: Auth)
        ensures
            r.secret_text() == secret@ && r.login_path() == "/login"@ && r.cookie_name() == "session"@
                && r.lifetime() == 14 && !r.open_signup(),
    {
        Auth { secret: text::owned(secret), login: text::owned("/login"), cookie: text::owned("session"), days: 14, signup: false }
    }

    /// Sets the login page address.
    pub fn login(self, path: &str) -> (r: Auth)
        ensures
            r.login_path() == path@ && r.secret_text() == self.secret_text() && r.cookie_name() == self.cookie_name()
                && r.lifetime() == self.lifetime() && r.open_signup() == self.open_signup(),
    {
        Auth { login: text::owned(path), ..self }
    }

    /// Sets the session cookie's name.
    pub fn cookie(self, name: &str) -> (r: Auth)
        ensures
            r.cookie_name() == name@ && r.secret_text() == self.secret_text() && r.login_path() == self.login_path()
                && r.lifetime() == self.lifetime() && r.open_signup() == self.open_signup(),
    {
        Auth { cookie: text::owned(name), ..self }
    }

    /// Sets the session lifetime in days.
    pub fn expiry(self, days: i64) -> (r: Auth)
        ensures
            r.lifetime() == days && r.secret_text() == self.secret_text() && r.login_path() == self.login_path()
                && r.cookie_name() == self.cookie_name() && r.open_signup() == self.open_signup(),
    {
        Auth { days, ..self }
    }

    /// Turns the signup page on or off.
    pub fn signup(self, on: bool) -> (r: Auth)
        ensures
            r.open_signup() == on && r.secret_text() == self.secret_text() && r.login_path() == self.login_path()
                && r.cookie_name() == self.cookie_name() && r.lifetime() == self.lifetime(),
    {
        Auth { signup: on, ..self }
    }

    /// The id of the user a session cookie value signs in at time `now`, if any.
    pub fn session_id(&self, raw: Option<&str>, now: i64) -> (r: Option<i64>)
        ensures
            r == match raw {
                Some(s) => session_of(self.secret_text(), s@, now),
                None => None,
            },
    {
        let raw = match raw {
            Some(s) => s,
            None => return None,
        };
        match claim(raw) {
            Some((id, exp, sig)) => {
                if exp < now {
                    None
                } else if verify(self.secret.as_str(), id, exp, sig.as_str()) {
                    Some(id)
                } else {
                    None
                }
            },
            None => None,
        }
    }
}

/// A session cookie made for a user reads back, at any time up to its expiry, as that user.
pub proof fn session_round_trip(secret: Seq<char>, id: i64, exp: i64, now: i64)
    requires
        now <= exp,
    ensures
        session_of(secret, session_text(secret, id, exp), now) == Some(id),
{
    let tag = hmac_sha256(vstd::utf8::encode_utf8(secret), vstd::utf8::encode_utf8(signed_text(id, exp)));
    let h = hex_of(tag);
    let a = decimal(id as int);
    let b = decimal(exp as int);
    let s = session_text(secret, id, exp);
    text::decimal_read_back(id);
    text::decimal_read_back(exp);
    crate::session::hex_has_no_dot(tag);
    crate::session::unhex_hex(tag);
    assert(s =~= a + "."@ + b + "."@ + h);
    reveal_strlit(".");
    assert(s[a.len() as int] == '.');
    assert forall|j: int| 0 <= j < a.len() implies s[j] != '.' by {
        assert(s[j] == a[j]);
    }
    text::first_of_is(s, '.', a.len() as int);
    let rest = s.skip(a.len() as int + 1);
    assert(rest =~= b + "."@ + h);
    assert(rest[b.len() as int] == '.');
    assert forall|j: int| 0 <= j < b.len() implies rest[j] != '.' by {
        assert(rest[j] == b[j]);
    }
    text::first_of_is(rest, '.', b.len() as int);
    assert(rest.skip(b.len() as int + 1) =~= h);
    text::first_of_none(h, '.');
    assert(s.take(a.len() as int) =~= a);
    assert(rest.take(b.len() as int) =~= b);
}

} // verus!

verus! {

/// The `next` page a form keeps: the given one when it stays on this site, else nothing.
pub open spec fn kept_next(next: Option<Seq<char>>) -> Seq<char> {
    match next {
        Some(n) => if crate::session::local_path(n) { n } else { Seq::empty() },
        None => Seq::empty(),
    }
}

/// The text of an optional string.
pub open spec fn text_opt(s: Option<String>) -> Option<Seq<char>> {
    match s {
        Some(x) => Some(x@),
        None => None,
    }
}

fn keep_next(next: Option<String>) -> (r: String)
    ensures
        r@ == kept_next(text_opt(next)),
{
    match crate::session::safe_next(next) {
        Some(n) => n,
        None => {
            proof {
                reveal_strlit("");
            }
            String::new()
        },
    }
}

/// What the login page does for a visitor.
#[derive(Debug)]
pub enum LoginPage {
    /// Send the browser to the address.
    Go(String),
    /// Show the form: the signed-in user's name, if any, and the page to go to after.
    Show {
        /// The signed-in user's name.
        user: Option<String>,
        /// Where a successful login goes.
        next: String,
    },
}

/// How a login attempt ends.
#[derive(Debug)]
pub enum Entered {
    /// Refused: the form again with the message, and the page to go to after.
    Denied {
        /// The message shown.
        error: String,
        /// Where a later successful login goes.
        next: String,
    },
    /// Signed in: the address to go to and the session cookie.
    Welcome {
        /// Where to go.
        to: String,
        /// The `Set-Cookie` value.
        cookie: String,
    },
}

/// How a signup ends when it does not fail outright.
#[derive(Debug)]
pub enum Signup {
    /// Refused, with the message shown on the form.
    Failed(String),
    /// Signed up and signed in: the session cookie.
    Welcome(String),
}

/// The `Set-Cookie` value that signs a user in at `now` under a configuration.
pub open spec fn cookie_at(a: Authentication, id: i64, now: i64) -> Seq<char> {
    cookie_text(a.cookie_name(), session_text(a.secret_text(), id, (now + a.lifetime() * 86400) as i64), (a.lifetime() * 86400) as i64)
}

/// Whether the session arithmetic of a configuration fits at `now`.
pub open spec fn fits(a: Authentication, now: i64) -> bool {
    &&& i64::MIN <= now + a.lifetime() * 86400 <= i64::MAX
    &&& i64::MIN <= a.lifetime() * 86400 <= i64::MAX
}

impl Authentication {
    /// The login page: a signed-in visitor with a `next` page on this site goes there, else sees
    /// the form naming them; a visitor sees the form carrying the `next` page kept.
    pub fn show(&self, current: &Current, next: Option<String>) -> (r: LoginPage)
        ensures
            match current.0 {
                Some(u) => if kept_next(text_opt(next)).len() > 0 {
                    r matches LoginPage::Go(to) && to@ == kept_next(text_opt(next))
                } else {
                    r matches LoginPage::Show { user: Some(n), next: x } && n@ == u.username@ && x@.len() == 0
                },
                None => r matches LoginPage::Show { user: None, next: x } && x@ == kept_next(text_opt(next)),
            },
    {
        let kept = keep_next(next);
        match &current.0 {
            Some(u) => {
                if !kept.as_str().is_empty() {
                    LoginPage::Go(kept)
                } else {
                    LoginPage::Show { user: Some(u.username.clone()), next: kept }
                }
            },
            None => LoginPage::Show { user: None, next: kept },
        }
    }

    /// A login attempt for `name` refused before the password is checked, when the name is
    /// locked out at `now`.
    pub fn refuse(&mut self, name: &str, next: Option<String>, now: i64) -> (r: Option<Entered>)
        requires
            old(self).counter_ok(),
            now >= 0,
        ensures
            final(self).counter_ok(),
            final(self).failures() == crate::session::kept_map(old(self).failures(),
                crate::session::open_at(now as u64, crate::session::window_of(old(self).window()))),
            final(self).secret_text() == old(self).secret_text() && final(self).login_path() == old(self).login_path()
                && final(self).cookie_name() == old(self).cookie_name() && final(self).lifetime() == old(self).lifetime()
                && final(self).open_signup() == old(self).open_signup() && final(self).limit() == old(self).limit()
                && final(self).window() == old(self).window(),
            (final(self).failures().dom().contains(name@) && final(self).failures()[name@].0 >= old(self).limit()) <==> r is Some,
            r matches Some(e) ==> (e matches Entered::Denied { error, next: x }
                && error@ == "Too many attempts. Try again later."@ && x@ == kept_next(text_opt(next))),
    {
        if self.locked(name, now as u64) {
            Some(Entered::Denied { error: text::owned("Too many attempts. Try again later."), next: keep_next(next) })
        } else {
            None
        }
    }

    /// A login attempt for `name` once the store answered with the user the password fits, if
    /// any: that user's failures are cleared and the visitor goes to the kept `next` page (`/`
    /// when there is none) with a session cookie; otherwise the name counts one more failure.
    pub fn enter(&mut self, name: &str, found: Option<&User>, next: Option<String>, now: i64) -> (r: Entered)
        requires
            old(self).counter_ok(),
            now >= 0,
            fits(*old(self), now),
        ensures
            final(self).counter_ok(),
            final(self).secret_text() == old(self).secret_text() && final(self).login_path() == old(self).login_path()
                && final(self).cookie_name() == old(self).cookie_name() && final(self).lifetime() == old(self).lifetime()
                && final(self).open_signup() == old(self).open_signup() && final(self).limit() == old(self).limit()
                && final(self).window() == old(self).window(),
            match found {
                Some(u) => {
                    &&& final(self).failures() == old(self).failures().remove(u.username@)
                    &&& r matches Entered::Welcome { to, cookie }
                    &&& to@ == if kept_next(text_opt(next)).len() > 0 { kept_next(text_opt(next)) } else { "/"@ }
                    &&& cookie@ == cookie_at(*old(self), u.id, now)
                },
                None => {
                    &&& final(self).failures() == old(self).failures().insert(name@, crate::session::bumped(
                        old(self).failures(),
                        name@,
                        now as u64,
                        crate::session::window_of(old(self).window()),
                    ))
                    &&& r matches Entered::Denied { error, next: x }
                    &&& error@ == "Invalid username or password."@
                    &&& x@ == kept_next(text_opt(next))
                },
            },
    {
        let kept = keep_next(next);
        match found {
            Some(u) => {
                self.record(u.username.as_str(), true, now as u64);
                let cookie = self.cookie_for(u.id, now);
                let to = if kept.as_str().is_empty() { text::owned("/") } else { kept };
                Entered::Welcome { to, cookie }
            },
            None => {
                self.record(name, false, now as u64);
                Entered::Denied { error: text::owned("Invalid username or password."), next: kept }
            },
        }
    }

    /// A signup whose two passwords differ is refused before anything is stored.
    pub fn confirm(password: &str, again: &str) -> (r: Option<Signup>)
        ensures
            password@ == again@ <==> r is None,
            r matches Some(s) ==> (s matches Signup::Failed(m) && m@ == "Passwords do not match."@),
    {
        if text::same(password, again) {
            None
        } else {
            Some(Signup::Failed(text::owned("Passwords do not match.")))
        }
    }

    /// How a signup ends once the account was stored or refused: the new user signs in at
    /// `now`, a bad request shows its message, and any other error stays an error.
    pub fn create(&self, outcome: Result<User, Error>, now: i64) -> (r: Result<Signup, Error>)
        requires
            fits(*self, now),
        ensures
            match outcome {
                Ok(u) => r matches Ok(Signup::Welcome(c)) && c@ == cookie_at(*self, u.id, now),
                Err(Error::BadRequest(m)) => r matches Ok(Signup::Failed(x)) && x@ == m@,
                Err(e) => r == Err::<Signup, Error>(e),
            },
    {
        match outcome {
            Ok(u) => Ok(Signup::Welcome(self.cookie_for(u.id, now))),
            Err(Error::BadRequest(m)) => Ok(Signup::Failed(m)),
            Err(e) => Err(e),
        }
    }

    /// Where the password page sends a visitor who is not signed in: the login page.
    pub fn show_password(&self, current: &Current) -> (r: Option<String>)
        ensures
            current.0 is None <==> r is Some,
            r matches Some(to) ==> to@ == self.login_path(),
    {
        match &current.0 {
            Some(_) => None,
            None => Some(self.login.clone()),
        }
    }

    /// Where the signup page sends a visitor who is already signed in: the home page.
    pub fn show_signup(&self, current: &Current) -> (r: Option<String>)
        ensures
            current.0 is Some <==> r is Some,
            r matches Some(to) ==> to@ == "/"@,
    {
        match &current.0 {
            Some(_) => Some(text::owned("/")),
            None => None,
        }
    }

    /// Logging out: the login page to go to and the cookie that ends the session.
    pub fn exit(&self) -> (r: (String, String))
        ensures
            r.0@ == self.login_path(),
            r.1@ == cookie_text(self.cookie_name(), Seq::empty(), 0),
    {
        (self.login.clone(), self.cookie_gone())
    }
}

} // verus!

verus! {

/// The `Set-Cookie` value that signs a user in at `now` under a first-release configuration.
pub open spec fn auth_cookie_at(a: Auth, id: i64, now: i64) -> Seq<char> {
    cookie_text(a.cookie_name(), session_text(a.secret_text(), id, (now + a.lifetime() * 86400) as i64), (a.lifetime() * 86400) as i64)
}

/// Whether the session arithmetic of a first-release configuration fits at `now`.
pub open spec fn auth_fits(a: Auth, now: i64) -> bool {
    &&& i64::MIN <= now + a.lifetime() * 86400 <= i64::MAX
    &&& i64::MIN <= a.lifetime() * 86400 <= i64::MAX
}

impl Auth {
    /// The `Set-Cookie` value that signs a user in at `now`, for the configured lifetime.
    pub fn cookie_for(&self, id: i64, now: i64) -> (r: String)
        requires
            auth_fits(*self, now),
        ensures
            r@ == auth_cookie_at(*self, id, now),
    {
        let age = self.days * 86400;
        let exp = now + age;
        let mut raw = text::int_text(id);
        text::push_str(&mut raw, ".");
        let e = text::int_text(exp);
        text::push_str(&mut raw, e.as_str());
        text::push_str(&mut raw, ".");
        let s = sign(self.secret.as_str(), id, exp);
        text::push_str(&mut raw, s.as_str());
        set_cookie(self.cookie.as_str(), raw.as_str(), age)
    }

    /// The login page, as for [`Authentication::show`].
    pub fn show(&self, current: &Current, next: Option<String>) -> (r: LoginPage)
        ensures
            match current.0 {
                Some(u) => if kept_next(text_opt(next)).len() > 0 {
                    r matches LoginPage::Go(to) && to@ == kept_next(text_opt(next))
                } else {
                    r matches LoginPage::Show { user: Some(n), next: x } && n@ == u.username@ && x@.len() == 0
                },
                None => r matches LoginPage::Show { user: None, next: x } && x@ == kept_next(text_opt(next)),
            },
    {
        let kept = keep_next(next);
        match &current.0 {
            Some(u) => {
                if !kept.as_str().is_empty() {
                    LoginPage::Go(kept)
                } else {
                    LoginPage::Show { user: Some(u.username.clone()), next: kept }
                }
            },
            None => LoginPage::Show { user: None, next: kept },
        }
    }

    /// A login once the store answered with the user the password fits, if any: that user goes
    /// to the kept `next` page (`/` when there is none) with a session cookie; otherwise the
    /// form shows the refusal. There is no lockout in this release.
    pub fn enter(&self, found: Option<&User>, next: Option<String>, now: i64) -> (r: Entered)
        requires
            auth_fits(*self, now),
        ensures
            match found {
                Some(u) => r matches Entered::Welcome { to, cookie } && to@ == (if kept_next(text_opt(next)).len()
                    > 0 { kept_next(text_opt(next)) } else { "/"@ }) && cookie@ == auth_cookie_at(*self, u.id, now),
                None => r matches Entered::Denied { error, next: x } && error@ == "Invalid username or password."@
                    && x@ == kept_next(text_opt(next)),
            },
    {
        let kept = keep_next(next);
        match found {
            Some(u) => {
                let cookie = self.cookie_for(u.id, now);
                let to = if kept.as_str().is_empty() { text::owned("/") } else { kept };
                Entered::Welcome { to, cookie }
            },
            None => Entered::Denied { error: text::owned("Invalid username or password."), next: kept },
        }
    }

    /// How a signup ends once the account was stored or refused, as for
    /// [`Authentication::create`].
    pub fn create(&self, outcome: Result<User, Error>, now: i64) -> (r: Result<Signup, Error>)
        requires
            auth_fits(*self, now),
        ensures
            match outcome {
                Ok(u) => r matches Ok(Signup::Welcome(c)) && c@ == auth_cookie_at(*self, u.id, now),
                Err(Error::BadRequest(m)) => r matches Ok(Signup::Failed(x)) && x@ == m@,
                Err(e) => r == Err::<Signup, Error>(e),
            },
    {
        match outcome {
            Ok(u) => Ok(Signup::Welcome(self.cookie_for(u.id, now))),
            Err(Error::BadRequest(m)) => Ok(Signup::Failed(m)),
            Err(e) => Err(e),
        }
    }

    /// Where the password page sends a visitor who is not signed in: the login page.
    pub fn show_password(&self, current: &Current) -> (r: Option<String>)
        ensures
            current.0 is None <==> r is Some,
            r matches Some(to) ==> to@ == self.login_path(),
    {
        match &current.0 {
            Some(_) => None,
            None => Some(self.login.clone()),
        }
    }

    /// Where the signup page sends a visitor who is already signed in: the home page.
    pub fn show_signup(&self, current: &Current) -> (r: Option<String>)
        ensures
            current.0 is Some <==> r is Some,
            r matches Some(to) ==> to@ == "/"@,
    {
        match &current.0 {
            Some(_) => Some(text::owned("/")),
            None => None,
        }
    }

    /// What a route that needs a signed-in user does for a request to `back`.
    pub fn require_login(&self, current: &Current, back: &str) -> (r: Gate)
        ensures
            match current.0 {
                Some(_) => r is Pass,
                None => r matches Gate::Login(url) && url@ == login_target(self.login_path(), back@),
            },
    {
        match &current.0 {
            Some(_) => Gate::Pass,
            None => Gate::Login(login_url(self.login.as_str(), back)),
        }
    }

    /// Logging out: the login page to go to and the cookie that ends the session.
    pub fn exit(&self) -> (r: (String, String))
        ensures
            r.0@ == self.login_path(),
            r.1@ == cookie_text(self.cookie_name(), Seq::empty(), 0),
    {
        proof {
            reveal_strlit("");
        }
        (self.login.clone(), set_cookie(self.cookie.as_str(), "", 0))
    }
}

} // verus!
