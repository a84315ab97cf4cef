//! Runtime settings and the install secret.

use vstd::prelude::*;

use crate::text;
use crate::value::{Cell, Value};

verus! {

/// `dir/name` as `Path::join` writes it for a relative name on Unix.
pub open spec fn joined_path(dir: Seq<char>, name: Seq<char>) -> Seq<char> {
    if dir.len() == 0 {
        name
    } else if dir.last() == '/' {
        dir + name
    } else {
        dir + "/"@ + name
    }
}

fn join_path(dir: &str, name: &str) -> (r: String)
    ensures
        r@ == joined_path(dir@, name@),
{
    let cs = text::chars(dir);
    if cs.len() == 0 {
        return text::owned(name);
    }
    let mut out = text::owned(dir);
    if cs[cs.len() - 1] != '/' {
        text::push_str(&mut out, "/");
    }
    text::push_str(&mut out, name);
    out
}

/// Runtime settings of an app.
#[derive(Debug)]
pub struct Settings {
    /// Host address to bind.
    pub host: String,
    /// Port to listen on.
    pub port: u16,
    /// Show debug messages in responses.
    pub debug: bool,
    /// Enable the forgery guard.
    pub forgery: bool,
    /// Secret used for signing; required before serving.
    pub secret: Option<String>,
    /// Directory served as static assets.
    pub assets: String,
}

impl Settings {
    /// Settings for local development run from the directory `cwd`.
    pub fn new(cwd: &str) -> (r: Settings)
        ensures
            r.host@ == "127.0.0.1"@ && r.port == 8000 && r.debug && r.forgery && r.secret is None,
            r.assets@ == joined_path(cwd@, "assets"@),
    {
        Settings {
            host: text::owned("127.0.0.1"),
            port: 8000,
            debug: true,
            forgery: true,
            secret: None,
            assets: join_path(cwd, "assets"),
        }
    }

    /// Sets the host to bind.
    pub fn host(self, host: &str) -> (r: Settings)
        ensures
            r.host@ == host@ && r.port == self.port && r.debug == self.debug && r.forgery == self.forgery
                && r.secret == self.secret && r.assets == self.assets,
    {
        Settings { host: text::owned(host), ..self }
    }

    /// Sets the port to listen on.
    pub fn port(self, port: u16) -> (r: Settings)
        ensures
            r.port == port && r.host == self.host && r.debug == self.debug && r.forgery == self.forgery
                && r.secret == self.secret && r.assets == self.assets,
    {
        Settings { port, ..self }
    }

    /// Turns the forgery guard on or off.
    pub fn forgery(self, on: bool) -> (r: Settings)
        ensures
            r.forgery == on && r.host == self.host && r.port == self.port && r.debug == self.debug
                && r.secret == self.secret && r.assets == self.assets,
    {
        Settings { forgery: on, ..self }
    }

    /// Sets the install secret.
    pub fn secret(self, secret: &str) -> (r: Settings)
        ensures
            r.secret matches Some(s) && s@ == secret@,
            r.host == self.host && r.port == self.port && r.debug == self.debug && r.forgery == self.forgery
                && r.assets == self.assets,
    {
        Settings { secret: Some(text::owned(secret)), ..self }
    }

    /// Sets the base directory; assets resolve to its `assets` subdirectory.
    pub fn base_dir(self, dir: &str) -> (r: Settings)
        ensures
            r.assets@ == joined_path(dir@, "assets"@),
            r.host == self.host && r.port == self.port && r.debug == self.debug && r.forgery == self.forgery
                && r.secret == self.secret,
    {
        Settings { assets: join_path(dir, "assets"), ..self }
    }
}

/// The statement that makes the settings table.
pub fn setting_table() -> (r: &'static str)
    ensures
        r@ == "CREATE TABLE IF NOT EXISTS setting (name TEXT PRIMARY KEY, value TEXT)"@,
{
    "CREATE TABLE IF NOT EXISTS setting (name TEXT PRIMARY KEY, value TEXT)"
}

/// The stored secret a settings read returned: the first value of the first row, when it is
/// non-empty text.
pub fn secret_of(first: Option<&Value>) -> (r: Option<String>)
    ensures
        match first {
            Some(v) => match v@ {
                Cell::Str(s) => if s.len() > 0 { r matches Some(x) && x@ == s } else { r is None },
                _ => r is None,
            },
            None => r is None,
        },
{
    match first {
        Some(Value::Str(s)) => if s.as_str().is_empty() { None } else { Some(s.clone()) },
        _ => None,
    }
}

/// A fresh secret: two random UUIDs in simple form, one after the other.
///
/// Trusted: calls `uuid::Uuid::new_v4().simple()` twice and writes them out. The value is random;
/// what holds of every outcome is that each simple UUID is 32 characters.
#[verifier::external_body]
fn fresh_secret() -> (r: String)
    ensures
        r@.len() == 64,
{
    format!("{}{}", uuid::Uuid::new_v4().simple(), uuid::Uuid::new_v4().simple())
}

/// What the last step of establishing the install secret found.
pub enum Found {
    /// Whether the settings table could be made.
    Table(bool),
    /// The stored secret, if the first read found one.
    First(Option<String>),
    /// A new secret was offered for storing.
    Stored,
    /// The stored secret, if the read after storing found one.
    Second(Option<String>),
}

/// The next step of establishing the install secret.
pub enum Next {
    /// Read the stored secret (`again` after storing one).
    Read { again: bool },
    /// Store this new secret unless one is there, then read.
    Insert(String),
    /// Run with this stored secret.
    Keep(String),
    /// Run with this new secret, which is not kept; the reason is given.
    Ephemeral(String, &'static str),
}

/// Decides the next step towards the install secret: keep the stored one when a read finds
/// it, store a fresh one after a first read that finds none, and fall back to a fresh secret
/// that is not kept when the table cannot be made or nothing is found after storing.
pub fn key_step(found: Found) -> (r: Next)
    ensures
        match found {
            Found::Table(ok) => if ok { r == Next::Read { again: false } } else {
                r matches Next::Ephemeral(x, why) && x@.len() == 64 && why@ == "no setting table"@
            },
            Found::First(Some(x)) => r matches Next::Keep(y) && y == x,
            Found::First(None) => r matches Next::Insert(y) && y@.len() == 64,
            Found::Stored => r == Next::Read { again: true },
            Found::Second(Some(x)) => r matches Next::Keep(y) && y == x,
            Found::Second(None) => r matches Next::Ephemeral(y, why) && y@.len() == 64 && why@ == "no secret row"@,
        },
{
    match found {
        Found::Table(ok) => if ok { Next::Read { again: false } } else { Next::Ephemeral(fresh_secret(), "no setting table") },
        Found::First(Some(x)) => Next::Keep(x),
        Found::First(None) => Next::Insert(fresh_secret()),
        Found::Stored => Next::Read { again: true },
        Found::Second(Some(x)) => Next::Keep(x),
        Found::Second(None) => Next::Ephemeral(fresh_secret(), "no secret row"),
    }
}

/// The secret a key file holds: its text without surrounding whitespace, when any is left.
pub fn loaded(contents: &str) -> (r: Option<String>)
    ensures
        match r {
            Some(x) => x@ == crate::memory::trimmed(contents@) && x@.len() > 0,
            None => crate::memory::trimmed(contents@).len() == 0,
        },
{
    let t = crate::memory::trim(contents);
    if t.as_str().is_empty() { None } else { Some(t) }
}

/// The secret to run with: the environment's when it is set and not empty, else the key
/// file's; `None` when a new one must be made.
pub fn chosen(env: Option<String>, file: Option<String>) -> (r: Option<String>)
    ensures
        match env {
            Some(e) => if e@.len() > 0 { r == Some(e) } else { r == file },
            None => r == file,
        },
{
    match env {
        Some(e) => if e.as_str().is_empty() { file } else { Some(e) },
        None => file,
    }
}

} // verus!
