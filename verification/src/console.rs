//! The application console: `migrate` and `create user`, with their usage text and exit codes.

use vstd::prelude::*;

use crate::cli::{migrate_scan, opt_text, refuse, scan_migrate, scan_user, user_said, words, Said};
use crate::text;

verus! {

/// The text shown on a missing command.
pub open spec fn console_usage() -> Seq<char> {
    "usage: app [command]\ncommands:\n  migrate [--drop]\n  create user [--username NAME] [--password PASS] [--super]"@
}

/// What a console line says, or the usage message it is refused with.
pub open spec fn console_said(args: Seq<Seq<char>>) -> Result<Said, Seq<char>> {
    if args.len() == 0 {
        Err(console_usage())
    } else if args[0] == "migrate"@ {
        match migrate_scan(args.drop_first(), false) {
            Ok(d) => Ok(Said::Migrate(d)),
            Err(m) => Err(m),
        }
    } else if args[0] == "create"@ {
        if args.len() == 1 {
            Err(console_usage())
        } else if args[1] == "user"@ {
            user_said(args.skip(2))
        } else {
            Err("unknown create target "@ + args[1])
        }
    } else {
        Err("unknown command "@ + args[0])
    }
}

/// A parsed console command.
pub enum Command {
    /// Apply schema migrations, dropping tables first when `drop` is set.
    Migrate {
        /// Drop existing tables before migrating.
        drop: bool,
    },
    /// Create something.
    Create(Create),
}

/// What `create` makes.
pub enum Create {
    /// A user with the given credentials.
    User {
        /// Name for the new user.
        username: Option<String>,
        /// Password for the new user.
        password: Option<String>,
        /// Grant superuser access.
        superuser: bool,
    },
}

impl View for Command {
    type V = Said;

    open spec fn view(&self) -> Said {
        match self {
            Command::Migrate { drop } => Said::Migrate(*drop),
            Command::Create(Create::User { username, password, superuser }) => Said::User(
                opt_text(*username),
                opt_text(*password),
                *superuser,
            ),
        }
    }
}

/// A console failure: a malformed invocation or a failure while running.
#[derive(Debug)]
pub enum Fail {
    /// Malformed command-line invocation.
    Usage(String),
    /// Failure while executing a command.
    Error(String),
}

impl Fail {
    /// The message carried by the failure.
    pub fn message(&self) -> (r: String)
        ensures
            r@ == match self {
                Fail::Usage(m) => m@,
                Fail::Error(m) => m@,
            },
    {
        match self {
            Fail::Usage(m) => m.clone(),
            Fail::Error(m) => m.clone(),
        }
    }
}

/// The process exit status of a failure: 2 for usage errors, 1 for runtime errors.
pub fn code(fail: &Fail) -> (r: i32)
    ensures
        r == (if fail is Usage { 2i32 } else { 1i32 }),
{
    match fail {
        Fail::Usage(_) => 2,
        Fail::Error(_) => 1,
    }
}

/// The usage text.
pub fn usage() -> (r: &'static str)
    ensures
        r@ == console_usage(),
{
    "usage: app [command]\ncommands:\n  migrate [--drop]\n  create user [--username NAME] [--password PASS] [--super]"
}

fn carry(f: crate::cli::Fail) -> (r: Fail)
    ensures
        match f {
            crate::cli::Fail::Usage(m) => r matches Fail::Usage(n) && n@ == m@,
            crate::cli::Fail::Error(m) => r matches Fail::Error(n) && n@ == m@,
        },
{
    match f {
        crate::cli::Fail::Usage(m) => Fail::Usage(m),
        crate::cli::Fail::Error(m) => Fail::Error(m),
    }
}

/// Parses the console line (without the program name) into a command.
pub fn parse(args: Vec<String>) -> (r: Result<Command, Fail>)
    ensures
        match r {
            Ok(c) => console_said(words(args@)) == Ok::<Said, Seq<char>>(c@),
            Err(Fail::Usage(m)) => console_said(words(args@)) == Err::<Said, Seq<char>>(m@),
            Err(Fail::Error(_)) => false,
        },
{
    let ghost all = words(args@);
    if args.len() == 0 {
        return Err(Fail::Usage(text::owned(usage())));
    }
    assert(all[0] == args@[0]@);
    let first = args[0].as_str();
    if text::same(first, "migrate") {
        assert(all.drop_first() =~= all.skip(1));
        match scan_migrate(&args, 1) {
            Ok(drop) => Ok(Command::Migrate { drop }),
            Err(f) => Err(carry(f)),
        }
    } else if text::same(first, "create") {
        if args.len() == 1 {
            return Err(Fail::Usage(text::owned(usage())));
        }
        assert(all[1] == args@[1]@);
        let target = args[1].as_str();
        if text::same(target, "user") {
            match scan_user(&args, 2) {
                Ok((username, password, superuser)) => Ok(
                    Command::Create(Create::User { username, password, superuser }),
                ),
                Err(f) => Err(carry(f)),
            }
        } else {
            Err(carry(refuse("unknown create target ", target)))
        }
    } else {
        Err(carry(refuse("unknown command ", first)))
    }
}

/// What `migrate` reports once the store answered: the number of statements run, or the
/// store's failure.
pub fn migrated(outcome: Result<usize, crate::value::StoreError>) -> (r: Result<String, Fail>)
    ensures
        match outcome {
            Ok(n) => r matches Ok(m) && m@ == "migrated "@ + text::digits(n as nat),
            Err(e) => r matches Err(Fail::Error(m)) && m@ == "migrate failed: "@ + e.text(),
        },
{
    match outcome {
        Ok(n) => {
            let mut m = text::owned("migrated ");
            let d = text::size_text(n);
            text::push_str(&mut m, d.as_str());
            Ok(m)
        },
        Err(e) => {
            let mut m = text::owned("migrate failed: ");
            let t = e.message();
            text::push_str(&mut m, t.as_str());
            Err(Fail::Error(m))
        },
    }
}

/// The name and password `create user` needs, or the usage failure naming the missing one.
pub fn credentials(username: Option<String>, password: Option<String>) -> (r: Result<(String, String), Fail>)
    ensures
        match (username, password) {
            (Some(u), Some(p)) => r matches Ok((a, b)) && a@ == u@ && b@ == p@,
            (None, _) => r matches Err(Fail::Usage(m)) && m@ == "create user needs --username NAME"@,
            (Some(_), None) => r matches Err(Fail::Usage(m)) && m@ == "create user needs --password PASS"@,
        },
{
    let u = match username {
        Some(u) => u,
        None => return Err(Fail::Usage(text::owned("create user needs --username NAME"))),
    };
    let p = match password {
        Some(p) => p,
        None => return Err(Fail::Usage(text::owned("create user needs --password PASS"))),
    };
    Ok((u, p))
}

/// What `create user` reports once the account was stored or refused.
pub fn created(outcome: Result<crate::auth::User, crate::error::Error>) -> (r: Result<String, Fail>)
    ensures
        match outcome {
            Ok(u) => r matches Ok(m) && m@ == "created user "@ + u.username@,
            Err(e) => r matches Err(Fail::Error(m)) && m@ == crate::error::text_of(e),
        },
{
    match outcome {
        Ok(u) => {
            let mut m = text::owned("created user ");
            text::push_str(&mut m, u.username.as_str());
            Ok(m)
        },
        Err(e) => Err(Fail::Error(e.message())),
    }
}

} // verus!
