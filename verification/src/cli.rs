//! The command line of the management tool: parsing, usage text and exit codes.

use vstd::prelude::*;

use crate::text;

verus! {

/// What a command line asks for, as plain text.
pub enum Said {
    /// `migrate`, with whether `--drop` was given.
    Migrate(bool),
    /// `create user`: username, password and whether `--super` was given.
    User(Option<Seq<char>>, Option<Seq<char>>, bool),
    /// `create project NAME`.
    Project(Seq<char>),
}

/// The text of every argument, in order.
pub open spec fn words(args: Seq<String>) -> Seq<Seq<char>> {
    args.map_values(|s: String| s@)
}

/// The text inside an optional string.
pub open spec fn opt_text(o: Option<String>) -> Option<Seq<char>> {
    match o {
        Some(s) => Some(s@),
        None => None,
    }
}

/// The text shown by `--help` and on a missing command.
pub open spec fn usage_text() -> Seq<char> {
    "usage: app [command]\ncommands:\n  migrate [--drop]\n  create user [--username NAME] [--password PASS] [--super]\n  create project NAME"@
}

/// The flags after `migrate`: `--drop` sets the flag, anything else is refused.
pub open spec fn migrate_scan(rest: Seq<Seq<char>>, drop: bool) -> Result<bool, Seq<char>>
    decreases rest.len(),
{
    if rest.len() == 0 {
        Ok(drop)
    } else if rest[0] == "--drop"@ {
        migrate_scan(rest.drop_first(), true)
    } else {
        Err("unknown argument "@ + rest[0])
    }
}

/// The word after a flag, if any.
pub open spec fn next_word(rest: Seq<Seq<char>>) -> Option<Seq<char>> {
    if rest.len() > 1 {
        Some(rest[1])
    } else {
        None
    }
}

/// What follows a flag and its word.
pub open spec fn after_word(rest: Seq<Seq<char>>) -> Seq<Seq<char>> {
    if rest.len() > 1 {
        rest.skip(2)
    } else {
        Seq::empty()
    }
}

/// The flags after `create user`: each of `--username` and `--password` takes the next word
/// (nothing when none is left), `--super` sets the flag, anything else is refused.
pub open spec fn user_scan(
    rest: Seq<Seq<char>>,
    user: Option<Seq<char>>,
    pass: Option<Seq<char>>,
    admin: bool,
) -> Result<(Option<Seq<char>>, Option<Seq<char>>, bool), Seq<char>>
    decreases rest.len(),
{
    if rest.len() == 0 {
        Ok((user, pass, admin))
    } else if rest[0] == "--username"@ {
        user_scan(after_word(rest), next_word(rest), pass, admin)
    } else if rest[0] == "--password"@ {
        user_scan(after_word(rest), user, next_word(rest), admin)
    } else if rest[0] == "--super"@ {
        user_scan(rest.drop_first(), user, pass, true)
    } else {
        Err("unknown argument "@ + rest[0])
    }
}

/// The result of `create user` with the given flags.
pub open spec fn user_said(rest: Seq<Seq<char>>) -> Result<Said, Seq<char>> {
    match user_scan(rest, None, None, false) {
        Ok((u, p, s)) => Ok(Said::User(u, p, s)),
        Err(m) => Err(m),
    }
}

/// What a command line says, or the usage message it is refused with.
pub open spec fn said(args: Seq<Seq<char>>) -> Result<Said, Seq<char>> {
    if args.len() == 0 {
        Err(usage_text())
    } else if args[0] == "migrate"@ {
        match migrate_scan(args.drop_first(), false) {
            Ok(d) => Ok(Said::Migrate(d)),
            Err(m) => Err(m),
        }
    } else if args[0] == "create"@ {
        if args.len() == 1 {
            Err(usage_text())
        } else if args[1] == "user"@ {
            user_said(args.skip(2))
        } else if args[1] == "project"@ {
            if args.len() == 2 {
                Err("create project needs a NAME"@)
            } else if args.len() == 3 {
                Ok(Said::Project(args[2]))
            } else {
                Err("unknown argument "@ + args[3])
            }
        } else {
            Err("unknown create target "@ + args[1])
        }
    } else {
        Err(usage_text())
    }
}

/// A parsed command.
pub enum Command {
    /// A command that runs against the open store.
    Db(Db),
    /// Scaffold a new project directory.
    Project {
        /// Name of the new project directory.
        name: String,
    },
}

/// A command that runs against the open store.
pub enum Db {
    /// Apply schema migrations, dropping tables first when `drop` is set.
    Migrate {
        /// Drop existing tables before migrating.
        drop: bool,
    },
    /// Create a user with the given credentials.
    Create {
        /// Name for the new user.
        username: Option<String>,
        /// Password for the new user.
        password: Option<String>,
        /// Grant superuser access.
        superuser: bool,
    },
}

impl View for Command {
    type V = Said;

    open spec fn view(&self) -> Said {
        match self {
            Command::Db(Db::Migrate { drop }) => Said::Migrate(*drop),
            Command::Db(Db::Create { username, password, superuser }) => Said::User(
                opt_text(*username),
                opt_text(*password),
                *superuser,
            ),
            Command::Project { name } => Said::Project(name@),
        }
    }
}

/// A failure: a malformed invocation or a failure while running.
#[derive(Debug)]
pub enum Fail {
    /// Malformed command-line invocation.
    Usage(String),
    /// Failure while executing a command.
    Error(String),
}

impl Fail {
    /// The message carried by the failure.
    pub fn message(&self) -> (r: String)
        ensures
            r@ == match self {
                Fail::Usage(m) => m@,
                Fail::Error(m) => m@,
            },
    {
        match self {
            Fail::Usage(m) => m.clone(),
            Fail::Error(m) => m.clone(),
        }
    }

    /// The process exit status: 2 for usage errors, 1 for runtime errors.
    pub fn exit(&self) -> (r: u8)
        ensures
            r == (if self is Usage { 2u8 } else { 1u8 }),
    {
        match self {
            Fail::Usage(_) => 2,
            Fail::Error(_) => 1,
        }
    }
}

/// A usage failure whose message is `head` followed by `tail`.
pub(crate) fn refuse(head: &str, tail: &str) -> (r: Fail)
    ensures
        r matches Fail::Usage(m) && m@ == head@ + tail@,
{
    let mut m = text::owned(head);
    text::push_str(&mut m, tail);
    Fail::Usage(m)
}

/// Text shown by `--help` and on unknown commands.
pub fn usage() -> (r: &'static str)
    ensures
        r@ == usage_text(),
{
    "usage: app [command]\ncommands:\n  migrate [--drop]\n  create user [--username NAME] [--password PASS] [--super]\n  create project NAME"
}

/// Reads the flags after `migrate`, starting at `from`.
pub(crate) fn scan_migrate(args: &Vec<String>, from: usize) -> (r: Result<bool, Fail>)
    requires
        from <= args@.len(),
    ensures
        match r {
            Ok(d) => migrate_scan(words(args@).skip(from as int), false) == Ok::<bool, Seq<char>>(d),
            Err(Fail::Usage(m)) => migrate_scan(words(args@).skip(from as int), false) == Err::<bool, Seq<char>>(m@),
            Err(Fail::Error(_)) => false,
        },
{
    let ghost all = words(args@);
    let mut drop = false;
    let mut i = from;
    while i < args.len()
        invariant
            from <= i <= args@.len(),
            all == words(args@),
            migrate_scan(all.skip(from as int), false) == migrate_scan(all.skip(i as int), drop),
        decreases args@.len() - i,
    {
        assert(all.skip(i as int).drop_first() =~= all.skip(i as int + 1));
        assert(all.skip(i as int)[0] == args@[i as int]@);
        let arg = args[i].as_str();
        if text::same(arg, "--drop") {
            drop = true;
        } else {
            return Err(refuse("unknown argument ", arg));
        }
        i = i + 1;
    }
    assert(all.skip(i as int).len() == 0);
    Ok(drop)
}

/// Reads the flags after `create user`, starting at `from`.
pub(crate) fn scan_user(args: &Vec<String>, from: usize) -> (r: Result<(Option<String>, Option<String>, bool), Fail>)
    requires
        from <= args@.len(),
    ensures
        match r {
            Ok((u, p, s)) => user_scan(words(args@).skip(from as int), None, None, false)
                == Ok::<(Option<Seq<char>>, Option<Seq<char>>, bool), Seq<char>>((opt_text(u), opt_text(p), s)),
            Err(Fail::Usage(m)) => user_scan(words(args@).skip(from as int), None, None, false)
                == Err::<(Option<Seq<char>>, Option<Seq<char>>, bool), Seq<char>>(m@),
            Err(Fail::Error(_)) => false,
        },
{
    let ghost all = words(args@);
    let mut username: Option<String> = None;
    let mut password: Option<String> = None;
    let mut superuser = false;
    let mut i = from;
    while i < args.len()
        invariant
            from <= i <= args@.len(),
            all == words(args@),
            user_scan(all.skip(from as int), None, None, false)
                == user_scan(all.skip(i as int), opt_text(username), opt_text(password), superuser),
        decreases args@.len() - i,
    {
        let ghost rest = all.skip(i as int);
        assert(rest[0] == args@[i as int]@);
        assert(rest.drop_first() =~= all.skip(i as int + 1));
        let arg = args[i].as_str();
        if text::same(arg, "--username") || text::same(arg, "--password") {
            let word = if i + 1 < args.len() {
                assert(rest[1] == args@[i + 1]@);
                assert(after_word(rest) =~= all.skip(i as int + 2));
                Some(args[i + 1].clone())
            } else {
                assert(after_word(rest) =~= all.skip(args@.len() as int));
                None
            };
            if text::same(arg, "--username") {
                username = word;
            } else {
                password = word;
            }
            i = if i + 1 < args.len() { i + 2 } else { args.len() };
        } else if text::same(arg, "--super") {
            superuser = true;
            i = i + 1;
        } else {
            return Err(refuse("unknown argument ", arg));
        }
    }
    assert(all.skip(i as int).len() == 0);
    Ok((username, password, superuser))
}

/// Parses the command line (without the program name) into a command.
pub fn parse(args: Vec<String>) -> (r: Result<Command, Fail>)
    ensures
        match r {
            Ok(c) => said(words(args@)) == Ok::<Said, Seq<char>>(c@),
            Err(Fail::Usage(m)) => said(words(args@)) == Err::<Said, Seq<char>>(m@),
            Err(Fail::Error(_)) => false,
        },
{
    let ghost all = words(args@);
    if args.len() == 0 {
        return Err(Fail::Usage(text::owned(usage())));
    }
    assert(all[0] == args@[0]@);
    let first = args[0].as_str();
    if text::same(first, "migrate") {
        assert(all.drop_first() =~= all.skip(1));
        match scan_migrate(&args, 1) {
            Ok(drop) => Ok(Command::Db(Db::Migrate { drop })),
            Err(f) => Err(f),
        }
    } else if text::same(first, "create") {
        if args.len() == 1 {
            return Err(Fail::Usage(text::owned(usage())));
        }
        assert(all[1] == args@[1]@);
        let target = args[1].as_str();
        if text::same(target, "user") {
            match scan_user(&args, 2) {
                Ok((username, password, superuser)) => Ok(Command::Db(Db::Create { username, password, superuser })),
                Err(f) => Err(f),
            }
        } else if text::same(target, "project") {
            if args.len() == 2 {
                Err(Fail::Usage(text::owned("create project needs a NAME")))
            } else if args.len() == 3 {
                assert(all[2] == args@[2]@);
                Ok(Command::Project { name: args[2].clone() })
            } else {
                assert(all[3] == args@[3]@);
                Err(refuse("unknown argument ", args[3].as_str()))
            }
        } else {
            Err(refuse("unknown create target ", target))
        }
    } else {
        Err(Fail::Usage(text::owned(usage())))
    }
}

/// A letter of the ASCII alphabet.
pub open spec fn is_letter(c: char) -> bool {
    ('a' <= c && c <= 'z') || ('A' <= c && c <= 'Z')
}

/// A character a project name may hold after its first.
pub open spec fn name_char(c: char) -> bool {
    is_letter(c) || ('0' <= c && c <= '9') || c == '_' || c == '-'
}

/// A project name: a letter, then letters, digits, underscores or dashes.
pub open spec fn valid_name(name: Seq<char>) -> bool {
    name.len() > 0 && is_letter(name[0]) && forall|i: int| 1 <= i < name.len() ==> name_char(#[trigger] name[i])
}

/// Whether `name` can name a new project.
pub fn valid(name: &str) -> (r: bool)
    ensures
        r == valid_name(name@),
{
    let cs = text::chars(name);
    if cs.len() == 0 {
        return false;
    }
    let first = cs[0];
    if !(('a' <= first && first <= 'z') || ('A' <= first && first <= 'Z')) {
        return false;
    }
    let mut i: usize = 1;
    while i < cs.len()
        invariant
            1 <= i <= cs@.len(),
            cs@ == name@,
            forall|j: int| 1 <= j < i ==> name_char(#[trigger] name@[j]),
        decreases cs@.len() - i,
    {
        let c = cs[i];
        if !(('a' <= c && c <= 'z') || ('A' <= c && c <= 'Z') || ('0' <= c && c <= '9') || c == '_' || c == '-') {
            return false;
        }
        i = i + 1;
    }
    true
}

/// What `migrate` reports once the store answered: the number of statements run, or the
/// store's failure.
pub fn migrated(outcome: Result<usize, crate::value::StoreError>) -> (r: Result<String, Fail>)
    ensures
        match outcome {
            Ok(n) => r matches Ok(m) && m@ == "migrated "@ + text::digits(n as nat),
            Err(e) => r matches Err(Fail::Error(m)) && m@ == "migrate failed: "@ + e.text(),
        },
{
    match outcome {
        Ok(n) => {
            let mut m = text::owned("migrated ");
            let d = text::size_text(n);
            text::push_str(&mut m, d.as_str());
            Ok(m)
        },
        Err(e) => {
            let mut m = text::owned("migrate failed: ");
            let t = e.message();
            text::push_str(&mut m, t.as_str());
            Err(Fail::Error(m))
        },
    }
}

/// The name and password `create user` needs, or the usage failure naming the missing one.
pub fn credentials(username: Option<String>, password: Option<String>) -> (r: Result<(String, String), Fail>)
    ensures
        match (username, password) {
            (Some(u), Some(p)) => r matches Ok((a, b)) && a@ == u@ && b@ == p@,
            (None, _) => r matches Err(Fail::Usage(m)) && m@ == "create user needs --username NAME"@,
            (Some(_), None) => r matches Err(Fail::Usage(m)) && m@ == "create user needs --password PASS"@,
        },
{
    let u = match username {
        Some(u) => u,
        None => return Err(Fail::Usage(text::owned("create user needs --username NAME"))),
    };
    let p = match password {
        Some(p) => p,
        None => return Err(Fail::Usage(text::owned("create user needs --password PASS"))),
    };
    Ok((u, p))
}

/// What `create user` reports once the account was stored or refused.
pub fn created(outcome: Result<crate::auth::User, crate::error::Error>) -> (r: Result<String, Fail>)
    ensures
        match outcome {
            Ok(u) => r matches Ok(m) && m@ == "created user "@ + u.username@,
            Err(e) => r matches Err(Fail::Error(m)) && m@ == crate::error::text_of(e),
        },
{
    match outcome {
        Ok(u) => {
            let mut m = text::owned("created user ");
            text::push_str(&mut m, u.username.as_str());
            Ok(m)
        },
        Err(e) => Err(Fail::Error(e.message())),
    }
}

/// A new project's crate name: its name with dashes as underscores.
pub open spec fn crate_of(name: Seq<char>) -> Seq<char> {
    text::replaced(name, "-"@, "_"@)
}

/// The body a skeleton file is written with: the main file names the project's crate.
pub open spec fn body_of(file: Seq<char>, body: Seq<char>, name: Seq<char>) -> Seq<char> {
    if file == "src/main.rs"@ { text::replaced(body, "{CRATE}"@, crate_of(name)) } else { body }
}

/// The files a new project starts with: the manifest naming the project and the framework's
/// directory `home`, then the skeleton's files, in order; refused for an invalid name.
pub fn project_files(name: &str, home: &str, manifest: &str, skel: &Vec<(String, String)>) -> (r: Result<Vec<(String, String)>, Fail>)
    ensures
        !valid_name(name@) ==> (r matches Err(Fail::Usage(m)) && m@ == name@
            + " is not a valid project name (letters, digits, dashes, starts with a letter)"@),
        valid_name(name@) ==> (r matches Ok(files) && {
            &&& files@.len() == skel@.len() + 1
            &&& files@[0].0@ == "Cargo.toml"@
            &&& files@[0].1@ == text::replaced(text::replaced(manifest@, "{NAME}"@, name@), "{PATH}"@, home@)
            &&& forall|k: int| 0 <= k < skel@.len() ==> (#[trigger] files@[k + 1]).0@ == skel@[k].0@
                && files@[k + 1].1@ == body_of(skel@[k].0@, skel@[k].1@, name@)
        }),
{
    if !valid(name) {
        let mut m = text::owned(name);
        text::push_str(&mut m, " is not a valid project name (letters, digits, dashes, starts with a letter)");
        return Err(Fail::Usage(m));
    }
    proof {
        reveal_strlit("-");
        reveal_strlit("{NAME}");
        reveal_strlit("{PATH}");
        reveal_strlit("{CRATE}");
        reveal_strlit("src/main.rs");
    }
    let crate_name = text::replace(name, "-", "_");
    let named = text::replace(manifest, "{NAME}", name);
    let full = text::replace(named.as_str(), "{PATH}", home);
    let mut files: Vec<(String, String)> = Vec::new();
    files.push((text::owned("Cargo.toml"), full));
    let mut k: usize = 0;
    while k < skel.len()
        invariant
            k <= skel@.len(),
            crate_name@ == crate_of(name@),
            files@.len() == k + 1,
            files@[0].0@ == "Cargo.toml"@,
            files@[0].1@ == text::replaced(text::replaced(manifest@, "{NAME}"@, name@), "{PATH}"@, home@),
            forall|j: int| 0 <= j < k ==> (#[trigger] files@[j + 1]).0@ == skel@[j].0@
                && files@[j + 1].1@ == body_of(skel@[j].0@, skel@[j].1@, name@),
        decreases skel@.len() - k,
    {
        let (file, body) = (&skel[k].0, &skel[k].1);
        proof {
            reveal_strlit("{CRATE}");
        }
        let out = if text::same(file.as_str(), "src/main.rs") {
            text::replace(body.as_str(), "{CRATE}", crate_name.as_str())
        } else {
            body.clone()
        };
        files.push((file.clone(), out));
        k = k + 1;
    }
    Ok(files)
}

/// The failure of a new project whose directory is already there.
pub fn project_exists(name: &str) -> (r: Fail)
    ensures
        r matches Fail::Error(m) && m@ == name@ + " already exists"@,
{
    let mut m = text::owned(name);
    text::push_str(&mut m, " already exists");
    Fail::Error(m)
}

/// What a new project reports once its files are written.
pub fn project_made(name: &str) -> (r: String)
    ensures
        r@ == "created project "@ + name@ + " — cd "@ + name@ + " && cargo run"@,
{
    let mut m = text::owned("created project ");
    text::push_str(&mut m, name);
    text::push_str(&mut m, " — cd ");
    text::push_str(&mut m, name);
    text::push_str(&mut m, " && cargo run");
    m
}

} // verus!
