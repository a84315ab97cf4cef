use rango::cli::{created, credentials, migrated, parse, project_exists, project_files, project_made, usage, valid, Command, Db, Fail};
use rango::text::replace;

fn args(raw: &[&str]) -> Vec<String> {
    raw.iter().map(|item| item.to_string()).collect()
}

#[test]
fn cli_migrate() {
    assert!(matches!(parse(args(&["migrate"])).unwrap(), Command::Db(Db::Migrate { drop: false })));
    assert!(matches!(parse(args(&["migrate", "--drop"])).unwrap(), Command::Db(Db::Migrate { drop: true })));
    assert!(parse(args(&["migrate", "--bogus"])).is_err());
}

#[test]
fn cli_create() {
    let Command::Db(Db::Create { username, password, superuser }) =
        parse(args(&["create", "user", "--username", "u", "--password", "p", "--super"])).unwrap()
    else {
        panic!("wrong command")
    };
    assert_eq!(username, Some("u".into()));
    assert_eq!(password, Some("p".into()));
    assert!(superuser);
    let Command::Project { name } = parse(args(&["create", "project", "site"])).unwrap() else {
        panic!("wrong command")
    };
    assert_eq!(name, "site");
    assert!(parse(args(&["create", "project"])).is_err());
    assert!(parse(args(&["create", "group"])).is_err());
    assert!(parse(args(&["create"])).is_err());
    assert!(parse(args(&["bogus"])).is_err());
    assert!(parse(args(&[])).is_err());
}

#[test]
fn names() {
    assert!(valid("site"));
    assert!(valid("my_app"));
    assert!(valid("my-app"));
    assert!(!valid("_site"));
    assert!(!valid("9site"));
    assert!(!valid(""));
}

#[test]
fn cli_failures() {
    match parse(args(&["create", "project", "a", "b"])) {
        Err(Fail::Usage(m)) => assert_eq!(m, "unknown argument b"),
        _ => panic!("expected a usage failure"),
    }
    match parse(args(&["create", "project"])) {
        Err(f) => {
            assert_eq!(f.message(), "create project needs a NAME");
            assert_eq!(f.exit(), 2);
        }
        _ => panic!("expected a usage failure"),
    }
    match parse(args(&["nope"])) {
        Err(Fail::Usage(m)) => assert_eq!(m, usage()),
        _ => panic!("expected a usage failure"),
    }
    assert!(usage().ends_with("create project NAME"));
    assert_eq!(Fail::Error("x".into()).exit(), 1);
}

#[test]
fn exec_reports() {
    assert_eq!(migrated(Ok(3)).unwrap(), "migrated 3");
    assert!(matches!(migrated(Err(rango::value::StoreError::Sql("boom".into()))), Err(Fail::Error(m)) if m == "migrate failed: boom"));
    assert!(matches!(credentials(None, Some("p".into())), Err(Fail::Usage(m)) if m == "create user needs --username NAME"));
    assert!(matches!(credentials(Some("u".into()), None), Err(Fail::Usage(m)) if m == "create user needs --password PASS"));
    assert_eq!(credentials(Some("u".into()), Some("p".into())).unwrap(), ("u".to_string(), "p".to_string()));
    let user = rango::auth::User { id: 1, username: "ann".into(), password: String::new(), created: 0, superuser: false };
    assert_eq!(created(Ok(user)).unwrap(), "created user ann");
    assert!(matches!(created(Err(rango::error::Error::BadRequest("username is taken".into()))), Err(Fail::Error(m)) if m == "username is taken"));
}

#[test]
fn replaces_text() {
    assert_eq!(replace("my-app-x", "-", "_"), "my_app_x");
    assert_eq!(replace("aaa", "aa", "b"), "ba");
    assert_eq!(replace("{NAME}{NAME}", "{NAME}", "x"), "xx");
    assert_eq!(replace("none", "z", "y"), "none");
}

#[test]
fn project_scaffold() {
    let skel = vec![
        ("src/main.rs".to_string(), "use {CRATE}::Message;".to_string()),
        ("src/lib.rs".to_string(), "{CRATE}".to_string()),
    ];
    let files = project_files("my-site", "/home/rango", "name = \"{NAME}\"\npath = \"{PATH}\"", &skel).unwrap();
    assert_eq!(files[0], ("Cargo.toml".to_string(), "name = \"my-site\"\npath = \"/home/rango\"".to_string()));
    assert_eq!(files[1].1, "use my_site::Message;");
    assert_eq!(files[2].1, "{CRATE}");
    assert!(matches!(project_files("9x", "/", "", &skel), Err(Fail::Usage(m)) if m == "9x is not a valid project name (letters, digits, dashes, starts with a letter)"));
    assert!(matches!(project_exists("site"), Fail::Error(m) if m == "site already exists"));
    assert_eq!(project_made("site"), "created project site — cd site && cargo run");
}
