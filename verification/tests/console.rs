use rango::console::{code, credentials, migrated, parse, usage, Command, Create, Fail};

fn args(raw: &[&str]) -> Vec<String> {
    raw.iter().map(|item| item.to_string()).collect()
}

#[test]
fn lib_migrate() {
    assert!(matches!(parse(args(&["migrate"])).unwrap(), Command::Migrate { drop: false }));
    assert!(matches!(parse(args(&["migrate", "--drop"])).unwrap(), Command::Migrate { drop: true }));
    assert!(parse(args(&["migrate", "--bogus"])).is_err());
}

#[test]
fn lib_create() {
    let Command::Create(Create::User { username, password, superuser }) =
        parse(args(&["create", "user", "--username", "u", "--password", "p", "--super"])).unwrap()
    else {
        panic!("wrong command")
    };
    assert_eq!(username, Some("u".into()));
    assert_eq!(password, Some("p".into()));
    assert!(superuser);
    assert!(parse(args(&["create", "group"])).is_err());
    assert!(parse(args(&["create"])).is_err());
    assert!(parse(args(&["bogus"])).is_err());
    assert!(parse(args(&[])).is_err());
}

#[test]
fn console_messages() {
    match parse(args(&["migrate", "--bogus"])) {
        Err(Fail::Usage(m)) => assert_eq!(m, "unknown argument --bogus"),
        _ => panic!("expected a usage failure"),
    }
    match parse(args(&["create", "group"])) {
        Err(Fail::Usage(m)) => assert_eq!(m, "unknown create target group"),
        _ => panic!("expected a usage failure"),
    }
    match parse(args(&[])) {
        Err(Fail::Usage(m)) => assert_eq!(m, usage()),
        _ => panic!("expected a usage failure"),
    }
    assert_eq!(code(&Fail::Usage("x".into())), 2);
    assert_eq!(code(&Fail::Error("x".into())), 1);
}

#[test]
fn console_flag_without_word() {
    let Command::Create(Create::User { username, password, superuser }) =
        parse(args(&["create", "user", "--password", "p", "--username"])).unwrap()
    else {
        panic!("wrong command")
    };
    assert_eq!(username, None);
    assert_eq!(password, Some("p".into()));
    assert!(!superuser);
}

#[test]
fn console_reports() {
    assert_eq!(migrated(Ok(0)).unwrap(), "migrated 0");
    assert!(matches!(credentials(None, None), Err(Fail::Usage(m)) if m == "create user needs --username NAME"));
}
