use rango::error::Error;
use rango::forgery::{named, pass, safe, signed, token, Token};
use rango::form::{Errors, FieldError};
use rango::settings::{chosen, key_step, loaded, Found, Next, Settings};
use rango::value::{Row, Value};

#[test]
fn display() {
    assert_eq!(Error::BadRequest("msg".into()).message(), "msg");
    assert_eq!(Error::Forbidden.message(), "Forbidden");
    assert_eq!(Error::NotFound.message(), "Not Found");
    assert_eq!(Error::Server("msg".into()).message(), "msg");
}

#[test]
fn statuses() {
    assert_eq!(Error::BadRequest("x".into()).status(), 400);
    assert_eq!(Error::Forbidden.status(), 403);
    assert_eq!(Error::NotFound.status(), 404);
    assert!(Error::Server("x".into()).is_server_error());
    assert!(Error::Render("x".into()).is_server_error());
    assert_eq!(Error::MethodNotAllowed.status(), 405);
    assert_eq!(Error::MethodNotAllowed.message(), "Method Not Allowed");
}

#[test]
fn errors() {
    let mut errors = Errors::new();
    assert!(errors.valid());
    assert_eq!(errors.message("name"), "");
    errors.push("name", "required");
    errors.push("name", "too short");
    errors.push("age", "too old");
    assert!(!errors.valid());
    assert_eq!(errors.message("name"), "required");
    assert_eq!(errors.message("age"), "too old");
    assert_eq!(errors.message("missing"), "");
}

#[test]
fn errors_get_first() {
    let errors = Errors::from_list(vec![FieldError::new("a", "one"), FieldError::new("a", "two")]);
    assert_eq!(errors.get("a").map(|e| e.message.clone()), Some("one".to_string()));
    assert!(errors.get("b").is_none());
    assert_eq!(errors.into_list().len(), 2);
}

#[test]
fn cookies() {
    assert_eq!(named("a=1; forgery=xyz; b=2", "forgery"), Some("xyz".into()));
    assert_eq!(named("a=1; forgery=xyz; b=2", "b"), Some("2".into()));
    assert_eq!(named("a=1; forgery=xyz; b=2", "none"), None);
}

#[test]
fn tokens() {
    assert_eq!(token(Some(&Token("abc".into())), None), "abc");
    assert_ne!(token(None, None), token(None, None));
    assert_eq!(token(None, Some("kept".into())), "kept");
}

#[test]
fn forgery_checks() {
    assert!(safe("GET") && safe("HEAD") && safe("OPTIONS") && safe("TRACE"));
    assert!(!safe("POST"));
    assert!(pass("GET", &None, b"").is_ok());
    assert!(matches!(pass("POST", &None, b"forgery=x"), Err(Error::Forbidden)));
    assert!(matches!(pass("POST", &Some("said".into()), b"forgery=nope"), Err(Error::Forbidden)));
    assert!(pass("POST", &Some("said".into()), b"forgery=said").is_ok());
    assert!(pass("POST", &Some("said".into()), b"a=1&forgery=said").is_ok());
    assert_eq!(signed("t"), "forgery=t; Path=/; HttpOnly; SameSite=Lax");
}

#[test]
fn settings_builders() {
    let s = Settings::new("/srv/app").host("0.0.0.0").port(9000).forgery(false).secret("k");
    assert_eq!(s.host, "0.0.0.0");
    assert_eq!(s.port, 9000);
    assert!(!s.forgery);
    assert_eq!(s.secret.as_deref(), Some("k"));
    assert_eq!(s.assets, "/srv/app/assets");
    let t = Settings::new("").base_dir("/x/");
    assert_eq!(t.assets, "/x/assets");
    assert!(t.debug);
    assert_eq!(t.host, "127.0.0.1");
    assert_eq!(t.port, 8000);
}

#[test]
fn lib_opt() {
    let row = Row { values: vec![Value::Str("a".into()), Value::Null, Value::Int(3)] };
    assert_eq!(row.opt_str(0), Some("a".into()));
    assert_eq!(row.opt_str(1), None);
    assert_eq!(row.opt_str(2), None);
    assert_eq!(row.opt_str(9), None);
    assert_eq!(Value::from(&"a".to_string()), Value::Str("a".into()));
    assert_eq!(Value::from(&Some("a".to_string())), Value::Str("a".into()));
    let none: Option<String> = None;
    assert_eq!(Value::from(&none), Value::Null);
}

#[test]
fn secrets() {
    assert_eq!(loaded("  abc \n"), Some("abc".to_string()));
    assert_eq!(loaded(" \n"), None);
    assert_eq!(chosen(Some("env".into()), Some("file".into())), Some("env".to_string()));
    assert_eq!(chosen(Some(String::new()), Some("file".into())), Some("file".to_string()));
    assert_eq!(chosen(None, None), None);
}

#[test]
fn handed_out_token_comes_back() {
    let t = token(None, None);
    let header = format!("forgery={t}");
    let back = named(&header, "forgery");
    assert_eq!(back, Some(t.clone()));
    assert!(pass("POST", &back, format!("forgery={t}").as_bytes()).is_ok());
}

#[test]
fn secret_steps() {
    assert!(matches!(key_step(Found::Table(true)), Next::Read { again: false }));
    assert!(matches!(key_step(Found::Table(false)), Next::Ephemeral(s, why) if s.len() == 64 && why == "no setting table"));
    assert!(matches!(key_step(Found::First(Some("kept".into()))), Next::Keep(s) if s == "kept"));
    let made = match key_step(Found::First(None)) {
        Next::Insert(s) => s,
        _ => panic!("expected a new secret to store"),
    };
    assert_eq!(made.len(), 64);
    assert!(made.chars().all(|c| c.is_ascii_hexdigit()));
    assert!(matches!(key_step(Found::Stored), Next::Read { again: true }));
    assert!(matches!(key_step(Found::Second(Some(made.clone()))), Next::Keep(s) if s == made));
    assert!(matches!(key_step(Found::Second(None)), Next::Ephemeral(_, why) if why == "no secret row"));
}

#[test]
fn literals_are_sql() {
    assert_eq!(Value::str("it's").literal(), "'it''s'");
    assert_eq!(Value::decimal("1.5").literal(), "'1.5'");
    assert_eq!(Value::integer(5).literal(), "5");
    assert_eq!(Value::bool(true).literal(), "1");
    assert_eq!(Value::Null.literal(), "NULL");
}

#[test]
fn datetime_range_edges() {
    let at = |t: i64| Row { values: vec![Value::Int(t)] }.moment(0);
    assert_eq!(at(8210266876799).unwrap(), 8210266876799);
    assert!(at(8210266876800).is_err());
    assert_eq!(at(-8334601228800).unwrap(), -8334601228800);
    assert!(at(-8334601228801).is_err());
}
