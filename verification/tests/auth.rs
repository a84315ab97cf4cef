use rango::auth::{pick, saved, set_cookie, Auth, Authentication, Current, Entered, Gate, LoginPage, Signup, User};
use rango::error::Error;
use rango::migrations::{checksum, file_name, header, next_number, ran, slug, status_line};
use rango::value::StoreError;

#[test]
fn builders() {
    let auth = Authentication::new("s").login("/in").cookie("sid").expiry(2).signup(true).attempts(3).lockout(5);
    assert_eq!(auth.login_page(), "/in");
    assert_eq!(auth.cookie_key(), "sid");
    assert!(auth.signup_open());
    let old = Auth::new("s").login("/in").cookie("c").expiry(1).signup(true);
    assert_eq!(old.session_id(None, 0), None);
}

#[test]
fn sessions() {
    let auth = Authentication::new("secret");
    let cookie = auth.cookie_for(7, 1000);
    let raw = cookie.strip_prefix("session=").unwrap().split(';').next().unwrap().to_string();
    assert_eq!(auth.session_id(Some(&raw), 1000), Some(7));
    assert_eq!(auth.session_id(Some(&raw), 1000 + 14 * 86400 + 1), None);
    assert_eq!(Authentication::new("other").session_id(Some(&raw), 1000), None);
    assert_eq!(auth.session_id(Some("garbage"), 0), None);
    assert!(cookie.ends_with("; Path=/; Max-Age=1209600; HttpOnly; SameSite=Lax"));
    assert_eq!(auth.cookie_gone(), "session=; Path=/; Max-Age=0; HttpOnly; SameSite=Lax");
    assert_eq!(set_cookie("a", "b", 3), "a=b; Path=/; Max-Age=3; HttpOnly; SameSite=Lax");
}

fn user(superuser: bool) -> User {
    User { id: 1, username: "u".into(), password: String::new(), created: 0, superuser }
}

#[test]
fn gates() {
    let auth = Authentication::new("s");
    assert!(matches!(auth.require_login(&Current(Some(user(false))), "/x"), Gate::Pass));
    assert!(matches!(auth.require_login(&Current(None), "/x"), Gate::Login(u) if u == "/login?next=%2Fx"));
    assert!(matches!(auth.require_superuser(&Current(Some(user(false))), "/x"), Gate::Forbidden));
    assert!(matches!(auth.require_superuser(&Current(Some(user(true))), "/x"), Gate::Pass));
}

#[test]
fn lockout_through_config() {
    let mut auth = Authentication::new("s").attempts(2);
    assert!(!auth.locked("u", 100));
    auth.record("u", false, 100);
    auth.record("u", false, 101);
    assert!(auth.locked("u", 102));
    auth.record("u", true, 103);
    assert!(!auth.locked("u", 104));
}

#[test]
fn register_checks() {
    assert!(matches!(User::prepare("  ", "password123", false, 0), Err(Error::BadRequest(m)) if m == "username is required"));
    assert!(matches!(User::prepare("bob", "short", false, 0), Err(Error::BadRequest(m)) if m == "password must be at least 8 characters"));
    let u = User::prepare("  alice ", "password123", true, 5).unwrap();
    assert_eq!(u.username, "alice");
    assert!(u.superuser);
    assert_eq!(u.created, 5);
    assert_eq!(pick(&vec![user(false), u], "password123"), Some(1));
}

#[test]
fn register_taken() {
    assert!(matches!(saved(Err(StoreError::Sql("UNIQUE constraint failed: users.username".into()))), Err(Error::BadRequest(m)) if m == "username is taken"));
    assert!(matches!(saved(Err(StoreError::Sql("disk".into()))), Err(Error::Server(m)) if m == "disk"));
    assert!(saved(Ok(())).is_ok());
}

#[test]
fn migration_files() {
    assert_eq!(slug("Add Users table!"), "add_users_table");
    assert_eq!(next_number(&vec!["0003_a.sql".into(), "0010_b.sql".into(), "notes.txt".into()]), 11);
    assert_eq!(next_number(&vec![]), 1);
    assert_eq!(file_name(7, "x"), "0007_x.sql");
    assert_eq!(file_name(12345, "x"), "12345_x.sql");
    assert_eq!(header(7, "Add x"), "-- 0007 Add x\n");
    assert_eq!(ran(1), "ran 1 migration");
    assert_eq!(ran(2), "ran 2 migrations");
    assert_eq!(checksum("").len(), 64);
    assert_eq!(checksum("abc"), "ba7816bf8f01cfea414140de5dae2223b00361a396177a9cb410ff61f20015ad");
    assert_eq!(status_line(None, "x", "0001_a.sql"), "pending  0001_a.sql");
    assert_eq!(status_line(Some("x"), "x", "a"), "applied  a");
    assert_eq!(status_line(Some("y"), "x", "a"), "changed  a");
}

#[test]
fn login_pages() {
    let auth = Authentication::new("s");
    match auth.show(&Current(Some(user(false))), Some("/admin/".into())) {
        LoginPage::Go(to) => assert_eq!(to, "/admin/"),
        other => panic!("unexpected {other:?}"),
    }
    match auth.show(&Current(Some(user(false))), Some("//evil".into())) {
        LoginPage::Show { user, next } => assert_eq!((user.as_deref(), next.as_str()), (Some("u"), "")),
        other => panic!("unexpected {other:?}"),
    }
    match auth.show(&Current(None), Some("/x".into())) {
        LoginPage::Show { user, next } => assert_eq!((user, next.as_str()), (None, "/x")),
        other => panic!("unexpected {other:?}"),
    }
    assert_eq!(auth.show_password(&Current(None)), Some("/login".to_string()));
    assert_eq!(auth.show_password(&Current(Some(user(false)))), None);
    assert_eq!(auth.show_signup(&Current(Some(user(false)))), Some("/".to_string()));
    let (to, gone) = auth.exit();
    assert_eq!(to, "/login");
    assert_eq!(gone, "session=; Path=/; Max-Age=0; HttpOnly; SameSite=Lax");
}

#[test]
fn login_attempts() {
    let mut auth = Authentication::new("s").attempts(2);
    let who = user(false);
    match auth.enter("u", None, Some("/admin/".into()), 100) {
        Entered::Denied { error, next } => assert_eq!((error.as_str(), next.as_str()), ("Invalid username or password.", "/admin/")),
        other => panic!("unexpected {other:?}"),
    }
    assert!(auth.refuse("u", None, 100).is_none());
    auth.enter("u", None, None, 101);
    match auth.refuse("u", Some("http://x".into()), 102) {
        Some(Entered::Denied { error, next }) => {
            assert_eq!((error.as_str(), next.as_str()), ("Too many attempts. Try again later.", ""))
        },
        other => panic!("unexpected {other:?}"),
    }
    match auth.enter("u", Some(&who), None, 103) {
        Entered::Welcome { to, cookie } => {
            assert_eq!(to, "/");
            assert_eq!(cookie, auth.cookie_for(who.id, 103));
        },
        other => panic!("unexpected {other:?}"),
    }
    assert!(auth.refuse("u", None, 104).is_none());
}

#[test]
fn signups() {
    assert!(Authentication::confirm("a", "a").is_none());
    assert!(matches!(Authentication::confirm("a", "b"), Some(Signup::Failed(m)) if m == "Passwords do not match."));
    let auth = Authentication::new("s");
    assert!(matches!(auth.create(Err(Error::BadRequest("username is taken".into())), 5), Ok(Signup::Failed(m)) if m == "username is taken"));
    assert!(matches!(auth.create(Err(Error::Server("down".into())), 5), Err(Error::Server(m)) if m == "down"));
    assert!(matches!(auth.create(Ok(user(true)), 5), Ok(Signup::Welcome(c)) if c == auth.cookie_for(1, 5)));
    let old = Auth::new("s");
    assert!(matches!(old.enter(None, None, 5), Entered::Denied { .. }));
    assert!(matches!(old.require_login(&Current(None), "/a"), Gate::Login(u) if u == "/login?next=%2Fa"));
    assert_eq!(old.exit().0, "/login");
}

#[test]
fn user_rows_round_trip() {
    let row = rango::value::Row {
        values: vec![
            rango::value::Value::Int(3),
            rango::value::Value::str("ann"),
            rango::value::Value::str("hash"),
            rango::value::Value::Int(0),
            rango::value::Value::Bool(true),
        ],
    };
    let mut user = <User as rango::model::Model>::from_row(&row).unwrap();
    assert_eq!((user.id, user.username.as_str(), user.created, user.superuser), (3, "ann", 0, true));
    assert_eq!(<User as rango::model::Model>::row(&user)[0], rango::value::Value::str("ann"));
    <User as rango::model::Model>::set_id(&mut user, rango::value::Value::Int(9));
    assert_eq!(user.id, 9);
    <User as rango::model::Model>::set_id(&mut user, rango::value::Value::str("x"));
    assert_eq!(user.id, 9);
    assert_eq!(<User as rango::model::Model>::fields().len(), 5);
    let short = rango::value::Row { values: vec![rango::value::Value::Int(1)] };
    assert!(matches!(<User as rango::model::Model>::from_row(&short), Err(StoreError::Value(m)) if m == "row column 1 not str"));
}
