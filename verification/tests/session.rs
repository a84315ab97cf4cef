use rango::forgery::named;
use rango::session::{claim, hex_decode, hex_encode, login_url, safe_next, sign, verify, Attempts};

#[test]
fn cookie_ok() {
    assert_eq!(named("a=1; session=abc; b=2", "session"), Some("abc".into()));
    assert_eq!(named("a=1; session=abc; b=2", "missing"), None);
}

#[test]
fn claim_ok() {
    assert_eq!(claim("7.999.ab12"), Some((7, 999, "ab12".into())));
    assert_eq!(claim("x"), None);
    assert_eq!(claim("1.2"), None);
    assert_eq!(claim("1.2.3.4"), None);
    assert_eq!(claim(""), None);
}

#[test]
fn codec() {
    let sig = sign("secret", 7, 999);
    assert!(verify("secret", 7, 999, &sig));
    assert!(!verify("other", 7, 999, &sig));
    assert!(!verify("secret", 8, 999, &sig));
    assert!(!verify("secret", 7, 999, "deadbeef"));
}

#[test]
fn next_filter() {
    assert_eq!(safe_next(Some("/admin/".into())), Some("/admin/".into()));
    assert_eq!(safe_next(Some("https://evil.example".into())), None);
    assert_eq!(safe_next(Some("//evil.example".into())), None);
    assert_eq!(safe_next(None), None);
}

#[test]
fn lockout() {
    let mut attempts = Attempts::new(3, 15);
    assert!(!attempts.blocked("u"));
    attempts.fail("u");
    attempts.fail("u");
    assert!(!attempts.blocked("u"));
    attempts.fail("u");
    assert!(attempts.blocked("u"));
    assert!(!attempts.blocked("other"));
    attempts.clear("u");
    assert!(!attempts.blocked("u"));
}

#[test]
fn lockout_window_closes() {
    let mut attempts = Attempts::new(2, 1);
    attempts.fail_at("u", 1000);
    attempts.fail_at("u", 1010);
    assert!(attempts.blocked_at("u", 1020));
    assert!(!attempts.blocked_at("u", 1060));
    attempts.fail_at("u", 2000);
    assert!(!attempts.blocked_at("u", 2001));
    assert_eq!(attempts.window_secs(), 60);
    assert_eq!(Attempts::new(1, 0).window_secs(), 60);
}

#[test]
fn hex_round_trip() {
    assert_eq!(hex_encode(&[0, 15, 16, 255]), "000f10ff");
    assert_eq!(hex_decode("000f10ff"), Some(vec![0, 15, 16, 255]));
    assert_eq!(hex_decode("abc"), None);
    assert_eq!(hex_decode("zz"), None);
    assert_eq!(hex_decode("AB"), None);
}

#[test]
fn claim_edges() {
    assert_eq!(claim("-3.+4."), Some((-3, 4, "".into())));
    assert_eq!(claim("a.1.s"), None);
    assert_eq!(claim("1.99999999999999999999.s"), None);
}

#[test]
fn login_address() {
    assert_eq!(login_url("/login", "/admin/"), "/login?next=%2Fadmin%2F");
    assert_eq!(login_url("/login", "/a b?x=1&y"), "/login?next=%2Fa+b%3Fx%3D1%26y");
    assert_eq!(sign("secret", 7, 999).len(), 64);
}
