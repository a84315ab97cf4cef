//! Cross-site request forgery protection: the token cookie and the check on unsafe requests.

use vstd::prelude::*;

use crate::error::Error;
use crate::memory::{is_space, strip_back, strip_front, trim, trimmed};
use crate::text::{self, index_of, index_of_first, index_of_is, index_of_none};

verus! {

/// The largest request body the guard reads, in bytes.
pub const LIMIT: usize = 2097152;

/// The anti-forgery token of a request.
#[derive(Clone, Debug)]
pub struct Token(pub String);

/// Methods that change nothing and need no token.
pub open spec fn safe_method(m: Seq<char>) -> bool {
    m == "GET"@ || m == "HEAD"@ || m == "OPTIONS"@ || m == "TRACE"@
}

/// Whether a request method is one that needs no token.
pub fn safe(method: &str) -> (r: bool)
    ensures
        r == safe_method(method@),
{
    text::same(method, "GET") || text::same(method, "HEAD") || text::same(method, "OPTIONS") || text::same(method, "TRACE")
}

/// The `;`-separated parts of a cookie header, in order.
pub open spec fn parts_of(s: Seq<char>) -> Seq<Seq<char>>
    decreases s.len(),
{
    match index_of(s, ';') {
        Some(i) => {
            proof { index_of_first(s, ';'); }
            seq![s.take(i)] + parts_of(s.skip(i + 1))
        },
        None => seq![s],
    }
}

/// The value of the first part, trimmed, that reads `name=value`.
pub open spec fn value_in(parts: Seq<Seq<char>>, name: Seq<char>) -> Option<Seq<char>>
    decreases parts.len(),
{
    if parts.len() == 0 {
        None
    } else {
        let part = trimmed(parts[0]);
        match index_of(part, '=') {
            Some(i) => if part.take(i) == name { Some(part.skip(i + 1)) } else { value_in(parts.drop_first(), name) },
            None => value_in(parts.drop_first(), name),
        }
    }
}

/// The value of the cookie `name` in a `Cookie` header, if it is there.
pub fn named(header: &str, name: &str) -> (r: Option<String>)
    ensures
        match r {
            Some(v) => value_in(parts_of(header@), name@) == Some(v@),
            None => value_in(parts_of(header@), name@) is None,
        },
    decreases header@.len(),
{
    let cs = text::chars(header);
    let (head, rest): (Vec<char>, Option<Vec<char>>) = match text::position(cs.as_slice(), ';') {
        Some(i) => {
            proof { index_of_is(header@, ';', i as int); }
            assert(cs@.len() == cs.len());
            let h = text::slice(cs.as_slice(), 0, i);
            let t = text::slice(cs.as_slice(), i + 1, cs.len());
            assert(h@ =~= header@.take(i as int));
            assert(t@ =~= header@.skip(i + 1));
            (h, Some(t))
        },
        None => {
            proof { index_of_none(header@, ';'); }
            (text::slice(cs.as_slice(), 0, cs.len()), None)
        },
    };
    assert(rest is None ==> head@ =~= header@);
    let hs = text::string_of(head.as_slice());
    let part = trim(hs.as_str());
    let pc = text::chars(part.as_str());
    assert(parts_of(header@)[0] == head@);
    match text::position(pc.as_slice(), '=') {
        Some(k) => {
            proof { index_of_is(part@, '=', k as int); }
            assert(pc@.len() == pc.len());
            let key = text::slice(pc.as_slice(), 0, k);
            assert(key@ =~= part@.take(k as int));
            let ks = text::string_of(key.as_slice());
            if text::same(ks.as_str(), name) {
                let v = text::slice(pc.as_slice(), k + 1, pc.len());
                assert(v@ =~= part@.skip(k + 1));
                return Some(text::string_of(v.as_slice()));
            }
        },
        None => {
            proof { index_of_none(part@, '='); }
        },
    }
    assert(value_in(parts_of(header@), name@) == value_in(parts_of(header@).drop_first(), name@));
    match rest {
        Some(t) => {
            let ts = text::string_of(t.as_slice());
            assert(parts_of(header@).drop_first() =~= parts_of(ts@));
            named(ts.as_str(), name)
        },
        None => {
            assert(parts_of(header@).drop_first() =~= Seq::<Seq<char>>::empty());
            None
        },
    }
}

/// The value a form body gives a field, as `serde_urlencoded` reads the body into a map.
pub uninterp spec fn form_value(body: Seq<u8>, name: Seq<char>) -> Option<Seq<char>>;

/// The value of a field of a form body.
///
/// Trusted: calls `serde_urlencoded::from_bytes` into a `HashMap<String, String>` and looks up
/// the field; an unreadable body gives none. The contract names the outcome, which depends on
/// the body and the name alone.
#[verifier::external_body]
pub(crate) fn form_field(body: &[u8], name: &str) -> (r: Option<String>)
    ensures
        match r {
            Some(v) => form_value(body@, name@) == Some(v@),
            None => form_value(body@, name@) is None,
        },
{
    let map: std::collections::HashMap<String, String> = serde_urlencoded::from_bytes(body).ok()?;
    map.get(name).cloned()
}

/// A fresh random token.
///
/// Trusted: calls `uuid::Uuid::new_v4().to_string()`. The value is random; what holds of every
/// outcome is that the hyphenated form of a UUID is 36 characters.
#[verifier::external_body]
pub(crate) fn fresh() -> (r: String)
    ensures
        r@.len() == 36,
{
    uuid::Uuid::new_v4().to_string()
}

/// Whether an unsafe request may pass: it carries the token cookie and a `forgery` form field
/// equal to it. Safe requests always pass.
pub open spec fn admitted(safe: bool, cookie: Option<Seq<char>>, body: Seq<u8>) -> bool {
    safe || (cookie matches Some(t) && form_value(body, "forgery"@) == Some(t))
}

/// Lets a request through or refuses it as forbidden.
pub fn pass(method: &str, cookie: &Option<String>, body: &[u8]) -> (r: Result<(), Error>)
    ensures
        admitted(safe_method(method@), match cookie { Some(t) => Some(t@), None => None }, body@) <==> r is Ok,
        r matches Err(e) ==> e is Forbidden,
{
    if safe(method) {
        return Ok(());
    }
    let token = match cookie {
        Some(t) => t,
        None => return Err(Error::Forbidden),
    };
    match form_field(body, "forgery") {
        Some(v) => if text::same(v.as_str(), token.as_str()) { Ok(()) } else { Err(Error::Forbidden) },
        None => Err(Error::Forbidden),
    }
}

/// The token a request works with: the one the guard gave it, else the cookie's, else a fresh
/// one.
pub fn token(held: Option<&Token>, cookie: Option<String>) -> (r: String)
    ensures
        match held {
            Some(t) => r@ == t.0@,
            None => match cookie {
                Some(c) => r@ == c@,
                None => r@.len() == 36,
            },
        },
{
    match held {
        Some(t) => t.0.clone(),
        None => match cookie {
            Some(c) => c,
            None => fresh(),
        },
    }
}

/// The `Set-Cookie` value that hands a new token to the browser.
pub fn signed(token: &str) -> (r: String)
    ensures
        r@ == "forgery="@ + token@ + "; Path=/; HttpOnly; SameSite=Lax"@,
{
    let mut out = text::owned("forgery=");
    text::push_str(&mut out, token);
    text::push_str(&mut out, "; Path=/; HttpOnly; SameSite=Lax");
    out
}

/// A cookie comes back as it was handed out: a `Cookie` header that carries `name=value` gives
/// that value for the name, when the name is not empty and holds no `=`, neither holds `;`,
/// and the pair has no whitespace at either end.
pub proof fn cookie_read_back(name: Seq<char>, value: Seq<char>)
    requires
        name.len() > 0,
        !is_space(name[0]),
        value.len() > 0 ==> !is_space(value.last()),
        forall|i: int| 0 <= i < name.len() ==> name[i] != '=' && name[i] != ';',
        forall|i: int| 0 <= i < value.len() ==> value[i] != ';',
    ensures
        value_in(parts_of(name + "="@ + value), name) == Some(value),
{
    reveal_strlit("=");
    let n = name.len() as int;
    let s = name + "="@ + value;
    assert(s.len() == n + 1 + value.len());
    assert forall|j: int| 0 <= j < s.len() implies s[j] != ';' by {
        if j < n {
            assert(s[j] == name[j]);
        } else if j > n {
            assert(s[j] == value[j - n - 1]);
        }
    }
    index_of_none(s, ';');
    assert(parts_of(s) == seq![s]);
    assert(strip_front(s, false) == s) by {
        assert(s[0] == name[0]);
    }
    assert(strip_back(s, false) == s) by {
        if value.len() > 0 {
            assert(s.last() == value.last());
        } else {
            assert(s.last() == '=');
        }
    }
    assert(trimmed(s) == s);
    assert forall|j: int| 0 <= j < n implies s[j] != '=' by {
        assert(s[j] == name[j]);
    }
    index_of_is(s, '=', n);
    assert(s.take(n) =~= name);
    assert(s.skip(n + 1) =~= value);
    assert(seq![s].drop_first() =~= Seq::<Seq<char>>::empty());
}

/// A token the guard can hand out: no `;`, and no whitespace at its end.
pub open spec fn token_shape(t: Seq<char>) -> bool {
    &&& forall|i: int| 0 <= i < t.len() ==> t[i] != ';'
    &&& t.len() > 0 ==> !is_space(t.last())
}

/// A request that sends back the token cookie the guard handed out, with the same token in its
/// `forgery` form field, is let through, whatever its method.
pub proof fn returned_token_passes(method: Seq<char>, t: Seq<char>, body: Seq<u8>)
    requires
        token_shape(t),
        form_value(body, "forgery"@) == Some(t),
    ensures
        value_in(parts_of("forgery="@ + t), "forgery"@) == Some(t),
        admitted(safe_method(method), value_in(parts_of("forgery="@ + t), "forgery"@), body),
{
    reveal_strlit("forgery");
    reveal_strlit("forgery=");
    reveal_strlit("=");
    assert("forgery="@ =~= "forgery"@ + "="@);
    assert("forgery="@ + t =~= "forgery"@ + "="@ + t);
    cookie_read_back("forgery"@, t);
}

} // verus!
