//! Sessions: signed cookie claims, safe redirects and login lockout.

use hmac::Mac;
use vstd::prelude::*;

use crate::encoding::{form_encode, form_text, pair_texts};
use crate::text::{self, decimal, first_of, parse_i64};

verus! {

/// The lower-case hexadecimal digit for `n` (0 through 15).
pub open spec fn hex_digit(n: int) -> char {
    if n < 10 { (n + 48) as char } else { (n + 87) as char }
}

/// The lower-case hexadecimal text of bytes, two digits per byte.
pub open spec fn hex_of(bytes: Seq<u8>) -> Seq<char>
    decreases bytes.len(),
{
    if bytes.len() == 0 {
        Seq::empty()
    } else {
        hex_of(bytes.drop_last()) + seq![hex_digit(bytes.last() as int / 16), hex_digit(bytes.last() as int % 16)]
    }
}

/// The value of a lower-case hexadecimal digit.
pub open spec fn hex_value(c: char) -> Option<u8> {
    if '0' <= c && c <= '9' {
        Some((c as int - 48) as u8)
    } else if 'a' <= c && c <= 'f' {
        Some((c as int - 87) as u8)
    } else {
        None
    }
}

/// The bytes that hexadecimal text stands for, two digits per byte.
pub open spec fn unhex(s: Seq<char>) -> Option<Seq<u8>>
    decreases s.len(),
{
    if s.len() == 0 {
        Some(Seq::empty())
    } else if s.len() % 2 == 1 {
        None
    } else {
        match (unhex(s.take(s.len() - 2)), hex_value(s[s.len() - 2]), hex_value(s[s.len() - 1])) {
            (Some(head), Some(hi), Some(lo)) => Some(head.push((hi * 16 + lo) as u8)),
            _ => None,
        }
    }
}

fn digit_of(n: u8) -> (c: char)
    requires
        n < 16,
    ensures
        c == hex_digit(n as int),
{
    if n < 10 { (n + 48) as char } else { (n + 87) as char }
}

/// The lower-case hexadecimal text of bytes.
pub fn hex_encode(bytes: &[u8]) -> (r: String)
    ensures
        r@ == hex_of(bytes@),
{
    let mut out = String::new();
    let mut i: usize = 0;
    while i < bytes.len()
        invariant
            i <= bytes@.len(),
            out@ == hex_of(bytes@.take(i as int)),
        decreases bytes@.len() - i,
    {
        assert(bytes@.take(i as int + 1).drop_last() =~= bytes@.take(i as int));
        let b = bytes[i];
        text::push_char(&mut out, digit_of(b / 16));
        text::push_char(&mut out, digit_of(b % 16));
        assert(out@ =~= hex_of(bytes@.take(i as int + 1)));
        i = i + 1;
    }
    assert(bytes@.take(bytes@.len() as int) =~= bytes@);
    out
}

/// The value of one lower-case hexadecimal digit.
pub fn hex_val(c: char) -> (r: Option<u8>)
    ensures
        r == hex_value(c),
{
    if '0' <= c && c <= '9' {
        Some((c as u32 - 48) as u8)
    } else if 'a' <= c && c <= 'f' {
        Some((c as u32 - 87) as u8)
    } else {
        None
    }
}

/// The bytes that lower-case hexadecimal text stands for; `None` for odd length or a non-digit.
pub fn hex_decode(raw: &str) -> (r: Option<Vec<u8>>)
    ensures
        match r {
            Some(v) => unhex(raw@) == Some(v@),
            None => unhex(raw@) is None,
        },
{
    let cs = text::chars(raw);
    if cs.len() % 2 == 1 {
        return None;
    }
    let mut out: Vec<u8> = Vec::new();
    let mut i: usize = 0;
    while i < cs.len()
        invariant
            i <= cs@.len(),
            i % 2 == 0,
            cs@.len() % 2 == 0,
            cs@ == raw@,
            unhex(cs@.take(i as int)) == Some(out@),
        decreases cs@.len() - i,
    {
        let ghost next = cs@.take(i as int + 2);
        assert(next.take(next.len() - 2) =~= cs@.take(i as int));
        assert(next[next.len() - 2] == cs@[i as int]);
        assert(next[next.len() - 1] == cs@[i + 1]);
        let hi = match hex_val(cs[i]) {
            Some(v) => v,
            None => {
                proof { lemma_unhex_stops(cs@, i as int + 2); }
                return None;
            },
        };
        let lo = match hex_val(cs[i + 1]) {
            Some(v) => v,
            None => {
                proof { lemma_unhex_stops(cs@, i as int + 2); }
                return None;
            },
        };
        out.push(hi * 16 + lo);
        i = i + 2;
    }
    assert(cs@.take(cs@.len() as int) =~= cs@);
    Some(out)
}

proof fn lemma_unhex_stops(s: Seq<char>, k: int)
    requires
        0 <= k <= s.len(),
        k % 2 == 0,
        s.len() % 2 == 0,
        unhex(s.take(k)) is None,
    ensures
        unhex(s) is None,
    decreases s.len() - k,
{
    if k < s.len() {
        let n = s.take(k + 2);
        assert(n.take(n.len() - 2) =~= s.take(k));
        lemma_unhex_stops(s, k + 2);
    } else {
        assert(s.take(k) =~= s);
    }
}

/// Decoding the hexadecimal text of bytes gives the bytes back.
pub proof fn unhex_hex(bytes: Seq<u8>)
    ensures
        unhex(hex_of(bytes)) == Some(bytes),
    decreases bytes.len(),
{
    if bytes.len() > 0 {
        let h = hex_of(bytes);
        let b = bytes.last();
        unhex_hex(bytes.drop_last());
        lemma_hex_len(bytes.drop_last());
        assert(h.take(h.len() - 2) =~= hex_of(bytes.drop_last()));
        assert(hex_value(hex_digit(b as int / 16)) == Some((b / 16) as u8));
        assert(hex_value(hex_digit(b as int % 16)) == Some((b % 16) as u8));
        assert(((b / 16) as u8) * 16 + ((b % 16) as u8) == b);
        assert(bytes.drop_last().push(b) =~= bytes);
    }
}

/// Encoding the bytes that hexadecimal text decodes to gives the text back: the text a
/// decoding accepts is exactly the lower-case hexadecimal of its bytes, two digits per byte.
pub proof fn hex_unhex(s: Seq<char>)
    ensures
        unhex(s) matches Some(w) ==> hex_of(w) == s && s.len() == 2 * w.len(),
    decreases s.len(),
{
    if s.len() > 0 && s.len() % 2 == 0 {
        let t = s.take(s.len() - 2);
        hex_unhex(t);
        match (unhex(t), hex_value(s[s.len() - 2]), hex_value(s[s.len() - 1])) {
            (Some(head), Some(hi), Some(lo)) => {
                let b = (hi * 16 + lo) as u8;
                assert(hi < 16 && lo < 16);
                assert(b as int / 16 == hi as int && b as int % 16 == lo as int);
                assert(hex_digit(hi as int) == s[s.len() - 2]);
                assert(hex_digit(lo as int) == s[s.len() - 1]);
                assert(head.push(b).drop_last() =~= head);
                assert(head.push(b).last() == b);
                assert(hex_of(head.push(b)) =~= s);
            },
            _ => {},
        }
    }
}

/// Hexadecimal text holds no dot.
pub proof fn hex_has_no_dot(bytes: Seq<u8>)
    ensures
        forall|i: int| 0 <= i < hex_of(bytes).len() ==> #[trigger] hex_of(bytes)[i] != '.',
    decreases bytes.len(),
{
    if bytes.len() > 0 {
        hex_has_no_dot(bytes.drop_last());
        let h = hex_of(bytes);
        let p = hex_of(bytes.drop_last());
        lemma_hex_len(bytes.drop_last());
        assert forall|i: int| 0 <= i < h.len() implies #[trigger] h[i] != '.' by {
            if i < p.len() {
                assert(h[i] == p[i]);
            }
        }
    }
}

proof fn lemma_hex_len(bytes: Seq<u8>)
    ensures
        hex_of(bytes).len() == 2 * bytes.len(),
    decreases bytes.len(),
{
    if bytes.len() > 0 {
        lemma_hex_len(bytes.drop_last());
    }
}

/// The result of the keyed hash HMAC-SHA256 of a message under a key.
pub uninterp spec fn hmac_sha256(key: Seq<u8>, message: Seq<u8>) -> Seq<u8>;

/// HMAC-SHA256 of a message under a key.
///
/// Trusted: calls `Hmac::<Sha256>::new_from_slice`, `update` and `finalize` from the `hmac` and
/// `sha2` crates. `new_from_slice` accepts keys of any length (its source hashes long keys and
/// returns `Ok` always), and the tag of SHA-256 is 32 bytes. The contract names the tag.
#[verifier::external_body]
fn mac(key: &[u8], message: &[u8]) -> (r: Vec<u8>)
    ensures
        r@ == hmac_sha256(key@, message@),
        r@.len() == 32,
{
    let mut m = <hmac::Hmac<sha2::Sha256> as Mac>::new_from_slice(key).expect("HMAC takes keys of any length");
    m.update(message);
    m.finalize().into_bytes().to_vec()
}

/// Whether a tag is the HMAC-SHA256 of a message under a key.
///
/// Trusted: calls `Mac::verify_slice` after `new_from_slice` and `update`. Its source refuses a
/// tag whose length is not the 32 bytes of the output and otherwise compares it in constant time
/// with the computed tag, so an accepted tag is 32 bytes long.
#[verifier::external_body]
fn mac_matches(key: &[u8], message: &[u8], tag: &[u8]) -> (r: bool)
    ensures
        r == (tag@ == hmac_sha256(key@, message@)),
        r ==> tag@.len() == 32,
{
    let mut m = <hmac::Hmac<sha2::Sha256> as Mac>::new_from_slice(key).expect("HMAC takes keys of any length");
    m.update(message);
    m.verify_slice(tag).is_ok()
}

/// The text a session signature covers: `id.exp`.
pub open spec fn signed_text(id: i64, exp: i64) -> Seq<char> {
    decimal(id as int) + "."@ + decimal(exp as int)
}

fn signed(id: i64, exp: i64) -> (r: String)
    ensures
        r@ == signed_text(id, exp),
{
    let mut s = text::int_text(id);
    text::push_str(&mut s, ".");
    let e = text::int_text(exp);
    text::push_str(&mut s, e.as_str());
    s
}

/// The signature of a session: the hexadecimal HMAC-SHA256 of `id.exp` under the secret.
pub fn sign(secret: &str, id: i64, exp: i64) -> (r: String)
    ensures
        r@ == hex_of(hmac_sha256(vstd::utf8::encode_utf8(secret@), vstd::utf8::encode_utf8(signed_text(id, exp)))),
        r@.len() == 64,
{
    let m = signed(id, exp);
    let tag = mac(secret.as_bytes(), m.as_str().as_bytes());
    proof {
        lemma_hex_len(tag@);
    }
    hex_encode(tag.as_slice())
}

/// Whether `sig` is the signature of `id.exp` under the secret.
pub fn verify(secret: &str, id: i64, exp: i64, sig: &str) -> (r: bool)
    ensures
        r == (unhex(sig@) matches Some(want) && want == hmac_sha256(vstd::utf8::encode_utf8(secret@), vstd::utf8::encode_utf8(signed_text(id, exp)))),
        r ==> sig@.len() == 64,
{
    proof {
        hex_unhex(sig@);
    }
    let want = match hex_decode(sig) {
        Some(w) => w,
        None => return false,
    };
    let m = signed(id, exp);
    mac_matches(secret.as_bytes(), m.as_str().as_bytes(), want.as_slice())
}

/// A session cookie's contents: user id, expiry and signature.
pub type Claim = (i64, i64, String);

/// What a cookie value `id.exp.sig` claims: exactly three dot-separated parts, the first two
/// integers.
pub open spec fn claim_of(s: Seq<char>) -> Option<(i64, i64, Seq<char>)> {
    match first_of(s, '.') {
        None => None,
        Some(i) => {
            let rest = s.skip(i + 1);
            match first_of(rest, '.') {
                None => None,
                Some(j) => {
                    let sig = rest.skip(j + 1);
                    if first_of(sig, '.') is Some {
                        None
                    } else {
                        match (parse_i64(s.take(i)), parse_i64(rest.take(j))) {
                            (Some(id), Some(exp)) => Some((id, exp, sig)),
                            _ => None,
                        }
                    }
                },
            }
        },
    }
}

/// Reads a session cookie value `id.exp.sig`.
pub fn claim(raw: &str) -> (r: Option<Claim>)
    ensures
        match r {
            Some((id, exp, sig)) => claim_of(raw@) == Some((id, exp, sig@)),
            None => claim_of(raw@) is None,
        },
{
    let cs = text::chars(raw);
    let i = match text::position(cs.as_slice(), '.') {
        Some(i) => i,
        None => return None,
    };
    let rest = text::slice(cs.as_slice(), i + 1, cs.len());
    assert(rest@ =~= raw@.skip(i + 1));
    let j = match text::position(rest.as_slice(), '.') {
        Some(j) => j,
        None => return None,
    };
    let sig = text::slice(rest.as_slice(), j + 1, rest.len());
    assert(sig@ =~= rest@.skip(j + 1));
    if text::position(sig.as_slice(), '.').is_some() {
        return None;
    }
    let a = text::slice(cs.as_slice(), 0, i);
    assert(a@ =~= raw@.take(i as int));
    let b = text::slice(rest.as_slice(), 0, j);
    assert(b@ =~= rest@.take(j as int));
    match (text::parse_int(a.as_slice()), text::parse_int(b.as_slice())) {
        (Some(id), Some(exp)) => Some((id, exp, text::string_of(sig.as_slice()))),
        _ => None,
    }
}

/// A redirect target that stays on this site: a path starting with `/` but not `//`.
pub open spec fn local_path(to: Seq<char>) -> bool {
    to.len() > 0 && to[0] == '/' && !(to.len() > 1 && to[1] == '/')
}

/// Keeps a `next` target only when it stays on this site.
pub fn safe_next(raw: Option<String>) -> (r: Option<String>)
    ensures
        match raw {
            Some(to) => if local_path(to@) { r == Some(to) } else { r is None },
            None => r is None,
        },
{
    match raw {
        Some(to) => {
            let cs = text::chars(to.as_str());
            if cs.len() > 0 && cs[0] == '/' && !(cs.len() > 1 && cs[1] == '/') {
                Some(to)
            } else {
                None
            }
        },
        None => None,
    }
}

/// The login page address carrying the page to come back to: `login?next=...`.
pub open spec fn login_target(login: Seq<char>, back: Seq<char>) -> Seq<char> {
    login + "?"@ + form_text(seq![("next"@, back)])
}

/// Joins the login address and an encoded query.
pub fn with_query(login: &str, query: &str) -> (r: String)
    ensures
        r@ == login@ + "?"@ + query@,
{
    let mut out = text::owned(login);
    text::push_str(&mut out, "?");
    text::push_str(&mut out, query);
    out
}

/// The login address for a request to `back` (its path and query).
pub fn login_url(login: &str, back: &str) -> (r: String)
    ensures
        r@ == login_target(login@, back@),
{
    let mut pairs: Vec<(String, String)> = Vec::new();
    pairs.push((text::owned("next"), text::owned(back)));
    assert(pair_texts(pairs@) =~= seq![("next"@, back@)]);
    let q = form_encode(&pairs);
    with_query(login, q.as_str())
}

} // verus!

verus! {

/// Failed logins recorded for one name.
#[derive(Debug)]
pub struct Hit {
    /// The login name.
    pub name: String,
    /// Failures counted in the current window.
    pub fails: u32,
    /// When the current window opened, in seconds.
    pub since: u64,
}

/// The failures recorded per name: count and window start.
pub open spec fn hit_map(s: Seq<Hit>) -> Map<Seq<char>, (u32, u64)>
    decreases s.len(),
{
    if s.len() == 0 {
        Map::empty()
    } else {
        hit_map(s.drop_last()).insert(s.last().name@, (s.last().fails, s.last().since))
    }
}

/// No name is recorded twice.
pub open spec fn unique(s: Seq<Hit>) -> bool {
    forall|i: int, j: int| 0 <= i < j < s.len() ==> s[i].name@ != s[j].name@
}

/// The records that `keep` holds of, in order.
pub open spec fn kept(s: Seq<Hit>, keep: spec_fn(Seq<char>, u32, u64) -> bool) -> Seq<Hit>
    decreases s.len(),
{
    if s.len() == 0 {
        Seq::empty()
    } else {
        let rest = kept(s.drop_last(), keep);
        if keep(s.last().name@, s.last().fails, s.last().since) { rest.push(s.last()) } else { rest }
    }
}

/// The entries of a map that `keep` holds of.
pub open spec fn kept_map(
    m: Map<Seq<char>, (u32, u64)>,
    keep: spec_fn(Seq<char>, u32, u64) -> bool,
) -> Map<Seq<char>, (u32, u64)> {
    Map::new(|k: Seq<char>| m.dom().contains(k) && keep(k, m[k].0, m[k].1), |k: Seq<char>| m[k])
}

proof fn lemma_lookup(s: Seq<Hit>, k: Seq<char>)
    requires
        unique(s),
    ensures
        hit_map(s).dom().contains(k) <==> exists|i: int| 0 <= i < s.len() && s[i].name@ == k,
        forall|i: int| 0 <= i < s.len() && #[trigger] s[i].name@ == k ==> hit_map(s)[k] == (s[i].fails, s[i].since),
    decreases s.len(),
{
    if s.len() > 0 {
        let w = s.drop_last();
        lemma_lookup(w, k);
        assert forall|i: int| 0 <= i < w.len() implies #[trigger] w[i] == s[i] by {}
        if hit_map(w).dom().contains(k) {
            let i = choose|i: int| 0 <= i < w.len() && w[i].name@ == k;
            assert(s[i].name@ == k);
        }
        if exists|i: int| 0 <= i < s.len() && s[i].name@ == k {
            let i = choose|i: int| 0 <= i < s.len() && s[i].name@ == k;
            if i < s.len() - 1 {
                assert(w[i].name@ == k);
            }
        }
    }
}

proof fn lemma_kept(s: Seq<Hit>, keep: spec_fn(Seq<char>, u32, u64) -> bool)
    requires
        unique(s),
    ensures
        unique(kept(s, keep)),
        hit_map(kept(s, keep)) == kept_map(hit_map(s), keep),
        hit_map(kept(s, keep)).dom().subset_of(hit_map(s).dom()),
    decreases s.len(),
{
    if s.len() > 0 {
        let w = s.drop_last();
        let h = s.last();
        assert(unique(w));
        lemma_kept(w, keep);
        let f = kept(w, keep);
        lemma_lookup(w, h.name@);
        assert(!hit_map(w).dom().contains(h.name@)) by {
            if hit_map(w).dom().contains(h.name@) {
                let i = choose|i: int| 0 <= i < w.len() && w[i].name@ == h.name@;
                assert(s[i].name@ == s[s.len() - 1].name@);
            }
        }
        if keep(h.name@, h.fails, h.since) {
            let g = f.push(h);
            assert(g.drop_last() =~= f);
            assert(unique(g)) by {
                assert forall|i: int, j: int| 0 <= i < j < g.len() implies g[i].name@ != g[j].name@ by {
                    if j == g.len() - 1 {
                        lemma_lookup(f, g[i].name@);
                        assert(f[i].name@ == g[i].name@);
                    } else {
                        assert(g[i] == f[i] && g[j] == f[j]);
                    }
                }
            }
        }
        assert(hit_map(kept(s, keep)) =~= kept_map(hit_map(s), keep));
    }
}

/// Whether a window opened at `since` is still open at `now`.
pub open spec fn lives(since: u64, now: u64, window: u64) -> bool {
    (if now >= since { now - since } else { 0 }) < window
}

/// The lockout window in seconds: the minutes, at least one, times sixty (at most `u64::MAX`).
pub open spec fn window_of(minutes: i64) -> u64 {
    let m: int = if minutes < 1 { 1 } else { minutes as int };
    if m * 60 > u64::MAX { u64::MAX } else { (m * 60) as u64 }
}

/// The records whose window is still open at `now`.
pub open spec fn open_at(now: u64, window: u64) -> spec_fn(Seq<char>, u32, u64) -> bool {
    |k: Seq<char>, f: u32, s: u64| lives(s, now, window)
}

/// The records of every name but one.
pub open spec fn other_than(name: Seq<char>) -> spec_fn(Seq<char>, u32, u64) -> bool {
    |k: Seq<char>, f: u32, s: u64| k != name
}

/// The record of a name after one more failure at `now`.
pub open spec fn bumped(m: Map<Seq<char>, (u32, u64)>, name: Seq<char>, now: u64, window: u64) -> (u32, u64) {
    if m.dom().contains(name) && lives(m[name].1, now, window) {
        (if m[name].0 < u32::MAX { (m[name].0 + 1) as u32 } else { u32::MAX }, m[name].1)
    } else {
        (1, now)
    }
}

/// Login failures per name, and the limit past which a name is locked out.
#[derive(Debug)]
pub struct Attempts {
    max: u32,
    minutes: i64,
    hits: Vec<Hit>,
}

impl View for Attempts {
    type V = Map<Seq<char>, (u32, u64)>;

    closed spec fn view(&self) -> Map<Seq<char>, (u32, u64)> {
        hit_map(self.hits@)
    }
}

impl Attempts {
    #[verifier::type_invariant]
    spec fn well_formed(&self) -> bool {
        unique(self.hits@)
    }

    /// The number of failures that locks a name out.
    pub closed spec fn limit(&self) -> u32 {
        self.max
    }

    /// The lockout window in seconds.
    pub closed spec fn window(&self) -> u64 {
        window_of(self.minutes)
    }

    /// No failures yet; `max` failures within `minutes` lock a name out.
    pub fn new(max: u32, minutes: i64) -> (r: Attempts)
        ensures
            r@ == Map::<Seq<char>, (u32, u64)>::empty(),
            r.limit() == max,
            r.window() == window_of(minutes),
    {
        let r = Attempts { max, minutes, hits: Vec::new() };
        assert(r@ =~= Map::<Seq<char>, (u32, u64)>::empty());
        r
    }

    /// The number of failures that locks a name out.
    pub fn max(&self) -> (r: u32)
        ensures
            r == self.limit(),
    {
        self.max
    }

    /// The lockout window in seconds.
    pub fn window_secs(&self) -> (r: u64)
        ensures
            r == self.window(),
    {
        let m: u64 = if self.minutes < 1 { 1 } else { self.minutes as u64 };
        if m > u64::MAX / 60 { u64::MAX } else { m * 60 }
    }

    fn find(&self, name: &str) -> (r: Option<usize>)
        ensures
            match r {
                Some(i) => i < self.hits@.len() && self.hits@[i as int].name@ == name@,
                None => forall|i: int| 0 <= i < self.hits@.len() ==> self.hits@[i].name@ != name@,
            },
    {
        let mut i: usize = 0;
        while i < self.hits.len()
            invariant
                i <= self.hits@.len(),
                forall|j: int| 0 <= j < i ==> self.hits@[j].name@ != name@,
            decreases self.hits@.len() - i,
        {
            if text::same(self.hits[i].name.as_str(), name) {
                return Some(i);
            }
            i = i + 1;
        }
        None
    }

    fn keep_where(&mut self, name: &str, now: u64, by_time: bool)
        ensures
            final(self).limit() == old(self).limit(),
            final(self).window() == old(self).window(),
            final(self)@ == kept_map(
                old(self)@,
                if by_time { open_at(now, old(self).window()) } else { other_than(name@) },
            ),
    {
        proof { use_type_invariant(&*self); }
        let w = self.window_secs();
        let ghost keep = if by_time { open_at(now, w) } else { other_than(name@) };
        let mut out: Vec<Hit> = Vec::new();
        let mut i: usize = 0;
        while i < self.hits.len()
            invariant
                i <= self.hits@.len(),
                keep == (if by_time { open_at(now, w) } else { other_than(name@) }),
                out@ == kept(self.hits@.take(i as int), keep),
            decreases self.hits@.len() - i,
        {
            assert(self.hits@.take(i as int + 1).drop_last() =~= self.hits@.take(i as int));
            let h = &self.hits[i];
            let stay = if by_time {
                let age = if now >= h.since { now - h.since } else { 0 };
                age < w
            } else {
                !text::same(h.name.as_str(), name)
            };
            if stay {
                out.push(Hit { name: h.name.clone(), fails: h.fails, since: h.since });
            }
            i = i + 1;
        }
        assert(self.hits@.take(self.hits@.len() as int) =~= self.hits@);
        proof { lemma_kept(self.hits@, keep); }
        self.hits = out;
    }

    /// Forgets the windows that have closed by `now`, then tells whether `name` is locked out.
    pub fn blocked_at(&mut self, name: &str, now: u64) -> (r: bool)
        ensures
            final(self).limit() == old(self).limit(),
            final(self).window() == old(self).window(),
            final(self)@ == kept_map(old(self)@, open_at(now, old(self).window())),
            r == (final(self)@.dom().contains(name@) && final(self)@[name@].0 >= final(self).limit()),
    {
        self.keep_where(name, now, true);
        proof { use_type_invariant(&*self); }
        match self.find(name) {
            Some(i) => {
                proof { lemma_lookup(self.hits@, name@); }
                self.hits[i].fails >= self.max
            },
            None => {
                proof { lemma_lookup(self.hits@, name@); }
                false
            },
        }
    }

    /// Counts one more failure for `name` at `now`, opening a new window when the old one closed.
    pub fn fail_at(&mut self, name: &str, now: u64)
        ensures
            final(self).limit() == old(self).limit(),
            final(self).window() == old(self).window(),
            final(self)@ == old(self)@.insert(name@, bumped(old(self)@, name@, now, old(self).window())),
    {
        proof { use_type_invariant(&*self); }
        let w = self.window_secs();
        proof { lemma_lookup(self.hits@, name@); }
        let found = self.find(name);
        let mut hits: Vec<Hit> = Vec::new();
        std::mem::swap(&mut hits, &mut self.hits);
        let ghost before = hits@;
        match found {
            Some(i) => {
                let since = hits[i].since;
                let fails = hits[i].fails;
                let age = if now >= since { now - since } else { 0 };
                let h = if age >= w {
                    Hit { name: text::owned(name), fails: 1, since: now }
                } else {
                    Hit { name: text::owned(name), fails: if fails < u32::MAX { fails + 1 } else { u32::MAX }, since }
                };
                proof { lemma_update(before, i as int, h); }
                hits.set(i, h);
                assert(hits@ == before.update(i as int, h));
            },
            None => {
                hits.push(Hit { name: text::owned(name), fails: 1, since: now });
                assert(hits@.drop_last() =~= before);
                assert(unique(hits@)) by {
                    assert forall|a: int, b: int| 0 <= a < b < hits@.len() implies hits@[a].name@ != hits@[b].name@ by {
                        if b == hits@.len() - 1 {
                            assert(hits@[a] == before[a]);
                        } else {
                            assert(hits@[a] == before[a] && hits@[b] == before[b]);
                        }
                    }
                }
            },
        }
        self.hits = hits;
    }

    /// Tells whether `name` is locked out now, forgetting the windows that have closed.
    pub fn blocked(&mut self, name: &str) -> (r: bool)
        ensures
            final(self).limit() == old(self).limit(),
            final(self).window() == old(self).window(),
            exists|now: u64| final(self)@ == kept_map(old(self)@, open_at(now, old(self).window())),
            r == (final(self)@.dom().contains(name@) && final(self)@[name@].0 >= final(self).limit()),
    {
        let now = clock();
        self.blocked_at(name, now)
    }

    /// Counts one more failure for `name` now.
    pub fn fail(&mut self, name: &str)
        ensures
            final(self).limit() == old(self).limit(),
            final(self).window() == old(self).window(),
            exists|now: u64| final(self)@ == old(self)@.insert(name@, bumped(old(self)@, name@, now, old(self).window())),
    {
        let now = clock();
        self.fail_at(name, now)
    }

    /// Forgets the failures of `name`.
    pub fn clear(&mut self, name: &str)
        ensures
            final(self).limit() == old(self).limit(),
            final(self).window() == old(self).window(),
            final(self)@ == old(self)@.remove(name@),
    {
        self.keep_where(name, 0, false);
        assert(self@ =~= old(self)@.remove(name@));
    }
}

/// Seconds since the Unix epoch.
///
/// Trusted: reads `std::time::SystemTime::now()` and its distance from `UNIX_EPOCH`, zero when
/// the clock stands before it. Nothing is stated of the reading: it depends on the machine.
#[verifier::external_body]
fn clock() -> u64 {
    std::time::SystemTime::now().duration_since(std::time::UNIX_EPOCH).map(|d| d.as_secs()).unwrap_or(0)
}

/// The failures recorded after `n` failures of `name`, all at `now`.
pub open spec fn after_fails(m: Map<Seq<char>, (u32, u64)>, name: Seq<char>, now: u64, window: u64, n: nat) -> Map<Seq<char>, (u32, u64)>
    decreases n,
{
    if n == 0 {
        m
    } else {
        let prev = after_fails(m, name, now, window, (n - 1) as nat);
        prev.insert(name, bumped(prev, name, now, window))
    }
}

/// `n` failures of a name with no open record, all within one instant, count `n`; so the name is
/// locked out, there and then, exactly when `n` reaches the limit.
pub proof fn lockout_counts(m: Map<Seq<char>, (u32, u64)>, name: Seq<char>, now: u64, window: u64, n: nat, limit: u32)
    requires
        !m.dom().contains(name),
        window > 0,
        1 <= n <= u32::MAX,
    ensures
        after_fails(m, name, now, window, n).dom().contains(name),
        after_fails(m, name, now, window, n)[name] == (n as u32, now),
        ({
            let swept = kept_map(after_fails(m, name, now, window, n), open_at(now, window));
            swept.dom().contains(name) && (swept[name].0 >= limit <==> n >= limit)
        }),
    decreases n,
{
    let prev = after_fails(m, name, now, window, (n - 1) as nat);
    assert(after_fails(m, name, now, window, n) == prev.insert(name, bumped(prev, name, now, window)));
    if n > 1 {
        lockout_counts(m, name, now, window, (n - 1) as nat, limit);
        assert(lives(now, now, window));
        assert(bumped(prev, name, now, window) == (n as u32, now));
    } else {
        assert(prev == m);
        assert(bumped(prev, name, now, window) == (1u32, now));
    }
    let after = after_fails(m, name, now, window, n);
    assert(after[name] == (n as u32, now));
    assert(open_at(now, window)(name, after[name].0, after[name].1));
}

/// After its failures are cleared, a name is not locked out at any time.
pub proof fn cleared_unblocked(m: Map<Seq<char>, (u32, u64)>, name: Seq<char>, now: u64, window: u64)
    ensures
        !kept_map(m.remove(name), open_at(now, window)).dom().contains(name),
{
}

proof fn lemma_update(s: Seq<Hit>, i: int, h: Hit)
    requires
        unique(s),
        0 <= i < s.len(),
        s[i].name@ == h.name@,
    ensures
        unique(s.update(i, h)),
        hit_map(s.update(i, h)) == hit_map(s).insert(h.name@, (h.fails, h.since)),
    decreases s.len(),
{
    let t = s.update(i, h);
    assert(unique(t)) by {
        assert forall|a: int, b: int| 0 <= a < b < t.len() implies t[a].name@ != t[b].name@ by {
            assert(t[a].name@ == s[a].name@ && t[b].name@ == s[b].name@);
        }
    }
    if i == s.len() - 1 {
        assert(t.drop_last() =~= s.drop_last());
        assert(hit_map(t) =~= hit_map(s).insert(h.name@, (h.fails, h.since)));
    } else {
        let w = s.drop_last();
        assert(t.drop_last() =~= w.update(i, h));
        lemma_update(w, i, h);
        assert(s.last().name@ != h.name@) by {
            assert(s[i].name@ != s[s.len() - 1].name@);
        }
        assert(hit_map(t) =~= hit_map(s).insert(h.name@, (h.fails, h.since)));
    }
}

} // verus!
