//! Versioned, forward-only migrations: file names, checksums and status lines.

use sha2::Digest;
use vstd::prelude::*;

use crate::session::{hex_encode, hex_of};
use crate::text::{self, digits, parse_i64};

verus! {

/// An ASCII letter or digit.
pub open spec fn ascii_alnum(c: char) -> bool {
    ('a' <= c && c <= 'z') || ('A' <= c && c <= 'Z') || ('0' <= c && c <= '9')
}

/// ASCII whitespace as `char::is_ascii_whitespace` has it.
pub open spec fn ascii_space(c: char) -> bool {
    c == ' ' || c == '\t' || c == '\n' || c == '\x0C' || c == '\r'
}

/// The lower-case form of an ASCII letter; other characters are unchanged.
pub open spec fn ascii_lower(c: char) -> char {
    if 'A' <= c && c <= 'Z' { ((c as int) + 32) as char } else { c }
}

/// The file-name form of a description: letters and digits lower-cased, whitespace as `_`,
/// everything else dropped.
pub open spec fn slug_of(s: Seq<char>) -> Seq<char>
    decreases s.len(),
{
    if s.len() == 0 {
        Seq::empty()
    } else {
        let rest = slug_of(s.drop_last());
        let c = s.last();
        if ascii_alnum(c) {
            rest.push(ascii_lower(c))
        } else if ascii_space(c) {
            rest.push('_')
        } else {
            rest
        }
    }
}

/// The file-name form of a migration's description.
pub fn slug(description: &str) -> (r: String)
    ensures
        r@ == slug_of(description@),
{
    let cs = text::chars(description);
    let mut out = String::new();
    let mut i: usize = 0;
    while i < cs.len()
        invariant
            i <= cs@.len(),
            cs@ == description@,
            out@ == slug_of(cs@.take(i as int)),
        decreases cs@.len() - i,
    {
        assert(cs@.take(i as int + 1).drop_last() =~= cs@.take(i as int));
        let c = cs[i];
        if ('a' <= c && c <= 'z') || ('0' <= c && c <= '9') {
            text::push_char(&mut out, c);
        } else if 'A' <= c && c <= 'Z' {
            let low = ((c as u32) + 32) as u8 as char;
            assert(low == ascii_lower(c));
            text::push_char(&mut out, low);
        } else if c == ' ' || c == '\t' || c == '\n' || c == '\x0C' || c == '\r' {
            text::push_char(&mut out, '_');
        }
        i = i + 1;
    }
    assert(cs@.take(i as int) =~= cs@);
    out
}

/// Whether a slug has something besides underscores.
pub fn has_letters(slug: &str) -> (r: bool)
    ensures
        r == exists|i: int| 0 <= i < slug@.len() && slug@[i] != '_',
{
    let cs = text::chars(slug);
    let mut i: usize = 0;
    while i < cs.len()
        invariant
            i <= cs@.len(),
            cs@ == slug@,
            forall|j: int| 0 <= j < i ==> slug@[j] == '_',
        decreases cs@.len() - i,
    {
        if cs[i] != '_' {
            return true;
        }
        i = i + 1;
    }
    false
}

/// The number a migration file name starts with: its first four characters read as a number,
/// for names that end in `.sql` and are longer than that; 0 otherwise.
pub open spec fn number_of(name: Seq<char>) -> nat {
    if name.len() > 4 && text::has_suffix(name, ".sql"@) {
        match parse_i64(name.take(4)) {
            Some(n) => if n >= 0 { n as nat } else { 0 },
            None => 0,
        }
    } else {
        0
    }
}

/// The largest number among the file names.
pub open spec fn last_number(names: Seq<Seq<char>>) -> nat
    decreases names.len(),
{
    if names.len() == 0 {
        0
    } else {
        let rest = last_number(names.drop_last());
        let n = number_of(names.last());
        if n > rest { n } else { rest }
    }
}

fn number(name: &str) -> (r: u64)
    ensures
        r == number_of(name@),
{
    let cs = text::chars(name);
    let sql = text::chars(".sql");
    if cs.len() > 4 && text::ends(cs.as_slice(), sql.as_slice()) {
        let head = text::slice(cs.as_slice(), 0, 4);
        assert(head@ =~= name@.take(4));
        match text::parse_int(head.as_slice()) {
            Some(n) => if n >= 0 { n as u64 } else { 0 },
            None => 0,
        }
    } else {
        0
    }
}

/// The number the next migration takes: one past the largest numbered file.
pub fn next_number(names: &Vec<String>) -> (r: u64)
    requires
        last_number(names@.map_values(|s: String| s@)) < u64::MAX,
    ensures
        r == last_number(names@.map_values(|s: String| s@)) + 1,
{
    let ghost all = names@.map_values(|s: String| s@);
    let mut best: u64 = 0;
    let mut i: usize = 0;
    while i < names.len()
        invariant
            i <= names@.len(),
            all == names@.map_values(|s: String| s@),
            best == last_number(all.take(i as int)),
            last_number(all) < u64::MAX,
        decreases names@.len() - i,
    {
        assert(all.take(i as int + 1).drop_last() =~= all.take(i as int));
        proof { lemma_last_grows(all, i as int + 1); }
        let n = number(names[i].as_str());
        if n > best {
            best = n;
        }
        i = i + 1;
    }
    assert(all.take(i as int) =~= all);
    best + 1
}

proof fn lemma_last_grows(names: Seq<Seq<char>>, k: int)
    requires
        0 <= k <= names.len(),
    ensures
        last_number(names.take(k)) <= last_number(names),
    decreases names.len() - k,
{
    if k < names.len() {
        assert(names.take(k + 1).drop_last() =~= names.take(k));
        lemma_last_grows(names, k + 1);
    } else {
        assert(names.take(k) =~= names);
    }
}

/// A number written with at least four digits, zero-padded.
pub open spec fn padded(n: nat) -> Seq<char> {
    let d = digits(n);
    if d.len() < 4 { Seq::new((4 - d.len()) as nat, |i: int| '0') + d } else { d }
}

fn pad4(n: u64) -> (r: String)
    ensures
        r@ == padded(n as nat),
{
    let d = text::natural_text(n);
    let z: usize = if d.len() < 4 { 4 - d.len() } else { 0 };
    let mut out = String::new();
    let mut j: usize = 0;
    while j < z
        invariant
            j <= z,
            out@ == Seq::new(j as nat, |i: int| '0'),
        decreases z - j,
    {
        text::push_char(&mut out, '0');
        assert(out@ =~= Seq::new((j + 1) as nat, |i: int| '0'));
        j = j + 1;
    }
    let tail = text::string_of(d.as_slice());
    text::push_str(&mut out, tail.as_str());
    assert(out@ =~= padded(n as nat));
    out
}

/// `NNNN_slug.sql`: the file name of a migration.
pub fn file_name(number: u64, slug: &str) -> (r: String)
    ensures
        r@ == padded(number as nat) + "_"@ + slug@ + ".sql"@,
{
    let mut out = pad4(number);
    text::push_str(&mut out, "_");
    text::push_str(&mut out, slug);
    text::push_str(&mut out, ".sql");
    out
}

/// `-- NNNN description` and a newline: the first line of a new migration.
pub fn header(number: u64, description: &str) -> (r: String)
    ensures
        r@ == "-- "@ + padded(number as nat) + " "@ + description@ + "\n"@,
{
    let mut out = text::owned("-- ");
    let n = pad4(number);
    text::push_str(&mut out, n.as_str());
    text::push_str(&mut out, " ");
    text::push_str(&mut out, description);
    text::push_str(&mut out, "\n");
    out
}

/// `ran N migration` or `ran N migrations`.
pub fn ran(applied: usize) -> (r: String)
    ensures
        r@ == "ran "@ + digits(applied as nat) + if applied == 1 { " migration"@ } else { " migrations"@ },
{
    let mut out = text::owned("ran ");
    let n = text::size_text(applied);
    text::push_str(&mut out, n.as_str());
    if applied == 1 {
        text::push_str(&mut out, " migration");
    } else {
        text::push_str(&mut out, " migrations");
    }
    out
}

/// The SHA-256 digest of bytes.
pub uninterp spec fn sha256(bytes: Seq<u8>) -> Seq<u8>;

/// The SHA-256 digest of bytes.
///
/// Trusted: calls `sha2::Sha256::digest`. The contract names the digest, which depends on the
/// bytes alone, and states its documented length of 32 bytes.
#[verifier::external_body]
fn digest(bytes: &[u8]) -> (r: Vec<u8>)
    ensures
        r@ == sha256(bytes@),
        r@.len() == 32,
{
    sha2::Sha256::digest(bytes).to_vec()
}

/// The checksum recorded for a migration: the lower-case hexadecimal SHA-256 of its text.
pub fn checksum(sql: &str) -> (r: String)
    ensures
        r@ == hex_of(sha256(vstd::utf8::encode_utf8(sql@))),
{
    let d = digest(sql.as_bytes());
    hex_encode(d.as_slice())
}

/// Whether a migration file is applied, pending, or changed since it was applied.
pub open spec fn state_of(recorded: Option<Seq<char>>, sum: Seq<char>) -> Seq<char> {
    match recorded {
        None => "pending"@,
        Some(r) => if r == sum { "applied"@ } else { "changed"@ },
    }
}

/// `state   name`: the state padded to eight characters, a space, then the file name.
pub fn status_line(recorded: Option<&str>, sum: &str, name: &str) -> (r: String)
    ensures
        r@ == state_of(match recorded { Some(s) => Some(s@), None => None }, sum@) + "  "@ + name@,
{
    let mut out = match recorded {
        None => text::owned("pending"),
        Some(r) => if text::same(r, sum) { text::owned("applied") } else { text::owned("changed") },
    };
    text::push_str(&mut out, "  ");
    text::push_str(&mut out, name);
    out
}

} // verus!
