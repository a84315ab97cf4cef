//! What deriving a model from a struct gives: its table's name, its fields and its actions,
//! read from a plain description of the struct and its attributes.

use vstd::prelude::*;

use crate::dialect::texts;
use crate::memory::{trim, trimmed};
use crate::pages::{pieces, split_on};
use crate::spec::{first_dot, Field, Link, Name, Table, Type};
use crate::text::{self, first_of};
use crate::value::{lower, lowercase, Value};

verus! {

/// The table a model is stored in: the one its attribute names, else its type's name
/// lower-cased with an `s`.
pub open spec fn table_of(ident: Seq<char>, named: Option<Seq<char>>) -> Seq<char> {
    match named {
        Some(t) => t,
        None => lower(ident) + "s"@,
    }
}

/// The table a model is stored in.
pub fn table_name(ident: &str, named: Option<&str>) -> (r: String)
    ensures
        r@ == table_of(ident@, match named { Some(t) => Some(t@), None => None }),
{
    match named {
        Some(t) => text::owned(t),
        None => {
            let mut out = lowercase(ident);
            text::push_str(&mut out, "s");
            out
        },
    }
}

/// The names an `actions` attribute lists: its pieces between commas, trimmed, without the
/// empty ones.
pub open spec fn actions_of(pieces: Seq<Seq<char>>) -> Seq<Seq<char>>
    decreases pieces.len(),
{
    if pieces.len() == 0 {
        Seq::empty()
    } else {
        let rest = actions_of(pieces.drop_last());
        let t = trimmed(pieces.last());
        if t.len() == 0 { rest } else { rest.push(t) }
    }
}

/// The names an `actions` attribute lists, in order.
pub fn action_names(raw: &str) -> (r: Vec<String>)
    ensures
        texts(r@) == actions_of(split_on(raw@, ',')),
{
    let cs = text::chars(raw);
    let parts = pieces(&cs, ',');
    let ghost all = texts(parts@);
    let mut out: Vec<String> = Vec::new();
    let mut i: usize = 0;
    while i < parts.len()
        invariant
            i <= parts@.len(),
            all == texts(parts@),
            all == split_on(raw@, ','),
            texts(out@) == actions_of(all.take(i as int)),
        decreases parts@.len() - i,
    {
        assert(all.take(i as int + 1).drop_last() =~= all.take(i as int));
        let t = trim(parts[i].as_str());
        if !t.as_str().is_empty() {
            let ghost before = out@;
            out.push(t);
            assert(texts(out@) =~= texts(before).push(trimmed(all[i as int])));
        }
        i = i + 1;
    }
    assert(all.take(i as int) =~= all);
    out
}

/// The three names of a `via` attribute, `through.mine.theirs`, when it has exactly three.
pub open spec fn via_of(t: Seq<char>) -> Option<(Seq<char>, Seq<char>, Seq<char>)> {
    match first_of(t, '.') {
        Some(i) => {
            let rest = t.skip(i + 1);
            match first_of(rest, '.') {
                Some(j) => if first_of(rest.skip(j + 1), '.') is None {
                    Some((t.take(i), rest.take(j), rest.skip(j + 1)))
                } else {
                    None
                },
                None => None,
            }
        },
        None => None,
    }
}

fn via_parts(raw: &'static str) -> (r: Option<(Table, Name, Name)>)
    ensures
        match via_of(raw@) {
            Some((a, b, c)) => r matches Some((x, y, z)) && x@ == a && y@ == b && z@ == c,
            None => r is None,
        },
{
    let cs = text::chars(raw);
    let i = match text::position(cs.as_slice(), '.') {
        Some(i) => i,
        None => return None,
    };
    let n = cs.len();
    assert(i < n);
    let rest: &'static str = raw.substring_char(i + 1, n);
    let rs = text::chars(rest);
    assert(rs@ =~= raw@.skip(i + 1));
    let j = match text::position(rs.as_slice(), '.') {
        Some(j) => j,
        None => return None,
    };
    let m = rs.len();
    assert(j < m);
    let tail: &'static str = rest.substring_char(j + 1, m);
    let ts = text::chars(tail);
    assert(ts@ =~= raw@.skip(i + 1).skip(j + 1));
    if text::position(ts.as_slice(), '.').is_some() {
        return None;
    }
    let head: &'static str = raw.substring_char(0, i);
    let mid: &'static str = rest.substring_char(0, j);
    Some((Table(head), Name(mid), Name(tail)))
}

/// One field of a struct deriving a model, as declared.
#[derive(Debug)]
pub struct Member {
    /// The field's name.
    pub name: &'static str,
    /// The column type of its values (inside any `Option` or `Vec`).
    pub kind: Type,
    /// Declared as an `Option`.
    pub optional: bool,
    /// Declared as a `Vec`: a many-to-many field.
    pub list: bool,
    /// Marked `#[key]`.
    pub key: bool,
    /// Its `#[references(..)]` text, if any.
    pub references: Option<&'static str>,
    /// Its `#[via(..)]` text, if any.
    pub via: Option<&'static str>,
    /// Its `#[default(..)]` value, if any.
    pub default: Option<Value>,
}

/// The message of a `via` attribute that does not name three things.
pub open spec fn via_message() -> Seq<char> {
    "expected `#[via(\"through.mine.theirs\")]`"@
}

/// Why a declared field cannot be derived, if it cannot.
pub open spec fn refusal(m: Member) -> Option<Seq<char>> {
    if m.via matches Some(v) && via_of(v@) is None {
        Some(via_message())
    } else if m.list && m.optional {
        Some("optional lists need plain Vec"@)
    } else if m.list && m.key {
        Some("key needs a single value"@)
    } else {
        None
    }
}

/// The link a `references` text asks for: `table.column`, or `table` meaning its `id`.
pub open spec fn links_to(link: Option<Link>, refs: Option<&'static str>) -> bool {
    match refs {
        None => link is None,
        Some(t) => link matches Some(Link::To(table, column)) && match first_dot(t@) {
            Some(i) => table@ == t@.take(i) && column@ == t@.skip(i + 1),
            None => table@ == t@ && column@ == "id"@,
        },
    }
}

/// The link a `via` text asks for.
pub open spec fn links_via(link: Option<Link>, via: Option<&'static str>) -> bool {
    match via {
        None => link is None,
        Some(t) => match via_of(t@) {
            Some((a, b, c)) => link matches Some(Link::Via(x, y, z)) && x@ == a && y@ == b && z@ == c,
            None => false,
        },
    }
}

/// The field a declared field derives: the autoincrement id for a key named `id`, a text key
/// for another key, a many-to-many field for a list, else a column of its type (nullable when
/// optional) with its reference and default.
pub open spec fn planned(f: Field, m: Member) -> bool {
    &&& f.name@ == m.name@
    &&& !f.unique && !f.index && f.pick is None
    &&& if m.key && m.name@ == "id"@ && !m.list {
        f.kind == Type::Id && f.default is None && f.link is None
    } else if m.key {
        f.kind == Type::Key && f.default is None && links_to(f.link, m.references)
    } else if m.list {
        f.kind == Type::Many && f.default is None && links_via(f.link, m.via)
    } else {
        &&& f.kind == (if m.optional { Type::Opt(Box::new(m.kind)) } else { m.kind })
        &&& (match m.default { Some(d) => f.default matches Some(x) && x@ == d@, None => f.default is None })
        &&& links_to(f.link, m.references)
    }
}

fn copy_type(t: &Type) -> (r: Type)
    ensures
        r == *t,
    decreases t,
{
    match t {
        Type::Id => Type::Id,
        Type::Key => Type::Key,
        Type::Str => Type::Str,
        Type::Int => Type::Int,
        Type::Float => Type::Float,
        Type::Bool => Type::Bool,
        Type::Moment => Type::Moment,
        Type::Decimal => Type::Decimal,
        Type::Many => Type::Many,
        Type::Opt(inner) => Type::Opt(Box::new(copy_type(inner))),
    }
}

fn member_field(m: &Member) -> (r: Result<Field, String>)
    ensures
        match refusal(*m) {
            Some(msg) => r matches Err(x) && x@ == msg,
            None => r matches Ok(f) && planned(f, *m),
        },
{
    proof {
        reveal_strlit("id");
    }
    let via = match m.via {
        Some(v) => match via_parts(v) {
            Some(p) => Some(p),
            None => return Err(text::owned("expected `#[via(\"through.mine.theirs\")]`")),
        },
        None => None,
    };
    if m.list && m.optional {
        return Err(text::owned("optional lists need plain Vec"));
    }
    if m.list && m.key {
        return Err(text::owned("key needs a single value"));
    }
    if m.key && text::same(m.name, "id") && !m.list {
        return Ok(Field::new(m.name, Type::Id));
    }
    if m.key {
        let f = Field::new(m.name, Type::Key);
        return Ok(match m.references {
            Some(t) => f.references(t),
            None => f,
        });
    }
    if m.list {
        let f = Field::new(m.name, Type::Many);
        return Ok(match via {
            Some((a, b, c)) => f.link(Link::Via(a, b, c)),
            None => f,
        });
    }
    let kind = copy_type(&m.kind);
    let f = Field::new(m.name, if m.optional { kind.optional() } else { kind });
    let f = match m.references {
        Some(t) => f.references(t),
        None => f,
    };
    let f = match &m.default {
        Some(d) => f.default(d.dup()),
        None => f,
    };
    Ok(f)
}

/// The fields a struct derives, in order, or the refusal of its first field that cannot be
/// derived.
pub fn derive_fields(members: &Vec<Member>) -> (r: Result<Vec<Field>, String>)
    ensures
        match r {
            Ok(fields) => fields@.len() == members@.len() && forall|i: int| 0 <= i < members@.len() ==> refusal(
                #[trigger] members@[i],
            ) is None && planned(fields@[i], members@[i]),
            Err(msg) => exists|i: int| 0 <= i < members@.len() && refusal(#[trigger] members@[i]) == Some(msg@)
                && forall|j: int| 0 <= j < i ==> refusal(#[trigger] members@[j]) is None,
        },
{
    let mut out: Vec<Field> = Vec::new();
    let mut i: usize = 0;
    while i < members.len()
        invariant
            i <= members@.len(),
            out@.len() == i,
            forall|j: int| 0 <= j < i ==> refusal(#[trigger] members@[j]) is None && planned(out@[j], members@[j]),
        decreases members@.len() - i,
    {
        match member_field(&members[i]) {
            Ok(f) => out.push(f),
            Err(msg) => {
                assert(refusal(members@[i as int]) == Some(msg@));
                return Err(msg);
            },
        }
        i = i + 1;
    }
    Ok(out)
}

} // verus!
