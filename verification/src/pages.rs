//! The admin's pages apart from the list: where a form sends the browser back to, the
//! dashboard's entries, and what a row's page shows of it and of the rows that refer to it.

use vstd::prelude::*;

use crate::admin::{align, cell, cells_of, id_of, id_text, text_of, aligned};
use crate::dialect::{join, joined, texts};
use crate::encoding::pair_texts;
use crate::listing::{find_value, lookup};
use crate::spec::{flat_of, is_many, key_name, Field, Filter, Link, Name, Only, Op, Order, Page, Query, Schema, Sort, Table, Tree, Type};
use crate::text;
use crate::value::{Cell, Row, Value};
use crate::widgets::{control_of, fixed_has, input, input_text, locked, locked_of, names_of};

verus! {

/// The text without its leading slashes.
pub open spec fn trim_start(s: Seq<char>) -> Seq<char>
    decreases s.len(),
{
    if s.len() > 0 && s[0] == '/' { trim_start(s.drop_first()) } else { s }
}

/// The text without its trailing slashes.
pub open spec fn trim_end(s: Seq<char>) -> Seq<char>
    decreases s.len(),
{
    if s.len() > 0 && s.last() == '/' { trim_end(s.drop_last()) } else { s }
}

/// The index of the last `c` in the text, if any.
pub open spec fn last_of(s: Seq<char>, c: char) -> Option<int>
    decreases s.len(),
{
    if s.len() == 0 {
        None
    } else if s.last() == c {
        Some(s.len() - 1)
    } else {
        last_of(s.drop_last(), c)
    }
}

proof fn last_of_bounds(s: Seq<char>, c: char)
    ensures
        last_of(s, c) matches Some(i) ==> 0 <= i < s.len() && s[i] == c,
    decreases s.len(),
{
    if s.len() > 0 && s.last() != c {
        last_of_bounds(s.drop_last(), c);
    }
}

/// The pieces of the text between the `c`s; one piece when there is none.
pub open spec fn split_on(s: Seq<char>, c: char) -> Seq<Seq<char>>
    decreases s.len(),
{
    match last_of(s, c) {
        None => seq![s],
        Some(i) => if 0 <= i < s.len() { split_on(s.take(i), c).push(s.skip(i + 1)) } else { seq![s] },
    }
}

proof fn split_grows(s: Seq<char>, c: char, ch: char)
    ensures
        split_on(s.push(ch), c) == if ch == c {
            split_on(s, c).push(Seq::empty())
        } else {
            split_on(s, c).update(split_on(s, c).len() - 1, split_on(s, c).last().push(ch))
        },
        split_on(s, c).len() >= 1,
{
    let t = s.push(ch);
    assert(t.drop_last() =~= s);
    last_of_bounds(s, c);
    if ch == c {
        assert(t.take(s.len() as int) =~= s);
        assert(t.skip(s.len() as int + 1) =~= Seq::<char>::empty());
    } else {
        match last_of(s, c) {
            None => {},
            Some(i) => {
                assert(t.take(i) =~= s.take(i));
                assert(t.skip(i + 1) =~= s.skip(i + 1).push(ch));
            },
        }
    }
}

/// Where a page sends the browser back to: the request path without its last `drop` pieces,
/// between slashes.
pub open spec fn back_of(path: Seq<char>, drop: nat) -> Seq<char> {
    let parts = split_on(trim_end(trim_start(path)), '/');
    let kept = if drop <= parts.len() { parts.take(parts.len() - drop) } else { Seq::empty() };
    "/"@ + joined(kept, "/"@) + "/"@
}

fn trimmed(path: &str) -> (r: Vec<char>)
    ensures
        r@ == trim_end(trim_start(path@)),
{
    let cs = text::chars(path);
    let n = cs.len();
    let mut i: usize = 0;
    assert(cs@.skip(0) =~= cs@);
    while i < n && cs[i] == '/'
        invariant
            i <= n,
            n == cs@.len(),
            cs@ == path@,
            trim_start(path@) == trim_start(cs@.skip(i as int)),
        decreases n - i,
    {
        assert(cs@.skip(i as int).drop_first() =~= cs@.skip(i as int + 1));
        i = i + 1;
    }
    let mut j: usize = n;
    assert(cs@.skip(i as int) =~= cs@.subrange(i as int, n as int));
    while j > i && cs[j - 1] == '/'
        invariant
            i <= j <= n,
            n == cs@.len(),
            trim_start(path@) == cs@.subrange(i as int, n as int),
            trim_end(cs@.subrange(i as int, n as int)) == trim_end(cs@.subrange(i as int, j as int)),
        decreases j - i,
    {
        assert(cs@.subrange(i as int, j as int).drop_last() =~= cs@.subrange(i as int, j - 1));
        j = j - 1;
    }
    text::slice(cs.as_slice(), i, j)
}

pub(crate) fn pieces(s: &Vec<char>, c: char) -> (r: Vec<String>)
    ensures
        texts(r@) == split_on(s@, c),
{
    let mut parts: Vec<String> = Vec::new();
    let mut cur = String::new();
    let mut k: usize = 0;
    proof {
        reveal_strlit("");
        assert(s@.take(0) =~= Seq::<char>::empty());
        assert(split_on(Seq::<char>::empty(), c) =~= seq![Seq::<char>::empty()]);
    }
    while k < s.len()
        invariant
            k <= s@.len(),
            texts(parts@).push(cur@) == split_on(s@.take(k as int), c),
        decreases s@.len() - k,
    {
        let ch = s[k];
        proof {
            split_grows(s@.take(k as int), c, ch);
            assert(s@.take(k as int + 1) =~= s@.take(k as int).push(ch));
        }
        let ghost before = texts(parts@).push(cur@);
        if ch == c {
            let done = cur;
            parts.push(done);
            cur = String::new();
            proof {
                reveal_strlit("");
                assert(texts(parts@).push(cur@) =~= before.push(Seq::empty()));
            }
        } else {
            text::push_char(&mut cur, ch);
            proof {
                assert(texts(parts@).push(cur@) =~= before.update(before.len() - 1, before.last().push(ch)));
            }
        }
        k = k + 1;
    }
    parts.push(cur);
    assert(s@.take(k as int) =~= s@);
    assert(texts(parts@) =~= split_on(s@, c));
    parts
}

/// Where a page sends the browser back to: the request path without its last `drop` pieces.
pub fn back(path: &str, drop: usize) -> (r: String)
    ensures
        r@ == back_of(path@, drop as nat),
{
    let t = trimmed(path);
    let mut parts = pieces(&t, '/');
    let ghost all = texts(parts@);
    let mut n: usize = 0;
    while n < drop && parts.len() > 0
        invariant
            n <= drop,
            all == split_on(t@, '/'),
            n <= all.len(),
            texts(parts@) == all.take(all.len() - n),
        decreases drop - n,
    {
        let ghost before = parts@;
        assert(texts(before).len() == before.len());
        parts.pop();
        assert(parts@ =~= before.drop_last());
        assert(texts(parts@) =~= texts(before).drop_last());
        assert(texts(parts@) =~= all.take(all.len() - n - 1));
        n = n + 1;
    }
    proof {
        if drop <= all.len() {
            if n < drop {
                assert(all.len() - n == 0);
            }
        } else {
            assert(texts(parts@) =~= Seq::<Seq<char>>::empty());
        }
    }
    let inner = join(&parts, "/");
    let mut out = text::owned("/");
    text::push_str(&mut out, inner.as_str());
    text::push_str(&mut out, "/");
    out
}

/// A dashboard line: the link to a table's list, its name, and how many rows it holds.
#[derive(Debug)]
pub struct Entry {
    /// Link to the list.
    pub href: String,
    /// The table's name.
    pub title: String,
    /// The number of rows, as text.
    pub count: String,
}

/// The read that counts every row of a table.
pub fn count_query() -> (r: Query)
    ensures
        r.tree matches Tree::And(v) && v@.len() == 0,
        r.sort@.len() == 0,
        r.page.count == 0 && r.page.offset == 0,
        r.only is All,
        r.mass is None,
{
    Query { tree: Tree::And(Vec::new()), sort: Vec::new(), page: Page::all(), only: Only::All, mass: None }
}

/// The dashboard line of a table, under the dashboard's path; a count that could not be read
/// shows as 0.
pub fn entry(path: &str, table: Table, total: Option<usize>) -> (r: Entry)
    ensures
        r.href@ == trim_end(path@) + "/"@ + table@ + "/"@,
        r.title@ == table@,
        r.count@ == text::digits(match total { Some(n) => n as nat, None => 0 }),
{
    let cs = text::chars(path);
    let mut j: usize = cs.len();
    assert(cs@.take(j as int) =~= cs@);
    while j > 0 && cs[j - 1] == '/'
        invariant
            j <= cs@.len(),
            cs@ == path@,
            trim_end(path@) == trim_end(cs@.take(j as int)),
        decreases j,
    {
        assert(cs@.take(j as int).drop_last() =~= cs@.take(j - 1));
        j = j - 1;
    }
    let base = text::slice(cs.as_slice(), 0, j);
    assert(base@ =~= cs@.take(j as int));
    let mut href = text::string_of(base.as_slice());
    text::push_str(&mut href, "/");
    text::push_str(&mut href, table.0);
    text::push_str(&mut href, "/");
    let n: usize = match total {
        Some(n) => n,
        None => 0,
    };
    Entry { href, title: text::owned(table.0), count: text::size_text(n) }
}

/// The pairs without those of the name.
pub open spec fn without(params: Seq<(Seq<char>, Seq<char>)>, name: Seq<char>) -> Seq<(Seq<char>, Seq<char>)>
    decreases params.len(),
{
    if params.len() == 0 {
        Seq::empty()
    } else {
        let rest = without(params.drop_last(), name);
        if params.last().0 == name { rest } else { rest.push(params.last()) }
    }
}

/// The notice a row's page shows, and the parameters it keeps: the `notice` parameter is taken
/// out when there is one, else `saved` (giving `Saved.`), else `deleted` (giving `Deleted.`).
pub open spec fn notice_taken(params: Seq<(Seq<char>, Seq<char>)>) -> (Seq<char>, Seq<(Seq<char>, Seq<char>)>) {
    match find_value(params, "notice"@) {
        Some(n) => (n, without(params, "notice"@)),
        None => if find_value(params, "saved"@) is Some {
            ("Saved."@, without(params, "saved"@))
        } else if find_value(params, "deleted"@) is Some {
            ("Deleted."@, without(params, "deleted"@))
        } else {
            (Seq::empty(), params)
        },
    }
}

fn drop_named(params: &Vec<(String, String)>, name: &str) -> (r: Vec<(String, String)>)
    ensures
        pair_texts(r@) == without(pair_texts(params@), name@),
{
    let ghost all = pair_texts(params@);
    let mut out: Vec<(String, String)> = Vec::new();
    let mut i: usize = 0;
    while i < params.len()
        invariant
            i <= params@.len(),
            all == pair_texts(params@),
            pair_texts(out@) == without(all.take(i as int), name@),
        decreases params@.len() - i,
    {
        assert(all.take(i as int + 1).drop_last() =~= all.take(i as int));
        assert(all[i as int] == (params@[i as int].0@, params@[i as int].1@));
        if !text::same(params[i].0.as_str(), name) {
            let ghost before = out@;
            out.push((params[i].0.clone(), params[i].1.clone()));
            assert(pair_texts(out@) =~= pair_texts(before).push(all[i as int]));
        }
        i = i + 1;
    }
    assert(all.take(i as int) =~= all);
    out
}

fn copied(params: &Vec<(String, String)>) -> (r: Vec<(String, String)>)
    ensures
        pair_texts(r@) == pair_texts(params@),
{
    let mut out: Vec<(String, String)> = Vec::new();
    let mut i: usize = 0;
    while i < params.len()
        invariant
            i <= params@.len(),
            pair_texts(out@) == pair_texts(params@.take(i as int)),
        decreases params@.len() - i,
    {
        let ghost before = out@;
        out.push((params[i].0.clone(), params[i].1.clone()));
        assert(pair_texts(out@) =~= pair_texts(before).push((params@[i as int].0@, params@[i as int].1@)));
        assert(pair_texts(params@.take(i as int + 1)) =~= pair_texts(params@.take(i as int)).push(
            (params@[i as int].0@, params@[i as int].1@),
        ));
        i = i + 1;
    }
    assert(params@.take(i as int) =~= params@);
    out
}

/// The notice a row's page shows, and the parameters its links keep.
pub fn take_notice(params: &Vec<(String, String)>) -> (r: (String, Vec<(String, String)>))
    ensures
        (r.0@, pair_texts(r.1@)) == notice_taken(pair_texts(params@)),
{
    match lookup(params, "notice") {
        Some(n) => (n, drop_named(params, "notice")),
        None => if lookup(params, "saved").is_some() {
            (text::owned("Saved."), drop_named(params, "saved"))
        } else if lookup(params, "deleted").is_some() {
            (text::owned("Deleted."), drop_named(params, "deleted"))
        } else {
            proof {
                reveal_strlit("");
            }
            (String::new(), copied(params))
        },
    }
}

/// Each field's name with the text of its value, as a row's page lists them.
pub fn shown_pairs(fields: &Vec<Field>, values: &Vec<Value>) -> (r: Vec<(String, String)>)
    ensures
        r@.len() == fields@.len(),
        forall|i: int| 0 <= i < r@.len() ==> (#[trigger] r@[i]).0@ == fields@[i].name@ && r@[i].1@ == text_of(
            if i < values@.len() { Some(values@[i]@) } else { None },
        ),
{
    let mut out: Vec<(String, String)> = Vec::new();
    let mut i: usize = 0;
    while i < fields.len()
        invariant
            i <= fields@.len(),
            out@.len() == i,
            forall|k: int| 0 <= k < i ==> (#[trigger] out@[k]).0@ == fields@[k].name@ && out@[k].1@ == text_of(
                if k < values@.len() { Some(values@[k]@) } else { None },
            ),
        decreases fields@.len() - i,
    {
        out.push((text::owned(fields[i].name.0), cell(values, i)));
        i = i + 1;
    }
    out
}

/// The field of another table refers to this one.
pub open spec fn refers(other: Schema, f: Field, table: Seq<char>) -> bool {
    other.table@ != table && (f.link matches Some(Link::To(t, _)) && t@ == table)
}

/// The positions of the fields of `other` (at position `si`) that refer to the table, in order.
pub open spec fn refs_in(other: Schema, fields: Seq<Field>, si: int, table: Seq<char>) -> Seq<(int, int)>
    decreases fields.len(),
{
    if fields.len() == 0 {
        Seq::empty()
    } else {
        let rest = refs_in(other, fields.drop_last(), si, table);
        if refers(other, fields.last(), table) { rest.push((si, fields.len() - 1)) } else { rest }
    }
}

/// Every field of the other tables that refers to the table: schema position and field
/// position, in order.
pub open spec fn referrers(schemas: Seq<Schema>, table: Seq<char>) -> Seq<(int, int)>
    decreases schemas.len(),
{
    if schemas.len() == 0 {
        Seq::empty()
    } else {
        let last = schemas.last();
        referrers(schemas.drop_last(), table) + refs_in(last, last.fields@, schemas.len() - 1, table)
    }
}

/// The positions as integers.
pub open spec fn places(v: Seq<(usize, usize)>) -> Seq<(int, int)> {
    v.map_values(|p: (usize, usize)| (p.0 as int, p.1 as int))
}

/// Every field of the other tables that refers to the table: schema position and field
/// position, in order.
pub fn referring(schemas: &Vec<Schema>, table: Table) -> (r: Vec<(usize, usize)>)
    ensures
        places(r@) == referrers(schemas@, table@),
{
    let mut out: Vec<(usize, usize)> = Vec::new();
    let mut s: usize = 0;
    while s < schemas.len()
        invariant
            s <= schemas@.len(),
            places(out@) == referrers(schemas@.take(s as int), table@),
        decreases schemas@.len() - s,
    {
        assert(schemas@.take(s as int + 1).drop_last() =~= schemas@.take(s as int));
        let other = &schemas[s];
        let ghost start = places(out@);
        let same = text::same(other.table.0, table.0);
        let mut f: usize = 0;
        while f < other.fields.len()
            invariant
                f <= other.fields@.len(),
                other == schemas@[s as int],
                same == (other.table@ == table@),
                places(out@) == start + refs_in(*other, other.fields@.take(f as int), s as int, table@),
            decreases other.fields@.len() - f,
        {
            assert(other.fields@.take(f as int + 1).drop_last() =~= other.fields@.take(f as int));
            let hit = match other.fields[f].reference() {
                Some((t, _)) => !same && text::same(t.0, table.0),
                None => false,
            };
            if hit {
                let ghost before = out@;
                out.push((s, f));
                assert(places(out@) =~= places(before).push((s as int, f as int)));
            }
            f = f + 1;
        }
        assert(other.fields@.take(f as int) =~= other.fields@);
        proof {
            step_referrers(schemas@, s as int, table@);
        }
        s = s + 1;
    }
    assert(schemas@.take(s as int) =~= schemas@);
    out
}

proof fn step_referrers(schemas: Seq<Schema>, s: int, table: Seq<char>)
    requires
        0 <= s < schemas.len(),
    ensures
        referrers(schemas.take(s + 1), table) == referrers(schemas.take(s), table) + refs_in(
            schemas[s],
            schemas[s].fields@,
            s,
            table,
        ),
{
    assert(schemas.take(s + 1).drop_last() =~= schemas.take(s));
    assert(schemas.take(s + 1).last() == schemas[s]);
}

/// The read of the rows of `other` whose field holds the key, by `other`'s key ascending.
pub fn inline_query(other: &Schema, field: Name, key: Value) -> (r: Query)
    ensures
        r.tree matches Tree::Leaf(f) && f.field@ == field@ && f.op == Op::Eq && f.value@ == key@,
        r.sort@.len() == 1 && r.sort@[0].field@ == key_name(other.fields@) && r.sort@[0].order == Order::Asc,
        r.page.count == 0 && r.page.offset == 0,
        r.only is All,
        r.mass is None,
{
    Query {
        tree: Tree::Leaf(Filter { field, op: Op::Eq, value: key }),
        sort: vec![Sort { field: other.key(), order: Order::Asc }],
        page: Page::all(),
        only: Only::All,
        mass: None,
    }
}

/// A column an inline table shows: not a key, not virtual.
pub open spec fn inline_shown(f: Field) -> bool {
    !(flat_of(f.kind) is Id || flat_of(f.kind) is Key) && !is_many(f.kind)
}

/// The positions of the columns an inline table shows, in order.
pub fn inline_columns(fields: &Vec<Field>) -> (r: Vec<usize>)
    ensures
        forall|k: int| 0 <= k < r@.len() ==> (#[trigger] r@[k]) < fields@.len() && inline_shown(fields@[r@[k] as int]),
        forall|k: int, l: int| 0 <= k < l < r@.len() ==> (#[trigger] r@[k]) < (#[trigger] r@[l]),
        forall|i: int| 0 <= i < fields@.len() && inline_shown(#[trigger] fields@[i]) ==> r@.contains(i as usize),
{
    let mut out: Vec<usize> = Vec::new();
    let mut i: usize = 0;
    while i < fields.len()
        invariant
            i <= fields@.len(),
            forall|k: int| 0 <= k < out@.len() ==> (#[trigger] out@[k]) < i && inline_shown(fields@[out@[k] as int]),
            forall|k: int, l: int| 0 <= k < l < out@.len() ==> (#[trigger] out@[k]) < (#[trigger] out@[l]),
            forall|j: int| 0 <= j < i && inline_shown(#[trigger] fields@[j]) ==> out@.contains(j as usize),
        decreases fields@.len() - i,
    {
        let key = match fields[i].kind.flat() {
            Type::Id | Type::Key => true,
            _ => false,
        };
        if !key && !crate::spec::many(&fields[i].kind) {
            let ghost before = out@;
            out.push(i);
            assert forall|j: int| 0 <= j < i + 1 && inline_shown(#[trigger] fields@[j]) implies out@.contains(j as usize) by {
                if j < i {
                    assert(before.contains(j as usize));
                    let w = choose|w: int| 0 <= w < before.len() && before[w] == j as usize;
                    assert(out@[w] == j as usize);
                } else {
                    assert(out@[out@.len() - 1] == i);
                }
            }
        }
        i = i + 1;
    }
    out
}

/// A row of an inline table: its key's text and the text of its shown cells.
#[derive(Debug)]
pub struct Item {
    /// The key's text, as links use it.
    pub id: String,
    /// The shown cells' text.
    pub cells: Vec<String>,
}

/// The rows of an inline table: each row laid out against the fields, then its key and the
/// cells at the shown positions.
pub fn inline_items(rows: &Vec<Row>, fields: &Vec<Field>, at: &Vec<usize>) -> (r: Vec<Item>)
    ensures
        r@.len() == rows@.len(),
        forall|i: int| 0 <= i < r@.len() ==> {
            let laid = aligned(cells_of(rows@[i].values@), fields@);
            &&& (#[trigger] r@[i]).id@ == id_text(laid, fields@)
            &&& r@[i].cells@.len() == at@.len()
            &&& forall|k: int| 0 <= k < at@.len() ==> (#[trigger] r@[i].cells@[k])@ == text_of(
                if (at@[k] as int) < laid.len() { Some(laid[at@[k] as int]) } else { None },
            )
        },
{
    let mut out: Vec<Item> = Vec::new();
    let mut i: usize = 0;
    while i < rows.len()
        invariant
            i <= rows@.len(),
            out@.len() == i,
            forall|j: int| 0 <= j < i ==> {
                let laid = aligned(cells_of(rows@[j].values@), fields@);
                &&& (#[trigger] out@[j]).id@ == id_text(laid, fields@)
                &&& out@[j].cells@.len() == at@.len()
                &&& forall|k: int| 0 <= k < at@.len() ==> (#[trigger] out@[j].cells@[k])@ == text_of(
                    if (at@[k] as int) < laid.len() { Some(laid[at@[k] as int]) } else { None },
                )
            },
        decreases rows@.len() - i,
    {
        let values = align(&rows[i].values, fields);
        let ghost laid = aligned(cells_of(rows@[i as int].values@), fields@);
        assert(cells_of(values@) == laid);
        let id = id_of(&values, fields);
        let mut cells: Vec<String> = Vec::new();
        let mut k: usize = 0;
        while k < at.len()
            invariant
                k <= at@.len(),
                cells_of(values@) == laid,
                cells@.len() == k,
                forall|m: int| 0 <= m < k ==> (#[trigger] cells@[m])@ == text_of(
                    if (at@[m] as int) < laid.len() { Some(laid[at@[m] as int]) } else { None },
                ),
            decreases at@.len() - k,
        {
            let c = cell(&values, at[k]);
            cells.push(c);
            k = k + 1;
        }
        out.push(Item { id, cells });
        i = i + 1;
    }
    out
}

/// The heads of an inline table: the key's name, then the shown columns' names.
pub fn inline_heads(other: &Schema, at: &Vec<usize>) -> (r: Vec<String>)
    requires
        forall|k: int| 0 <= k < at@.len() ==> (#[trigger] at@[k]) < other.fields@.len(),
    ensures
        r@.len() == at@.len() + 1,
        r@[0]@ == key_name(other.fields@),
        forall|k: int| 0 <= k < at@.len() ==> (#[trigger] r@[k + 1])@ == other.fields@[at@[k] as int].name@,
{
    let mut out: Vec<String> = Vec::new();
    out.push(text::owned(other.key().0));
    let mut k: usize = 0;
    while k < at.len()
        invariant
            k <= at@.len(),
            out@.len() == k + 1,
            out@[0]@ == key_name(other.fields@),
            forall|m: int| 0 <= m < at@.len() ==> (#[trigger] at@[m]) < other.fields@.len(),
            forall|m: int| 0 <= m < k ==> (#[trigger] out@[m + 1])@ == other.fields@[at@[m] as int].name@,
        decreases at@.len() - k,
    {
        out.push(text::owned(other.fields[at[k]].name.0));
        k = k + 1;
    }
    out
}

/// The link from an inline table to the other table's list, filtered on the row's key.
pub fn inline_href(table: Table, field: Name, id: &str) -> (r: String)
    ensures
        r@ == "../../"@ + table@ + "/?"@ + field@ + "="@ + id@,
{
    let mut out = text::owned("../../");
    text::push_str(&mut out, table.0);
    text::push_str(&mut out, "/?");
    text::push_str(&mut out, field.0);
    text::push_str(&mut out, "=");
    text::push_str(&mut out, id);
    out
}

/// The edit control of a field showing a cell.
pub open spec fn input_of(f: Field, v: Option<Cell>) -> Seq<char> {
    control_of(f, input_text(f, v), v == Some(Cell::Bool(true)))
}

/// The controls of a new-row form: nothing for the id, the locked default of a fixed field,
/// else the control showing the default.
pub open spec fn new_inputs_of(fields: Seq<Field>, fixed: Seq<Seq<char>>) -> Seq<Seq<char>>
    decreases fields.len(),
{
    if fields.len() == 0 {
        Seq::empty()
    } else {
        let rest = new_inputs_of(fields.drop_last(), fixed);
        let f = fields.last();
        let d: Option<Cell> = match f.default { Some(v) => Some(v@), None => None };
        if f.kind == Type::Id {
            rest
        } else if fixed.contains(f.name@) {
            rest.push(locked_of(f, d))
        } else {
            rest.push(input_of(f, d))
        }
    }
}

/// The controls of a new-row form.
pub fn new_inputs(fields: &Vec<Field>, fixed: &Vec<Name>) -> (r: Vec<String>)
    ensures
        texts(r@) == new_inputs_of(fields@, names_of(fixed@)),
{
    let mut out: Vec<String> = Vec::new();
    let mut i: usize = 0;
    while i < fields.len()
        invariant
            i <= fields@.len(),
            texts(out@) == new_inputs_of(fields@.take(i as int), names_of(fixed@)),
        decreases fields@.len() - i,
    {
        assert(fields@.take(i as int + 1).drop_last() =~= fields@.take(i as int));
        let f = &fields[i];
        let is_id = match f.kind {
            Type::Id => true,
            _ => false,
        };
        if !is_id {
            let d = match &f.default {
                Some(v) => Some(v),
                None => None,
            };
            let shown = if fixed_has(fixed, f.name.0) { locked(f, d) } else { input(f, d) };
            let ghost before = out@;
            out.push(shown);
            assert(texts(out@) =~= texts(before).push(shown@));
        }
        i = i + 1;
    }
    assert(fields@.take(i as int) =~= fields@);
    out
}

/// The controls of an edit form after the fields so far, and how many stored values they used:
/// nothing for the id, the locked value of a fixed field or a text key, else the control
/// showing the value.
pub open spec fn edit_inputs_of(fields: Seq<Field>, fixed: Seq<Seq<char>>, have: Seq<Cell>) -> (Seq<Seq<char>>, nat)
    decreases fields.len(),
{
    if fields.len() == 0 {
        (Seq::empty(), 0)
    } else {
        let (rest, slot) = edit_inputs_of(fields.drop_last(), fixed, have);
        let f = fields.last();
        if f.kind == Type::Id {
            (rest, slot)
        } else {
            let old: Option<Cell> = if slot < have.len() { Some(have[slot as int]) } else { None };
            if fixed.contains(f.name@) || flat_of(f.kind) is Key {
                (rest.push(locked_of(f, old)), slot + 1)
            } else {
                (rest.push(input_of(f, old)), slot + 1)
            }
        }
    }
}

/// The controls of an edit form for a stored row's values.
pub fn edit_inputs(fields: &Vec<Field>, fixed: &Vec<Name>, have: &Vec<Value>) -> (r: Vec<String>)
    ensures
        texts(r@) == edit_inputs_of(fields@, names_of(fixed@), cells_of(have@)).0,
{
    let ghost cells = cells_of(have@);
    let mut out: Vec<String> = Vec::new();
    let mut slot: usize = 0;
    let mut i: usize = 0;
    while i < fields.len()
        invariant
            i <= fields@.len(),
            cells == cells_of(have@),
            slot <= i,
            (texts(out@), slot as nat) == edit_inputs_of(fields@.take(i as int), names_of(fixed@), cells),
        decreases fields@.len() - i,
    {
        assert(fields@.take(i as int + 1).drop_last() =~= fields@.take(i as int));
        let f = &fields[i];
        let is_id = match f.kind {
            Type::Id => true,
            _ => false,
        };
        if !is_id {
            let old: Option<&Value> = if slot < have.len() { Some(&have[slot]) } else { None };
            let is_key = match f.kind.flat() {
                Type::Key => true,
                _ => false,
            };
            let shown = if fixed_has(fixed, f.name.0) || is_key { locked(f, old) } else { input(f, old) };
            let ghost before = out@;
            out.push(shown);
            assert(texts(out@) =~= texts(before).push(shown@));
            slot = slot + 1;
        }
        i = i + 1;
    }
    assert(fields@.take(i as int) =~= fields@);
    out
}

} // verus!
