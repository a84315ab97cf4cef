//! An in-memory store that understands the statements the framework issues for simple tables.

use vstd::prelude::*;

use crate::text::{self, first_at, first_of, has_prefix, occurs_at};
use crate::value::{Cell, Row, StoreError, Value};

verus! {

/// A whitespace character, as `char::is_whitespace` has it (the Unicode `White_Space` set).
pub open spec fn is_space(c: char) -> bool {
    ('\t' <= c && c <= '\r') || c == ' ' || c == '\u{85}' || c == '\u{A0}' || c == '\u{1680}'
        || ('\u{2000}' <= c && c <= '\u{200A}') || c == '\u{2028}' || c == '\u{2029}' || c == '\u{202F}'
        || c == '\u{205F}' || c == '\u{3000}'
}

/// The text without the leading characters that `drop` holds of.
pub open spec fn strip_front(s: Seq<char>, quotes: bool) -> Seq<char>
    decreases s.len(),
{
    if s.len() > 0 && (if quotes { s[0] == '"' } else { is_space(s[0]) }) {
        strip_front(s.drop_first(), quotes)
    } else {
        s
    }
}

/// The text without the trailing characters that `drop` holds of.
pub open spec fn strip_back(s: Seq<char>, quotes: bool) -> Seq<char>
    decreases s.len(),
{
    if s.len() > 0 && (if quotes { s.last() == '"' } else { is_space(s.last()) }) {
        strip_back(s.drop_last(), quotes)
    } else {
        s
    }
}

/// A table name as written in a statement: trimmed of whitespace, then of double quotes.
pub open spec fn name_of(t: Seq<char>) -> Seq<char> {
    strip_back(strip_front(strip_back(strip_front(t, false), false), true), true)
}

fn space(c: char) -> (r: bool)
    ensures
        r == is_space(c),
{
    ('\t' <= c && c <= '\r') || c == ' ' || c == '\u{85}' || c == '\u{A0}' || c == '\u{1680}'
        || ('\u{2000}' <= c && c <= '\u{200A}') || c == '\u{2028}' || c == '\u{2029}' || c == '\u{202F}'
        || c == '\u{205F}' || c == '\u{3000}'
}

fn dropped(c: char, quotes: bool) -> (r: bool)
    ensures
        r == (if quotes { c == '"' } else { is_space(c) }),
{
    if quotes { c == '"' } else { space(c) }
}

fn strip(s: Vec<char>, quotes: bool) -> (r: Vec<char>)
    ensures
        r@ == strip_back(strip_front(s@, quotes), quotes),
{
    let mut a: usize = 0;
    assert(s@.skip(0) =~= s@);
    while a < s.len() && dropped(s[a], quotes)
        invariant
            a <= s@.len(),
            strip_front(s@, quotes) == strip_front(s@.skip(a as int), quotes),
        decreases s@.len() - a,
    {
        assert(s@.skip(a as int).drop_first() =~= s@.skip(a as int + 1));
        a = a + 1;
    }
    assert(strip_front(s@, quotes) == s@.skip(a as int));
    let mut b: usize = s.len();
    while b > a && dropped(s[b - 1], quotes)
        invariant
            a <= b <= s@.len(),
            strip_back(s@.skip(a as int), quotes) == strip_back(s@.subrange(a as int, b as int), quotes),
        decreases b,
    {
        assert(s@.subrange(a as int, b as int).drop_last() =~= s@.subrange(a as int, b - 1));
        b = b - 1;
    }
    assert(s@.skip(a as int) =~= s@.subrange(a as int, s@.len() as int)) by {
        assert(s@.skip(a as int) =~= s@.subrange(a as int, s@.len() as int));
    }
    text::slice(s.as_slice(), a, b)
}

/// Text without leading and trailing whitespace, as `str::trim` gives it.
pub open spec fn trimmed(s: Seq<char>) -> Seq<char> {
    strip_back(strip_front(s, false), false)
}

/// Removes leading and trailing whitespace.
pub fn trim(s: &str) -> (r: String)
    ensures
        r@ == trimmed(s@),
{
    let cs = text::chars(s);
    let t = strip(cs, false);
    text::string_of(t.as_slice())
}

/// The table name written in statement text.
pub fn name(t: &[char]) -> (r: String)
    ensures
        r@ == name_of(t@),
{
    let v = text::slice(t, 0, t.len());
    assert(v@ =~= t@);
    let once = strip(v, false);
    let twice = strip(once, true);
    text::string_of(twice.as_slice())
}

/// The name before the first `(`, or the message for a statement without one.
pub open spec fn head_of(rest: Seq<char>, what: Seq<char>) -> Result<Seq<char>, Seq<char>> {
    match first_of(rest, '(') {
        Some(i) => Ok(name_of(rest.take(i))),
        None => Err("bad "@ + what),
    }
}

fn sql_error(head: &str, tail: &[char]) -> (r: StoreError)
    ensures
        r matches StoreError::Sql(m) && m@ == head@ + tail@,
{
    let mut m = text::owned(head);
    let t = text::string_of(tail);
    text::push_str(&mut m, t.as_str());
    StoreError::Sql(m)
}

fn head(rest: &[char], what: &str) -> (r: Result<String, StoreError>)
    ensures
        match head_of(rest@, what@) {
            Ok(n) => r matches Ok(s) && s@ == n,
            Err(m) => r matches Err(StoreError::Sql(x)) && x@ == m,
        },
{
    match text::position(rest, '(') {
        Some(i) => {
            let part = text::slice(rest, 0, i);
            assert(part@ =~= rest@.take(i as int));
            Ok(name(part.as_slice()))
        },
        None => {
            let w = text::chars(what);
            Err(sql_error("bad ", w.as_slice()))
        },
    }
}

/// The text before the first occurrence of `sep`, or all of it.
pub open spec fn before(s: Seq<char>, sep: Seq<char>) -> Seq<char> {
    match first_at(s, sep) {
        Some(i) => s.take(i),
        None => s,
    }
}

fn cut_before(s: &[char], sep: &str) -> (r: Vec<char>)
    ensures
        r@ == before(s@, sep@),
{
    let p = text::chars(sep);
    match text::find(s, p.as_slice()) {
        Some(i) => {
            let r = text::slice(s, 0, i);
            assert(r@ =~= s@.take(i as int));
            r
        },
        None => text::slice(s, 0, s.len()),
    }
}

/// The number of pieces `split(", ")` gives: one more than the separators, read left to right.
pub open spec fn pieces(s: Seq<char>) -> nat
    decreases s.len(),
{
    if s.len() < 2 {
        1
    } else if s[0] == ',' && s[1] == ' ' {
        pieces(s.skip(2)) + 1
    } else {
        pieces(s.drop_first())
    }
}

fn count_pieces(s: &[char]) -> (r: usize)
    ensures
        r == pieces(s@),
{
    let mut n: usize = 1;
    let mut i: usize = 0;
    assert(s@.skip(0) =~= s@);
    while s.len() - i >= 2
        invariant
            i <= s@.len(),
            s@.len() == s.len(),
            n <= i + 1,
            n + pieces(s@.skip(i as int)) == pieces(s@) + 1,
        decreases s@.len() - i,
    {
        if s[i] == ',' && s[i + 1] == ' ' {
            assert(s@.skip(i as int).skip(2) =~= s@.skip(i + 2));
            n = n + 1;
            i = i + 2;
        } else {
            assert(s@.skip(i as int).drop_first() =~= s@.skip(i + 1));
            i = i + 1;
        }
    }
    assert(s@.skip(i as int).len() < 2);
    n
}

} // verus!

verus! {

/// What a query reads.
#[derive(Clone, Copy, Debug, PartialEq, Eq, Structural)]
pub enum Read {
    /// Every row.
    All,
    /// The rows with the id given as parameter.
    Where,
    /// The number of rows.
    Count,
}

/// The table a `SELECT` reads and how, or the message for a statement that is none.
pub open spec fn select_of(sql: Seq<char>) -> Result<(Seq<char>, Read), Seq<char>> {
    if has_prefix(sql, "SELECT COUNT(*) FROM "@) {
        Ok((name_of(sql.skip(21)), Read::Count))
    } else if !has_prefix(sql, "SELECT * FROM "@) {
        Err("unsupported "@ + sql)
    } else {
        let rest = sql.skip(14);
        if first_at(rest, " WHERE id = ?"@) is Some {
            Ok((name_of(before(rest, " WHERE id = ?"@)), Read::Where))
        } else {
            Ok((name_of(before(rest, " ORDER BY id"@)), Read::All))
        }
    }
}

/// The table an `UPDATE ... SET ... WHERE id = ?` writes and how many cells it sets.
pub open spec fn update_of(rest: Seq<char>) -> Result<(Seq<char>, nat), Seq<char>> {
    match first_at(rest, " SET "@) {
        None => Err("bad update"@),
        Some(i) => {
            let set = rest.skip(i + 5);
            if text::has_suffix(set, " WHERE id = ?"@) {
                Ok((name_of(rest.take(i)), pieces(set.take(set.len() - 13))))
            } else {
                Err("bad update"@)
            }
        },
    }
}

fn starts_with(s: &[char], p: &str) -> (r: bool)
    ensures
        r == has_prefix(s@, p@),
{
    let pc = text::chars(p);
    text::starts(s, pc.as_slice())
}

/// Reads a `SELECT` the store understands.
pub fn parse_select(sql: &str) -> (r: Result<(String, Read), StoreError>)
    ensures
        match select_of(sql@) {
            Ok((n, q)) => r matches Ok((s, k)) && s@ == n && k == q,
            Err(m) => r matches Err(StoreError::Sql(x)) && x@ == m,
        },
{
    let cs = text::chars(sql);
    proof {
        reveal_strlit("SELECT COUNT(*) FROM ");
        reveal_strlit("SELECT * FROM ");
    }
    if starts_with(cs.as_slice(), "SELECT COUNT(*) FROM ") {
        let rest = text::slice(cs.as_slice(), 21, cs.len());
        assert(rest@ =~= sql@.skip(21));
        return Ok((name(rest.as_slice()), Read::Count));
    }
    if !starts_with(cs.as_slice(), "SELECT * FROM ") {
        return Err(sql_error("unsupported ", cs.as_slice()));
    }
    let rest = text::slice(cs.as_slice(), 14, cs.len());
    assert(rest@ =~= sql@.skip(14));
    let w = text::chars(" WHERE id = ?");
    if text::find(rest.as_slice(), w.as_slice()).is_some() {
        let h = cut_before(rest.as_slice(), " WHERE id = ?");
        Ok((name(h.as_slice()), Read::Where))
    } else {
        let h = cut_before(rest.as_slice(), " ORDER BY id");
        Ok((name(h.as_slice()), Read::All))
    }
}

/// Reads an `UPDATE` (after its keyword) the store understands.
pub fn parse_update(rest: &[char]) -> (r: Result<(String, usize), StoreError>)
    ensures
        match update_of(rest@) {
            Ok((n, c)) => r matches Ok((s, k)) && s@ == n && k == c,
            Err(m) => r matches Err(StoreError::Sql(x)) && x@ == m,
        },
{
    let set_word = text::chars(" SET ");
    let tail_word = text::chars(" WHERE id = ?");
    proof {
        reveal_strlit(" SET ");
        reveal_strlit(" WHERE id = ?");
    }
    let i = match text::find(rest, set_word.as_slice()) {
        Some(i) => i,
        None => return Err(StoreError::Sql(text::owned("bad update"))),
    };
    assert(text::occurs_at(rest@, set_word@, i as int));
    assert(rest@.len() == rest.len());
    let set = text::slice(rest, i + 5, rest.len());
    assert(set@ =~= rest@.skip(i + 5));
    if !text::ends(set.as_slice(), tail_word.as_slice()) {
        return Err(StoreError::Sql(text::owned("bad update")));
    }
    let table = text::slice(rest, 0, i);
    assert(table@ =~= rest@.take(i as int));
    let body = text::slice(set.as_slice(), 0, set.len() - 13);
    assert(body@ =~= set@.take(set@.len() - 13));
    Ok((name(table.as_slice()), count_pieces(body.as_slice())))
}

/// One table of the store: its rows and the last id it gave out.
#[derive(Debug)]
pub struct MemTable {
    /// The table's name.
    pub name: String,
    /// The rows, oldest first; each starts with its id.
    pub rows: Vec<Row>,
    /// The last id given out.
    pub next_id: i64,
}

/// A table by content: name, rows, and last id.
pub type TableView = (Seq<char>, Seq<Seq<Cell>>, i64);

/// The cells of each row.
pub open spec fn rows_view(rows: Seq<Row>) -> Seq<Seq<Cell>> {
    rows.map_values(|r: Row| r.cells())
}

/// The content of each table.
pub open spec fn tables_view(ts: Seq<MemTable>) -> Seq<TableView> {
    ts.map_values(|t: MemTable| (t.name@, rows_view(t.rows@), t.next_id))
}

/// The position of the first table with the name.
pub open spec fn table_at(ts: Seq<TableView>, name: Seq<char>) -> Option<int>
    decreases ts.len(),
{
    if ts.len() == 0 {
        None
    } else {
        match table_at(ts.drop_last(), name) {
            Some(k) => Some(k),
            None => if ts.last().0 == name { Some(ts.len() - 1) } else { None },
        }
    }
}

/// The id a row starts with, 0 when it starts with no integer.
pub open spec fn row_id(r: Seq<Cell>) -> int {
    if r.len() > 0 && r[0] is Int { r[0]->Int_0 } else { 0 }
}

/// The rows with the given id.
pub open spec fn with_id(rows: Seq<Seq<Cell>>, id: int) -> Seq<Seq<Cell>>
    decreases rows.len(),
{
    if rows.len() == 0 {
        Seq::empty()
    } else {
        let rest = with_id(rows.drop_last(), id);
        if row_id(rows.last()) == id { rest.push(rows.last()) } else { rest }
    }
}

/// The rows without the given id.
pub open spec fn without_id(rows: Seq<Seq<Cell>>, id: int) -> Seq<Seq<Cell>>
    decreases rows.len(),
{
    if rows.len() == 0 {
        Seq::empty()
    } else {
        let rest = without_id(rows.drop_last(), id);
        if row_id(rows.last()) == id { rest } else { rest.push(rows.last()) }
    }
}

/// The rows with the given id rewritten as the id followed by `cells`.
pub open spec fn rewritten(rows: Seq<Seq<Cell>>, id: int, cells: Seq<Cell>) -> Seq<Seq<Cell>> {
    Seq::new(rows.len(), |i: int| if row_id(rows[i]) == id { seq![Cell::Int(id)] + cells } else { rows[i] })
}

/// An error by content.
pub enum Fault {
    /// A statement the store cannot run.
    Sql(Seq<char>),
    /// A missing or mistyped parameter.
    Value(Seq<char>),
}

/// The fault an error is.
pub open spec fn fault_of(e: StoreError) -> Fault {
    match e {
        StoreError::Value(m) => Fault::Value(m@),
        other => Fault::Sql(other.text()),
    }
}

/// The error is a [`StoreError::Sql`] or [`StoreError::Value`] with the fault's message.
pub open spec fn is_fault(e: StoreError, f: Fault) -> bool {
    match f {
        Fault::Sql(m) => e matches StoreError::Sql(x) && x@ == m,
        Fault::Value(m) => e matches StoreError::Value(x) && x@ == m,
    }
}

/// The id parameter: an integer, or the fault for any other value or none.
pub open spec fn id_param(p: Option<Cell>) -> Result<int, Fault> {
    match p {
        Some(Cell::Int(id)) => Ok(id),
        _ => Err(Fault::Value("expected id param"@)),
    }
}

/// The first cell of a list.
pub open spec fn first_cell(ps: Seq<Cell>) -> Option<Cell> {
    if ps.len() > 0 { Some(ps[0]) } else { None }
}

/// The last cell of a list.
pub open spec fn last_cell(ps: Seq<Cell>) -> Option<Cell> {
    if ps.len() > 0 { Some(ps.last()) } else { None }
}

/// The tables after a statement runs, and its count of rows affected or its fault.
pub open spec fn effect(ts: Seq<TableView>, sql: Seq<char>, ps: Seq<Cell>) -> (Seq<TableView>, Result<nat, Fault>) {
    if has_prefix(sql, "CREATE TABLE IF NOT EXISTS "@) {
        match head_of(sql.skip(27), "create"@) {
            Err(m) => (ts, Err(Fault::Sql(m))),
            Ok(n) => (if table_at(ts, n) is Some { ts } else { ts.push((n, Seq::empty(), 0)) }, Ok(0)),
        }
    } else if has_prefix(sql, "INSERT INTO "@) {
        match head_of(sql.skip(12), "insert"@) {
            Err(m) => (ts, Err(Fault::Sql(m))),
            Ok(n) => match table_at(ts, n) {
                None => (ts, Err(Fault::Sql("no table "@ + n))),
                Some(k) => {
                    let id = ts[k].2 + 1;
                    (ts.update(k, (ts[k].0, ts[k].1.push(seq![Cell::Int(id)] + ps), id as i64)), Ok(1))
                },
            },
        }
    } else if has_prefix(sql, "UPDATE "@) {
        match update_of(sql.skip(7)) {
            Err(m) => (ts, Err(Fault::Sql(m))),
            Ok((n, count)) => match id_param(last_cell(ps)) {
                Err(f) => (ts, Err(f)),
                Ok(id) => match table_at(ts, n) {
                    None => (ts, Err(Fault::Sql("no table "@ + n))),
                    Some(k) => {
                        let kept = ps.take(if count <= ps.len() { count as int } else { ps.len() as int });
                        (
                            ts.update(k, (ts[k].0, rewritten(ts[k].1, id, kept), ts[k].2)),
                            Ok(with_id(ts[k].1, id).len()),
                        )
                    },
                },
            },
        }
    } else if has_prefix(sql, "DELETE FROM "@) {
        let n = name_of(before(sql.skip(12), " WHERE id = ?"@));
        match id_param(first_cell(ps)) {
            Err(f) => (ts, Err(f)),
            Ok(id) => match table_at(ts, n) {
                None => (ts, Err(Fault::Sql("no table "@ + n))),
                Some(k) => (
                    ts.update(k, (ts[k].0, without_id(ts[k].1, id), ts[k].2)),
                    Ok(with_id(ts[k].1, id).len()),
                ),
            },
        }
    } else {
        (ts, Err(Fault::Sql("unsupported "@ + sql)))
    }
}

/// The rows a query returns, or its fault.
pub open spec fn answer(ts: Seq<TableView>, sql: Seq<char>, ps: Seq<Cell>) -> Result<Seq<Seq<Cell>>, Fault> {
    match select_of(sql) {
        Err(m) => Err(Fault::Sql(m)),
        Ok((n, q)) => match table_at(ts, n) {
            None => Err(Fault::Sql("no table"@)),
            Some(k) => match q {
                Read::Count => Ok(seq![seq![Cell::Int(ts[k].1.len() as i64 as int)]]),
                Read::All => Ok(ts[k].1),
                Read::Where => match id_param(first_cell(ps)) {
                    Err(f) => Err(f),
                    Ok(id) => Ok(with_id(ts[k].1, id)),
                },
            },
        },
    }
}

/// No table has given out the largest id.
pub open spec fn has_room(ts: Seq<TableView>) -> bool {
    forall|i: int| 0 <= i < ts.len() ==> #[trigger] ts[i].2 < i64::MAX
}

} // verus!

verus! {

/// Tables kept in memory.
#[derive(Debug)]
pub struct Memory {
    tables: Vec<MemTable>,
}

fn find_table(tables: &Vec<MemTable>, name: &str) -> (r: Option<usize>)
    ensures
        match r {
            Some(k) => table_at(tables_view(tables@), name@) == Some(k as int) && k < tables@.len(),
            None => table_at(tables_view(tables@), name@) is None,
        },
{
    let ghost v = tables_view(tables@);
    let mut i: usize = 0;
    while i < tables.len()
        invariant
            i <= tables@.len(),
            v == tables_view(tables@),
            table_at(v.take(i as int), name@) is None,
        decreases tables@.len() - i,
    {
        assert(v.take(i as int + 1).drop_last() =~= v.take(i as int));
        assert(v[i as int].0 == tables@[i as int].name@);
        if text::same(tables[i].name.as_str(), name) {
            proof { lemma_table_extends(v, name@, i as int + 1); }
            return Some(i);
        }
        i = i + 1;
    }
    assert(v.take(i as int) =~= v);
    None
}

proof fn lemma_table_extends(ts: Seq<TableView>, name: Seq<char>, n: int)
    requires
        0 <= n <= ts.len(),
        table_at(ts.take(n), name) is Some,
    ensures
        table_at(ts, name) == table_at(ts.take(n), name),
    decreases ts.len() - n,
{
    if n < ts.len() {
        assert(ts.take(n + 1).drop_last() =~= ts.take(n));
        lemma_table_extends(ts, name, n + 1);
    } else {
        assert(ts.take(n) =~= ts);
    }
}

fn id_param_of(p: Option<&Value>) -> (r: Result<i64, StoreError>)
    ensures
        match p {
            Some(v) => match id_param(Some(v@)) {
                Ok(id) => r matches Ok(x) && x == id,
                Err(f) => r matches Err(e) && is_fault(e, f),
            },
            None => r matches Err(e) && is_fault(e, Fault::Value("expected id param"@)),
        },
{
    match p {
        Some(Value::Int(id)) => Ok(*id),
        _ => Err(StoreError::Value(text::owned("expected id param"))),
    }
}

fn row_id_of(r: &Row) -> (id: i64)
    ensures
        id == row_id(r.cells()),
{
    if r.values.len() > 0 {
        match &r.values[0] {
            Value::Int(v) => *v,
            _ => 0,
        }
    } else {
        0
    }
}

fn table_error(name: &str) -> (r: StoreError)
    ensures
        r matches StoreError::Sql(m) && m@ == "no table "@ + name@,
{
    let mut m = text::owned("no table ");
    text::push_str(&mut m, name);
    StoreError::Sql(m)
}

impl View for Memory {
    type V = Seq<TableView>;

    closed spec fn view(&self) -> Seq<TableView> {
        tables_view(self.tables@)
    }
}

impl Memory {
    /// A store with no tables.
    pub fn new() -> (r: Memory)
        ensures
            r@ == Seq::<TableView>::empty(),
    {
        let r = Memory { tables: Vec::new() };
        assert(r@ =~= Seq::<TableView>::empty());
        r
    }

    /// Whether every table can still give out a new id.
    pub fn room(&self) -> (r: bool)
        ensures
            r == has_room(self@),
    {
        let mut i: usize = 0;
        while i < self.tables.len()
            invariant
                i <= self.tables@.len(),
                forall|j: int| 0 <= j < i ==> #[trigger] self@[j].2 < i64::MAX,
            decreases self.tables@.len() - i,
        {
            assert(self@[i as int].2 == self.tables@[i as int].next_id);
            if self.tables[i].next_id == i64::MAX {
                return false;
            }
            i = i + 1;
        }
        true
    }

    fn create_table(&mut self, n: String)
        ensures
            final(self)@ == if table_at(old(self)@, n@) is Some { old(self)@ } else { old(self)@.push((n@, Seq::empty(), 0)) },
    {
        if find_table(&self.tables, n.as_str()).is_none() {
            let ghost before = self.tables@;
            let t = MemTable { name: n, rows: Vec::new(), next_id: 0 };
            assert(rows_view(t.rows@) =~= Seq::<Seq<Cell>>::empty());
            self.tables.push(t);
            assert(tables_view(self.tables@) =~= tables_view(before).push((n@, Seq::empty(), 0)));
        }
    }

    fn cells_after(head: Value, params: &Vec<Value>, take: usize) -> (r: Vec<Value>)
        requires
            take <= params@.len(),
        ensures
            r@.map_values(|v: Value| v@) == seq![head@] + params@.map_values(|v: Value| v@).take(take as int),
    {
        let ghost ps = params@.map_values(|v: Value| v@);
        let mut values: Vec<Value> = Vec::new();
        values.push(head);
        let mut j: usize = 0;
        while j < take
            invariant
                j <= take <= params@.len(),
                ps == params@.map_values(|v: Value| v@),
                values@.map_values(|v: Value| v@) == seq![head@] + ps.take(j as int),
            decreases take - j,
        {
            let ghost vb = values@;
            values.push(params[j].dup());
            assert(values@.map_values(|v: Value| v@) =~= vb.map_values(|v: Value| v@).push(params@[j as int]@));
            assert(ps.take(j as int + 1) =~= ps.take(j as int).push(params@[j as int]@));
            j = j + 1;
        }
        values
    }

    fn insert_row(&mut self, k: usize, params: &Vec<Value>)
        requires
            k < old(self)@.len(),
            old(self)@[k as int].2 < i64::MAX,
        ensures
            ({
                let ts = old(self)@;
                let id = ts[k as int].2 + 1;
                final(self)@ == ts.update(k as int, (ts[k as int].0, ts[k as int].1.push(seq![Cell::Int(id)] + params@.map_values(|v: Value| v@)), id as i64))
            }),
    {
        let ghost ps = params@.map_values(|v: Value| v@);
        let ghost before = self.tables@;
        assert(tables_view(before)[k as int].2 == before[k as int].next_id);
        let mut t = self.tables.remove(k);
        let id = t.next_id + 1;
        let values = Memory::cells_after(Value::Int(id), params, params.len());
        assert(ps.take(params@.len() as int) =~= ps);
        let ghost rb = t.rows@;
        let row = Row { values };
        assert(row.cells() == seq![Cell::Int(id as int)] + ps);
        t.rows.push(row);
        t.next_id = id;
        assert(rows_view(t.rows@) =~= rows_view(rb).push(seq![Cell::Int(id as int)] + ps));
        self.tables.insert(k, t);
        assert(tables_view(self.tables@) =~= tables_view(before).update(k as int,
            (tables_view(before)[k as int].0, tables_view(before)[k as int].1.push(seq![Cell::Int(id as int)] + ps), id)));
    }

    fn rewrite_rows(&mut self, k: usize, id: i64, params: &Vec<Value>, take: usize) -> (r: usize)
        requires
            k < old(self)@.len(),
            take <= params@.len(),
        ensures
            ({
                let ts = old(self)@;
                let kept = params@.map_values(|v: Value| v@).take(take as int);
                &&& final(self)@ == ts.update(k as int, (ts[k as int].0, rewritten(ts[k as int].1, id as int, kept), ts[k as int].2))
                &&& r == with_id(ts[k as int].1, id as int).len()
            }),
    {
        let ghost kept = params@.map_values(|v: Value| v@).take(take as int);
        let ghost before = self.tables@;
        let t = self.tables.remove(k);
        let ghost old_rows = rows_view(t.rows@);
        assert(old_rows == tables_view(before)[k as int].1);
        let mut rows: Vec<Row> = Vec::new();
        let mut touched: usize = 0;
        let mut i: usize = 0;
        while i < t.rows.len()
            invariant
                i <= t.rows@.len(),
                old_rows == rows_view(t.rows@),
                take <= params@.len(),
                kept == params@.map_values(|v: Value| v@).take(take as int),
                rows_view(rows@) == rewritten(old_rows, id as int, kept).take(i as int),
                touched == with_id(old_rows.take(i as int), id as int).len(),
                touched <= i,
            decreases t.rows@.len() - i,
        {
            assert(old_rows.take(i as int + 1).drop_last() =~= old_rows.take(i as int));
            let ghost rb = rows@;
            let row = if row_id_of(&t.rows[i]) == id {
                touched = touched + 1;
                Row { values: Memory::cells_after(Value::Int(id), params, take) }
            } else {
                t.rows[i].dup()
            };
            assert(row.cells() == rewritten(old_rows, id as int, kept)[i as int]);
            rows.push(row);
            assert(rows_view(rows@) =~= rows_view(rb).push(row.cells()));
            assert(rewritten(old_rows, id as int, kept).take(i as int + 1)
                =~= rewritten(old_rows, id as int, kept).take(i as int).push(rewritten(old_rows, id as int, kept)[i as int]));
            i = i + 1;
        }
        assert(old_rows.take(i as int) =~= old_rows);
        assert(rewritten(old_rows, id as int, kept).take(i as int) =~= rewritten(old_rows, id as int, kept));
        let next_id = t.next_id;
        self.tables.insert(k, MemTable { name: t.name, rows, next_id });
        assert(tables_view(self.tables@) =~= tables_view(before).update(k as int,
            (tables_view(before)[k as int].0, rewritten(old_rows, id as int, kept), tables_view(before)[k as int].2)));
        touched
    }

    fn delete_rows(&mut self, k: usize, id: i64) -> (r: usize)
        requires
            k < old(self)@.len(),
        ensures
            ({
                let ts = old(self)@;
                &&& final(self)@ == ts.update(k as int, (ts[k as int].0, without_id(ts[k as int].1, id as int), ts[k as int].2))
                &&& r == with_id(ts[k as int].1, id as int).len()
            }),
    {
        let ghost before = self.tables@;
        let t = self.tables.remove(k);
        let ghost old_rows = rows_view(t.rows@);
        assert(old_rows == tables_view(before)[k as int].1);
        let mut rows: Vec<Row> = Vec::new();
        let mut gone: usize = 0;
        let mut i: usize = 0;
        while i < t.rows.len()
            invariant
                i <= t.rows@.len(),
                old_rows == rows_view(t.rows@),
                rows_view(rows@) == without_id(old_rows.take(i as int), id as int),
                gone == with_id(old_rows.take(i as int), id as int).len(),
                gone <= i,
            decreases t.rows@.len() - i,
        {
            assert(old_rows.take(i as int + 1).drop_last() =~= old_rows.take(i as int));
            if row_id_of(&t.rows[i]) == id {
                gone = gone + 1;
            } else {
                let ghost rb = rows@;
                let row = t.rows[i].dup();
                rows.push(row);
                assert(rows_view(rows@) =~= rows_view(rb).push(old_rows[i as int]));
            }
            i = i + 1;
        }
        assert(old_rows.take(i as int) =~= old_rows);
        let next_id = t.next_id;
        self.tables.insert(k, MemTable { name: t.name, rows, next_id });
        assert(tables_view(self.tables@) =~= tables_view(before).update(k as int,
            (tables_view(before)[k as int].0, without_id(old_rows, id as int), tables_view(before)[k as int].2)));
        gone
    }

    /// Runs a `CREATE TABLE`, `INSERT`, `UPDATE` or `DELETE`, giving the number of rows affected.
    #[verifier::rlimit(40)]
    pub fn execute(&mut self, sql: &str, params: &Vec<Value>) -> (r: Result<usize, StoreError>)
        requires
            has_room(old(self)@),
        ensures
            final(self)@ == effect(old(self)@, sql@, params@.map_values(|v: Value| v@)).0,
            match effect(old(self)@, sql@, params@.map_values(|v: Value| v@)).1 {
                Ok(n) => r == Ok::<usize, StoreError>(n as usize),
                Err(f) => r matches Err(e) && is_fault(e, f),
            },
    {
        let ghost ps = params@.map_values(|v: Value| v@);
        let cs = text::chars(sql);
        proof {
            reveal_strlit("CREATE TABLE IF NOT EXISTS ");
            reveal_strlit("INSERT INTO ");
            reveal_strlit("UPDATE ");
            reveal_strlit("DELETE FROM ");
        }
        if starts_with(cs.as_slice(), "CREATE TABLE IF NOT EXISTS ") {
            let rest = text::slice(cs.as_slice(), 27, cs.len());
            assert(rest@ =~= sql@.skip(27));
            let n = match head(rest.as_slice(), "create") {
                Ok(n) => n,
                Err(e) => return Err(e),
            };
            self.create_table(n);
            return Ok(0);
        }
        if starts_with(cs.as_slice(), "INSERT INTO ") {
            let rest = text::slice(cs.as_slice(), 12, cs.len());
            assert(rest@ =~= sql@.skip(12));
            let n = match head(rest.as_slice(), "insert") {
                Ok(n) => n,
                Err(e) => return Err(e),
            };
            let k = match find_table(&self.tables, n.as_str()) {
                Some(k) => k,
                None => return Err(table_error(n.as_str())),
            };
            assert(self@[k as int].2 < i64::MAX);
            self.insert_row(k, params);
            return Ok(1);
        }
        if starts_with(cs.as_slice(), "UPDATE ") {
            let rest = text::slice(cs.as_slice(), 7, cs.len());
            assert(rest@ =~= sql@.skip(7));
            let (n, count) = match parse_update(rest.as_slice()) {
                Ok(p) => p,
                Err(e) => return Err(e),
            };
            let last = if params.len() > 0 { Some(&params[params.len() - 1]) } else { None };
            assert(params@.len() > 0 ==> last_cell(ps) == Some(params@[params@.len() - 1]@));
            let id = match id_param_of(last) {
                Ok(id) => id,
                Err(e) => return Err(e),
            };
            let k = match find_table(&self.tables, n.as_str()) {
                Some(k) => k,
                None => return Err(table_error(n.as_str())),
            };
            let take = if count <= params.len() { count } else { params.len() };
            let touched = self.rewrite_rows(k, id, params, take);
            return Ok(touched);
        }
        if starts_with(cs.as_slice(), "DELETE FROM ") {
            let rest = text::slice(cs.as_slice(), 12, cs.len());
            assert(rest@ =~= sql@.skip(12));
            let h = cut_before(rest.as_slice(), " WHERE id = ?");
            let n = name(h.as_slice());
            let first = if params.len() > 0 { Some(&params[0]) } else { None };
            assert(params@.len() > 0 ==> first_cell(ps) == Some(params@[0]@));
            let id = match id_param_of(first) {
                Ok(id) => id,
                Err(e) => return Err(e),
            };
            let k = match find_table(&self.tables, n.as_str()) {
                Some(k) => k,
                None => return Err(table_error(n.as_str())),
            };
            let gone = self.delete_rows(k, id);
            return Ok(gone);
        }
        Err(sql_error("unsupported ", cs.as_slice()))
    }

    /// Runs a `SELECT` the store understands, giving the rows it reads.
    pub fn fetch(&self, sql: &str, params: &Vec<Value>) -> (r: Result<Vec<Row>, StoreError>)
        ensures
            match answer(self@, sql@, params@.map_values(|v: Value| v@)) {
                Ok(rows) => r matches Ok(v) && rows_view(v@) == rows,
                Err(f) => r matches Err(e) && is_fault(e, f),
            },
    {
        let (n, q) = match parse_select(sql) {
            Ok(p) => p,
            Err(e) => return Err(e),
        };
        let k = match find_table(&self.tables, n.as_str()) {
            Some(k) => k,
            None => return Err(StoreError::Sql(text::owned("no table"))),
        };
        let t = &self.tables[k];
        assert(self@[k as int].1 == rows_view(t.rows@));
        match q {
            Read::Count => {
                let mut out: Vec<Row> = Vec::new();
                let mut values: Vec<Value> = Vec::new();
                let n = t.rows.len() as i64;
                values.push(Value::Int(n));
                let row = Row { values };
                assert(row.cells() =~= seq![Cell::Int(n as int)]);
                out.push(row);
                assert(rows_view(out@) =~= seq![seq![Cell::Int(t.rows@.len() as i64 as int)]]);
                Ok(out)
            },
            Read::All => {
                let mut out: Vec<Row> = Vec::new();
                let mut i: usize = 0;
                while i < t.rows.len()
                    invariant
                        i <= t.rows@.len(),
                        rows_view(out@) == rows_view(t.rows@).take(i as int),
                    decreases t.rows@.len() - i,
                {
                    let ghost ob = out@;
                    let row = t.rows[i].dup();
                    out.push(row);
                    assert(rows_view(out@) =~= rows_view(ob).push(rows_view(t.rows@)[i as int]));
                    assert(rows_view(out@) =~= rows_view(t.rows@).take(i as int + 1));
                    i = i + 1;
                }
                assert(rows_view(t.rows@).take(i as int) =~= rows_view(t.rows@));
                Ok(out)
            },
            Read::Where => {
                let first = if params.len() > 0 { Some(&params[0]) } else { None };
                let id = match id_param_of(first) {
                    Ok(id) => id,
                    Err(e) => return Err(e),
                };
                let ghost all = rows_view(t.rows@);
                let mut out: Vec<Row> = Vec::new();
                let mut i: usize = 0;
                while i < t.rows.len()
                    invariant
                        i <= t.rows@.len(),
                        all == rows_view(t.rows@),
                        rows_view(out@) == with_id(all.take(i as int), id as int),
                    decreases t.rows@.len() - i,
                {
                    assert(all.take(i as int + 1).drop_last() =~= all.take(i as int));
                    if row_id_of(&t.rows[i]) == id {
                        let ghost ob = out@;
                        let row = t.rows[i].dup();
                        out.push(row);
                        assert(rows_view(out@) =~= rows_view(ob).push(all[i as int]));
                    }
                    i = i + 1;
                }
                assert(all.take(i as int) =~= all);
                Ok(out)
            },
        }
    }

    /// The last id the named table gave out.
    pub fn last_id(&self, table: &str) -> (r: Result<i64, StoreError>)
        ensures
            match table_at(self@, table@) {
                Some(k) => r == Ok::<i64, StoreError>(self@[k].2),
                None => r matches Err(StoreError::Sql(m)) && m@ == "no table"@,
            },
    {
        match find_table(&self.tables, table) {
            Some(k) => Ok(self.tables[k].next_id),
            None => Err(StoreError::Sql(text::owned("no table"))),
        }
    }
}

} // verus!

verus! {

proof fn lemma_table_update(ts: Seq<TableView>, k: int, t: TableView, name: Seq<char>)
    requires
        0 <= k < ts.len(),
        t.0 == ts[k].0,
    ensures
        table_at(ts.update(k, t), name) == table_at(ts, name),
    decreases ts.len(),
{
    let u = ts.update(k, t);
    if k == ts.len() - 1 {
        assert(u.drop_last() =~= ts.drop_last());
    } else {
        assert(u.drop_last() =~= ts.drop_last().update(k, t));
        lemma_table_update(ts.drop_last(), k, t, name);
    }
}

proof fn lemma_table_found(ts: Seq<TableView>, name: Seq<char>)
    ensures
        table_at(ts, name) matches Some(k) ==> 0 <= k < ts.len() && ts[k].0 == name,
    decreases ts.len(),
{
    if ts.len() > 0 {
        lemma_table_found(ts.drop_last(), name);
    }
}

proof fn lemma_without(rows: Seq<Seq<Cell>>, id: int)
    ensures
        with_id(without_id(rows, id), id).len() == 0,
    decreases rows.len(),
{
    if rows.len() > 0 {
        lemma_without(rows.drop_last(), id);
        let w = without_id(rows.drop_last(), id);
        if row_id(rows.last()) != id {
            assert(w.push(rows.last()).drop_last() =~= w);
        }
    }
}

proof fn lemma_prefix_of(s: Seq<char>, p: Seq<char>, q: Seq<char>, j: int)
    requires
        has_prefix(s, p),
        0 <= j < p.len(),
        j < q.len(),
        p[j] != q[j],
    ensures
        !has_prefix(s, q),
{
    if has_prefix(s, q) {
        assert(s.subrange(0, p.len() as int)[j] == s.subrange(0, q.len() as int)[j]);
    }
}

/// Reading every row of a table right after an insert into it gives the rows it had, then the
/// new row: the next id followed by the inserted values.
pub proof fn insert_then_read(ts: Seq<TableView>, insert: Seq<char>, select: Seq<char>, ps: Seq<Cell>, qs: Seq<Cell>, name: Seq<char>)
    requires
        has_prefix(insert, "INSERT INTO "@),
        head_of(insert.skip(12), "insert"@) == Ok::<Seq<char>, Seq<char>>(name),
        table_at(ts, name) is Some,
        select_of(select) == Ok::<(Seq<char>, Read), Seq<char>>((name, Read::All)),
    ensures
        ({
            let k = table_at(ts, name).unwrap();
            &&& effect(ts, insert, ps).1 == Ok::<nat, Fault>(1)
            &&& answer(effect(ts, insert, ps).0, select, qs) == Ok::<Seq<Seq<Cell>>, Fault>(ts[k].1.push(seq![Cell::Int(ts[k].2 + 1)] + ps))
        }),
{
    reveal_strlit("CREATE TABLE IF NOT EXISTS ");
    reveal_strlit("INSERT INTO ");
    lemma_prefix_of(insert, "INSERT INTO "@, "CREATE TABLE IF NOT EXISTS "@, 0);
    let k = table_at(ts, name).unwrap();
    lemma_table_found(ts, name);
    let t = (ts[k].0, ts[k].1.push(seq![Cell::Int(ts[k].2 + 1)] + ps), (ts[k].2 + 1) as i64);
    lemma_table_update(ts, k, t, name);
}

/// After a row is deleted by id, reading the table by that id gives no row.
#[verifier::rlimit(50)]
pub proof fn delete_then_read(ts: Seq<TableView>, delete: Seq<char>, select: Seq<char>, ps: Seq<Cell>, id: int, name: Seq<char>)
    requires
        has_prefix(delete, "DELETE FROM "@),
        name_of(before(delete.skip(12), " WHERE id = ?"@)) == name,
        table_at(ts, name) is Some,
        ps.len() > 0 && ps[0] == Cell::Int(id),
        select_of(select) == Ok::<(Seq<char>, Read), Seq<char>>((name, Read::Where)),
    ensures
        effect(ts, delete, ps).1 is Ok,
        answer(effect(ts, delete, ps).0, select, ps) == Ok::<Seq<Seq<Cell>>, Fault>(Seq::empty()),
{
    reveal_strlit("CREATE TABLE IF NOT EXISTS ");
    reveal_strlit("INSERT INTO ");
    reveal_strlit("UPDATE ");
    reveal_strlit("DELETE FROM ");
    lemma_prefix_of(delete, "DELETE FROM "@, "CREATE TABLE IF NOT EXISTS "@, 0);
    lemma_prefix_of(delete, "DELETE FROM "@, "INSERT INTO "@, 0);
    lemma_prefix_of(delete, "DELETE FROM "@, "UPDATE "@, 0);
    let k = table_at(ts, name).unwrap();
    lemma_table_found(ts, name);
    let t = (ts[k].0, without_id(ts[k].1, id), ts[k].2);
    lemma_table_update(ts, k, t, name);
    lemma_without(ts[k].1, id);
    assert(with_id(without_id(ts[k].1, id), id) =~= Seq::<Seq<Cell>>::empty());
}

proof fn lemma_rewritten(rows: Seq<Seq<Cell>>, id: int, cells: Seq<Cell>)
    ensures
        with_id(rewritten(rows, id, cells), id) == with_id(rows, id).map_values(|r: Seq<Cell>| seq![Cell::Int(id)] + cells),
    decreases rows.len(),
{
    let fresh = seq![Cell::Int(id)] + cells;
    assert(row_id(fresh) == id) by {
        assert(fresh[0] == Cell::Int(id));
    }
    if rows.len() == 0 {
        assert(with_id(rows, id).map_values(|r: Seq<Cell>| seq![Cell::Int(id)] + cells) =~= Seq::<Seq<Cell>>::empty());
    } else {
        lemma_rewritten(rows.drop_last(), id, cells);
        let rw = rewritten(rows, id, cells);
        assert(rw.drop_last() =~= rewritten(rows.drop_last(), id, cells));
        let before = with_id(rows.drop_last(), id);
        if row_id(rows.last()) == id {
            assert(rw.last() == fresh);
            assert(before.push(rows.last()).map_values(|r: Seq<Cell>| seq![Cell::Int(id)] + cells)
                =~= before.map_values(|r: Seq<Cell>| seq![Cell::Int(id)] + cells).push(fresh));
        } else {
            assert(rw.last() == rows.last());
        }
    }
}

/// After an update of a row by id, reading the table by that id gives every row that had the
/// id, now the id followed by the values the update set.
#[verifier::rlimit(50)]
pub proof fn update_then_read(ts: Seq<TableView>, update: Seq<char>, select: Seq<char>, ps: Seq<Cell>, qs: Seq<Cell>, id: int, name: Seq<char>, count: nat)
    requires
        has_prefix(update, "UPDATE "@),
        update_of(update.skip(7)) == Ok::<(Seq<char>, nat), Seq<char>>((name, count)),
        table_at(ts, name) is Some,
        ps.len() > 0 && ps.last() == Cell::Int(id),
        select_of(select) == Ok::<(Seq<char>, Read), Seq<char>>((name, Read::Where)),
        qs.len() > 0 && qs[0] == Cell::Int(id),
    ensures
        ({
            let k = table_at(ts, name).unwrap();
            let kept = ps.take(if count <= ps.len() { count as int } else { ps.len() as int });
            &&& effect(ts, update, ps).1 == Ok::<nat, Fault>(with_id(ts[k].1, id).len())
            &&& answer(effect(ts, update, ps).0, select, qs) == Ok::<Seq<Seq<Cell>>, Fault>(
                with_id(ts[k].1, id).map_values(|r: Seq<Cell>| seq![Cell::Int(id)] + kept))
        }),
{
    reveal_strlit("CREATE TABLE IF NOT EXISTS ");
    reveal_strlit("INSERT INTO ");
    reveal_strlit("UPDATE ");
    lemma_prefix_of(update, "UPDATE "@, "CREATE TABLE IF NOT EXISTS "@, 0);
    lemma_prefix_of(update, "UPDATE "@, "INSERT INTO "@, 0);
    let k = table_at(ts, name).unwrap();
    lemma_table_found(ts, name);
    let kept = ps.take(if count <= ps.len() { count as int } else { ps.len() as int });
    let t = (ts[k].0, rewritten(ts[k].1, id, kept), ts[k].2);
    lemma_table_update(ts, k, t, name);
    lemma_rewritten(ts[k].1, id, kept);
}

/// Creating a table that exists changes nothing, so running the same `CREATE` twice is the same
/// as running it once.
pub proof fn create_twice(ts: Seq<TableView>, create: Seq<char>, ps: Seq<Cell>)
    requires
        has_prefix(create, "CREATE TABLE IF NOT EXISTS "@),
    ensures
        effect(effect(ts, create, ps).0, create, ps).0 == effect(ts, create, ps).0,
{
    match head_of(create.skip(27), "create"@) {
        Ok(n) => {
            if table_at(ts, n) is None {
                let after = ts.push((n, Seq::<Seq<Cell>>::empty(), 0i64));
                assert(after.drop_last() =~= ts);
            }
        },
        Err(_) => {},
    }
}


proof fn lemma_without_filter(rows: Seq<Seq<Cell>>, id: int)
    ensures
        without_id(rows, id) == rows.filter(|r: Seq<Cell>| row_id(r) != id),
    decreases rows.len(),
{
    reveal(Seq::filter);
    if rows.len() > 0 {
        lemma_without_filter(rows.drop_last(), id);
    }
}

/// A delete by id takes out only the rows with that id: afterwards the table holds exactly its
/// other rows, in their order, and reading every row gives those.
#[verifier::rlimit(50)]
pub proof fn delete_keeps_others(ts: Seq<TableView>, delete: Seq<char>, select: Seq<char>, ps: Seq<Cell>, qs: Seq<Cell>, id: int, name: Seq<char>)
    requires
        has_prefix(delete, "DELETE FROM "@),
        name_of(before(delete.skip(12), " WHERE id = ?"@)) == name,
        table_at(ts, name) is Some,
        ps.len() > 0 && ps[0] == Cell::Int(id),
        select_of(select) == Ok::<(Seq<char>, Read), Seq<char>>((name, Read::All)),
    ensures
        ({
            let k = table_at(ts, name).unwrap();
            let others = ts[k].1.filter(|r: Seq<Cell>| row_id(r) != id);
            &&& effect(ts, delete, ps).0[k].1 == others
            &&& answer(effect(ts, delete, ps).0, select, qs) == Ok::<Seq<Seq<Cell>>, Fault>(others)
        }),
{
    reveal_strlit("CREATE TABLE IF NOT EXISTS ");
    reveal_strlit("INSERT INTO ");
    reveal_strlit("UPDATE ");
    reveal_strlit("DELETE FROM ");
    lemma_prefix_of(delete, "DELETE FROM "@, "CREATE TABLE IF NOT EXISTS "@, 0);
    lemma_prefix_of(delete, "DELETE FROM "@, "INSERT INTO "@, 0);
    lemma_prefix_of(delete, "DELETE FROM "@, "UPDATE "@, 0);
    let k = table_at(ts, name).unwrap();
    lemma_table_found(ts, name);
    let t = (ts[k].0, without_id(ts[k].1, id), ts[k].2);
    lemma_table_update(ts, k, t, name);
    lemma_without_filter(ts[k].1, id);
}

} // verus!
