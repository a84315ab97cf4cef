//! The SQL text a model repository hands to a store that runs statements as text: inserts,
//! reads by key, scans, counts, updates and deletes, all with `?` placeholders.

use vstd::prelude::*;

use crate::dialect::{cells, join, joined, mark_of, quote, quoted, texts, Dialect};
use crate::spec::{field_index, key_name, Field, Name, Order, Schema, Sort};
use crate::statement::{
    batch_of, batch_size, is_keyed, keyed, marks_from, order_by, order_of, pair_cells, pair_names,
    set_list, sort_text, where_text,
};
use crate::text::{self, digits};
use crate::value::{Row, Value};

verus! {

/// The column names of the first row of a batch that has any pair; none when no row has one.
pub open spec fn head_names(rows: Seq<Vec<(Name, Value)>>) -> Seq<Seq<char>>
    decreases rows.len(),
{
    if rows.len() == 0 {
        Seq::empty()
    } else {
        let before = head_names(rows.drop_last());
        if before.len() == 0 { pair_names(rows.last()@) } else { before }
    }
}

/// One insert for a whole batch: the columns of its first non-empty row, one `(?, …)` group
/// per row.
pub open spec fn many_text(table: Seq<char>, rows: Seq<Vec<(Name, Value)>>) -> Seq<char> {
    "INSERT INTO "@ + quoted(table) + " ("@ + joined(head_names(rows).map_values(|n: Seq<char>| quoted(n)), ", "@)
        + ") VALUES "@ + joined(batch_of(Dialect::Sqlite, rows).0, ", "@)
}

/// The read of the row whose key column equals the parameter.
pub open spec fn one_text(table: Seq<char>, key: Seq<char>) -> Seq<char> {
    "SELECT * FROM "@ + quoted(table) + " WHERE "@ + quoted(key) + " = ?"@
}

/// The read of every row by key.
pub open spec fn every_text(table: Seq<char>, key: Seq<char>) -> Seq<char> {
    "SELECT * FROM "@ + quoted(table) + " ORDER BY "@ + quoted(key)
}

/// The read of the rows whose column equals the parameter, by key.
pub open spec fn matching_text(table: Seq<char>, column: Seq<char>, key: Seq<char>) -> Seq<char> {
    "SELECT * FROM "@ + quoted(table) + " WHERE "@ + quoted(column) + " = ? ORDER BY "@ + quoted(key)
}

/// The sort as the `name` / `-name` text a scan reads.
pub open spec fn sort_arg(s: Sort) -> Seq<char> {
    if s.order == Order::Desc { "-"@ + s.field@ } else { s.field@ }
}

/// ` LIMIT count OFFSET offset` for a page, nothing without one.
pub open spec fn page_text(limit: Option<(usize, usize)>) -> Seq<char> {
    match limit {
        Some((count, offset)) => " LIMIT "@ + digits(count as nat) + " OFFSET "@ + digits(offset as nat),
        None => Seq::empty(),
    }
}

/// A scan: the rows meeting the condition, in the sort text's order, within the page.
pub open spec fn scan_of(schema: Schema, cond: Seq<char>, sort: Seq<char>, limit: Option<(usize, usize)>) -> Seq<char> {
    "SELECT * FROM "@ + quoted(schema.table@) + where_text(cond) + " ORDER BY "@ + order_of(schema.fields@, sort)
        + page_text(limit)
}

/// The count of the rows meeting the condition.
pub open spec fn count_text(table: Seq<char>, cond: Seq<char>) -> Seq<char> {
    "SELECT COUNT(*) FROM "@ + quoted(table) + where_text(cond)
}

/// The update of every written column of the row with the key.
pub open spec fn update_text(table: Seq<char>, names: Seq<Seq<char>>, key: Seq<char>) -> Seq<char> {
    "UPDATE "@ + quoted(table) + " SET "@ + joined(set_list(Dialect::Sqlite, names), ", "@) + " WHERE "@
        + quoted(key) + " = ?"@
}

/// The delete of the row with the key.
pub open spec fn delete_text(table: Seq<char>, key: Seq<char>) -> Seq<char> {
    "DELETE FROM "@ + quoted(table) + " WHERE "@ + quoted(key) + " = ?"@
}

/// The count a counting read answered: the integer in the first cell of the first row, taken
/// as `usize`, or 0 when there is none.
pub open spec fn counted_of(rows: Seq<Row>) -> usize {
    if rows.len() > 0 && rows[0].values@.len() > 0 && rows[0].values@[0] is Int {
        (rows[0].values@[0]->Int_0) as usize
    } else {
        0
    }
}

/// How a batch of new models is written.
pub enum Saving {
    /// An empty batch: nothing.
    Nothing,
    /// A table keyed by text: one insert for the whole batch, with its parameters.
    Batch(String, Vec<Value>),
    /// Otherwise one insert per model, each given its column names and values; the store
    /// answers each with the new id.
    Each(Vec<(Vec<String>, Vec<Value>)>),
}

/// The names and cells of each per-model insert.
pub open spec fn each_views(v: Seq<(Vec<String>, Vec<Value>)>) -> Seq<(Seq<Seq<char>>, Seq<crate::value::Cell>)> {
    v.map_values(|p: (Vec<String>, Vec<Value>)| (texts(p.0@), cells(p.1@)))
}

/// The quoted names of a row's pairs.
fn quoted_names(row: &Vec<(Name, Value)>) -> (r: Vec<String>)
    ensures
        texts(r@) == pair_names(row@).map_values(|n: Seq<char>| quoted(n)),
{
    let mut out: Vec<String> = Vec::new();
    let mut i: usize = 0;
    while i < row.len()
        invariant
            i <= row@.len(),
            texts(out@) == pair_names(row@.take(i as int)).map_values(|n: Seq<char>| quoted(n)),
        decreases row@.len() - i,
    {
        let q = quote(row[i].0.0);
        let ghost before = out@;
        out.push(q);
        assert(texts(out@) =~= texts(before).push(q@));
        assert(pair_names(row@.take(i as int + 1)).map_values(|n: Seq<char>| quoted(n))
            =~= pair_names(row@.take(i as int)).map_values(|n: Seq<char>| quoted(n)).push(quoted(row@[i as int].0@)));
        i = i + 1;
    }
    assert(row@.take(row@.len() as int) =~= row@);
    out
}

/// The single insert that writes a whole batch into the table.
pub fn insert_many(table: &str, rows: &Vec<Vec<(Name, Value)>>) -> (r: (String, Vec<Value>))
    requires
        batch_size(rows@) + 2 < usize::MAX,
    ensures
        r.0@ == many_text(table@, rows@),
        cells(r.1@) == batch_of(Dialect::Sqlite, rows@).1,
{
    let mut cols: Vec<String> = Vec::new();
    let mut i: usize = 0;
    while i < rows.len()
        invariant
            i <= rows@.len(),
            texts(cols@) == head_names(rows@.take(i as int)).map_values(|n: Seq<char>| quoted(n)),
        decreases rows@.len() - i,
    {
        assert(rows@.take(i as int + 1).drop_last() =~= rows@.take(i as int));
        if cols.len() == 0 {
            cols = quoted_names(&rows[i]);
        }
        i = i + 1;
    }
    assert(rows@.take(rows@.len() as int) =~= rows@);
    let (groups, params) = Dialect::Sqlite.groups(rows);
    let mut out = text::owned("INSERT INTO ");
    let t = quote(table);
    text::push_str(&mut out, t.as_str());
    text::push_str(&mut out, " (");
    let c = join(&cols, ", ");
    text::push_str(&mut out, c.as_str());
    text::push_str(&mut out, ") VALUES ");
    let g = join(&groups, ", ");
    text::push_str(&mut out, g.as_str());
    (out, params)
}

/// The column names and the values of a model's pairs, for a store's insert of one row.
pub fn names_values(pairs: &Vec<(Name, Value)>) -> (r: (Vec<String>, Vec<Value>))
    ensures
        texts(r.0@) == pair_names(pairs@),
        cells(r.1@) == pair_cells(pairs@),
{
    let mut names: Vec<String> = Vec::new();
    let mut values: Vec<Value> = Vec::new();
    let mut i: usize = 0;
    while i < pairs.len()
        invariant
            i <= pairs@.len(),
            texts(names@) == pair_names(pairs@.take(i as int)),
            cells(values@) == pair_cells(pairs@.take(i as int)),
        decreases pairs@.len() - i,
    {
        let n = text::owned(pairs[i].0.0);
        let v = pairs[i].1.dup();
        let ghost nb = names@;
        let ghost vb = values@;
        names.push(n);
        values.push(v);
        assert(texts(names@) =~= texts(nb).push(n@));
        assert(cells(values@) =~= cells(vb).push(v@));
        assert(pair_names(pairs@.take(i as int + 1)) =~= pair_names(pairs@.take(i as int)).push(pairs@[i as int].0@));
        assert(pair_cells(pairs@.take(i as int + 1)) =~= pair_cells(pairs@.take(i as int)).push(pairs@[i as int].1@));
        i = i + 1;
    }
    assert(pairs@.take(pairs@.len() as int) =~= pairs@);
    (names, values)
}

/// The insert of one row into the named columns, with a `?` per column.
pub open spec fn one_insert_text(table: Seq<char>, names: Seq<Seq<char>>) -> Seq<char> {
    "INSERT INTO "@ + quoted(table) + " ("@ + joined(names.map_values(|n: Seq<char>| quoted(n)), ", "@)
        + ") VALUES ("@ + marks_from(Dialect::Sqlite, 0, names.len()) + ")"@
}

/// The insert a store runs for one row given by column names and values; the store then
/// answers with the table's last id.
pub fn insert_one(table: &str, names: &Vec<String>) -> (r: String)
    requires
        names@.len() + 1 < usize::MAX,
    ensures
        r@ == one_insert_text(table@, texts(names@)),
{
    let mut quoted_names: Vec<String> = Vec::new();
    let mut i: usize = 0;
    while i < names.len()
        invariant
            i <= names@.len(),
            texts(quoted_names@) == texts(names@).take(i as int).map_values(|n: Seq<char>| quoted(n)),
        decreases names@.len() - i,
    {
        let q = quote(names[i].as_str());
        let ghost before = quoted_names@;
        quoted_names.push(q);
        assert(texts(quoted_names@) =~= texts(before).push(q@));
        assert(texts(names@).take(i as int + 1).map_values(|n: Seq<char>| quoted(n))
            =~= texts(names@).take(i as int).map_values(|n: Seq<char>| quoted(n)).push(quoted(names@[i as int]@)));
        i = i + 1;
    }
    assert(texts(names@).take(names@.len() as int) =~= texts(names@));
    let mut out = text::owned("INSERT INTO ");
    let t = quote(table);
    text::push_str(&mut out, t.as_str());
    text::push_str(&mut out, " (");
    let cols = join(&quoted_names, ", ");
    text::push_str(&mut out, cols.as_str());
    text::push_str(&mut out, ") VALUES (");
    let ms = Dialect::Sqlite.marks(0, names.len());
    text::push_str(&mut out, ms.as_str());
    text::push_str(&mut out, ")");
    out
}

/// How a batch of models is saved: nothing for an empty batch, one insert for a table keyed by
/// text, else one insert per model.
pub fn saving(schema: &Schema, rows: &Vec<Vec<(Name, Value)>>) -> (r: Saving)
    requires
        batch_size(rows@) + 2 < usize::MAX,
    ensures
        rows@.len() == 0 ==> r is Nothing,
        rows@.len() > 0 && keyed(schema.fields@) ==> (r matches Saving::Batch(sql, params)
            && sql@ == many_text(schema.table@, rows@) && cells(params@) == batch_of(Dialect::Sqlite, rows@).1),
        rows@.len() > 0 && !keyed(schema.fields@) ==> (r matches Saving::Each(each)
            && each_views(each@) == rows@.map_values(|row: Vec<(Name, Value)>| (pair_names(row@), pair_cells(row@)))),
{
    if rows.len() == 0 {
        return Saving::Nothing;
    }
    if is_keyed(schema) {
        let (sql, params) = insert_many(schema.table.0, rows);
        return Saving::Batch(sql, params);
    }
    let ghost want = rows@.map_values(|row: Vec<(Name, Value)>| (pair_names(row@), pair_cells(row@)));
    let mut each: Vec<(Vec<String>, Vec<Value>)> = Vec::new();
    let mut i: usize = 0;
    while i < rows.len()
        invariant
            i <= rows@.len(),
            want == rows@.map_values(|row: Vec<(Name, Value)>| (pair_names(row@), pair_cells(row@))),
            each_views(each@) == want.take(i as int),
        decreases rows@.len() - i,
    {
        let p = names_values(&rows[i]);
        let ghost before = each@;
        each.push(p);
        assert(each_views(each@) =~= each_views(before).push((texts(p.0@), cells(p.1@))));
        assert(want.take(i as int + 1) =~= want.take(i as int).push(want[i as int]));
        i = i + 1;
    }
    assert(want.take(rows@.len() as int) =~= want);
    Saving::Each(each)
}

/// The read of one model by key.
pub fn select_one(schema: &Schema) -> (r: String)
    ensures
        r@ == one_text(schema.table@, key_name(schema.fields@)),
{
    let mut out = text::owned("SELECT * FROM ");
    let t = quote(schema.table.0);
    text::push_str(&mut out, t.as_str());
    text::push_str(&mut out, " WHERE ");
    let k = quote(schema.key().0);
    text::push_str(&mut out, k.as_str());
    text::push_str(&mut out, " = ?");
    out
}

/// The read of every model by key.
pub fn select_every(schema: &Schema) -> (r: String)
    ensures
        r@ == every_text(schema.table@, key_name(schema.fields@)),
{
    let mut out = text::owned("SELECT * FROM ");
    let t = quote(schema.table.0);
    text::push_str(&mut out, t.as_str());
    text::push_str(&mut out, " ORDER BY ");
    let k = quote(schema.key().0);
    text::push_str(&mut out, k.as_str());
    out
}

/// The read of the models whose field equals the parameter, by key.
pub fn select_matching(schema: &Schema, field: Name) -> (r: String)
    ensures
        r@ == matching_text(schema.table@, field@, key_name(schema.fields@)),
{
    let mut out = text::owned("SELECT * FROM ");
    let t = quote(schema.table.0);
    text::push_str(&mut out, t.as_str());
    text::push_str(&mut out, " WHERE ");
    let f = quote(field.0);
    text::push_str(&mut out, f.as_str());
    text::push_str(&mut out, " = ? ORDER BY ");
    let k = quote(schema.key().0);
    text::push_str(&mut out, k.as_str());
    out
}

/// The sort as scan text: the field's name, after `-` when descending.
pub fn sort_arg_text(sort: &Sort) -> (r: String)
    ensures
        r@ == sort_arg(*sort),
{
    match sort.order {
        Order::Desc => {
            let mut out = text::owned("-");
            text::push_str(&mut out, sort.field.0);
            out
        },
        Order::Asc => text::owned(sort.field.0),
    }
}

/// A sort handed to a scan as text orders the scan by that very sort: its field, descending
/// when the sort is, for any field of the schema whose name does not start with `-`.
pub proof fn sort_round_trip(fields: Seq<Field>, s: Sort)
    requires
        field_index(fields, s.field@) is Some,
        s.field@.len() == 0 || s.field@[0] != '-',
    ensures
        order_of(fields, sort_arg(s)) == sort_text(s),
{
    reveal_strlit("-");
    if s.order == Order::Desc {
        assert(("-"@ + s.field@).drop_first() =~= s.field@);
    }
}

/// The scan of the rows meeting a condition, in a sort text's order, within an optional page
/// of `(count, offset)`.
pub fn scan_text(schema: &Schema, cond: &str, sort: &str, limit: Option<(usize, usize)>) -> (r: String)
    ensures
        r@ == scan_of(*schema, cond@, sort@, limit),
{
    let mut out = text::owned("SELECT * FROM ");
    let t = quote(schema.table.0);
    text::push_str(&mut out, t.as_str());
    let cs = text::chars(cond);
    if cs.len() > 0 {
        text::push_str(&mut out, " WHERE ");
        text::push_str(&mut out, cond);
    } else {
        assert(cond@.len() == 0);
    }
    text::push_str(&mut out, " ORDER BY ");
    let o = order_by(schema, sort);
    text::push_str(&mut out, o.as_str());
    match limit {
        Some((count, offset)) => {
            text::push_str(&mut out, " LIMIT ");
            let c = text::size_text(count);
            text::push_str(&mut out, c.as_str());
            text::push_str(&mut out, " OFFSET ");
            let f = text::size_text(offset);
            text::push_str(&mut out, f.as_str());
        },
        None => {},
    }
    out
}

/// The count of the rows meeting a condition.
pub fn count_sql(schema: &Schema, cond: &str) -> (r: String)
    ensures
        r@ == count_text(schema.table@, cond@),
{
    let mut out = text::owned("SELECT COUNT(*) FROM ");
    let t = quote(schema.table.0);
    text::push_str(&mut out, t.as_str());
    let cs = text::chars(cond);
    if cs.len() > 0 {
        text::push_str(&mut out, " WHERE ");
        text::push_str(&mut out, cond);
    }
    out
}

/// The count a counting read answered, 0 when the answer holds no integer.
pub fn counted(rows: &Vec<Row>) -> (r: usize)
    ensures
        r == counted_of(rows@),
{
    if rows.len() == 0 {
        return 0;
    }
    match rows[0].integer(0) {
        Ok(v) => v as usize,
        Err(_) => 0,
    }
}

/// The update of a model's row: every pair's column set from its value, the key last.
pub fn update_sql(schema: &Schema, pairs: &Vec<(Name, Value)>, id: &Value) -> (r: (String, Vec<Value>))
    requires
        pairs@.len() + 1 < usize::MAX,
    ensures
        r.0@ == update_text(schema.table@, pair_names(pairs@), key_name(schema.fields@)),
        cells(r.1@) == pair_cells(pairs@).push(id@),
{
    let ghost names = pair_names(pairs@);
    proof {
        reveal_strlit(" = ");
        reveal_strlit("?");
        reveal_strlit(" = ?");
        assert(" = "@ + mark_of(Dialect::Sqlite, 0) =~= " = ?"@);
    }
    let mut sets: Vec<String> = Vec::new();
    let mut params: Vec<Value> = Vec::new();
    let mut i: usize = 0;
    while i < pairs.len()
        invariant
            i <= pairs@.len(),
            names == pair_names(pairs@),
            texts(sets@) == set_list(Dialect::Sqlite, names.take(i as int)),
            cells(params@) == pair_cells(pairs@.take(i as int)),
        decreases pairs@.len() - i,
    {
        let mut s = quote(pairs[i].0.0);
        text::push_str(&mut s, " = ?");
        let v = pairs[i].1.dup();
        let ghost sb = sets@;
        let ghost pb = params@;
        sets.push(s);
        params.push(v);
        assert(texts(sets@) =~= texts(sb).push(s@));
        proof {
            reveal_strlit(" = ");
            reveal_strlit("?");
            reveal_strlit(" = ?");
            assert(" = "@ + mark_of(Dialect::Sqlite, i as nat) =~= " = ?"@);
            assert(quoted(names[i as int]) + " = "@ + mark_of(Dialect::Sqlite, i as nat)
                =~= quoted(names[i as int]) + " = ?"@);
        }
        assert(set_list(Dialect::Sqlite, names.take(i as int + 1))
            =~= set_list(Dialect::Sqlite, names.take(i as int)).push(quoted(names[i as int]) + " = ?"@));
        assert(cells(params@) =~= cells(pb).push(v@));
        assert(pair_cells(pairs@.take(i as int + 1)) =~= pair_cells(pairs@.take(i as int)).push(pairs@[i as int].1@));
        i = i + 1;
    }
    assert(names.take(pairs@.len() as int) =~= names);
    assert(pairs@.take(pairs@.len() as int) =~= pairs@);
    let ghost pb = params@;
    params.push(id.dup());
    assert(cells(params@) =~= cells(pb).push(id@));
    let mut out = text::owned("UPDATE ");
    let t = quote(schema.table.0);
    text::push_str(&mut out, t.as_str());
    text::push_str(&mut out, " SET ");
    let s = join(&sets, ", ");
    text::push_str(&mut out, s.as_str());
    text::push_str(&mut out, " WHERE ");
    let k = quote(schema.key().0);
    text::push_str(&mut out, k.as_str());
    text::push_str(&mut out, " = ?");
    (out, params)
}

/// The delete of the row with the key.
pub fn delete_sql(schema: &Schema) -> (r: String)
    ensures
        r@ == delete_text(schema.table@, key_name(schema.fields@)),
{
    let mut out = text::owned("DELETE FROM ");
    let t = quote(schema.table.0);
    text::push_str(&mut out, t.as_str());
    text::push_str(&mut out, " WHERE ");
    let k = quote(schema.key().0);
    text::push_str(&mut out, k.as_str());
    text::push_str(&mut out, " = ?");
    out
}

} // verus!
