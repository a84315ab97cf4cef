//! The statements a store runs: reads, counts, aggregates, writes and migrations.

use vstd::prelude::*;

use crate::dialect::{
    alter_of, cells, dates_ok, drop_of, join, joined, mark_of, moved_of, quote, quoted, render,
    rename_line, texts, Dialect, Path,
};
use crate::spec::{
    affinity, affinity_of, field_index, flat_of, is_many, key_name, kinds_of, Mass, Name, Only, Order, Query,
    Schema, Sort, Type,
};
use crate::text::{self, digits};
use crate::value::{Cell, Column, ColumnKind, Key, StoreError, Value};

verus! {

/// `"name"` for an ascending sort, `"name" DESC` for a descending one.
pub open spec fn sort_text(s: Sort) -> Seq<char> {
    quoted(s.field@) + if s.order == Order::Desc { " DESC"@ } else { Seq::empty() }
}

/// The `ORDER BY` list: the sorts in order, or the key column when there are none.
pub open spec fn order_text(fields: Seq<crate::spec::Field>, sorts: Seq<Sort>) -> Seq<char> {
    if sorts.len() == 0 {
        quoted(key_name(fields))
    } else {
        joined(sorts.map_values(|s: Sort| sort_text(s)), ", "@)
    }
}

/// ` WHERE cond`, or nothing for an empty condition.
pub open spec fn where_text(cond: Seq<char>) -> Seq<char> {
    if cond.len() == 0 { Seq::empty() } else { " WHERE "@ + cond }
}

/// The affinity of the named stored column, or the message of the error for a name that is none.
pub open spec fn kind_for(fields: Seq<crate::spec::Field>, name: Seq<char>) -> Result<ColumnKind, Seq<char>> {
    match field_index(fields, name) {
        Some(i) => if is_many(fields[i].kind) { Err("unknown field "@ + name) } else { Ok(affinity_of(fields[i].kind)) },
        None => Err("unknown field "@ + name),
    }
}

/// The affinities of the named columns, or the message of the first error.
pub open spec fn kinds_for(fields: Seq<crate::spec::Field>, names: Seq<Name>) -> Result<Seq<ColumnKind>, Seq<char>>
    decreases names.len(),
{
    if names.len() == 0 {
        Ok(Seq::empty())
    } else {
        match kinds_for(fields, names.drop_last()) {
            Err(m) => Err(m),
            Ok(ks) => match kind_for(fields, names.last()@) {
                Ok(k) => Ok(ks.push(k)),
                Err(m) => Err(m),
            },
        }
    }
}

/// The quoted names joined with `, `.
pub open spec fn name_list(names: Seq<Name>) -> Seq<char> {
    joined(names.map_values(|n: Name| quoted(n@)), ", "@)
}

/// The `SELECT` head and the affinities of the selected columns.
pub open spec fn head_of(fields: Seq<crate::spec::Field>, only: Only) -> Result<(Seq<char>, Seq<ColumnKind>), Seq<char>> {
    match only {
        Only::These(names) => if names@.len() == 0 {
            Ok(("SELECT *"@, kinds_of(fields)))
        } else {
            match kinds_for(fields, names@) {
                Ok(ks) => Ok(("SELECT "@ + name_list(names@), ks)),
                Err(m) => Err(m),
            }
        },
        _ => Ok(("SELECT *"@, kinds_of(fields))),
    }
}

/// ` LIMIT 1` for a lone row, ` LIMIT n OFFSET m` for a bounded page, else nothing.
pub open spec fn limit_text(only: Only, count: usize, offset: usize) -> Seq<char> {
    match only {
        Only::Lone => " LIMIT 1"@,
        _ => if count > 0 { " LIMIT "@ + digits(count as nat) + " OFFSET "@ + digits(offset as nat) } else { Seq::empty() },
    }
}

/// The parameters of a query's condition stay within what a vector can hold.
pub open spec fn bindable(d: Dialect, paths: Seq<Path>, q: Query) -> bool {
    render(d, paths, q.tree, 0).1.len() + 2 < usize::MAX && dates_ok(q.tree)
}

/// The aggregate column text and the affinity of its result.
pub open spec fn mass_of(d: Dialect, fields: Seq<crate::spec::Field>, m: Mass) -> Result<(Seq<char>, ColumnKind), Seq<char>> {
    match m {
        Mass::Count => Ok(("COUNT(*)"@, ColumnKind::Integer)),
        Mass::Sum(n) => match kind_for(fields, n@) {
            Ok(k) => Ok((sum_of(d, k, n@), k)),
            Err(e) => Err(e),
        },
        Mass::Mean(n) => match kind_for(fields, n@) {
            Ok(k) => Ok((mean_of(d, n@), ColumnKind::Real)),
            Err(e) => Err(e),
        },
        Mass::Low(n) => match kind_for(fields, n@) {
            Ok(k) => Ok(("MIN("@ + quoted(n@) + ")"@, k)),
            Err(e) => Err(e),
        },
        Mass::High(n) => match kind_for(fields, n@) {
            Ok(k) => Ok(("MAX("@ + quoted(n@) + ")"@, k)),
            Err(e) => Err(e),
        },
    }
}

/// `SUM` of a column; PostgreSQL casts an integer sum back to `BIGINT`.
pub open spec fn sum_of(d: Dialect, k: ColumnKind, column: Seq<char>) -> Seq<char> {
    match (d, k) {
        (Dialect::Postgres, ColumnKind::Integer) => "CAST(SUM("@ + quoted(column) + ") AS BIGINT)"@,
        _ => "SUM("@ + quoted(column) + ")"@,
    }
}

/// `AVG` of a column; PostgreSQL casts it to `DOUBLE PRECISION`.
pub open spec fn mean_of(d: Dialect, column: Seq<char>) -> Seq<char> {
    match d {
        Dialect::Sqlite => "AVG("@ + quoted(column) + ")"@,
        Dialect::Postgres => "CAST(AVG("@ + quoted(column) + ") AS DOUBLE PRECISION)"@,
    }
}

/// `col = mark` for each written cell, counting marks from 0.
pub open spec fn set_list(d: Dialect, names: Seq<Seq<char>>) -> Seq<Seq<char>> {
    Seq::new(names.len(), |i: int| quoted(names[i]) + " = "@ + mark_of(d, i as nat))
}

/// The names of name/value pairs.
pub open spec fn pair_names(cells: Seq<(Name, Value)>) -> Seq<Seq<char>> {
    cells.map_values(|p: (Name, Value)| p.0@)
}

/// The values of name/value pairs.
pub open spec fn pair_cells(cells: Seq<(Name, Value)>) -> Seq<Cell> {
    cells.map_values(|p: (Name, Value)| p.1@)
}

/// The marks `base .. base + n`, joined with `, `.
pub open spec fn marks_from(d: Dialect, base: nat, n: nat) -> Seq<char> {
    joined(Seq::new(n, |i: int| mark_of(d, (base + i) as nat)), ", "@)
}

fn kind_error(name: &str) -> (r: StoreError)
    ensures
        r matches StoreError::Value(m) && m@ == "unknown field "@ + name@,
{
    let mut m = text::owned("unknown field ");
    text::push_str(&mut m, name);
    StoreError::Value(m)
}

impl Schema {
    /// The affinity of a stored column.
    pub fn kind(&self, name: &str) -> (r: Result<ColumnKind, StoreError>)
        ensures
            match kind_for(self.fields@, name@) {
                Ok(k) => r == Ok::<ColumnKind, StoreError>(k),
                Err(m) => r matches Err(StoreError::Value(x)) && x@ == m,
            },
    {
        match self.locate(name) {
            Some(i) => {
                proof {
                    let k = field_index(self.fields@, name@).unwrap();
                    assert(k == i as int) by {
                        if k < i {
                        } else if k > i {
                            assert(self.fields@[i as int].name@ == name@);
                        }
                    }
                }
                if crate::spec::many(&self.fields[i].kind) {
                    Err(kind_error(name))
                } else {
                    Ok(affinity(&self.fields[i].kind))
                }
            },
            None => Err(kind_error(name)),
        }
    }

    /// The `ORDER BY` list for the sorts; the key column when there are none.
    pub fn order(&self, sorts: &Vec<Sort>) -> (r: String)
        ensures
            r@ == order_text(self.fields@, sorts@),
    {
        if sorts.len() == 0 {
            let k = self.key();
            return quote(k.0);
        }
        let mut parts: Vec<String> = Vec::new();
        let mut i: usize = 0;
        while i < sorts.len()
            invariant
                i <= sorts@.len(),
                texts(parts@) == sorts@.take(i as int).map_values(|s: Sort| sort_text(s)),
            decreases sorts@.len() - i,
        {
            let s = sorts[i];
            let mut t = quote(s.field.0);
            match s.order {
                Order::Desc => text::push_str(&mut t, " DESC"),
                Order::Asc => {
                    proof { reveal_strlit(""); }
                    assert(t@ =~= sort_text(s));
                },
            }
            let ghost before = parts@;
            parts.push(t);
            assert(texts(parts@) =~= texts(before).push(t@));
            assert(sorts@.take(i as int + 1).map_values(|s: Sort| sort_text(s))
                =~= sorts@.take(i as int).map_values(|s: Sort| sort_text(s)).push(sort_text(s)));
            i = i + 1;
        }
        assert(sorts@.take(sorts@.len() as int) =~= sorts@);
        join(&parts, ", ")
    }

    fn kinds_of_names(&self, names: &Vec<Name>) -> (r: Result<Vec<ColumnKind>, StoreError>)
        ensures
            match kinds_for(self.fields@, names@) {
                Ok(ks) => r matches Ok(v) && v@ == ks,
                Err(m) => r matches Err(StoreError::Value(x)) && x@ == m,
            },
    {
        let mut out: Vec<ColumnKind> = Vec::new();
        let mut i: usize = 0;
        while i < names.len()
            invariant
                i <= names@.len(),
                kinds_for(self.fields@, names@.take(i as int)) == Ok::<Seq<ColumnKind>, Seq<char>>(out@),
            decreases names@.len() - i,
        {
            assert(names@.take(i as int + 1).drop_last() =~= names@.take(i as int));
            match self.kind(names[i].0) {
                Ok(k) => out.push(k),
                Err(e) => {
                    proof { lemma_kinds_fail(self.fields@, names@, i as int + 1); }
                    return Err(e);
                },
            }
            i = i + 1;
        }
        assert(names@.take(names@.len() as int) =~= names@);
        Ok(out)
    }
}

proof fn lemma_kinds_fail(fields: Seq<crate::spec::Field>, names: Seq<Name>, k: int)
    requires
        0 <= k <= names.len(),
        kinds_for(fields, names.take(k)) is Err,
    ensures
        kinds_for(fields, names) == kinds_for(fields, names.take(k)),
    decreases names.len() - k,
{
    if k < names.len() {
        assert(names.take(k + 1).drop_last() =~= names.take(k));
        lemma_kinds_fail(fields, names, k + 1);
    } else {
        assert(names.take(k) =~= names);
    }
}

/// Quotes each name and joins them with `, `.
pub fn name_join(names: &Vec<Name>) -> (r: String)
    ensures
        r@ == name_list(names@),
{
    let mut parts: Vec<String> = Vec::new();
    let mut i: usize = 0;
    while i < names.len()
        invariant
            i <= names@.len(),
            texts(parts@) == names@.take(i as int).map_values(|n: Name| quoted(n@)),
        decreases names@.len() - i,
    {
        let t = quote(names[i].0);
        let ghost before = parts@;
        parts.push(t);
        assert(texts(parts@) =~= texts(before).push(t@));
        assert(names@.take(i as int + 1).map_values(|n: Name| quoted(n@))
            =~= names@.take(i as int).map_values(|n: Name| quoted(n@)).push(quoted(names@[i as int]@)));
        i = i + 1;
    }
    assert(names@.take(names@.len() as int) =~= names@);
    join(&parts, ", ")
}

fn unsupported_mass() -> (r: StoreError)
    ensures
        r matches StoreError::Unsupported(m) && m@ == "mass needs mass()"@,
{
    StoreError::Unsupported(text::owned("mass needs mass()"))
}

fn push_where(sql: &mut String, cond: &String)
    ensures
        final(sql)@ == old(sql)@ + where_text(cond@),
{
    if cond.as_str().is_empty() {
        proof { reveal_strlit(""); }
        assert(final(sql)@ =~= old(sql)@ + where_text(cond@)) by {
            assert(cond@.len() == 0);
        }
    } else {
        text::push_str(sql, " WHERE ");
        text::push_str(sql, cond.as_str());
    }
}

impl Dialect {
    /// The `SELECT` a query runs, its parameters, and the affinities of the returned columns.
    pub fn select(&self, paths: &Vec<Path>, schema: &Schema, query: &Query) -> (r: Result<(String, Vec<Value>, Vec<ColumnKind>), StoreError>)
        requires
            bindable(*self, paths@, *query),
        ensures
            query.mass is Some ==> (r matches Err(StoreError::Unsupported(m)) && m@ == "mass needs mass()"@),
            query.mass is None ==> match head_of(schema.fields@, query.only) {
                Err(msg) => r matches Err(StoreError::Value(m)) && m@ == msg,
                Ok((head, ks)) => r matches Ok((sql, ps, kinds)) && kinds@ == ks
                    && sql@ == head + " FROM "@ + quoted(schema.table@)
                        + where_text(render(*self, paths@, query.tree, 0).0)
                        + " ORDER BY "@ + order_text(schema.fields@, query.sort@)
                        + limit_text(query.only, query.page.count, query.page.offset)
                    && cells(ps@) == render(*self, paths@, query.tree, 0).1,
            },
    {
        if query.mass.is_some() {
            return Err(unsupported_mass());
        }
        let (mut sql, kinds) = match &query.only {
            Only::These(names) => if names.len() == 0 {
                (text::owned("SELECT *"), schema.kinds())
            } else {
                match schema.kinds_of_names(names) {
                    Ok(ks) => {
                        let mut h = text::owned("SELECT ");
                        let l = name_join(names);
                        text::push_str(&mut h, l.as_str());
                        (h, ks)
                    },
                    Err(e) => return Err(e),
                }
            },
            _ => (text::owned("SELECT *"), schema.kinds()),
        };
        text::push_str(&mut sql, " FROM ");
        let t = quote(schema.table.0);
        text::push_str(&mut sql, t.as_str());
        let mut params: Vec<Value> = Vec::new();
        assert(cells(params@) =~= Seq::<Cell>::empty());
        let cond = self.tree(paths, &query.tree, &mut params);
        assert(cells(params@) =~= render(*self, paths@, query.tree, 0).1);
        push_where(&mut sql, &cond);
        text::push_str(&mut sql, " ORDER BY ");
        let o = schema.order(&query.sort);
        text::push_str(&mut sql, o.as_str());
        match &query.only {
            Only::Lone => text::push_str(&mut sql, " LIMIT 1"),
            _ => {
                if query.page.count > 0 {
                    text::push_str(&mut sql, " LIMIT ");
                    let c = text::size_text(query.page.count);
                    text::push_str(&mut sql, c.as_str());
                    text::push_str(&mut sql, " OFFSET ");
                    let f = text::size_text(query.page.offset);
                    text::push_str(&mut sql, f.as_str());
                } else {
                    proof { reveal_strlit(""); }
                }
            },
        }
        Ok((sql, params, kinds))
    }

    /// The `SELECT COUNT(*)` a query runs and its parameters.
    pub fn count(&self, paths: &Vec<Path>, schema: &Schema, query: &Query) -> (r: Result<(String, Vec<Value>), StoreError>)
        requires
            bindable(*self, paths@, *query),
        ensures
            query.mass is Some ==> (r matches Err(StoreError::Unsupported(m)) && m@ == "mass needs mass()"@),
            query.mass is None ==> (r matches Ok((sql, ps))
                && sql@ == "SELECT COUNT(*) FROM "@ + quoted(schema.table@) + where_text(render(*self, paths@, query.tree, 0).0)
                && cells(ps@) == render(*self, paths@, query.tree, 0).1),
    {
        if query.mass.is_some() {
            return Err(unsupported_mass());
        }
        let mut params: Vec<Value> = Vec::new();
        assert(cells(params@) =~= Seq::<Cell>::empty());
        let cond = self.tree(paths, &query.tree, &mut params);
        assert(cells(params@) =~= render(*self, paths@, query.tree, 0).1);
        let mut sql = text::owned("SELECT COUNT(*) FROM ");
        let t = quote(schema.table.0);
        text::push_str(&mut sql, t.as_str());
        push_where(&mut sql, &cond);
        Ok((sql, params))
    }

    /// `SUM` of a column in this dialect.
    pub fn sum(&self, kind: ColumnKind, column: &str) -> (r: String)
        ensures
            r@ == sum_of(*self, kind, column@),
    {
        let q = quote(column);
        let mut out = match (self, kind) {
            (Dialect::Postgres, ColumnKind::Integer) => text::owned("CAST(SUM("),
            _ => text::owned("SUM("),
        };
        text::push_str(&mut out, q.as_str());
        match (self, kind) {
            (Dialect::Postgres, ColumnKind::Integer) => text::push_str(&mut out, ") AS BIGINT)"),
            _ => text::push_str(&mut out, ")"),
        }
        out
    }

    /// `AVG` of a column in this dialect.
    pub fn mean(&self, column: &str) -> (r: String)
        ensures
            r@ == mean_of(*self, column@),
    {
        let q = quote(column);
        let mut out = match self {
            Dialect::Sqlite => text::owned("AVG("),
            Dialect::Postgres => text::owned("CAST(AVG("),
        };
        text::push_str(&mut out, q.as_str());
        match self {
            Dialect::Sqlite => text::push_str(&mut out, ")"),
            Dialect::Postgres => text::push_str(&mut out, ") AS DOUBLE PRECISION)"),
        }
        out
    }

    fn wrapped(head: &str, column: &str) -> (r: String)
        ensures
            r@ == head@ + quoted(column@) + ")"@,
    {
        let mut out = text::owned(head);
        let q = quote(column);
        text::push_str(&mut out, q.as_str());
        text::push_str(&mut out, ")");
        out
    }

    /// The aggregate `SELECT` a query runs, its parameters, and the affinity of its one column.
    pub fn aggregate(&self, paths: &Vec<Path>, schema: &Schema, query: &Query) -> (r: Result<(String, Vec<Value>, ColumnKind), StoreError>)
        requires
            bindable(*self, paths@, *query),
        ensures
            match query.mass {
                None => r matches Err(StoreError::Unsupported(m)) && m@ == "mass needs mass()"@,
                Some(m) => match mass_of(*self, schema.fields@, m) {
                    Err(msg) => r matches Err(StoreError::Value(x)) && x@ == msg,
                    Ok((hint, k)) => r matches Ok((sql, ps, kind)) && kind == k
                        && sql@ == "SELECT "@ + hint + " FROM "@ + quoted(schema.table@)
                            + where_text(render(*self, paths@, query.tree, 0).0)
                        && cells(ps@) == render(*self, paths@, query.tree, 0).1,
                },
            },
    {
        let (hint, kind) = match query.mass {
            Some(Mass::Count) => (text::owned("COUNT(*)"), ColumnKind::Integer),
            Some(Mass::Sum(n)) => match schema.kind(n.0) {
                Ok(k) => (self.sum(k, n.0), k),
                Err(e) => return Err(e),
            },
            Some(Mass::Mean(n)) => match schema.kind(n.0) {
                Ok(_) => (self.mean(n.0), ColumnKind::Real),
                Err(e) => return Err(e),
            },
            Some(Mass::Low(n)) => match schema.kind(n.0) {
                Ok(k) => (Dialect::wrapped("MIN(", n.0), k),
                Err(e) => return Err(e),
            },
            Some(Mass::High(n)) => match schema.kind(n.0) {
                Ok(k) => (Dialect::wrapped("MAX(", n.0), k),
                Err(e) => return Err(e),
            },
            None => return Err(unsupported_mass()),
        };
        let mut params: Vec<Value> = Vec::new();
        assert(cells(params@) =~= Seq::<Cell>::empty());
        let cond = self.tree(paths, &query.tree, &mut params);
        assert(cells(params@) =~= render(*self, paths@, query.tree, 0).1);
        let mut sql = text::owned("SELECT ");
        text::push_str(&mut sql, hint.as_str());
        text::push_str(&mut sql, " FROM ");
        let t = quote(schema.table.0);
        text::push_str(&mut sql, t.as_str());
        push_where(&mut sql, &cond);
        Ok((sql, params, kind))
    }
}

} // verus!

verus! {

/// The schema's key column is a caller-supplied text key.
pub open spec fn keyed(fields: Seq<crate::spec::Field>) -> bool {
    exists|i: int| 0 <= i < fields.len() && #[trigger] flat_of(fields[i].kind) is Key
}

/// The value groups `(marks)` of a batch, one per row, and the parameters they bind in order.
pub open spec fn batch_of(d: Dialect, rows: Seq<Vec<(Name, Value)>>) -> (Seq<Seq<char>>, Seq<Cell>)
    decreases rows.len(),
{
    if rows.len() == 0 {
        (Seq::empty(), Seq::empty())
    } else {
        let (gs, ps) = batch_of(d, rows.drop_last());
        (
            gs.push("("@ + marks_from(d, ps.len(), rows.last()@.len()) + ")"@),
            ps + pair_cells(rows.last()@),
        )
    }
}

/// `"n" = excluded."n"` for each column of the first row but the key.
pub open spec fn updates_of(head: Seq<(Name, Value)>, key: Seq<char>) -> Seq<Seq<char>>
    decreases head.len(),
{
    if head.len() == 0 {
        Seq::empty()
    } else {
        let rest = updates_of(head.drop_last(), key);
        let n = head.last().0@;
        if n == key { rest } else { rest.push(quoted(n) + " = excluded."@ + quoted(n)) }
    }
}

/// A batch insert that keeps existing rows' keys: updates the other columns on a key conflict,
/// or does nothing when there are none.
pub open spec fn upsert_text(table: Seq<char>, key: Seq<char>, head: Seq<(Name, Value)>, groups: Seq<Seq<char>>) -> Seq<char> {
    let sets = updates_of(head, key);
    let start = "INSERT INTO "@ + quoted(table) + " ("@ + joined(pair_names(head).map_values(|n: Seq<char>| quoted(n)), ", "@)
        + ") VALUES "@ + joined(groups, ", "@) + " ON CONFLICT("@ + quoted(key) + ")"@;
    if sets.len() == 0 {
        start + " DO NOTHING"@
    } else {
        start + " DO UPDATE SET "@ + joined(sets, ", "@)
    }
}

/// The value of the first pair with the given name.
pub open spec fn first_value(row: Seq<(Name, Value)>, name: Seq<char>) -> Option<Value>
    decreases row.len(),
{
    if row.len() == 0 {
        None
    } else {
        match first_value(row.drop_last(), name) {
            Some(v) => Some(v),
            None => if row.last().0@ == name { Some(row.last().1) } else { None },
        }
    }
}

/// The key of each row of a batch, or the message of the first row whose key is missing or bad.
pub open spec fn keys_of(rows: Seq<Vec<(Name, Value)>>, key: Seq<char>) -> Result<Seq<Cell>, Seq<char>>
    decreases rows.len(),
{
    if rows.len() == 0 {
        Ok(Seq::empty())
    } else {
        match keys_of(rows.drop_last(), key) {
            Err(m) => Err(m),
            Ok(ks) => match first_value(rows.last()@, key) {
                None => Err("missing key"@),
                Some(v) => if v is Int || v is Str { Ok(ks.push(v@)) } else { Err("bad key"@) },
            },
        }
    }
}

/// An insert of one row returning its new id.
pub open spec fn insert_text(d: Dialect, table: Seq<char>, names: Seq<Seq<char>>) -> Seq<char> {
    "INSERT INTO "@ + quoted(table) + " ("@ + joined(names.map_values(|n: Seq<char>| quoted(n)), ", "@)
        + ") VALUES ("@ + marks_from(d, 0, names.len()) + ") RETURNING \"id\""@
}

/// The writes a batch needs.
pub enum Plan {
    /// Nothing to write.
    Nothing,
    /// One statement for the whole batch, its parameters, and the keys of the rows.
    Batch {
        /// The statement.
        sql: String,
        /// Its parameters.
        params: Vec<Value>,
        /// The key of each row, or the error for the first row without a usable one.
        keys: Result<Vec<Key>, StoreError>,
    },
    /// One insert per row, each returning the row's new id.
    Rows(Vec<(String, Vec<Value>)>),
}

/// The cells of each key.
pub open spec fn key_cells(v: Seq<Key>) -> Seq<Cell> {
    v.map_values(|k: Key| k.cell())
}

/// A row's statement and parameters as text and cells.
pub open spec fn statement_views(v: Seq<(String, Vec<Value>)>) -> Seq<(Seq<char>, Seq<Cell>)> {
    v.map_values(|p: (String, Vec<Value>)| (p.0@, cells(p.1@)))
}

/// The total number of values in a batch.
pub open spec fn batch_size(rows: Seq<Vec<(Name, Value)>>) -> int
    decreases rows.len(),
{
    if rows.len() == 0 { 0 } else { batch_size(rows.drop_last()) + rows.last()@.len() }
}

impl Dialect {
    /// The placeholders `base .. base + n`, joined with `, `.
    pub fn marks(&self, base: usize, n: usize) -> (r: String)
        requires
            base + n < usize::MAX,
        ensures
            r@ == marks_from(*self, base as nat, n as nat),
    {
        let mut parts: Vec<String> = Vec::new();
        let mut i: usize = 0;
        while i < n
            invariant
                i <= n,
                base + n < usize::MAX,
                texts(parts@) == Seq::new(i as nat, |j: int| mark_of(*self, (base + j) as nat)),
            decreases n - i,
        {
            let m = self.mark(base + i);
            let ghost before = parts@;
            parts.push(m);
            assert(texts(parts@) =~= texts(before).push(m@));
            assert(texts(parts@) =~= Seq::new((i + 1) as nat, |j: int| mark_of(*self, (base + j) as nat)));
            i = i + 1;
        }
        join(&parts, ", ")
    }

    pub(crate) fn groups(&self, rows: &Vec<Vec<(Name, Value)>>) -> (r: (Vec<String>, Vec<Value>))
        requires
            batch_size(rows@) + 2 < usize::MAX,
        ensures
            texts(r.0@) == batch_of(*self, rows@).0,
            cells(r.1@) == batch_of(*self, rows@).1,
    {
        let mut groups: Vec<String> = Vec::new();
        let mut params: Vec<Value> = Vec::new();
        let mut i: usize = 0;
        while i < rows.len()
            invariant
                i <= rows@.len(),
                batch_size(rows@) + 2 < usize::MAX,
                texts(groups@) == batch_of(*self, rows@.take(i as int)).0,
                cells(params@) == batch_of(*self, rows@.take(i as int)).1,
                params@.len() == batch_size(rows@.take(i as int)),
            decreases rows@.len() - i,
        {
            assert(rows@.take(i as int + 1).drop_last() =~= rows@.take(i as int));
            proof { lemma_batch_size(rows@, i as int + 1); }
            let row = &rows[i];
            let mut g = text::owned("(");
            let ms = self.marks(params.len(), row.len());
            text::push_str(&mut g, ms.as_str());
            text::push_str(&mut g, ")");
            let ghost before = groups@;
            groups.push(g);
            assert(texts(groups@) =~= texts(before).push(g@));
            let ghost pbefore = params@;
            let mut j: usize = 0;
            while j < row.len()
                invariant
                    j <= row@.len(),
                    params@.len() == pbefore.len() + j,
                    cells(params@) == cells(pbefore) + pair_cells(row@.take(j as int)),
                decreases row@.len() - j,
            {
                let ghost mid = params@;
                params.push(row[j].1.dup());
                assert(cells(params@) =~= cells(mid).push(row@[j as int].1@));
                assert(pair_cells(row@.take(j as int + 1)) =~= pair_cells(row@.take(j as int)).push(row@[j as int].1@));
                assert(cells(params@) =~= cells(pbefore) + pair_cells(row@.take(j as int + 1)));
                j = j + 1;
            }
            assert(row@.take(row@.len() as int) =~= row@);
            i = i + 1;
        }
        assert(rows@.take(rows@.len() as int) =~= rows@);
        (groups, params)
    }

    /// The batch insert that updates or keeps rows whose key exists; `head` names the columns.
    pub fn upsert_sql(&self, schema: &Schema, head: &Vec<(Name, Value)>, groups: &Vec<String>) -> (r: String)
        ensures
            r@ == upsert_text(schema.table@, key_name(schema.fields@), head@, texts(groups@)),
    {
        let key = schema.key();
        let mut sets: Vec<String> = Vec::new();
        let mut names: Vec<String> = Vec::new();
        let mut i: usize = 0;
        while i < head.len()
            invariant
                i <= head@.len(),
                key@ == key_name(schema.fields@),
                texts(sets@) == updates_of(head@.take(i as int), key@),
                texts(names@) == pair_names(head@.take(i as int)).map_values(|n: Seq<char>| quoted(n)),
            decreases head@.len() - i,
        {
            assert(head@.take(i as int + 1).drop_last() =~= head@.take(i as int));
            let n = head[i].0;
            let q = quote(n.0);
            let ghost nb = names@;
            names.push(quote(n.0));
            assert(texts(names@) =~= texts(nb).push(quoted(n@)));
            assert(pair_names(head@.take(i as int + 1)).map_values(|n: Seq<char>| quoted(n))
                =~= pair_names(head@.take(i as int)).map_values(|n: Seq<char>| quoted(n)).push(quoted(n@)));
            if !text::same(n.0, key.0) {
                let mut s = quote(n.0);
                text::push_str(&mut s, " = excluded.");
                text::push_str(&mut s, q.as_str());
                let ghost sb = sets@;
                sets.push(s);
                assert(texts(sets@) =~= texts(sb).push(s@));
            }
            i = i + 1;
        }
        assert(head@.take(head@.len() as int) =~= head@);
        let mut out = text::owned("INSERT INTO ");
        let t = quote(schema.table.0);
        text::push_str(&mut out, t.as_str());
        text::push_str(&mut out, " (");
        let cols = join(&names, ", ");
        text::push_str(&mut out, cols.as_str());
        text::push_str(&mut out, ") VALUES ");
        let gs = join(groups, ", ");
        text::push_str(&mut out, gs.as_str());
        text::push_str(&mut out, " ON CONFLICT(");
        let k = quote(key.0);
        text::push_str(&mut out, k.as_str());
        text::push_str(&mut out, ")");
        if sets.len() == 0 {
            text::push_str(&mut out, " DO NOTHING");
        } else {
            text::push_str(&mut out, " DO UPDATE SET ");
            let ss = join(&sets, ", ");
            text::push_str(&mut out, ss.as_str());
        }
        out
    }

    /// The insert of one row, returning its new id.
    pub fn insert(&self, table: &str, names: &Vec<String>) -> (r: String)
        requires
            names@.len() + 1 < usize::MAX,
        ensures
            r@ == insert_text(*self, table@, texts(names@)),
    {
        let mut quoted_names: Vec<String> = Vec::new();
        let mut i: usize = 0;
        while i < names.len()
            invariant
                i <= names@.len(),
                texts(quoted_names@) == texts(names@).take(i as int).map_values(|n: Seq<char>| quoted(n)),
            decreases names@.len() - i,
        {
            let q = quote(names[i].as_str());
            let ghost before = quoted_names@;
            quoted_names.push(q);
            assert(texts(quoted_names@) =~= texts(before).push(q@));
            assert(texts(names@).take(i as int + 1).map_values(|n: Seq<char>| quoted(n))
                =~= texts(names@).take(i as int).map_values(|n: Seq<char>| quoted(n)).push(quoted(names@[i as int]@)));
            i = i + 1;
        }
        assert(texts(names@).take(names@.len() as int) =~= texts(names@));
        let mut out = text::owned("INSERT INTO ");
        let t = quote(table);
        text::push_str(&mut out, t.as_str());
        text::push_str(&mut out, " (");
        let cols = join(&quoted_names, ", ");
        text::push_str(&mut out, cols.as_str());
        text::push_str(&mut out, ") VALUES (");
        let ms = self.marks(0, names.len());
        text::push_str(&mut out, ms.as_str());
        text::push_str(&mut out, ") RETURNING \"id\"");
        out
    }
}

proof fn lemma_batch_size(rows: Seq<Vec<(Name, Value)>>, k: int)
    requires
        0 <= k <= rows.len(),
    ensures
        batch_size(rows.take(k)) <= batch_size(rows),
        batch_size(rows.take(k)) >= 0,
    decreases rows.len() - k,
{
    if k < rows.len() {
        assert(rows.take(k + 1).drop_last() =~= rows.take(k));
        lemma_batch_size(rows, k + 1);
    } else {
        assert(rows.take(k) =~= rows);
    }
    lemma_batch_size_nonneg(rows.take(k));
}

proof fn lemma_batch_size_nonneg(rows: Seq<Vec<(Name, Value)>>)
    ensures
        batch_size(rows) >= 0,
    decreases rows.len(),
{
    if rows.len() > 0 {
        lemma_batch_size_nonneg(rows.drop_last());
    }
}

} // verus!

verus! {

/// The text of each statement's names.
pub open spec fn row_names(row: Vec<(Name, Value)>) -> Seq<Seq<char>> {
    pair_names(row@)
}

/// What a batch of rows is written with.
pub open spec fn plan_ok(d: Dialect, fields: Seq<crate::spec::Field>, table: Seq<char>, rows: Seq<Vec<(Name, Value)>>, p: Plan) -> bool {
    if rows.len() == 0 {
        p is Nothing
    } else if keyed(fields) {
        p matches Plan::Batch { sql, params, keys }
            && sql@ == upsert_text(table, key_name(fields), rows[0]@, batch_of(d, rows).0)
            && cells(params@) == batch_of(d, rows).1
            && match keys_of(rows, key_name(fields)) {
                Ok(ks) => keys matches Ok(v) && key_cells(v@) == ks,
                Err(m) => keys matches Err(StoreError::Value(x)) && x@ == m,
            }
    } else {
        p matches Plan::Rows(stmts) && statement_views(stmts@) == Seq::new(rows.len(), |i: int|
            (insert_text(d, table, pair_names(rows[i]@)), pair_cells(rows[i]@)))
    }
}

fn missing_key() -> (r: StoreError)
    ensures
        r matches StoreError::Value(m) && m@ == "missing key"@,
{
    StoreError::Value(text::owned("missing key"))
}

/// The key of each row of a batch: the value of its first pair named like the key column.
pub fn batch_keys(key: &str, rows: &Vec<Vec<(Name, Value)>>) -> (r: Result<Vec<Key>, StoreError>)
    ensures
        match keys_of(rows@, key@) {
            Ok(ks) => r matches Ok(v) && key_cells(v@) == ks,
            Err(m) => r matches Err(StoreError::Value(x)) && x@ == m,
        },
{
    let mut out: Vec<Key> = Vec::new();
    let mut i: usize = 0;
    assert(rows@.take(0) =~= Seq::<Vec<(Name, Value)>>::empty());
    assert(key_cells(out@) =~= Seq::<Cell>::empty());
    while i < rows.len()
        invariant
            i <= rows@.len(),
            keys_of(rows@.take(i as int), key@) == Ok::<Seq<Cell>, Seq<char>>(key_cells(out@)),
        decreases rows@.len() - i,
    {
        assert(rows@.take(i as int + 1).drop_last() =~= rows@.take(i as int));
        let row = &rows[i];
        let mut found: Option<usize> = None;
        let mut j: usize = 0;
        while j < row.len()
            invariant
                j <= row@.len(),
                match found {
                    Some(k) => k < row@.len() && first_value(row@.take(j as int), key@) == Some(row@[k as int].1),
                    None => first_value(row@.take(j as int), key@) is None,
                },
            decreases row@.len() - j,
        {
            assert(row@.take(j as int + 1).drop_last() =~= row@.take(j as int));
            if found.is_none() && text::same(row[j].0.0, key) {
                found = Some(j);
            }
            j = j + 1;
        }
        assert(row@.take(row@.len() as int) =~= row@);
        match found {
            None => {
                proof { lemma_keys_fail(rows@, key@, i as int + 1); }
                return Err(missing_key());
            },
            Some(k) => match Key::of(&row[k].1) {
                Ok(key_value) => {
                    let ghost before = out@;
                    out.push(key_value);
                    assert(key_cells(out@) =~= key_cells(before).push(key_value.cell()));
                },
                Err(e) => {
                    proof { lemma_keys_fail(rows@, key@, i as int + 1); }
                    return Err(e);
                },
            },
        }
        i = i + 1;
    }
    assert(rows@.take(rows@.len() as int) =~= rows@);
    Ok(out)
}

proof fn lemma_keys_fail(rows: Seq<Vec<(Name, Value)>>, key: Seq<char>, k: int)
    requires
        0 <= k <= rows.len(),
        keys_of(rows.take(k), key) is Err,
    ensures
        keys_of(rows, key) == keys_of(rows.take(k), key),
    decreases rows.len() - k,
{
    if k < rows.len() {
        assert(rows.take(k + 1).drop_last() =~= rows.take(k));
        lemma_keys_fail(rows, key, k + 1);
    } else {
        assert(rows.take(k) =~= rows);
    }
}

pub(crate) fn is_keyed(schema: &Schema) -> (r: bool)
    ensures
        r == keyed(schema.fields@),
{
    let mut i: usize = 0;
    while i < schema.fields.len()
        invariant
            i <= schema.fields@.len(),
            forall|j: int| 0 <= j < i ==> !(#[trigger] flat_of(schema.fields@[j].kind) is Key),
        decreases schema.fields@.len() - i,
    {
        let hit = match schema.fields[i].kind.flat() {
            Type::Key => true,
            _ => false,
        };
        if hit {
            return true;
        }
        i = i + 1;
    }
    false
}

impl Dialect {
    /// How a batch of new rows is written: one conflict-aware insert with the rows' keys when
    /// the table has a text key, else one insert per row returning the new ids.
    pub fn create(&self, schema: &Schema, rows: &Vec<Vec<(Name, Value)>>) -> (r: Plan)
        requires
            batch_size(rows@) + 2 < usize::MAX,
            forall|i: int| 0 <= i < rows@.len() ==> #[trigger] rows@[i]@.len() + 2 < usize::MAX,
        ensures
            plan_ok(*self, schema.fields@, schema.table@, rows@, r),
    {
        if rows.len() == 0 {
            return Plan::Nothing;
        }
        if is_keyed(schema) {
            let (groups, params) = self.groups(rows);
            let sql = self.upsert_sql(schema, &rows[0], &groups);
            let key = schema.key();
            let keys = batch_keys(key.0, rows);
            Plan::Batch { sql, params, keys }
        } else {
            let mut stmts: Vec<(String, Vec<Value>)> = Vec::new();
            let mut i: usize = 0;
            while i < rows.len()
                invariant
                    i <= rows@.len(),
                    forall|k: int| 0 <= k < rows@.len() ==> #[trigger] rows@[k]@.len() + 2 < usize::MAX,
                    statement_views(stmts@) == Seq::new(i as nat, |k: int|
                        (insert_text(*self, schema.table@, pair_names(rows@[k]@)), pair_cells(rows@[k]@))),
                decreases rows@.len() - i,
            {
                let row = &rows[i];
                let mut names: Vec<String> = Vec::new();
                let mut values: Vec<Value> = Vec::new();
                let mut j: usize = 0;
                while j < row.len()
                    invariant
                        j <= row@.len(),
                        texts(names@) == pair_names(row@.take(j as int)),
                        cells(values@) == pair_cells(row@.take(j as int)),
                    decreases row@.len() - j,
                {
                    let ghost nb = names@;
                    let ghost vb = values@;
                    names.push(text::owned(row[j].0.0));
                    values.push(row[j].1.dup());
                    assert(texts(names@) =~= texts(nb).push(row@[j as int].0@));
                    assert(cells(values@) =~= cells(vb).push(row@[j as int].1@));
                    assert(pair_names(row@.take(j as int + 1)) =~= pair_names(row@.take(j as int)).push(row@[j as int].0@));
                    assert(pair_cells(row@.take(j as int + 1)) =~= pair_cells(row@.take(j as int)).push(row@[j as int].1@));
                    j = j + 1;
                }
                assert(row@.take(row@.len() as int) =~= row@);
                let sql = self.insert(schema.table.0, &names);
                let ghost before = stmts@;
                assert(texts(names@) == pair_names(rows@[i as int]@));
                assert(sql@ == insert_text(*self, schema.table@, pair_names(rows@[i as int]@)));
                assert(cells(values@) == pair_cells(rows@[i as int]@));
                stmts.push((sql, values));
                assert(statement_views(stmts@) =~= statement_views(before).push((sql@, cells(values@))));
                assert(statement_views(stmts@) =~= Seq::new((i + 1) as nat, |k: int|
                    (insert_text(*self, schema.table@, pair_names(rows@[k]@)), pair_cells(rows@[k]@))));
                i = i + 1;
            }
            Plan::Rows(stmts)
        }
    }

    /// The `UPDATE` of one row by key: the given cells, then the key, as parameters.
    pub fn replace(&self, schema: &Schema, key: &Value, cells_in: &Vec<(Name, Value)>) -> (r: (String, Vec<Value>))
        requires
            cells_in@.len() + 2 < usize::MAX,
        ensures
            r.0@ == "UPDATE "@ + quoted(schema.table@) + " SET "@ + joined(set_list(*self, pair_names(cells_in@)), ", "@)
                + " WHERE "@ + quoted(key_name(schema.fields@)) + " = "@ + mark_of(*self, cells_in@.len()),
            cells(r.1@) == pair_cells(cells_in@).push(key@),
    {
        let mut params: Vec<Value> = Vec::new();
        let mut sets: Vec<String> = Vec::new();
        let mut i: usize = 0;
        while i < cells_in.len()
            invariant
                i <= cells_in@.len(),
                cells_in@.len() + 2 < usize::MAX,
                params@.len() == i,
                cells(params@) == pair_cells(cells_in@.take(i as int)),
                texts(sets@) == set_list(*self, pair_names(cells_in@.take(i as int))),
            decreases cells_in@.len() - i,
        {
            let ghost pb = params@;
            let ghost sb = sets@;
            params.push(cells_in[i].1.dup());
            let mut s = quote(cells_in[i].0.0);
            text::push_str(&mut s, " = ");
            let m = self.mark(i);
            text::push_str(&mut s, m.as_str());
            sets.push(s);
            assert(cells(params@) =~= cells(pb).push(cells_in@[i as int].1@));
            assert(pair_cells(cells_in@.take(i as int + 1)) =~= pair_cells(cells_in@.take(i as int)).push(cells_in@[i as int].1@));
            assert(texts(sets@) =~= texts(sb).push(s@));
            assert(pair_names(cells_in@.take(i as int + 1)) =~= pair_names(cells_in@.take(i as int)).push(cells_in@[i as int].0@));
            assert(texts(sets@) =~= set_list(*self, pair_names(cells_in@.take(i as int + 1))));
            i = i + 1;
        }
        assert(cells_in@.take(cells_in@.len() as int) =~= cells_in@);
        let ghost pb = params@;
        params.push(key.dup());
        assert(cells(params@) =~= cells(pb).push(key@));
        let mut sql = text::owned("UPDATE ");
        let t = quote(schema.table.0);
        text::push_str(&mut sql, t.as_str());
        text::push_str(&mut sql, " SET ");
        let j = join(&sets, ", ");
        text::push_str(&mut sql, j.as_str());
        text::push_str(&mut sql, " WHERE ");
        let k = schema.key();
        let kq = quote(k.0);
        text::push_str(&mut sql, kq.as_str());
        text::push_str(&mut sql, " = ");
        let m = self.mark(cells_in.len());
        text::push_str(&mut sql, m.as_str());
        (sql, params)
    }

    /// The `DELETE` of one row by key, with the key as its parameter.
    pub fn remove(&self, schema: &Schema, key: &Value) -> (r: (String, Vec<Value>))
        ensures
            r.0@ == "DELETE FROM "@ + quoted(schema.table@) + " WHERE "@ + quoted(key_name(schema.fields@)) + " = "@ + mark_of(*self, 0),
            cells(r.1@) == seq![key@],
    {
        let mut sql = text::owned("DELETE FROM ");
        let t = quote(schema.table.0);
        text::push_str(&mut sql, t.as_str());
        text::push_str(&mut sql, " WHERE ");
        let k = schema.key();
        let kq = quote(k.0);
        text::push_str(&mut sql, kq.as_str());
        text::push_str(&mut sql, " = ");
        let m = self.mark(0);
        text::push_str(&mut sql, m.as_str());
        let mut params: Vec<Value> = Vec::new();
        params.push(key.dup());
        assert(cells(params@) =~= seq![key@]);
        (sql, params)
    }

    /// The statements that bring a table to the schema after its definition: renames, added
    /// columns, then (when `trim`) dropped columns.
    pub fn migration(&self, schema: &Schema, have: &[Column], trim: bool) -> (r: Vec<String>)
        ensures
            texts(r@) == moved_of(schema.fields@, have@).map_values(|p: (Seq<char>, Seq<char>)| rename_line(schema.table@, p))
                + alter_of(*self, schema.table@, schema.fields@, schema.fields@, have@)
                + (if trim { drop_of(schema.table@, schema.fields@, have@, have@) } else { Seq::empty() }),
    {
        let mut out = self.rename(schema, have);
        let ghost a = texts(out@);
        let mut add = self.alter(schema, have);
        let ghost b = texts(add@);
        out.append(&mut add);
        assert(texts(out@) =~= a + b);
        if trim {
            let mut cut = self.drop(schema, have);
            let ghost c = texts(cut@);
            out.append(&mut cut);
            assert(texts(out@) =~= a + b + c);
        } else {
            assert(texts(out@) =~= a + b + Seq::<Seq<char>>::empty());
        }
        out
    }

    /// The query for the id the last insert assigned, where the dialect has one.
    pub fn latest(&self) -> (r: Option<&'static str>)
        ensures
            match self {
                Dialect::Sqlite => r matches Some(s) && s@ == "SELECT last_insert_rowid()"@,
                Dialect::Postgres => r is None,
            },
    {
        match self {
            Dialect::Sqlite => Some("SELECT last_insert_rowid()"),
            Dialect::Postgres => None,
        }
    }

    /// The query that lists a table's columns.
    pub fn introspect(&self, table: &str) -> (r: String)
        ensures
            r@ == match self {
                Dialect::Sqlite => "PRAGMA table_info("@ + quoted(table@) + ")"@,
                Dialect::Postgres => "SELECT column_name, data_type FROM information_schema.columns WHERE table_name = '"@
                    + table@ + "' AND table_schema = 'public' ORDER BY ordinal_position"@,
            },
    {
        match self {
            Dialect::Sqlite => {
                let mut out = text::owned("PRAGMA table_info(");
                let q = quote(table);
                text::push_str(&mut out, q.as_str());
                text::push_str(&mut out, ")");
                out
            },
            Dialect::Postgres => {
                let mut out = text::owned("SELECT column_name, data_type FROM information_schema.columns WHERE table_name = '");
                text::push_str(&mut out, table);
                text::push_str(&mut out, "' AND table_schema = 'public' ORDER BY ordinal_position");
                out
            },
        }
    }
}

/// The number a `COUNT(*)` query returned in its first row, or an error when there is none.
pub fn total_of(first: Option<i64>) -> (r: Result<usize, StoreError>)
    ensures
        match first {
            Some(n) => r == Ok::<usize, StoreError>(n as usize),
            None => r matches Err(StoreError::Value(m)) && m@ == "no total"@,
        },
{
    match first {
        Some(n) => Ok(n as usize),
        None => Err(StoreError::Value(text::owned("no total"))),
    }
}

/// The id an insert returned in its first row, or an error when there is none.
pub fn id_of_insert(first: Option<i64>) -> (r: Result<i64, StoreError>)
    ensures
        match first {
            Some(n) => r == Ok::<i64, StoreError>(n),
            None => r matches Err(StoreError::Value(m)) && m@ == "no last id"@,
        },
{
    match first {
        Some(n) => Ok(n),
        None => Err(StoreError::Value(text::owned("no last id"))),
    }
}

} // verus!

verus! {

/// The leaves of a condition tree, in order.
pub open spec fn leaves_of(t: crate::spec::Tree) -> Seq<crate::spec::Filter>
    decreases t, 0nat,
{
    match t {
        crate::spec::Tree::Leaf(f) => seq![f],
        crate::spec::Tree::And(parts) => leaves_all(parts@),
        crate::spec::Tree::Or(parts) => leaves_all(parts@),
        crate::spec::Tree::Cut(inner) => leaves_of(*inner),
    }
}

/// The leaves of several trees, in order.
pub open spec fn leaves_all(parts: Seq<crate::spec::Tree>) -> Seq<crate::spec::Filter>
    decreases parts, 1nat,
{
    if parts.len() == 0 {
        Seq::empty()
    } else {
        leaves_all(parts.drop_last()) + leaves_of(parts.last())
    }
}

/// `fk__column` split at its first `__`.
pub open spec fn split_path(name: Seq<char>) -> Option<(Seq<char>, Seq<char>)> {
    match text::first_at(name, "__"@) {
        Some(i) => Some((name.take(i), name.skip(i + 2))),
        None => None,
    }
}

/// The comparison a subquery uses for an operator; `=` for those it has no form of.
pub open spec fn op_text(op: crate::spec::Op) -> Seq<char> {
    match op {
        crate::spec::Op::Ne => "!="@,
        crate::spec::Op::More => ">"@,
        crate::spec::Op::Less => "<"@,
        crate::spec::Op::Like => "LIKE"@,
        _ => "="@,
    }
}

/// `"fk" IN (SELECT "column" FROM "table" WHERE "sub" op ` : a subquery up to its placeholder.
pub open spec fn lookup_head(fk: Seq<char>, column: Seq<char>, table: Seq<char>, sub: Seq<char>, op: crate::spec::Op) -> Seq<char> {
    quoted(fk) + " IN (SELECT "@ + quoted(column) + " FROM "@ + quoted(table) + " WHERE "@ + quoted(sub) + " "@ + op_text(op) + " "@
}

/// The subquery head, table and column a `fk__column` leaf needs, or the message of why it has none.
pub open spec fn plan_of(fields: Seq<crate::spec::Field>, f: crate::spec::Filter) -> Result<(Seq<char>, Seq<char>, Seq<char>), Seq<char>> {
    let (fk, sub) = split_path(f.field@).unwrap();
    match field_index(fields, fk) {
        None => Err("unknown field "@ + fk),
        Some(i) => match fields[i].link {
            Some(crate::spec::Link::To(t, c)) => Ok((lookup_head(fk, c@, t@, sub, f.op), t@, sub)),
            _ => Err(fk + " needs a reference"@),
        },
    }
}

/// The leaves that name a column of a referenced table.
pub open spec fn path_leaves(leaves: Seq<crate::spec::Filter>) -> Seq<crate::spec::Filter>
    decreases leaves.len(),
{
    if leaves.len() == 0 {
        Seq::empty()
    } else {
        let rest = path_leaves(leaves.drop_last());
        if split_path(leaves.last().field@) is Some { rest.push(leaves.last()) } else { rest }
    }
}

/// A subquery a leaf needs, with the table and column whose existence the store must confirm.
#[derive(Debug)]
pub struct Lookup {
    /// The subquery for the leaf's field.
    pub path: Path,
    /// The referenced table.
    pub table: crate::spec::Table,
    /// The column of the referenced table the leaf compares.
    pub sub: String,
}

/// What a path leaf plans to: its lookup, or the error that stops the query.
pub open spec fn entry_ok(fields: Seq<crate::spec::Field>, f: crate::spec::Filter, e: Result<Lookup, StoreError>) -> bool {
    match plan_of(fields, f) {
        Ok((head, table, sub)) => e matches Ok(l) && l.path.field == f.field && l.path.head@ == head
            && l.path.value@ == f.value@ && l.table@ == table && l.sub@ == sub,
        Err(m) => e matches Err(StoreError::Value(x)) && x@ == m,
    }
}

fn plan_leaf(schema: &Schema, f: &crate::spec::Filter) -> (r: Option<Result<Lookup, StoreError>>)
    ensures
        match r {
            None => split_path(f.field@) is None,
            Some(e) => split_path(f.field@) is Some && entry_ok(schema.fields@, *f, e),
        },
{
    let cs = text::chars(f.field.0);
    let sep = text::chars("__");
    proof {
        reveal_strlit("__");
    }
    assert(sep@.len() == 2);
    let i = match text::find(cs.as_slice(), sep.as_slice()) {
        Some(i) => i,
        None => return None,
    };
    assert(text::occurs_at(cs@, sep@, i as int));
    assert(i + 2 <= cs@.len());
    assert(cs@.len() == cs.len());
    let fk = text::slice(cs.as_slice(), 0, i);
    let sub = text::slice(cs.as_slice(), i + 2, cs.len());
    assert(fk@ =~= f.field@.take(i as int));
    assert(sub@ =~= f.field@.skip(i + 2));
    let fk_text = text::string_of(fk.as_slice());
    let sub_text = text::string_of(sub.as_slice());
    match schema.locate(fk_text.as_str()) {
        None => {
            let mut m = text::owned("unknown field ");
            text::push_str(&mut m, fk_text.as_str());
            Some(Err(StoreError::Value(m)))
        },
        Some(k) => {
            proof {
                let w = field_index(schema.fields@, fk@).unwrap();
                assert(w == k as int) by {
                    if w < k {
                    } else if w > k {
                        assert(schema.fields@[k as int].name@ == fk@);
                    }
                }
            }
            match schema.fields[k].reference() {
                Some((table, column)) => {
                    let mut head = quote(fk_text.as_str());
                    text::push_str(&mut head, " IN (SELECT ");
                    let c = quote(column.0);
                    text::push_str(&mut head, c.as_str());
                    text::push_str(&mut head, " FROM ");
                    let t = quote(table.0);
                    text::push_str(&mut head, t.as_str());
                    text::push_str(&mut head, " WHERE ");
                    let s = quote(sub_text.as_str());
                    text::push_str(&mut head, s.as_str());
                    text::push_str(&mut head, " ");
                    let op = match f.op {
                        crate::spec::Op::Ne => "!=",
                        crate::spec::Op::More => ">",
                        crate::spec::Op::Less => "<",
                        crate::spec::Op::Like => "LIKE",
                        _ => "=",
                    };
                    text::push_str(&mut head, op);
                    text::push_str(&mut head, " ");
                    let path = Path { field: f.field, head, value: f.value.dup() };
                    Some(Ok(Lookup { path, table, sub: sub_text }))
                },
                None => {
                    let mut m = fk_text.clone();
                    text::push_str(&mut m, " needs a reference");
                    Some(Err(StoreError::Value(m)))
                },
            }
        },
    }
}

impl Schema {
    /// The subqueries a condition tree needs, one per `fk__column` leaf in order, each with the
    /// referenced table and column the store must confirm before the query runs.
    pub fn lookups(&self, tree: &crate::spec::Tree, out: &mut Vec<Result<Lookup, StoreError>>)
        ensures
            final(out)@.len() == old(out)@.len() + path_leaves(leaves_of(*tree)).len(),
            forall|i: int| 0 <= i < old(out)@.len() ==> final(out)@[i] == old(out)@[i],
            forall|i: int| 0 <= i < path_leaves(leaves_of(*tree)).len() ==>
                entry_ok(self.fields@, path_leaves(leaves_of(*tree))[i], #[trigger] final(out)@[old(out)@.len() + i]),
        decreases *tree, 1nat,
    {
        match tree {
            crate::spec::Tree::Leaf(f) => {
                assert(leaves_of(*tree) =~= seq![*f]);
                assert(seq![*f].drop_last() =~= Seq::<crate::spec::Filter>::empty());
                assert(path_leaves(Seq::<crate::spec::Filter>::empty()) == Seq::<crate::spec::Filter>::empty());
                assert(seq![*f].last() == *f);
                match plan_leaf(self, f) {
                    Some(e) => {
                        assert(path_leaves(seq![*f]) =~= seq![*f]);
                        out.push(e);
                    },
                    None => {
                        assert(path_leaves(seq![*f]) =~= Seq::<crate::spec::Filter>::empty());
                    },
                }
            },
            crate::spec::Tree::And(parts) => self.lookups_all(parts, out),
            crate::spec::Tree::Or(parts) => self.lookups_all(parts, out),
            crate::spec::Tree::Cut(inner) => self.lookups(inner, out),
        }
    }

    fn lookups_all(&self, parts: &Vec<crate::spec::Tree>, out: &mut Vec<Result<Lookup, StoreError>>)
        ensures
            final(out)@.len() == old(out)@.len() + path_leaves(leaves_all(parts@)).len(),
            forall|i: int| 0 <= i < old(out)@.len() ==> final(out)@[i] == old(out)@[i],
            forall|i: int| 0 <= i < path_leaves(leaves_all(parts@)).len() ==>
                entry_ok(self.fields@, path_leaves(leaves_all(parts@))[i], #[trigger] final(out)@[old(out)@.len() + i]),
        decreases parts@, 0nat,
    {
        let ghost start = out@;
        let mut i: usize = 0;
        while i < parts.len()
            invariant
                i <= parts@.len(),
                out@.len() == start.len() + path_leaves(leaves_all(parts@.take(i as int))).len(),
                forall|j: int| 0 <= j < start.len() ==> out@[j] == start[j],
                forall|j: int| 0 <= j < path_leaves(leaves_all(parts@.take(i as int))).len() ==>
                    entry_ok(self.fields@, path_leaves(leaves_all(parts@.take(i as int)))[j], #[trigger] out@[start.len() + j]),
            decreases parts@.len() - i,
        {
            assert(parts@.take(i as int + 1).drop_last() =~= parts@.take(i as int));
            let ghost mid = out@;
            self.lookups(&parts[i], out);
            proof {
                let a = leaves_all(parts@.take(i as int));
                let b = leaves_of(parts@[i as int]);
                assert(leaves_all(parts@.take(i as int + 1)) == a + b);
                lemma_path_leaves_concat(a, b);
                let pa = path_leaves(a);
                let pb = path_leaves(b);
                assert(path_leaves(leaves_all(parts@.take(i as int + 1))) == pa + pb);
                assert forall|j: int| 0 <= j < (pa + pb).len() implies
                    entry_ok(self.fields@, (pa + pb)[j], #[trigger] out@[start.len() + j]) by {
                    if j < pa.len() {
                        assert((pa + pb)[j] == pa[j]);
                        assert(out@[start.len() + j] == mid[start.len() + j]);
                    } else {
                        let k = j - pa.len();
                        assert((pa + pb)[j] == pb[k]);
                        assert(out@[mid.len() + k] == out@[start.len() + j]);
                    }
                }
            }
            i = i + 1;
        }
        assert(parts@.take(parts@.len() as int) =~= parts@);
    }
}

proof fn lemma_path_leaves_concat(a: Seq<crate::spec::Filter>, b: Seq<crate::spec::Filter>)
    ensures
        path_leaves(a + b) == path_leaves(a) + path_leaves(b),
    decreases b.len(),
{
    if b.len() == 0 {
        assert(a + b =~= a);
        assert(path_leaves(a) + path_leaves(b) =~= path_leaves(a));
    } else {
        assert((a + b).drop_last() =~= a + b.drop_last());
        lemma_path_leaves_concat(a, b.drop_last());
        assert((a + b).last() == b.last());
        if split_path(b.last().field@) is Some {
            assert(path_leaves(a) + path_leaves(b) =~= (path_leaves(a) + path_leaves(b.drop_last())).push(b.last()));
        }
    }
}

} // verus!

verus! {

impl Schema {
    /// The SQLite table definition.
    pub fn ddl(&self) -> (r: String)
        ensures
            r@ == crate::dialect::ddl_of(Dialect::Sqlite, self.table@, self.fields@),
    {
        Dialect::Sqlite.ddl(self)
    }

    /// The SQLite `ADD COLUMN` statements for the fields the table lacks.
    pub fn alter(&self, have: &[Column]) -> (r: Vec<String>)
        ensures
            texts(r@) == alter_of(Dialect::Sqlite, self.table@, self.fields@, self.fields@, have@),
    {
        Dialect::Sqlite.alter(self, have)
    }

    /// The `DROP COLUMN` statements for the columns no field keeps.
    pub fn drop(&self, have: &[Column]) -> (r: Vec<String>)
        ensures
            texts(r@) == drop_of(self.table@, self.fields@, have@, have@),
    {
        Dialect::Sqlite.drop(self, have)
    }

    /// The `RENAME COLUMN` statements for the columns taken as renamed.
    pub fn rename(&self, have: &[Column]) -> (r: Vec<String>)
        ensures
            texts(r@) == moved_of(self.fields@, have@).map_values(|p: (Seq<char>, Seq<char>)| rename_line(self.table@, p)),
    {
        Dialect::Sqlite.rename(self, have)
    }
}

/// The `ORDER BY` term a `-name`/`name` sort text asks for: the named field, or the key when no
/// field has that name, descending when the text starts with `-`.
pub open spec fn order_of(fields: Seq<crate::spec::Field>, sort: Seq<char>) -> Seq<char> {
    let (name, down) = if sort.len() > 0 && sort[0] == '-' { (sort.drop_first(), true) } else { (sort, false) };
    let col = if field_index(fields, name) is Some { name } else { key_name(fields) };
    quoted(col) + if down { " DESC"@ } else { Seq::empty() }
}

/// The `ORDER BY` term for a sort text on the given fields.
pub fn order_by(schema: &Schema, sort: &str) -> (r: String)
    ensures
        r@ == order_of(schema.fields@, sort@),
{
    let cs = text::chars(sort);
    let down = cs.len() > 0 && cs[0] == '-';
    let rest = if down { text::slice(cs.as_slice(), 1, cs.len()) } else { text::slice(cs.as_slice(), 0, cs.len()) };
    assert(down ==> rest@ =~= sort@.drop_first());
    assert(!down ==> rest@ =~= sort@);
    let name = text::string_of(rest.as_slice());
    let mut out = match schema.locate(name.as_str()) {
        Some(i) => {
            assert(field_index(schema.fields@, name@) is Some) by {
                assert(schema.fields@[i as int].name@ == name@);
            }
            quote(name.as_str())
        },
        None => quote(schema.key().0),
    };
    if down {
        text::push_str(&mut out, " DESC");
    } else {
        proof { reveal_strlit(""); }
    }
    out
}

/// The `ORDER BY` term for a sort text on a model's table.
///
/// The result is the term for whatever fields `M::schema` gives on this call.
pub fn order<M: crate::model::Model>(sort: &str) -> (r: String)
    ensures
        exists|s: Schema| r@ == order_of(s.fields@, sort@),
{
    let s = M::schema();
    order_by(&s, sort)
}

/// A subquery once the store listed the referenced table's columns: kept when the table has
/// the column the leaf compares, else refused naming the column.
pub fn confirm(lookup: Lookup, columns: &Vec<String>) -> (r: Result<Path, StoreError>)
    ensures
        texts(columns@).contains(lookup.sub@) ==> (r matches Ok(p) && p == lookup.path),
        !texts(columns@).contains(lookup.sub@) ==> (r matches Err(StoreError::Value(m)) && m@ == "unknown column "@ + lookup.sub@),
{
    let ghost names = texts(columns@);
    let mut i: usize = 0;
    while i < columns.len()
        invariant
            i <= columns@.len(),
            names == texts(columns@),
            forall|j: int| 0 <= j < i ==> names[j] != lookup.sub@,
        decreases columns@.len() - i,
    {
        if text::same(columns[i].as_str(), lookup.sub.as_str()) {
            assert(names[i as int] == lookup.sub@);
            return Ok(lookup.path);
        }
        i = i + 1;
    }
    let mut m = text::owned("unknown column ");
    text::push_str(&mut m, lookup.sub.as_str());
    Err(StoreError::Value(m))
}


/// The smallest and the largest value of a column are asked for with `MIN` and `MAX` over the
/// quoted column, in either dialect, and so never with the same text; the result has the
/// column's affinity. A name that is no stored field is refused alike for both.
pub proof fn low_and_high(d: Dialect, fields: Seq<crate::spec::Field>, n: Name)
    ensures
        (mass_of(d, fields, Mass::Low(n)) is Ok) == (kind_for(fields, n@) is Ok),
        (mass_of(d, fields, Mass::High(n)) is Ok) == (kind_for(fields, n@) is Ok),
        mass_of(d, fields, Mass::Low(n)) matches Ok((t, k)) ==> t == "MIN("@ + quoted(n@) + ")"@ && Ok::<ColumnKind, Seq<char>>(k) == kind_for(fields, n@),
        mass_of(d, fields, Mass::High(n)) matches Ok((t, k)) ==> t == "MAX("@ + quoted(n@) + ")"@ && Ok::<ColumnKind, Seq<char>>(k) == kind_for(fields, n@),
        (mass_of(d, fields, Mass::Low(n)) is Ok && mass_of(d, fields, Mass::High(n)) is Ok)
            ==> (mass_of(d, fields, Mass::Low(n))->Ok_0).0 != (mass_of(d, fields, Mass::High(n))->Ok_0).0,
{
    reveal_strlit("MIN(");
    reveal_strlit("MAX(");
    let lo = "MIN("@ + quoted(n@) + ")"@;
    let hi = "MAX("@ + quoted(n@) + ")"@;
    assert(lo[1] == 'I' && hi[1] == 'A');
}

} // verus!
