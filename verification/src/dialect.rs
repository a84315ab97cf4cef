//! SQL rendering: column types, table definitions, migrations, conditions and statements.

use vstd::prelude::*;

use crate::spec::{affinity_of, flat_of, is_many, is_primary, Field, Filter, Link, Name, Op, Schema, Tree, Type, many};
use crate::text::{self, digits};
use crate::value::{literal_of, Cell, Column, ColumnKind, Value};

verus! {

/// The SQL grammar a statement is rendered for.
#[derive(Clone, Copy, Debug, PartialEq, Eq, Structural)]
pub enum Dialect {
    /// SQLite: `?` placeholders, `INTEGER PRIMARY KEY AUTOINCREMENT` ids.
    Sqlite,
    /// PostgreSQL: `$n` placeholders, `BIGSERIAL PRIMARY KEY` ids.
    Postgres,
}

/// The SQLite backend.
#[derive(Clone, Copy, Debug)]
pub struct Sqlite;

/// The PostgreSQL backend.
#[derive(Clone, Copy, Debug)]
pub struct Postgres;

impl Sqlite {
    /// The grammar statements for this backend are written in.
    pub fn dialect(&self) -> (r: Dialect)
        ensures
            r == Dialect::Sqlite,
    {
        Dialect::Sqlite
    }
}

impl Postgres {
    /// The grammar statements for this backend are written in.
    pub fn dialect(&self) -> (r: Dialect)
        ensures
            r == Dialect::Postgres,
    {
        Dialect::Postgres
    }
}

/// `"name"`: a quoted identifier.
pub open spec fn quoted(name: Seq<char>) -> Seq<char> {
    "\""@ + name + "\""@
}

/// The parts joined by the separator.
pub open spec fn joined(parts: Seq<Seq<char>>, sep: Seq<char>) -> Seq<char>
    decreases parts.len(),
{
    if parts.len() == 0 {
        Seq::empty()
    } else if parts.len() == 1 {
        parts[0]
    } else {
        joined(parts.drop_last(), sep) + sep + parts.last()
    }
}

/// The text of each string, in order.
pub open spec fn texts(v: Seq<String>) -> Seq<Seq<char>> {
    v.map_values(|s: String| s@)
}

/// Joins strings with a separator.
pub fn join(parts: &Vec<String>, sep: &str) -> (r: String)
    ensures
        r@ == joined(texts(parts@), sep@),
{
    let mut out = String::new();
    let mut i: usize = 0;
    while i < parts.len()
        invariant
            i <= parts@.len(),
            out@ == joined(texts(parts@.take(i as int)), sep@),
        decreases parts@.len() - i,
    {
        assert(texts(parts@.take(i as int + 1)).drop_last() =~= texts(parts@.take(i as int)));
        if i > 0 {
            text::push_str(&mut out, sep);
        }
        text::push_str(&mut out, parts[i].as_str());
        i = i + 1;
    }
    assert(parts@.take(parts@.len() as int) =~= parts@);
    out
}

/// Quotes an identifier: `"name"`.
pub fn quote(name: &str) -> (r: String)
    ensures
        r@ == quoted(name@),
{
    let mut out = text::owned("\"");
    text::push_str(&mut out, name);
    text::push_str(&mut out, "\"");
    out
}

/// The placeholder text for the parameter at position `at`.
pub open spec fn mark_of(d: Dialect, at: nat) -> Seq<char> {
    match d {
        Dialect::Sqlite => "?"@,
        Dialect::Postgres => "$"@ + digits(at + 1),
    }
}

/// The SQL type name of a stored type.
pub open spec fn sql_of(d: Dialect, t: Type) -> Seq<char> {
    match (d, flat_of(t)) {
        (Dialect::Sqlite, Type::Id) => "INTEGER PRIMARY KEY AUTOINCREMENT"@,
        (Dialect::Postgres, Type::Id) => "BIGSERIAL PRIMARY KEY"@,
        (_, Type::Key) => "TEXT PRIMARY KEY"@,
        (_, Type::Str) => "TEXT"@,
        (Dialect::Sqlite, Type::Int) => "INTEGER"@,
        (Dialect::Sqlite, Type::Moment) => "INTEGER"@,
        (Dialect::Sqlite, Type::Bool) => "INTEGER"@,
        (Dialect::Postgres, Type::Int) => "BIGINT"@,
        (Dialect::Postgres, Type::Moment) => "BIGINT"@,
        (Dialect::Postgres, Type::Bool) => "BIGINT"@,
        (Dialect::Sqlite, Type::Float) => "REAL"@,
        (Dialect::Postgres, Type::Float) => "DOUBLE PRECISION"@,
        _ => "TEXT"@,
    }
}

/// The ` REFERENCES "t"("c")` clause of a linked field.
pub open spec fn refs_of(f: Field) -> Seq<char> {
    match f.link {
        Some(Link::To(t, c)) => " REFERENCES "@ + quoted(t@) + "("@ + quoted(c@) + ")"@,
        _ => Seq::empty(),
    }
}

/// The ` DEFAULT literal` clause of a field with a default.
pub open spec fn default_of(f: Field) -> Seq<char> {
    match f.default {
        Some(v) => " DEFAULT "@ + literal_of(v@),
        None => Seq::empty(),
    }
}

/// The constraints after a non-key column's type.
pub open spec fn constraints_of(f: Field) -> Seq<char> {
    refs_of(f) + (if f.unique { " UNIQUE"@ } else { Seq::empty() }) + (if f.kind is Opt {
        Seq::empty()
    } else {
        " NOT NULL"@
    }) + default_of(f)
}

/// The column definition of a stored field.
pub open spec fn column_of(d: Dialect, f: Field) -> Seq<char> {
    quoted(f.name@) + " "@ + sql_of(d, f.kind) + if is_primary(f.kind) {
        Seq::empty()
    } else {
        constraints_of(f)
    }
}

fn refs_clause(field: &Field) -> (r: String)
    ensures
        r@ == refs_of(*field),
{
    let mut out = String::new();
    if let Some((table, column)) = field.reference() {
        text::push_str(&mut out, " REFERENCES ");
        let t = quote(table.0);
        text::push_str(&mut out, t.as_str());
        text::push_str(&mut out, "(");
        let c = quote(column.0);
        text::push_str(&mut out, c.as_str());
        text::push_str(&mut out, ")");
    }
    out
}

fn default_clause(field: &Field) -> (r: String)
    ensures
        r@ == default_of(*field),
{
    let mut out = String::new();
    match &field.default {
        Some(v) => {
            text::push_str(&mut out, " DEFAULT ");
            let lit = v.literal();
            text::push_str(&mut out, lit.as_str());
        },
        None => {},
    }
    out
}

fn constraints(field: &Field) -> (r: String)
    ensures
        r@ == constraints_of(*field),
{
    let mut out = refs_clause(field);
    if field.unique {
        text::push_str(&mut out, " UNIQUE");
    }
    if !field.kind.is_optional() {
        text::push_str(&mut out, " NOT NULL");
    }
    let d = default_clause(field);
    text::push_str(&mut out, d.as_str());
    out
}

/// The column definitions of every stored field, in order.
pub open spec fn columns_of(d: Dialect, fields: Seq<Field>) -> Seq<Seq<char>>
    decreases fields.len(),
{
    if fields.len() == 0 {
        Seq::empty()
    } else {
        let rest = columns_of(d, fields.drop_last());
        if is_many(fields.last().kind) {
            rest
        } else {
            rest.push(column_of(d, fields.last()))
        }
    }
}

/// `CREATE TABLE IF NOT EXISTS "t" (...)` for a schema.
pub open spec fn ddl_of(d: Dialect, table: Seq<char>, fields: Seq<Field>) -> Seq<char> {
    "CREATE TABLE IF NOT EXISTS "@ + quoted(table) + " ("@ + joined(columns_of(d, fields), ", "@) + ")"@
}

impl Dialect {
    /// The placeholder for the parameter at position `at`.
    pub fn mark(&self, at: usize) -> (r: String)
        requires
            at < usize::MAX,
        ensures
            r@ == mark_of(*self, at as nat),
    {
        match self {
            Dialect::Sqlite => text::owned("?"),
            Dialect::Postgres => {
                let mut out = text::owned("$");
                let n = text::size_text(at + 1);
                text::push_str(&mut out, n.as_str());
                out
            },
        }
    }

    /// The SQL type name of a stored type; virtual columns have none.
    pub fn sql(&self, kind: &Type) -> (r: &'static str)
        requires
            !is_many(*kind),
        ensures
            r@ == sql_of(*self, *kind),
    {
        match (self, kind.flat()) {
            (Dialect::Sqlite, Type::Id) => "INTEGER PRIMARY KEY AUTOINCREMENT",
            (Dialect::Postgres, Type::Id) => "BIGSERIAL PRIMARY KEY",
            (_, Type::Key) => "TEXT PRIMARY KEY",
            (_, Type::Str) => "TEXT",
            (Dialect::Sqlite, Type::Int) => "INTEGER",
            (Dialect::Sqlite, Type::Moment) => "INTEGER",
            (Dialect::Sqlite, Type::Bool) => "INTEGER",
            (Dialect::Postgres, Type::Int) => "BIGINT",
            (Dialect::Postgres, Type::Moment) => "BIGINT",
            (Dialect::Postgres, Type::Bool) => "BIGINT",
            (Dialect::Sqlite, Type::Float) => "REAL",
            (Dialect::Postgres, Type::Float) => "DOUBLE PRECISION",
            _ => "TEXT",
        }
    }

    /// The column definition of a stored field.
    pub fn column(&self, field: &Field) -> (r: String)
        requires
            !is_many(field.kind),
        ensures
            r@ == column_of(*self, *field),
    {
        let mut out = quote(field.name.0);
        text::push_str(&mut out, " ");
        text::push_str(&mut out, self.sql(&field.kind));
        let primary = match field.kind.flat() {
            Type::Id | Type::Key => true,
            _ => false,
        };
        if !primary {
            let tail = constraints(field);
            text::push_str(&mut out, tail.as_str());
        }
        assert(out@ =~= column_of(*self, *field));
        out
    }

    /// The column definitions of every stored field, in order.
    pub fn columns(&self, fields: &Vec<Field>) -> (r: Vec<String>)
        ensures
            texts(r@) == columns_of(*self, fields@),
    {
        let mut out: Vec<String> = Vec::new();
        let mut i: usize = 0;
        while i < fields.len()
            invariant
                i <= fields@.len(),
                texts(out@) == columns_of(*self, fields@.take(i as int)),
            decreases fields@.len() - i,
        {
            assert(fields@.take(i as int + 1).drop_last() =~= fields@.take(i as int));
            if !many(&fields[i].kind) {
                let c = self.column(&fields[i]);
                out.push(c);
                assert(texts(out@) =~= texts(out@.drop_last()).push(c@));
            }
            i = i + 1;
        }
        assert(fields@.take(fields@.len() as int) =~= fields@);
        out
    }

    /// `CREATE TABLE IF NOT EXISTS` for the schema, virtual columns left out.
    pub fn ddl(&self, schema: &Schema) -> (r: String)
        ensures
            r@ == ddl_of(*self, schema.table@, schema.fields@),
    {
        let cols = self.columns(&schema.fields);
        let mut out = text::owned("CREATE TABLE IF NOT EXISTS ");
        let t = quote(schema.table.0);
        text::push_str(&mut out, t.as_str());
        text::push_str(&mut out, " (");
        let body = join(&cols, ", ");
        text::push_str(&mut out, body.as_str());
        text::push_str(&mut out, ")");
        out
    }
}


/// Some field of the schema has this name.
pub open spec fn named(fields: Seq<Field>, n: Seq<char>) -> bool {
    exists|i: int| 0 <= i < fields.len() && #[trigger] fields[i].name@ == n
}

/// Some existing column has this name.
pub open spec fn present(have: Seq<Column>, n: Seq<char>) -> bool {
    exists|j: int| 0 <= j < have.len() && #[trigger] have[j].name@ == n
}

/// Existing columns of affinity `k` that no field names any more (the `id` column aside).
pub open spec fn gone_of(fields: Seq<Field>, have: Seq<Column>, k: ColumnKind) -> Seq<Seq<char>>
    decreases have.len(),
{
    if have.len() == 0 {
        Seq::empty()
    } else {
        let rest = gone_of(fields, have.drop_last(), k);
        let c = have.last();
        if c.name@ != "id"@ && c.kind == k && !named(fields, c.name@) {
            rest.push(c.name@)
        } else {
            rest
        }
    }
}

/// Stored non-id fields of affinity `k` that no existing column holds yet.
pub open spec fn fresh_of(fields: Seq<Field>, have: Seq<Column>, k: ColumnKind) -> Seq<Seq<char>>
    decreases fields.len(),
{
    if fields.len() == 0 {
        Seq::empty()
    } else {
        let rest = fresh_of(fields.drop_last(), have, k);
        let f = fields.last();
        if !(f.kind is Id) && !is_many(f.kind) && affinity_of(f.kind) == k && !present(have, f.name@) {
            rest.push(f.name@)
        } else {
            rest
        }
    }
}

/// The rename, if any, that affinity `k` implies: exactly one column gone and one field new.
pub open spec fn moved_in(fields: Seq<Field>, have: Seq<Column>, k: ColumnKind) -> Seq<(Seq<char>, Seq<char>)> {
    let gone = gone_of(fields, have, k);
    let fresh = fresh_of(fields, have, k);
    if gone.len() == 1 && fresh.len() == 1 {
        seq![(gone[0], fresh[0])]
    } else {
        Seq::empty()
    }
}

/// The columns taken as renamed, per affinity in the order integer, real, text.
pub open spec fn moved_of(fields: Seq<Field>, have: Seq<Column>) -> Seq<(Seq<char>, Seq<char>)> {
    moved_in(fields, have, ColumnKind::Integer) + moved_in(fields, have, ColumnKind::Real)
        + moved_in(fields, have, ColumnKind::Text)
}

/// Some rename goes to this name.
pub open spec fn renamed_to(moved: Seq<(Seq<char>, Seq<char>)>, n: Seq<char>) -> bool {
    exists|i: int| 0 <= i < moved.len() && #[trigger] moved[i].1 == n
}

/// Some rename comes from this name.
pub open spec fn renamed_from(moved: Seq<(Seq<char>, Seq<char>)>, n: Seq<char>) -> bool {
    exists|i: int| 0 <= i < moved.len() && #[trigger] moved[i].0 == n
}

/// `ALTER TABLE "t" ADD COLUMN ...` for each stored field the table lacks.
pub open spec fn alter_of(d: Dialect, table: Seq<char>, fields: Seq<Field>, upto: Seq<Field>, have: Seq<Column>) -> Seq<Seq<char>>
    decreases upto.len(),
{
    if upto.len() == 0 {
        Seq::empty()
    } else {
        let rest = alter_of(d, table, fields, upto.drop_last(), have);
        let f = upto.last();
        if !(f.kind is Id) && !is_many(f.kind) && !present(have, f.name@) && !renamed_to(moved_of(fields, have), f.name@) {
            rest.push("ALTER TABLE "@ + quoted(table) + " ADD COLUMN "@ + column_of(d, f))
        } else {
            rest
        }
    }
}

/// `ALTER TABLE "t" DROP COLUMN "c"` for each column no field keeps or renames.
pub open spec fn drop_of(table: Seq<char>, fields: Seq<Field>, have: Seq<Column>, upto: Seq<Column>) -> Seq<Seq<char>>
    decreases upto.len(),
{
    if upto.len() == 0 {
        Seq::empty()
    } else {
        let rest = drop_of(table, fields, have, upto.drop_last());
        let c = upto.last();
        if c.name@ != "id"@ && !named(fields, c.name@) && !renamed_from(moved_of(fields, have), c.name@) {
            rest.push("ALTER TABLE "@ + quoted(table) + " DROP COLUMN "@ + quoted(c.name@))
        } else {
            rest
        }
    }
}

/// `ALTER TABLE "t" RENAME COLUMN "old" TO "new"` for one rename.
pub open spec fn rename_line(table: Seq<char>, pair: (Seq<char>, Seq<char>)) -> Seq<char> {
    "ALTER TABLE "@ + quoted(table) + " RENAME COLUMN "@ + quoted(pair.0) + " TO "@ + quoted(pair.1)
}

fn is_named(fields: &Vec<Field>, name: &str) -> (r: bool)
    ensures
        r == named(fields@, name@),
{
    let mut i: usize = 0;
    while i < fields.len()
        invariant
            i <= fields@.len(),
            forall|j: int| 0 <= j < i ==> fields@[j].name@ != name@,
        decreases fields@.len() - i,
    {
        if text::same(fields[i].name.0, name) {
            assert(fields@[i as int].name@ == name@);
            return true;
        }
        i = i + 1;
    }
    false
}

fn is_present(have: &[Column], name: &str) -> (r: bool)
    ensures
        r == present(have@, name@),
{
    let mut i: usize = 0;
    while i < have.len()
        invariant
            i <= have@.len(),
            forall|j: int| 0 <= j < i ==> have@[j].name@ != name@,
        decreases have@.len() - i,
    {
        if text::same(have[i].name.as_str(), name) {
            return true;
        }
        i = i + 1;
    }
    false
}

fn gone(fields: &Vec<Field>, have: &[Column], k: ColumnKind) -> (r: Vec<String>)
    ensures
        texts(r@) == gone_of(fields@, have@, k),
{
    let mut out: Vec<String> = Vec::new();
    let mut i: usize = 0;
    while i < have.len()
        invariant
            i <= have@.len(),
            texts(out@) == gone_of(fields@, have@.take(i as int), k),
        decreases have@.len() - i,
    {
        assert(have@.take(i as int + 1).drop_last() =~= have@.take(i as int));
        let c = &have[i];
        if !text::same(c.name.as_str(), "id") && c.kind == k && !is_named(fields, c.name.as_str()) {
            out.push(c.name.clone());
            assert(texts(out@) =~= texts(out@.drop_last()).push(c.name@));
        }
        i = i + 1;
    }
    assert(have@.take(have@.len() as int) =~= have@);
    out
}

fn fresh(fields: &Vec<Field>, have: &[Column], k: ColumnKind) -> (r: Vec<String>)
    ensures
        texts(r@) == fresh_of(fields@, have@, k),
{
    let mut out: Vec<String> = Vec::new();
    let mut i: usize = 0;
    while i < fields.len()
        invariant
            i <= fields@.len(),
            texts(out@) == fresh_of(fields@.take(i as int), have@, k),
        decreases fields@.len() - i,
    {
        assert(fields@.take(i as int + 1).drop_last() =~= fields@.take(i as int));
        let f = &fields[i];
        let is_id = match f.kind {
            Type::Id => true,
            _ => false,
        };
        if !is_id && !many(&f.kind) && crate::spec::affinity(&f.kind) == k && !is_present(have, f.name.0) {
            let n = text::owned(f.name.0);
            out.push(n);
            assert(texts(out@) =~= texts(out@.drop_last()).push(f.name@));
        }
        i = i + 1;
    }
    assert(fields@.take(fields@.len() as int) =~= fields@);
    out
}

/// The renames, as (old, new) text pairs.
pub open spec fn pair_texts(v: Seq<(String, String)>) -> Seq<(Seq<char>, Seq<char>)> {
    v.map_values(|p: (String, String)| (p.0@, p.1@))
}

fn moved_kind(fields: &Vec<Field>, have: &[Column], k: ColumnKind, out: &mut Vec<(String, String)>)
    ensures
        pair_texts(final(out)@) == pair_texts(old(out)@) + moved_in(fields@, have@, k),
{
    let g = gone(fields, have, k);
    let f = fresh(fields, have, k);
    if g.len() == 1 && f.len() == 1 {
        let ghost before = out@;
        out.push((g[0].clone(), f[0].clone()));
        assert(pair_texts(out@) =~= pair_texts(before) + moved_in(fields@, have@, k));
    } else {
        assert(pair_texts(out@) =~= pair_texts(out@) + moved_in(fields@, have@, k));
    }
}

fn has_new(moved: &Vec<(String, String)>, name: &str) -> (r: bool)
    ensures
        r == renamed_to(pair_texts(moved@), name@),
{
    let mut i: usize = 0;
    while i < moved.len()
        invariant
            i <= moved@.len(),
            forall|j: int| 0 <= j < i ==> pair_texts(moved@)[j].1 != name@,
        decreases moved@.len() - i,
    {
        if text::same(moved[i].1.as_str(), name) {
            assert(pair_texts(moved@)[i as int].1 == name@);
            return true;
        }
        i = i + 1;
    }
    false
}

fn has_old(moved: &Vec<(String, String)>, name: &str) -> (r: bool)
    ensures
        r == renamed_from(pair_texts(moved@), name@),
{
    let mut i: usize = 0;
    while i < moved.len()
        invariant
            i <= moved@.len(),
            forall|j: int| 0 <= j < i ==> pair_texts(moved@)[j].0 != name@,
        decreases moved@.len() - i,
    {
        if text::same(moved[i].0.as_str(), name) {
            assert(pair_texts(moved@)[i as int].0 == name@);
            return true;
        }
        i = i + 1;
    }
    false
}

impl Dialect {
    /// The columns taken as renamed: per affinity, when exactly one column is gone and one field is new.
    pub fn moved(&self, schema: &Schema, have: &[Column]) -> (r: Vec<(String, String)>)
        ensures
            pair_texts(r@) == moved_of(schema.fields@, have@),
    {
        let mut out: Vec<(String, String)> = Vec::new();
        assert(pair_texts(out@) =~= Seq::empty());
        moved_kind(&schema.fields, have, ColumnKind::Integer, &mut out);
        moved_kind(&schema.fields, have, ColumnKind::Real, &mut out);
        moved_kind(&schema.fields, have, ColumnKind::Text, &mut out);
        assert(pair_texts(out@) =~= moved_of(schema.fields@, have@));
        out
    }

    /// `ADD COLUMN` statements for the stored fields the table lacks and no rename covers.
    pub fn alter(&self, schema: &Schema, have: &[Column]) -> (r: Vec<String>)
        ensures
            texts(r@) == alter_of(*self, schema.table@, schema.fields@, schema.fields@, have@),
    {
        let moved = self.moved(schema, have);
        let fields = &schema.fields;
        let mut out: Vec<String> = Vec::new();
        let mut i: usize = 0;
        while i < fields.len()
            invariant
                i <= fields@.len(),
                fields@ == schema.fields@,
                pair_texts(moved@) == moved_of(schema.fields@, have@),
                texts(out@) == alter_of(*self, schema.table@, schema.fields@, fields@.take(i as int), have@),
            decreases fields@.len() - i,
        {
            assert(fields@.take(i as int + 1).drop_last() =~= fields@.take(i as int));
            let f = &fields[i];
            let is_id = match f.kind {
                Type::Id => true,
                _ => false,
            };
            if !is_id && !many(&f.kind) && !is_present(have, f.name.0) && !has_new(&moved, f.name.0) {
                let mut line = text::owned("ALTER TABLE ");
                let t = quote(schema.table.0);
                text::push_str(&mut line, t.as_str());
                text::push_str(&mut line, " ADD COLUMN ");
                let c = self.column(f);
                text::push_str(&mut line, c.as_str());
                out.push(line);
                assert(texts(out@) =~= texts(out@.drop_last()).push(line@));
            }
            i = i + 1;
        }
        assert(fields@.take(fields@.len() as int) =~= fields@);
        out
    }

    /// `DROP COLUMN` statements for the columns no field keeps and no rename takes.
    pub fn drop(&self, schema: &Schema, have: &[Column]) -> (r: Vec<String>)
        ensures
            texts(r@) == drop_of(schema.table@, schema.fields@, have@, have@),
    {
        let moved = self.moved(schema, have);
        let mut out: Vec<String> = Vec::new();
        let mut i: usize = 0;
        while i < have.len()
            invariant
                i <= have@.len(),
                pair_texts(moved@) == moved_of(schema.fields@, have@),
                texts(out@) == drop_of(schema.table@, schema.fields@, have@, have@.take(i as int)),
            decreases have@.len() - i,
        {
            assert(have@.take(i as int + 1).drop_last() =~= have@.take(i as int));
            let c = &have[i];
            if !text::same(c.name.as_str(), "id") && !is_named(&schema.fields, c.name.as_str())
                && !has_old(&moved, c.name.as_str()) {
                let mut line = text::owned("ALTER TABLE ");
                let t = quote(schema.table.0);
                text::push_str(&mut line, t.as_str());
                text::push_str(&mut line, " DROP COLUMN ");
                let q = quote(c.name.as_str());
                text::push_str(&mut line, q.as_str());
                out.push(line);
                assert(texts(out@) =~= texts(out@.drop_last()).push(line@));
            }
            i = i + 1;
        }
        assert(have@.take(have@.len() as int) =~= have@);
        out
    }

    /// `RENAME COLUMN` statements for the columns taken as renamed.
    pub fn rename(&self, schema: &Schema, have: &[Column]) -> (r: Vec<String>)
        ensures
            texts(r@) == moved_of(schema.fields@, have@).map_values(|p: (Seq<char>, Seq<char>)| rename_line(schema.table@, p)),
    {
        let moved = self.moved(schema, have);
        let ghost want = moved_of(schema.fields@, have@).map_values(|p: (Seq<char>, Seq<char>)| rename_line(schema.table@, p));
        let mut out: Vec<String> = Vec::new();
        let mut i: usize = 0;
        while i < moved.len()
            invariant
                i <= moved@.len(),
                pair_texts(moved@) == moved_of(schema.fields@, have@),
                want == moved_of(schema.fields@, have@).map_values(|p: (Seq<char>, Seq<char>)| rename_line(schema.table@, p)),
                texts(out@) == want.take(i as int),
            decreases moved@.len() - i,
        {
            let mut line = text::owned("ALTER TABLE ");
            let t = quote(schema.table.0);
            text::push_str(&mut line, t.as_str());
            text::push_str(&mut line, " RENAME COLUMN ");
            let a = quote(moved[i].0.as_str());
            text::push_str(&mut line, a.as_str());
            text::push_str(&mut line, " TO ");
            let b = quote(moved[i].1.as_str());
            text::push_str(&mut line, b.as_str());
            let ghost before = out@;
            out.push(line);
            assert(texts(out@) =~= texts(before).push(line@));
            assert(pair_texts(moved@)[i as int] == (moved@[i as int].0@, moved@[i as int].1@));
            assert(want[i as int] == rename_line(schema.table@, pair_texts(moved@)[i as int]));
            assert(line@ == want[i as int]);
            assert(texts(out@) =~= want.take(i as int + 1));
            i = i + 1;
        }
        assert(want.take(moved@.len() as int) =~= want);
        out
    }
}


/// A subquery that stands for the leaves on one field: `head` then a placeholder then `)`,
/// binding `value`.
#[derive(Debug)]
pub struct Path {
    /// The leaf field the subquery answers, such as `author__name`.
    pub field: Name,
    /// The subquery text up to its placeholder.
    pub head: String,
    /// The value bound to the placeholder.
    pub value: Value,
}

/// The subquery for a field: the last one given for it.
pub open spec fn path_for(paths: Seq<Path>, field: Seq<char>) -> Option<Path>
    decreases paths.len(),
{
    if paths.len() == 0 {
        None
    } else if paths.last().field@ == field {
        Some(paths.last())
    } else {
        path_for(paths.drop_last(), field)
    }
}

/// The position of the subquery for a field: the last one given for it.
pub fn find_path(paths: &Vec<Path>, field: &str) -> (r: Option<usize>)
    ensures
        match r {
            Some(k) => k < paths@.len() && path_for(paths@, field@) == Some(paths@[k as int]),
            None => path_for(paths@, field@) is None,
        },
{
    let mut i = paths.len();
    assert(paths@.take(paths@.len() as int) =~= paths@);
    while i > 0
        invariant
            i <= paths@.len(),
            path_for(paths@, field@) == path_for(paths@.take(i as int), field@),
        decreases i,
    {
        assert(paths@.take(i as int).drop_last() =~= paths@.take(i as int - 1));
        if text::same(paths[i - 1].field.as_str(), field) {
            return Some(i - 1);
        }
        i = i - 1;
    }
    None
}

/// The contents of a parameter list.
pub open spec fn cells(v: Seq<Value>) -> Seq<Cell> {
    v.map_values(|x: Value| x@)
}

/// Seconds in a day.
pub open spec fn day() -> int {
    86400
}

/// A timestamp far enough from the ends of `i64` that its whole day can be bounded.
pub open spec fn dated(at: int) -> bool {
    i64::MIN + 86400 <= at && at <= i64::MAX - 86400
}

/// The first second of the UTC day holding `at`.
pub open spec fn day_start(at: int) -> int {
    at - at % day()
}

/// The rendered condition and parameters of one leaf, with `base` parameters already bound.
pub open spec fn leaf_of(d: Dialect, paths: Seq<Path>, f: Filter, base: nat) -> (Seq<char>, Seq<Cell>) {
    match path_for(paths, f.field@) {
        Some(p) => (p.head@ + mark_of(d, base) + ")"@, seq![p.value@]),
        None => plain_leaf(d, f, base),
    }
}

/// The rendered condition and parameters of a leaf that no subquery stands for.
pub open spec fn plain_leaf(d: Dialect, f: Filter, base: nat) -> (Seq<char>, Seq<Cell>) {
    let q = quoted(f.field@);
    match f.op {
        Op::Eq => (q + " = "@ + mark_of(d, base), seq![f.value@]),
        Op::Ne => (q + " != "@ + mark_of(d, base), seq![f.value@]),
        Op::More => (q + " > "@ + mark_of(d, base), seq![f.value@]),
        Op::Less => (q + " < "@ + mark_of(d, base), seq![f.value@]),
        Op::Like => ("LOWER("@ + q + ") LIKE "@ + mark_of(d, base), seq![f.value@]),
        Op::Bare => (q + " IS NULL"@, Seq::empty()),
        Op::At => match f.value {
            Value::DateTime(at) => (
                q + " >= "@ + mark_of(d, base) + " AND "@ + q + " < "@ + mark_of(d, base + 1),
                seq![Cell::DateTime(day_start(at as int)), Cell::DateTime(day_start(at as int) + day())],
            ),
            _ => ("1 = 0"@, Seq::empty()),
        },
    }
}

/// Every `At` leaf of the tree compares against a timestamp whose day is representable.
pub open spec fn dates_ok(node: Tree) -> bool
    decreases node,
{
    match node {
        Tree::Leaf(f) => f.op == Op::At ==> (f.value matches Value::DateTime(at) ==> dated(at as int)),
        Tree::And(parts) => forall|i: int| 0 <= i < parts@.len() ==> dates_ok(#[trigger] parts@[i]),
        Tree::Or(parts) => forall|i: int| 0 <= i < parts@.len() ==> dates_ok(#[trigger] parts@[i]),
        Tree::Cut(inner) => dates_ok(*inner),
    }
}

/// Non-empty conditions joined by `op`, parenthesised when more than one.
pub open spec fn group(conds: Seq<Seq<char>>, op: Seq<char>, none: Seq<char>) -> Seq<char> {
    if conds.len() == 1 {
        conds[0]
    } else if conds.len() == 0 {
        none
    } else {
        "("@ + joined(conds, op) + ")"@
    }
}

/// The rendered condition of a tree and the parameters it binds, after `base` earlier ones.
pub open spec fn render(d: Dialect, paths: Seq<Path>, node: Tree, base: nat) -> (Seq<char>, Seq<Cell>)
    decreases node, 0nat,
{
    match node {
        Tree::Leaf(f) => leaf_of(d, paths, f, base),
        Tree::And(parts) => {
            let (conds, ps) = render_all(d, paths, parts@, base);
            (group(conds, " AND "@, Seq::empty()), ps)
        },
        Tree::Or(parts) => {
            let (conds, ps) = render_all(d, paths, parts@, base);
            (group(conds, " OR "@, "1 = 0"@), ps)
        },
        Tree::Cut(inner) => {
            let (c, ps) = render(d, paths, *inner, base);
            (if c.len() == 0 { "1 = 1"@ } else { "NOT ("@ + c + ")"@ }, ps)
        },
    }
}

/// The non-empty conditions of the branches, in order, and the parameters they bind.
pub open spec fn render_all(d: Dialect, paths: Seq<Path>, parts: Seq<Tree>, base: nat) -> (Seq<Seq<char>>, Seq<Cell>)
    decreases parts, 1nat,
{
    if parts.len() == 0 {
        (Seq::empty(), Seq::empty())
    } else {
        let (conds, ps) = render_all(d, paths, parts.drop_last(), base);
        let (c, p) = render(d, paths, parts.last(), base + ps.len());
        (if c.len() == 0 { conds } else { conds.push(c) }, ps + p)
    }
}

impl Dialect {
    fn bind(&self, params: &mut Vec<Value>, v: Value) -> (r: String)
        requires
            old(params)@.len() + 1 < usize::MAX,
        ensures
            r@ == mark_of(*self, old(params)@.len() as nat),
            cells(final(params)@) == cells(old(params)@).push(v@),
            final(params)@.len() == old(params)@.len() + 1,
    {
        let r = self.mark(params.len());
        let ghost before = params@;
        params.push(v);
        assert(cells(params@) =~= cells(before).push(v@));
        r
    }

    /// Renders one leaf condition, appending the values it binds.
    pub fn leaf(&self, paths: &Vec<Path>, filter: &Filter, params: &mut Vec<Value>) -> (r: String)
        requires
            old(params)@.len() + 2 < usize::MAX,
            filter.op == Op::At ==> (filter.value matches Value::DateTime(at) ==> dated(at as int)),
        ensures
            r@ == leaf_of(*self, paths@, *filter, old(params)@.len() as nat).0,
            cells(final(params)@) == cells(old(params)@) + leaf_of(*self, paths@, *filter, old(params)@.len() as nat).1,
    {
        match find_path(paths, filter.field.as_str()) {
            Some(k) => {
                let p = &paths[k];
                let mut out = text::owned(p.head.as_str());
                let m = self.bind(params, p.value.dup());
                text::push_str(&mut out, m.as_str());
                text::push_str(&mut out, ")");
                return out;
            },
            None => {},
        }
        self.plain(filter, params)
    }

    #[verifier::rlimit(40)]
    fn plain(&self, filter: &Filter, params: &mut Vec<Value>) -> (r: String)
        requires
            old(params)@.len() + 2 < usize::MAX,
            filter.op == Op::At ==> (filter.value matches Value::DateTime(at) ==> dated(at as int)),
        ensures
            r@ == plain_leaf(*self, *filter, old(params)@.len() as nat).0,
            cells(final(params)@) == cells(old(params)@) + plain_leaf(*self, *filter, old(params)@.len() as nat).1,
    {
        let q = quote(filter.field.0);
        let ghost before = params@;
        let mut out = String::new();
        match filter.op {
            Op::Eq | Op::Ne | Op::More | Op::Less => {
                text::push_str(&mut out, q.as_str());
                match filter.op {
                    Op::Eq => text::push_str(&mut out, " = "),
                    Op::Ne => text::push_str(&mut out, " != "),
                    Op::More => text::push_str(&mut out, " > "),
                    _ => text::push_str(&mut out, " < "),
                }
                let m = self.bind(params, filter.value.dup());
                text::push_str(&mut out, m.as_str());
            },
            Op::Like => {
                text::push_str(&mut out, "LOWER(");
                text::push_str(&mut out, q.as_str());
                text::push_str(&mut out, ") LIKE ");
                let m = self.bind(params, filter.value.dup());
                text::push_str(&mut out, m.as_str());
            },
            Op::Bare => {
                text::push_str(&mut out, q.as_str());
                text::push_str(&mut out, " IS NULL");
                assert(cells(params@) =~= cells(before) + Seq::<Cell>::empty());
            },
            Op::At => match &filter.value {
                Value::DateTime(at) => {
                    let rem = *at % 86400;
                    let rem = if rem < 0 { rem + 86400 } else { rem };
                    proof {
                        assert(rem == (*at as int) % day());
                    }
                    let start = *at - rem;
                    text::push_str(&mut out, q.as_str());
                    text::push_str(&mut out, " >= ");
                    let lo = self.bind(params, Value::DateTime(start));
                    text::push_str(&mut out, lo.as_str());
                    text::push_str(&mut out, " AND ");
                    text::push_str(&mut out, q.as_str());
                    text::push_str(&mut out, " < ");
                    let hi = self.bind(params, Value::DateTime(start + 86400));
                    text::push_str(&mut out, hi.as_str());
                    assert(cells(params@) =~= cells(before) + seq![Cell::DateTime(start as int), Cell::DateTime(start + 86400)]);
                },
                _ => {
                    text::push_str(&mut out, "1 = 0");
                    assert(cells(params@) =~= cells(before) + Seq::<Cell>::empty());
                },
            },
        }
        out
    }
}


proof fn lemma_render_all_grows(d: Dialect, paths: Seq<Path>, parts: Seq<Tree>, base: nat, k: int)
    requires
        0 <= k <= parts.len(),
    ensures
        render_all(d, paths, parts.take(k), base).1.len() <= render_all(d, paths, parts, base).1.len(),
    decreases parts.len() - k,
{
    if k < parts.len() {
        lemma_render_all_grows(d, paths, parts, base, k + 1);
        assert(parts.take(k + 1).drop_last() =~= parts.take(k));
    } else {
        assert(parts.take(k) =~= parts);
    }
}

fn group_text(conds: &Vec<String>, op: &str, none: &str) -> (r: String)
    ensures
        r@ == group(texts(conds@), op@, none@),
{
    if conds.len() == 1 {
        conds[0].clone()
    } else if conds.len() == 0 {
        text::owned(none)
    } else {
        let mut out = text::owned("(");
        let body = join(conds, op);
        text::push_str(&mut out, body.as_str());
        text::push_str(&mut out, ")");
        out
    }
}

impl Dialect {
    /// Renders the conditions of the branches, appending the values they bind.
    fn branches(&self, paths: &Vec<Path>, parts: &Vec<Tree>, params: &mut Vec<Value>) -> (r: Vec<String>)
        requires
            old(params)@.len() + render_all(*self, paths@, parts@, old(params)@.len() as nat).1.len() + 2 < usize::MAX,
            forall|i: int| 0 <= i < parts@.len() ==> dates_ok(#[trigger] parts@[i]),
        ensures
            texts(r@) == render_all(*self, paths@, parts@, old(params)@.len() as nat).0,
            cells(final(params)@) == cells(old(params)@) + render_all(*self, paths@, parts@, old(params)@.len() as nat).1,
        decreases parts@, 0nat,
    {
        let ghost base = params@.len() as nat;
        let ghost before = params@;
        let mut out: Vec<String> = Vec::new();
        let mut i: usize = 0;
        while i < parts.len()
            invariant
                i <= parts@.len(),
                base == before.len(),
                base + render_all(*self, paths@, parts@, base).1.len() + 2 < usize::MAX,
                forall|j: int| 0 <= j < parts@.len() ==> dates_ok(#[trigger] parts@[j]),
                texts(out@) == render_all(*self, paths@, parts@.take(i as int), base).0,
                cells(params@) == cells(before) + render_all(*self, paths@, parts@.take(i as int), base).1,
            decreases parts@.len() - i,
        {
            proof {
                assert(parts@.take(i as int + 1).drop_last() =~= parts@.take(i as int));
                assert(parts@.take(i as int + 1).last() == parts@[i as int]);
                lemma_render_all_grows(*self, paths@, parts@, base, i as int + 1);
                assert(params@.len() == cells(params@).len());
            }
            let ghost mid = params@;
            let c = self.tree(paths, &parts[i], params);
            if !c.as_str().is_empty() {
                let ghost prev = out@;
                out.push(c);
                assert(texts(out@) =~= texts(prev).push(c@));
            }
            assert(cells(params@) =~= cells(before) + render_all(*self, paths@, parts@.take(i as int + 1), base).1);
            i = i + 1;
        }
        assert(parts@.take(parts@.len() as int) =~= parts@);
        out
    }

    /// Renders a condition tree, appending the values it binds; empty when it imposes nothing.
    pub fn tree(&self, paths: &Vec<Path>, node: &Tree, params: &mut Vec<Value>) -> (r: String)
        requires
            old(params)@.len() + render(*self, paths@, *node, old(params)@.len() as nat).1.len() + 2 < usize::MAX,
            dates_ok(*node),
        ensures
            r@ == render(*self, paths@, *node, old(params)@.len() as nat).0,
            cells(final(params)@) == cells(old(params)@) + render(*self, paths@, *node, old(params)@.len() as nat).1,
        decreases *node, 1nat,
    {
        let ghost base = params@.len() as nat;
        match node {
            Tree::Leaf(filter) => {
                let r = self.leaf(paths, filter, params);
                assert(render(*self, paths@, *node, base) == leaf_of(*self, paths@, *filter, base));
                r
            },
            Tree::And(parts) => {
                let conds = self.branches(paths, parts, params);
                let r = group_text(&conds, " AND ", "");
                proof {
                    reveal_strlit("");
                }
                r
            },
            Tree::Or(parts) => {
                let conds = self.branches(paths, parts, params);
                let r = group_text(&conds, " OR ", "1 = 0");
                r
            },
            Tree::Cut(inner) => {
                let c = self.tree(paths, inner, params);
                if c.as_str().is_empty() {
                    text::owned("1 = 1")
                } else {
                    let mut out = text::owned("NOT (");
                    text::push_str(&mut out, c.as_str());
                    text::push_str(&mut out, ")");
                    out
                }
            },
        }
    }
}


/// The line is the `ADD COLUMN` of some field not named `name`.
pub open spec fn adds_other(d: Dialect, table: Seq<char>, fields: Seq<Field>, name: Seq<char>, line: Seq<char>) -> bool {
    exists|i: int| 0 <= i < fields.len() && fields[i].name@ != name
        && line == "ALTER TABLE "@ + quoted(table) + " ADD COLUMN "@ + column_of(d, #[trigger] fields[i])
}

/// The line is the `DROP COLUMN` of some column not named `name`.
pub open spec fn drops_other(table: Seq<char>, have: Seq<Column>, name: Seq<char>, line: Seq<char>) -> bool {
    exists|i: int| 0 <= i < have.len() && have[i].name@ != name
        && line == "ALTER TABLE "@ + quoted(table) + " DROP COLUMN "@ + quoted((#[trigger] have[i]).name@)
}

proof fn lemma_alter_lines(d: Dialect, table: Seq<char>, fields: Seq<Field>, upto: Seq<Field>, have: Seq<Column>, name: Seq<char>)
    requires
        renamed_to(moved_of(fields, have), name),
    ensures
        forall|j: int| 0 <= j < alter_of(d, table, fields, upto, have).len()
            ==> adds_other(d, table, upto, name, #[trigger] alter_of(d, table, fields, upto, have)[j]),
    decreases upto.len(),
{
    if upto.len() > 0 {
        let front = upto.drop_last();
        lemma_alter_lines(d, table, fields, front, have, name);
        let rest = alter_of(d, table, fields, front, have);
        let all = alter_of(d, table, fields, upto, have);
        assert forall|j: int| 0 <= j < all.len() implies adds_other(d, table, upto, name, #[trigger] all[j]) by {
            if j < rest.len() {
                assert(all[j] == rest[j]);
                assert(adds_other(d, table, front, name, rest[j]));
                let i = choose|i: int| 0 <= i < front.len() && front[i].name@ != name
                    && rest[j] == "ALTER TABLE "@ + quoted(table) + " ADD COLUMN "@ + column_of(d, #[trigger] front[i]);
                assert(upto[i] == front[i]);
            } else {
                let i = upto.len() - 1;
                assert(upto[i] == upto.last());
                assert(upto[i].name@ != name);
            }
        }
    }
}

proof fn lemma_drop_lines(table: Seq<char>, fields: Seq<Field>, have: Seq<Column>, upto: Seq<Column>, name: Seq<char>)
    requires
        renamed_from(moved_of(fields, have), name),
    ensures
        forall|j: int| 0 <= j < drop_of(table, fields, have, upto).len()
            ==> drops_other(table, upto, name, #[trigger] drop_of(table, fields, have, upto)[j]),
    decreases upto.len(),
{
    if upto.len() > 0 {
        let front = upto.drop_last();
        lemma_drop_lines(table, fields, have, front, name);
        let rest = drop_of(table, fields, have, front);
        let all = drop_of(table, fields, have, upto);
        assert forall|j: int| 0 <= j < all.len() implies drops_other(table, upto, name, #[trigger] all[j]) by {
            if j < rest.len() {
                assert(all[j] == rest[j]);
                assert(drops_other(table, front, name, rest[j]));
                let i = choose|i: int| 0 <= i < front.len() && front[i].name@ != name
                    && rest[j] == "ALTER TABLE "@ + quoted(table) + " DROP COLUMN "@ + quoted((#[trigger] front[i]).name@);
                assert(upto[i] == front[i]);
            } else {
                let i = upto.len() - 1;
                assert(upto[i] == upto.last());
                assert(upto[i].name@ != name);
            }
        }
    }
}

/// A column renamed keeps its data. For each affinity (integer, real or text): when exactly one
/// existing non-id column of that affinity is named by no field, and exactly one stored non-id
/// field of that affinity has no column, the migration renames that column to that field, every
/// `ADD COLUMN` it emits is for a field of another name, and every `DROP COLUMN` for a column of
/// another name.
pub proof fn rename_keeps_data(d: Dialect, table: Seq<char>, fields: Seq<Field>, have: Seq<Column>, k: ColumnKind)
    requires
        k == ColumnKind::Integer || k == ColumnKind::Real || k == ColumnKind::Text,
        gone_of(fields, have, k).len() == 1,
        fresh_of(fields, have, k).len() == 1,
    ensures
        ({
            let column = gone_of(fields, have, k)[0];
            let field = fresh_of(fields, have, k)[0];
            let adds = alter_of(d, table, fields, fields, have);
            let drops = drop_of(table, fields, have, have);
            &&& moved_of(fields, have).map_values(|p: (Seq<char>, Seq<char>)| rename_line(table, p)).contains(
                "ALTER TABLE "@ + quoted(table) + " RENAME COLUMN "@ + quoted(column) + " TO "@ + quoted(field))
            &&& forall|j: int| 0 <= j < adds.len() ==> adds_other(d, table, fields, field, #[trigger] adds[j])
            &&& forall|j: int| 0 <= j < drops.len() ==> drops_other(table, have, column, #[trigger] drops[j])
        }),
{
    let column = gone_of(fields, have, k)[0];
    let field = fresh_of(fields, have, k)[0];
    let a = moved_in(fields, have, ColumnKind::Integer);
    let b = moved_in(fields, have, ColumnKind::Real);
    let c = moved_in(fields, have, ColumnKind::Text);
    let moved = moved_of(fields, have);
    assert(moved == a + b + c);
    let at: int = if k == ColumnKind::Integer { 0 } else if k == ColumnKind::Real { a.len() as int } else { (a.len() + b.len()) as int };
    assert(moved[at] == (column, field));
    assert(moved[at].1 == field && moved[at].0 == column);
    assert(renamed_to(moved, field));
    assert(renamed_from(moved, column));
    let lines = moved.map_values(|p: (Seq<char>, Seq<char>)| rename_line(table, p));
    assert(lines[at] == rename_line(table, (column, field)));
    assert(lines.contains(rename_line(table, (column, field))));
    lemma_alter_lines(d, table, fields, fields, have, field);
    lemma_drop_lines(table, fields, have, have, column);
}

} // verus!
