//! Models: types stored as rows of a table, and what follows from their fields.

use vstd::prelude::*;

use crate::spec::{flat_of, key_for, key_name, kinds_of, Field, Name, Schema, Table, Type};
use crate::text;
use crate::value::{Cell, ColumnKind, Key, Row, StoreError, Value};

verus! {

/// The names of the fields whose flat type satisfies `keep`, in order.
pub open spec fn names_where(fields: Seq<Field>, keep: spec_fn(Type) -> bool) -> Seq<Seq<char>>
    decreases fields.len(),
{
    if fields.len() == 0 {
        Seq::empty()
    } else {
        let rest = names_where(fields.drop_last(), keep);
        if keep(flat_of(fields.last().kind)) { rest.push(fields.last().name@) } else { rest }
    }
}

/// Flat types shown as columns: everything but the primary key.
pub open spec fn shown(t: Type) -> bool {
    !(t is Id || t is Key)
}

/// Flat types searched by text: plain strings.
pub open spec fn searched(t: Type) -> bool {
    t is Str
}

/// The text of each name, in order.
pub open spec fn name_texts(v: Seq<Name>) -> Seq<Seq<char>> {
    v.map_values(|n: Name| n@)
}

fn names_of(fields: &Vec<Field>, search: bool) -> (r: Vec<Name>)
    ensures
        name_texts(r@) == names_where(fields@, if search { |t: Type| searched(t) } else { |t: Type| shown(t) }),
{
    let ghost keep = if search { |t: Type| searched(t) } else { |t: Type| shown(t) };
    let mut out: Vec<Name> = Vec::new();
    let mut i: usize = 0;
    while i < fields.len()
        invariant
            i <= fields@.len(),
            keep == (if search { |t: Type| searched(t) } else { |t: Type| shown(t) }),
            name_texts(out@) == names_where(fields@.take(i as int), keep),
        decreases fields@.len() - i,
    {
        assert(fields@.take(i as int + 1).drop_last() =~= fields@.take(i as int));
        let flat = fields[i].kind.flat();
        let take = if search {
            match flat {
                Type::Str => true,
                _ => false,
            }
        } else {
            match flat {
                Type::Id | Type::Key => false,
                _ => true,
            }
        };
        if take {
            let ghost before = out@;
            out.push(fields[i].name);
            assert(name_texts(out@) =~= name_texts(before).push(fields@[i as int].name@));
        }
        i = i + 1;
    }
    assert(fields@.take(fields@.len() as int) =~= fields@);
    out
}

/// The names of the columns shown for each row: every field but the primary key.
pub fn column_names(fields: &Vec<Field>) -> (r: Vec<Name>)
    ensures
        name_texts(r@) == names_where(fields@, |t: Type| shown(t)),
{
    names_of(fields, false)
}

/// The names of the fields searched by text: the plain string fields.
pub fn search_names(fields: &Vec<Field>) -> (r: Vec<Name>)
    ensures
        name_texts(r@) == names_where(fields@, |t: Type| searched(t)),
{
    names_of(fields, true)
}

/// The fields that take a value from a row: all but the autoincrement id.
pub open spec fn stored_of(fields: Seq<Field>) -> Seq<Field>
    decreases fields.len(),
{
    if fields.len() == 0 {
        Seq::empty()
    } else {
        let rest = stored_of(fields.drop_last());
        if fields.last().kind is Id { rest } else { rest.push(fields.last()) }
    }
}

/// The value a field is written with: the given one, or the field's default when that is NULL.
pub open spec fn filled(f: Field, v: Cell) -> Cell {
    match f.default {
        Some(d) => if v is Null { d@ } else { v },
        None => v,
    }
}

/// The `j`-th value of a row, NULL past its end.
pub open spec fn nth(values: Seq<Cell>, j: int) -> Cell {
    if 0 <= j < values.len() { values[j] } else { Cell::Null }
}

/// The column each stored field is written to, with its value.
pub open spec fn pairs_spec(fields: Seq<Field>, values: Seq<Cell>) -> Seq<(Seq<char>, Cell)> {
    let stored = stored_of(fields);
    Seq::new(stored.len(), |j: int| (stored[j].name@, filled(stored[j], nth(values, j))))
}

/// The name and value of each pair, as text and cell.
pub open spec fn pair_views(v: Seq<(Name, Value)>) -> Seq<(Seq<char>, Cell)> {
    v.map_values(|p: (Name, Value)| (p.0@, p.1@))
}

/// Pairs each stored field with the value at its place in the row, filling defaults.
pub fn pairs_for(fields: &Vec<Field>, values: &Vec<Value>) -> (r: Vec<(Name, Value)>)
    ensures
        pair_views(r@) == pairs_spec(fields@, values@.map_values(|v: Value| v@)),
{
    let ghost cells = values@.map_values(|v: Value| v@);
    let mut out: Vec<(Name, Value)> = Vec::new();
    let mut i: usize = 0;
    while i < fields.len()
        invariant
            i <= fields@.len(),
            cells == values@.map_values(|v: Value| v@),
            out@.len() == stored_of(fields@.take(i as int)).len(),
            pair_views(out@) == pairs_spec(fields@.take(i as int), cells),
        decreases fields@.len() - i,
    {
        assert(fields@.take(i as int + 1).drop_last() =~= fields@.take(i as int));
        let f = &fields[i];
        let is_id = match f.kind {
            Type::Id => true,
            _ => false,
        };
        if !is_id {
            let j = out.len();
            let v = if j < values.len() { values[j].dup() } else { Value::Null };
            let v = match &f.default {
                Some(d) => if v.is_null() { d.dup() } else { v },
                None => v,
            };
            let ghost before = out@;
            let ghost st = stored_of(fields@.take(i as int + 1));
            assert(st == stored_of(fields@.take(i as int)).push(*f));
            assert(j < values@.len() ==> nth(cells, j as int) == values@[j as int]@);
            assert(v@ == filled(*f, nth(cells, j as int)));
            out.push((f.name, v));
            assert(pair_views(out@) =~= pair_views(before).push((f.name@, v@)));
            assert(pair_views(out@) =~= pairs_spec(fields@.take(i as int + 1), cells));
        } else {
            assert(pair_views(out@) =~= pairs_spec(fields@.take(i as int + 1), cells));
        }
        i = i + 1;
    }
    assert(fields@.take(fields@.len() as int) =~= fields@);
    out
}

/// A type stored as the rows of one table.
pub trait Model: Sized {
    /// The name of the table, by content.
    open spec fn table_spec() -> Seq<char> {
        Seq::empty()
    }

    /// The columns, in row order, by content.
    open spec fn fields_spec() -> Seq<Field> {
        Seq::empty()
    }

    /// The table the rows live in.
    fn table() -> (r: Table)
        ensures
            r@ == Self::table_spec();

    /// The columns, in row order.
    fn fields() -> (r: Vec<Field>)
        ensures
            r@ == Self::fields_spec();

    /// The values written for the stored fields, in order.
    fn row(&self) -> Vec<Value>;

    /// Reads a value back from a row.
    fn from_row(row: &Row) -> Result<Self, StoreError>;

    /// Takes the key the store assigned.
    fn set_id(&mut self, id: Value);

    /// The key of this value.
    fn id(&self) -> Value;

    /// The columns shown in lists: every field but the key.
    fn columns() -> (r: Vec<Name>)
        default_ensures
            name_texts(r@) == names_where(Self::fields_spec(), |t: Type| shown(t)),
    {
        let fields = Self::fields();
        column_names(&fields)
    }

    /// The fields searched by text: the plain string fields.
    fn search() -> (r: Vec<Name>)
        default_ensures
            name_texts(r@) == names_where(Self::fields_spec(), |t: Type| searched(t)),
    {
        let fields = Self::fields();
        search_names(&fields)
    }

    /// The fields that cannot be edited.
    fn readonly() -> (r: Vec<Name>)
        default_ensures
            r@.len() == 0,
    {
        Vec::new()
    }

    /// The schema of the table: its name and fields, and no rules.
    fn schema() -> (r: Schema)
        ensures
            r.table@ == Self::table_spec(),
            r.fields@ == Self::fields_spec(),
            r.rules@.len() == 0,
    {
        Schema { table: Self::table(), fields: Self::fields(), rules: Vec::new() }
    }

    /// The schema as stores see it.
    fn spec() -> (r: Schema)
        default_ensures
            r.table@ == Self::table_spec(),
            r.fields@ == Self::fields_spec(),
            r.rules@.len() == 0,
    {
        Self::schema()
    }

    /// The bulk actions a list of the model offers: delete.
    fn actions() -> (r: Vec<crate::actions::Deed>)
        default_ensures
            r@.len() == 1,
            r@[0].name@ == "wipe"@ && r@[0].title@ == "Delete"@ && r@[0].logged && r@[0].row,
    {
        let mut v: Vec<crate::actions::Deed> = Vec::new();
        v.push(crate::actions::Deed::wipe());
        v
    }
}

/// The column affinities of a model's stored fields.
///
/// The result is the affinities of whatever fields `M::fields` gives on this call.
pub fn kinds<M: Model>() -> (r: Vec<ColumnKind>)
    ensures
        exists|s: Schema| r@ == kinds_of(s.fields@),
{
    let s = M::schema();
    s.kinds()
}

/// The name of a model's key column.
pub fn id_column<M: Model>() -> (r: Name)
    ensures
        exists|s: Schema| r@ == key_name(s.fields@),
{
    M::schema().key()
}

/// The key value a raw path segment stands for in a model's table.
pub fn key<M: Model>(raw: &str) -> (r: Value)
    ensures
        exists|s: Schema| r@ == key_for(raw@, s.fields@),
{
    let s = M::schema();
    Key::parse(raw, &s).value()
}

/// Pairs a model's stored fields with the values of its row, filling defaults.
pub fn pairs<M: Model>(model: &M) -> (r: Vec<(Name, Value)>)
    ensures
        exists|fields: Seq<Field>, values: Seq<Cell>| pair_views(r@) == pairs_spec(fields, values),
{
    let values = model.row();
    let fields = M::fields();
    pairs_for(&fields, &values)
}

} // verus!
