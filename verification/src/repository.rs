//! The reads and writes a repository of one model sends to its store.

use vstd::prelude::*;

use crate::model::{pairs_for, pair_views, pairs_spec};
use crate::spec::{key_name, Field, Filter, Name, Only, Op, Order, Page, Query, Schema, Sort, Tree};
use crate::text;
use crate::value::{Cell, Key, StoreError, Value};

verus! {

/// The read of the row with the key: one row, the key's column equal to the value.
pub fn get_query(schema: &Schema, id: Value) -> (r: Query)
    ensures
        r.tree matches Tree::Leaf(f) && f.field@ == key_name(schema.fields@) && f.op == Op::Eq && f.value@ == id@,
        r.sort@.len() == 1 && r.sort@[0].field@ == key_name(schema.fields@) && r.sort@[0].order == Order::Asc,
        r.page.count == 0 && r.page.offset == 0,
        r.only is Lone,
        r.mass is None,
{
    let key = schema.key();
    Query {
        tree: Tree::Leaf(Filter { field: key, op: Op::Eq, value: id }),
        sort: vec![Sort { field: key, order: Order::Asc }],
        page: Page::all(),
        only: Only::Lone,
        mass: None,
    }
}

/// The read of every row, by key ascending.
pub fn all_query(schema: &Schema) -> (r: Query)
    ensures
        r.tree matches Tree::And(v) && v@.len() == 0,
        r.sort@.len() == 1 && r.sort@[0].field@ == key_name(schema.fields@) && r.sort@[0].order == Order::Asc,
        r.page.count == 0 && r.page.offset == 0,
        r.only is All,
        r.mass is None,
{
    Query {
        tree: Tree::And(Vec::new()),
        sort: vec![Sort { field: schema.key(), order: Order::Asc }],
        page: Page::all(),
        only: Only::All,
        mass: None,
    }
}

/// The read of the rows whose field equals the value, by key ascending.
pub fn filter_query(schema: &Schema, field: Name, value: Value) -> (r: Query)
    ensures
        r.tree matches Tree::Leaf(f) && f.field@ == field@ && f.op == Op::Eq && f.value@ == value@,
        r.sort@.len() == 1 && r.sort@[0].field@ == key_name(schema.fields@) && r.sort@[0].order == Order::Asc,
        r.page.count == 0 && r.page.offset == 0,
        r.only is All,
        r.mass is None,
{
    Query {
        tree: Tree::Leaf(Filter { field, op: Op::Eq, value }),
        sort: vec![Sort { field: schema.key(), order: Order::Asc }],
        page: Page::all(),
        only: Only::All,
        mass: None,
    }
}

/// The read of every row in the sort's order.
pub fn ordered_query(sort: Sort) -> (r: Query)
    ensures
        r.tree matches Tree::And(v) && v@.len() == 0,
        r.sort@ == seq![sort],
        r.page.count == 0 && r.page.offset == 0,
        r.only is All,
        r.mass is None,
{
    Query { tree: Tree::And(Vec::new()), sort: vec![sort], page: Page::all(), only: Only::All, mass: None }
}

/// A read that returns whole models: refused when it names its columns.
pub fn whole(query: &Query) -> (r: Result<(), StoreError>)
    ensures
        match r {
            Ok(()) => !(query.only is These),
            Err(e) => query.only is These && (e matches StoreError::Unsupported(m) && m@ == "projected rows need rows()"@),
        },
{
    match &query.only {
        Only::These(_) => Err(StoreError::Unsupported(text::owned("projected rows need rows()"))),
        _ => Ok(()),
    }
}

/// The key and the column values an update of a model writes.
pub fn update_parts(id: &Value, fields: &Vec<Field>, values: &Vec<Value>) -> (r: Result<(Key, Vec<(Name, Value)>), StoreError>)
    ensures
        match r {
            Ok((k, p)) => (id is Int || id is Str) && k.cell() == id@ && pair_views(p@) == pairs_spec(
                fields@,
                values@.map_values(|v: Value| v@),
            ),
            Err(e) => !(id is Int || id is Str) && (e matches StoreError::Value(m) && m@ == "bad key"@),
        },
{
    let key = Key::of(id)?;
    Ok((key, pairs_for(fields, values)))
}

} // verus!
