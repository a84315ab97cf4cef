//! Many-to-many fields: where a field leads through its link table, and the two reads that
//! fetch the rows it links to.

use vstd::prelude::*;

use crate::spec::{field_index, is_many, key_name, Field, Filter, Link, Name, Only, Op, Order, Page, Query, Schema, Sort, Tree};
use crate::text;
use crate::value::{Cell, Row, StoreError, Value};

verus! {

/// The first schema for the table, if any.
pub open spec fn table_index(schemas: Seq<Schema>, table: Seq<char>) -> Option<int> {
    if exists|i: int| 0 <= i < schemas.len() && schemas[i].table@ == table {
        Some(choose|i: int| 0 <= i < schemas.len() && schemas[i].table@ == table && forall|j: int|
            0 <= j < i ==> schemas[j].table@ != table)
    } else {
        None
    }
}

/// Where a many-to-many field leads.
#[derive(Clone, Copy, Debug, PartialEq, Eq)]
pub struct Route {
    /// Position of the link table among the schemas.
    pub through: usize,
    /// The link table's column holding this model's key.
    pub mine: Name,
    /// The link table's column holding the other model's key.
    pub theirs: Name,
    /// Position of the target table among the schemas.
    pub target: usize,
    /// The target column the link refers to.
    pub column: Name,
}

/// The route of a field by content: link table, its two columns, target table and column.
pub open spec fn route_view(r: Route) -> (int, Seq<char>, Seq<char>, int, Seq<char>) {
    (r.through as int, r.mine@, r.theirs@, r.target as int, r.column@)
}

/// Why a field has no route: whether the store cannot follow it at all, and the message.
pub open spec fn fault_is(e: StoreError, f: (bool, Seq<char>)) -> bool {
    if f.0 {
        e matches StoreError::Unsupported(m) && m@ == f.1
    } else {
        e matches StoreError::Value(m) && m@ == f.1
    }
}

/// Where the field of `here` leads through the schemas, or why it leads nowhere.
pub open spec fn route_of(here: Seq<Field>, schemas: Seq<Schema>, field: Seq<char>) -> Result<
    (int, Seq<char>, Seq<char>, int, Seq<char>),
    (bool, Seq<char>),
> {
    match field_index(here, field) {
        None => Err((false, "unknown field"@)),
        Some(i) => if !is_many(here[i].kind) {
            Err((true, "single field needs filter"@))
        } else {
            match here[i].link {
                Some(Link::Via(through, mine, theirs)) => match table_index(schemas, through@) {
                    None => Err((false, "unknown through"@)),
                    Some(t) => match field_index(schemas[t].fields@, theirs@) {
                        None => Err((false, "unknown through column"@)),
                        Some(c) => match schemas[t].fields@[c].link {
                            Some(Link::To(table, column)) => match table_index(schemas, table@) {
                                None => Err((false, "unknown target"@)),
                                Some(g) => Ok((t, mine@, theirs@, g, column@)),
                            },
                            _ => Err((false, "through column needs references"@)),
                        },
                    },
                },
                _ => Err((false, "many field needs via"@)),
            }
        },
    }
}

pub(crate) fn find_table(schemas: &Vec<Schema>, table: &str) -> (r: Option<usize>)
    ensures
        match r {
            Some(i) => table_index(schemas@, table@) == Some(i as int) && i < schemas@.len(),
            None => table_index(schemas@, table@) is None,
        },
{
    let mut i: usize = 0;
    while i < schemas.len()
        invariant
            i <= schemas@.len(),
            forall|j: int| 0 <= j < i ==> schemas@[j].table@ != table@,
        decreases schemas@.len() - i,
    {
        if text::same(schemas[i].table.0, table) {
            proof {
                let k = table_index(schemas@, table@).unwrap();
                assert(k == i as int) by {
                    if k < i {
                    } else if k > i {
                        assert(schemas@[i as int].table@ == table@);
                    }
                }
            }
            return Some(i);
        }
        i = i + 1;
    }
    None
}

fn located(schema: &Schema, name: &str) -> (r: Option<usize>)
    ensures
        match r {
            Some(i) => field_index(schema.fields@, name@) == Some(i as int) && i < schema.fields@.len(),
            None => field_index(schema.fields@, name@) is None,
        },
{
    match schema.locate(name) {
        Some(i) => {
            proof {
                let k = field_index(schema.fields@, name@).unwrap();
                assert(k == i as int) by {
                    if k < i {
                    } else if k > i {
                        assert(schema.fields@[i as int].name@ == name@);
                    }
                }
            }
            Some(i)
        },
        None => None,
    }
}

fn value_error(m: &str) -> (r: StoreError)
    ensures
        fault_is(r, (false, m@)),
{
    StoreError::Value(text::owned(m))
}

/// Where the many-to-many field of `here` leads: the link table and its two columns, and the
/// target table and the column the link refers to.
pub fn route(here: &Schema, schemas: &Vec<Schema>, field: Name) -> (r: Result<Route, StoreError>)
    ensures
        match route_of(here.fields@, schemas@, field@) {
            Ok(v) => r matches Ok(x) && route_view(x) == v && x.through < schemas@.len()
                && x.target < schemas@.len(),
            Err(f) => r matches Err(e) && fault_is(e, f),
        },
{
    proof {
        reveal_strlit("unknown field");
        reveal_strlit("single field needs filter");
        reveal_strlit("many field needs via");
        reveal_strlit("unknown through");
        reveal_strlit("unknown through column");
        reveal_strlit("through column needs references");
        reveal_strlit("unknown target");
    }
    let i = match located(here, field.0) {
        Some(i) => i,
        None => return Err(value_error("unknown field")),
    };
    let f = &here.fields[i];
    if !crate::spec::many(&f.kind) {
        return Err(StoreError::Unsupported(text::owned("single field needs filter")));
    }
    let (through, mine, theirs) = match &f.link {
        Some(Link::Via(t, m, o)) => (*t, *m, *o),
        _ => return Err(value_error("many field needs via")),
    };
    let t = match find_table(schemas, through.0) {
        Some(t) => t,
        None => return Err(value_error("unknown through")),
    };
    let c = match located(&schemas[t], theirs.0) {
        Some(c) => c,
        None => return Err(value_error("unknown through column")),
    };
    let (table, column) = match schemas[t].fields[c].reference() {
        Some(p) => p,
        None => return Err(value_error("through column needs references")),
    };
    let g = match find_table(schemas, table.0) {
        Some(g) => g,
        None => return Err(value_error("unknown target")),
    };
    Ok(Route { through: t, mine, theirs, target: g, column })
}

/// The read of the link table: the other side's key of every link row whose `mine` column
/// holds this model's key.
pub fn links_query(route: &Route, id: Value) -> (r: Query)
    ensures
        r.tree matches Tree::Leaf(f) && f.field@ == route.mine@ && f.op == Op::Eq && f.value@ == id@,
        r.sort@.len() == 0,
        r.page.count == 0 && r.page.offset == 0,
        r.only matches Only::These(v) && v@.len() == 1 && v@[0]@ == route.theirs@,
        r.mass is None,
{
    Query {
        tree: Tree::Leaf(Filter { field: route.mine, op: Op::Eq, value: id }),
        sort: Vec::new(),
        page: Page::all(),
        only: Only::These(vec![route.theirs]),
        mass: None,
    }
}

/// The first cell of each row, in row order.
pub open spec fn heads(rows: Seq<Row>) -> Seq<Option<Cell>> {
    rows.map_values(|r: Row| if r.values@.len() > 0 { Some(r.values@[0]@) } else { None })
}

/// The distinct non-NULL keys among the first cells, in the order they first occur.
pub open spec fn ids_of(heads: Seq<Option<Cell>>) -> Seq<Cell>
    decreases heads.len(),
{
    if heads.len() == 0 {
        Seq::empty()
    } else {
        let rest = ids_of(heads.drop_last());
        match heads.last() {
            Some(c) => if c is Null || rest.contains(c) { rest } else { rest.push(c) },
            None => rest,
        }
    }
}

/// The keys of `ids_of` are distinct and none is NULL.
pub proof fn ids_distinct(heads: Seq<Option<Cell>>)
    ensures
        forall|i: int, j: int| 0 <= i < j < ids_of(heads).len() ==> ids_of(heads)[i] != ids_of(heads)[j],
        forall|i: int| 0 <= i < ids_of(heads).len() ==> !(ids_of(heads)[i] is Null),
    decreases heads.len(),
{
    if heads.len() > 0 {
        ids_distinct(heads.drop_last());
        let rest = ids_of(heads.drop_last());
        match heads.last() {
            Some(c) => {
                if !(c is Null || rest.contains(c)) {
                    assert forall|i: int, j: int| 0 <= i < j < rest.push(c).len() implies rest.push(c)[i]
                        != rest.push(c)[j] by {
                        if j == rest.len() {
                            assert(rest[i] == rest.push(c)[i]);
                            if rest[i] == c {
                                assert(rest.contains(c));
                            }
                        }
                    }
                }
            },
            None => {},
        }
    }
}

fn holds(ids: &Vec<Value>, v: &Value) -> (r: bool)
    ensures
        r == ids@.map_values(|x: Value| x@).contains(v@),
{
    let ghost cells = ids@.map_values(|x: Value| x@);
    let mut i: usize = 0;
    while i < ids.len()
        invariant
            i <= ids@.len(),
            cells == ids@.map_values(|x: Value| x@),
            forall|j: int| 0 <= j < i ==> cells[j] != v@,
        decreases ids@.len() - i,
    {
        if ids[i].same(v) {
            assert(cells[i as int] == v@);
            return true;
        }
        i = i + 1;
    }
    false
}

/// The keys the link rows point at: the first cell of each row, leaving out NULL and repeats.
pub fn linked_ids(rows: &Vec<Row>) -> (r: Vec<Value>)
    ensures
        r@.map_values(|x: Value| x@) == ids_of(heads(rows@)),
{
    let ghost hs = heads(rows@);
    let mut out: Vec<Value> = Vec::new();
    let mut i: usize = 0;
    while i < rows.len()
        invariant
            i <= rows@.len(),
            hs == heads(rows@),
            out@.map_values(|x: Value| x@) == ids_of(hs.take(i as int)),
        decreases rows@.len() - i,
    {
        assert(hs.take(i as int + 1).drop_last() =~= hs.take(i as int));
        let ghost before = out@;
        match rows[i].get(0) {
            Some(v) => {
                if !v.is_null() && !holds(&out, v) {
                    out.push(v.dup());
                    assert(out@.map_values(|x: Value| x@) =~= before.map_values(|x: Value| x@).push(v@));
                }
            },
            None => {},
        }
        i = i + 1;
    }
    assert(hs.take(rows@.len() as int) =~= hs);
    out
}

/// The condition that the column equals the value.
pub open spec fn is_match(t: Tree, column: Seq<char>, v: Cell) -> bool {
    t matches Tree::Leaf(f) && f.field@ == column && f.op == Op::Eq && f.value@ == v
}

/// The read of the target table: every row whose linked column holds one of the keys, by the
/// target's key ascending; nothing to read when there are no keys.
pub fn target_query(ids: Vec<Value>, target: &Schema, column: Name) -> (r: Option<Query>)
    ensures
        ids@.len() == 0 <==> r is None,
        r matches Some(q) ==> {
            &&& q.tree matches Tree::Or(v) && v@.len() == ids@.len() && forall|i: int| 0 <= i < v@.len()
                ==> is_match(#[trigger] v@[i], column@, ids@[i]@)
            &&& q.sort@.len() == 1 && q.sort@[0].field@ == key_name(target.fields@) && q.sort@[0].order == Order::Asc
            &&& q.page.count == 0 && q.page.offset == 0
            &&& q.only is All
            &&& q.mass is None
        },
{
    if ids.len() == 0 {
        return None;
    }
    let mut leaves: Vec<Tree> = Vec::new();
    let mut i: usize = 0;
    while i < ids.len()
        invariant
            i <= ids@.len(),
            leaves@.len() == i,
            forall|k: int| 0 <= k < i ==> is_match(#[trigger] leaves@[k], column@, ids@[k]@),
        decreases ids@.len() - i,
    {
        leaves.push(Tree::Leaf(Filter { field: column, op: Op::Eq, value: ids[i].dup() }));
        i = i + 1;
    }
    Some(Query {
        tree: Tree::Or(leaves),
        sort: vec![Sort { field: target.key(), order: Order::Asc }],
        page: Page::all(),
        only: Only::All,
        mass: None,
    })
}

} // verus!
