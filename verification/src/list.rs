//! The list page of a model: the searches of the tables its fields refer to, its column heads,
//! rows, filter controls, and the parameters its forms carry along.

use vstd::prelude::*;

use crate::admin::{cell, cells_of, id_of, id_text, text, text_of};
use crate::dialect::texts;
use crate::encoding::pair_texts;
use crate::listing::{head, head_of, href_of, lemma_text_total, lemma_text_trans, less, text_lt, Head};
use crate::pages::Item;
use crate::related::{find_table, table_index};
use crate::spec::{flat_of, is_many, Field, Filter, Link, Name, Only, Op, Page, Query, Schema, Tree, Type};
use crate::text as chars;
use crate::value::{Cell, Row, Value};
use crate::widgets::{filter_input, filter_of};

verus! {

/// The search text of a list: the `q` parameter in lower case, empty without one.
pub open spec fn search_of(params: Seq<(Seq<char>, Seq<char>)>) -> Seq<char> {
    crate::value::lower(match crate::listing::find_value(params, "q"@) {
        Some(q) => q,
        None => Seq::empty(),
    })
}

/// The search text of a list.
pub fn search_text(params: &Vec<(String, String)>) -> (r: String)
    ensures
        r@ == search_of(pair_texts(params@)),
{
    proof { reveal_strlit(""); }
    let q = match crate::listing::lookup(params, "q") {
        Some(q) => q,
        None => String::new(),
    };
    crate::value::lowercase(q.as_str())
}


broadcast use vstd::seq_lib::group_to_multiset_ensures;

/// The names of the text fields, in order: the columns a search of a referred table reads.
pub open spec fn display_of(fields: Seq<Field>) -> Seq<Seq<char>>
    decreases fields.len(),
{
    if fields.len() == 0 {
        Seq::empty()
    } else {
        let rest = display_of(fields.drop_last());
        if flat_of(fields.last().kind) is Str { rest.push(fields.last().name@) } else { rest }
    }
}

/// The table a field refers to, if it refers to one.
pub open spec fn target_of(f: Field) -> Option<Seq<char>> {
    match f.link {
        Some(Link::To(t, _)) => Some(t@),
        _ => None,
    }
}

/// The fields whose referred table has a schema with text fields, with that schema's position.
pub open spec fn searches_of(fields: Seq<Field>, schemas: Seq<Schema>) -> Seq<(int, int)>
    decreases fields.len(),
{
    if fields.len() == 0 {
        Seq::empty()
    } else {
        let rest = searches_of(fields.drop_last(), schemas);
        match target_of(fields.last()) {
            Some(t) => match table_index(schemas, t) {
                Some(s) => if display_of(schemas[s].fields@).len() > 0 { rest.push((fields.len() - 1, s)) } else { rest },
                None => rest,
            },
            None => rest,
        }
    }
}

/// The tree is the leaf `name LIKE %q%`.
pub open spec fn like_leaf(t: Tree, name: Seq<char>, q: Seq<char>) -> bool {
    t matches Tree::Leaf(f) && f.field@ == name && f.op == Op::Like && f.value@ == Cell::Str("%"@ + q + "%"@)
}

/// A search of a referred table that a list query needs: which field refers to it, the
/// schema's position, and the read.
#[derive(Debug)]
pub struct Search {
    /// Position of the referring field.
    pub field: usize,
    /// Position of the referred table's schema.
    pub schema: usize,
    /// The read of the referred rows whose text fields hold the query.
    pub query: Query,
}

fn display(fields: &Vec<Field>, q: &str) -> (r: Vec<Tree>)
    ensures
        r@.len() == display_of(fields@).len(),
        forall|k: int| 0 <= k < r@.len() ==> like_leaf(#[trigger] r@[k], display_of(fields@)[k], q@),
{
    let mut out: Vec<Tree> = Vec::new();
    let mut i: usize = 0;
    while i < fields.len()
        invariant
            i <= fields@.len(),
            out@.len() == display_of(fields@.take(i as int)).len(),
            forall|k: int| 0 <= k < out@.len() ==> like_leaf(#[trigger] out@[k], display_of(fields@.take(i as int))[k], q@),
        decreases fields@.len() - i,
    {
        assert(fields@.take(i as int + 1).drop_last() =~= fields@.take(i as int));
        let is_str = match fields[i].kind.flat() {
            Type::Str => true,
            _ => false,
        };
        if is_str {
            let mut v = chars::owned("%");
            chars::push_str(&mut v, q);
            chars::push_str(&mut v, "%");
            out.push(Tree::Leaf(Filter { field: fields[i].name, op: Op::Like, value: Value::Str(v) }));
        }
        i = i + 1;
    }
    assert(fields@.take(i as int) =~= fields@);
    out
}

/// The searches a list query `q` needs: for each field that refers to a table with text fields,
/// the read of the rows whose text fields hold `q`. None when `q` is empty.
pub fn searches(fields: &Vec<Field>, schemas: &Vec<Schema>, q: &str) -> (r: Vec<Search>)
    ensures
        q@.len() == 0 ==> r@.len() == 0,
        q@.len() > 0 ==> {
            let want = searches_of(fields@, schemas@);
            &&& r@.len() == want.len()
            &&& forall|k: int| 0 <= k < r@.len() ==> {
                let s = want[k].1;
                let names = display_of(schemas@[s].fields@);
                &&& (#[trigger] r@[k]).field as int == want[k].0
                &&& r@[k].schema as int == s
                &&& r@[k].query.tree matches Tree::Or(v) && v@.len() == names.len() && forall|j: int| 0 <= j < v@.len()
                    ==> like_leaf(#[trigger] v@[j], names[j], q@)
                &&& r@[k].query.sort@.len() == 0
                &&& r@[k].query.page.count == 0 && r@[k].query.page.offset == 0
                &&& r@[k].query.only is All
                &&& r@[k].query.mass is None
            }
        },
{
    let mut out: Vec<Search> = Vec::new();
    if q.is_empty() {
        return out;
    }
    let mut i: usize = 0;
    while i < fields.len()
        invariant
            i <= fields@.len(),
            ({
                let want = searches_of(fields@.take(i as int), schemas@);
                &&& out@.len() == want.len()
                &&& forall|k: int| 0 <= k < out@.len() ==> {
                    let s = want[k].1;
                    let names = display_of(schemas@[s].fields@);
                    &&& (#[trigger] out@[k]).field as int == want[k].0
                    &&& out@[k].schema as int == s
                    &&& out@[k].query.tree matches Tree::Or(v) && v@.len() == names.len() && forall|j: int|
                        0 <= j < v@.len() ==> like_leaf(#[trigger] v@[j], names[j], q@)
                    &&& out@[k].query.sort@.len() == 0
                    &&& out@[k].query.page.count == 0 && out@[k].query.page.offset == 0
                    &&& out@[k].query.only is All
                    &&& out@[k].query.mass is None
                }
            }),
        decreases fields@.len() - i,
    {
        assert(fields@.take(i as int + 1).drop_last() =~= fields@.take(i as int));
        assert(fields@.take(i as int + 1).last() == fields@[i as int]);
        match fields[i].reference() {
            Some((table, _)) => {
                match find_table(schemas, table.0) {
                    Some(s) => {
                        let leaves = display(&schemas[s].fields, q);
                        if leaves.len() > 0 {
                            let query = Query {
                                tree: Tree::Or(leaves),
                                sort: Vec::new(),
                                page: Page::all(),
                                only: Only::All,
                                mass: None,
                            };
                            out.push(Search { field: i, schema: s, query });
                        }
                    },
                    None => {},
                }
            },
            None => {},
        }
        i = i + 1;
    }
    assert(fields@.take(i as int) =~= fields@);
    out
}

/// The position of the first key field, if any.
pub open spec fn key_position(fields: Seq<Field>) -> Option<int>
    decreases fields.len(),
{
    if fields.len() == 0 {
        None
    } else {
        match key_position(fields.drop_last()) {
            Some(i) => Some(i),
            None => if flat_of(fields.last().kind) is Id || flat_of(fields.last().kind) is Key {
                Some(fields.len() - 1)
            } else {
                None
            },
        }
    }
}

/// The text of the key of each referred row found by a search: the cell at the first key field
/// (the first cell when there is none).
pub fn key_texts(rows: &Vec<Row>, other: &Schema) -> (r: Vec<String>)
    ensures
        r@.len() == rows@.len(),
        forall|k: int| 0 <= k < r@.len() ==> {
            let pk = match key_position(other.fields@) { Some(p) => p, None => 0 };
            (#[trigger] r@[k])@ == text_of(if pk < rows@[k].values@.len() { Some(rows@[k].values@[pk]@) } else { None })
        },
{
    let mut pk: usize = 0;
    let mut i: usize = 0;
    let mut found = false;
    while i < other.fields.len() && !found
        invariant
            i <= other.fields@.len(),
            found ==> pk < other.fields@.len() && key_position(other.fields@.take(i as int)) == Some(pk as int),
            !found ==> key_position(other.fields@.take(i as int)) is None && pk == 0,
        decreases other.fields@.len() - i,
    {
        assert(other.fields@.take(i as int + 1).drop_last() =~= other.fields@.take(i as int));
        let hit = match other.fields[i].kind.flat() {
            Type::Id | Type::Key => true,
            _ => false,
        };
        if hit {
            pk = i;
            found = true;
        }
        i = i + 1;
    }
    proof {
        key_position_extends(other.fields@, i as int);
    }
    let mut out: Vec<String> = Vec::new();
    let mut k: usize = 0;
    while k < rows.len()
        invariant
            k <= rows@.len(),
            out@.len() == k,
            pk as int == match key_position(other.fields@) { Some(p) => p, None => 0 },
            forall|m: int| 0 <= m < k ==> (#[trigger] out@[m])@ == text_of(
                if pk < rows@[m].values@.len() { Some(rows@[m].values@[pk as int]@) } else { None },
            ),
        decreases rows@.len() - k,
    {
        let v = if pk < rows[k].values.len() { Some(&rows[k].values[pk]) } else { None };
        out.push(text(v));
        k = k + 1;
    }
    out
}

proof fn key_position_extends(fields: Seq<Field>, n: int)
    requires
        0 <= n <= fields.len(),
        n < fields.len() ==> key_position(fields.take(n)) is Some,
    ensures
        key_position(fields) == key_position(fields.take(n)),
    decreases fields.len() - n,
{
    if n < fields.len() {
        assert(fields.take(n + 1).drop_last() =~= fields.take(n));
        key_position_extends(fields, n + 1);
    } else {
        assert(fields.take(n) =~= fields);
    }
}

/// The column heads of a list: one per shown column, with the key's head first when no shown
/// column is the key.
pub fn heads(fields: &Vec<Field>, at: &Vec<usize>, key: Name, sort: &str, bare: &str) -> (r: Vec<Head>)
    requires
        forall|k: int| 0 <= k < at@.len() ==> (#[trigger] at@[k]) < fields@.len(),
    ensures
        ({
            let names = at@.map_values(|i: usize| fields@[i as int].name@);
            let all = if names.contains(key@) { names } else { seq![key@] + names };
            &&& r@.len() == all.len()
            &&& forall|k: int| 0 <= k < r@.len() ==> {
                &&& (#[trigger] r@[k]).name@ == all[k]
                &&& r@[k].marker@ == head_of(all[k], sort@).0
                &&& r@[k].href@ == href_of(bare@, "sort="@ + head_of(all[k], sort@).1)
            }
        }),
{
    let ghost names = at@.map_values(|i: usize| fields@[i as int].name@);
    let mut out: Vec<Head> = Vec::new();
    let mut has_key = false;
    let mut k: usize = 0;
    while k < at.len()
        invariant
            k <= at@.len(),
            names == at@.map_values(|i: usize| fields@[i as int].name@),
            forall|m: int| 0 <= m < at@.len() ==> (#[trigger] at@[m]) < fields@.len(),
            out@.len() == k,
            has_key == names.take(k as int).contains(key@),
            forall|m: int| 0 <= m < k ==> {
                &&& (#[trigger] out@[m]).name@ == names[m]
                &&& out@[m].marker@ == head_of(names[m], sort@).0
                &&& out@[m].href@ == href_of(bare@, "sort="@ + head_of(names[m], sort@).1)
            },
        decreases at@.len() - k,
    {
        let name = fields[at[k]].name;
        let ghost was = has_key;
        if name.is(&key) {
            has_key = true;
        }
        proof {
            let t = names.take(k as int);
            let t1 = names.take(k as int + 1);
            assert(t1 =~= t.push(names[k as int]));
            assert(names[k as int] == name@);
            if t1.contains(key@) {
                let w = choose|w: int| 0 <= w < t1.len() && t1[w] == key@;
                if w < t.len() {
                    assert(t[w] == key@);
                }
            }
            if t.contains(key@) {
                let w = choose|w: int| 0 <= w < t.len() && t[w] == key@;
                assert(t1[w] == key@);
            }
            if name@ == key@ {
                assert(t1[k as int] == key@);
            }
        }
        out.push(head(name.0, sort, bare));
        k = k + 1;
    }
    assert(names.take(k as int) =~= names);
    if !has_key {
        let ghost before = out@;
        out.insert(0, head(key.0, sort, bare));
        proof {
            let all = seq![key@] + names;
            assert forall|m: int| 0 <= m < out@.len() implies {
                &&& (#[trigger] out@[m]).name@ == all[m]
                &&& out@[m].marker@ == head_of(all[m], sort@).0
                &&& out@[m].href@ == href_of(bare@, "sort="@ + head_of(all[m], sort@).1)
            } by {
                if m > 0 {
                    assert(out@[m] == before[m - 1]);
                }
            }
        }
    }
    out
}

/// The rows of a list: each row's key text and the text of its shown cells.
pub fn items(rows: &Vec<Vec<Value>>, fields: &Vec<Field>, at: &Vec<usize>) -> (r: Vec<Item>)
    ensures
        r@.len() == rows@.len(),
        forall|i: int| 0 <= i < r@.len() ==> {
            let cs = cells_of(rows@[i]@);
            &&& (#[trigger] r@[i]).id@ == id_text(cs, fields@)
            &&& r@[i].cells@.len() == at@.len()
            &&& forall|k: int| 0 <= k < at@.len() ==> (#[trigger] r@[i].cells@[k])@ == text_of(
                if (at@[k] as int) < cs.len() { Some(cs[at@[k] as int]) } else { None },
            )
        },
{
    let mut out: Vec<Item> = Vec::new();
    let mut i: usize = 0;
    while i < rows.len()
        invariant
            i <= rows@.len(),
            out@.len() == i,
            forall|j: int| 0 <= j < i ==> {
                let cs = cells_of(rows@[j]@);
                &&& (#[trigger] out@[j]).id@ == id_text(cs, fields@)
                &&& out@[j].cells@.len() == at@.len()
                &&& forall|k: int| 0 <= k < at@.len() ==> (#[trigger] out@[j].cells@[k])@ == text_of(
                    if (at@[k] as int) < cs.len() { Some(cs[at@[k] as int]) } else { None },
                )
            },
        decreases rows@.len() - i,
    {
        let values = &rows[i];
        let id = id_of(values, fields);
        let mut cells: Vec<String> = Vec::new();
        let mut k: usize = 0;
        while k < at.len()
            invariant
                k <= at@.len(),
                values == rows@[i as int],
                cells@.len() == k,
                forall|m: int| 0 <= m < k ==> (#[trigger] cells@[m])@ == text_of(
                    if (at@[m] as int) < cells_of(values@).len() { Some(cells_of(values@)[at@[m] as int]) } else { None },
                ),
            decreases at@.len() - k,
        {
            cells.push(cell(values, at[k]));
            k = k + 1;
        }
        out.push(Item { id, cells });
        i = i + 1;
    }
    out
}

/// The value of the first parameter with the name, empty when there is none.
pub open spec fn param_of(params: Seq<(Seq<char>, Seq<char>)>, name: Seq<char>) -> Seq<char> {
    match crate::listing::find_value(params, name) {
        Some(v) => v,
        None => Seq::empty(),
    }
}

/// The filter controls of a list: one per field that is neither the id nor virtual, showing the
/// field's parameter.
pub open spec fn filters_shown(fields: Seq<Field>, params: Seq<(Seq<char>, Seq<char>)>) -> Seq<Seq<char>>
    decreases fields.len(),
{
    if fields.len() == 0 {
        Seq::empty()
    } else {
        let rest = filters_shown(fields.drop_last(), params);
        let f = fields.last();
        if f.kind == Type::Id || is_many(f.kind) { rest } else { rest.push(filter_of(f, param_of(params, f.name@))) }
    }
}

/// The filter controls of a list.
pub fn filters(fields: &Vec<Field>, params: &Vec<(String, String)>) -> (r: Vec<String>)
    ensures
        texts(r@) == filters_shown(fields@, pair_texts(params@)),
{
    let mut out: Vec<String> = Vec::new();
    let mut i: usize = 0;
    while i < fields.len()
        invariant
            i <= fields@.len(),
            texts(out@) == filters_shown(fields@.take(i as int), pair_texts(params@)),
        decreases fields@.len() - i,
    {
        assert(fields@.take(i as int + 1).drop_last() =~= fields@.take(i as int));
        let f = &fields[i];
        let is_id = match f.kind {
            Type::Id => true,
            _ => false,
        };
        if !is_id && !crate::spec::many(&f.kind) {
            let raw = match crate::listing::lookup(params, f.name.0) {
                Some(v) => v,
                None => {
                    proof {
                        reveal_strlit("");
                    }
                    String::new()
                },
            };
            let shown = filter_input(f, raw.as_str());
            let ghost before = out@;
            out.push(shown);
            assert(texts(out@) =~= texts(before).push(shown@));
        }
        i = i + 1;
    }
    assert(fields@.take(i as int) =~= fields@);
    out
}

/// The parameters a list's forms carry as hidden fields: all but `q`, `sort` and `page`.
pub open spec fn held_of(params: Seq<(Seq<char>, Seq<char>)>) -> Seq<(Seq<char>, Seq<char>)>
    decreases params.len(),
{
    if params.len() == 0 {
        Seq::empty()
    } else {
        let rest = held_of(params.drop_last());
        let n = params.last().0;
        if n == "q"@ || n == "sort"@ || n == "page"@ { rest } else { rest.push(params.last()) }
    }
}

/// The pairs are in name order.
pub open spec fn by_name(s: Seq<(Seq<char>, Seq<char>)>) -> bool {
    forall|i: int, j: int| 0 <= i < j < s.len() ==> !text_lt((#[trigger] s[j]).0, (#[trigger] s[i]).0)
}

/// The parameters a list's forms carry as hidden fields, in name order.
pub fn held(params: &Vec<(String, String)>) -> (r: Vec<(String, String)>)
    ensures
        by_name(pair_texts(r@)),
        pair_texts(r@).to_multiset() == held_of(pair_texts(params@)).to_multiset(),
{
    let ghost all = pair_texts(params@);
    let mut out: Vec<(String, String)> = Vec::new();
    let mut i: usize = 0;
    while i < params.len()
        invariant
            i <= params@.len(),
            all == pair_texts(params@),
            by_name(pair_texts(out@)),
            pair_texts(out@).to_multiset() == held_of(all.take(i as int)).to_multiset(),
        decreases params@.len() - i,
    {
        assert(all.take(i as int + 1).drop_last() =~= all.take(i as int));
        assert(all[i as int] == (params@[i as int].0@, params@[i as int].1@));
        let name = params[i].0.as_str();
        if !(chars::same(name, "q") || chars::same(name, "sort") || chars::same(name, "page")) {
            let x = (params[i].0.clone(), params[i].1.clone());
            let ghost xv = (x.0@, x.1@);
            let ghost ov = pair_texts(out@);
            let mut pos: usize = 0;
            while pos < out.len() && !less(x.0.as_str(), out[pos].0.as_str())
                invariant
                    pos <= out@.len(),
                    ov == pair_texts(out@),
                    xv == (x.0@, x.1@),
                    forall|k: int| 0 <= k < pos ==> !text_lt(xv.0, (#[trigger] ov[k]).0),
                decreases out@.len() - pos,
            {
                pos = pos + 1;
            }
            out.insert(pos, x);
            proof {
                let nv = pair_texts(out@);
                assert(nv =~= ov.insert(pos as int, xv));
                assert forall|a: int, b: int| 0 <= a < b < nv.len() implies !text_lt((#[trigger] nv[b]).0, (#[trigger] nv[a]).0) by {
                    if b < pos {
                        assert(nv[a] == ov[a] && nv[b] == ov[b]);
                    } else if b == pos {
                        assert(nv[a] == ov[a]);
                        lemma_text_total(xv.0, ov[a].0);
                    } else if a == pos {
                        assert(nv[b] == ov[b - 1]);
                        lemma_text_total(xv.0, ov[pos as int].0);
                        lemma_text_total(ov[b - 1].0, xv.0);
                        if text_lt(ov[b - 1].0, xv.0) {
                            if b - 1 > pos {
                                lemma_text_trans(ov[b - 1].0, xv.0, ov[pos as int].0);
                            }
                        }
                    } else if a < pos {
                        assert(nv[a] == ov[a] && nv[b] == ov[b - 1]);
                    } else {
                        assert(nv[a] == ov[a - 1] && nv[b] == ov[b - 1]);
                    }
                }
                vstd::seq_lib::to_multiset_insert(ov, pos as int, xv);
                assert(held_of(all.take(i as int + 1)) == held_of(all.take(i as int)).push(xv));
                vstd::seq_lib::to_multiset_build(held_of(all.take(i as int)), xv);
            }
        } else {
            assert(held_of(all.take(i as int + 1)) == held_of(all.take(i as int)));
        }
        i = i + 1;
    }
    assert(all.take(i as int) =~= all);
    out
}

} // verus!
