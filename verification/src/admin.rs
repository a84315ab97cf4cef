//! The admin site's decisions: cell text, row alignment, list filters and query strings.

use vstd::prelude::*;

use crate::model::Model;
use crate::spec::{field_index, flat_of, is_many, Field, Filter, Name, Op, Tree, Type};
use crate::text::{self, decimal, parse_i64};
use crate::value::{lower, lowercase, Cell, Value};

verus! {

/// The text `"%Y-%m-%d %H:%M"` of a UTC timestamp in seconds, empty outside chrono's range.
pub uninterp spec fn stamp_of(at: i64) -> Seq<char>;

/// Formats a UTC timestamp as `YYYY-MM-DD HH:MM`.
///
/// Trusted: calls `chrono::DateTime::from_timestamp` and `format("%Y-%m-%d %H:%M")`, giving
/// empty text when the timestamp is outside chrono's range. The contract names the result,
/// which depends on the timestamp alone.
#[verifier::external_body]
pub(crate) fn stamp(at: i64) -> (r: String)
    ensures
        r@ == stamp_of(at),
{
    match chrono::DateTime::from_timestamp(at, 0) {
        Some(d) => d.format("%Y-%m-%d %H:%M").to_string(),
        None => String::new(),
    }
}

/// The text a cell is shown as in the admin.
pub open spec fn text_of(v: Option<Cell>) -> Seq<char> {
    match v {
        Some(Cell::Str(s)) => s,
        Some(Cell::Int(n)) => decimal(n),
        Some(Cell::Float(_, shown)) => shown,
        Some(Cell::Bool(b)) => if b { "true"@ } else { "false"@ },
        Some(Cell::DateTime(at)) => stamp_of(at as i64),
        Some(Cell::Decimal(d)) => d,
        _ => Seq::empty(),
    }
}

/// The text a value is shown as in the admin; empty for none or NULL.
pub fn text(value: Option<&Value>) -> (r: String)
    ensures
        r@ == text_of(match value { Some(v) => Some(v@), None => None }),
{
    match value {
        Some(Value::Str(s)) => s.clone(),
        Some(Value::Int(n)) => text::int_text(*n),
        Some(Value::Float(_, shown)) => shown.clone(),
        Some(Value::Bool(b)) => if *b { text::owned("true") } else { text::owned("false") },
        Some(Value::DateTime(at)) => stamp(*at),
        Some(Value::Decimal(d)) => d.clone(),
        _ => {
            proof { reveal_strlit(""); }
            String::new()
        },
    }
}

/// The text of the `i`-th value of a row; empty past its end.
pub fn cell(values: &Vec<Value>, i: usize) -> (r: String)
    ensures
        r@ == text_of(if i < values@.len() { Some(values@[i as int]@) } else { None }),
{
    if i < values.len() { text(Some(&values[i])) } else { text(None) }
}

/// A field holding the row's key: the autoincrement id or a text key.
pub open spec fn is_key_field(f: Field) -> bool {
    flat_of(f.kind) is Id || flat_of(f.kind) is Key
}

/// The position of the first key field.
pub open spec fn key_at(fields: Seq<Field>) -> Option<int>
    decreases fields.len(),
{
    if fields.len() == 0 {
        None
    } else {
        match key_at(fields.drop_last()) {
            Some(i) => Some(i),
            None => if is_key_field(fields.last()) { Some(fields.len() - 1) } else { None },
        }
    }
}

/// The text of a row's key: the value at the first key field when it is an integer or text.
pub open spec fn id_text(values: Seq<Cell>, fields: Seq<Field>) -> Seq<char> {
    match key_at(fields) {
        Some(i) => if i < values.len() {
            match values[i] {
                Cell::Int(n) => decimal(n),
                Cell::Str(s) => s,
                _ => Seq::empty(),
            }
        } else {
            Seq::empty()
        },
        None => Seq::empty(),
    }
}

/// The cells of a row.
pub open spec fn cells_of(values: Seq<Value>) -> Seq<Cell> {
    values.map_values(|v: Value| v@)
}

/// The text of a row's key, as links to the row use it.
pub fn id_of(values: &Vec<Value>, fields: &Vec<Field>) -> (r: String)
    ensures
        r@ == id_text(cells_of(values@), fields@),
{
    let mut i: usize = 0;
    proof { reveal_strlit(""); }
    while i < fields.len()
        invariant
            i <= fields@.len(),
            key_at(fields@.take(i as int)) is None,
        decreases fields@.len() - i,
    {
        assert(fields@.take(i as int + 1).drop_last() =~= fields@.take(i as int));
        let hit = match fields[i].kind.flat() {
            Type::Id | Type::Key => true,
            _ => false,
        };
        if hit {
            proof { lemma_key_extends(fields@, i as int + 1); }
            if i < values.len() {
                return match &values[i] {
                    Value::Int(n) => text::int_text(*n),
                    Value::Str(s) => s.clone(),
                    _ => String::new(),
                };
            }
            return String::new();
        }
        i = i + 1;
    }
    assert(fields@.take(i as int) =~= fields@);
    String::new()
}

proof fn lemma_key_extends(fields: Seq<Field>, n: int)
    requires
        0 <= n <= fields.len(),
        key_at(fields.take(n)) is Some,
    ensures
        key_at(fields) == key_at(fields.take(n)),
    decreases fields.len() - n,
{
    if n < fields.len() {
        assert(fields.take(n + 1).drop_last() =~= fields.take(n));
        lemma_key_extends(fields, n + 1);
    } else {
        assert(fields.take(n) =~= fields);
    }
}

/// A field shown as a list column: stored and not the autoincrement id.
pub open spec fn listed(f: Field) -> bool {
    !(flat_of(f.kind) is Id) && !is_many(f.kind)
}

/// The first position of a listed field with the name.
pub open spec fn listed_at(fields: Seq<Field>, name: Seq<char>) -> Option<int>
    decreases fields.len(),
{
    if fields.len() == 0 {
        None
    } else {
        match listed_at(fields.drop_last(), name) {
            Some(i) => Some(i),
            None => if fields.last().name@ == name && listed(fields.last()) { Some(fields.len() - 1) } else { None },
        }
    }
}

/// The positions of the named listed fields, in the order named, each once.
pub open spec fn located(names: Seq<Name>, fields: Seq<Field>) -> Seq<usize>
    decreases names.len(),
{
    if names.len() == 0 {
        Seq::empty()
    } else {
        let rest = located(names.drop_last(), fields);
        match listed_at(fields, names.last()@) {
            Some(i) => if rest.contains(i as usize) { rest } else { rest.push(i as usize) },
            None => rest,
        }
    }
}

fn listed_position(fields: &Vec<Field>, name: &str) -> (r: Option<usize>)
    ensures
        match r {
            Some(i) => listed_at(fields@, name@) == Some(i as int),
            None => listed_at(fields@, name@) is None,
        },
{
    let mut i: usize = 0;
    while i < fields.len()
        invariant
            i <= fields@.len(),
            listed_at(fields@.take(i as int), name@) is None,
        decreases fields@.len() - i,
    {
        assert(fields@.take(i as int + 1).drop_last() =~= fields@.take(i as int));
        let f = &fields[i];
        let id = match f.kind.flat() {
            Type::Id => true,
            _ => false,
        };
        if text::same(f.name.0, name) && !id && !crate::spec::many(&f.kind) {
            proof { lemma_listed_extends(fields@, name@, i as int + 1); }
            return Some(i);
        }
        i = i + 1;
    }
    assert(fields@.take(i as int) =~= fields@);
    None
}

proof fn lemma_listed_extends(fields: Seq<Field>, name: Seq<char>, n: int)
    requires
        0 <= n <= fields.len(),
        listed_at(fields.take(n), name) is Some,
    ensures
        listed_at(fields, name) == listed_at(fields.take(n), name),
    decreases fields.len() - n,
{
    if n < fields.len() {
        assert(fields.take(n + 1).drop_last() =~= fields.take(n));
        lemma_listed_extends(fields, name, n + 1);
    } else {
        assert(fields.take(n) =~= fields);
    }
}

/// The positions of the named fields that a list shows, in the order named, without repeats.
pub fn locate(names: &Vec<Name>, fields: &Vec<Field>) -> (r: Vec<usize>)
    ensures
        r@ == located(names@, fields@),
{
    let mut out: Vec<usize> = Vec::new();
    let mut i: usize = 0;
    while i < names.len()
        invariant
            i <= names@.len(),
            out@ == located(names@.take(i as int), fields@),
        decreases names@.len() - i,
    {
        assert(names@.take(i as int + 1).drop_last() =~= names@.take(i as int));
        match listed_position(fields, names[i].0) {
            Some(k) => {
                let mut seen = false;
                let mut j: usize = 0;
                while j < out.len()
                    invariant
                        j <= out@.len(),
                        seen <==> exists|t: int| 0 <= t < j && out@[t] == k,
                    decreases out@.len() - j,
                {
                    if out[j] == k {
                        seen = true;
                    }
                    j = j + 1;
                }
                assert(seen <==> out@.contains(k));
                if !seen {
                    out.push(k);
                }
            },
            None => {},
        }
        i = i + 1;
    }
    assert(names@.take(i as int) =~= names@);
    out
}

/// A row against the field list: each stored field takes the next value, NULL once they run
/// out, and each virtual field takes NULL.
pub open spec fn aligned(values: Seq<Cell>, fields: Seq<Field>) -> Seq<Cell>
    decreases fields.len(),
{
    if fields.len() == 0 {
        Seq::empty()
    } else {
        let rest = aligned(values, fields.drop_last());
        let used = stored_count(fields.drop_last());
        if is_many(fields.last().kind) {
            rest.push(Cell::Null)
        } else {
            rest.push(if used < values.len() { values[used as int] } else { Cell::Null })
        }
    }
}

/// How many of the fields are stored columns.
pub open spec fn stored_count(fields: Seq<Field>) -> nat
    decreases fields.len(),
{
    if fields.len() == 0 {
        0
    } else {
        stored_count(fields.drop_last()) + if is_many(fields.last().kind) { 0nat } else { 1nat }
    }
}

/// Scanned values laid out against the field list.
pub fn align(values: &Vec<Value>, fields: &Vec<Field>) -> (r: Vec<Value>)
    ensures
        cells_of(r@) == aligned(cells_of(values@), fields@),
{
    let mut out: Vec<Value> = Vec::new();
    let mut used: usize = 0;
    let mut i: usize = 0;
    while i < fields.len()
        invariant
            i <= fields@.len(),
            used == stored_count(fields@.take(i as int)),
            used <= i,
            cells_of(out@) == aligned(cells_of(values@), fields@.take(i as int)),
        decreases fields@.len() - i,
    {
        assert(fields@.take(i as int + 1).drop_last() =~= fields@.take(i as int));
        let ghost ob = out@;
        if crate::spec::many(&fields[i].kind) {
            out.push(Value::Null);
        } else {
            let v = if used < values.len() { values[used].dup() } else { Value::Null };
            out.push(v);
            used = used + 1;
        }
        assert(cells_of(out@) =~= cells_of(ob).push(out@.last()@));
        i = i + 1;
    }
    assert(fields@.take(i as int) =~= fields@);
    out
}

/// A model's row against the field list, key first: virtual fields take NULL, text keys take
/// their value from the row and are not repeated, the rest take the row's values in order.
pub open spec fn with_id_of(id: Cell, row: Seq<Cell>, fields: Seq<Field>) -> Seq<Cell>
    decreases fields.len(),
{
    if fields.len() == 0 {
        seq![id]
    } else {
        let rest = with_id_of(id, row, fields.drop_last());
        let used = taken_count(fields.drop_last());
        let f = fields.last();
        if flat_of(f.kind) is Id {
            rest
        } else if is_many(f.kind) {
            rest.push(Cell::Null)
        } else if flat_of(f.kind) is Key {
            rest
        } else {
            rest.push(if used < row.len() { row[used as int] } else { Cell::Null })
        }
    }
}

/// How many row values the fields take: every field but the id and the virtual ones.
pub open spec fn taken_count(fields: Seq<Field>) -> nat
    decreases fields.len(),
{
    if fields.len() == 0 {
        0
    } else {
        let f = fields.last();
        taken_count(fields.drop_last()) + if flat_of(f.kind) is Id || is_many(f.kind) { 0nat } else { 1nat }
    }
}

/// A row laid out against the field list with its key first.
pub fn with_id_values(id: Value, row: &Vec<Value>, fields: &Vec<Field>) -> (r: Vec<Value>)
    ensures
        cells_of(r@) == with_id_of(id@, cells_of(row@), fields@),
{
    let mut out: Vec<Value> = Vec::new();
    out.push(id);
    assert(cells_of(out@) =~= seq![id@]);
    let mut used: usize = 0;
    let mut i: usize = 0;
    assert(fields@.take(0) =~= Seq::<Field>::empty());
    while i < fields.len()
        invariant
            i <= fields@.len(),
            used == taken_count(fields@.take(i as int)),
            used <= i,
            cells_of(out@) == with_id_of(id@, cells_of(row@), fields@.take(i as int)),
        decreases fields@.len() - i,
    {
        assert(fields@.take(i as int + 1).drop_last() =~= fields@.take(i as int));
        let ghost ob = out@;
        let f = &fields[i];
        let (is_id, is_key) = match f.kind.flat() {
            Type::Id => (true, false),
            Type::Key => (false, true),
            _ => (false, false),
        };
        if is_id {
        } else if crate::spec::many(&f.kind) {
            out.push(Value::Null);
            assert(cells_of(out@) =~= cells_of(ob).push(Cell::Null));
        } else {
            let v = if used < row.len() { row[used].dup() } else { Value::Null };
            used = used + 1;
            if !is_key {
                out.push(v);
                assert(cells_of(out@) =~= cells_of(ob).push(v@));
            }
        }
        i = i + 1;
    }
    assert(fields@.take(i as int) =~= fields@);
    out
}

/// A model laid out against the field list with its key first.
///
/// The result is the layout of whatever key and row the model gives on this call.
pub fn with_id<M: Model>(model: &M, fields: &Vec<Field>) -> (r: Vec<Value>)
    ensures
        exists|id: Cell, row: Seq<Cell>| cells_of(r@) == with_id_of(id, row, fields@),
{
    let id = model.id();
    let row = model.row();
    with_id_values(id, &row, fields)
}

} // verus!

verus! {

/// The canonical text of the decimal that `rust_decimal` reads from the text, if it reads one.
pub uninterp spec fn decimal_of(raw: Seq<char>) -> Option<Seq<char>>;

/// Reads an exact decimal.
///
/// Trusted: calls `str::parse::<rust_decimal::Decimal>` and, on success, `to_string` of the
/// result. The contract names the outcome, which depends on the text alone.
#[verifier::external_body]
pub(crate) fn parse_decimal(raw: &str) -> (r: Option<String>)
    ensures
        match r {
            Some(d) => decimal_of(raw@) == Some(d@),
            None => decimal_of(raw@) is None,
        },
{
    raw.parse::<rust_decimal::Decimal>().ok().map(|d| d.to_string())
}

/// The UTC midnight, in seconds, of a `YYYY-MM-DD` date that chrono reads from the text.
pub uninterp spec fn day_of(raw: Seq<char>) -> Option<i64>;

/// Reads a `YYYY-MM-DD` date as the timestamp of its UTC midnight.
///
/// Trusted: calls `chrono::NaiveDate::parse_from_str(raw, "%Y-%m-%d")`, then
/// `and_time(NaiveTime::MIN).and_utc().timestamp()`. The contract names the outcome, which
/// depends on the text alone.
#[verifier::external_body]
pub(crate) fn parse_day(raw: &str) -> (r: Option<i64>)
    ensures
        r == day_of(raw@),
{
    chrono::NaiveDate::parse_from_str(raw, "%Y-%m-%d").ok().map(|d| d.and_time(chrono::NaiveTime::MIN).and_utc().timestamp())
}

/// The value of the last parameter with the key (a later one overrides an earlier one, as in
/// a map read from the query), empty when there is none.
pub open spec fn raw_for(params: Seq<(String, String)>, key: Seq<char>) -> Seq<char>
    decreases params.len(),
{
    if params.len() == 0 {
        Seq::empty()
    } else if params.last().0@ == key {
        params.last().1@
    } else {
        raw_for(params.drop_last(), key)
    }
}

/// The value read for the float field at position `i`, if the caller read one.
pub open spec fn float_for(floats: Seq<(usize, Value)>, i: int) -> Option<Cell>
    decreases floats.len(),
{
    if floats.len() == 0 {
        None
    } else if floats[0].0 as int == i {
        Some(floats[0].1@)
    } else {
        float_for(floats.drop_first(), i)
    }
}

/// Text a checkbox filter counts as set.
pub open spec fn truthy(raw: Seq<char>) -> bool {
    raw == "1"@ || raw == "true"@ || raw == "on"@ || raw == "yes"@
}

/// The filter a list parameter puts on a field: none, one that cannot be read, or an operator
/// and value.
pub open spec fn field_filter(f: Field, i: int, raw: Seq<char>, floats: Seq<(usize, Value)>) -> Option<Option<(Op, Cell)>> {
    if f.kind == Type::Id || raw.len() == 0 {
        None
    } else {
        match flat_of(f.kind) {
            Type::Str => Some(Some((Op::Like, Cell::Str("%"@ + lower(raw) + "%"@)))),
            Type::Key => Some(Some((Op::Like, Cell::Str("%"@ + lower(raw) + "%"@)))),
            Type::Decimal => Some(match decimal_of(raw) { Some(d) => Some((Op::Eq, Cell::Decimal(d))), None => None }),
            Type::Int => Some(match parse_i64(raw) { Some(n) => Some((Op::Eq, Cell::Int(n as int))), None => None }),
            Type::Float => Some(match float_for(floats, i) { Some(c) => Some((Op::Eq, c)), None => None }),
            Type::Bool => Some(Some((Op::Eq, Cell::Bool(truthy(raw))))),
            Type::Moment => Some(match day_of(raw) { Some(s) => Some((Op::At, Cell::DateTime(s as int))), None => None }),
            _ => None,
        }
    }
}

/// The leaf filters of the list parameters, field by field, or `None` when one cannot be read.
pub open spec fn filters_of(fields: Seq<Field>, params: Seq<(String, String)>, floats: Seq<(usize, Value)>) -> Option<Seq<(Name, Op, Cell)>>
    decreases fields.len(),
{
    if fields.len() == 0 {
        Some(Seq::empty())
    } else {
        let f = fields.last();
        match filters_of(fields.drop_last(), params, floats) {
            None => None,
            Some(fs) => match field_filter(f, fields.len() - 1, raw_for(params, f.name@), floats) {
                None => Some(fs),
                Some(None) => None,
                Some(Some((op, c))) => Some(fs.push((f.name, op, c))),
            },
        }
    }
}

/// The tree is the leaf `name op cell`.
pub open spec fn leaf_is(t: Tree, l: (Name, Op, Cell)) -> bool {
    t matches Tree::Leaf(f) && f.field == l.0 && f.op == l.1 && f.value@ == l.2
}

/// The related entries that carry ids.
pub open spec fn with_ids(related: Seq<(usize, Vec<String>)>) -> Seq<(usize, Vec<String>)>
    decreases related.len(),
{
    if related.len() == 0 {
        Seq::empty()
    } else {
        let rest = with_ids(related.drop_last());
        if related.last().1@.len() > 0 { rest.push(related.last()) } else { rest }
    }
}

/// The tree is an `Or` of `name = id` leaves, one per id.
pub open spec fn ors_are(t: Tree, name: Name, ids: Seq<String>) -> bool {
    t matches Tree::Or(v) && v@.len() == ids.len()
        && forall|j: int| 0 <= j < ids.len() ==> leaf_is(#[trigger] v@[j], (name, Op::Eq, Cell::Str(ids[j]@)))
}

/// The branches of the free-text search: a match on each searched field, then the rows of
/// related tables whose shown text matched.
pub open spec fn search_ok(sv: Seq<Tree>, fields: Seq<Field>, text: Seq<char>, find: Seq<usize>, related: Seq<(usize, Vec<String>)>) -> bool {
    let rel = with_ids(related);
    &&& sv.len() == find.len() + rel.len()
    &&& forall|j: int| 0 <= j < find.len() ==> leaf_is(#[trigger] sv[j], (fields[find[j] as int].name, Op::Like, Cell::Str("%"@ + text + "%"@)))
    &&& forall|j: int| 0 <= j < rel.len() ==> ors_are(#[trigger] sv[find.len() + j], fields[rel[j].0 as int].name, rel[j].1@)
}

pub(crate) fn find_param(params: &Vec<(String, String)>, key: &str) -> (r: String)
    ensures
        r@ == raw_for(params@, key@),
{
    let mut i: usize = params.len();
    assert(params@.take(params@.len() as int) =~= params@);
    while i > 0
        invariant
            i <= params@.len(),
            raw_for(params@, key@) == raw_for(params@.take(i as int), key@),
        decreases i,
    {
        assert(params@.take(i as int).last() == params@[i - 1]);
        if text::same(params[i - 1].0.as_str(), key) {
            return params[i - 1].1.clone();
        }
        assert(params@.take(i as int).drop_last() =~= params@.take(i - 1));
        i = i - 1;
    }
    proof { reveal_strlit(""); }
    String::new()
}

pub(crate) fn find_float(floats: &Vec<(usize, Value)>, at: usize) -> (r: Option<Value>)
    ensures
        match r {
            Some(v) => float_for(floats@, at as int) == Some(v@),
            None => float_for(floats@, at as int) is None,
        },
{
    let mut i: usize = 0;
    assert(floats@.skip(0) =~= floats@);
    while i < floats.len()
        invariant
            i <= floats@.len(),
            float_for(floats@, at as int) == float_for(floats@.skip(i as int), at as int),
        decreases floats@.len() - i,
    {
        assert(floats@.skip(i as int)[0] == floats@[i as int]);
        if floats[i].0 == at {
            return Some(floats[i].1.dup());
        }
        assert(floats@.skip(i as int).drop_first() =~= floats@.skip(i as int + 1));
        i = i + 1;
    }
    None
}

fn wrap_like(core: &str) -> (r: Value)
    ensures
        r@ == Cell::Str("%"@ + core@ + "%"@),
{
    let mut s = text::owned("%");
    text::push_str(&mut s, core);
    text::push_str(&mut s, "%");
    Value::Str(s)
}

fn is_truthy(raw: &str) -> (r: bool)
    ensures
        r == truthy(raw@),
{
    text::same(raw, "1") || text::same(raw, "true") || text::same(raw, "on") || text::same(raw, "yes")
}

fn filter_for(f: &Field, i: usize, raw: &str, floats: &Vec<(usize, Value)>) -> (r: Option<Option<(Op, Value)>>)
    ensures
        match field_filter(*f, i as int, raw@, floats@) {
            None => r is None,
            Some(None) => r matches Some(None),
            Some(Some((op, c))) => r matches Some(Some((o, v))) && o == op && v@ == c,
        },
{
    let is_id = match f.kind {
        Type::Id => true,
        _ => false,
    };
    if is_id || raw.is_empty() {
        return None;
    }
    match f.kind.flat() {
        Type::Str | Type::Key => {
            let low = lowercase(raw);
            Some(Some((Op::Like, wrap_like(low.as_str()))))
        },
        Type::Decimal => Some(match parse_decimal(raw) {
            Some(d) => Some((Op::Eq, Value::Decimal(d))),
            None => None,
        }),
        Type::Int => {
            let cs = text::chars(raw);
            Some(match text::parse_int(cs.as_slice()) {
                Some(n) => Some((Op::Eq, Value::Int(n))),
                None => None,
            })
        },
        Type::Float => Some(match find_float(floats, i) {
            Some(v) => Some((Op::Eq, v)),
            None => None,
        }),
        Type::Bool => Some(Some((Op::Eq, Value::Bool(is_truthy(raw))))),
        Type::Moment => Some(match parse_day(raw) {
            Some(s) => Some((Op::At, Value::DateTime(s))),
            None => None,
        }),
        _ => None,
    }
}

/// The condition of a list page: a filter for each field the parameters name (strings by
/// lower-cased substring, others by equality, dates by day), then, for non-empty search text,
/// an `Or` of the searched fields and the related rows that matched it. A parameter that
/// cannot be read makes the condition match nothing.
///
/// `floats` holds the values read from the parameters of float fields, by field position.
pub fn tree(
    fields: &Vec<Field>,
    params: &Vec<(String, String)>,
    text_query: &str,
    find: &Vec<usize>,
    related: &Vec<(usize, Vec<String>)>,
    floats: &Vec<(usize, Value)>,
) -> (r: Tree)
    requires
        forall|j: int| 0 <= j < find@.len() ==> (#[trigger] find@[j]) < fields@.len(),
        forall|j: int| 0 <= j < related@.len() ==> (#[trigger] related@[j]).0 < fields@.len(),
    ensures
        match filters_of(fields@, params@, floats@) {
            None => r matches Tree::Or(v) && v@.len() == 0,
            Some(fs) => r matches Tree::And(parts) && ({
                let searching = text_query@.len() > 0 && find@.len() + with_ids(related@).len() > 0;
                &&& parts@.len() == fs.len() + if searching { 1int } else { 0int }
                &&& forall|i: int| 0 <= i < fs.len() ==> leaf_is(#[trigger] parts@[i], fs[i])
                &&& searching ==> (parts@[fs.len() as int] matches Tree::Or(sv)
                    && search_ok(sv@, fields@, text_query@, find@, related@))
            }),
        },
{
    let ghost want = filters_of(fields@, params@, floats@);
    let mut parts: Vec<Tree> = Vec::new();
    let mut i: usize = 0;
    while i < fields.len()
        invariant
            i <= fields@.len(),
            filters_of(fields@.take(i as int), params@, floats@) matches Some(fs) && parts@.len() == fs.len()
                && forall|k: int| 0 <= k < fs.len() ==> leaf_is(#[trigger] parts@[k], fs[k]),
            want == filters_of(fields@, params@, floats@),
        decreases fields@.len() - i,
    {
        assert(fields@.take(i as int + 1).drop_last() =~= fields@.take(i as int));
        let f = &fields[i];
        let raw = find_param(params, f.name.0);
        match filter_for(f, i, raw.as_str(), floats) {
            None => {},
            Some(None) => {
                proof { lemma_filters_fail(fields@, params@, floats@, i as int + 1); }
                return Tree::Or(Vec::new());
            },
            Some(Some((op, value))) => {
                let ghost pb = parts@;
                parts.push(Tree::Leaf(Filter { field: f.name, op, value }));
                proof {
                    let fs = filters_of(fields@.take(i as int), params@, floats@).unwrap();
                    let gs = filters_of(fields@.take(i as int + 1), params@, floats@).unwrap();
                    assert(gs == fs.push((f.name, op, value@)));
                    assert forall|k: int| 0 <= k < gs.len() implies leaf_is(#[trigger] parts@[k], gs[k]) by {
                        if k < fs.len() {
                            assert(parts@[k] == pb[k]);
                        }
                    }
                }
            },
        }
        i = i + 1;
    }
    assert(fields@.take(i as int) =~= fields@);
    let ghost n = parts@.len();
    if !text_query.is_empty() {
        let mut search: Vec<Tree> = Vec::new();
        let mut j: usize = 0;
        while j < find.len()
            invariant
                j <= find@.len(),
                forall|t: int| 0 <= t < find@.len() ==> (#[trigger] find@[t]) < fields@.len(),
                search@.len() == j,
                forall|t: int| 0 <= t < j ==> leaf_is(#[trigger] search@[t], (fields@[find@[t] as int].name, Op::Like, Cell::Str("%"@ + text_query@ + "%"@))),
            decreases find@.len() - j,
        {
            let k = find[j];
            let ghost sb = search@;
            search.push(Tree::Leaf(Filter { field: fields[k].name, op: Op::Like, value: wrap_like(text_query) }));
            assert forall|t: int| 0 <= t < j + 1 implies leaf_is(#[trigger] search@[t], (fields@[find@[t] as int].name, Op::Like, Cell::Str("%"@ + text_query@ + "%"@))) by {
                if t < j {
                    assert(search@[t] == sb[t]);
                }
            }
            j = j + 1;
        }
        let ghost base = find@.len();
        let mut r: usize = 0;
        while r < related.len()
            invariant
                r <= related@.len(),
                base == find@.len(),
                forall|t: int| 0 <= t < related@.len() ==> (#[trigger] related@[t]).0 < fields@.len(),
                search@.len() == base + with_ids(related@.take(r as int)).len(),
                forall|t: int| 0 <= t < base ==> leaf_is(#[trigger] search@[t], (fields@[find@[t] as int].name, Op::Like, Cell::Str("%"@ + text_query@ + "%"@))),
                forall|t: int| 0 <= t < with_ids(related@.take(r as int)).len() ==>
                    ors_are(#[trigger] search@[base + t], fields@[with_ids(related@.take(r as int))[t].0 as int].name, with_ids(related@.take(r as int))[t].1@),
            decreases related@.len() - r,
        {
            assert(related@.take(r as int + 1).drop_last() =~= related@.take(r as int));
            let ids = &related[r].1;
            if ids.len() > 0 {
                let name = fields[related[r].0].name;
                let mut ors: Vec<Tree> = Vec::new();
                let mut t: usize = 0;
                while t < ids.len()
                    invariant
                        t <= ids@.len(),
                        ors@.len() == t,
                        forall|u: int| 0 <= u < t ==> leaf_is(#[trigger] ors@[u], (name, Op::Eq, Cell::Str(ids@[u]@))),
                    decreases ids@.len() - t,
                {
                    let ghost ob = ors@;
                    ors.push(Tree::Leaf(Filter { field: name, op: Op::Eq, value: Value::Str(ids[t].clone()) }));
                    assert forall|u: int| 0 <= u < t + 1 implies leaf_is(#[trigger] ors@[u], (name, Op::Eq, Cell::Str(ids@[u]@))) by {
                        if u < t {
                            assert(ors@[u] == ob[u]);
                        }
                    }
                    t = t + 1;
                }
                let ghost sb = search@;
                search.push(Tree::Or(ors));
                proof {
                    let w = with_ids(related@.take(r as int + 1));
                    let v = with_ids(related@.take(r as int));
                    assert(w == v.push(related@[r as int]));
                    assert forall|t: int| 0 <= t < base implies leaf_is(#[trigger] search@[t], (fields@[find@[t] as int].name, Op::Like, Cell::Str("%"@ + text_query@ + "%"@))) by {
                        assert(search@[t] == sb[t]);
                    }
                    assert forall|t: int| 0 <= t < w.len() implies ors_are(#[trigger] search@[base + t], fields@[w[t].0 as int].name, w[t].1@) by {
                        if t < v.len() {
                            assert(search@[base + t] == sb[base + t]);
                        }
                    }
                }
            }
            r = r + 1;
        }
        assert(related@.take(r as int) =~= related@);
        if search.len() > 0 {
            let ghost pb = parts@;
            parts.push(Tree::Or(search));
            assert forall|k: int| 0 <= k < n implies parts@[k] == pb[k] by {}
        }
    }
    Tree::And(parts)
}

proof fn lemma_filters_fail(fields: Seq<Field>, params: Seq<(String, String)>, floats: Seq<(usize, Value)>, k: int)
    requires
        0 <= k <= fields.len(),
        filters_of(fields.take(k), params, floats) is None,
    ensures
        filters_of(fields, params, floats) is None,
    decreases fields.len() - k,
{
    if k < fields.len() {
        assert(fields.take(k + 1).drop_last() =~= fields.take(k));
        lemma_filters_fail(fields, params, floats, k + 1);
    } else {
        assert(fields.take(k) =~= fields);
    }
}


/// A date filter on a date-time field asks for the whole calendar day: a readable date gives
/// the `At` operator (from the day's first second to the next day's) with the day's start,
/// never equality with that one second. Among the filters of a list page, each date-time
/// field with a readable date brings such a leaf.
pub proof fn date_filter_whole_day(fields: Seq<Field>, params: Seq<(String, String)>, floats: Seq<(usize, Value)>, i: int, start: i64)
    requires
        0 <= i < fields.len(),
        flat_of(fields[i].kind) == Type::Moment,
        fields[i].kind != Type::Id,
        raw_for(params, fields[i].name@).len() > 0,
        day_of(raw_for(params, fields[i].name@)) == Some(start),
    ensures
        field_filter(fields[i], i, raw_for(params, fields[i].name@), floats) == Some(Some((Op::At, Cell::DateTime(start as int)))),
        filters_of(fields, params, floats) matches Some(fs) ==> fs.contains((fields[i].name, Op::At, Cell::DateTime(start as int))),
    decreases fields.len(),
{
    let leaf = (fields[i].name, Op::At, Cell::DateTime(start as int));
    let front = fields.drop_last();
    if i < fields.len() - 1 {
        assert(front[i] == fields[i]);
        date_filter_whole_day(front, params, floats, i, start);
        if filters_of(fields, params, floats) is Some {
            let fs = filters_of(fields, params, floats)->Some_0;
            let gs = filters_of(front, params, floats)->Some_0;
            assert(fs == gs || fs == gs.push(fs.last()));
            assert(gs.contains(leaf));
            let k = choose|k: int| 0 <= k < gs.len() && gs[k] == leaf;
            assert(fs[k] == leaf);
        }
    } else {
        assert(fields.last() == fields[i]);
        if filters_of(fields, params, floats) is Some {
            let fs = filters_of(fields, params, floats)->Some_0;
            assert(fs.last() == leaf);
            assert(fs[fs.len() - 1] == leaf);
        }
    }
}

} // verus!
