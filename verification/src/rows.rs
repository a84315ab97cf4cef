//! List pages built in memory: which rows a search and the column filters keep, and the order a
//! sort parameter puts them in.

use vstd::prelude::*;

use crate::admin::{day_of, find_float, find_param, float_for, parse_day, raw_for, text, text_of, truthy};
use crate::listing::{lemma_text_total, lemma_text_trans, less, text_lt};
use crate::spec::{field_index, flat_of, Field, Type};
use crate::text::{self, contains, parse_i64};
use crate::value::{lower, lowercase, Cell, Value};

verus! {

broadcast use vstd::seq_lib::group_to_multiset_ensures;

/// The `i`-th cell of a row, if the row has one.
pub open spec fn at(values: Seq<Cell>, i: int) -> Option<Cell> {
    if 0 <= i < values.len() { Some(values[i]) } else { None }
}

/// The bits are a NaN: all exponent bits set and a nonzero fraction.
pub open spec fn nan(bits: u64) -> bool {
    (bits / 0x10_0000_0000_0000) % 0x800 == 0x7ff && bits % 0x10_0000_0000_0000 != 0
}

/// The bits are a zero of either sign.
pub open spec fn zero(bits: u64) -> bool {
    bits % 0x8000_0000_0000_0000 == 0
}

/// IEEE equality of two doubles by their bits: no NaN equals anything, and the two zeros are equal.
pub open spec fn float_eq(a: u64, b: u64) -> bool {
    !nan(a) && !nan(b) && (a == b || (zero(a) && zero(b)))
}

fn same_float(a: u64, b: u64) -> (r: bool)
    ensures
        r == float_eq(a, b),
{
    let na = (a / 0x10_0000_0000_0000) % 0x800 == 0x7ff && a % 0x10_0000_0000_0000 != 0;
    let nb = (b / 0x10_0000_0000_0000) % 0x800 == 0x7ff && b % 0x10_0000_0000_0000 != 0;
    let za = a % 0x8000_0000_0000_0000 == 0;
    let zb = b % 0x8000_0000_0000_0000 == 0;
    !na && !nb && (a == b || (za && zb))
}

/// The UTC day of a timestamp in seconds: whole days since the epoch, rounded down.
pub open spec fn day(at: int) -> int {
    at / 86400
}

fn day_number(at: i64) -> (r: i64)
    ensures
        r as int == day(at as int),
{
    if at >= 0 {
        at / 86400
    } else {
        let m: i64 = -(at + 1);
        let q: i64 = m / 86400;
        assert(at as int / 86400 == -(q as int) - 1) by (nonlinear_arith)
            requires
                m == -(at + 1),
                m >= 0,
                q == m / 86400,
        {
            assert(m == 86400 * q + m % 86400);
            assert(at == 86400 * (-q - 1) + (86399 - m % 86400));
        }
        -q - 1
    }
}

/// Whether a stored cell matches the text of a column filter. `want` is the number the caller
/// read from the text of a float column.
pub open spec fn hit_of(f: Field, value: Option<Cell>, raw: Seq<char>, want: Option<Cell>) -> bool {
    match flat_of(f.kind) {
        Type::Str | Type::Key | Type::Decimal => contains(lower(text_of(value)), lower(raw)),
        Type::Int => match (value, parse_i64(raw)) {
            (Some(Cell::Int(h)), Some(w)) => h == w as int,
            _ => false,
        },
        Type::Moment => match (value, day_of(raw)) {
            (Some(Cell::DateTime(h)), Some(w)) => day(h) == day(w as int),
            _ => false,
        },
        Type::Float => match (value, want) {
            (Some(Cell::Float(h, _)), Some(Cell::Float(w, _))) => float_eq(h, w),
            _ => false,
        },
        Type::Bool => match value {
            Some(Cell::Bool(h)) => h == truthy(raw),
            _ => false,
        },
        _ => true,
    }
}

fn found_in(hay: &str, needle: &str) -> (r: bool)
    ensures
        r == contains(hay@, needle@),
{
    let h = text::chars(hay);
    let n = text::chars(needle);
    text::has(h.as_slice(), n.as_slice())
}

fn is_truthy(raw: &str) -> (r: bool)
    ensures
        r == truthy(raw@),
{
    text::same(raw, "1") || text::same(raw, "true") || text::same(raw, "on") || text::same(raw, "yes")
}

fn hit(field: &Field, value: Option<&Value>, raw: &str, want: Option<Value>) -> (r: bool)
    ensures
        r == hit_of(*field, match value { Some(v) => Some(v@), None => None }, raw@, match want {
            Some(w) => Some(w@),
            None => None,
        }),
{
    match field.kind.flat() {
        Type::Str | Type::Key | Type::Decimal => {
            let shown = text(value);
            let a = lowercase(shown.as_str());
            let b = lowercase(raw);
            found_in(a.as_str(), b.as_str())
        },
        Type::Int => {
            let cs = text::chars(raw);
            match (value, text::parse_int(cs.as_slice())) {
                (Some(Value::Int(h)), Some(w)) => *h == w,
                _ => false,
            }
        },
        Type::Moment => match (value, parse_day(raw)) {
            (Some(Value::DateTime(h)), Some(w)) => day_number(*h) == day_number(w),
            _ => false,
        },
        Type::Float => match (value, want) {
            (Some(Value::Float(h, _)), Some(Value::Float(w, _))) => same_float(*h, w),
            _ => false,
        },
        Type::Bool => match value {
            Some(Value::Bool(h)) => *h == is_truthy(raw),
            _ => false,
        },
        _ => true,
    }
}

/// Some searched column's text, lower-cased, contains the query.
pub open spec fn found(values: Seq<Cell>, query: Seq<char>, find: Seq<usize>) -> bool {
    exists|k: int| 0 <= k < find.len() && contains(lower(text_of(at(values, #[trigger] find[k] as int))), query)
}

/// The field's filter parameter, if it has a non-empty one, lets the row through.
pub open spec fn passes(
    f: Field,
    i: int,
    values: Seq<Cell>,
    params: Seq<(String, String)>,
    floats: Seq<(usize, Value)>,
) -> bool {
    f.kind == Type::Id || raw_for(params, f.name@).len() == 0 || hit_of(
        f,
        at(values, i),
        raw_for(params, f.name@),
        float_for(floats, i),
    )
}

/// Whether a list keeps a row: the query, when there is one, is found in a searched column, and
/// every column filter lets the row through.
pub open spec fn keep_of(
    fields: Seq<Field>,
    values: Seq<Cell>,
    query: Seq<char>,
    params: Seq<(String, String)>,
    find: Seq<usize>,
    floats: Seq<(usize, Value)>,
) -> bool {
    &&& (query.len() == 0 || found(values, query, find))
    &&& forall|i: int| 0 <= i < fields.len() ==> #[trigger] passes(fields[i], i, values, params, floats)
}

fn searched(values: &Vec<Value>, query: &str, find: &Vec<usize>) -> (r: bool)
    ensures
        r == found(values@.map_values(|x: Value| x@), query@, find@),
{
    let ghost cells = values@.map_values(|x: Value| x@);
    let mut k: usize = 0;
    while k < find.len()
        invariant
            k <= find@.len(),
            cells == values@.map_values(|x: Value| x@),
            forall|j: int| 0 <= j < k ==> !contains(lower(text_of(at(cells, #[trigger] find@[j] as int))), query@),
        decreases find@.len() - k,
    {
        let v = cell_at(values, find[k]);
        let shown = text(v);
        let low = lowercase(shown.as_str());
        if found_in(low.as_str(), query) {
            assert(contains(lower(text_of(at(cells, find@[k as int] as int))), query@));
            return true;
        }
        k = k + 1;
    }
    false
}

fn cell_at(values: &Vec<Value>, i: usize) -> (r: Option<&Value>)
    ensures
        match r {
            Some(v) => at(values@.map_values(|x: Value| x@), i as int) == Some(v@),
            None => at(values@.map_values(|x: Value| x@), i as int) is None,
        },
{
    if i < values.len() { Some(&values[i]) } else { None }
}

/// Whether a list keeps a row of values. `query` is the lower-cased search text, `find` the
/// positions of the searched columns, and `floats` the numbers the caller read from the
/// filter texts of float columns, by position.
pub fn keep(
    fields: &Vec<Field>,
    values: &Vec<Value>,
    query: &str,
    params: &Vec<(String, String)>,
    find: &Vec<usize>,
    floats: &Vec<(usize, Value)>,
) -> (r: bool)
    ensures
        r == keep_of(fields@, values@.map_values(|x: Value| x@), query@, params@, find@, floats@),
{
    let ghost cells = values@.map_values(|x: Value| x@);
    if !query.is_empty() && !searched(values, query, find) {
        return false;
    }
    let mut i: usize = 0;
    while i < fields.len()
        invariant
            i <= fields@.len(),
            cells == values@.map_values(|x: Value| x@),
            query@.len() == 0 || found(cells, query@, find@),
            forall|j: int| 0 <= j < i ==> #[trigger] passes(fields@[j], j, cells, params@, floats@),
        decreases fields@.len() - i,
    {
        let f = &fields[i];
        let is_id = match f.kind {
            Type::Id => true,
            _ => false,
        };
        if !is_id {
            let raw = find_param(params, f.name.0);
            if !raw.as_str().is_empty() {
                let want = find_float(floats, i);
                if !hit(f, cell_at(values, i), raw.as_str(), want) {
                    assert(!passes(fields@[i as int], i as int, cells, params@, floats@));
                    return false;
                }
            }
        }
        i = i + 1;
    }
    true
}

/// Whether a cell is missing or NULL.
pub open spec fn absent(c: Option<Cell>) -> bool {
    c is None || c == Some(Cell::Null)
}

/// The sign of a difference: -1, 0 or 1.
pub open spec fn sign(d: int) -> int {
    if d < 0 { -1 } else if d == 0 { 0 } else { 1 }
}

/// The place of a double's bits in the IEEE total order, as an integer.
pub open spec fn float_key(bits: u64) -> int {
    if bits < 0x8000_0000_0000_0000 { bits as int } else { 0x7fff_ffff_ffff_ffff - bits }
}

/// Text order as -1, 0 or 1.
pub open spec fn text_rank(a: Seq<char>, b: Seq<char>) -> int {
    if text_lt(a, b) { -1 } else if a == b { 0 } else { 1 }
}

/// How two cells of a column compare: -1, 0 or 1. Values of one kind compare by value, missing
/// and NULL cells come after all others, and cells of different kinds compare equal.
pub open spec fn rank(a: Option<Cell>, b: Option<Cell>) -> int {
    match (a, b) {
        (Some(Cell::Int(x)), Some(Cell::Int(y))) => sign(x - y),
        (Some(Cell::Float(x, _)), Some(Cell::Float(y, _))) => sign(float_key(x) - float_key(y)),
        (Some(Cell::Str(x)), Some(Cell::Str(y))) => text_rank(x, y),
        (Some(Cell::Bool(x)), Some(Cell::Bool(y))) => if x == y { 0 } else if y { -1 } else { 1 },
        (Some(Cell::DateTime(x)), Some(Cell::DateTime(y))) => sign(x - y),
        _ => if absent(a) && absent(b) { 0 } else if absent(a) { 1 } else if absent(b) { -1 } else { 0 },
    }
}

/// `rank`, or its reverse for a descending sort.
pub open spec fn dir(a: Option<Cell>, b: Option<Cell>, down: bool) -> int {
    if down { -rank(a, b) } else { rank(a, b) }
}

/// Two cells of the same kind.
pub open spec fn alike(a: Cell, b: Cell) -> bool {
    match (a, b) {
        (Cell::Int(_), Cell::Int(_)) => true,
        (Cell::Float(_, _), Cell::Float(_, _)) => true,
        (Cell::Str(_), Cell::Str(_)) => true,
        (Cell::Bool(_), Cell::Bool(_)) => true,
        (Cell::DateTime(_), Cell::DateTime(_)) => true,
        (Cell::Decimal(_), Cell::Decimal(_)) => true,
        _ => false,
    }
}

/// The cell is missing, NULL, or of the kind of `sample`.
pub open spec fn kind_ok(c: Option<Cell>, sample: Cell) -> bool {
    absent(c) || alike(c.unwrap(), sample)
}

/// Every row's cell at the column is missing, NULL, or of the kind of `sample`.
pub open spec fn column_of_kind(rows: Seq<Seq<Cell>>, col: int, sample: Cell) -> bool {
    forall|i: int| 0 <= i < rows.len() ==> kind_ok(at(#[trigger] rows[i], col), sample)
}

/// The rows are in the order of the column, ascending or descending.
pub open spec fn ordered(rows: Seq<Seq<Cell>>, col: int, down: bool) -> bool {
    forall|i: int, j: int| 0 <= i < j < rows.len() ==> dir(at(#[trigger] rows[i], col), at(#[trigger] rows[j], col), down) <= 0
}

/// The cells of each row.
pub open spec fn grid(rows: Seq<Vec<Value>>) -> Seq<Seq<Cell>> {
    rows.map_values(|r: Vec<Value>| r@.map_values(|v: Value| v@))
}

/// Comparing two cells the other way round gives the opposite answer.
pub proof fn rank_flip(a: Option<Cell>, b: Option<Cell>)
    ensures
        rank(a, b) == -rank(b, a),
{
    match (a, b) {
        (Some(Cell::Str(x)), Some(Cell::Str(y))) => {
            lemma_text_total(x, y);
        },
        _ => {},
    }
}

/// Within one kind of cell (with missing and NULL cells), the order is transitive.
pub proof fn rank_trans(a: Option<Cell>, b: Option<Cell>, c: Option<Cell>, sample: Cell)
    requires
        kind_ok(a, sample),
        kind_ok(b, sample),
        kind_ok(c, sample),
        rank(a, b) <= 0,
        rank(b, c) <= 0,
    ensures
        rank(a, c) <= 0,
{
    if !absent(a) && !absent(b) && !absent(c) {
        match (a, b, c) {
            (Some(Cell::Str(x)), Some(Cell::Str(y)), Some(Cell::Str(z))) => {
                lemma_text_total(x, y);
                lemma_text_total(y, z);
                lemma_text_total(x, z);
                if text_lt(x, y) && text_lt(y, z) {
                    lemma_text_trans(x, y, z);
                }
            },
            _ => {},
        }
    }
}

proof fn dir_trans(a: Option<Cell>, b: Option<Cell>, c: Option<Cell>, sample: Cell, down: bool)
    requires
        kind_ok(a, sample),
        kind_ok(b, sample),
        kind_ok(c, sample),
        dir(a, b, down) <= 0,
        dir(b, c, down) <= 0,
    ensures
        dir(a, c, down) <= 0,
{
    if down {
        rank_flip(a, b);
        rank_flip(b, c);
        rank_flip(a, c);
        rank_trans(c, b, a, sample);
    } else {
        rank_trans(a, b, c, sample);
    }
}

fn int_rank(x: i64, y: i64) -> (r: i8)
    ensures
        r as int == sign(x - y),
{
    if x < y { -1 } else if x == y { 0 } else { 1 }
}

fn float_rank(x: u64, y: u64) -> (r: i8)
    ensures
        r as int == sign(float_key(x) - float_key(y)),
{
    let top: u64 = 0x8000_0000_0000_0000;
    if x < top && y < top {
        if x < y { -1 } else if x == y { 0 } else { 1 }
    } else if x >= top && y >= top {
        if y < x { -1 } else if x == y { 0 } else { 1 }
    } else if x < top {
        1
    } else {
        -1
    }
}

/// How two cells of a column compare: -1, 0 or 1.
pub fn compare(one: Option<&Value>, other: Option<&Value>) -> (r: i8)
    ensures
        r as int == rank(match one { Some(v) => Some(v@), None => None }, match other {
            Some(v) => Some(v@),
            None => None,
        }),
{
    match (one, other) {
        (Some(Value::Int(x)), Some(Value::Int(y))) => int_rank(*x, *y),
        (Some(Value::Float(x, _)), Some(Value::Float(y, _))) => float_rank(*x, *y),
        (Some(Value::Str(x)), Some(Value::Str(y))) => {
            if less(x.as_str(), y.as_str()) {
                -1
            } else if text::same(x.as_str(), y.as_str()) {
                0
            } else {
                1
            }
        },
        (Some(Value::Bool(x)), Some(Value::Bool(y))) => {
            if *x == *y {
                0
            } else if *y {
                -1
            } else {
                1
            }
        },
        (Some(Value::DateTime(x)), Some(Value::DateTime(y))) => int_rank(*x, *y),
        _ => {
            let a = match one {
                Some(v) => v.is_null(),
                None => true,
            };
            let b = match other {
                Some(v) => v.is_null(),
                None => true,
            };
            if a && b {
                0
            } else if a {
                1
            } else if b {
                -1
            } else {
                0
            }
        },
    }
}

/// The column a sort parameter names, and whether it sorts descending (a leading `-`).
pub open spec fn sort_field(sort: Seq<char>) -> (Seq<char>, bool) {
    if sort.len() > 0 && sort[0] == '-' {
        (sort.drop_first(), true)
    } else {
        (sort, false)
    }
}

fn position(fields: &Vec<Field>, name: &str) -> (r: Option<usize>)
    ensures
        match r {
            Some(i) => field_index(fields@, name@) == Some(i as int) && i < fields@.len(),
            None => field_index(fields@, name@) is None,
        },
{
    let mut i: usize = 0;
    while i < fields.len()
        invariant
            i <= fields@.len(),
            forall|j: int| 0 <= j < i ==> fields@[j].name@ != name@,
        decreases fields@.len() - i,
    {
        if text::same(fields[i].name.0, name) {
            proof {
                let k = field_index(fields@, name@).unwrap();
                assert(k == i as int) by {
                    if k < i {
                    } else if k > i {
                        assert(fields@[i as int].name@ == name@);
                    }
                }
            }
            return Some(i);
        }
        i = i + 1;
    }
    None
}

proof fn insert_keeps_kind(ov: Seq<Seq<Cell>>, pos: int, xv: Seq<Cell>, col: int, s: Cell)
    requires
        0 <= pos <= ov.len(),
        column_of_kind(ov, col, s),
        kind_ok(at(xv, col), s),
    ensures
        column_of_kind(ov.insert(pos, xv), col, s),
{
    let nv = ov.insert(pos, xv);
    assert forall|i: int| 0 <= i < nv.len() implies kind_ok(at(#[trigger] nv[i], col), s) by {
        if i < pos {
            assert(nv[i] == ov[i]);
        } else if i > pos {
            assert(nv[i] == ov[i - 1]);
        }
    }
}

proof fn insert_keeps_order(ov: Seq<Seq<Cell>>, pos: int, xv: Seq<Cell>, col: int, down: bool, s: Cell)
    requires
        0 <= pos <= ov.len(),
        ordered(ov, col, down),
        column_of_kind(ov, col, s),
        kind_ok(at(xv, col), s),
        forall|a: int| 0 <= a < pos ==> dir(at(#[trigger] ov[a], col), at(xv, col), down) <= 0,
        pos < ov.len() ==> dir(at(ov[pos], col), at(xv, col), down) > 0,
    ensures
        ordered(ov.insert(pos, xv), col, down),
{
    let nv = ov.insert(pos, xv);
    let cx = at(xv, col);
    if pos < ov.len() {
        rank_flip(at(ov[pos], col), cx);
        assert(kind_ok(at(ov[pos], col), s));
    }
    assert forall|a: int, b: int| 0 <= a < b < nv.len() implies dir(at(#[trigger] nv[a], col), at(#[trigger] nv[b], col), down)
        <= 0 by {
        if b < pos {
            assert(nv[a] == ov[a] && nv[b] == ov[b]);
        } else if b == pos {
            assert(nv[a] == ov[a]);
        } else if a == pos {
            assert(nv[b] == ov[b - 1]);
            assert(kind_ok(at(ov[b - 1], col), s));
            assert(dir(cx, at(ov[pos], col), down) < 0);
            if b - 1 > pos {
                assert(dir(at(ov[pos], col), at(ov[b - 1], col), down) <= 0);
                dir_trans(cx, at(ov[pos], col), at(ov[b - 1], col), s, down);
            }
        } else if a < pos {
            assert(nv[a] == ov[a] && nv[b] == ov[b - 1]);
        } else {
            assert(nv[a] == ov[a - 1] && nv[b] == ov[b - 1]);
        }
    }
}

/// The column holds values of one kind (and NULLs).
pub open spec fn uniform_column(rows: Seq<Seq<Cell>>, col: int) -> bool {
    exists|s: Cell| column_of_kind(rows, col, s)
}

/// The rows came out as a rearrangement `p` of the rows that went in (row `k` out is row
/// `p[k]` in); when `strict`, two rows the column does not put strictly apart keep the order
/// they came in.
pub open spec fn stable_rows(out: Seq<Seq<Cell>>, src: Seq<Seq<Cell>>, p: Seq<int>, col: int, down: bool, strict: bool) -> bool {
    &&& p.len() == out.len() && out.len() == src.len()
    &&& forall|k: int| 0 <= k < p.len() ==> 0 <= #[trigger] p[k] < src.len() && out[k] == src[p[k]]
    &&& forall|k: int, l: int| 0 <= k < l < p.len() ==> #[trigger] p[k] != #[trigger] p[l]
    &&& strict ==> forall|k: int, l: int| 0 <= k < l < out.len() ==> dir(at(#[trigger] out[k], col), at(#[trigger] out[l], col), down) < 0
        || p[k] < p[l]
}

proof fn dir_flip(a: Option<Cell>, b: Option<Cell>, down: bool)
    ensures
        dir(a, b, down) == -dir(b, a, down),
{
    rank_flip(a, b);
}

proof fn stable_perm(ov: Seq<Seq<Cell>>, src: Seq<Seq<Cell>>, p: Seq<int>, pos: int, xv: Seq<Cell>)
    requires
        p.len() == ov.len() && ov.len() == src.len(),
        forall|k: int| 0 <= k < p.len() ==> 0 <= #[trigger] p[k] < src.len() && ov[k] == src[p[k]],
        forall|k: int, l: int| 0 <= k < l < p.len() ==> #[trigger] p[k] != #[trigger] p[l],
        0 <= pos <= ov.len(),
    ensures
        ({
            let nv = ov.insert(pos, xv);
            let src2 = src.push(xv);
            let q = p.insert(pos, src.len() as int);
            &&& q.len() == nv.len() && nv.len() == src2.len()
            &&& forall|k: int| 0 <= k < q.len() ==> 0 <= #[trigger] q[k] < src2.len() && nv[k] == src2[q[k]]
            &&& forall|k: int, l: int| 0 <= k < l < q.len() ==> #[trigger] q[k] != #[trigger] q[l]
        }),
{
    let nv = ov.insert(pos, xv);
    let src2 = src.push(xv);
    let q = p.insert(pos, src.len() as int);
    assert forall|k: int| 0 <= k < q.len() implies 0 <= #[trigger] q[k] < src2.len() && nv[k] == src2[q[k]] by {
        if k < pos {
            assert(q[k] == p[k] && nv[k] == ov[k]);
        } else if k > pos {
            assert(q[k] == p[k - 1] && nv[k] == ov[k - 1]);
        }
    }
    assert forall|k: int, l: int| 0 <= k < l < q.len() implies #[trigger] q[k] != #[trigger] q[l] by {
        if k == pos {
            assert(q[l] == p[l - 1]);
        } else if l == pos {
            assert(q[k] == p[k]);
        } else if l < pos {
            assert(q[k] == p[k] && q[l] == p[l]);
        } else if k < pos {
            assert(q[k] == p[k] && q[l] == p[l - 1]);
        } else {
            assert(q[k] == p[k - 1] && q[l] == p[l - 1]);
        }
    }
}

proof fn stable_order(ov: Seq<Seq<Cell>>, src: Seq<Seq<Cell>>, p: Seq<int>, pos: int, xv: Seq<Cell>, col: int, down: bool, s: Cell)
    requires
        p.len() == ov.len() && ov.len() == src.len(),
        forall|k: int| 0 <= k < p.len() ==> 0 <= #[trigger] p[k] < src.len(),
        forall|k: int, l: int| 0 <= k < l < ov.len() ==> dir(at(#[trigger] ov[k], col), at(#[trigger] ov[l], col), down) < 0
            || p[k] < p[l],
        0 <= pos <= ov.len(),
        pos < ov.len() ==> dir(at(ov[pos], col), at(xv, col), down) > 0,
        ordered(ov, col, down),
        column_of_kind(ov, col, s),
        kind_ok(at(xv, col), s),
    ensures
        ({
            let nv = ov.insert(pos, xv);
            let q = p.insert(pos, src.len() as int);
            forall|k: int, l: int| 0 <= k < l < nv.len() ==> dir(at(#[trigger] nv[k], col), at(#[trigger] nv[l], col), down) < 0
                || q[k] < q[l]
        }),
{
    let nv = ov.insert(pos, xv);
    let q = p.insert(pos, src.len() as int);
    let n = src.len() as int;
    let cx = at(xv, col);
    assert forall|k: int, l: int| 0 <= k < l < nv.len() implies dir(at(#[trigger] nv[k], col), at(#[trigger] nv[l], col), down) < 0
        || q[k] < q[l] by {
        if k == pos {
            assert(nv[k] == xv && nv[l] == ov[l - 1]);
            let cb = at(ov[l - 1], col);
            let cp = at(ov[pos], col);
            assert(kind_ok(cb, s) && kind_ok(cp, s));
            dir_flip(cp, cx, down);
            dir_flip(cb, cx, down);
            if dir(cx, cb, down) >= 0 {
                if l - 1 > pos {
                    assert(dir(cp, cb, down) <= 0);
                    dir_trans(cp, cb, cx, s, down);
                }
            }
        } else if l == pos {
            assert(q[k] == p[k] && q[l] == n);
        } else if l < pos {
            assert(q[k] == p[k] && q[l] == p[l] && nv[k] == ov[k] && nv[l] == ov[l]);
        } else if k < pos {
            assert(q[k] == p[k] && q[l] == p[l - 1] && nv[k] == ov[k] && nv[l] == ov[l - 1]);
        } else {
            assert(q[k] == p[k - 1] && q[l] == p[l - 1] && nv[k] == ov[k - 1] && nv[l] == ov[l - 1]);
        }
    }
}

proof fn stable_insert(ov: Seq<Seq<Cell>>, src: Seq<Seq<Cell>>, p: Seq<int>, pos: int, xv: Seq<Cell>, col: int, down: bool, strict: bool, s: Cell)
    requires
        stable_rows(ov, src, p, col, down, strict),
        0 <= pos <= ov.len(),
        pos < ov.len() ==> dir(at(ov[pos], col), at(xv, col), down) > 0,
        strict ==> ordered(ov, col, down) && column_of_kind(ov, col, s) && kind_ok(at(xv, col), s),
    ensures
        stable_rows(ov.insert(pos, xv), src.push(xv), p.insert(pos, src.len() as int), col, down, strict),
{
    stable_perm(ov, src, p, pos, xv);
    if strict {
        stable_order(ov, src, p, pos, xv, col, down, s);
    }
}

fn rank_dir(one: &Vec<Value>, other: &Vec<Value>, col: usize, down: bool) -> (r: i8)
    ensures
        r as int == dir(at(one@.map_values(|v: Value| v@), col as int), at(other@.map_values(|v: Value| v@), col as int), down),
{
    let c = compare(cell_at(one, col), cell_at(other, col));
    if down { -c } else { c }
}

/// Sorts rows by the column a sort parameter names (`name`, or `-name` for descending). Rows
/// stay as they are when the parameter is empty or names no field. The rows that come out are
/// the rows that went in; when the column holds values of one kind (and NULLs), they come out
/// in the column's order, NULLs last when ascending, and rows the column does not tell apart
/// keep the order they came in.
pub fn sort_rows(fields: &Vec<Field>, rows: &mut Vec<Vec<Value>>, sort: &str)
    ensures
        grid(final(rows)@).to_multiset() == grid(old(rows)@).to_multiset(),
        sort@.len() == 0 || field_index(fields@, sort_field(sort@).0) is None ==> final(rows)@ == old(rows)@,
        sort@.len() > 0 ==> match field_index(fields@, sort_field(sort@).0) {
            Some(col) => (forall|s: Cell| column_of_kind(grid(old(rows)@), col, s) ==> ordered(
                grid(final(rows)@),
                col,
                sort_field(sort@).1,
            )) && exists|p: Seq<int>| #[trigger] stable_rows(
                grid(final(rows)@),
                grid(old(rows)@),
                p,
                col,
                sort_field(sort@).1,
                uniform_column(grid(old(rows)@), col),
            ),
            None => true,
        },
{
    if sort.is_empty() {
        return;
    }
    let cs = text::chars(sort);
    let (name, down): (&str, bool) = if cs.len() > 0 && cs[0] == '-' {
        (sort.substring_char(1, cs.len()), true)
    } else {
        (sort, false)
    };
    assert(cs@.len() > 0 && cs@[0] == '-' ==> name@ =~= sort@.drop_first());
    assert((name@, down) == sort_field(sort@));
    let col = match position(fields, name) {
        Some(c) => c,
        None => return,
    };
    let mut src: Vec<Vec<Value>> = Vec::new();
    std::mem::swap(rows, &mut src);
    let ghost start = src@;
    let ghost g = grid(start);
    let total = src.len();
    let mut out: Vec<Vec<Value>> = Vec::new();
    let mut k: usize = 0;
    let ghost uniform = uniform_column(g, col as int);
    let ghost mut perm: Seq<int> = Seq::empty();
    assert(start.skip(0) =~= start);
    assert(g.take(0) =~= Seq::<Seq<Cell>>::empty());
    assert(grid(out@) =~= Seq::<Seq<Cell>>::empty());
    while src.len() > 0
        invariant
            k <= start.len(),
            total == start.len(),
            g == grid(start),
            uniform == uniform_column(g, col as int),
            src@ == start.skip(k as int),
            stable_rows(grid(out@), g.take(k as int), perm, col as int, down, uniform),
            grid(out@).to_multiset() == g.take(k as int).to_multiset(),
            forall|s: Cell| column_of_kind(g, col as int, s) ==> column_of_kind(grid(out@), col as int, s),
            (exists|s: Cell| column_of_kind(g, col as int, s)) ==> ordered(grid(out@), col as int, down),
        decreases src@.len(),
    {
        assert(start.skip(k as int)[0] == start[k as int]);
        let x = src.remove(0);
        assert(src@ =~= start.skip(k as int + 1));
        let ghost xv = x@.map_values(|v: Value| v@);
        assert(g[k as int] == xv);
        let ghost ov = grid(out@);
        let mut pos: usize = 0;
        while pos < out.len() && rank_dir(&out[pos], &x, col, down) <= 0
            invariant
                pos <= out@.len(),
                ov == grid(out@),
                xv == x@.map_values(|v: Value| v@),
                forall|a: int| 0 <= a < pos ==> dir(at(#[trigger] ov[a], col as int), at(xv, col as int), down) <= 0,
            decreases out@.len() - pos,
        {
            pos = pos + 1;
        }
        out.insert(pos, x);
        proof {
            let nv = grid(out@);
            assert(nv =~= ov.insert(pos as int, xv));
            vstd::seq_lib::to_multiset_insert(ov, pos as int, xv);
            assert(g.take(k as int + 1) =~= g.take(k as int).push(xv));
            vstd::seq_lib::to_multiset_build(g.take(k as int), xv);
            assert forall|s: Cell| column_of_kind(g, col as int, s) implies column_of_kind(nv, col as int, s) by {
                assert(kind_ok(at(g[k as int], col as int), s));
                insert_keeps_kind(ov, pos as int, xv, col as int, s);
            }
            if exists|s: Cell| column_of_kind(g, col as int, s) {
                let s = choose|s: Cell| column_of_kind(g, col as int, s);
                assert(kind_ok(at(g[k as int], col as int), s));
                insert_keeps_order(ov, pos as int, xv, col as int, down, s);
                stable_insert(ov, g.take(k as int), perm, pos as int, xv, col as int, down, uniform, s);
            } else {
                stable_insert(ov, g.take(k as int), perm, pos as int, xv, col as int, down, uniform, Cell::Null);
            }
            perm = perm.insert(pos as int, k as int);
        }
        k = k + 1;
    }
    proof {
        assert(g.take(k as int) =~= g);
        assert(stable_rows(grid(out@), g, perm, col as int, down, uniform));
    }
    *rows = out;
    proof {
        assert(start == old(rows)@);
        assert(stable_rows(grid(rows@), grid(old(rows)@), perm, col as int, down, uniform_column(grid(old(rows)@), col as int)));
        let c = field_index(fields@, sort_field(sort@).0).unwrap();
        assert(c == col as int);
        assert(sort_field(sort@).1 == down);
        assert(exists|p: Seq<int>| #[trigger] stable_rows(grid(rows@), grid(old(rows)@), p, c, sort_field(sort@).1,
            uniform_column(grid(old(rows)@), c)));
    }
}


/// A yes/no column filter compares the stored flag with the filter text read as a flag: the row
/// passes exactly when its flag equals whether the text is `1`, `true`, `on` or `yes`. So a
/// false flag passes the filter `0`, and a true flag passes `1`. A row the list keeps passes
/// every such filter.
pub proof fn flag_filter(
    fields: Seq<Field>,
    values: Seq<Cell>,
    query: Seq<char>,
    params: Seq<(String, String)>,
    find: Seq<usize>,
    floats: Seq<(usize, Value)>,
    i: int,
    h: bool,
)
    requires
        0 <= i < fields.len(),
        flat_of(fields[i].kind) == Type::Bool,
        fields[i].kind != Type::Id,
        raw_for(params, fields[i].name@).len() > 0,
        i < values.len() && values[i] == Cell::Bool(h),
    ensures
        ({
            let raw = raw_for(params, fields[i].name@);
            let set = raw == "1"@ || raw == "true"@ || raw == "on"@ || raw == "yes"@;
            &&& passes(fields[i], i, values, params, floats) <==> h == set
            &&& keep_of(fields, values, query, params, find, floats) ==> h == set
            &&& (!h && raw == "0"@) ==> passes(fields[i], i, values, params, floats)
        }),
{
    reveal_strlit("0");
    reveal_strlit("1");
    reveal_strlit("true");
    reveal_strlit("on");
    reveal_strlit("yes");
    assert(at(values, i) == Some(Cell::Bool(h)));
    if keep_of(fields, values, query, params, find, floats) {
        assert(passes(fields[i], i, values, params, floats));
    }
}

} // verus!
