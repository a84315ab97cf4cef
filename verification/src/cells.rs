//! Typed cells written and read one at a time: a writer that captures one value, a writer that
//! collects a row, and a reader whose cursor walks a row as its cells are taken.

use vstd::prelude::*;

use crate::text::{self, digits};
use crate::value::{Cell, StoreError, Value};

verus! {

/// The RFC 3339 text of a UTC timestamp in seconds.
pub uninterp spec fn rfc3339_of(at: i64) -> Seq<char>;

/// A timestamp as RFC 3339 text.
///
/// Trusted: calls `chrono::DateTime::from_timestamp(at, 0)` and `to_rfc3339`, giving empty text
/// for a timestamp outside chrono's range. The contract names the result, which depends on the
/// timestamp alone.
#[verifier::external_body]
fn rfc3339(at: i64) -> (r: String)
    ensures
        r@ == rfc3339_of(at),
{
    match chrono::DateTime::from_timestamp(at, 0) {
        Some(d) => d.to_rfc3339(),
        None => String::new(),
    }
}

/// The contents of a list of values.
pub open spec fn cells_of(v: Seq<Value>) -> Seq<Cell> {
    v.map_values(|x: Value| x@)
}

/// Taking a NULL at `at`: true (moving past it) on a NULL, true (staying) past the end,
/// false (staying) on any other cell.
pub open spec fn null_step(cs: Seq<Cell>, at: int) -> (bool, int) {
    if at < cs.len() {
        if cs[at] is Null { (true, at + 1) } else { (false, at) }
    } else {
        (true, at)
    }
}

/// Taking an integer at `at`: an integer, a boolean as 0 or 1, or a timestamp's seconds
/// (moving past it); `None` (staying) for anything else.
pub open spec fn int_step(cs: Seq<Cell>, at: int) -> (Option<int>, int) {
    if 0 <= at < cs.len() {
        match cs[at] {
            Cell::Int(v) => (Some(v), at + 1),
            Cell::Bool(b) => (Some(if b { 1int } else { 0int }), at + 1),
            Cell::DateTime(t) => (Some(t), at + 1),
            _ => (None, at),
        }
    } else {
        (None, at)
    }
}

/// Taking text at `at`: a string, a decimal's text, or a timestamp's RFC 3339 text (moving past
/// it); `None` (staying) for anything else.
pub open spec fn str_step(cs: Seq<Cell>, at: int) -> (Option<Seq<char>>, int) {
    if 0 <= at < cs.len() {
        match cs[at] {
            Cell::Str(s) => (Some(s), at + 1),
            Cell::Decimal(d) => (Some(d), at + 1),
            Cell::DateTime(t) => (Some(rfc3339_of(t as i64)), at + 1),
            _ => (None, at),
        }
    } else {
        (None, at)
    }
}

/// The error for a cell that is not of the kind asked for.
pub open spec fn not_kind(at: int, kind: Seq<char>) -> Seq<char> {
    "cell "@ + digits(at as nat) + " not "@ + kind
}

/// A reader over a row: the cursor moves past each cell taken.
pub struct Cells<'a> {
    values: &'a [Value],
    at: usize,
}

impl<'a> Cells<'a> {
    /// The cells of the row.
    pub closed spec fn row(&self) -> Seq<Cell> {
        cells_of(self.values@)
    }

    /// The position of the next cell.
    pub closed spec fn at(&self) -> int {
        self.at as int
    }

    /// A reader at the first cell of the row.
    pub fn new(values: &'a [Value]) -> (r: Cells<'a>)
        ensures
            r.row() == cells_of(values@),
            r.at() == 0,
    {
        Cells { values, at: 0 }
    }

    /// Takes a NULL: whether the next cell is NULL or the row is done.
    pub fn nothing(&mut self) -> (r: bool)
        requires
            old(self).at() <= old(self).row().len(),
        ensures
            final(self).row() == old(self).row(),
            (r, final(self).at()) == null_step(old(self).row(), old(self).at()),
            final(self).at() <= final(self).row().len(),
    {
        if self.at < self.values.len() {
            match &self.values[self.at] {
                Value::Null => {
                    self.at = self.at + 1;
                    true
                },
                _ => false,
            }
        } else {
            true
        }
    }

    /// Takes an integer, or refuses a cell of another kind naming its position.
    pub fn integer(&mut self) -> (r: Result<i64, StoreError>)
        requires
            old(self).at() <= old(self).row().len(),
        ensures
            final(self).row() == old(self).row(),
            final(self).at() == int_step(old(self).row(), old(self).at()).1,
            final(self).at() <= final(self).row().len(),
            match int_step(old(self).row(), old(self).at()).0 {
                Some(v) => r matches Ok(x) && x == v,
                None => r matches Err(StoreError::Value(m)) && m@ == not_kind(old(self).at(), "int"@),
            },
    {
        let at = self.at;
        if at < self.values.len() {
            let got = match &self.values[at] {
                Value::Int(v) => Some(*v),
                Value::Bool(b) => Some(if *b { 1i64 } else { 0i64 }),
                Value::DateTime(t) => Some(*t),
                _ => None,
            };
            if let Some(v) = got {
                self.at = at + 1;
                return Ok(v);
            }
        }
        Err(not_a(at, "int"))
    }

    /// Takes text, or refuses a cell of another kind naming its position.
    pub fn str(&mut self) -> (r: Result<String, StoreError>)
        requires
            old(self).at() <= old(self).row().len(),
        ensures
            final(self).row() == old(self).row(),
            final(self).at() == str_step(old(self).row(), old(self).at()).1,
            final(self).at() <= final(self).row().len(),
            match str_step(old(self).row(), old(self).at()).0 {
                Some(s) => r matches Ok(x) && x@ == s,
                None => r matches Err(StoreError::Value(m)) && m@ == not_kind(old(self).at(), "str"@),
            },
    {
        let at = self.at;
        if at < self.values.len() {
            let got = match &self.values[at] {
                Value::Str(s) => Some(s.clone()),
                Value::Decimal(d) => Some(d.clone()),
                Value::DateTime(t) => Some(rfc3339(*t)),
                _ => None,
            };
            if let Some(s) = got {
                self.at = at + 1;
                return Ok(s);
            }
        }
        Err(not_a(at, "str"))
    }
}

fn not_a(at: usize, kind: &str) -> (r: StoreError)
    ensures
        r matches StoreError::Value(m) && m@ == not_kind(at as int, kind@),
{
    let mut m = text::owned("cell ");
    let n = text::size_text(at);
    text::push_str(&mut m, n.as_str());
    text::push_str(&mut m, " not ");
    text::push_str(&mut m, kind);
    StoreError::Value(m)
}

/// A writer that captures the last value written.
pub struct Gather {
    value: Value,
}

impl Gather {
    /// The captured value's content.
    pub closed spec fn held(&self) -> Cell {
        self.value@
    }

    /// An empty gather: NULL.
    pub fn new() -> (r: Gather)
        ensures
            r.held() is Null,
    {
        Gather { value: Value::Null }
    }

    /// The captured value.
    pub fn value(self) -> (r: Value)
        ensures
            r@ == self.held(),
    {
        self.value
    }

    /// Writes a NULL.
    pub fn nothing(&mut self)
        ensures
            final(self).held() is Null,
    {
        self.value = Value::Null;
    }

    /// Writes an integer.
    pub fn integer(&mut self, value: i64)
        ensures
            final(self).held() == Cell::Int(value as int),
    {
        self.value = Value::Int(value);
    }

    /// Writes text.
    pub fn str(&mut self, value: &str)
        ensures
            final(self).held() == Cell::Str(value@),
    {
        self.value = Value::Str(text::owned(value));
    }
}

/// A writer that collects every value written, in order.
pub struct Slots {
    values: Vec<Value>,
}

impl Slots {
    /// The contents collected so far.
    pub closed spec fn held(&self) -> Seq<Cell> {
        cells_of(self.values@)
    }

    /// No value yet.
    pub fn new() -> (r: Slots)
        ensures
            r.held() == Seq::<Cell>::empty(),
    {
        Slots { values: Vec::new() }
    }

    /// The values collected.
    pub fn values(self) -> (r: Vec<Value>)
        ensures
            cells_of(r@) == self.held(),
    {
        self.values
    }

    /// Writes a NULL.
    pub fn nothing(&mut self)
        ensures
            final(self).held() == old(self).held().push(Cell::Null),
    {
        self.values.push(Value::Null);
        assert(cells_of(self.values@) =~= old(self).held().push(Cell::Null));
    }

    /// Writes an integer.
    pub fn integer(&mut self, value: i64)
        ensures
            final(self).held() == old(self).held().push(Cell::Int(value as int)),
    {
        self.values.push(Value::Int(value));
        assert(cells_of(self.values@) =~= old(self).held().push(Cell::Int(value as int)));
    }

    /// Writes text.
    pub fn str(&mut self, value: &str)
        ensures
            final(self).held() == old(self).held().push(Cell::Str(value@)),
    {
        let v = Value::Str(text::owned(value));
        self.values.push(v);
        assert(cells_of(self.values@) =~= old(self).held().push(Cell::Str(value@)));
    }
}

/// A row written cell by cell reads back cell by cell: at each position a reader of the kind
/// that was written there gives back the written value and moves one cell on.
pub proof fn written_reads_back(cs: Seq<Cell>, k: int)
    requires
        0 <= k < cs.len(),
    ensures
        cs[k] is Null ==> null_step(cs, k) == (true, k + 1),
        cs[k] matches Cell::Int(v) ==> int_step(cs, k) == (Some(v), k + 1),
        cs[k] matches Cell::Str(s) ==> str_step(cs, k) == (Some(s), k + 1),
        null_step(cs, cs.len() as int) == (true, cs.len() as int),
{
}

} // verus!
