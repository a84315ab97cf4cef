//! Typed cell values, rows, columns and store errors.

use vstd::prelude::*;

use crate::text::{self, contains, decimal, int_text};

verus! {

/// A single typed database value.
///
/// Floats are carried as their IEEE-754 bit pattern together with the text
/// `f64`'s `Display` prints for them; timestamps as whole seconds since the
/// Unix epoch (UTC); decimals as their canonical text.
#[derive(Clone, Debug, PartialEq, Eq, Hash)]
pub enum Value {
    /// SQL NULL.
    Null,
    /// Signed 64-bit integer.
    Int(i64),
    /// Double-precision float: bit pattern and display text.
    Float(u64, String),
    /// UTF-8 string.
    Str(String),
    /// Boolean.
    Bool(bool),
    /// UTC timestamp in seconds.
    DateTime(i64),
    /// Exact decimal in its canonical text.
    Decimal(String),
}

/// The abstract content of a [`Value`]: strings taken by their characters.
pub enum Cell {
    Null,
    Int(int),
    Float(u64, Seq<char>),
    Str(Seq<char>),
    Bool(bool),
    DateTime(int),
    Decimal(Seq<char>),
}

impl View for Value {
    type V = Cell;

    open spec fn view(&self) -> Cell {
        match self {
            Value::Null => Cell::Null,
            Value::Int(v) => Cell::Int(*v as int),
            Value::Float(bits, shown) => Cell::Float(*bits, shown@),
            Value::Str(s) => Cell::Str(s@),
            Value::Bool(b) => Cell::Bool(*b),
            Value::DateTime(at) => Cell::DateTime(*at as int),
            Value::Decimal(d) => Cell::Decimal(d@),
        }
    }
}

impl Value {
    /// A [`Value::Str`] holding a copy of the text.
    pub fn str(s: &str) -> (r: Value)
        ensures
            r@ == Cell::Str(s@),
    {
        Value::Str(text::owned(s))
    }

    /// A [`Value::Int`].
    pub fn integer(v: i64) -> (r: Value)
        ensures
            r == Value::Int(v),
    {
        Value::Int(v)
    }

    /// A [`Value::Bool`].
    pub fn bool(v: bool) -> (r: Value)
        ensures
            r == Value::Bool(v),
    {
        Value::Bool(v)
    }

    /// A [`Value::DateTime`] at the given Unix second.
    pub fn datetime(at: i64) -> (r: Value)
        ensures
            r == Value::DateTime(at),
    {
        Value::DateTime(at)
    }

    /// A [`Value::Decimal`] from its canonical text.
    pub fn decimal(text: &str) -> (r: Value)
        ensures
            r@ == Cell::Decimal(text@),
    {
        Value::Decimal(text::owned(text))
    }

    /// A copy of this value with the same content.
    pub fn dup(&self) -> (r: Value)
        ensures
            r@ == self@,
    {
        match self {
            Value::Null => Value::Null,
            Value::Int(v) => Value::Int(*v),
            Value::Float(bits, shown) => Value::Float(*bits, shown.clone()),
            Value::Str(s) => Value::Str(s.clone()),
            Value::Bool(b) => Value::Bool(*b),
            Value::DateTime(at) => Value::DateTime(*at),
            Value::Decimal(d) => Value::Decimal(d.clone()),
        }
    }

    /// Whether two values hold the same content.
    pub fn same(&self, other: &Value) -> (r: bool)
        ensures
            r == (self@ == other@),
    {
        match (self, other) {
            (Value::Null, Value::Null) => true,
            (Value::Int(a), Value::Int(b)) => *a == *b,
            (Value::Float(a, x), Value::Float(b, y)) => *a == *b && text::same(x.as_str(), y.as_str()),
            (Value::Str(a), Value::Str(b)) => text::same(a.as_str(), b.as_str()),
            (Value::Bool(a), Value::Bool(b)) => *a == *b,
            (Value::DateTime(a), Value::DateTime(b)) => *a == *b,
            (Value::Decimal(a), Value::Decimal(b)) => text::same(a.as_str(), b.as_str()),
            _ => false,
        }
    }

    /// Whether this value is SQL NULL.
    pub fn is_null(&self) -> (r: bool)
        ensures
            r == (self@ is Null),
    {
        match self {
            Value::Null => true,
            _ => false,
        }
    }
}

impl<'a> From<&'a String> for Value {
    /// A text value holding a copy of the string.
    fn from(value: &'a String) -> (r: Value) {
        Value::Str(value.clone())
    }
}

impl<'a> vstd::std_specs::convert::FromSpecImpl<&'a String> for Value {
    open spec fn obeys_from_spec() -> bool {
        true
    }

    open spec fn from_spec(v: &'a String) -> Value {
        Value::Str(*v)
    }
}

impl<'a> From<&'a Option<String>> for Value {
    /// A text value holding a copy of the string, or NULL for none.
    fn from(value: &'a Option<String>) -> (r: Value) {
        match value {
            Some(s) => Value::Str(s.clone()),
            None => Value::Null,
        }
    }
}

impl<'a> vstd::std_specs::convert::FromSpecImpl<&'a Option<String>> for Value {
    open spec fn obeys_from_spec() -> bool {
        true
    }

    open spec fn from_spec(v: &'a Option<String>) -> Value {
        match *v {
            Some(s) => Value::Str(s),
            None => Value::Null,
        }
    }
}

/// Text as a SQL string literal: in single quotes, each single quote inside doubled.
pub open spec fn sql_text(s: Seq<char>) -> Seq<char> {
    "'"@ + text::replaced(s, "'"@, "''"@) + "'"@
}

/// The SQL literal for a value, as written in a `DEFAULT` clause.
pub open spec fn literal_of(v: Cell) -> Seq<char> {
    match v {
        Cell::Null => "NULL"@,
        Cell::Int(i) => decimal(i),
        Cell::Float(_, shown) => shown,
        Cell::Str(s) => sql_text(s),
        Cell::Bool(b) => if b { "1"@ } else { "0"@ },
        Cell::DateTime(at) => decimal(at),
        Cell::Decimal(d) => sql_text(d),
    }
}

/// Text as a SQL string literal, each single quote doubled.
fn quote_text(s: &str) -> (r: String)
    ensures
        r@ == sql_text(s@),
{
    proof {
        reveal_strlit("'");
    }
    let inner = text::replace(s, "'", "''");
    let mut out = text::owned("'");
    text::push_str(&mut out, inner.as_str());
    text::push_str(&mut out, "'");
    out
}

impl Value {
    /// This value as a SQL literal for `DEFAULT` columns.
    pub fn literal(&self) -> (r: String)
        ensures
            r@ == literal_of(self@),
    {
        match self {
            Value::Null => text::owned("NULL"),
            Value::Int(v) => int_text(*v),
            Value::Float(_, shown) => shown.clone(),
            Value::Str(s) => quote_text(s.as_str()),
            Value::Bool(b) => if *b { text::owned("1") } else { text::owned("0") },
            Value::DateTime(at) => int_text(*at),
            Value::Decimal(d) => quote_text(d.as_str()),
        }
    }
}


/// How a column's cells map to [`Value`]s when read back.
#[derive(Clone, Copy, Debug, PartialEq, Eq, Structural)]
pub enum ColumnKind {
    /// Integer affinity ([`Value::Int`]).
    Integer,
    /// Floating-point affinity ([`Value::Float`]).
    Real,
    /// Text affinity ([`Value::Str`]).
    Text,
}

/// What `str::to_uppercase` gives for the text.
pub uninterp spec fn upper(s: Seq<char>) -> Seq<char>;

/// Upper-cases text by the Unicode rules of `str::to_uppercase`.
///
/// Trusted: calls `str::to_uppercase`; the contract only names the result,
/// which depends on the text alone.
#[verifier::external_body]
pub(crate) fn uppercase(s: &str) -> (r: String)
    ensures
        r@ == upper(s@),
{
    s.to_uppercase()
}

/// What `str::to_lowercase` gives for the text.
pub uninterp spec fn lower(s: Seq<char>) -> Seq<char>;

/// Lower-cases text by the Unicode rules of `str::to_lowercase`.
///
/// Trusted: calls `str::to_lowercase`; the contract only names the result,
/// which depends on the text alone.
#[verifier::external_body]
pub(crate) fn lowercase(s: &str) -> (r: String)
    ensures
        r@ == lower(s@),
{
    s.to_lowercase()
}

/// The affinity of an SQL type name.
pub open spec fn kind_of_type(raw: Seq<char>) -> ColumnKind {
    let sql = upper(raw);
    if contains(sql, "INT"@) || contains(sql, "BOOL"@) {
        ColumnKind::Integer
    } else if contains(sql, "CHAR"@) || contains(sql, "TEXT"@) {
        ColumnKind::Text
    } else if contains(sql, "REAL"@) || contains(sql, "FLOA"@) || contains(sql, "DOUB"@) {
        ColumnKind::Real
    } else {
        ColumnKind::Text
    }
}

/// Whether the text holds the literal word.
pub fn holds(hay: &[char], word: &str) -> (r: bool)
    ensures
        r == contains(hay@, word@),
{
    let w = text::chars(word);
    text::has(hay, w.as_slice())
}

impl ColumnKind {
    /// Affinity of a field's SQL type name.
    pub fn of(raw: &str) -> (r: ColumnKind)
        ensures
            r == kind_of_type(raw@),
    {
        let sql = uppercase(raw);
        let cs = text::chars(sql.as_str());
        if holds(cs.as_slice(), "INT") || holds(cs.as_slice(), "BOOL") {
            ColumnKind::Integer
        } else if holds(cs.as_slice(), "CHAR") || holds(cs.as_slice(), "TEXT") {
            ColumnKind::Text
        } else if holds(cs.as_slice(), "REAL") || holds(cs.as_slice(), "FLOA") || holds(cs.as_slice(), "DOUB") {
            ColumnKind::Real
        } else {
            ColumnKind::Text
        }
    }
}

/// A single column: name plus affinity kind.
#[derive(Clone, Debug, PartialEq)]
pub struct Column {
    /// Column name.
    pub name: String,
    /// Value affinity of the column.
    pub kind: ColumnKind,
}

/// Errors surfaced by the store, backends, and value conversion.
#[derive(Debug)]
pub enum StoreError {
    /// SQL or driver error.
    Sql(String),
    /// Invalid value, column, or key conversion.
    Value(String),
    /// A lock was poisoned.
    Poison(String),
    /// Streaming or channel error.
    Channel(String),
    /// I/O error.
    Io(String),
    /// Violation of a referenced-row constraint.
    Reference(String),
    /// Operation not supported by the backend.
    Unsupported(String),
}

impl StoreError {
    /// The message the error displays.
    pub open spec fn text(&self) -> Seq<char> {
        match self {
            StoreError::Sql(m) => m@,
            StoreError::Value(m) => m@,
            StoreError::Poison(m) => m@,
            StoreError::Channel(m) => m@,
            StoreError::Io(m) => m@,
            StoreError::Reference(m) => m@,
            StoreError::Unsupported(m) => m@,
        }
    }

    /// The message the error displays (what `to_string` gives).
    pub fn message(&self) -> (r: String)
        ensures
            r@ == self.text(),
    {
        match self {
            StoreError::Sql(m) => m.clone(),
            StoreError::Value(m) => m.clone(),
            StoreError::Poison(m) => m.clone(),
            StoreError::Channel(m) => m.clone(),
            StoreError::Io(m) => m.clone(),
            StoreError::Reference(m) => m.clone(),
            StoreError::Unsupported(m) => m.clone(),
        }
    }
}

/// Whether chrono holds a UTC datetime at the timestamp (seconds since the epoch): from
/// -262143-01-01 00:00:00 to +262142-12-31 23:59:59, chrono's first and last dates.
pub open spec fn moment_ok(at: i64) -> bool {
    -8334601228800 <= at <= 8210266876799
}

/// Whether chrono can hold the timestamp as a UTC datetime.
///
/// Trusted: calls `chrono::DateTime::from_timestamp(at, 0)` and tests for `Some`, which chrono
/// gives exactly for the seconds from its first date (`NaiveDate::MIN`, -262143-01-01) to the
/// end of its last (`NaiveDate::MAX`, +262142-12-31).
#[verifier::external_body]
fn in_range(at: i64) -> (r: bool)
    ensures
        r == moment_ok(at),
{
    chrono::DateTime::from_timestamp(at, 0).is_some()
}

/// `e` is a [`StoreError::Value`] with message `m`.
pub open spec fn is_value_error(e: StoreError, m: Seq<char>) -> bool {
    e matches StoreError::Value(x) && x@ == m
}

/// `"row column {i} not {what}"`.
pub open spec fn not_a(i: nat, what: Seq<char>) -> Seq<char> {
    "row column "@ + text::digits(i) + " not "@ + what
}

/// Cell `i` of a row read as an integer, or the message of the error.
pub open spec fn int_at(v: Seq<Value>, i: int) -> Result<i64, Seq<char>> {
    if 0 <= i < v.len() && v[i] is Int { Ok(v[i]->Int_0) } else { Err(not_a(i as nat, "int"@)) }
}

/// Cell `i` of a row read as text, or the message of the error.
pub open spec fn str_at(v: Seq<Value>, i: int) -> Result<Seq<char>, Seq<char>> {
    if 0 <= i < v.len() && v[i] is Str { Ok(v[i]->Str_0@) } else { Err(not_a(i as nat, "str"@)) }
}

/// Cell `i` of a row read as a boolean (integers count as truthy), or the message of the error.
pub open spec fn bool_at(v: Seq<Value>, i: int) -> Result<bool, Seq<char>> {
    if 0 <= i < v.len() {
        match v[i] {
            Value::Bool(b) => Ok(b),
            Value::Int(n) => Ok(n != 0),
            _ => Err(not_a(i as nat, "bool"@)),
        }
    } else {
        Err(not_a(i as nat, "bool"@))
    }
}

/// Cell `i` of a row read as a timestamp chrono can hold, or the message of the error.
pub open spec fn moment_at(v: Seq<Value>, i: int) -> Result<i64, Seq<char>> {
    if 0 <= i < v.len() {
        match v[i] {
            Value::Int(at) => if moment_ok(at) { Ok(at) } else { Err("bad datetime"@) },
            Value::DateTime(at) => if moment_ok(at) { Ok(at) } else { Err("bad datetime"@) },
            _ => Err(not_a(i as nat, "int"@)),
        }
    } else {
        Err(not_a(i as nat, "int"@))
    }
}

fn column_error(i: usize, what: &str) -> (r: StoreError)
    ensures
        is_value_error(r, not_a(i as nat, what@)),
{
    let mut m = text::owned("row column ");
    let n = text::size_text(i);
    text::push_str(&mut m, n.as_str());
    text::push_str(&mut m, " not ");
    text::push_str(&mut m, what);
    StoreError::Value(m)
}

/// One fetched row, cells aligned with the query's columns.
#[derive(Clone, Debug, PartialEq)]
pub struct Row {
    /// Cell values, one per selected column.
    pub values: Vec<Value>,
}

impl Row {
    /// The cells of the row by content.
    pub open spec fn cells(&self) -> Seq<Cell> {
        self.values@.map_values(|v: Value| v@)
    }

    /// A copy of the row with the same cells.
    pub fn dup(&self) -> (r: Row)
        ensures
            r.cells() == self.cells(),
    {
        let mut values: Vec<Value> = Vec::new();
        let mut i: usize = 0;
        while i < self.values.len()
            invariant
                i <= self.values@.len(),
                values@.map_values(|v: Value| v@) == self.values@.take(i as int).map_values(|v: Value| v@),
            decreases self.values@.len() - i,
        {
            let ghost before = values@;
            values.push(self.values[i].dup());
            assert(values@.map_values(|v: Value| v@) =~= before.map_values(|v: Value| v@).push(self.values@[i as int]@));
            assert(self.values@.take(i as int + 1).map_values(|v: Value| v@)
                =~= self.values@.take(i as int).map_values(|v: Value| v@).push(self.values@[i as int]@));
            i = i + 1;
        }
        assert(self.values@.take(self.values@.len() as int) =~= self.values@);
        Row { values }
    }

    /// Cell at index `i`, if present.
    pub fn get(&self, i: usize) -> (r: Option<&Value>)
        ensures
            i < self.values@.len() ==> r == Some(&self.values@[i as int]),
            i >= self.values@.len() ==> r is None,
    {
        if i < self.values.len() {
            Some(&self.values[i])
        } else {
            None
        }
    }

    /// Cell `i` as `i64`, or [`StoreError::Value`].
    pub fn integer(&self, i: usize) -> (r: Result<i64, StoreError>)
        ensures
            match r {
                Ok(v) => i < self.values@.len() && self.values@[i as int] == Value::Int(v),
                Err(e) => !(i < self.values@.len() && self.values@[i as int] is Int)
                    && is_value_error(e, not_a(i as nat, "int"@)),
            },
    {
        match self.get(i) {
            Some(Value::Int(v)) => Ok(*v),
            _ => Err(column_error(i, "int")),
        }
    }

    /// Cell `i` as a `String`, or [`StoreError::Value`].
    pub fn str(&self, i: usize) -> (r: Result<String, StoreError>)
        ensures
            match r {
                Ok(v) => i < self.values@.len() && self.values@[i as int]@ == Cell::Str(v@),
                Err(e) => !(i < self.values@.len() && self.values@[i as int] is Str)
                    && is_value_error(e, not_a(i as nat, "str"@)),
            },
    {
        match self.get(i) {
            Some(Value::Str(v)) => Ok(v.clone()),
            _ => Err(column_error(i, "str")),
        }
    }

    /// Cell `i` as text, `None` when null, missing or not text.
    pub fn opt_str(&self, i: usize) -> (r: Option<String>)
        ensures
            match r {
                Some(v) => i < self.values@.len() && self.values@[i as int]@ == Cell::Str(v@),
                None => !(i < self.values@.len() && self.values@[i as int] is Str),
            },
    {
        match self.get(i) {
            Some(Value::Str(v)) => Some(v.clone()),
            _ => None,
        }
    }

    /// Cell `i` as `bool` (integers count as truthy), or [`StoreError::Value`].
    pub fn bool(&self, i: usize) -> (r: Result<bool, StoreError>)
        ensures
            match r {
                Ok(b) => i < self.values@.len() && match self.values@[i as int] {
                    Value::Bool(v) => b == v,
                    Value::Int(v) => b == (v != 0),
                    _ => false,
                },
                Err(e) => !(i < self.values@.len() && (self.values@[i as int] is Bool || self.values@[i as int] is Int))
                    && is_value_error(e, not_a(i as nat, "bool"@)),
            },
    {
        match self.get(i) {
            Some(Value::Bool(v)) => Ok(*v),
            Some(Value::Int(v)) => Ok(*v != 0),
            _ => Err(column_error(i, "bool")),
        }
    }

    /// Cell `i` as a UTC timestamp in seconds: an integer or datetime cell that chrono can
    /// hold; [`StoreError::Value`] otherwise.
    pub fn moment(&self, i: usize) -> (r: Result<i64, StoreError>)
        ensures
            match r {
                Ok(at) => i < self.values@.len() && (self.values@[i as int] == Value::Int(at)
                    || self.values@[i as int] == Value::DateTime(at)) && moment_ok(at),
                Err(e) => if i < self.values@.len() && (self.values@[i as int] is Int || self.values@[i as int] is DateTime) {
                    (self.values@[i as int] matches Value::Int(at) ==> !moment_ok(at))
                        && (self.values@[i as int] matches Value::DateTime(at) ==> !moment_ok(at))
                        && is_value_error(e, "bad datetime"@)
                } else {
                    is_value_error(e, not_a(i as nat, "int"@))
                },
            },
    {
        let at = match self.get(i) {
            Some(Value::Int(v)) => *v,
            Some(Value::DateTime(v)) => *v,
            _ => return Err(column_error(i, "int")),
        };
        if in_range(at) {
            Ok(at)
        } else {
            Err(StoreError::Value(text::owned("bad datetime")))
        }
    }

    /// Cell `i` as a float's bit pattern, or [`StoreError::Value`].
    pub fn float(&self, i: usize) -> (r: Result<u64, StoreError>)
        ensures
            match r {
                Ok(bits) => i < self.values@.len() && (self.values@[i as int] matches Value::Float(b, _) && b == bits),
                Err(e) => !(i < self.values@.len() && self.values@[i as int] is Float)
                    && is_value_error(e, not_a(i as nat, "float"@)),
            },
    {
        match self.get(i) {
            Some(Value::Float(bits, _)) => Ok(*bits),
            _ => Err(column_error(i, "float")),
        }
    }
}

/// A row key: autoincrement id or text key.
#[derive(Clone, Debug, PartialEq)]
pub enum Key {
    /// Autoincrement `id` key.
    Int(i64),
    /// Custom text key.
    Text(String),
}

impl Key {
    /// The value a key stands for.
    pub open spec fn cell(&self) -> Cell {
        match self {
            Key::Int(id) => Cell::Int(*id as int),
            Key::Text(t) => Cell::Str(t@),
        }
    }

    /// Converts a [`Value`] into a key; only integers and text are keys.
    pub fn of(value: &Value) -> (r: Result<Key, StoreError>)
        ensures
            match r {
                Ok(k) => (value is Int || value is Str) && k.cell() == value@,
                Err(e) => !(value is Int || value is Str)
                    && is_value_error(e, "bad key"@),
            },
    {
        match value {
            Value::Int(id) => Ok(Key::Int(*id)),
            Value::Str(t) => Ok(Key::Text(t.clone())),
            _ => Err(StoreError::Value(text::owned("bad key"))),
        }
    }

    /// This key as a [`Value`].
    pub fn value(&self) -> (r: Value)
        ensures
            r@ == self.cell(),
    {
        match self {
            Key::Int(id) => Value::Int(*id),
            Key::Text(t) => Value::Str(t.clone()),
        }
    }
}

/// A lossless round trip: a key turned into a value and back is the same key.
pub proof fn key_round_trip(k: Key, v: Value, back: Key)
    requires
        v@ == k.cell(),
        back.cell() == v@,
    ensures
        back.cell() == k.cell(),
{
}

} // verus!
