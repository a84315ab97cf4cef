//! Table, column and query specifications shared by every backend.

use vstd::prelude::*;

use crate::text::{self, parse_i64};
use crate::value::{Cell, ColumnKind, Key, Value};

verus! {

/// A table name.
#[derive(Clone, Copy, Debug, PartialEq, Eq, Hash)]
pub struct Table(pub &'static str);

/// A column name.
#[derive(Clone, Copy, Debug, PartialEq, Eq, Hash)]
pub struct Name(pub &'static str);

impl View for Table {
    type V = Seq<char>;

    open spec fn view(&self) -> Seq<char> {
        self.0@
    }
}

impl View for Name {
    type V = Seq<char>;

    open spec fn view(&self) -> Seq<char> {
        self.0@
    }
}

impl Table {
    /// The underlying `&'static str`.
    pub fn as_str(&self) -> (r: &'static str)
        ensures
            r@ == self@,
    {
        self.0
    }
}

impl Name {
    /// The underlying `&'static str`.
    pub fn as_str(&self) -> (r: &'static str)
        ensures
            r@ == self@,
    {
        self.0
    }

    /// Whether two names spell the same column.
    pub fn is(&self, other: &Name) -> (r: bool)
        ensures
            r == (self@ == other@),
    {
        text::same(self.0, other.0)
    }
}

/// The storage type of a column.
#[derive(Debug, PartialEq)]
pub enum Type {
    /// Autoincrement integer primary key.
    Id,
    /// Caller-supplied text primary key.
    Key,
    /// Text.
    Str,
    /// Integer.
    Int,
    /// Float.
    Float,
    /// Boolean.
    Bool,
    /// Timestamp.
    Moment,
    /// Exact decimal.
    Decimal,
    /// Virtual many-to-many column, not stored inline.
    Many,
    /// Nullable variant of the inner type.
    Opt(Box<Type>),
}

/// The type with every optional layer removed.
pub open spec fn flat_of(t: Type) -> Type
    decreases t,
{
    match t {
        Type::Opt(inner) => flat_of(*inner),
        other => other,
    }
}

/// Whether the type is a virtual many-to-many column.
pub open spec fn is_many(t: Type) -> bool {
    flat_of(t) is Many
}

/// Whether the type names a primary key.
pub open spec fn is_primary(t: Type) -> bool {
    flat_of(t) is Id || flat_of(t) is Key
}

impl Type {
    /// The nullable variant of this type.
    pub fn optional(self) -> (r: Type)
        ensures
            r == Type::Opt(Box::new(self)),
    {
        Type::Opt(Box::new(self))
    }

    /// Whether this type is nullable at its outer layer.
    pub fn is_optional(&self) -> (r: bool)
        ensures
            r == (*self is Opt),
    {
        match self {
            Type::Opt(_) => true,
            _ => false,
        }
    }

    /// The type with every optional layer removed.
    pub fn flat(&self) -> (r: &Type)
        ensures
            *r == flat_of(*self),
        decreases self,
    {
        match self {
            Type::Opt(inner) => inner.flat(),
            _ => self,
        }
    }
}

/// Whether the type is a virtual many-to-many column.
pub fn many(kind: &Type) -> (r: bool)
    ensures
        r == is_many(*kind),
{
    match kind.flat() {
        Type::Many => true,
        _ => false,
    }
}

/// The value affinity of a stored type.
pub open spec fn affinity_of(t: Type) -> ColumnKind {
    match flat_of(t) {
        Type::Float => ColumnKind::Real,
        Type::Str | Type::Key | Type::Decimal | Type::Many => ColumnKind::Text,
        _ => ColumnKind::Integer,
    }
}

/// The value affinity of a stored type; virtual columns have none.
pub fn affinity(kind: &Type) -> (r: ColumnKind)
    requires
        !is_many(*kind),
    ensures
        r == affinity_of(*kind),
{
    match kind.flat() {
        Type::Float => ColumnKind::Real,
        Type::Str | Type::Key | Type::Decimal => ColumnKind::Text,
        _ => ColumnKind::Integer,
    }
}

/// A fixed set of (value, label) choices for a field.
#[derive(Clone, Debug, PartialEq)]
pub struct Pick {
    /// Allowed choices; first element is the stored value.
    pub options: &'static [(&'static str, &'static str)],
}

/// A named checkbox constraint.
#[derive(Clone, Debug, PartialEq)]
pub struct Check(pub &'static str);

/// Reference between tables.
#[derive(Clone, Debug, PartialEq)]
pub enum Link {
    /// Direct reference to a column of another table.
    To(Table, Name),
    /// Many-to-many through a join table: table, our column, their column.
    Via(Table, Name, Name),
}

/// Repository-level constraint attached to a [`Schema`].
#[derive(Clone, Debug, PartialEq)]
pub enum Rule {
    /// The named columns must hold equal values across related rows.
    Same(Vec<Name>),
    /// The named column keeps a reference shared by linked rows.
    Hold(Name),
    /// A named checkbox constraint must hold.
    Said(Check),
}

/// Comparison operator for a [`Filter`].
#[derive(Clone, Copy, Debug, PartialEq, Eq, Structural)]
pub enum Op {
    /// Equal.
    Eq,
    /// Not equal.
    Ne,
    /// Strictly greater.
    More,
    /// Strictly less.
    Less,
    /// Within the given calendar day.
    At,
    /// Case-insensitive SQL `LIKE` match.
    Like,
    /// `IS NULL` on the field.
    Bare,
}

/// A leaf condition on one field.
#[derive(Clone, Debug, PartialEq)]
pub struct Filter {
    /// Field to compare.
    pub field: Name,
    /// Comparison operator.
    pub op: Op,
    /// Comparison value.
    pub value: Value,
}

/// Nested query condition.
#[derive(Debug, PartialEq)]
pub enum Tree {
    /// A single leaf filter.
    Leaf(Filter),
    /// All branches must hold.
    And(Vec<Tree>),
    /// At least one branch must hold.
    Or(Vec<Tree>),
    /// Negation of the wrapped branch.
    Cut(Box<Tree>),
}

/// Sort direction.
#[derive(Clone, Copy, Debug, PartialEq, Eq, Structural)]
pub enum Order {
    /// Ascending.
    Asc,
    /// Descending.
    Desc,
}

/// A sort on one field.
#[derive(Clone, Copy, Debug, PartialEq, Eq)]
pub struct Sort {
    /// Field to sort by.
    pub field: Name,
    /// Sort direction.
    pub order: Order,
}

/// Paging window; `count` 0 means no limit.
#[derive(Clone, Copy, Debug, PartialEq, Eq, Structural)]
pub struct Page {
    /// Maximum rows, 0 for all.
    pub count: usize,
    /// Rows to skip.
    pub offset: usize,
}

impl Page {
    /// The full page: no limit, no offset.
    pub fn all() -> (r: Page)
        ensures
            r.count == 0 && r.offset == 0,
    {
        Page { count: 0, offset: 0 }
    }
}

/// Which columns a query returns.
#[derive(Clone, Debug, PartialEq, Eq)]
pub enum Only {
    /// Every physical column.
    All,
    /// Only the named columns.
    These(Vec<Name>),
    /// First matching row, all columns.
    Lone,
}

/// Aggregate over matching rows.
#[derive(Clone, Copy, Debug, PartialEq, Eq)]
pub enum Mass {
    /// Row count.
    Count,
    /// Sum of a column.
    Sum(Name),
    /// Average of a column.
    Mean(Name),
    /// Minimum of a column.
    Low(Name),
    /// Maximum of a column.
    High(Name),
}

/// A full read: condition, sort, page, columns, optional aggregate.
#[derive(Debug, PartialEq)]
pub struct Query {
    /// Root condition.
    pub tree: Tree,
    /// Ordering.
    pub sort: Vec<Sort>,
    /// Paging window.
    pub page: Page,
    /// Columns to return.
    pub only: Only,
    /// Optional aggregate.
    pub mass: Option<Mass>,
}

/// Spec for one column of a schema.
#[derive(Debug)]
pub struct Field {
    /// Column name.
    pub name: Name,
    /// Storage type.
    pub kind: Type,
    /// Unique constraint.
    pub unique: bool,
    /// Indexed column.
    pub index: bool,
    /// Fixed choice list, if any.
    pub pick: Option<Pick>,
    /// Default value, if any.
    pub default: Option<Value>,
    /// Reference to another table, if any.
    pub link: Option<Link>,
}

/// A column of the given name and type with no constraint, choice list, default or link.
pub open spec fn plain_column(name: &'static str, kind: Type) -> Field {
    Field { name: Name(name), kind, unique: false, index: false, pick: None, default: None, link: None }
}

impl Field {
    /// A plain column of the given type with no constraints.
    pub fn new(name: &'static str, kind: Type) -> (r: Field)
        ensures
            r == plain_column(name, kind),
            r.name.0 == name,
            r.kind == kind,
            !r.unique && !r.index,
            r.pick is None && r.default is None && r.link is None,
    {
        Field { name: Name(name), kind, unique: false, index: false, pick: None, default: None, link: None }
    }

    /// The autoincrement `id` primary key column.
    pub fn id() -> (r: Field)
        ensures
            r == plain_column("id", Type::Id),
            r.name@ == "id"@,
            r.kind == Type::Id,
            !r.unique && !r.index,
            r.pick is None && r.default is None && r.link is None,
    {
        Field::new("id", Type::Id)
    }

    /// A caller-supplied text primary key column.
    pub fn key(name: &'static str) -> (r: Field)
        ensures
            r.name.0 == name,
            r.kind == Type::Key,
            !r.unique && !r.index,
            r.pick is None && r.default is None && r.link is None,
    {
        Field::new(name, Type::Key)
    }

    /// Adds a unique constraint.
    pub fn unique(self) -> (r: Field)
        ensures
            r == (Field { unique: true, ..self }),
    {
        Field { unique: true, ..self }
    }

    /// Marks the column indexed.
    pub fn indexed(self) -> (r: Field)
        ensures
            r == (Field { index: true, ..self }),
    {
        Field { index: true, ..self }
    }

    /// Sets a default value.
    pub fn default(self, default: Value) -> (r: Field)
        ensures
            r == (Field { default: Some(default), ..self }),
    {
        Field { default: Some(default), ..self }
    }

    /// Sets a fixed choice list.
    pub fn pick(self, pick: Pick) -> (r: Field)
        ensures
            r == (Field { pick: Some(pick), ..self }),
    {
        Field { pick: Some(pick), ..self }
    }

    /// Sets a [`Link`] to another table.
    pub fn link(self, link: Link) -> (r: Field)
        ensures
            r == (Field { link: Some(link), ..self }),
    {
        Field { link: Some(link), ..self }
    }

    /// Links to another table's column (`"table.column"` or just `"table"`, meaning its `id`).
    pub fn references(self, target: &'static str) -> (r: Field)
        ensures
            ({
                let t = target@;
                match r.link {
                    Some(Link::To(table, column)) => match first_dot(t) {
                        Some(i) => table@ == t.take(i) && column@ == t.skip(i + 1),
                        None => table@ == t && column@ == "id"@,
                    },
                    _ => false,
                }
            }),
            r.name == self.name && r.kind == self.kind && r.unique == self.unique
                && r.index == self.index && r.pick == self.pick && r.default == self.default,
    {
        let cs = text::chars(target);
        let (table, column): (&'static str, &'static str) = match text::position(cs.as_slice(), '.') {
            Some(i) => {
                proof {
                    let k = first_dot(target@).unwrap();
                    assert(cs@[i as int] == '.');
                    assert(k == i as int) by {
                        if k < i {
                        } else if k > i {
                            assert(target@[i as int] == '.');
                        }
                    }
                }
                assert(i < cs.len());
                (target.substring_char(0, i), target.substring_char(i + 1, cs.len()))
            },
            None => (target, "id"),
        };
        Field { link: Some(Link::To(Table(table), Name(column))), ..self }
    }

    /// The referenced (table, column) for a direct link, if any.
    pub fn reference(&self) -> (r: Option<(Table, Name)>)
        ensures
            match self.link {
                Some(Link::To(t, n)) => r == Some((t, n)),
                _ => r is None,
            },
    {
        match &self.link {
            Some(Link::To(table, name)) => Some((*table, *name)),
            _ => None,
        }
    }
}

/// The position of the first `.` in the text, if any.
pub open spec fn first_dot(s: Seq<char>) -> Option<int> {
    if exists|i: int| 0 <= i < s.len() && s[i] == '.' {
        Some(choose|i: int| 0 <= i < s.len() && s[i] == '.' && forall|j: int| 0 <= j < i ==> s[j] != '.')
    } else {
        None
    }
}

/// A table definition: name, fields, and rules.
#[derive(Debug)]
pub struct Schema {
    /// Table name.
    pub table: Table,
    /// Column specs.
    pub fields: Vec<Field>,
    /// Constraints.
    pub rules: Vec<Rule>,
}

/// The index of the first primary-key field, if any.
#[verifier::opaque]
pub open spec fn key_index(fields: Seq<Field>) -> Option<int> {
    if exists|i: int| 0 <= i < fields.len() && is_primary(fields[i].kind) {
        Some(choose|i: int| 0 <= i < fields.len() && is_primary(fields[i].kind) && forall|j: int|
            0 <= j < i ==> !is_primary(#[trigger] fields[j].kind))
    } else {
        None
    }
}

/// The name of the key column: the first primary-key field, else `id`.
pub open spec fn key_name(fields: Seq<Field>) -> Seq<char> {
    match key_index(fields) {
        Some(i) => fields[i].name@,
        None => "id"@,
    }
}

/// The affinities of the stored (non-virtual) columns, in field order.
pub open spec fn kinds_of(fields: Seq<Field>) -> Seq<ColumnKind>
    decreases fields.len(),
{
    if fields.len() == 0 {
        Seq::empty()
    } else {
        let rest = kinds_of(fields.drop_last());
        if is_many(fields.last().kind) {
            rest
        } else {
            rest.push(affinity_of(fields.last().kind))
        }
    }
}

impl Schema {
    /// The primary key column name.
    pub fn key(&self) -> (r: Name)
        ensures
            r@ == key_name(self.fields@),
    {
        let mut i: usize = 0;
        while i < self.fields.len()
            invariant
                i <= self.fields@.len(),
                forall|j: int| 0 <= j < i ==> !is_primary(#[trigger] self.fields@[j].kind),
            decreases self.fields@.len() - i,
        {
            let primary = match self.fields[i].kind.flat() {
                Type::Id | Type::Key => true,
                _ => false,
            };
            if primary {
                proof {
                    reveal(key_index);
                    let k = key_index(self.fields@).unwrap();
                    assert(k == i as int) by {
                        if k < i {
                            assert(!is_primary(self.fields@[k].kind));
                        } else if k > i {
                            assert(!is_primary(self.fields@[i as int].kind));
                        }
                    }
                }
                return self.fields[i].name;
            }
            i = i + 1;
        }
        proof {
            reveal(key_index);
        }
        Name("id")
    }

    /// The affinities of the stored columns, in field order.
    pub fn kinds(&self) -> (r: Vec<ColumnKind>)
        ensures
            r@ == kinds_of(self.fields@),
    {
        let mut out: Vec<ColumnKind> = Vec::new();
        let mut i: usize = 0;
        while i < self.fields.len()
            invariant
                i <= self.fields@.len(),
                out@ == kinds_of(self.fields@.take(i as int)),
            decreases self.fields@.len() - i,
        {
            assert(self.fields@.take(i as int + 1).drop_last() =~= self.fields@.take(i as int));
            if !many(&self.fields[i].kind) {
                out.push(affinity(&self.fields[i].kind));
            }
            i = i + 1;
        }
        assert(self.fields@.take(self.fields@.len() as int) =~= self.fields@);
        out
    }

    /// The index of the field with the given name, if any.
    pub fn locate(&self, name: &str) -> (r: Option<usize>)
        ensures
            match r {
                Some(i) => i < self.fields@.len() && self.fields@[i as int].name@ == name@
                    && forall|j: int| 0 <= j < i ==> self.fields@[j].name@ != name@,
                None => forall|j: int| 0 <= j < self.fields@.len() ==> self.fields@[j].name@ != name@,
            },
    {
        let mut i: usize = 0;
        while i < self.fields.len()
            invariant
                i <= self.fields@.len(),
                forall|j: int| 0 <= j < i ==> self.fields@[j].name@ != name@,
            decreases self.fields@.len() - i,
        {
            if text::same(self.fields[i].name.0, name) {
                return Some(i);
            }
            i = i + 1;
        }
        None
    }
}

/// The first field index with the given name, if any.
pub open spec fn field_index(fields: Seq<Field>, name: Seq<char>) -> Option<int> {
    if exists|i: int| 0 <= i < fields.len() && fields[i].name@ == name {
        Some(choose|i: int| 0 <= i < fields.len() && fields[i].name@ == name && forall|j: int|
            0 <= j < i ==> fields[j].name@ != name)
    } else {
        None
    }
}

/// The sort that `-name`/`name` text asks for on this schema.
pub open spec fn sort_for(raw: Seq<char>, fields: Seq<Field>) -> (Seq<char>, Order) {
    let (name, order) = if raw.len() > 0 && raw[0] == '-' {
        (raw.drop_first(), Order::Desc)
    } else {
        (raw, Order::Asc)
    };
    match field_index(fields, name) {
        Some(i) => (fields[i].name@, order),
        None => (key_name(fields), Order::Asc),
    }
}

impl Sort {
    /// Parses `-name`/`name` into a [`Sort`]; unknown fields fall back to the schema key, ascending.
    pub fn parse(raw: &str, schema: &Schema) -> (r: Sort)
        ensures
            (r.field@, r.order) == sort_for(raw@, schema.fields@),
    {
        let cs = text::chars(raw);
        let (name, order): (&str, Order) = if cs.len() > 0 && cs[0] == '-' {
            (raw.substring_char(1, cs.len()), Order::Desc)
        } else {
            (raw, Order::Asc)
        };
        assert(cs@.len() > 0 && cs@[0] == '-' ==> name@ =~= raw@.drop_first());
        match schema.locate(name) {
            Some(i) => {
                proof {
                    let k = field_index(schema.fields@, name@).unwrap();
                    assert(k == i as int) by {
                        if k < i {
                        } else if k > i {
                            assert(schema.fields@[i as int].name@ == name@);
                        }
                    }
                }
                Sort { field: schema.fields[i].name, order }
            },
            None => Sort { field: schema.key(), order: Order::Asc },
        }
    }
}

/// Field `i` is a text key column named like the schema key.
pub open spec fn text_key_at(fields: Seq<Field>, i: int) -> bool {
    flat_of(fields[i].kind) is Key && fields[i].name@ == key_name(fields)
}

/// Whether the schema's key column is a caller-supplied text key.
pub open spec fn text_keyed(fields: Seq<Field>) -> bool {
    exists|i: int| 0 <= i < fields.len() && #[trigger] text_key_at(fields, i)
}

/// The key that raw text names on this schema.
pub open spec fn key_for(raw: Seq<char>, fields: Seq<Field>) -> Cell {
    if text_keyed(fields) {
        Cell::Str(raw)
    } else {
        match parse_i64(raw) {
            Some(id) => Cell::Int(id as int),
            None => Cell::Str(raw),
        }
    }
}

impl Key {
    /// Parses raw text into a key: text when the schema is keyed by text, else int-or-text.
    pub fn parse(raw: &str, schema: &Schema) -> (r: Key)
        ensures
            r.cell() == key_for(raw@, schema.fields@),
    {
        let key = schema.key();
        let mut keyed = false;
        let mut i: usize = 0;
        while i < schema.fields.len()
            invariant
                i <= schema.fields@.len(),
                key@ == key_name(schema.fields@),
                keyed ==> text_keyed(schema.fields@),
                !keyed ==> forall|j: int| 0 <= j < i ==> !#[trigger] text_key_at(schema.fields@, j),
            decreases schema.fields@.len() - i,
        {
            let is_key = match schema.fields[i].kind.flat() {
                Type::Key => true,
                _ => false,
            };
            if is_key && schema.fields[i].name.is(&key) {
                assert(text_key_at(schema.fields@, i as int));
                keyed = true;
            }
            i = i + 1;
        }
        if keyed {
            return Key::Text(text::owned(raw));
        }
        let cs = text::chars(raw);
        match text::parse_int(cs.as_slice()) {
            Some(id) => Key::Int(id),
            None => Key::Text(text::owned(raw)),
        }
    }
}

} // verus!
