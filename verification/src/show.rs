//! How stored types present themselves: the widget that edits them, parsing and text.

use vstd::prelude::*;

use crate::model::{names_where, searched, Model};
use crate::spec::{plain_column, Field, Table, Type};
use crate::text::{self, decimal, parse_i64};
use crate::value::{int_at, is_value_error, moment_at, str_at, Cell, Row, StoreError, Value};

verus! {

/// How a field is edited.
#[derive(Clone, Copy, Debug, PartialEq, Eq, Structural)]
pub enum Widget {
    /// Plain text input.
    Text,
    /// Integer input.
    Int,
    /// Float input.
    Flt,
    /// Money input.
    Money,
    /// Date input.
    Date,
    /// Checkbox.
    Check,
    /// Select from a fixed set of choices.
    Choice,
}

/// Human presentation of a stored type: widget, parsing and text.
pub trait Show: Sized {
    /// Input widget for this type.
    fn widget() -> Widget;
    /// Parses raw user input.
    fn parse(raw: &str) -> Result<Self, StoreError>;
    /// Renders the value as display text.
    fn text(&self) -> String;
}

fn bad(head: &str, raw: &str) -> (r: StoreError)
    ensures
        r matches StoreError::Value(m) && m@ == head@ + raw@,
{
    let mut m = text::owned(head);
    text::push_str(&mut m, raw);
    StoreError::Value(m)
}

impl Show for i64 {
    fn widget() -> (r: Widget)
        ensures
            r == Widget::Int,
    {
        Widget::Int
    }

    fn parse(raw: &str) -> (r: Result<i64, StoreError>)
        ensures
            match parse_i64(raw@) {
                Some(n) => r == Ok::<i64, StoreError>(n),
                None => r matches Err(StoreError::Value(m)) && m@ == "bad int "@ + raw@,
            },
    {
        let cs = text::chars(raw);
        match text::parse_int(cs.as_slice()) {
            Some(n) => Ok(n),
            None => Err(bad("bad int ", raw)),
        }
    }

    fn text(&self) -> (r: String)
        ensures
            r@ == decimal(*self as int),
    {
        text::int_text(*self)
    }
}

impl Show for String {
    fn widget() -> (r: Widget)
        ensures
            r == Widget::Text,
    {
        Widget::Text
    }

    fn parse(raw: &str) -> (r: Result<String, StoreError>)
        ensures
            r matches Ok(s) && s@ == raw@,
    {
        Ok(text::owned(raw))
    }

    fn text(&self) -> (r: String)
        ensures
            r@ == self@,
    {
        self.clone()
    }
}

/// What a checkbox field reads as from text.
pub open spec fn flag_of(raw: Seq<char>) -> Option<bool> {
    if raw == "1"@ || raw == "true"@ || raw == "yes"@ || raw == "on"@ {
        Some(true)
    } else if raw == "0"@ || raw == "false"@ || raw == "no"@ || raw == "off"@ || raw.len() == 0 {
        Some(false)
    } else {
        None
    }
}

impl Show for bool {
    fn widget() -> (r: Widget)
        ensures
            r == Widget::Check,
    {
        Widget::Check
    }

    fn parse(raw: &str) -> (r: Result<bool, StoreError>)
        ensures
            match flag_of(raw@) {
                Some(b) => r == Ok::<bool, StoreError>(b),
                None => r matches Err(StoreError::Value(m)) && m@ == "bad bool "@ + raw@,
            },
    {
        if text::same(raw, "1") || text::same(raw, "true") || text::same(raw, "yes") || text::same(raw, "on") {
            Ok(true)
        } else if text::same(raw, "0") || text::same(raw, "false") || text::same(raw, "no") || text::same(raw, "off")
            || raw.is_empty() {
            Ok(false)
        } else {
            Err(bad("bad bool ", raw))
        }
    }

    fn text(&self) -> (r: String)
        ensures
            r@ == if *self { "true"@ } else { "false"@ },
    {
        if *self { text::owned("true") } else { text::owned("false") }
    }
}

/// The names of the fields that are not the autoincrement id, in order.
pub open spec fn listed_of(fields: Seq<Field>) -> Seq<Seq<char>>
    decreases fields.len(),
{
    if fields.len() == 0 {
        Seq::empty()
    } else {
        let rest = listed_of(fields.drop_last());
        if fields.last().kind is Id { rest } else { rest.push(fields.last().name@) }
    }
}

/// The text of each name, in order.
pub open spec fn str_texts(v: Seq<&'static str>) -> Seq<Seq<char>> {
    v.map_values(|s: &'static str| s@)
}

/// The names of the fields that are not the autoincrement id, in order.
pub fn listed_names(fields: &Vec<Field>) -> (r: Vec<&'static str>)
    ensures
        str_texts(r@) == listed_of(fields@),
{
    let mut out: Vec<&'static str> = Vec::new();
    let mut i: usize = 0;
    while i < fields.len()
        invariant
            i <= fields@.len(),
            str_texts(out@) == listed_of(fields@.take(i as int)),
        decreases fields@.len() - i,
    {
        assert(fields@.take(i as int + 1).drop_last() =~= fields@.take(i as int));
        let id = match fields[i].kind {
            Type::Id => true,
            _ => false,
        };
        if !id {
            let ghost before = out@;
            out.push(fields[i].name.0);
            assert(str_texts(out@) =~= str_texts(before).push(fields@[i as int].name@));
        }
        i = i + 1;
    }
    assert(fields@.take(fields@.len() as int) =~= fields@);
    out
}

/// The names of the plain string fields, in order.
pub fn text_names(fields: &Vec<Field>) -> (r: Vec<&'static str>)
    ensures
        str_texts(r@) == names_where(fields@, |t: Type| searched(t)),
{
    let mut out: Vec<&'static str> = Vec::new();
    let mut i: usize = 0;
    while i < fields.len()
        invariant
            i <= fields@.len(),
            str_texts(out@) == names_where(fields@.take(i as int), |t: Type| searched(t)),
        decreases fields@.len() - i,
    {
        assert(fields@.take(i as int + 1).drop_last() =~= fields@.take(i as int));
        let hit = match fields[i].kind.flat() {
            Type::Str => true,
            _ => false,
        };
        if hit {
            let ghost before = out@;
            out.push(fields[i].name.0);
            assert(str_texts(out@) =~= str_texts(before).push(fields@[i as int].name@));
        }
        i = i + 1;
    }
    assert(fields@.take(fields@.len() as int) =~= fields@);
    out
}

/// A model whose table the admin site manages.
pub trait AdminModel: Model {
    /// The columns a list shows: every field but the autoincrement id, as [`listed_names`] gives
    /// them for the model's fields.
    fn columns() -> Vec<&'static str> {
        let fields = Self::fields();
        listed_names(&fields)
    }

    /// The fields searched by text: the plain string fields, as [`text_names`] gives them for
    /// the model's fields.
    fn search() -> Vec<&'static str> {
        let fields = Self::fields();
        text_names(&fields)
    }

    /// The fields that cannot be edited.
    fn readonly() -> Vec<&'static str> {
        Vec::new()
    }
}

/// A guestbook message, the model of a new project.
#[derive(Debug)]
pub struct Message {
    /// Store-assigned id.
    pub id: i64,
    /// Who wrote it.
    pub name: String,
    /// What they wrote.
    pub message: String,
    /// When, in seconds since the Unix epoch.
    pub created: i64,
}

/// The columns of the message table: the id, the author, the text and the time.
pub open spec fn message_fields() -> Seq<Field> {
    seq![
        plain_column("id", Type::Id),
        plain_column("name", Type::Str),
        plain_column("message", Type::Str),
        plain_column("created", Type::Moment),
    ]
}

/// A message read from a row: id, author, text and time, or the message of the first cell that
/// does not read.
pub open spec fn message_read(v: Seq<Value>) -> Result<(i64, Seq<char>, Seq<char>, i64), Seq<char>> {
    match int_at(v, 0) {
        Err(m) => Err(m),
        Ok(id) => match str_at(v, 1) {
            Err(m) => Err(m),
            Ok(name) => match str_at(v, 2) {
                Err(m) => Err(m),
                Ok(text) => match moment_at(v, 3) {
                    Err(m) => Err(m),
                    Ok(at) => Ok((id, name, text, at)),
                },
            },
        },
    }
}

impl Model for Message {
    open spec fn table_spec() -> Seq<char> {
        "messages"@
    }

    open spec fn fields_spec() -> Seq<Field> {
        message_fields()
    }

    fn table() -> Table {
        assert(<Message as Model>::table_spec() == "messages"@);
        Table("messages")
    }

    fn fields() -> Vec<Field> {
        let mut v: Vec<Field> = Vec::new();
        v.push(Field::id());
        v.push(Field::new("name", Type::Str));
        v.push(Field::new("message", Type::Str));
        v.push(Field::new("created", Type::Moment));
        assert(v@ =~= message_fields());
        assert(<Message as Model>::fields_spec() == message_fields());
        v
    }

    fn row(&self) -> (r: Vec<Value>)
        ensures
            r@.map_values(|v: Value| v@) == seq![
                Cell::Str(self.name@),
                Cell::Str(self.message@),
                Cell::DateTime(self.created as int),
            ],
    {
        let mut v: Vec<Value> = Vec::new();
        v.push(Value::Str(self.name.clone()));
        v.push(Value::Str(self.message.clone()));
        v.push(Value::DateTime(self.created));
        assert(v@.map_values(|v: Value| v@) =~= seq![
            Cell::Str(self.name@),
            Cell::Str(self.message@),
            Cell::DateTime(self.created as int),
        ]);
        v
    }

    fn from_row(row: &Row) -> (r: Result<Message, StoreError>)
        ensures
            match message_read(row.values@) {
                Ok((id, name, text, at)) => r matches Ok(m) && m.id == id && m.name@ == name
                    && m.message@ == text && m.created == at,
                Err(m) => r matches Err(e) && is_value_error(e, m),
            },
    {
        let id = match row.integer(0) {
            Ok(x) => x,
            Err(e) => return Err(e),
        };
        let name = match row.str(1) {
            Ok(x) => x,
            Err(e) => return Err(e),
        };
        let message = match row.str(2) {
            Ok(x) => x,
            Err(e) => return Err(e),
        };
        let created = match row.moment(3) {
            Ok(x) => x,
            Err(e) => return Err(e),
        };
        Ok(Message { id, name, message, created })
    }

    fn set_id(&mut self, id: Value)
        ensures
            *final(self) == (match id {
                Value::Int(n) => Message { id: n, ..*old(self) },
                _ => *old(self),
            }),
    {
        match id {
            Value::Int(n) => self.id = n,
            _ => {},
        }
    }

    fn id(&self) -> (r: Value)
        ensures
            r == Value::Int(self.id),
    {
        Value::Int(self.id)
    }
}

} // verus!
