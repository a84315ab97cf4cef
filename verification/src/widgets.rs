//! The admin's form controls: HTML inputs for fields, and values read back from a form.

use vstd::prelude::*;

use crate::admin::{text, text_of};
use crate::error::Error;
use crate::spec::{flat_of, is_many, Field, Type};
use crate::text;
use crate::value::{Cell, Value};

verus! {

/// The HTML-escaped text of one character.
pub open spec fn escape_char(c: char) -> Seq<char> {
    if c == '&' {
        "&amp;"@
    } else if c == '<' {
        "&lt;"@
    } else if c == '>' {
        "&gt;"@
    } else if c == '"' {
        "&quot;"@
    } else {
        seq![c]
    }
}

/// Text with `&`, `<`, `>` and `"` written as HTML entities.
pub open spec fn escaped(s: Seq<char>) -> Seq<char>
    decreases s.len(),
{
    if s.len() == 0 {
        Seq::empty()
    } else {
        escaped(s.drop_last()) + escape_char(s.last())
    }
}

/// Escaped text holds no markup: no `<`, `>` or `"` is left in it, whatever it escaped.
pub proof fn escaped_is_inert(s: Seq<char>)
    ensures
        forall|i: int| 0 <= i < escaped(s).len() ==> {
            let c = #[trigger] escaped(s)[i];
            c != '<' && c != '>' && c != '"'
        },
    decreases s.len(),
{
    reveal_strlit("&amp;");
    reveal_strlit("&lt;");
    reveal_strlit("&gt;");
    reveal_strlit("&quot;");
    if s.len() > 0 {
        escaped_is_inert(s.drop_last());
        let a = escaped(s.drop_last());
        let b = escape_char(s.last());
        assert forall|i: int| 0 <= i < b.len() implies b[i] != '<' && b[i] != '>' && b[i] != '"' by {}
        assert forall|i: int| 0 <= i < escaped(s).len() implies {
            let c = #[trigger] escaped(s)[i];
            c != '<' && c != '>' && c != '"'
        } by {
            assert(escaped(s) == a + b);
            if i < a.len() {
                assert(escaped(s)[i] == a[i]);
            } else {
                assert(escaped(s)[i] == b[i - a.len()]);
            }
        }
    }
}

/// Escapes text for HTML.
pub fn escape(value: &str) -> (r: String)
    ensures
        r@ == escaped(value@),
{
    let cs = text::chars(value);
    let mut out = String::new();
    let mut i: usize = 0;
    while i < cs.len()
        invariant
            i <= cs@.len(),
            cs@ == value@,
            out@ == escaped(cs@.take(i as int)),
        decreases cs@.len() - i,
    {
        assert(cs@.take(i as int + 1).drop_last() =~= cs@.take(i as int));
        let c = cs[i];
        if c == '&' {
            text::push_str(&mut out, "&amp;");
        } else if c == '<' {
            text::push_str(&mut out, "&lt;");
        } else if c == '>' {
            text::push_str(&mut out, "&gt;");
        } else if c == '"' {
            text::push_str(&mut out, "&quot;");
        } else {
            text::push_char(&mut out, c);
        }
        i = i + 1;
    }
    assert(cs@.take(i as int) =~= cs@);
    out
}

/// The (value, label) choices of a field: its pick's, none without one.
pub open spec fn choices_of(f: Field) -> Seq<(&'static str, &'static str)> {
    match f.pick {
        Some(p) => p.options@,
        None => Seq::empty(),
    }
}

/// Some choice stores this value.
pub open spec fn offered(opts: Seq<(&'static str, &'static str)>, raw: Seq<char>) -> bool {
    exists|i: int| 0 <= i < opts.len() && (#[trigger] opts[i]).0@ == raw
}

/// The label of the first choice storing this value.
pub open spec fn label_in(opts: Seq<(&'static str, &'static str)>, raw: Seq<char>) -> Option<Seq<char>>
    decreases opts.len(),
{
    if opts.len() == 0 {
        None
    } else if opts[0].0@ == raw {
        Some(opts[0].1@)
    } else {
        label_in(opts.drop_first(), raw)
    }
}

/// `<option value="V" selected>L</option>` for each choice, `selected` on the one storing
/// `value`.
pub open spec fn options_html(opts: Seq<(&'static str, &'static str)>, value: Seq<char>) -> Seq<char>
    decreases opts.len(),
{
    if opts.len() == 0 {
        Seq::empty()
    } else {
        let o = opts.last();
        options_html(opts.drop_last(), value) + "<option value=\""@ + escaped(o.0@) + "\""@
            + (if o.0@ == value { " selected"@ } else { Seq::empty() }) + ">"@ + escaped(o.1@) + "</option>"@
    }
}

/// `<select id="P-name" name="name">`.
pub open spec fn select_of(prefix: Seq<char>, name: Seq<char>) -> Seq<char> {
    "<select id=\""@ + prefix + "-"@ + name + "\" name=\""@ + name + "\">"@
}

fn choices(field: &Field) -> (r: &'static [(&'static str, &'static str)])
    ensures
        r@ == choices_of(*field),
{
    match &field.pick {
        Some(p) => p.options,
        None => {
            let none: &'static [(&'static str, &'static str)] = &[];
            assert(none@ =~= Seq::<(&'static str, &'static str)>::empty());
            none
        },
    }
}

fn is_offered(opts: &[(&'static str, &'static str)], raw: &str) -> (r: bool)
    ensures
        r == offered(opts@, raw@),
{
    let mut i: usize = 0;
    while i < opts.len()
        invariant
            i <= opts@.len(),
            forall|j: int| 0 <= j < i ==> (#[trigger] opts@[j]).0@ != raw@,
        decreases opts@.len() - i,
    {
        if text::same(opts[i].0, raw) {
            assert(opts@[i as int].0@ == raw@);
            return true;
        }
        i = i + 1;
    }
    false
}

fn find_label(opts: &[(&'static str, &'static str)], raw: &str) -> (r: Option<&'static str>)
    ensures
        match r {
            Some(l) => label_in(opts@, raw@) == Some(l@),
            None => label_in(opts@, raw@) is None,
        },
{
    let mut i: usize = 0;
    assert(opts@.skip(0) =~= opts@);
    while i < opts.len()
        invariant
            i <= opts@.len(),
            label_in(opts@, raw@) == label_in(opts@.skip(i as int), raw@),
        decreases opts@.len() - i,
    {
        assert(opts@.skip(i as int)[0] == opts@[i as int]);
        if text::same(opts[i].0, raw) {
            return Some(opts[i].1);
        }
        assert(opts@.skip(i as int).drop_first() =~= opts@.skip(i as int + 1));
        i = i + 1;
    }
    assert(opts@.skip(i as int) =~= Seq::<(&'static str, &'static str)>::empty());
    None
}

fn options(opts: &[(&'static str, &'static str)], value: &str) -> (r: String)
    ensures
        r@ == options_html(opts@, value@),
{
    let mut out = String::new();
    let mut i: usize = 0;
    proof {
        reveal_strlit("");
        assert(opts@.take(0) =~= Seq::<(&'static str, &'static str)>::empty());
    }
    while i < opts.len()
        invariant
            i <= opts@.len(),
            out@ == options_html(opts@.take(i as int), value@),
        decreases opts@.len() - i,
    {
        assert(opts@.take(i as int + 1).drop_last() =~= opts@.take(i as int));
        let (v, l) = opts[i];
        text::push_str(&mut out, "<option value=\"");
        let ev = escape(v);
        text::push_str(&mut out, ev.as_str());
        text::push_str(&mut out, "\"");
        if text::same(v, value) {
            text::push_str(&mut out, " selected");
        } else {
            proof { reveal_strlit(""); }
        }
        text::push_str(&mut out, ">");
        let el = escape(l);
        text::push_str(&mut out, el.as_str());
        text::push_str(&mut out, "</option>");
        i = i + 1;
    }
    assert(opts@.take(opts@.len() as int) =~= opts@);
    out
}

fn select_tag(prefix: &str, name: &str) -> (r: String)
    ensures
        r@ == select_of(prefix@, name@),
{
    let mut out = text::owned("<select id=\"");
    text::push_str(&mut out, prefix);
    text::push_str(&mut out, "-");
    text::push_str(&mut out, name);
    text::push_str(&mut out, "\" name=\"");
    text::push_str(&mut out, name);
    text::push_str(&mut out, "\">");
    out
}

/// The input type of a field's control: `text`, `number`, `datetime-local` (`date` in
/// filters), or none for checkboxes and fields without a control.
pub open spec fn shows_as_text(t: Type) -> bool {
    t is Str || t is Key || t is Decimal
}

/// The label and opening of a control: `<label for="P-name">name</label>`.
pub open spec fn label_of(prefix: Seq<char>, name: Seq<char>) -> Seq<char> {
    "<label for=\""@ + prefix + "-"@ + name + "\">"@ + name + "</label>"@
}

/// `<input id="P-name" name="name" type="T" value="V">`.
pub open spec fn input_of(prefix: Seq<char>, name: Seq<char>, kind: Seq<char>, value: Seq<char>) -> Seq<char> {
    "<input id=\""@ + prefix + "-"@ + name + "\" name=\""@ + name + "\" type=\""@ + kind + "\" value=\""@ + value + "\">"@
}

/// The edit control of a field showing `value`; none for the id and virtual fields.
pub open spec fn control_of(f: Field, value: Seq<char>, checked: bool) -> Seq<char> {
    let name = f.name@;
    let label = label_of("admin"@, name);
    let t = flat_of(f.kind);
    if t is Id || is_many(f.kind) {
        Seq::empty()
    } else if choices_of(f).len() > 0 {
        label + select_of("admin"@, name)
            + (if f.kind is Opt || value.len() == 0 { "<option value=\"\">---------</option>"@ } else { Seq::empty() })
            + options_html(choices_of(f), value) + "</select>"@
    } else if t is Int || t is Float {
        label + input_of("admin"@, name, "number"@, escaped(value))
    } else if t is Moment {
        label + input_of("admin"@, name, "datetime-local"@, escaped(value))
    } else if t is Bool {
        label + "<input id=\"admin-"@ + name + "\" name=\""@ + name + "\" type=\"checkbox\""@
            + (if checked { " checked"@ } else { Seq::empty() }) + ">"@
    } else {
        label + input_of("admin"@, name, "text"@, escaped(value))
    }
}

/// The filter control of a field showing `value`; a yes/no/any choice for booleans.
pub open spec fn filter_of(f: Field, value: Seq<char>) -> Seq<char> {
    let name = f.name@;
    let label = label_of("filter"@, name);
    let shown = escaped(value);
    let t = flat_of(f.kind);
    if t is Id || is_many(f.kind) {
        Seq::empty()
    } else if choices_of(f).len() > 0 {
        label + select_of("filter"@, name) + "<option value=\"\">Any</option>"@ + options_html(choices_of(f), value)
            + "</select>"@
    } else if t is Int || t is Float {
        label + input_of("filter"@, name, "number"@, shown)
    } else if t is Moment {
        label + input_of("filter"@, name, "date"@, shown)
    } else if t is Bool {
        label + "<select id=\"filter-"@ + name + "\" name=\""@ + name
            + "\"><option value=\"\">Any</option><option value=\"1\""@
            + (if shown == "1"@ { " selected"@ } else { Seq::empty() })
            + ">Yes</option><option value=\"0\""@
            + (if shown == "0"@ { " selected"@ } else { Seq::empty() })
            + ">No</option></select>"@
    } else {
        label + input_of("filter"@, name, "text"@, shown)
    }
}

fn label(prefix: &str, name: &str) -> (r: String)
    ensures
        r@ == label_of(prefix@, name@),
{
    let mut out = text::owned("<label for=\"");
    text::push_str(&mut out, prefix);
    text::push_str(&mut out, "-");
    text::push_str(&mut out, name);
    text::push_str(&mut out, "\">");
    text::push_str(&mut out, name);
    text::push_str(&mut out, "</label>");
    out
}

fn input_tag(prefix: &str, name: &str, kind: &str, value: &str) -> (r: String)
    ensures
        r@ == input_of(prefix@, name@, kind@, value@),
{
    let mut out = text::owned("<input id=\"");
    text::push_str(&mut out, prefix);
    text::push_str(&mut out, "-");
    text::push_str(&mut out, name);
    text::push_str(&mut out, "\" name=\"");
    text::push_str(&mut out, name);
    text::push_str(&mut out, "\" type=\"");
    text::push_str(&mut out, kind);
    text::push_str(&mut out, "\" value=\"");
    text::push_str(&mut out, value);
    text::push_str(&mut out, "\">");
    out
}

/// The edit control of a field showing `value`.
pub fn control(field: &Field, value: &str, checked: bool) -> (r: String)
    ensures
        r@ == control_of(*field, value@, checked),
{
    let name = field.name.0;
    let t = field.kind.flat();
    let (skip, number, moment, check) = match t {
        Type::Id => (true, false, false, false),
        Type::Int | Type::Float => (false, true, false, false),
        Type::Moment => (false, false, true, false),
        Type::Bool => (false, false, false, true),
        _ => (false, false, false, false),
    };
    if skip || crate::spec::many(&field.kind) {
        proof { reveal_strlit(""); }
        return String::new();
    }
    let mut out = label("admin", name);
    let opts = choices(field);
    if opts.len() > 0 {
        let sel = select_tag("admin", name);
        text::push_str(&mut out, sel.as_str());
        let opt = match field.kind {
            Type::Opt(_) => true,
            _ => false,
        };
        if opt || value.is_empty() {
            text::push_str(&mut out, "<option value=\"\">---------</option>");
        } else {
            proof { reveal_strlit(""); }
        }
        let os = options(opts, value);
        text::push_str(&mut out, os.as_str());
        text::push_str(&mut out, "</select>");
        return out;
    }
    let shown = escape(value);
    if number {
        let i = input_tag("admin", name, "number", shown.as_str());
        text::push_str(&mut out, i.as_str());
    } else if moment {
        let i = input_tag("admin", name, "datetime-local", shown.as_str());
        text::push_str(&mut out, i.as_str());
    } else if check {
        text::push_str(&mut out, "<input id=\"admin-");
        text::push_str(&mut out, name);
        text::push_str(&mut out, "\" name=\"");
        text::push_str(&mut out, name);
        text::push_str(&mut out, "\" type=\"checkbox\"");
        if checked {
            text::push_str(&mut out, " checked");
        } else {
            proof { reveal_strlit(""); }
        }
        text::push_str(&mut out, ">");
    } else {
        let i = input_tag("admin", name, "text", shown.as_str());
        text::push_str(&mut out, i.as_str());
    }
    out
}

/// The filter control of a field showing `value`.
pub fn filter_input(field: &Field, value: &str) -> (r: String)
    ensures
        r@ == filter_of(*field, value@),
{
    let name = field.name.0;
    let t = field.kind.flat();
    let (skip, number, moment, check) = match t {
        Type::Id => (true, false, false, false),
        Type::Int | Type::Float => (false, true, false, false),
        Type::Moment => (false, false, true, false),
        Type::Bool => (false, false, false, true),
        _ => (false, false, false, false),
    };
    if skip || crate::spec::many(&field.kind) {
        proof { reveal_strlit(""); }
        return String::new();
    }
    let mut out = label("filter", name);
    let opts = choices(field);
    if opts.len() > 0 {
        let sel = select_tag("filter", name);
        text::push_str(&mut out, sel.as_str());
        text::push_str(&mut out, "<option value=\"\">Any</option>");
        let os = options(opts, value);
        text::push_str(&mut out, os.as_str());
        text::push_str(&mut out, "</select>");
        return out;
    }
    let shown = escape(value);
    if number {
        let i = input_tag("filter", name, "number", shown.as_str());
        text::push_str(&mut out, i.as_str());
    } else if moment {
        let i = input_tag("filter", name, "date", shown.as_str());
        text::push_str(&mut out, i.as_str());
    } else if check {
        text::push_str(&mut out, "<select id=\"filter-");
        text::push_str(&mut out, name);
        text::push_str(&mut out, "\" name=\"");
        text::push_str(&mut out, name);
        text::push_str(&mut out, "\"><option value=\"\">Any</option><option value=\"1\"");
        proof { reveal_strlit(""); }
        if text::same(shown.as_str(), "1") {
            text::push_str(&mut out, " selected");
        }
        text::push_str(&mut out, ">Yes</option><option value=\"0\"");
        if text::same(shown.as_str(), "0") {
            text::push_str(&mut out, " selected");
        }
        text::push_str(&mut out, ">No</option></select>");
    } else {
        let i = input_tag("filter", name, "text", shown.as_str());
        text::push_str(&mut out, i.as_str());
    }
    out
}

/// The `YYYY-MM-DDTHH:MM` text of a UTC timestamp, empty outside chrono's range.
pub uninterp spec fn local_of(at: i64) -> Seq<char>;

/// Formats a UTC timestamp for a `datetime-local` input.
///
/// Trusted: calls `chrono::DateTime::from_timestamp` and `format("%Y-%m-%dT%H:%M")`, giving
/// empty text outside chrono's range. The contract names the result, which depends on the
/// timestamp alone.
#[verifier::external_body]
pub(crate) fn local_stamp(at: i64) -> (r: String)
    ensures
        r@ == local_of(at),
{
    match chrono::DateTime::from_timestamp(at, 0) {
        Some(d) => d.format("%Y-%m-%dT%H:%M").to_string(),
        None => String::new(),
    }
}

/// The text a cell of a field shows: the label of the choice that stores it, else the cell's
/// admin text.
pub open spec fn shown_of(f: Field, v: Option<Cell>) -> Seq<char> {
    match v {
        Some(Cell::Str(s)) => match label_in(choices_of(f), s) {
            Some(l) => l,
            None => text_of(v),
        },
        _ => text_of(v),
    }
}

/// The text a cell of a field shows.
pub fn shown(field: &Field, value: Option<&Value>) -> (r: String)
    ensures
        r@ == shown_of(*field, match value { Some(v) => Some(v@), None => None }),
{
    match value {
        Some(Value::Str(s)) => match find_label(choices(field), s.as_str()) {
            Some(l) => text::owned(l),
            None => text(value),
        },
        _ => text(value),
    }
}

/// The text an edit control starts with: the stored value of a choice field, a timestamp as
/// `datetime-local` text, else the text the cell shows.
pub open spec fn input_text(f: Field, v: Option<Cell>) -> Seq<char> {
    match (flat_of(f.kind), v) {
        (_, Some(Cell::Str(s))) if choices_of(f).len() > 0 => s,
        (Type::Moment, Some(Cell::DateTime(at))) => local_of(at as i64),
        _ => shown_of(f, v),
    }
}

/// The edit control of a field holding a value.
pub fn input(field: &Field, value: Option<&Value>) -> (r: String)
    ensures
        r@ == control_of(*field, input_text(*field, match value { Some(v) => Some(v@), None => None }),
            value matches Some(Value::Bool(true))),
{
    let picks = choices(field).len() > 0;
    let shown = match (field.kind.flat(), value) {
        (_, Some(Value::Str(s))) if picks => s.clone(),
        (Type::Moment, Some(Value::DateTime(at))) => local_stamp(*at),
        _ => shown(field, value),
    };
    let checked = match value {
        Some(Value::Bool(true)) => true,
        _ => false,
    };
    control(field, shown.as_str(), checked)
}

/// The edit control of a field showing what was submitted.
pub fn input_raw(field: &Field, raw: &str) -> (r: String)
    ensures
        r@ == control_of(*field, raw@, flat_of(field.kind) is Bool && raw@ == "on"@),
{
    let is_bool = match field.kind.flat() {
        Type::Bool => true,
        _ => false,
    };
    control(field, raw, is_bool && text::same(raw, "on"))
}

/// A field shown but not editable: its name and escaped text.
pub fn locked(field: &Field, value: Option<&Value>) -> (r: String)
    ensures
        r@ == "<label>"@ + field.name@ + "</label><p>"@ + escaped(text_of(match value { Some(v) => Some(v@), None => None })) + "</p>"@,
{
    let mut out = text::owned("<label>");
    text::push_str(&mut out, field.name.0);
    text::push_str(&mut out, "</label><p>");
    let t = text(value);
    let e = escape(t.as_str());
    text::push_str(&mut out, e.as_str());
    text::push_str(&mut out, "</p>");
    out
}

/// The UTC timestamp chrono reads from `YYYY-MM-DDTHH:MM` text, if it reads one.
pub uninterp spec fn moment_of(raw: Seq<char>) -> Option<i64>;

/// Reads `datetime-local` text as a UTC timestamp.
///
/// Trusted: calls `chrono::NaiveDateTime::parse_from_str(raw, "%Y-%m-%dT%H:%M")`, then
/// `and_utc().timestamp()`. The contract names the outcome, which depends on the text alone.
#[verifier::external_body]
pub(crate) fn parse_moment(raw: &str) -> (r: Option<i64>)
    ensures
        r == moment_of(raw@),
{
    chrono::NaiveDateTime::parse_from_str(raw, "%Y-%m-%dT%H:%M").ok().map(|at| at.and_utc().timestamp())
}

/// What a submitted form field reads as: a value, or the message of a bad request.
pub open spec fn value_of(f: Field, raw: Seq<char>, float: Option<Cell>) -> Result<Cell, Seq<char>> {
    let t = flat_of(f.kind);
    if !is_many(f.kind) && choices_of(f).len() > 0 && raw.len() > 0 && !offered(choices_of(f), raw) {
        Err(f.name@ + " is not a valid choice"@)
    } else if raw.len() == 0 && t is Bool {
        Ok(Cell::Bool(false))
    } else if raw.len() == 0 {
        if f.kind is Opt { Ok(Cell::Null) } else { Err(f.name@ + " is required"@) }
    } else {
        match t {
            Type::Str => Ok(Cell::Str(raw)),
            Type::Key => Ok(Cell::Str(raw)),
            Type::Decimal => Ok(Cell::Str(raw)),
            Type::Int => match text::parse_i64(raw) {
                Some(n) => Ok(Cell::Int(n as int)),
                None => Err(f.name@ + " must be an integer"@),
            },
            Type::Moment => match moment_of(raw) {
                Some(at) => Ok(Cell::DateTime(at as int)),
                None => Err(f.name@ + " must be a date and time"@),
            },
            Type::Float => match float {
                Some(c) => Ok(c),
                None => Err(f.name@ + " must be a number"@),
            },
            Type::Bool => Ok(Cell::Bool(raw == "on"@)),
            _ => Ok(Cell::Null),
        }
    }
}

fn bad(field: &Field, tail: &str) -> (r: Error)
    ensures
        r matches Error::BadRequest(m) && m@ == field.name@ + tail@,
{
    let mut m = text::owned(field.name.0);
    text::push_str(&mut m, tail);
    Error::BadRequest(m)
}

/// Reads a submitted form field; `float` is the number the caller read from the text of a
/// float field, if any.
pub fn value(field: &Field, raw: Option<&String>, float: Option<Value>) -> (r: Result<Value, Error>)
    ensures
        ({
            let text = match raw { Some(s) => s@, None => Seq::empty() };
            match value_of(*field, text, match float { Some(v) => Some(v@), None => None }) {
                Ok(c) => r matches Ok(v) && v@ == c,
                Err(m) => r matches Err(Error::BadRequest(x)) && x@ == m,
            }
        }),
{
    proof { reveal_strlit(""); }
    let raw: &str = match raw {
        Some(s) => s.as_str(),
        None => "",
    };
    let t = field.kind.flat();
    let opts = choices(field);
    if !crate::spec::many(&field.kind) && opts.len() > 0 && !raw.is_empty() && !is_offered(opts, raw) {
        return Err(bad(field, " is not a valid choice"));
    }
    let is_bool = match t {
        Type::Bool => true,
        _ => false,
    };
    if raw.is_empty() && is_bool {
        return Ok(Value::Bool(false));
    }
    if raw.is_empty() {
        let opt = match field.kind {
            Type::Opt(_) => true,
            _ => false,
        };
        return if opt { Ok(Value::Null) } else { Err(bad(field, " is required")) };
    }
    match t {
        Type::Str | Type::Key | Type::Decimal => Ok(Value::Str(text::owned(raw))),
        Type::Int => {
            let cs = text::chars(raw);
            match text::parse_int(cs.as_slice()) {
                Some(n) => Ok(Value::Int(n)),
                None => Err(bad(field, " must be an integer")),
            }
        },
        Type::Moment => match parse_moment(raw) {
            Some(at) => Ok(Value::DateTime(at)),
            None => Err(bad(field, " must be a date and time")),
        },
        Type::Float => match float {
            Some(v) => Ok(v),
            None => Err(bad(field, " must be a number")),
        },
        Type::Bool => Ok(Value::Bool(text::same(raw, "on"))),
        _ => Ok(Value::Null),
    }
}

/// What a history entry records.
#[derive(Clone, Copy, Debug, PartialEq, Eq, Structural)]
pub enum Action {
    /// A row was created.
    Create,
    /// A row was edited.
    Edit,
    /// A row was deleted.
    Delete,
}

/// The stored name of an action.
pub open spec fn action_name(a: Action) -> Seq<char> {
    match a {
        Action::Create => "create"@,
        Action::Edit => "edit"@,
        Action::Delete => "delete"@,
    }
}

impl Action {
    /// The stored name of the action.
    pub fn name(&self) -> (r: &'static str)
        ensures
            r@ == action_name(*self),
    {
        match self {
            Action::Create => "create",
            Action::Edit => "edit",
            Action::Delete => "delete",
        }
    }

    /// Reads a stored action name.
    pub fn parse(raw: &str) -> (r: Result<Action, crate::value::StoreError>)
        ensures
            match r {
                Ok(a) => action_name(a) == raw@,
                Err(e) => (forall|a: Action| action_name(a) != raw@)
                    && (e matches crate::value::StoreError::Value(m) && m@ == "bad action "@ + raw@),
            },
    {
        if text::same(raw, "create") {
            Ok(Action::Create)
        } else if text::same(raw, "edit") {
            Ok(Action::Edit)
        } else if text::same(raw, "delete") {
            Ok(Action::Delete)
        } else {
            let mut m = text::owned("bad action ");
            text::push_str(&mut m, raw);
            Err(crate::value::StoreError::Value(m))
        }
    }
}

/// Reading back the stored name of an action gives the action.
pub proof fn action_round_trip(a: Action, b: Action)
    requires
        action_name(b) == action_name(a),
    ensures
        b == a,
{
    reveal_strlit("create");
    reveal_strlit("edit");
    reveal_strlit("delete");
    assert("create"@.len() == 6 && "edit"@.len() == 4 && "delete"@.len() == 6);
    assert("create"@[0] == 'c' && "delete"@[0] == 'd');
    assert("create"@ != "edit"@ && "create"@ != "delete"@ && "edit"@ != "delete"@);
}

} // verus!

verus! {

/// The value the caller read for the float field at position `i`, if any.
pub open spec fn read_float(floats: Seq<(usize, Value)>, i: int) -> Option<Cell> {
    crate::admin::float_for(floats, i)
}

/// The text of the form field with the name, if the form has it.
pub open spec fn form_raw(form: Seq<(String, String)>, name: Seq<char>) -> Option<Seq<char>>
    decreases form.len(),
{
    if form.len() == 0 {
        None
    } else if form[0].0@ == name {
        Some(form[0].1@)
    } else {
        form_raw(form.drop_first(), name)
    }
}

/// The text of a field as a form shows it back: what was sent, or nothing.
pub open spec fn raw_or_empty(r: Option<Seq<char>>) -> Seq<char> {
    match r {
        Some(s) => s,
        None => Seq::empty(),
    }
}

/// The names of the fields that cannot be edited.
pub open spec fn names_of(fixed: Seq<crate::spec::Name>) -> Seq<Seq<char>> {
    fixed.map_values(|n: crate::spec::Name| n@)
}

/// The locked control of a field holding a cell.
pub open spec fn locked_of(f: Field, v: Option<Cell>) -> Seq<char> {
    "<label>"@ + f.name@ + "</label><p>"@ + escaped(text_of(v)) + "</p>"@
}

/// A form as the page shows it again, and what it read.
pub struct Submission {
    /// The values read, in row order.
    pub values: Vec<Value>,
    /// The controls of the fields, in order.
    pub inputs: Vec<String>,
    /// The messages of the fields that could not be read.
    pub problems: Vec<String>,
}

/// What a submitted form leads to.
pub enum Outcome {
    /// Show the form again with its problems; nothing is written or logged.
    Again {
        /// The controls of the fields, in order.
        inputs: Vec<String>,
        /// The messages of the fields that could not be read.
        problems: Vec<String>,
    },
    /// Write these values, then log the change.
    Write(Vec<Value>),
}

impl Submission {
    /// Decides what a submitted form leads to: the write of its values when every field read,
    /// else the form again with its problems, and no write.
    pub fn outcome(self) -> (r: Outcome)
        ensures
            self.problems@.len() == 0 ==> (r matches Outcome::Write(v) && v@ == self.values@),
            self.problems@.len() > 0 ==> (r matches Outcome::Again { inputs, problems }
                && inputs@ == self.inputs@ && problems@ == self.problems@),
    {
        if self.problems.len() == 0 {
            Outcome::Write(self.values)
        } else {
            Outcome::Again { inputs: self.inputs, problems: self.problems }
        }
    }
}

/// One step of reading an edit form: the values, controls and problems after the fields so far.
pub open spec fn edit_of(
    fields: Seq<Field>,
    fixed: Seq<Seq<char>>,
    have: Seq<Cell>,
    form: Seq<(String, String)>,
    floats: Seq<(usize, Value)>,
) -> (Seq<Cell>, Seq<Seq<char>>, Seq<Seq<char>>, nat)
    decreases fields.len(),
{
    if fields.len() == 0 {
        (Seq::empty(), Seq::empty(), Seq::empty(), 0)
    } else {
        let (vs, ins, ps, slot) = edit_of(fields.drop_last(), fixed, have, form, floats);
        let f = fields.last();
        let i = fields.len() - 1;
        if f.kind == Type::Id {
            (vs, ins, ps, slot)
        } else {
            let old: Option<Cell> = if slot < have.len() { Some(have[slot as int]) } else { None };
            let kept = match old { Some(c) => c, None => Cell::Null };
            if flat_of(f.kind) is Key {
                (vs, ins, ps, slot + 1)
            } else if fixed.contains(f.name@) {
                (vs.push(kept), ins.push(locked_of(f, old)), ps, slot + 1)
            } else {
                let raw = form_raw(form, f.name@);
                let text = raw_or_empty(raw);
                let shown = control_of(f, text, flat_of(f.kind) is Bool && text == "on"@);
                match value_of(f, text, read_float(floats, i)) {
                    Ok(c) => (vs.push(c), ins.push(shown), ps, slot + 1),
                    Err(m) => (vs.push(kept), ins.push(shown), ps.push(m), slot + 1),
                }
            }
        }
    }
}

fn raw_in<'a>(form: &'a Vec<(String, String)>, name: &str) -> (r: Option<&'a String>)
    ensures
        match r {
            Some(s) => form_raw(form@, name@) == Some(s@),
            None => form_raw(form@, name@) is None,
        },
{
    let mut i: usize = 0;
    assert(form@.skip(0) =~= form@);
    while i < form.len()
        invariant
            i <= form@.len(),
            form_raw(form@, name@) == form_raw(form@.skip(i as int), name@),
        decreases form@.len() - i,
    {
        assert(form@.skip(i as int)[0] == form@[i as int]);
        if text::same(form[i].0.as_str(), name) {
            return Some(&form[i].1);
        }
        assert(form@.skip(i as int).drop_first() =~= form@.skip(i as int + 1));
        i = i + 1;
    }
    None
}

pub(crate) fn fixed_has(fixed: &Vec<crate::spec::Name>, name: &str) -> (r: bool)
    ensures
        r == names_of(fixed@).contains(name@),
{
    let mut i: usize = 0;
    while i < fixed.len()
        invariant
            i <= fixed@.len(),
            forall|j: int| 0 <= j < i ==> names_of(fixed@)[j] != name@,
        decreases fixed@.len() - i,
    {
        if text::same(fixed[i].0, name) {
            assert(names_of(fixed@)[i as int] == name@);
            return true;
        }
        i = i + 1;
    }
    false
}

fn float_at(floats: &Vec<(usize, Value)>, at: usize) -> (r: Option<Value>)
    ensures
        match r {
            Some(v) => read_float(floats@, at as int) == Some(v@),
            None => read_float(floats@, at as int) is None,
        },
{
    let mut i: usize = 0;
    assert(floats@.skip(0) =~= floats@);
    while i < floats.len()
        invariant
            i <= floats@.len(),
            crate::admin::float_for(floats@, at as int) == crate::admin::float_for(floats@.skip(i as int), at as int),
        decreases floats@.len() - i,
    {
        assert(floats@.skip(i as int)[0] == floats@[i as int]);
        if floats[i].0 == at {
            return Some(floats[i].1.dup());
        }
        assert(floats@.skip(i as int).drop_first() =~= floats@.skip(i as int + 1));
        i = i + 1;
    }
    None
}

/// Reads an edit form for a stored row: the key first, then for each field its fixed value, the
/// value read from the form, or (when that cannot be read) its stored value, with the problem.
/// Text keys keep their stored value and take no control.
pub fn edit(
    fields: &Vec<Field>,
    fixed: &Vec<crate::spec::Name>,
    key: Value,
    have: &Vec<Value>,
    form: &Vec<(String, String)>,
    floats: &Vec<(usize, Value)>,
) -> (r: Submission)
    ensures
        ({
            let (vs, ins, ps, _) = edit_of(fields@, names_of(fixed@), crate::admin::cells_of(have@), form@, floats@);
            &&& crate::admin::cells_of(r.values@) == seq![key@] + vs
            &&& crate::dialect::texts(r.inputs@) == ins
            &&& crate::dialect::texts(r.problems@) == ps
        }),
{
    let ghost cells = crate::admin::cells_of(have@);
    let ghost names = names_of(fixed@);
    let mut values: Vec<Value> = Vec::new();
    values.push(key);
    let ghost k = values@[0]@;
    let mut inputs: Vec<String> = Vec::new();
    let mut problems: Vec<String> = Vec::new();
    let mut slot: usize = 0;
    let mut i: usize = 0;
    assert(crate::admin::cells_of(values@) =~= seq![k] + Seq::<Cell>::empty());
    while i < fields.len()
        invariant
            i <= fields@.len(),
            cells == crate::admin::cells_of(have@),
            names == names_of(fixed@),
            slot <= i,
            ({
                let (vs, ins, ps, s) = edit_of(fields@.take(i as int), names, cells, form@, floats@);
                &&& crate::admin::cells_of(values@) == seq![k] + vs
                &&& crate::dialect::texts(inputs@) == ins
                &&& crate::dialect::texts(problems@) == ps
                &&& slot == s
            }),
        decreases fields@.len() - i,
    {
        assert(fields@.take(i as int + 1).drop_last() =~= fields@.take(i as int));
        assert(fields@.take(i as int + 1).last() == fields@[i as int]);
        let ghost before = edit_of(fields@.take(i as int), names, cells, form@, floats@);
        let f = &fields[i];
        let ghost vb = values@;
        let ghost ib = inputs@;
        let ghost pb = problems@;
        let is_id = match f.kind {
            Type::Id => true,
            _ => false,
        };
        if !is_id {
            let old: Option<&Value> = if slot < have.len() { Some(&have[slot]) } else { None };
            assert(slot < have@.len() ==> cells[slot as int] == have@[slot as int]@);
            let is_key = match f.kind.flat() {
                Type::Key => true,
                _ => false,
            };
            if !is_key {
                let kept = match old {
                    Some(v) => v.dup(),
                    None => Value::Null,
                };
                if fixed_has(fixed, f.name.0) {
                    let l = locked(f, old);
                    assert(l@ == locked_of(*f, if slot < have@.len() { Some(cells[slot as int]) } else { None }));
                    inputs.push(l);
                    values.push(kept);
                    assert(crate::dialect::texts(inputs@) =~= crate::dialect::texts(ib).push(l@));
                    assert(crate::admin::cells_of(values@) =~= crate::admin::cells_of(vb).push(kept@));
                    assert(seq![k] + before.0.push(kept@) =~= (seq![k] + before.0).push(kept@));
                } else {
                    let raw = raw_in(form, f.name.0);
                    let text: &str = match raw {
                        Some(s) => s.as_str(),
                        None => {
                            proof { reveal_strlit(""); }
                            ""
                        },
                    };
                    assert(text@ == raw_or_empty(form_raw(form@, f.name@)));
                    let shown = input_raw(f, text);
                    inputs.push(shown);
                    assert(crate::dialect::texts(inputs@) =~= crate::dialect::texts(ib).push(shown@));
                    let fl = float_at(floats, i);
                    match value(f, raw, fl) {
                        Ok(v) => {
                            values.push(v);
                            assert(crate::admin::cells_of(values@) =~= crate::admin::cells_of(vb).push(v@));
                            assert(seq![k] + before.0.push(v@) =~= (seq![k] + before.0).push(v@));
                        },
                        Err(e) => {
                            let m = e.message();
                            problems.push(m);
                            values.push(kept);
                            assert(crate::dialect::texts(problems@) =~= crate::dialect::texts(pb).push(m@));
                            assert(crate::admin::cells_of(values@) =~= crate::admin::cells_of(vb).push(kept@));
                            assert(seq![k] + before.0.push(kept@) =~= (seq![k] + before.0).push(kept@));
                        },
                    }
                }
            }
            slot = slot + 1;
        }
        proof {
            let after = edit_of(fields@.take(i as int + 1), names, cells, form@, floats@);
            assert(slot == after.3);
            assert(crate::dialect::texts(problems@) == after.2);
            assert(crate::dialect::texts(inputs@) == after.1);
            assert(crate::admin::cells_of(values@) == seq![k] + after.0);
        }
        i = i + 1;
    }
    assert(fields@.take(i as int) =~= fields@);
    Submission { values, inputs, problems }
}

} // verus!

verus! {

/// The values, controls and problems of a new-row form after the fields so far.
pub open spec fn create_of(
    fields: Seq<Field>,
    fixed: Seq<Seq<char>>,
    form: Seq<(String, String)>,
    floats: Seq<(usize, Value)>,
) -> (Seq<Cell>, Seq<Seq<char>>, Seq<Seq<char>>)
    decreases fields.len(),
{
    if fields.len() == 0 {
        (Seq::empty(), Seq::empty(), Seq::empty())
    } else {
        let (vs, ins, ps) = create_of(fields.drop_last(), fixed, form, floats);
        let f = fields.last();
        let i = fields.len() - 1;
        if f.kind == Type::Id {
            (vs.push(Cell::Int(0)), ins, ps)
        } else if fixed.contains(f.name@) {
            let d: Option<Cell> = match f.default { Some(v) => Some(v@), None => None };
            (vs.push(match d { Some(c) => c, None => Cell::Null }), ins.push(locked_of(f, d)), ps)
        } else {
            let text = raw_or_empty(form_raw(form, f.name@));
            let shown = control_of(f, text, flat_of(f.kind) is Bool && text == "on"@);
            match value_of(f, text, read_float(floats, i)) {
                Ok(c) => (vs.push(c), ins.push(shown), ps),
                Err(m) => (vs.push(Cell::Null), ins.push(shown), ps.push(m)),
            }
        }
    }
}

/// Reads a new-row form: 0 for the id, the default of each fixed field, the value read from the
/// form for the others (NULL, with the problem, when it cannot be read).
pub fn create(
    fields: &Vec<Field>,
    fixed: &Vec<crate::spec::Name>,
    form: &Vec<(String, String)>,
    floats: &Vec<(usize, Value)>,
) -> (r: Submission)
    ensures
        ({
            let (vs, ins, ps) = create_of(fields@, names_of(fixed@), form@, floats@);
            &&& crate::admin::cells_of(r.values@) == vs
            &&& crate::dialect::texts(r.inputs@) == ins
            &&& crate::dialect::texts(r.problems@) == ps
        }),
{
    let ghost names = names_of(fixed@);
    let mut values: Vec<Value> = Vec::new();
    let mut inputs: Vec<String> = Vec::new();
    let mut problems: Vec<String> = Vec::new();
    let mut i: usize = 0;
    while i < fields.len()
        invariant
            i <= fields@.len(),
            names == names_of(fixed@),
            ({
                let (vs, ins, ps) = create_of(fields@.take(i as int), names, form@, floats@);
                &&& crate::admin::cells_of(values@) == vs
                &&& crate::dialect::texts(inputs@) == ins
                &&& crate::dialect::texts(problems@) == ps
            }),
        decreases fields@.len() - i,
    {
        assert(fields@.take(i as int + 1).drop_last() =~= fields@.take(i as int));
        assert(fields@.take(i as int + 1).last() == fields@[i as int]);
        let f = &fields[i];
        let ghost vb = values@;
        let ghost ib = inputs@;
        let ghost pb = problems@;
        let is_id = match f.kind {
            Type::Id => true,
            _ => false,
        };
        if is_id {
            values.push(Value::Int(0));
            assert(crate::admin::cells_of(values@) =~= crate::admin::cells_of(vb).push(Cell::Int(0)));
        } else if fixed_has(fixed, f.name.0) {
            let d = match &f.default {
                Some(v) => Some(v),
                None => None,
            };
            let l = locked(f, d);
            let v = match d {
                Some(v) => v.dup(),
                None => Value::Null,
            };
            inputs.push(l);
            values.push(v);
            assert(crate::dialect::texts(inputs@) =~= crate::dialect::texts(ib).push(l@));
            assert(crate::admin::cells_of(values@) =~= crate::admin::cells_of(vb).push(v@));
        } else {
            let raw = raw_in(form, f.name.0);
            let text: &str = match raw {
                Some(s) => s.as_str(),
                None => {
                    proof { reveal_strlit(""); }
                    ""
                },
            };
            assert(text@ == raw_or_empty(form_raw(form@, f.name@)));
            let shown = input_raw(f, text);
            inputs.push(shown);
            assert(crate::dialect::texts(inputs@) =~= crate::dialect::texts(ib).push(shown@));
            let fl = float_at(floats, i);
            match value(f, raw, fl) {
                Ok(v) => {
                    values.push(v);
                    assert(crate::admin::cells_of(values@) =~= crate::admin::cells_of(vb).push(v@));
                },
                Err(e) => {
                    let m = e.message();
                    problems.push(m);
                    values.push(Value::Null);
                    assert(crate::dialect::texts(problems@) =~= crate::dialect::texts(pb).push(m@));
                    assert(crate::admin::cells_of(values@) =~= crate::admin::cells_of(vb).push(Cell::Null));
                },
            }
        }
        i = i + 1;
    }
    assert(fields@.take(i as int) =~= fields@);
    Submission { values, inputs, problems }
}

} // verus!
