//! The admin's history: which row of which table was created, edited or deleted, by whom and
//! when.

use vstd::prelude::*;

use crate::admin::{stamp, stamp_of, text, text_of};
use crate::auth::Current;
use crate::model::Model;
use crate::spec::{plain_column, Field, Table, Type};
use crate::text as chars;
use crate::value::{Cell, Row, StoreError, Value};
use crate::widgets::{action_name, Action};

verus! {

broadcast use vstd::seq_lib::group_to_multiset_ensures;

/// One entry of the history.
#[derive(Debug)]
pub struct History {
    /// Key the store assigned.
    pub id: i64,
    /// Table of the row.
    pub model: String,
    /// Key of the row, as text.
    pub row: String,
    /// What was done.
    pub action: Action,
    /// Who did it; empty when nobody was logged in.
    pub user: String,
    /// When, in seconds since the epoch.
    pub at: i64,
}

/// An entry by content.
pub open spec fn event_view(h: History) -> (int, Seq<char>, Seq<char>, Action, Seq<char>, int) {
    (h.id as int, h.model@, h.row@, h.action, h.user@, h.at as int)
}

/// The entries by content, in order.
pub open spec fn events_view(s: Seq<History>) -> Seq<(int, Seq<char>, Seq<char>, Action, Seq<char>, int)> {
    s.map_values(|h: History| event_view(h))
}

/// The columns of the history table: the id, the table, the row's key, the action, the user and
/// the time.
pub open spec fn history_fields() -> Seq<Field> {
    seq![
        plain_column("id", Type::Id),
        plain_column("model", Type::Str),
        plain_column("row", Type::Str),
        plain_column("action", Type::Str),
        plain_column("user", Type::Str),
        plain_column("at", Type::Moment),
    ]
}

impl Model for History {
    open spec fn table_spec() -> Seq<char> {
        "history"@
    }

    open spec fn fields_spec() -> Seq<Field> {
        history_fields()
    }

    fn table() -> Table {
        assert(<History as Model>::table_spec() == "history"@);
        Table("history")
    }

    fn fields() -> Vec<Field> {
        let mut v: Vec<Field> = Vec::new();
        v.push(Field::id());
        v.push(Field::new("model", Type::Str));
        v.push(Field::new("row", Type::Str));
        v.push(Field::new("action", Type::Str));
        v.push(Field::new("user", Type::Str));
        v.push(Field::new("at", Type::Moment));
        assert(v@ =~= history_fields());
        assert(<History as Model>::fields_spec() == history_fields());
        v
    }

    fn row(&self) -> (r: Vec<Value>)
        ensures
            r@.map_values(|v: Value| v@) == seq![
                Cell::Str(self.model@),
                Cell::Str(self.row@),
                Cell::Str(action_name(self.action)),
                Cell::Str(self.user@),
                Cell::DateTime(self.at as int),
            ],
    {
        self.cells()
    }

    fn from_row(row: &Row) -> (r: Result<History, StoreError>)
        ensures
            r matches Ok(h) ==> read_as(row.values@, h),
            r is Err ==> !readable(row.values@),
    {
        History::read(row)
    }

    fn set_id(&mut self, id: Value)
        ensures
            *final(self) == (match id {
                Value::Int(n) => History { id: n, ..*old(self) },
                _ => *old(self),
            }),
    {
        match id {
            Value::Int(n) => self.id = n,
            _ => {},
        }
    }

    fn id(&self) -> (r: Value)
        ensures
            r == Value::Int(self.id),
    {
        Value::Int(self.id)
    }
}

/// The row holds the entry: key, table, row, action name, user, and a time chrono can hold.
pub open spec fn read_as(v: Seq<Value>, h: History) -> bool {
    &&& v.len() >= 6
    &&& v[0] == Value::Int(h.id)
    &&& v[1]@ == Cell::Str(h.model@)
    &&& v[2]@ == Cell::Str(h.row@)
    &&& v[3]@ == Cell::Str(action_name(h.action))
    &&& v[4]@ == Cell::Str(h.user@)
    &&& (v[5] == Value::Int(h.at) || v[5] == Value::DateTime(h.at))
    &&& crate::value::moment_ok(h.at)
}

/// The row reads as an entry: an integer key, text table, row and user, one of the action
/// names, and a time chrono can hold.
pub open spec fn readable(v: Seq<Value>) -> bool {
    &&& v.len() >= 6
    &&& v[0] is Int
    &&& v[1] is Str
    &&& v[2] is Str
    &&& (v[3] matches Value::Str(a) && exists|x: Action| action_name(x) == a@)
    &&& v[4] is Str
    &&& stored_moment(v[5])
}

/// A stored time chrono can hold: an integer or datetime cell.
pub open spec fn stored_moment(v: Value) -> bool {
    match v {
        Value::Int(at) => crate::value::moment_ok(at),
        Value::DateTime(at) => crate::value::moment_ok(at),
        _ => false,
    }
}

impl History {
    /// The cells an entry is stored as: table, row, action name, user, time.
    pub fn cells(&self) -> (r: Vec<Value>)
        ensures
            r@.map_values(|v: Value| v@) == seq![
                Cell::Str(self.model@),
                Cell::Str(self.row@),
                Cell::Str(action_name(self.action)),
                Cell::Str(self.user@),
                Cell::DateTime(self.at as int),
            ],
    {
        let mut v: Vec<Value> = Vec::new();
        v.push(Value::Str(self.model.clone()));
        v.push(Value::Str(self.row.clone()));
        v.push(Value::Str(chars::owned(self.action.name())));
        v.push(Value::Str(self.user.clone()));
        v.push(Value::DateTime(self.at));
        assert(v@.map_values(|v: Value| v@) =~= seq![
            Cell::Str(self.model@),
            Cell::Str(self.row@),
            Cell::Str(action_name(self.action)),
            Cell::Str(self.user@),
            Cell::DateTime(self.at as int),
        ]);
        v
    }

    /// Reads an entry back from a stored row: key, table, row, action name, user, time. The
    /// action name must be one of the three, and the time one that chrono can hold.
    pub fn read(row: &Row) -> (r: Result<History, StoreError>)
        ensures
            r matches Ok(h) ==> read_as(row.values@, h),
            r is Err ==> !readable(row.values@),
    {
        let id = row.integer(0)?;
        let model = row.str(1)?;
        let at_row = row.str(2)?;
        let name = row.str(3)?;
        let action = match Action::parse(name.as_str()) {
            Ok(a) => a,
            Err(e) => return Err(e),
        };
        let user = row.str(4)?;
        let at = row.moment(5)?;
        Ok(History { id, model, row: at_row, action, user, at })
    }

    /// The entry for an action on a row of a table at time `at`, by the logged-in user if any.
    pub fn entry(table: Table, row: &Value, action: Action, current: &Current, at: i64) -> (r: History)
        ensures
            r.id == 0,
            r.model@ == table@,
            r.row@ == text_of(Some(row@)),
            r.action == action,
            r.user@ == match current.0 {
                Some(u) => u.username@,
                None => Seq::<char>::empty(),
            },
            r.at == at,
    {
        let user = match &current.0 {
            Some(u) => u.username.clone(),
            None => {
                proof {
                    reveal_strlit("");
                }
                String::new()
            },
        };
        History { id: 0, model: chars::owned(table.0), row: text(Some(row)), action, user, at }
    }

    fn copy(&self) -> (r: History)
        ensures
            event_view(r) == event_view(*self),
    {
        History {
            id: self.id,
            model: self.model.clone(),
            row: self.row.clone(),
            action: self.action,
            user: self.user.clone(),
            at: self.at,
        }
    }
}

/// The entries about one row of one table, in order.
pub open spec fn about(events: Seq<History>, table: Seq<char>, id: Seq<char>) -> Seq<History>
    decreases events.len(),
{
    if events.len() == 0 {
        Seq::empty()
    } else {
        let rest = about(events.drop_last(), table, id);
        let e = events.last();
        if e.model@ == table && e.row@ == id { rest.push(e) } else { rest }
    }
}

/// Newest first: no entry comes before a later one.
pub open spec fn newest_first(s: Seq<History>) -> bool {
    forall|i: int, j: int| 0 <= i < j < s.len() ==> (#[trigger] s[i]).at >= (#[trigger] s[j]).at
}

/// `out` is `src` rearranged by `p`: each entry of `out` is the entry of `src` at the position
/// `p` gives, no position twice; newest first, and entries of the same time in `src`'s order.
pub open spec fn stable_by(out: Seq<History>, src: Seq<History>, p: Seq<int>) -> bool {
    &&& p.len() == out.len() && out.len() == src.len()
    &&& forall|k: int| 0 <= k < p.len() ==> 0 <= #[trigger] p[k] < src.len() && event_view(out[k]) == event_view(src[p[k]])
    &&& forall|k: int, l: int| 0 <= k < l < p.len() ==> #[trigger] p[k] != #[trigger] p[l]
    &&& forall|k: int, l: int| 0 <= k < l < out.len() ==> (#[trigger] out[k]).at > (#[trigger] out[l]).at || (
        out[k].at == out[l].at && p[k] < p[l])
}

proof fn stable_insert(before: Seq<History>, src: Seq<History>, p: Seq<int>, pos: int, x: History, e: History)
    requires
        stable_by(before, src, p),
        event_view(x) == event_view(e),
        0 <= pos <= before.len(),
        forall|a: int| 0 <= a < pos ==> (#[trigger] before[a]).at >= x.at,
        pos < before.len() ==> before[pos].at < x.at,
    ensures
        stable_by(before.insert(pos, x), src.push(e), p.insert(pos, src.len() as int)),
{
    let out = before.insert(pos, x);
    let src2 = src.push(e);
    let q = p.insert(pos, src.len() as int);
    assert forall|k: int| 0 <= k < q.len() implies 0 <= #[trigger] q[k] < src2.len() && event_view(out[k]) == event_view(
        src2[q[k]],
    ) by {
        if k < pos {
            assert(q[k] == p[k] && out[k] == before[k]);
        } else if k > pos {
            assert(q[k] == p[k - 1] && out[k] == before[k - 1]);
        }
    }
    assert forall|k: int, l: int| 0 <= k < l < q.len() implies #[trigger] q[k] != #[trigger] q[l] by {
        if l < pos {
            assert(q[k] == p[k] && q[l] == p[l]);
        } else if l == pos {
            assert(q[k] == p[k]);
        } else if k == pos {
            assert(q[l] == p[l - 1]);
        } else if k < pos {
            assert(q[k] == p[k] && q[l] == p[l - 1]);
        } else {
            assert(q[k] == p[k - 1] && q[l] == p[l - 1]);
        }
    }
    assert forall|k: int, l: int| 0 <= k < l < out.len() implies (#[trigger] out[k]).at > (#[trigger] out[l]).at || (
    out[k].at == out[l].at && q[k] < q[l]) by {
        if l < pos {
            assert(out[k] == before[k] && out[l] == before[l] && q[k] == p[k] && q[l] == p[l]);
        } else if l == pos {
            assert(out[k] == before[k] && q[k] == p[k]);
        } else if k == pos {
            assert(out[l] == before[l - 1]);
        } else if k < pos {
            assert(out[k] == before[k] && out[l] == before[l - 1] && q[k] == p[k] && q[l] == p[l - 1]);
        } else {
            assert(out[k] == before[k - 1] && out[l] == before[l - 1] && q[k] == p[k - 1] && q[l] == p[l - 1]);
        }
    }
}

/// The entries about one row of one table, newest first; entries of the same time keep their
/// order.
pub fn recent(events: &Vec<History>, table: &str, id: &str) -> (r: Vec<History>)
    ensures
        events_view(r@).to_multiset() == events_view(about(events@, table@, id@)).to_multiset(),
        newest_first(r@),
        exists|p: Seq<int>| stable_by(r@, about(events@, table@, id@), p),
{
    let mut out: Vec<History> = Vec::new();
    let ghost mut perm: Seq<int> = Seq::empty();
    let mut i: usize = 0;
    assert(events@.take(0) =~= Seq::<History>::empty());
    while i < events.len()
        invariant
            i <= events@.len(),
            events_view(out@).to_multiset() == events_view(about(events@.take(i as int), table@, id@)).to_multiset(),
            newest_first(out@),
            stable_by(out@, about(events@.take(i as int), table@, id@), perm),
        decreases events@.len() - i,
    {
        assert(events@.take(i as int + 1).drop_last() =~= events@.take(i as int));
        let e = &events[i];
        if chars::same(e.model.as_str(), table) && chars::same(e.row.as_str(), id) {
            let x = e.copy();
            let mut pos: usize = 0;
            while pos < out.len() && out[pos].at >= x.at
                invariant
                    pos <= out@.len(),
                    forall|a: int| 0 <= a < pos ==> (#[trigger] out@[a]).at >= x.at,
                decreases out@.len() - pos,
            {
                pos = pos + 1;
            }
            let ghost before = out@;
            let ghost xv = event_view(x);
            out.insert(pos, x);
            proof {
                assert(out@ =~= before.insert(pos as int, x));
                assert(events_view(out@) =~= events_view(before).insert(pos as int, xv));
                vstd::seq_lib::to_multiset_insert(events_view(before), pos as int, xv);
                let prior = about(events@.take(i as int), table@, id@);
                assert(about(events@.take(i as int + 1), table@, id@) == prior.push(events@[i as int]));
                assert(events_view(prior.push(events@[i as int])) =~= events_view(prior).push(xv));
                vstd::seq_lib::to_multiset_build(events_view(prior), xv);
                stable_insert(before, prior, perm, pos as int, x, events@[i as int]);
                perm = perm.insert(pos as int, prior.len() as int);
                assert forall|a: int, b: int| 0 <= a < b < out@.len() implies (#[trigger] out@[a]).at >= (
                #[trigger] out@[b]).at by {
                    if b < pos {
                        assert(out@[a] == before[a] && out@[b] == before[b]);
                    } else if b == pos {
                        assert(out@[a] == before[a]);
                    } else if a == pos {
                        assert(out@[b] == before[b - 1]);
                        assert(before[pos as int].at < x.at);
                    } else if a < pos {
                        assert(out@[a] == before[a] && out@[b] == before[b - 1]);
                    } else {
                        assert(out@[a] == before[a - 1] && out@[b] == before[b - 1]);
                    }
                }
            }
        } else {
            assert(about(events@.take(i as int + 1), table@, id@) == about(events@.take(i as int), table@, id@));
        }
        i = i + 1;
    }
    assert(events@.take(i as int) =~= events@);
    out
}

/// A history line as a page shows it.
#[derive(Debug)]
pub struct Log {
    /// The time, `YYYY-MM-DD HH:MM`.
    pub at: String,
    /// Who did it.
    pub user: String,
    /// What was done.
    pub action: String,
}

/// The lines of the entries, in order.
pub fn lines(events: &Vec<History>) -> (r: Vec<Log>)
    ensures
        r@.len() == events@.len(),
        forall|i: int| 0 <= i < r@.len() ==> {
            &&& (#[trigger] r@[i]).at@ == stamp_of(events@[i].at)
            &&& r@[i].user@ == events@[i].user@
            &&& r@[i].action@ == action_name(events@[i].action)
        },
{
    let mut out: Vec<Log> = Vec::new();
    let mut i: usize = 0;
    while i < events.len()
        invariant
            i <= events@.len(),
            out@.len() == i,
            forall|k: int| 0 <= k < i ==> {
                &&& (#[trigger] out@[k]).at@ == stamp_of(events@[k].at)
                &&& out@[k].user@ == events@[k].user@
                &&& out@[k].action@ == action_name(events@[k].action)
            },
        decreases events@.len() - i,
    {
        let e = &events[i];
        out.push(Log { at: stamp(e.at), user: e.user.clone(), action: chars::owned(e.action.name()) });
        i = i + 1;
    }
    out
}

} // verus!
