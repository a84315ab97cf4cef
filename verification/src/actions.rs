//! Bulk actions on the rows a list page selects: which action a submitted form asks for, on
//! which keys, and where the browser goes afterwards.

use vstd::prelude::*;

use crate::encoding::{form_decode, form_decoded, form_encode, form_text, pair_texts};
use crate::listing::{find_value, lookup};
use crate::pages::{back, back_of};
use crate::spec::{key_for, Name, Schema};
use crate::text;
use crate::value::{Cell, Key};

verus! {

/// A bulk action a model offers on selected rows. What it does is the caller's; the library
/// knows its name and how it is shown.
#[derive(Clone, Copy, Debug, PartialEq, Eq)]
pub struct Deed {
    /// Name the form submits.
    pub name: Name,
    /// Label shown on the page.
    pub title: &'static str,
    /// Whether each row it touches is written to the history.
    pub logged: bool,
    /// Whether it applies to selected rows.
    pub row: bool,
}

impl Deed {
    /// The built-in action that deletes the selected rows.
    pub fn wipe() -> (r: Deed)
        ensures
            r.name@ == "wipe"@,
            r.title@ == "Delete"@,
            r.logged,
            r.row,
    {
        Deed { name: Name("wipe"), title: "Delete", logged: true, row: true }
    }
}

/// The message of the delete action after `n` rows.
pub open spec fn wiped_text(n: nat) -> Seq<char> {
    if n == 1 { "Deleted 1 row."@ } else { "Deleted "@ + text::digits(n) + " rows."@ }
}

/// The message of the delete action after `n` rows.
pub fn wiped(n: usize) -> (r: String)
    ensures
        r@ == wiped_text(n as nat),
{
    if n == 1 {
        text::owned("Deleted 1 row.")
    } else {
        let mut m = text::owned("Deleted ");
        let d = text::size_text(n);
        text::push_str(&mut m, d.as_str());
        text::push_str(&mut m, " rows.");
        m
    }
}

/// The value of the first pair with the name, empty when there is none.
pub open spec fn field_of(pairs: Seq<(Seq<char>, Seq<char>)>, name: Seq<char>) -> Seq<char> {
    match find_value(pairs, name) {
        Some(v) => v,
        None => Seq::empty(),
    }
}

/// The text without its leading `?`s.
pub open spec fn trim_marks(s: Seq<char>) -> Seq<char>
    decreases s.len(),
{
    if s.len() > 0 && s[0] == '?' { trim_marks(s.drop_first()) } else { s }
}

/// Where the browser goes after an action: the list the form came from, with the query it
/// kept (the form's `back` field) and the message as `notice`.
pub open spec fn notice_target(path: Seq<char>, pairs: Seq<(Seq<char>, Seq<char>)>, msg: Seq<char>) -> Seq<char> {
    let base = back_of(path, 1);
    let kept = trim_marks(field_of(pairs, "back"@));
    let extra = form_text(seq![("notice"@, msg)]);
    if kept.len() == 0 { base + "?"@ + extra } else { base + "?"@ + kept + "&"@ + extra }
}

/// The position of the first action with the name, if any.
pub open spec fn deed_index(deeds: Seq<Deed>, name: Seq<char>) -> Option<int> {
    if exists|i: int| 0 <= i < deeds.len() && deeds[i].name@ == name {
        Some(choose|i: int| 0 <= i < deeds.len() && deeds[i].name@ == name && forall|j: int|
            0 <= j < i ==> deeds[j].name@ != name)
    } else {
        None
    }
}

/// The keys the form selects: each `ids` value read against the schema, in order.
pub open spec fn selected(pairs: Seq<(Seq<char>, Seq<char>)>, fields: Seq<crate::spec::Field>) -> Seq<Cell>
    decreases pairs.len(),
{
    if pairs.len() == 0 {
        Seq::empty()
    } else {
        let rest = selected(pairs.drop_last(), fields);
        if pairs.last().0 == "ids"@ { rest.push(key_for(pairs.last().1, fields)) } else { rest }
    }
}

/// What a submitted bulk-action form leads to.
#[derive(Debug)]
pub enum Step {
    /// Nothing to run: send the browser to the address.
    Go(String),
    /// Run the action at this position on the keys.
    Run {
        /// Position of the action.
        deed: usize,
        /// Keys of the selected rows.
        keys: Vec<Key>,
    },
}

fn field(pairs: &Vec<(String, String)>, name: &str) -> (r: String)
    ensures
        r@ == field_of(pair_texts(pairs@), name@),
{
    match lookup(pairs, name) {
        Some(v) => v,
        None => {
            proof {
                reveal_strlit("");
            }
            String::new()
        },
    }
}

fn notice_url(pairs: &Vec<(String, String)>, path: &str, msg: &str) -> (r: String)
    ensures
        r@ == notice_target(path@, pair_texts(pairs@), msg@),
{
    let base = back(path, 1);
    let raw = field(pairs, "back");
    let cs = text::chars(raw.as_str());
    let mut i: usize = 0;
    assert(cs@.skip(0) =~= cs@);
    while i < cs.len() && cs[i] == '?'
        invariant
            i <= cs@.len(),
            cs@ == raw@,
            trim_marks(raw@) == trim_marks(cs@.skip(i as int)),
        decreases cs@.len() - i,
    {
        assert(cs@.skip(i as int).drop_first() =~= cs@.skip(i as int + 1));
        i = i + 1;
    }
    let kept = text::slice(cs.as_slice(), i, cs.len());
    assert(kept@ =~= cs@.skip(i as int));
    let mut note: Vec<(String, String)> = Vec::new();
    note.push((text::owned("notice"), text::owned(msg)));
    assert(pair_texts(note@) =~= seq![("notice"@, msg@)]);
    let extra = form_encode(&note);
    let mut out = base;
    text::push_str(&mut out, "?");
    if kept.len() > 0 {
        let k = text::string_of(kept.as_slice());
        text::push_str(&mut out, k.as_str());
        text::push_str(&mut out, "&");
    }
    text::push_str(&mut out, extra.as_str());
    out
}

fn find_deed(deeds: &Vec<Deed>, name: &str) -> (r: Option<usize>)
    ensures
        match r {
            Some(i) => deed_index(deeds@, name@) == Some(i as int) && i < deeds@.len(),
            None => deed_index(deeds@, name@) is None,
        },
{
    let mut i: usize = 0;
    while i < deeds.len()
        invariant
            i <= deeds@.len(),
            forall|j: int| 0 <= j < i ==> deeds@[j].name@ != name@,
        decreases deeds@.len() - i,
    {
        if text::same(deeds[i].name.0, name) {
            proof {
                let k = deed_index(deeds@, name@).unwrap();
                assert(k == i as int) by {
                    if k < i {
                    } else if k > i {
                        assert(deeds@[i as int].name@ == name@);
                    }
                }
            }
            return Some(i);
        }
        i = i + 1;
    }
    None
}

/// The keys' values, in order.
pub open spec fn key_cells(keys: Seq<Key>) -> Seq<Cell> {
    keys.map_values(|k: Key| k.cell())
}

fn keys_of(pairs: &Vec<(String, String)>, schema: &Schema) -> (r: Vec<Key>)
    ensures
        key_cells(r@) == selected(pair_texts(pairs@), schema.fields@),
{
    let ghost all = pair_texts(pairs@);
    let mut out: Vec<Key> = Vec::new();
    let mut i: usize = 0;
    while i < pairs.len()
        invariant
            i <= pairs@.len(),
            all == pair_texts(pairs@),
            key_cells(out@) == selected(all.take(i as int), schema.fields@),
        decreases pairs@.len() - i,
    {
        assert(all.take(i as int + 1).drop_last() =~= all.take(i as int));
        assert(all[i as int] == (pairs@[i as int].0@, pairs@[i as int].1@));
        if text::same(pairs[i].0.as_str(), "ids") {
            let k = Key::parse(pairs[i].1.as_str(), schema);
            let ghost before = out@;
            out.push(k);
            assert(key_cells(out@) =~= key_cells(before).push(k.cell()));
        }
        i = i + 1;
    }
    assert(all.take(i as int) =~= all);
    out
}

/// What a submitted bulk-action form asks for: the action named by its `action` field on the
/// keys of its `ids` fields, or, when the action is unknown or no row is selected, the address
/// to send the browser to with the notice saying so.
pub fn act(body: &str, deeds: &Vec<Deed>, schema: &Schema, path: &str) -> (r: Step)
    ensures
        ({
            let pairs = form_decoded(body@);
            match deed_index(deeds@, field_of(pairs, "action"@)) {
                None => r matches Step::Go(u) && u@ == notice_target(path@, pairs, "Unknown action."@),
                Some(d) => if selected(pairs, schema.fields@).len() == 0 {
                    r matches Step::Go(u) && u@ == notice_target(path@, pairs, "No rows selected."@)
                } else {
                    r matches Step::Run { deed, keys } && deed == d && key_cells(keys@) == selected(
                        pairs,
                        schema.fields@,
                    )
                },
            }
        }),
{
    let pairs = form_decode(body);
    let name = field(&pairs, "action");
    let d = match find_deed(deeds, name.as_str()) {
        Some(d) => d,
        None => return Step::Go(notice_url(&pairs, path, "Unknown action.")),
    };
    let keys = keys_of(&pairs, schema);
    if keys.len() == 0 {
        return Step::Go(notice_url(&pairs, path, "No rows selected."));
    }
    Step::Run { deed: d, keys }
}

/// Where the browser goes after the action ran and said `msg`.
pub fn finish(body: &str, path: &str, msg: &str) -> (r: String)
    ensures
        r@ == notice_target(path@, form_decoded(body@), msg@),
{
    let pairs = form_decode(body);
    notice_url(&pairs, path, msg)
}

} // verus!
