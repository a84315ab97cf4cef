//! Form validation messages.

use vstd::prelude::*;

use crate::text;

verus! {

/// Validation message for a single field.
#[derive(Debug)]
pub struct FieldError {
    /// The field the message is about.
    pub field: String,
    /// What is wrong with it.
    pub message: String,
}

impl FieldError {
    /// New error for the given field with the given message.
    pub fn new(field: &str, message: &str) -> (r: FieldError)
        ensures
            r.field@ == field@,
            r.message@ == message@,
    {
        FieldError { field: text::owned(field), message: text::owned(message) }
    }
}

/// Validation errors, in the order they were found.
#[derive(Debug)]
pub struct Errors(pub Vec<FieldError>);

/// The field and message of each error, in order.
pub open spec fn pairs_of(v: Seq<FieldError>) -> Seq<(Seq<char>, Seq<char>)> {
    v.map_values(|e: FieldError| (e.field@, e.message@))
}

/// The index of the first error about `field`, if any.
pub open spec fn first_for(v: Seq<(Seq<char>, Seq<char>)>, field: Seq<char>) -> Option<int>
    decreases v.len(),
{
    if v.len() == 0 {
        None
    } else {
        match first_for(v.drop_last(), field) {
            Some(k) => Some(k),
            None => if v.last().0 == field { Some(v.len() - 1) } else { None },
        }
    }
}

/// The first error about a field is about that field, and none before it is.
pub proof fn first_for_is_first(v: Seq<(Seq<char>, Seq<char>)>, field: Seq<char>)
    ensures
        match first_for(v, field) {
            Some(k) => 0 <= k < v.len() && v[k].0 == field && forall|j: int| 0 <= j < k ==> #[trigger] v[j].0 != field,
            None => forall|j: int| 0 <= j < v.len() ==> #[trigger] v[j].0 != field,
        },
    decreases v.len(),
{
    if v.len() > 0 {
        let w = v.drop_last();
        first_for_is_first(w, field);
        match first_for(w, field) {
            Some(k) => {
                assert forall|j: int| 0 <= j < k implies #[trigger] v[j].0 != field by {
                    assert(v[j] == w[j]);
                }
                assert(v[k] == w[k]);
            },
            None => {
                assert forall|j: int| 0 <= j < v.len() - 1 implies #[trigger] v[j].0 != field by {
                    assert(v[j] == w[j]);
                }
            },
        }
    }
}

proof fn first_for_extends(v: Seq<(Seq<char>, Seq<char>)>, field: Seq<char>, n: int)
    requires
        0 <= n <= v.len(),
        first_for(v.take(n), field) is Some,
    ensures
        first_for(v, field) == first_for(v.take(n), field),
    decreases v.len() - n,
{
    if n < v.len() {
        assert(v.take(n + 1).drop_last() =~= v.take(n));
        first_for_extends(v, field, n + 1);
    } else {
        assert(v.take(n) =~= v);
    }
}

/// The first message about `field`, or empty when there is none.
pub open spec fn message_for(v: Seq<(Seq<char>, Seq<char>)>, field: Seq<char>) -> Seq<char> {
    match first_for(v, field) {
        Some(i) => v[i].1,
        None => Seq::empty(),
    }
}

impl View for Errors {
    type V = Seq<(Seq<char>, Seq<char>)>;

    open spec fn view(&self) -> Seq<(Seq<char>, Seq<char>)> {
        pairs_of(self.0@)
    }
}

impl Errors {
    /// Empty error set.
    pub fn new() -> (r: Errors)
        ensures
            r@ == Seq::<(Seq<char>, Seq<char>)>::empty(),
    {
        Errors(Vec::new())
    }

    /// Errors made of the given list.
    pub fn from_list(fields: Vec<FieldError>) -> (r: Errors)
        ensures
            r@ == pairs_of(fields@),
    {
        Errors(fields)
    }

    /// Adds an error for the given field.
    pub fn push(&mut self, field: &str, message: &str)
        ensures
            final(self)@ == old(self)@.push((field@, message@)),
    {
        let e = FieldError::new(field, message);
        let ghost before = self.0@;
        self.0.push(e);
        assert(pairs_of(self.0@) =~= pairs_of(before).push((field@, message@)));
    }

    fn index_of(&self, field: &str) -> (r: Option<usize>)
        ensures
            match r {
                Some(i) => first_for(self@, field@) == Some(i as int) && i < self.0@.len(),
                None => first_for(self@, field@) is None,
            },
    {
        let ghost v = self@;
        let mut i: usize = 0;
        while i < self.0.len()
            invariant
                i <= self.0@.len(),
                v == self@,
                v.len() == self.0@.len(),
                first_for(v.take(i as int), field@) is None,
            decreases self.0@.len() - i,
        {
            assert(v.take(i as int + 1).drop_last() =~= v.take(i as int));
            assert(v[i as int].0 == self.0@[i as int].field@);
            if text::same(self.0[i].field.as_str(), field) {
                proof {
                    first_for_extends(v, field@, i as int + 1);
                }
                return Some(i);
            }
            i = i + 1;
        }
        assert(v.take(i as int) =~= v);
        None
    }

    /// The first error about the given field, if any.
    pub fn get(&self, field: &str) -> (r: Option<&FieldError>)
        ensures
            match r {
                Some(e) => first_for(self@, field@) is Some && e.field@ == field@
                    && e.message@ == message_for(self@, field@),
                None => first_for(self@, field@) is None,
            },
    {
        match self.index_of(field) {
            Some(i) => {
                assert(self@[i as int] == (self.0@[i as int].field@, self.0@[i as int].message@));
                proof {
                    first_for_is_first(self@, field@);
                }
                Some(&self.0[i])
            },
            None => None,
        }
    }

    /// The first message for the given field, or empty if there is none.
    pub fn message(&self, field: &str) -> (r: &str)
        ensures
            r@ == message_for(self@, field@),
    {
        match self.index_of(field) {
            Some(i) => {
                assert(self@[i as int] == (self.0@[i as int].field@, self.0@[i as int].message@));
                self.0[i].message.as_str()
            },
            None => {
                proof {
                    reveal_strlit("");
                }
                ""
            },
        }
    }

    /// True when the form has no errors.
    pub fn valid(&self) -> (r: bool)
        ensures
            r == (self@.len() == 0),
    {
        self.0.len() == 0
    }

    /// The errors, in the order they were found.
    pub fn into_list(self) -> (r: Vec<FieldError>)
        ensures
            pairs_of(r@) == self@,
    {
        self.0
    }
}

impl Default for Errors {
    fn default() -> (r: Errors)
        ensures
            r@ == Seq::<(Seq<char>, Seq<char>)>::empty(),
    {
        Errors::new()
    }
}

/// Types that report their validation errors.
pub trait Valid {
    /// The validation errors of the value, by content, as `errors` reports them. A verified
    /// implementation states them; a type that does not has none.
    open spec fn errors_spec(&self) -> Seq<(Seq<char>, Seq<char>)> {
        Seq::empty()
    }

    /// Validation errors for this value.
    fn errors(&self) -> (r: Errors)
        ensures
            r@ == self.errors_spec();

    /// True when the value has no validation errors.
    fn valid(&self) -> (r: bool)
        ensures
            r == (self.errors_spec().len() == 0),
    {
        self.errors().valid()
    }

    /// The value itself when it has no validation errors, else its errors, of which there is
    /// then at least one.
    fn clean(self) -> (r: Result<Self, Errors>)
        where Self: Sized,
        ensures
            self.errors_spec().len() == 0 ==> (r matches Ok(v) && v == self),
            self.errors_spec().len() > 0 ==> (r matches Err(e) && e@ == self.errors_spec()),
            r matches Err(e) ==> e@.len() > 0,
    {
        let errors = self.errors();
        if errors.valid() {
            Ok(self)
        } else {
            Err(errors)
        }
    }
}

/// A message pushed for a field is the one read back for it, unless an earlier one stands;
/// other fields read what they read before.
pub proof fn push_then_read(before: Seq<(Seq<char>, Seq<char>)>, field: Seq<char>, message: Seq<char>, other: Seq<char>)
    ensures
        message_for(before.push((field, message)), field)
            == (if first_for(before, field) is Some { message_for(before, field) } else { message }),
        other != field ==> message_for(before.push((field, message)), other) == message_for(before, other),
        before.push((field, message)).len() > 0,
{
    let after = before.push((field, message));
    assert(after.drop_last() =~= before);
    first_for_is_first(before, field);
    first_for_is_first(before, other);
    match first_for(before, field) {
        Some(k) => assert(after[k] == before[k]),
        None => {},
    }
    match first_for(before, other) {
        Some(k) => assert(after[k] == before[k]),
        None => {},
    }
}

} // verus!
