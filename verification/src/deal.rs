//! Transactions ("deals") taken from a store: open until settled once, by a commit or a
//! rollback; every use after that is refused, and a deal cannot open another.

use vstd::prelude::*;

use crate::text;
use crate::value::StoreError;

verus! {

/// What settling a deal asks of the database.
pub enum Finish {
    /// Keep every write made through the deal.
    Commit,
    /// Discard every write made through the deal.
    Rollback,
}

/// The error every use of a settled deal meets.
pub open spec fn is_settled_error(e: StoreError) -> bool {
    e matches StoreError::Value(m) && m@ == "settled deal"@
}

/// Settling a deal that is open (`true`) or settled (`false`): whether it is open afterwards,
/// and the finish asked of the database or `None` for the refusal.
pub open spec fn settle_step(open: bool, commit: bool) -> (bool, Option<Finish>) {
    if open {
        (false, Some(if commit { Finish::Commit } else { Finish::Rollback }))
    } else {
        (false, None)
    }
}

/// The state of one transaction.
pub struct Deal {
    open: bool,
}

fn settled_error() -> (r: StoreError)
    ensures
        is_settled_error(r),
{
    StoreError::Value(text::owned("settled deal"))
}

impl Deal {
    /// Whether the deal still takes statements.
    pub closed spec fn is_open(self) -> bool {
        self.open
    }

    /// A deal just begun: open.
    pub fn begin() -> (r: Deal)
        ensures
            r.is_open(),
    {
        Deal { open: true }
    }

    /// Whether the deal still takes statements.
    pub fn open(&self) -> (r: bool)
        ensures
            r == self.is_open(),
    {
        self.open
    }

    /// A statement through the deal: allowed while it is open, refused once it is settled.
    pub fn check(&self) -> (r: Result<(), StoreError>)
        ensures
            self.is_open() ==> r is Ok,
            !self.is_open() ==> (r matches Err(e) && is_settled_error(e)),
    {
        if self.open { Ok(()) } else { Err(settled_error()) }
    }

    /// Settles the deal: an open one closes and asks for the commit or the rollback; a settled
    /// one is refused and stays settled.
    pub fn settle(&mut self, commit: bool) -> (r: Result<Finish, StoreError>)
        ensures
            final(self).is_open() == settle_step(old(self).is_open(), commit).0,
            match settle_step(old(self).is_open(), commit).1 {
                Some(f) => r matches Ok(g) && g == f,
                None => r matches Err(e) && is_settled_error(e),
            },
    {
        if self.open {
            self.open = false;
            if commit { Ok(Finish::Commit) } else { Ok(Finish::Rollback) }
        } else {
            Err(settled_error())
        }
    }

    /// Opening a deal inside a deal: always refused.
    pub fn nest(&self) -> (r: StoreError)
        ensures
            r matches StoreError::Unsupported(m) && m@ == "nested deal"@,
    {
        StoreError::Unsupported(text::owned("nested deal"))
    }
}

/// A deal is settled at most once: whatever the first settle did, a second one is refused and
/// leaves it settled.
pub proof fn settles_once(open: bool, first: bool, second: bool)
    ensures
        settle_step(settle_step(open, first).0, second) == (false, None::<Finish>),
{
}

} // verus!
