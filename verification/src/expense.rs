//! One entry of the ledger and its partial update.

use crate::date::{today, Date};
use vstd::prelude::*;

verus! {

/// One expense. The amount is a single-precision number held as its bit
/// pattern: the ledger stores it and hands it on, and never computes with it.
#[derive(Clone, Debug, PartialEq, Eq)]
pub struct Expense {
    pub id: u32,
    pub amount: u32,
    pub description: String,
    pub date: Date,
}

/// What a record looks like after a partial update: each field that is given
/// replaces the record's, each absent one leaves it as it was. The
/// identifier never changes.
pub open spec fn updated(
    e: Expense,
    description: Option<String>,
    amount: Option<u32>,
    date: Option<Date>,
) -> Expense {
    Expense {
        id: e.id,
        amount: match amount {
            Some(a) => a,
            None => e.amount,
        },
        description: match description {
            Some(d) => d,
            None => e.description,
        },
        date: match date {
            Some(d) => d,
            None => e.date,
        },
    }
}

/// The date of a new record: the one given, or today's where none is.
pub open spec fn date_or(date: Option<Date>, today: Date) -> Date {
    match date {
        Some(d) => d,
        None => today,
    }
}

impl Expense {
    /// A new record dated `date`, or `today` where no date is given.
    pub fn create(
        id: u32,
        description: String,
        amount: u32,
        date: Option<Date>,
        today: Date,
    ) -> (r: Expense)
        ensures
            r == (Expense { id, amount, description, date: date_or(date, today) }),
    {
        let date = match date {
            Some(d) => d,
            None => today,
        };
        Expense { id, amount, description, date }
    }

    /// A new record dated `date`, or with the local clock's date where none
    /// is given.
    pub fn new(id: u32, description: String, amount: u32, date: Option<Date>) -> (r: Expense)
        ensures
            r.id == id,
            r.amount == amount,
            r.description == description,
            date matches Some(d) ==> r.date == d,
            date.is_none() ==> r.date.wf(),
    {
        match date {
            Some(d) => Expense::create(id, description, amount, Some(d), d),
            None => Expense::create(id, description, amount, None, today()),
        }
    }

    /// Replaces each field for which a value is given and leaves the others
    /// untouched.
    pub fn update(
        &mut self,
        description: Option<String>,
        amount: Option<u32>,
        date: Option<Date>,
    )
        ensures
            *final(self) == updated(*old(self), description, amount, date),
    {
        if let Some(d) = description {
            self.description = d;
        }
        if let Some(a) = amount {
            self.amount = a;
        }
        if let Some(d) = date {
            self.date = d;
        }
    }
}

/// A partial update touches nothing but the fields it names: with only an
/// amount given the description and the date stay, and so for each field
/// on its own; with nothing given the record stays as it is.
pub proof fn lemma_update_leaves_absent_fields(
    e: Expense,
    description: Option<String>,
    amount: Option<u32>,
    date: Option<Date>,
)
    ensures
        updated(e, description, amount, date).id == e.id,
        description.is_none() ==> updated(e, description, amount, date).description
            == e.description,
        amount.is_none() ==> updated(e, description, amount, date).amount == e.amount,
        date.is_none() ==> updated(e, description, amount, date).date == e.date,
        description matches Some(d) ==> updated(e, description, amount, date).description == d,
        amount matches Some(a) ==> updated(e, description, amount, date).amount == a,
        date matches Some(d) ==> updated(e, description, amount, date).date == d,
        updated(e, None, None, None) == e,
{
}

} // verus!
