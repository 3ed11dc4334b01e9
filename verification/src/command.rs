//! The five commands and what each does to a loaded ledger.

use crate::date::{today, Date};
use crate::expense::{date_or, updated, Expense};
use crate::ledger::{
    add_expense, delete_expense, filter_by_month, first_with_id, has_id, max_id, retained,
    update_expense, Filter, LedgerError,
};
use vstd::prelude::*;

verus! {

/// One command against the ledger.
#[derive(Clone, Debug, PartialEq, Eq)]
pub enum Command {
    Add { description: String, amount: u32, date: Option<Date> },
    Update { id: u32, description: Option<String>, amount: Option<u32>, date: Option<Date> },
    Delete { id: u32 },
    List { month: Option<u32> },
    Summary { month: Option<u32> },
}

/// What a command that went through asks of the caller.
#[derive(Clone, Copy, Debug, PartialEq, Eq, Structural)]
pub enum Outcome {
    /// A record was added under this identifier; the ledger is to be persisted.
    Added { id: u32 },
    /// The record with this identifier was updated; the ledger is to be persisted.
    Updated { id: u32 },
    /// The records with this identifier are gone; the ledger is to be persisted.
    Deleted { id: u32 },
    /// The ledger now holds the records to show; nothing is persisted.
    Listed,
    /// The ledger now holds the records to total, for this month if one
    /// was given; nothing is persisted.
    Summarized { month: Option<u32> },
}

impl Outcome {
    /// Whether the ledger changed and is to be written back.
    pub open spec fn persists(&self) -> bool {
        *self is Added || *self is Updated || *self is Deleted
    }

    /// Whether the ledger changed and is to be written back.
    pub fn must_persist(&self) -> (r: bool)
        ensures
            r == self.persists(),
    {
        match self {
            Outcome::Added { .. } | Outcome::Updated { .. } | Outcome::Deleted { .. } => true,
            Outcome::Listed | Outcome::Summarized { .. } => false,
        }
    }
}

/// The records of a month of the year of `today`; the whole ledger where
/// no month is given; an error where the month is no month.
pub open spec fn month_view(before: Seq<Expense>, month: Option<u32>, today: Date) -> Result<
    Seq<Expense>,
    LedgerError,
> {
    match month {
        None => Ok(before),
        Some(m) => if 1 <= m <= 12 {
            Ok(retained(before, Filter::InMonth { month: m, year: today.year }))
        } else {
            Err(LedgerError::InvalidMonth)
        },
    }
}

/// The ledger after a command and what the caller is to do, or the error
/// with which the command is turned down.
pub open spec fn step(before: Seq<Expense>, command: Command, today: Date) -> Result<
    (Seq<Expense>, Outcome),
    LedgerError,
> {
    match command {
        Command::Add { description, amount, date } => if max_id(before) < u32::MAX {
            let id = (max_id(before) + 1) as u32;
            let date = date_or(date, today);
            Ok((before.push(Expense { id, amount, description, date }), Outcome::Added { id }))
        } else {
            Err(LedgerError::IdSpaceExhausted)
        },
        Command::Update { id, description, amount, date } => if has_id(before, id) {
            let i = first_with_id(before, id);
            Ok(
                (
                    before.update(i, updated(before[i], description, amount, date)),
                    Outcome::Updated { id },
                ),
            )
        } else {
            Err(LedgerError::NotFound)
        },
        Command::Delete { id } => if has_id(before, id) {
            Ok((retained(before, Filter::ExceptId(id)), Outcome::Deleted { id }))
        } else {
            Err(LedgerError::NotFound)
        },
        Command::List { month } => match month_view(before, month, today) {
            Ok(after) => Ok((after, Outcome::Listed)),
            Err(e) => Err(e),
        },
        Command::Summary { month } => match month_view(before, month, today) {
            Ok(after) => Ok((after, Outcome::Summarized { month })),
            Err(e) => Err(e),
        },
    }
}

/// Carries out one command on the loaded ledger, with `today` as the
/// current date. A command that is turned down leaves the ledger as it was.
pub fn execute(records: &mut Vec<Expense>, command: Command, today: Date) -> (r: Result<
    Outcome,
    LedgerError,
>)
    ensures
        match step(old(records)@, command, today) {
            Ok((after, outcome)) => r == Ok::<Outcome, LedgerError>(outcome) && final(records)@
                == after,
            Err(e) => r == Err::<Outcome, LedgerError>(e) && final(records)@ == old(records)@,
        },
{
    match command {
        Command::Add { description, amount, date } => {
            match add_expense(records, description, amount, date, today) {
                Ok(id) => Ok(Outcome::Added { id }),
                Err(e) => Err(e),
            }
        },
        Command::Update { id, description, amount, date } => {
            match update_expense(records, id, description, amount, date) {
                Ok(()) => Ok(Outcome::Updated { id }),
                Err(e) => Err(e),
            }
        },
        Command::Delete { id } => {
            match delete_expense(records, id) {
                Ok(()) => Ok(Outcome::Deleted { id }),
                Err(e) => Err(e),
            }
        },
        Command::List { month } => {
            match filter_by_month(records, month, today.year) {
                Ok(()) => Ok(Outcome::Listed),
                Err(e) => Err(e),
            }
        },
        Command::Summary { month } => {
            match filter_by_month(records, month, today.year) {
                Ok(()) => Ok(Outcome::Summarized { month }),
                Err(e) => Err(e),
            }
        },
    }
}

/// Carries out one command on the loaded ledger, with the local clock's
/// date as the current date.
pub fn run_command(records: &mut Vec<Expense>, command: Command) -> (r: Result<
    Outcome,
    LedgerError,
>)
    ensures
        exists|today: Date|
            today.wf() && match #[trigger] step(old(records)@, command, today) {
                Ok((after, outcome)) => r == Ok::<Outcome, LedgerError>(outcome) && final(records)@ == after,
                Err(e) => r == Err::<Outcome, LedgerError>(e) && final(records)@ == old(records)@,
            },
{
    let now = today();
    execute(records, command, now)
}

/// A command that is turned down changes nothing, and only a command that
/// adds, updates or deletes asks for the ledger to be written back: listing
/// and summarizing never do.
pub proof fn lemma_reads_never_persist(before: Seq<Expense>, command: Command, today: Date)
    ensures
        step(before, command, today) matches Ok((after, outcome)) ==> (outcome.persists() <==> (
        command is Add || command is Update || command is Delete)),
        (command matches Command::List { month } && month == None::<u32>) ==> step(
            before,
            command,
            today,
        ) == Ok::<(Seq<Expense>, Outcome), LedgerError>((before, Outcome::Listed)),
{
}

/// A month that is no month fails listing and summarizing alike, whatever
/// the ledger holds.
pub proof fn lemma_invalid_month_is_refused(before: Seq<Expense>, month: u32, today: Date)
    requires
        month < 1 || month > 12,
    ensures
        step(before, Command::List { month: Some(month) }, today) == Err::<
            (Seq<Expense>, Outcome),
            LedgerError,
        >(LedgerError::InvalidMonth),
        step(before, Command::Summary { month: Some(month) }, today) == Err::<
            (Seq<Expense>, Outcome),
            LedgerError,
        >(LedgerError::InvalidMonth),
{
}

} // verus!
