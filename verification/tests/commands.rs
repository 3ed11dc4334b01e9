use expense_ledger::command::{execute, run_command, Command, Outcome};
use expense_ledger::date::Date;
use expense_ledger::expense::Expense;
use expense_ledger::ledger::LedgerError;
use expense_ledger::store::{load_rows, save_rows, to_expenses, to_rows};

fn day(year: i32, month: u32, day: u32) -> Date {
    Date::new(year, month, day).expect("a day that exists")
}

fn record(id: u32, description: &str, amount: f32, date: Date) -> Expense {
    Expense { id, amount: amount.to_bits(), description: description.to_string(), date }
}

fn persist_and_reload(ledger: &Vec<Expense>) -> Vec<Expense> {
    let texts: Vec<String> = ledger.iter().map(|e| f32::from_bits(e.amount).to_string()).collect();
    let rows = to_rows(ledger, &texts).expect("one text for each record");
    let text = save_rows(&rows).expect("written");
    let rows = load_rows(&text);
    let amounts: Vec<Option<u32>> =
        rows.iter().map(|r| r.amount.parse::<f32>().ok().map(f32::to_bits)).collect();
    to_expenses(&rows, &amounts).expect("one amount for each row")
}

fn total(ledger: &[Expense]) -> f32 {
    ledger.iter().fold(0.0, |acc, e| f32::from_bits(e.amount) + acc)
}

#[test]
fn a_session_of_commands() {
    let today = day(2024, 6, 15);
    let mut ledger = persist_and_reload(&Vec::new());
    assert!(ledger.is_empty());

    let add = Command::Add {
        description: "coffee".to_string(),
        amount: 3.5f32.to_bits(),
        date: Some(day(2024, 1, 5)),
    };
    assert_eq!(execute(&mut ledger, add, today), Ok(Outcome::Added { id: 1 }));
    assert_eq!(ledger, vec![record(1, "coffee", 3.5, day(2024, 1, 5))]);
    ledger = persist_and_reload(&ledger);

    let add = Command::Add {
        description: "book".to_string(),
        amount: 12.0f32.to_bits(),
        date: Some(day(2024, 2, 1)),
    };
    assert_eq!(execute(&mut ledger, add, today), Ok(Outcome::Added { id: 2 }));
    ledger = persist_and_reload(&ledger);

    let update =
        Command::Update { id: 1, description: None, amount: Some(4.0f32.to_bits()), date: None };
    assert_eq!(execute(&mut ledger, update, today), Ok(Outcome::Updated { id: 1 }));
    assert_eq!(ledger[0], record(1, "coffee", 4.0, day(2024, 1, 5)));
    ledger = persist_and_reload(&ledger);

    assert_eq!(execute(&mut ledger, Command::Delete { id: 2 }, today), Ok(Outcome::Deleted { id: 2 }));
    assert_eq!(ledger, vec![record(1, "coffee", 4.0, day(2024, 1, 5))]);
    ledger = persist_and_reload(&ledger);

    let mut listed = ledger.clone();
    assert_eq!(execute(&mut listed, Command::List { month: Some(1) }, today), Ok(Outcome::Listed));
    assert_eq!(listed, vec![record(1, "coffee", 4.0, day(2024, 1, 5))]);

    let mut summed = ledger.clone();
    assert_eq!(
        execute(&mut summed, Command::Summary { month: Some(1) }, today),
        Ok(Outcome::Summarized { month: Some(1) })
    );
    assert_eq!(total(&summed), 4.0);
}

#[test]
fn summary_of_nothing_is_zero() {
    let today = day(2024, 6, 15);
    let mut ledger = vec![record(1, "coffee", 4.0, day(2024, 1, 5))];
    assert_eq!(
        execute(&mut ledger, Command::Summary { month: Some(3) }, today),
        Ok(Outcome::Summarized { month: Some(3) })
    );
    assert!(ledger.is_empty());
    assert_eq!(total(&ledger), 0.0);
}

#[test]
fn commands_that_fail_change_nothing() {
    let today = day(2024, 6, 15);
    let mut ledger = vec![record(1, "coffee", 4.0, day(2024, 1, 5))];
    let before = ledger.clone();
    assert_eq!(execute(&mut ledger, Command::Delete { id: 9 }, today), Err(LedgerError::NotFound));
    let update = Command::Update { id: 9, description: None, amount: None, date: None };
    assert_eq!(execute(&mut ledger, update, today), Err(LedgerError::NotFound));
    assert_eq!(
        execute(&mut ledger, Command::List { month: Some(0) }, today),
        Err(LedgerError::InvalidMonth)
    );
    assert_eq!(
        execute(&mut ledger, Command::Summary { month: Some(13) }, today),
        Err(LedgerError::InvalidMonth)
    );
    assert_eq!(ledger, before);
}

#[test]
fn add_without_date_takes_today() {
    let today = day(2024, 6, 15);
    let mut ledger = vec![record(5, "old", 1.0, day(2020, 1, 1))];
    let add = Command::Add { description: "new".to_string(), amount: 0, date: None };
    assert_eq!(execute(&mut ledger, add, today), Ok(Outcome::Added { id: 6 }));
    assert_eq!(ledger[1], record(6, "new", 0.0, today));
}

#[test]
fn only_changes_are_persisted() {
    assert!(Outcome::Added { id: 1 }.must_persist());
    assert!(Outcome::Updated { id: 1 }.must_persist());
    assert!(Outcome::Deleted { id: 1 }.must_persist());
    assert!(!Outcome::Listed.must_persist());
    assert!(!Outcome::Summarized { month: None }.must_persist());
}

#[test]
fn run_command_uses_the_clock() {
    let mut ledger: Vec<Expense> = Vec::new();
    let add = Command::Add { description: "now".to_string(), amount: 1, date: None };
    let before = chrono::Local::now().date_naive();
    assert_eq!(run_command(&mut ledger, add), Ok(Outcome::Added { id: 1 }));
    let after = chrono::Local::now().date_naive();
    let d = ledger[0].date;
    let got = chrono::NaiveDate::from_ymd_opt(d.year, d.month, d.day).expect("a real day");
    assert!(before <= got && got <= after);
    assert_eq!(run_command(&mut ledger, Command::List { month: None }), Ok(Outcome::Listed));
    assert_eq!(ledger.len(), 1);
    assert_eq!(
        run_command(&mut ledger, Command::List { month: Some(13) }),
        Err(LedgerError::InvalidMonth)
    );
}
