use expense_ledger::date::Date;
use expense_ledger::expense::Expense;
use expense_ledger::store::{
    empty_ledger_text, keep_present, load_rows, load_rows_strict, require_present, save_rows,
    to_expenses, to_rows, Row, StoreError,
};

fn row(id: u32, y: i32, m: u32, d: u32, description: &str, amount: &str) -> Row {
    Row {
        id,
        date: Date { year: y, month: m, day: d },
        description: description.to_string(),
        amount: amount.to_string(),
    }
}

#[test]
fn empty_ledger_is_the_header_alone() {
    assert_eq!(empty_ledger_text(), b"id;date;description;amount\n".to_vec());
    assert_eq!(save_rows(&Vec::new()), Ok(b"id;date;description;amount\n".to_vec()));
    assert_eq!(load_rows(&empty_ledger_text()), Vec::new());
    assert_eq!(load_rows(b""), Vec::new());
    assert_eq!(load_rows(b"id;date;description;amount"), Vec::new());
}

#[test]
fn rows_are_written_in_order_with_semicolons() {
    let rows = vec![row(1, 2024, 1, 5, "coffee", "3.5"), row(2, 2024, 2, 1, "book", "12")];
    let text = save_rows(&rows).expect("rows with real dates are written");
    assert_eq!(
        String::from_utf8(text).expect("text"),
        "id;date;description;amount\n1;2024-01-05;coffee;3.5\n2;2024-02-01;book;12\n"
    );
}

#[test]
fn saved_rows_load_back_equal() {
    let rows = vec![
        row(3, 2024, 1, 5, "coffee; with milk", "3.5"),
        row(1, 1999, 12, 31, "said \"hello\"", "-0.25"),
        row(7, 2024, 2, 29, "two\nlines", "1e10"),
        row(u32::MAX, 2024, 6, 1, "comma, inside", "0"),
    ];
    let text = save_rows(&rows).expect("rows with real dates are written");
    assert_eq!(load_rows(&text), rows);
    assert_eq!(load_rows_strict(&text), Ok(rows));
}

#[test]
fn amounts_survive_a_round_trip_as_numbers() {
    let amounts = [3.5f32, 0.0, -12.25, 0.1, 1.0e30, f32::MIN_POSITIVE, 16777217.0];
    let date = Date::new(2024, 1, 5).expect("a day that exists");
    let ledger: Vec<Expense> = amounts
        .iter()
        .enumerate()
        .map(|(i, a)| Expense {
            id: i as u32 + 1,
            amount: a.to_bits(),
            description: format!("item {}", i),
            date,
        })
        .collect();
    let texts: Vec<String> =
        ledger.iter().map(|e| format!("{}", f32::from_bits(e.amount))).collect();
    let rows = to_rows(&ledger, &texts).expect("one text for each record");
    let text = save_rows(&rows).expect("written");
    let read = load_rows(&text);
    let numbers: Vec<Option<u32>> =
        read.iter().map(|r| r.amount.parse::<f32>().ok().map(f32::to_bits)).collect();
    assert_eq!(to_expenses(&read, &numbers), Some(ledger));
}

#[test]
fn rows_without_a_number_are_dropped() {
    let rows = vec![
        row(1, 2024, 1, 5, "coffee", "3.5"),
        row(2, 2024, 1, 6, "tea", "three"),
        row(3, 2024, 1, 7, "cake", "4"),
    ];
    let numbers = vec![Some(3.5f32.to_bits()), None, Some(4.0f32.to_bits())];
    let d = |day| Date { year: 2024, month: 1, day };
    assert_eq!(
        to_expenses(&rows, &numbers),
        Some(vec![
            Expense { id: 1, amount: 3.5f32.to_bits(), description: "coffee".to_string(), date: d(5) },
            Expense { id: 3, amount: 4.0f32.to_bits(), description: "cake".to_string(), date: d(7) },
        ])
    );
    assert_eq!(to_expenses(&rows, &vec![None]), None);
    assert_eq!(to_expenses(&Vec::new(), &Vec::new()), Some(Vec::new()));
}

#[test]
fn rows_take_the_texts_in_order() {
    let date = Date { year: 2024, month: 1, day: 5 };
    let ledger = vec![
        Expense { id: 1, amount: 1, description: "a".to_string(), date },
        Expense { id: 2, amount: 2, description: "b".to_string(), date },
    ];
    let texts = vec!["1.5".to_string(), "2.5".to_string()];
    assert_eq!(
        to_rows(&ledger, &texts),
        Some(vec![row(1, 2024, 1, 5, "a", "1.5"), row(2, 2024, 1, 5, "b", "2.5")])
    );
    assert_eq!(to_rows(&ledger, &vec!["1".to_string()]), None);
}

#[test]
fn lines_that_are_no_records_are_dropped() {
    let text = b"id;date;description;amount\n\
1;2024-01-05;coffee;3.5\n\
x;2024-01-05;bad id;1\n\
2;2024-13-05;bad month;1\n\
3;2023-02-29;no such day;1\n\
4;2024-01-05;too;many;fields\n\
5;2024-01-05\n\
-6;2024-01-05;negative id;1\n\
7;2024-02-01;book;12\n";
    let rows = load_rows(text);
    assert_eq!(rows, vec![row(1, 2024, 1, 5, "coffee", "3.5"), row(7, 2024, 2, 1, "book", "12")]);
    assert_eq!(load_rows_strict(text), Err(StoreError::MalformedRow));
}

#[test]
fn the_header_is_skipped_whatever_it_says() {
    let rows = load_rows(b"a;b;c;d\n9;2024-03-04;x;1.5\n");
    assert_eq!(rows, vec![row(9, 2024, 3, 4, "x", "1.5")]);
    let rows = load_rows(b"1;2024-03-04;first line;1.5\n2;2024-03-05;second;2\n");
    assert_eq!(rows, vec![row(2, 2024, 3, 5, "second", "2")]);
}

#[test]
fn a_row_with_a_date_that_does_not_exist_is_not_written() {
    let rows = vec![row(1, 2024, 1, 5, "ok", "1"), row(2, 2023, 2, 30, "bad", "1")];
    assert_eq!(save_rows(&rows), Err(StoreError::Unwritable));
    let rows = vec![row(1, 2024, 0, 5, "bad", "1")];
    assert_eq!(save_rows(&rows), Err(StoreError::Unwritable));
}

#[test]
fn outcomes_are_kept_or_required() {
    let a = row(1, 2024, 1, 5, "a", "1");
    let b = row(2, 2024, 1, 6, "b", "2");
    let mixed = vec![None, Some(a.clone()), None, Some(b.clone()), None];
    assert_eq!(keep_present(&mixed), vec![a.clone(), b.clone()]);
    assert_eq!(require_present(&mixed), Err(StoreError::MalformedRow));
    let full = vec![Some(a.clone()), Some(b.clone())];
    assert_eq!(keep_present(&full), vec![a.clone(), b.clone()]);
    assert_eq!(require_present(&full), Ok(vec![a.clone(), b]));
    assert_eq!(keep_present(&Vec::new()), Vec::new());
    assert_eq!(require_present(&Vec::new()), Ok(Vec::new()));
    assert_eq!(a.duplicate(), a);
}

#[test]
fn rows_and_records_convert() {
    let date = Date::new(2024, 1, 5).expect("a day that exists");
    let e = Expense { id: 3, amount: 2.5f32.to_bits(), description: "tea".to_string(), date };
    let r = Row::from_expense(&e, "2.5".to_string());
    assert_eq!(r, row(3, 2024, 1, 5, "tea", "2.5"));
    assert_eq!(r.into_expense(2.5f32.to_bits()), e);
}
