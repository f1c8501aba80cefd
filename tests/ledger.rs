use nlbt::ledger::Budget;
use nlbt::Error;

fn current_of(b: &Budget, name: &str) -> Option<(i32, i32)> {
    b.expenses().iter().find(|e| e.name == name).map(|e| (e.expected, e.current))
}

#[test]
fn new_ledger_is_empty() {
    let b = Budget::new("Sam");
    assert_eq!(b.account_name(), "Sam");
    assert_eq!(b.balance(), 0);
    assert_eq!(b.income(), 0);
    assert_eq!(b.savings(), 0);
    assert!(b.expenses().is_empty());
}

#[test]
fn income_and_pay() {
    let mut b = Budget::new("Sam");
    b.set_income(500000);
    b.add_income(2500);
    assert_eq!(b.income(), 502500);
    b.get_paid();
    assert_eq!(b.balance(), 502500);
    b.get_paid_value(-2500);
    assert_eq!(b.balance(), 500000);
    assert_eq!(b.income(), 502500);
}

#[test]
fn static_payment_after_new_expense() {
    let mut b = Budget::new("Sam");
    b.add_expense("Rent", 150000);
    let msg = b.make_static_payment("rent").unwrap();
    assert_eq!(msg, "Payment made: $1500.00 to Rent");
    assert_eq!(b.balance(), -150000);
    assert_eq!(current_of(&b, "rent"), Some((150000, 150000)));
    b.make_static_payment("RENT").unwrap();
    assert_eq!(b.balance(), -300000);
    assert_eq!(current_of(&b, "rent"), Some((150000, 300000)));
}

#[test]
fn unknown_expense_payment_changes_nothing() {
    let mut b = Budget::new("Sam");
    b.get_paid_value(1000);
    b.add_expense("Rent", 500);
    match b.make_dynamic_payment("Gas", 100) {
        Err(Error::ExpenseDoesNotExist(n)) => assert_eq!(n, "gas"),
        other => panic!("{other:?}"),
    }
    match b.make_static_payment("GAS") {
        Err(Error::ExpenseDoesNotExist(n)) => assert_eq!(n, "GAS"),
        other => panic!("{other:?}"),
    }
    assert_eq!(b.balance(), 1000);
    assert_eq!(current_of(&b, "rent"), Some((500, 0)));
}

#[test]
fn dynamic_payment_may_overdraw() {
    let mut b = Budget::new("Sam");
    b.add_expense("Food", 2000);
    assert_eq!(b.make_dynamic_payment("food", 1234).unwrap(), "Payment made: $12.34 to Food");
    assert_eq!(b.balance(), -1234);
    assert_eq!(current_of(&b, "food"), Some((2000, 1234)));
}

#[test]
fn saving_more_than_balance_fails() {
    let mut b = Budget::new("Sam");
    b.get_paid_value(50);
    match b.save(100) {
        Err(Error::CannotAfford { expense, amount, remaining_balance }) => {
            assert_eq!(expense, "savings");
            assert_eq!(amount, 100);
            assert_eq!(remaining_balance, 50);
        }
        other => panic!("{other:?}"),
    }
    assert_eq!(b.balance(), 50);
    assert_eq!(b.savings(), 0);
    assert_eq!(b.save(20).unwrap(), "$0.20 saved!");
    assert_eq!(b.balance(), 30);
    assert_eq!(b.savings(), 20);
}

#[test]
fn save_all_moves_the_whole_balance() {
    let mut b = Budget::new("Sam");
    b.get_paid_value(12345);
    b.save(345).unwrap();
    b.save_all().unwrap();
    assert_eq!(b.balance(), 0);
    assert_eq!(b.savings(), 12345);
}

#[test]
fn refresh_zeroes_paid_amounts_only() {
    let mut b = Budget::new("Sam");
    b.add_expense("Rent", 1000);
    b.add_expense("Food", 200);
    b.make_dynamic_payment("rent", 700).unwrap();
    b.make_dynamic_payment("food", 50).unwrap();
    b.refresh();
    assert_eq!(current_of(&b, "rent"), Some((1000, 0)));
    assert_eq!(current_of(&b, "food"), Some((200, 0)));
    assert_eq!(b.balance(), -750);
}

#[test]
fn adding_an_existing_expense_resets_it_in_place() {
    let mut b = Budget::new("Sam");
    b.add_expense("Rent", 1000);
    b.add_expense("Food", 200);
    b.make_dynamic_payment("rent", 700).unwrap();
    b.add_expense("RENT", 1100);
    let names: Vec<&str> = b.expenses().iter().map(|e| e.name.as_str()).collect();
    assert_eq!(names, vec!["rent", "food"]);
    assert_eq!(current_of(&b, "rent"), Some((1100, 0)));
}

#[test]
fn renders_the_ledger() {
    let mut b = Budget::new("Sam");
    b.set_income(500000);
    b.get_paid();
    b.add_expense("Rent", 150000);
    b.add_expense("*phone", 4000);
    b.make_static_payment("rent").unwrap();
    b.save(1000).unwrap();
    assert_eq!(
        b.render(),
        "==={ Welcome, Sam! }===\nBalance: $3490.00\nIncome: $5000.00\nSavings: $10.00\n\nExpenses:\nRent: $1500.00/$1500.00\n*Phone: $0.00/$40.00\n"
    );
}

#[test]
fn edits_and_clears() {
    let mut b = Budget::new("Sam");
    b.add_expense("Rent", 1000);
    b.add_expense("Food", 200);
    b.add_expense("Gas", 300);
    b.make_dynamic_payment("rent", 10).unwrap();
    b.make_dynamic_payment("food", 20).unwrap();
    b.make_dynamic_payment("gas", 30).unwrap();
    b.clear_expenses(&vec!["FOOD".to_string(), "nothing".to_string()], false);
    assert_eq!(current_of(&b, "food"), Some((200, 0)));
    assert_eq!(current_of(&b, "rent"), Some((1000, 10)));
    b.clear_expenses(&vec!["rent".to_string()], true);
    assert_eq!(current_of(&b, "gas"), Some((300, 0)));
    assert_eq!(current_of(&b, "rent"), Some((1000, 10)));
    b.edit_expense("Rent", &Some("Housing".to_string()), Some(1200)).unwrap();
    assert_eq!(current_of(&b, "housing"), Some((1200, 10)));
    assert_eq!(current_of(&b, "rent"), None);
    b.edit_expense("housing", &Some("gas".to_string()), None).unwrap();
    let names: Vec<&str> = b.expenses().iter().map(|e| e.name.as_str()).collect();
    assert_eq!(names, vec!["gas", "food"]);
    assert_eq!(current_of(&b, "gas"), Some((1200, 10)));
    assert!(matches!(b.edit_expense("rent", &None, Some(5)), Err(Error::ExpenseDoesNotExist(_))));
}
