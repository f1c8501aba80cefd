use nlbt::command::{command_from_arg, commands_from_flags, parse_command, split_words, BudgetCommand, FlagOccurrences};
use nlbt::engine::apply_budget_command;
use nlbt::ledger::Budget;
use nlbt::Error;

fn strings(v: &[&str]) -> Vec<String> {
    v.iter().map(|s| s.to_string()).collect()
}

fn current_of(b: &Budget, name: &str) -> Option<(i32, i32)> {
    b.expenses().iter().find(|e| e.name == name).map(|e| (e.expected, e.current))
}

#[test]
fn end_to_end_batch() {
    let mut b = Budget::new("Sam");
    let cmds = vec![
        BudgetCommand::SetPaycheck { amount: 500000 },
        BudgetCommand::Paid { amount: None },
        BudgetCommand::NewExpense { name: "Rent".to_string(), amount: 150000 },
        BudgetCommand::PayExpense { name: "rent".to_string(), amount: None },
    ];
    b.execute(cmds, 0).unwrap();
    assert_eq!(b.balance(), 350000);
    assert_eq!(current_of(&b, "rent"), Some((150000, 150000)));
}

#[test]
fn batch_stops_at_first_failure() {
    let mut b = Budget::new("Sam");
    let cmds = vec![
        BudgetCommand::Paid { amount: Some(100) },
        BudgetCommand::PayExpense { name: "gas".to_string(), amount: Some(5) },
        BudgetCommand::Paid { amount: Some(100) },
    ];
    assert!(matches!(b.execute(cmds, 0), Err(Error::ExpenseDoesNotExist(_))));
    assert_eq!(b.balance(), 100);
}

#[test]
fn force_levels_on_payments() {
    let setup = || {
        let mut b = Budget::new("Sam");
        b.get_paid_value(1000);
        b.add_expense("Rent", 1500);
        b
    };
    let pay = || vec![BudgetCommand::PayExpense { name: "rent".to_string(), amount: None }];
    for force in [0u8, 1] {
        let mut b = setup();
        match b.execute(pay(), force) {
            Err(Error::CannotAfford { expense, amount, remaining_balance }) => {
                assert_eq!((expense.as_str(), amount, remaining_balance), ("rent", 1500, 1000));
            }
            other => panic!("{other:?}"),
        }
        assert_eq!(b.balance(), 1000);
    }
    let mut b = setup();
    b.execute(pay(), 2).unwrap();
    assert_eq!(b.balance(), 0);
    assert_eq!(current_of(&b, "rent"), Some((1500, 1000)));
    let mut b = setup();
    b.execute(pay(), 3).unwrap();
    assert_eq!(b.balance(), -500);
    assert_eq!(current_of(&b, "rent"), Some((1500, 1500)));
}

#[test]
fn savings_are_never_forced() {
    let mut b = Budget::new("Sam");
    b.get_paid_value(10);
    let cmds = vec![BudgetCommand::Savings { amount: Some(20) }];
    assert!(matches!(b.execute(cmds, 3), Err(Error::CannotAfford { .. })));
    b.execute(vec![BudgetCommand::Savings { amount: None }], 0).unwrap();
    assert_eq!((b.balance(), b.savings()), (0, 10));
}

#[test]
fn clear_and_edit_commands() {
    let mut b = Budget::new("Sam");
    for (n, c) in [("Rent", 100), ("Food", 50)] {
        b.add_expense(n, c);
        b.make_dynamic_payment(n, 7).unwrap();
    }
    apply_budget_command(&mut b, BudgetCommand::ClearExpense { targets: vec![], invert_selection: false }).unwrap();
    assert_eq!(current_of(&b, "rent"), Some((100, 0)));
    assert_eq!(current_of(&b, "food"), Some((50, 0)));
    let edit = BudgetCommand::EditExpense { target: "FOOD".to_string(), new_name: None, new_amount: Some(75) };
    apply_budget_command(&mut b, edit).unwrap();
    assert_eq!(current_of(&b, "food"), Some((75, 0)));
}

#[test]
fn amount_overflow_is_an_error() {
    let mut b = Budget::new("Sam");
    b.get_paid_value(i32::MAX);
    let r = b.execute(vec![BudgetCommand::Paid { amount: Some(1) }], 0);
    assert!(matches!(r, Err(Error::AmountOutOfRange(_))));
    assert_eq!(b.balance(), i32::MAX);
}

#[test]
fn splits_words_on_white_space() {
    assert_eq!(split_words("  pay \t rent\u{a0}$5 \n"), strings(&["pay", "rent", "$5"]));
    assert!(split_words("   ").is_empty());
}

#[test]
fn parses_lines() {
    assert!(matches!(parse_command("help"), Ok(BudgetCommand::Nothing)));
    assert!(matches!(parse_command("income set 50"), Ok(BudgetCommand::SetPaycheck { amount: 5000 })));
    match parse_command("income raise 5") {
        Err(Error::InvalidCommand(t)) => assert_eq!(t, "raise"),
        other => panic!("{other:?}"),
    }
    assert!(matches!(parse_command("paid"), Ok(BudgetCommand::Paid { amount: None })));
    assert!(matches!(parse_command("paid $1.25"), Ok(BudgetCommand::Paid { amount: Some(125) })));
    match parse_command("new Rent 1500") {
        Ok(BudgetCommand::NewExpense { name, amount }) => assert_eq!((name.as_str(), amount), ("Rent", 150000)),
        other => panic!("{other:?}"),
    }
    match parse_command("pay rent") {
        Ok(BudgetCommand::PayExpense { name, amount }) => assert_eq!((name.as_str(), amount), ("rent", None)),
        other => panic!("{other:?}"),
    }
    assert!(matches!(parse_command("save all"), Ok(BudgetCommand::Savings { amount: None })));
    assert!(matches!(parse_command("save 3"), Ok(BudgetCommand::Savings { amount: Some(300) })));
    assert!(matches!(parse_command("new Rent"), Err(Error::InvalidCommand(_))));
    assert!(matches!(parse_command("pay"), Err(Error::InvalidCommand(_))));
    assert!(matches!(parse_command("save"), Err(Error::InvalidCommand(_))));
    assert!(matches!(parse_command("pay rent lots"), Err(Error::InvalidDollarValue(_))));
    match parse_command("bogus 1") {
        Err(Error::InvalidCommand(t)) => assert_eq!(t, "bogus"),
        other => panic!("{other:?}"),
    }
    assert!(matches!(parse_command(""), Err(Error::InvalidCommand(_))));
}

#[test]
fn parses_flag_occurrences() {
    match command_from_arg("clear", &strings(&["!rent", "food"])) {
        Ok(BudgetCommand::ClearExpense { targets, invert_selection }) => {
            assert_eq!(targets, strings(&["rent", "food"]));
            assert!(invert_selection);
        }
        other => panic!("{other:?}"),
    }
    match command_from_arg("edit", &strings(&["rent", "house", "12", "home", "x1"])) {
        Ok(BudgetCommand::EditExpense { target, new_name, new_amount }) => {
            assert_eq!(target, "rent");
            assert_eq!(new_name.as_deref(), Some("x1"));
            assert_eq!(new_amount, Some(1200));
        }
        other => panic!("{other:?}"),
    }
    assert!(matches!(command_from_arg("paycheck", &strings(&["$10"])), Ok(BudgetCommand::SetPaycheck { amount: 1000 })));
    assert!(matches!(command_from_arg("paid", &vec![]), Ok(BudgetCommand::Paid { amount: None })));
    assert!(matches!(command_from_arg("new", &strings(&["rent"])), Err(Error::InvalidCommand(_))));
    assert!(matches!(command_from_arg("pay", &strings(&["rent", "2"])), Ok(BudgetCommand::PayExpense { amount: Some(200), .. })));
    assert!(matches!(command_from_arg("nope", &vec![]), Err(Error::InvalidCommand(_))));
}

#[test]
fn flag_batches_follow_flag_order() {
    let f = FlagOccurrences {
        paycheck: vec![strings(&["5000"])],
        paid: vec![vec![]],
        clear: vec![],
        edit: vec![],
        new: vec![strings(&["Rent", "1500"])],
        pay: vec![strings(&["rent"]), strings(&["rent", "1"])],
    };
    let cmds = commands_from_flags(&f).unwrap();
    assert_eq!(cmds.len(), 5);
    assert!(matches!(cmds[0], BudgetCommand::SetPaycheck { amount: 500000 }));
    assert!(matches!(cmds[1], BudgetCommand::Paid { amount: None }));
    assert!(matches!(cmds[2], BudgetCommand::NewExpense { .. }));
    assert!(matches!(cmds[4], BudgetCommand::PayExpense { amount: Some(100), .. }));
    let bad = FlagOccurrences { paid: vec![strings(&["x"])], ..f };
    assert!(matches!(commands_from_flags(&bad), Err(Error::InvalidDollarValue(_))));
}
