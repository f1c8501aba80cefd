use nlbt::ledger::{Budget, Expense};
use nlbt::settings::{demo_defaults, AccountOptions, AppSettings};
use nlbt::store::{account_file_name, change_account_display_name, check_frame, SaveFormat, SAVE_FORMAT_VERSION};
use nlbt::Error;

fn document_bytes() -> Vec<u8> {
    let mut doc = bson::Document::new();
    doc.insert("account", "Sam");
    doc.insert("current_balance", 1250i32);
    let mut out = Vec::new();
    doc.to_writer(&mut out).unwrap();
    out
}

#[test]
fn envelope_round_trip() {
    let env = SaveFormat::new(vec![1, 2, 3]);
    assert_eq!(env.app, "nlbt");
    assert_eq!(env.save_format, SAVE_FORMAT_VERSION);
    assert_eq!(env.open("sam").unwrap(), vec![1, 2, 3]);
}

#[test]
fn foreign_envelope_is_corrupted() {
    let mut env = SaveFormat::new(vec![1]);
    env.app = "other".to_string();
    assert!(matches!(env.open("sam"), Err(Error::SaveCorrupted { account, .. }) if account == "sam"));
    let mut env = SaveFormat::new(vec![1]);
    env.save_format = 0;
    assert!(matches!(env.open("sam"), Err(Error::SaveCorrupted { .. })));
}

#[test]
fn truncated_save_is_corrupted() {
    let bytes = document_bytes();
    assert!(check_frame("sam", &bytes).is_ok());
    for k in 0..bytes.len() {
        let cut = bytes[..k].to_vec();
        assert!(matches!(check_frame("sam", &cut), Err(Error::SaveCorrupted { .. })));
    }
    let mut damaged = bytes.clone();
    damaged[0] ^= 1;
    assert!(matches!(check_frame("sam", &damaged), Err(Error::SaveCorrupted { .. })));
}

#[test]
fn ledger_parts_round_trip() {
    let mut b = Budget::new("Sam");
    b.get_paid_value(900);
    b.set_income(5000);
    b.add_expense("Rent", 300);
    b.add_expense("Food", 100);
    b.make_dynamic_payment("food", 40).unwrap();
    b.save(100).unwrap();
    let back = Budget::from_parts(
        b.account_name().clone(),
        b.balance(),
        b.income(),
        b.savings(),
        b.expenses().clone(),
    )
    .unwrap();
    assert_eq!(back.render(), b.render());
    assert_eq!(back.balance(), 760);
    assert_eq!(back.savings(), 100);
}

#[test]
fn malformed_parts_are_corrupted() {
    let e = |n: &str| Expense { name: n.to_string(), expected: 1, current: 0 };
    let r = Budget::from_parts("Sam".to_string(), 0, 0, 0, vec![e("rent"), e("rent")]);
    assert!(matches!(r, Err(Error::SaveCorrupted { .. })));
    let r = Budget::from_parts("Sam".to_string(), 0, 0, 0, vec![e("Rent")]);
    assert!(matches!(r, Err(Error::SaveCorrupted { .. })));
}

#[test]
fn renames_the_display_name_only() {
    let mut b = Budget::new("default");
    b.get_paid_value(5);
    change_account_display_name(&mut b, "Alex");
    assert_eq!(b.account_name(), "Alex");
    assert_eq!(b.balance(), 5);
}

#[test]
fn account_paths() {
    assert_eq!(account_file_name("sam"), "data/sam.bson");
}

#[test]
fn settings_from_flags() {
    let s = AppSettings::from_flags(false, false, 2, false, 1, false, false);
    assert_eq!(s.verbosity, 2);
    assert!(s.saves());
    let s = AppSettings::from_flags(false, true, 0, true, 0, false, false);
    assert_eq!(s.verbosity, 0);
    assert!(!s.saves());
    let s = AppSettings::from_flags(true, false, 0, false, 255, false, false);
    assert_eq!(s.verbosity, 255);
    let o = AccountOptions::from_flags(None, Some("new".to_string()), None);
    assert!(o.create);
    assert_eq!(o.account_name(), "new");
    assert_eq!(AccountOptions::from_flags(None, None, None).account_name(), "default");
    let (s, o, c) = demo_defaults();
    assert!(s.mem_only && s.interactive_mode);
    assert_eq!(o.account.as_deref(), Some("Demo User"));
    assert!(c.is_empty());
}
