//! A personal ledger: an expected income, a cash balance, named recurring
//! expenses and savings, all in integer cents, driven by commands parsed
//! from command-line flags or from lines of text.
pub mod text;
pub mod error;
pub mod money;
pub mod ledger;
pub mod command;
pub mod engine;
pub mod store;
pub mod settings;
pub mod laws;

pub use error::Error;
pub use money::{format_dollars, parse_dollar_string};
pub use text::to_title_case;
pub use command::{BudgetCommand, FlagOccurrences};
pub use ledger::{Budget, Expense};
pub use settings::{AccountOptions, AppSettings};
pub use store::SaveFormat;
