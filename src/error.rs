use vstd::prelude::*;

verus! {

/// Everything that can go wrong in the ledger, its parsers and its store.
#[derive(Debug, Clone)]
pub enum Error {
    /// Text that is not an amount of money (or one that does not fit in cents).
    InvalidDollarValue(String),
    /// A line or flag that names no command, or lacks a value it needs.
    InvalidCommand(String),
    /// No expense of this (normalized) name.
    ExpenseDoesNotExist(String),
    /// A payment or saving larger than what the balance holds.
    CannotAfford { expense: String, amount: i32, remaining_balance: i32 },
    /// A result that would not fit in the ledger's integer cents.
    AmountOutOfRange(String),
    /// A saved account whose bytes or envelope cannot be read back.
    SaveCorrupted { account: String, cause: String },
    /// An account that already has a file, where a new one was asked for.
    AlreadyExists(String),
    /// An account with no file.
    NotFound(String),
    /// A failure of the file system, with the account and what it said.
    IoFailure { account: String, message: String },
}

/// An error as mathematical values.
pub enum ErrorView {
    InvalidDollarValue(Seq<char>),
    InvalidCommand(Seq<char>),
    ExpenseDoesNotExist(Seq<char>),
    CannotAfford { expense: Seq<char>, amount: i32, remaining_balance: i32 },
    AmountOutOfRange(Seq<char>),
    SaveCorrupted { account: Seq<char>, cause: Seq<char> },
    AlreadyExists(Seq<char>),
    NotFound(Seq<char>),
    IoFailure { account: Seq<char>, message: Seq<char> },
}

impl View for Error {
    type V = ErrorView;

    open spec fn view(&self) -> ErrorView {
        match self {
            Error::InvalidDollarValue(t) => ErrorView::InvalidDollarValue(t@),
            Error::InvalidCommand(t) => ErrorView::InvalidCommand(t@),
            Error::ExpenseDoesNotExist(t) => ErrorView::ExpenseDoesNotExist(t@),
            Error::CannotAfford { expense, amount, remaining_balance } => ErrorView::CannotAfford {
                expense: expense@,
                amount: *amount,
                remaining_balance: *remaining_balance,
            },
            Error::AmountOutOfRange(t) => ErrorView::AmountOutOfRange(t@),
            Error::SaveCorrupted { account, cause } => ErrorView::SaveCorrupted {
                account: account@,
                cause: cause@,
            },
            Error::AlreadyExists(t) => ErrorView::AlreadyExists(t@),
            Error::NotFound(t) => ErrorView::NotFound(t@),
            Error::IoFailure { account, message } => ErrorView::IoFailure {
                account: account@,
                message: message@,
            },
        }
    }
}

} // verus!
