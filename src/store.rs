use vstd::prelude::*;
use crate::error::Error;
use crate::ledger::{expenses_wf, views, Budget, BudgetView, Expense, ExpenseView};
use crate::text::same_text;

verus! {

/// The number of the save layout this library writes and reads.
pub const SAVE_FORMAT_VERSION: u8 = 1;

/// The envelope of a saved account: which application wrote it, its version,
/// the number of the save layout, and the encoded ledger.
#[derive(Debug, Clone)]
pub struct SaveFormat {
    pub app: String,
    pub version: String,
    pub save_format: u8,
    pub data: Vec<u8>,
}

pub open spec fn app_id() -> Seq<char> {
    "nlbt"@
}

pub open spec fn app_version() -> Seq<char> {
    "0.1.0"@
}

/// The payload of an envelope that this application wrote in its layout.
pub open spec fn envelope_payload(app: Seq<char>, save_format: u8, data: Seq<u8>) -> Option<Seq<u8>> {
    if app == app_id() && save_format == SAVE_FORMAT_VERSION {
        Some(data)
    } else {
        None
    }
}

impl SaveFormat {
    /// The envelope of an encoded ledger, marked with this application and
    /// layout.
    pub fn new(data: Vec<u8>) -> (r: SaveFormat)
        ensures
            r.app@ == app_id(),
            r.version@ == app_version(),
            r.save_format == SAVE_FORMAT_VERSION,
            r.data@ == data@,
    {
        SaveFormat {
            app: String::from_str("nlbt"),
            version: String::from_str("0.1.0"),
            save_format: SAVE_FORMAT_VERSION,
            data,
        }
    }

    /// The encoded ledger of an envelope, where this application wrote it
    /// in its layout; else the account's save is corrupted.
    pub fn open(self, account: &str) -> (r: Result<Vec<u8>, Error>)
        ensures
            match envelope_payload(self.app@, self.save_format, self.data@) {
                Some(d) => r matches Ok(v) && v@ == d,
                None => r matches Err(Error::SaveCorrupted { account: a, cause: _ }) && a@ == account@,
            },
    {
        if !same_text(self.app.as_str(), "nlbt") {
            return Err(Error::SaveCorrupted {
                account: String::from_str(account),
                cause: String::from_str("not a save file of this application"),
            });
        }
        if self.save_format != SAVE_FORMAT_VERSION {
            return Err(Error::SaveCorrupted {
                account: String::from_str(account),
                cause: String::from_str("unknown save format"),
            });
        }
        Ok(self.data)
    }
}

/// The number in the first four bytes, least significant first.
pub open spec fn le_u32(b: Seq<u8>) -> int {
    b[0] as int + b[1] as int * 256 + b[2] as int * 65536 + b[3] as int * 16777216
}

/// A whole encoded document: at least five bytes, led by its own length
/// (which fits in an `i32`) and ending with a zero byte.
pub open spec fn frame_ok(b: Seq<u8>) -> bool {
    &&& 5 <= b.len() <= i32::MAX
    &&& le_u32(b) == b.len()
    &&& b[b.len() - 1] == 0
}

/// Checks that the bytes of an account's save hold one whole encoded
/// document, as they do unless the file was cut short or altered.
pub fn check_frame(account: &str, bytes: &Vec<u8>) -> (r: Result<(), Error>)
    ensures
        frame_ok(bytes@) ==> r is Ok,
        !frame_ok(bytes@) ==> (r matches Err(Error::SaveCorrupted { account: a, cause: _ }) && a@
            == account@),
{
    let n = bytes.len();
    if n < 5 || n > 2147483647 {
        return Err(Error::SaveCorrupted {
            account: String::from_str(account),
            cause: String::from_str("the save is too short"),
        });
    }
    let declared: u64 = bytes[0] as u64 + bytes[1] as u64 * 256 + bytes[2] as u64 * 65536
        + bytes[3] as u64 * 16777216;
    if declared != n as u64 || bytes[n - 1] != 0 {
        return Err(Error::SaveCorrupted {
            account: String::from_str(account),
            cause: String::from_str("the save is cut short or damaged"),
        });
    }
    Ok(())
}

/// The path of an account's save, relative to the application directory.
pub open spec fn account_path(account: Seq<char>) -> Seq<char> {
    "data/"@ + account + ".bson"@
}

pub fn account_file_name(account: &str) -> (r: String)
    ensures
        r@ == account_path(account@),
{
    let mut r = String::from_str("data/");
    r.append(account);
    r.append(".bson");
    r
}

/// A ledger read back from its parts, where they are well formed.
pub open spec fn decoded(
    account: Seq<char>,
    balance: int,
    income: int,
    savings: int,
    es: Seq<ExpenseView>,
) -> Option<BudgetView> {
    if expenses_wf(es) {
        Some(BudgetView { account, balance, income, savings, expenses: es })
    } else {
        None
    }
}


impl Budget {
    /// Rebuilds a ledger from what was saved of it; expense names must be
    /// normalized and unique, else the save is corrupted.
    pub fn from_parts(
        account: String,
        current_balance: i32,
        expected_income: i32,
        savings: i32,
        expenses: Vec<Expense>,
    ) -> (r: Result<Budget, Error>)
        ensures
            match decoded(account@, current_balance as int, expected_income as int, savings as int, views(expenses@)) {
                Some(v) => r matches Ok(b) && b@ == v && b.wf(),
                None => r matches Err(Error::SaveCorrupted { account: a, cause: _ }) && a@ == account@,
            },
    {
        let ghost es = views(expenses@);
        let mut i: usize = 0;
        while i < expenses.len()
            invariant
                i <= expenses@.len(),
                es == views(expenses@),
                forall|a: int, b: int| 0 <= a < i && 0 <= b < i && a != b ==> #[trigger] es[a].name != #[trigger] es[b].name,
                forall|a: int| 0 <= a < i ==> crate::text::lower_text(#[trigger] es[a].name) == es[a].name,
            decreases expenses@.len() - i,
        {
            let name = &expenses[i].name;
            assert(es[i as int].name == name@);
            let low = crate::text::to_lower(name.as_str());
            if !same_text(low.as_str(), name.as_str()) {
                return Err(Error::SaveCorrupted {
                    account,
                    cause: String::from_str("an expense name is not in normal form"),
                });
            }
            let mut j: usize = 0;
            while j < i
                invariant
                    j <= i < expenses@.len(),
                    es == views(expenses@),
                    name@ == es[i as int].name,
                    forall|b: int| 0 <= b < j ==> #[trigger] es[b].name != es[i as int].name,
                decreases i - j,
            {
                assert(es[j as int].name == expenses@[j as int].name@);
                if same_text(expenses[j].name.as_str(), name.as_str()) {
                    return Err(Error::SaveCorrupted {
                        account,
                        cause: String::from_str("two expenses share a name"),
                    });
                }
                j = j + 1;
            }
            i = i + 1;
        }
        Ok(Budget::from_checked_parts(account, current_balance, expected_income, savings, expenses))
    }
}

/// Gives an account its new display name; nothing else changes.
pub fn change_account_display_name(budget: &mut Budget, new_name: &str)
    ensures
        final(budget)@ == (BudgetView { account: new_name@, ..old(budget)@ }),
{
    budget.set_account(new_name);
}

} // verus!
