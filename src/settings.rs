use vstd::prelude::*;
use crate::command::BudgetCommand;

verus! {

/// How one invocation runs.
#[derive(Debug, Clone, Copy)]
pub struct AppSettings {
    /// Works on a blank ledger that is never saved.
    pub mem_only: bool,
    /// Reads commands line by line instead of from flags.
    pub interactive_mode: bool,
    /// How far affordability checks on payments are relaxed.
    pub force: u8,
    /// Shows the result but saves nothing.
    pub dry_run: bool,
    /// How much is shown: 0 nothing, 1 the result, 2 and up also the ledger
    /// before.
    pub verbosity: u8,
    /// Shows the ledger as JSON.
    pub json: bool,
}

/// Which account one invocation works on.
#[derive(Debug, Clone)]
pub struct AccountOptions {
    /// The account named, if any (else the default account).
    pub account: Option<String>,
    /// Whether the account is to be created.
    pub create: bool,
    /// A new display name for the default account, if one is given.
    pub default_rename: Option<String>,
}

/// Verbosity: one, plus one for each `verbose`, less one for `quiet` or
/// interactive mode; it stops at 255.
pub open spec fn verbosity_of(verbose: u8, quiet: bool, interactive: bool) -> u8 {
    let up: int = if verbose == 255 { 255 } else { verbose + 1 };
    (if quiet || interactive { up - 1 } else { up }) as u8
}

impl AppSettings {
    /// The settings of the flags of one invocation.
    pub fn from_flags(
        mem_only: bool,
        interactive_mode: bool,
        force: u8,
        dry_run: bool,
        verbose: u8,
        quiet: bool,
        json: bool,
    ) -> (r: AppSettings)
        ensures
            r == (AppSettings {
                mem_only,
                interactive_mode,
                force,
                dry_run,
                verbosity: verbosity_of(verbose, quiet, interactive_mode),
                json,
            }),
    {
        let up: u8 = if verbose == 255 { 255 } else { verbose + 1 };
        let verbosity: u8 = if quiet || interactive_mode { up - 1 } else { up };
        AppSettings { mem_only, interactive_mode, force, dry_run, verbosity, json }
    }

    /// Whether the ledger is written back at the end.
    pub fn saves(&self) -> (r: bool)
        ensures
            r == !(self.mem_only || self.dry_run),
    {
        !(self.mem_only || self.dry_run)
    }
}

/// The name of the account used when none is given.
pub open spec fn default_account() -> Seq<char> {
    "default"@
}

impl AccountOptions {
    /// The account options of the flags of one invocation: the account
    /// named, or else the one to be created.
    pub fn from_flags(
        account: Option<String>,
        new_account: Option<String>,
        default_rename: Option<String>,
    ) -> (r: AccountOptions)
        ensures
            r.create == new_account.is_some(),
            r.account == (if account.is_some() { account } else { new_account }),
            r.default_rename == default_rename,
    {
        let create = new_account.is_some();
        let account = match account {
            Some(a) => Some(a),
            None => new_account,
        };
        AccountOptions { account, create, default_rename }
    }

    /// The account to work on: the one named, or the default account.
    pub fn account_name(&self) -> (r: String)
        ensures
            r@ == (match self.account {
                Some(a) => a@,
                None => default_account(),
            }),
    {
        match &self.account {
            Some(a) => a.clone(),
            None => String::from_str("default"),
        }
    }
}

/// The settings of the demonstration: interactive, in memory, on a blank
/// account named "Demo User".
pub fn demo_defaults() -> (r: (AppSettings, AccountOptions, Vec<BudgetCommand>))
    ensures
        r.0.mem_only && r.0.interactive_mode && r.0.force == 0 && !r.0.dry_run,
        r.0.verbosity == 1 && !r.0.json,
        r.1.account matches Some(a) && a@ == "Demo User"@,
        !r.1.create && r.1.default_rename.is_none(),
        r.2@.len() == 0,
{
    (
        AppSettings {
            mem_only: true,
            interactive_mode: true,
            force: 0,
            dry_run: false,
            verbosity: 1,
            json: false,
        },
        AccountOptions {
            account: Some(String::from_str("Demo User")),
            create: false,
            default_rename: None,
        },
        Vec::new(),
    )
}

} // verus!
