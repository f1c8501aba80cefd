use vstd::prelude::*;
use crate::command::{command_views, BudgetCommand, CommandView};
use crate::error::{Error, ErrorView};
use crate::ledger::{
    clear_selected, edited, has_expense, in_i32, index_of, with_expense, with_payment, Budget,
    BudgetView,
};
use crate::text::{lower_text, to_lower};

verus! {

/// What a payment of `amount` takes out of the balance under a force level:
/// the amount where the balance covers it or from level 3 on (overdraft);
/// from level 2 on, what is left of the balance where it does not; nothing
/// (`None`: the payment cannot be afforded) below that.
pub open spec fn payment_taken(balance: int, amount: int, force: u8) -> Option<int> {
    if force >= 3 || amount <= balance {
        Some(amount)
    } else if force >= 2 {
        Some(if balance > 0 { balance } else { 0 })
    } else {
        None
    }
}

/// The effect of one command on a ledger: the new ledger, or the error that
/// stops it (and then the ledger is left as it was).
pub open spec fn step(b: BudgetView, c: CommandView, force: u8) -> Result<BudgetView, ErrorView> {
    match c {
        CommandView::SetPaycheck { amount } => Ok(BudgetView { income: amount as int, ..b }),
        CommandView::Paid { amount } => {
            let v = match amount {
                Some(a) => a as int,
                None => b.income,
            };
            if in_i32(b.balance + v) {
                Ok(BudgetView { balance: b.balance + v, ..b })
            } else {
                Err(ErrorView::AmountOutOfRange("balance"@))
            }
        },
        CommandView::ClearExpense { targets, invert_selection } => Ok(
            BudgetView { expenses: clear_selected(b.expenses, targets, invert_selection), ..b },
        ),
        CommandView::EditExpense { target, new_name, new_amount } => {
            let k = lower_text(target);
            if has_expense(b.expenses, k) {
                Ok(BudgetView { expenses: edited(b.expenses, k, new_name, new_amount), ..b })
            } else {
                Err(ErrorView::ExpenseDoesNotExist(k))
            }
        },
        CommandView::NewExpense { name, amount } => Ok(
            BudgetView { expenses: with_expense(b.expenses, lower_text(name), amount as int), ..b },
        ),
        CommandView::PayExpense { name, amount } => {
            let k = lower_text(name);
            let es = b.expenses;
            if !has_expense(es, k) {
                Err(ErrorView::ExpenseDoesNotExist(k))
            } else {
                let e = es[index_of(es, k)];
                let asked = match amount {
                    Some(a) => a as int,
                    None => e.expected,
                };
                match payment_taken(b.balance, asked, force) {
                    None => Err(ErrorView::CannotAfford {
                        expense: k,
                        amount: asked as i32,
                        remaining_balance: b.balance as i32,
                    }),
                    Some(p) => if in_i32(b.balance - p) && in_i32(e.current + p) {
                        Ok(BudgetView { balance: b.balance - p, expenses: with_payment(es, k, p), ..b })
                    } else {
                        Err(ErrorView::AmountOutOfRange(k))
                    },
                }
            }
        },
        CommandView::Savings { amount } => match amount {
            Some(a) => if b.balance < a {
                Err(ErrorView::CannotAfford {
                    expense: "savings"@,
                    amount: a,
                    remaining_balance: b.balance as i32,
                })
            } else if in_i32(b.balance - a) && in_i32(b.savings + a) {
                Ok(BudgetView { balance: b.balance - a, savings: b.savings + a, ..b })
            } else {
                Err(ErrorView::AmountOutOfRange("savings"@))
            },
            None => if in_i32(b.savings + b.balance) {
                Ok(BudgetView { balance: 0, savings: b.savings + b.balance, ..b })
            } else {
                Err(ErrorView::AmountOutOfRange("savings"@))
            },
        },
        CommandView::Nothing => Ok(b),
    }
}

/// The commands applied from left to right: the ledger after the last one
/// that succeeded, and the error of the first that failed, if one did.
pub open spec fn run(b: BudgetView, cs: Seq<CommandView>, force: u8) -> (BudgetView, Option<ErrorView>)
    decreases cs.len(),
{
    if cs.len() == 0 {
        (b, None)
    } else {
        match step(b, cs[0], force) {
            Err(e) => (b, Some(e)),
            Ok(b2) => run(b2, cs.drop_first(), force),
        }
    }
}

fn fits(v: i64) -> (r: bool)
    ensures
        r == in_i32(v as int),
{
    i32::MIN as i64 <= v && v <= i32::MAX as i64
}

impl Budget {
    /// Applies one command under a force level; a command that fails leaves
    /// the ledger as it was.
    #[verifier::rlimit(40)]
    pub fn apply_command(&mut self, cmd: &BudgetCommand, force: u8) -> (r: Result<(), Error>)
        requires
            old(self).wf(),
        ensures
            final(self).wf(),
            match step(old(self)@, cmd@, force) {
                Ok(b) => r is Ok && final(self)@ == b,
                Err(e) => r matches Err(x) && x@ == e && final(self)@ == old(self)@,
            },
    {
        match cmd {
            BudgetCommand::SetPaycheck { amount } => {
                self.set_income(*amount);
                Ok(())
            },
            BudgetCommand::Paid { amount } => {
                let v = match amount {
                    Some(a) => *a,
                    None => self.income(),
                };
                if !fits(self.balance() as i64 + v as i64) {
                    return Err(Error::AmountOutOfRange(String::from_str("balance")));
                }
                self.get_paid_value(v);
                Ok(())
            },
            BudgetCommand::ClearExpense { targets, invert_selection } => {
                self.clear_expenses(targets, *invert_selection);
                Ok(())
            },
            BudgetCommand::EditExpense { target, new_name, new_amount } => {
                self.edit_expense(target.as_str(), new_name, *new_amount)
            },
            BudgetCommand::NewExpense { name, amount } => {
                self.add_expense(name.as_str(), *amount);
                Ok(())
            },
            BudgetCommand::PayExpense { name, amount } => {
                let k = to_lower(name.as_str());
                let i = match self.find(k.as_str()) {
                    Some(i) => i,
                    None => {
                        return Err(Error::ExpenseDoesNotExist(k));
                    },
                };
                let es = self.expenses();
                let e = &es[i];
                proof {
                    crate::ledger::lemma_view_index(es@, i as int);
                }
                let asked = match amount {
                    Some(a) => *a,
                    None => e.expected,
                };
                let balance = self.balance();
                let taken: i32 = if force >= 3 || asked <= balance {
                    asked
                } else if force >= 2 {
                    if balance > 0 { balance } else { 0 }
                } else {
                    return Err(Error::CannotAfford { expense: k, amount: asked, remaining_balance: balance });
                };
                if !fits(balance as i64 - taken as i64) || !fits(e.current as i64 + taken as i64) {
                    return Err(Error::AmountOutOfRange(k));
                }
                let _ = self.make_dynamic_payment(k.as_str(), taken);
                proof {
                    crate::text::lemma_lower_idempotent(name@);
                }
                Ok(())
            },
            BudgetCommand::Savings { amount } => match amount {
                Some(a) => {
                    let balance = self.balance();
                    if balance < *a {
                        return Err(Error::CannotAfford {
                            expense: String::from_str("savings"),
                            amount: *a,
                            remaining_balance: balance,
                        });
                    }
                    if !fits(balance as i64 - *a as i64) || !fits(self.savings() as i64 + *a as i64) {
                        return Err(Error::AmountOutOfRange(String::from_str("savings")));
                    }
                    let _ = self.save(*a);
                    Ok(())
                },
                None => {
                    if !fits(self.savings() as i64 + self.balance() as i64) {
                        return Err(Error::AmountOutOfRange(String::from_str("savings")));
                    }
                    let _ = self.save_all();
                    Ok(())
                },
            },
            BudgetCommand::Nothing => Ok(()),
        }
    }

    /// Applies a batch of commands strictly from left to right under a force
    /// level, each seeing the effects of those before it. The first command
    /// that fails stops the batch with its error; what the commands before it
    /// did stays.
    ///
    /// Force levels: from 2 on, a payment that the balance does not cover
    /// takes what is left of the balance instead of failing; from 3 on, a
    /// payment may take the balance below zero. Savings are never forced.
    pub fn execute(&mut self, cmds: Vec<BudgetCommand>, force: u8) -> (r: Result<(), Error>)
        requires
            old(self).wf(),
        ensures
            final(self).wf(),
            final(self)@ == run(old(self)@, command_views(cmds@), force).0,
            match run(old(self)@, command_views(cmds@), force).1 {
                None => r is Ok,
                Some(e) => r matches Err(x) && x@ == e,
            },
    {
        let ghost cs = command_views(cmds@);
        let mut i: usize = 0;
        assert(cs.skip(0) == cs);
        while i < cmds.len()
            invariant
                i <= cmds@.len(),
                cs == command_views(cmds@),
                self.wf(),
                run(old(self)@, cs, force) == run(self@, cs.skip(i as int), force),
            decreases cmds@.len() - i,
        {
            let ghost rest = cs.skip(i as int);
            assert(rest[0] == cmds@[i as int]@);
            assert(rest.drop_first() == cs.skip(i + 1));
            match self.apply_command(&cmds[i], force) {
                Ok(()) => {},
                Err(e) => {
                    return Err(e);
                },
            }
            i = i + 1;
        }
        assert(cs.skip(i as int).len() == 0);
        Ok(())
    }
}

/// Applies one command with no force.
pub fn apply_budget_command(budget: &mut Budget, cmd: BudgetCommand) -> (r: Result<(), Error>)
    requires
        old(budget).wf(),
    ensures
        final(budget).wf(),
        match step(old(budget)@, cmd@, 0) {
            Ok(b) => r is Ok && final(budget)@ == b,
            Err(e) => r matches Err(x) && x@ == e && final(budget)@ == old(budget)@,
        },
{
    budget.apply_command(&cmd, 0)
}

} // verus!
