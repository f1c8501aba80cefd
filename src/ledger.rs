use vstd::prelude::*;
use crate::error::Error;
use crate::money::{dollars_text, format_dollars};
use crate::text::{lower_text, same_text, title_text, to_lower, to_title_case};

verus! {

/// One recurring expense: what it is expected to cost each period, and what
/// has been paid to it so far this period.
#[derive(Debug, Clone)]
pub struct Expense {
    /// The normalized (ASCII lower-case) name.
    pub name: String,
    pub expected: i32,
    pub current: i32,
}

pub struct ExpenseView {
    pub name: Seq<char>,
    pub expected: int,
    pub current: int,
}

impl View for Expense {
    type V = ExpenseView;

    open spec fn view(&self) -> ExpenseView {
        ExpenseView { name: self.name@, expected: self.expected as int, current: self.current as int }
    }
}

/// The views of a sequence of expenses.
pub open spec fn views(v: Seq<Expense>) -> Seq<ExpenseView> {
    v.map_values(|e: Expense| e@)
}

/// Views commute with replacing one expense.
pub proof fn lemma_views_update(v: Seq<Expense>, i: int, e: Expense)
    requires
        0 <= i < v.len(),
    ensures
        views(v.update(i, e)) == views(v).update(i, e@),
{
    assert(views(v.update(i, e)) =~= views(v).update(i, e@));
}

/// Views commute with adding one expense at the end.
pub proof fn lemma_views_push(v: Seq<Expense>, e: Expense)
    ensures
        views(v.push(e)) == views(v).push(e@),
{
    assert(views(v.push(e)) =~= views(v).push(e@));
}

/// What a ledger holds, as mathematical values.
pub struct BudgetView {
    pub account: Seq<char>,
    pub balance: int,
    pub income: int,
    pub savings: int,
    pub expenses: Seq<ExpenseView>,
}

pub open spec fn in_i32(v: int) -> bool {
    i32::MIN <= v <= i32::MAX
}

/// No two expenses share a name.
pub open spec fn names_unique(es: Seq<ExpenseView>) -> bool {
    forall|i: int, j: int|
        0 <= i < es.len() && 0 <= j < es.len() && i != j ==> #[trigger] es[i].name != #[trigger] es[j].name
}

/// Every expense name is in normal (ASCII lower-case) form.
pub open spec fn names_normalized(es: Seq<ExpenseView>) -> bool {
    forall|i: int| 0 <= i < es.len() ==> lower_text(#[trigger] es[i].name) == es[i].name
}

pub open spec fn expenses_wf(es: Seq<ExpenseView>) -> bool {
    names_unique(es) && names_normalized(es)
}

pub open spec fn has_expense(es: Seq<ExpenseView>, k: Seq<char>) -> bool {
    exists|i: int| 0 <= i < es.len() && #[trigger] es[i].name == k
}

/// The position of the expense named `k`, or -1 where there is none.
pub open spec fn index_of(es: Seq<ExpenseView>, k: Seq<char>) -> int {
    if has_expense(es, k) {
        choose|i: int| 0 <= i < es.len() && #[trigger] es[i].name == k
    } else {
        -1
    }
}

/// In a table of unique names, the position of a name is where it stands.
pub proof fn lemma_index_of(es: Seq<ExpenseView>, k: Seq<char>, i: int)
    requires
        names_unique(es),
        0 <= i < es.len(),
        es[i].name == k,
    ensures
        index_of(es, k) == i,
        has_expense(es, k),
{
    assert(has_expense(es, k));
    let j = index_of(es, k);
    assert(0 <= j < es.len() && es[j].name == k);
}

/// The expenses with every amount paid this period back at zero.
pub open spec fn cleared(es: Seq<ExpenseView>) -> Seq<ExpenseView> {
    es.map_values(|e: ExpenseView| ExpenseView { name: e.name, expected: e.expected, current: 0 })
}

/// The expenses after `add_expense(k, cents)`: an entry of that name is
/// replaced in place, with nothing paid; otherwise one is added at the end.
pub open spec fn with_expense(es: Seq<ExpenseView>, k: Seq<char>, cents: int) -> Seq<ExpenseView> {
    let e = ExpenseView { name: k, expected: cents, current: 0 };
    if has_expense(es, k) {
        es.update(index_of(es, k), e)
    } else {
        es.push(e)
    }
}

/// The expenses after paying `cents` to the one named `k`.
pub open spec fn with_payment(es: Seq<ExpenseView>, k: Seq<char>, cents: int) -> Seq<ExpenseView> {
    let i = index_of(es, k);
    es.update(i, ExpenseView { name: k, expected: es[i].expected, current: es[i].current + cents })
}

/// The ledger of one account.
#[derive(Debug, Clone)]
pub struct Budget {
    /// The display name, free text.
    pub account: String,
    current_balance: i32,
    expected_income: i32,
    expenses: Vec<Expense>,
    savings: i32,
}

impl View for Budget {
    type V = BudgetView;

    closed spec fn view(&self) -> BudgetView {
        BudgetView {
            account: self.account@,
            balance: self.current_balance as int,
            income: self.expected_income as int,
            savings: self.savings as int,
            expenses: views(self.expenses@),
        }
    }
}

/// The message of a payment of `cents` to the expense named `k`.
pub open spec fn payment_message(cents: int, k: Seq<char>) -> Seq<char> {
    "Payment made: "@ + dollars_text(cents) + " to "@ + title_text(k)
}

/// The message of a saving of `cents`.
pub open spec fn saving_message(cents: int) -> Seq<char> {
    dollars_text(cents) + " saved!"@
}

/// Adding an expense under a normalized name keeps the table well formed.
pub proof fn lemma_with_expense_wf(es: Seq<ExpenseView>, k: Seq<char>, cents: int)
    requires
        expenses_wf(es),
        lower_text(k) == k,
    ensures
        expenses_wf(with_expense(es, k, cents)),
{
    let r = with_expense(es, k, cents);
    if has_expense(es, k) {
        let i = index_of(es, k);
        assert(0 <= i < es.len() && es[i].name == k);
        assert forall|a: int| 0 <= a < r.len() implies #[trigger] r[a].name == es[a].name by {}
    } else {
        assert forall|a: int| 0 <= a < es.len() implies #[trigger] r[a].name != k by {
            assert(es[a].name != k);
        }
    }
}

/// Paying an existing expense keeps the table well formed.
proof fn lemma_with_payment_wf(es: Seq<ExpenseView>, k: Seq<char>, cents: int)
    requires
        expenses_wf(es),
    ensures
        has_expense(es, k) ==> expenses_wf(with_payment(es, k, cents)),
        has_expense(es, k) ==> with_payment(es, k, cents).len() == es.len(),
{
    if has_expense(es, k) {
        let r = with_payment(es, k, cents);
        let i = index_of(es, k);
        assert(0 <= i < es.len() && es[i].name == k);
        assert forall|a: int| 0 <= a < r.len() implies #[trigger] r[a].name == es[a].name by {}
    }
}

/// The targets in normal form.
pub open spec fn lowered_texts(ts: Seq<Seq<char>>) -> Seq<Seq<char>> {
    ts.map_values(|t: Seq<char>| lower_text(t))
}

/// Whether `clear` with these targets touches the expense named `k`: with no
/// targets and no inversion every expense; else those named (in any case)
/// among the targets, or, inverted, those not named.
pub open spec fn selected(k: Seq<char>, targets: Seq<Seq<char>>, invert: bool) -> bool {
    if targets.len() == 0 && !invert {
        true
    } else {
        lowered_texts(targets).contains(k) != invert
    }
}

/// The expenses after `clear`: what was paid to each selected one is zero.
pub open spec fn clear_selected(es: Seq<ExpenseView>, targets: Seq<Seq<char>>, invert: bool) -> Seq<ExpenseView> {
    es.map_values(
        |e: ExpenseView|
            if selected(e.name, targets, invert) {
                ExpenseView { name: e.name, expected: e.expected, current: 0 }
            } else {
                e
            },
    )
}

/// The expenses after editing the one named `k`: a new expected amount
/// where one is given; a new (normalized) name where one is given, which
/// keeps what was paid and drops any other expense of that name.
pub open spec fn edited(
    es: Seq<ExpenseView>,
    k: Seq<char>,
    new_name: Option<Seq<char>>,
    new_amount: Option<i32>,
) -> Seq<ExpenseView> {
    let i = index_of(es, k);
    let e = es[i];
    let expected = match new_amount {
        Some(a) => a as int,
        None => e.expected,
    };
    match new_name {
        None => es.update(i, ExpenseView { name: e.name, expected: expected, current: e.current }),
        Some(n) => {
            let k2 = lower_text(n);
            let es2 = es.update(i, ExpenseView { name: k2, expected: expected, current: e.current });
            if k2 != k && has_expense(es, k2) {
                es2.remove(index_of(es, k2))
            } else {
                es2
            }
        },
    }
}

#[verifier::rlimit(40)]
/// Editing an existing expense keeps the table well formed.
proof fn lemma_edited_wf(es: Seq<ExpenseView>, k: Seq<char>, new_name: Option<Seq<char>>, new_amount: Option<i32>)
    requires
        expenses_wf(es),
        has_expense(es, k),
    ensures
        expenses_wf(edited(es, k, new_name, new_amount)),
{
    let i = index_of(es, k);
    assert(0 <= i < es.len() && es[i].name == k);
    let r = edited(es, k, new_name, new_amount);
    match new_name {
        None => {
            assert forall|a: int| 0 <= a < r.len() implies #[trigger] r[a].name == es[a].name by {}
        },
        Some(n) => {
            let k2 = lower_text(n);
            crate::text::lemma_lower_idempotent(n);
            let expected = match new_amount {
                Some(a) => a as int,
                None => es[i].expected,
            };
            let es2 = es.update(i, ExpenseView { name: k2, expected: expected, current: es[i].current });
            if k2 != k && has_expense(es, k2) {
                let j = index_of(es, k2);
                assert(0 <= j < es.len() && es[j].name == k2);
                assert(j != i);
                assert(r == es2.remove(j));
                assert forall|a: int| 0 <= a < r.len() implies #[trigger] r[a].name == (if a < j { es2[a].name } else { es2[a + 1].name }) by {}
                assert forall|a: int, b: int| 0 <= a < r.len() && 0 <= b < r.len() && a != b implies #[trigger] r[a].name != #[trigger] r[b].name by {
                    let a2 = if a < j { a } else { a + 1 };
                    let b2 = if b < j { b } else { b + 1 };
                    assert(a2 != b2 && a2 != j && b2 != j);
                    assert(r[a].name == es2[a2].name);
                    assert(r[b].name == es2[b2].name);
                    if a2 == i {
                        assert(es2[b2].name == es[b2].name);
                        assert(es[b2].name != k2);
                    } else if b2 == i {
                        assert(es2[a2].name == es[a2].name);
                        assert(es[a2].name != k2);
                    } else {
                        assert(es2[a2].name == es[a2].name);
                        assert(es2[b2].name == es[b2].name);
                    }
                }
                assert forall|a: int| 0 <= a < r.len() implies lower_text(#[trigger] r[a].name) == r[a].name by {
                    let a2 = if a < j { a } else { a + 1 };
                    assert(r[a].name == es2[a2].name);
                }
            } else {
                assert(r == es2);
                assert forall|a: int, b: int| 0 <= a < r.len() && 0 <= b < r.len() && a != b implies #[trigger] r[a].name != #[trigger] r[b].name by {
                    if a == i {
                        assert(r[b].name == es[b].name);
                        if k2 == k {
                            assert(es[b].name != es[i].name);
                        } else {
                            assert(es[b].name != k2);
                        }
                    } else if b == i {
                        assert(r[a].name == es[a].name);
                        if k2 == k {
                            assert(es[a].name != es[i].name);
                        } else {
                            assert(es[a].name != k2);
                        }
                    } else {
                        assert(r[a].name == es[a].name);
                        assert(r[b].name == es[b].name);
                    }
                }
                assert forall|a: int| 0 <= a < r.len() implies lower_text(#[trigger] r[a].name) == r[a].name by {
                    if a != i {
                        assert(r[a].name == es[a].name);
                    }
                }
            }
        },
    }
}

impl Budget {
    /// The ledger is well formed: expense names are normalized and unique.
    pub open spec fn wf(&self) -> bool {
        expenses_wf(self@.expenses)
    }

    /// Paying `cents` to the expense named `k` keeps every amount in range.
    pub open spec fn payment_fits(&self, k: Seq<char>, cents: int) -> bool {
        let i = index_of(self@.expenses, k);
        has_expense(self@.expenses, k) ==> in_i32(self@.balance - cents) && in_i32(
            self@.expenses[i].current + cents,
        )
    }

    /// Paying the expense named `k` what it is expected to cost keeps every
    /// amount in range.
    pub open spec fn static_payment_fits(&self, k: Seq<char>) -> bool {
        has_expense(self@.expenses, k) ==> self.payment_fits(
            k,
            self@.expenses[index_of(self@.expenses, k)].expected,
        )
    }

    /// A new, empty ledger for the given display name.
    pub fn new(account: &str) -> (r: Budget)
        ensures
            r.wf(),
            r@ == (BudgetView {
                account: account@,
                balance: 0,
                income: 0,
                savings: 0,
                expenses: Seq::empty(),
            }),
    {
        let r = Budget {
            account: String::from_str(account),
            current_balance: 0,
            expected_income: 0,
            expenses: Vec::new(),
            savings: 0,
        };
        assert(r@.expenses == Seq::<ExpenseView>::empty());
        r
    }

    /// A ledger of parts that are known to be well formed.
    pub(crate) fn from_checked_parts(
        account: String,
        current_balance: i32,
        expected_income: i32,
        savings: i32,
        expenses: Vec<Expense>,
    ) -> (r: Budget)
        requires
            expenses_wf(views(expenses@)),
        ensures
            r.wf(),
            r@ == (BudgetView {
                account: account@,
                balance: current_balance as int,
                income: expected_income as int,
                savings: savings as int,
                expenses: views(expenses@),
            }),
    {
        Budget { account, current_balance, expected_income, expenses, savings }
    }

    /// Sets the display name.
    pub fn set_account(&mut self, name: &str)
        ensures
            final(self)@ == (BudgetView { account: name@, ..old(self)@ }),
    {
        self.account = String::from_str(name);
    }

    pub fn balance(&self) -> (r: i32)
        ensures
            r == self@.balance,
    {
        self.current_balance
    }

    pub fn income(&self) -> (r: i32)
        ensures
            r == self@.income,
    {
        self.expected_income
    }

    pub fn savings(&self) -> (r: i32)
        ensures
            r == self@.savings,
    {
        self.savings
    }

    /// The expenses, in the order they were first added.
    pub fn expenses(&self) -> (r: &Vec<Expense>)
        ensures
            views(r@) == self@.expenses,
    {
        &self.expenses
    }

    pub fn account_name(&self) -> (r: &String)
        ensures
            r@ == self@.account,
    {
        &self.account
    }

    /// The position of the expense named exactly `k`, if any.
    pub fn find(&self, k: &str) -> (r: Option<usize>)
        requires
            self.wf(),
        ensures
            match r {
                Some(i) => has_expense(self@.expenses, k@) && i == index_of(self@.expenses, k@)
                    && i < self@.expenses.len(),
                None => !has_expense(self@.expenses, k@),
            },
    {
        let mut i: usize = 0;
        while i < self.expenses.len()
            invariant
                i <= self.expenses@.len(),
                self.wf(),
                self@.expenses == views(self.expenses@),
                forall|j: int| 0 <= j < i ==> #[trigger] self@.expenses[j].name != k@,
            decreases self.expenses@.len() - i,
        {
            if same_text(self.expenses[i].name.as_str(), k) {
                proof {
                    lemma_index_of(self@.expenses, k@, i as int);
                }
                return Some(i);
            }
            i = i + 1;
        }
        assert(!has_expense(self@.expenses, k@));
        None
    }

    /// Sets the expected income.
    pub fn set_income(&mut self, cents: i32)
        ensures
            final(self)@ == (BudgetView { income: cents as int, ..old(self)@ }),
    {
        self.expected_income = cents;
    }

    /// Adds to the expected income.
    pub fn add_income(&mut self, cents: i32)
        requires
            in_i32(old(self)@.income + cents),
        ensures
            final(self)@ == (BudgetView { income: old(self)@.income + cents, ..old(self)@ }),
    {
        self.set_income(self.expected_income + cents);
    }

    /// Receives the expected income into the balance.
    pub fn get_paid(&mut self)
        requires
            in_i32(old(self)@.balance + old(self)@.income),
        ensures
            final(self)@ == (BudgetView { balance: old(self)@.balance + old(self)@.income, ..old(self)@ }),
    {
        self.get_paid_value(self.expected_income)
    }

    /// Receives `cents` into the balance, whatever the expected income.
    pub fn get_paid_value(&mut self, cents: i32)
        requires
            in_i32(old(self)@.balance + cents),
        ensures
            final(self)@ == (BudgetView { balance: old(self)@.balance + cents, ..old(self)@ }),
    {
        self.current_balance = self.current_balance + cents;
    }

    /// Starts a new period: every amount paid to an expense goes back to
    /// zero; what each is expected to cost stays.
    pub fn refresh(&mut self)
        ensures
            final(self)@ == (BudgetView { expenses: cleared(old(self)@.expenses), ..old(self)@ }),
    {
        let ghost start = self@;
        let mut i: usize = 0;
        while i < self.expenses.len()
            invariant
                i <= self.expenses@.len(),
                self.expenses@.len() == start.expenses.len(),
                self@.account == start.account,
                self@.balance == start.balance,
                self@.income == start.income,
                self@.savings == start.savings,
                forall|j: int| 0 <= j < i ==> #[trigger] self@.expenses[j] == cleared(start.expenses)[j],
                forall|j: int| i <= j < self.expenses@.len() ==> #[trigger] self@.expenses[j] == start.expenses[j],
            decreases self.expenses@.len() - i,
        {
            let e = Expense {
                name: self.expenses[i].name.clone(),
                expected: self.expenses[i].expected,
                current: 0,
            };
            let ghost before = self.expenses@;
            proof {
                assert(views(before)[i as int] == before[i as int]@);
                assert(self@.expenses[i as int] == start.expenses[i as int]);
                assert(e@ == cleared(start.expenses)[i as int]);
            }
            self.expenses.set(i, e);
            proof {
                lemma_views_update(before, i as int, e);
                assert(self@.expenses == views(before).update(i as int, e@));
            }
            i = i + 1;
        }
        assert(self@.expenses =~= cleared(start.expenses));
    }

    /// Adds an expense under the normalized `name`, expected to cost `cents`
    /// and with nothing paid. An expense of that name is replaced, and what
    /// was paid to it is dropped.
    pub fn add_expense(&mut self, name: &str, cents: i32)
        requires
            old(self).wf(),
        ensures
            final(self).wf(),
            final(self)@ == (BudgetView {
                expenses: with_expense(old(self)@.expenses, lower_text(name@), cents as int),
                ..old(self)@
            }),
    {
        let k = to_lower(name);
        proof {
            crate::text::lemma_lower_idempotent(name@);
            lemma_with_expense_wf(self@.expenses, k@, cents as int);
        }
        let e = Expense { name: k.clone(), expected: cents, current: 0 };
        match self.find(k.as_str()) {
            Some(i) => {
                let ghost before = self.expenses@;
                self.expenses.set(i, e);
                proof {
                    lemma_views_update(before, i as int, e);
                }
            },
            None => {
                let ghost before = self.expenses@;
                self.expenses.push(e);
                proof {
                    lemma_views_push(before, e);
                }
            },
        }
    }

    /// Pays the expense named `name` (in any case) what it is expected to cost.
    /// Where there is none, the error carries the name as it was given.
    pub fn make_static_payment(&mut self, name: &str) -> (r: Result<String, Error>)
        requires
            old(self).wf(),
            old(self).static_payment_fits(lower_text(name@)),
        ensures
            ({
                let k = lower_text(name@);
                let es = old(self)@.expenses;
                if has_expense(es, k) {
                    let cents = es[index_of(es, k)].expected;
                    &&& final(self)@ == (BudgetView {
                        balance: old(self)@.balance - cents,
                        expenses: with_payment(es, k, cents),
                        ..old(self)@
                    })
                    &&& r matches Ok(m) && m@ == payment_message(cents, k)
                } else {
                    &&& final(self)@ == old(self)@
                    &&& r matches Err(Error::ExpenseDoesNotExist(t)) && t@ == name@
                }
            }),
            final(self).wf(),
    {
        let k = to_lower(name);
        match self.find(k.as_str()) {
            Some(i) => {
                assert(self@.expenses[i as int] == self.expenses@[i as int]@);
                let cents = self.expenses[i].expected;
                self.make_dynamic_payment(name, cents)
            },
            None => Err(Error::ExpenseDoesNotExist(String::from_str(name))),
        }
    }

    /// Pays `cents` to the expense named `name` (in any case). The balance
    /// may go below zero: this method does not check what can be afforded.
    pub fn make_dynamic_payment(&mut self, name: &str, cents: i32) -> (r: Result<String, Error>)
        requires
            old(self).wf(),
            old(self).payment_fits(lower_text(name@), cents as int),
        ensures
            ({
                let k = lower_text(name@);
                let es = old(self)@.expenses;
                if has_expense(es, k) {
                    &&& final(self)@ == (BudgetView {
                        balance: old(self)@.balance - cents,
                        expenses: with_payment(es, k, cents as int),
                        ..old(self)@
                    })
                    &&& r matches Ok(m) && m@ == payment_message(cents as int, k)
                } else {
                    &&& final(self)@ == old(self)@
                    &&& r matches Err(Error::ExpenseDoesNotExist(t)) && t@ == k
                }
            }),
            final(self).wf(),
    {
        let k = to_lower(name);
        proof {
            lemma_with_payment_wf(self@.expenses, k@, cents as int);
        }
        match self.find(k.as_str()) {
            Some(i) => {
                assert(i as int == index_of(self@.expenses, k@));
                assert(has_expense(self@.expenses, k@));
                assert(in_i32(self@.expenses[i as int].current + cents));
                assert(self@.expenses[i as int] == self.expenses@[i as int]@);
                assert(self.expenses@[i as int].current == self@.expenses[i as int].current);
                let e = Expense {
                    name: self.expenses[i].name.clone(),
                    expected: self.expenses[i].expected,
                    current: self.expenses[i].current + cents,
                };
                self.current_balance = self.current_balance - cents;
                let ghost before = self.expenses@;
                self.expenses.set(i, e);
                proof {
                    lemma_views_update(before, i as int, e);
                }
                let mut m = String::from_str("Payment made: ");
                m.append(format_dollars(cents).as_str());
                m.append(" to ");
                m.append(to_title_case(k).as_str());
                Ok(m)
            },
            None => Err(Error::ExpenseDoesNotExist(k)),
        }
    }

    /// Moves `cents` from the balance into savings, where the balance holds
    /// that much; otherwise nothing changes.
    pub fn save(&mut self, cents: i32) -> (r: Result<String, Error>)
        requires
            old(self)@.balance >= cents ==> in_i32(old(self)@.balance - cents) && in_i32(
                old(self)@.savings + cents,
            ),
        ensures
            if old(self)@.balance < cents {
                &&& final(self)@ == old(self)@
                &&& r matches Err(Error::CannotAfford { expense, amount, remaining_balance })
                    && expense@ == "savings"@ && amount == cents
                    && remaining_balance == old(self)@.balance
            } else {
                &&& final(self)@ == (BudgetView {
                    balance: old(self)@.balance - cents,
                    savings: old(self)@.savings + cents,
                    ..old(self)@
                })
                &&& r matches Ok(m) && m@ == saving_message(cents as int)
            },
    {
        if self.current_balance < cents {
            Err(Error::CannotAfford {
                expense: String::from_str("savings"),
                amount: cents,
                remaining_balance: self.current_balance,
            })
        } else {
            self.current_balance = self.current_balance - cents;
            self.savings = self.savings + cents;
            let mut m = format_dollars(cents);
            m.append(" saved!");
            Ok(m)
        }
    }

    /// Moves the whole balance into savings.
    pub fn save_all(&mut self) -> (r: Result<String, Error>)
        requires
            in_i32(old(self)@.savings + old(self)@.balance),
        ensures
            ({
                let b = old(self)@.balance;
                &&& final(self)@ == (BudgetView { balance: 0, savings: old(self)@.savings + b, ..old(self)@ })
                &&& r matches Ok(m) && m@ == saving_message(b)
            }),
    {
        assert(self@.balance == self.current_balance);
        self.save(self.current_balance)
    }

    /// Whether `k` is among the targets, compared in normal form.
    fn is_selected(k: &String, lowered: &Vec<String>, invert: bool, targets: Ghost<Seq<Seq<char>>>) -> (r: bool)
        requires
            texts_of(lowered@) == lowered_texts(targets@),
            targets@.len() > 0 || invert,
        ensures
            r == selected(k@, targets@, invert),
    {
        let ghost low = lowered_texts(targets@);
        let mut i: usize = 0;
        while i < lowered.len()
            invariant
                i <= lowered@.len(),
                texts_of(lowered@) == low,
                low == lowered_texts(targets@),
                targets@.len() > 0 || invert,
                forall|j: int| 0 <= j < i ==> low[j] != k@,
            decreases lowered@.len() - i,
        {
            assert(low[i as int] == lowered@[i as int]@);
            if same_text(lowered[i].as_str(), k.as_str()) {
                assert(low.contains(k@));
                assert(low == lowered_texts(targets@));
                assert(selected(k@, targets@, invert) == !invert);
                return !invert;
            }
            i = i + 1;
        }
        assert(!low.contains(k@));
        invert
    }

    /// Clears what was paid to the selected expenses: with no targets and
    /// no inversion, all of them; else those named among the targets (in any
    /// case), or, inverted, all but those. Unknown names are ignored.
    #[verifier::rlimit(40)]
    pub fn clear_expenses(&mut self, targets: &Vec<String>, invert: bool)
        requires
            old(self).wf(),
        ensures
            final(self).wf(),
            final(self)@ == (BudgetView {
                expenses: clear_selected(old(self)@.expenses, texts_of(targets@), invert),
                ..old(self)@
            }),
    {
        if targets.len() == 0 && !invert {
            self.refresh();
            assert(cleared(old(self)@.expenses) =~= clear_selected(old(self)@.expenses, texts_of(targets@), invert));
            proof {
                lemma_clear_selected_wf(old(self)@.expenses, texts_of(targets@), invert);
            }
            return;
        }
        let ghost ts = texts_of(targets@);
        let mut lowered: Vec<String> = Vec::new();
        let mut t: usize = 0;
        while t < targets.len()
            invariant
                t <= targets@.len(),
                ts == texts_of(targets@),
                texts_of(lowered@) == lowered_texts(ts.take(t as int)),
            decreases targets@.len() - t,
        {
            let ghost before = lowered@;
            let low = to_lower(targets[t].as_str());
            lowered.push(low);
            assert(ts[t as int] == targets@[t as int]@);
            assert(texts_of(lowered@) =~= texts_of(before).push(low@));
            assert(ts.take(t + 1) =~= ts.take(t as int).push(ts[t as int]));
            assert(lowered_texts(ts.take(t + 1)) =~= lowered_texts(ts.take(t as int)).push(lower_text(ts[t as int])));
            t = t + 1;
        }
        assert(ts.take(targets@.len() as int) == ts);
        let ghost start = self@;
        let ghost goal = clear_selected(start.expenses, ts, invert);
        let mut i: usize = 0;
        while i < self.expenses.len()
            invariant
                i <= self.expenses@.len(),
                self.expenses@.len() == start.expenses.len(),
                goal.len() == start.expenses.len(),
                goal == clear_selected(start.expenses, ts, invert),
                ts.len() > 0 || invert,
                texts_of(lowered@) == lowered_texts(ts),
                self@.account == start.account,
                self@.balance == start.balance,
                self@.income == start.income,
                self@.savings == start.savings,
                forall|j: int| 0 <= j < i ==> #[trigger] self@.expenses[j] == goal[j],
                forall|j: int| i <= j < self.expenses@.len() ==> #[trigger] self@.expenses[j] == start.expenses[j],
            decreases self.expenses@.len() - i,
        {
            assert(self@.expenses[i as int] == self.expenses@[i as int]@);
            let sel = Budget::is_selected(&self.expenses[i].name, &lowered, invert, Ghost(ts));
            if sel {
                let e = Expense {
                    name: self.expenses[i].name.clone(),
                    expected: self.expenses[i].expected,
                    current: 0,
                };
                let ghost before = self.expenses@;
                assert(e@ == goal[i as int]);
                self.expenses.set(i, e);
                proof {
                    lemma_views_update(before, i as int, e);
                }
            } else {
                assert(self@.expenses[i as int] == goal[i as int]);
            }
            i = i + 1;
        }
        assert(self@.expenses =~= goal);
        proof {
            lemma_clear_selected_wf(old(self)@.expenses, ts, invert);
        }
    }

    /// Edits the expense named `target` (in any case): sets what it is
    /// expected to cost where `new_amount` is given (what was paid stays),
    /// and moves it to the normalized `new_name` where one is given, keeping
    /// what was paid and its place, and dropping any other expense of that
    /// name.
    #[verifier::rlimit(40)]
    pub fn edit_expense(&mut self, target: &str, new_name: &Option<String>, new_amount: Option<i32>) -> (r: Result<(), Error>)
        requires
            old(self).wf(),
        ensures
            final(self).wf(),
            ({
                let k = lower_text(target@);
                let es = old(self)@.expenses;
                if has_expense(es, k) {
                    &&& r is Ok
                    &&& final(self)@ == (BudgetView {
                        expenses: edited(es, k, crate::command::opt_text(*new_name), new_amount),
                        ..old(self)@
                    })
                } else {
                    &&& final(self)@ == old(self)@
                    &&& r matches Err(Error::ExpenseDoesNotExist(t)) && t@ == k
                }
            }),
    {
        let k = to_lower(target);
        let i = match self.find(k.as_str()) {
            Some(i) => i,
            None => {
                return Err(Error::ExpenseDoesNotExist(k));
            },
        };
        proof {
            lemma_edited_wf(self@.expenses, k@, crate::command::opt_text(*new_name), new_amount);
        }
        assert(self@.expenses[i as int] == self.expenses@[i as int]@);
        let expected = match new_amount {
            Some(a) => a,
            None => self.expenses[i].expected,
        };
        let ghost es = self@.expenses;
        match new_name {
            None => {
                let e = Expense { name: self.expenses[i].name.clone(), expected, current: self.expenses[i].current };
                let ghost before = self.expenses@;
                self.expenses.set(i, e);
                proof {
                    lemma_views_update(before, i as int, e);
                }
                assert(self@.expenses == edited(es, k@, None, new_amount));
            },
            Some(n) => {
                let k2 = to_lower(n.as_str());
                let other = if same_text(k2.as_str(), k.as_str()) { None } else { self.find(k2.as_str()) };
                let e = Expense { name: k2, expected, current: self.expenses[i].current };
                let ghost before = self.expenses@;
                self.expenses.set(i, e);
                proof {
                    lemma_views_update(before, i as int, e);
                }
                match other {
                    Some(j) => {
                        let ghost mid = self.expenses@;
                        self.expenses.remove(j);
                        assert(views(self.expenses@) =~= views(mid).remove(j as int));
                    },
                    None => {},
                }
                assert(self@.expenses == edited(es, k@, Some(n@), new_amount));
            },
        }
        Ok(())
    }
}

/// The views of a sequence of strings.
pub open spec fn texts_of(v: Seq<String>) -> Seq<Seq<char>> {
    v.map_values(|t: String| t@)
}

/// The view of a table at a position is the view of the expense there.
pub proof fn lemma_view_index(v: Seq<Expense>, i: int)
    requires
        0 <= i < v.len(),
    ensures
        views(v)[i] == v[i]@,
        views(v).len() == v.len(),
{
}

/// Clearing paid amounts keeps the table well formed.
proof fn lemma_clear_selected_wf(es: Seq<ExpenseView>, targets: Seq<Seq<char>>, invert: bool)
    requires
        expenses_wf(es),
    ensures
        expenses_wf(clear_selected(es, targets, invert)),
{
    let r = clear_selected(es, targets, invert);
    assert forall|a: int| 0 <= a < r.len() implies #[trigger] r[a].name == es[a].name by {}
}

/// One line of the expense list: `Name: paid/expected`.
pub open spec fn expense_line(e: ExpenseView) -> Seq<char> {
    title_text(e.name) + ": "@ + dollars_text(e.current) + "/"@ + dollars_text(e.expected) + "\n"@
}

pub open spec fn expense_lines(es: Seq<ExpenseView>) -> Seq<char>
    decreases es.len(),
{
    if es.len() == 0 {
        Seq::empty()
    } else {
        expense_lines(es.drop_last()) + expense_line(es.last())
    }
}

/// The ledger as text: a header with the display name, the balance, income
/// and savings, then one line for each expense in order.
pub open spec fn rendered(b: BudgetView) -> Seq<char> {
    "==={ Welcome, "@ + b.account + "! }===\n"@ + "Balance: "@ + dollars_text(b.balance) + "\n"@
        + "Income: "@ + dollars_text(b.income) + "\n"@ + "Savings: "@ + dollars_text(b.savings)
        + "\n"@ + "\nExpenses:\n"@ + expense_lines(b.expenses)
}

/// One line of the expense list, as text.
fn expense_line_text(e: &Expense) -> (r: String)
    ensures
        r@ == expense_line(e@),
{
    let mut out = to_title_case(e.name.clone());
    out.append(": ");
    out.append(format_dollars(e.current).as_str());
    out.append("/");
    out.append(format_dollars(e.expected).as_str());
    out.append("\n");
    out
}

impl Budget {
    /// The ledger as text, for display.
    #[verifier::rlimit(40)]
    pub fn render(&self) -> (r: String)
        ensures
            r@ == rendered(self@),
    {
        let mut out = String::from_str("==={ Welcome, ");
        out.append(self.account.as_str());
        out.append("! }===\n");
        out.append("Balance: ");
        out.append(format_dollars(self.current_balance).as_str());
        out.append("\n");
        out.append("Income: ");
        out.append(format_dollars(self.expected_income).as_str());
        out.append("\n");
        out.append("Savings: ");
        out.append(format_dollars(self.savings).as_str());
        out.append("\n");
        out.append("\nExpenses:\n");
        let ghost head = out@;
        let mut i: usize = 0;
        while i < self.expenses.len()
            invariant
                i <= self.expenses@.len(),
                out@ == head + expense_lines(self@.expenses.take(i as int)),
            decreases self.expenses@.len() - i,
        {
            let line = expense_line_text(&self.expenses[i]);
            proof {
                lemma_view_index(self.expenses@, i as int);
                assert(self@.expenses.take(i + 1).drop_last() == self@.expenses.take(i as int));
                assert(self@.expenses.take(i + 1).last() == self.expenses@[i as int]@);
            }
            out.append(line.as_str());
            i = i + 1;
        }
        assert(self@.expenses.take(self.expenses@.len() as int) == self@.expenses);
        out
    }
}

} // verus!
