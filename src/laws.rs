use vstd::prelude::*;
use crate::ledger::{
    expenses_wf, has_expense, index_of, lemma_index_of, with_expense, with_payment, BudgetView,
    ExpenseView,
};
use crate::money::{
    all_digits, amount_cents, amount_digits, digit_char, digit_value, digits_value, dollars_text,
    frac_cents, frac_part, int_text, is_digit, nat_digits, parsed_amount, strip_dollar,
    well_formed_amount, whole_part,
};
use crate::store::{app_id, decoded, envelope_payload, frame_ok, le_u32, SAVE_FORMAT_VERSION};
use crate::text::lower_text;

verus! {

proof fn lemma_digit_char(d: nat)
    requires
        d < 10,
    ensures
        is_digit(digit_char(d)),
        digit_value(digit_char(d)) == d,
{
}

proof fn lemma_nat_digits(n: nat)
    ensures
        all_digits(nat_digits(n)),
        digits_value(nat_digits(n)) == n,
        nat_digits(n).len() >= 1,
    decreases n,
{
    lemma_digit_char(n % 10);
    if n < 10 {
        let t = seq![digit_char(n)];
        assert(t.drop_last() =~= Seq::<char>::empty());
        assert(digits_value(Seq::<char>::empty()) == 0);
        assert(digits_value(t) == digits_value(t.drop_last()) * 10 + digit_value(t.last()));
    } else {
        lemma_nat_digits(n / 10);
        let t = nat_digits(n);
        assert(t.drop_last() == nat_digits(n / 10));
        assert(digits_value(t) == digits_value(t.drop_last()) * 10 + digit_value(t.last()));
        assert(n == (n / 10) * 10 + n % 10);
        assert forall|i: int| 0 <= i < t.len() implies is_digit(#[trigger] t[i]) by {
            if i < t.len() - 1 {
                assert(t[i] == nat_digits(n / 10)[i]);
            }
        }
    }
}

/// The whole and fraction of `m` where its first `.` stands at `k`.
proof fn lemma_split_at_dot(m: Seq<char>, k: int)
    requires
        0 <= k < m.len(),
        m[k] == '.',
        forall|j: int| 0 <= j < k ==> is_digit(#[trigger] m[j]),
    ensures
        whole_part(m) == m.take(k),
        frac_part(m) == m.skip(k + 1),
{
    assert forall|j: int| 0 <= j < k implies m[j] != '.' by {
        assert(is_digit(m[j]));
    }
    crate::money::lemma_first_dot(m, k);
}

/// Formatting a non-negative amount of cents and parsing the text again
/// gives the same amount.
pub proof fn lemma_dollars_round_trip(c: int)
    requires
        0 <= c <= i32::MAX,
    ensures
        parsed_amount(dollars_text(c)) == Some(c as i32),
{
    let t = int_text(c);
    assert(t == nat_digits(c as nat));
    lemma_nat_digits(c as nat);
    let n = t.len() as int;
    let s = dollars_text(c);
    let m = amount_digits(s);
    assert(strip_dollar(s) == s.drop_first());
    assert(is_digit(s.drop_first()[0]));
    assert(m == s.drop_first());
    if n >= 3 {
        assert(m =~= t.take(n - 2) + seq!['.'] + t.skip(n - 2));
        assert forall|j: int| 0 <= j < n - 2 implies is_digit(#[trigger] m[j]) by {
            assert(m[j] == t[j]);
        }
        lemma_split_at_dot(m, n - 2);
        assert(whole_part(m) =~= t.take(n - 2));
        assert(frac_part(m) =~= t.skip(n - 2));
        crate::money::lemma_digits_step(t, n - 2);
        crate::money::lemma_digits_step(t, n - 1);
        assert(t.take(n) == t);
        assert forall|j: int| 0 <= j < n - 2 implies is_digit(#[trigger] t.take(n - 2)[j]) by {}
        assert forall|j: int| 0 <= j < 2 implies is_digit(#[trigger] t.skip(n - 2)[j]) by {}
        assert(t.skip(n - 2)[0] == t[n - 2] && t.skip(n - 2)[1] == t[n - 1]);
        assert(frac_cents(frac_part(m)) == digit_value(t[n - 2]) * 10 + digit_value(t[n - 1]));
        assert(digits_value(whole_part(m)) * 100 + frac_cents(frac_part(m)) == c);
    } else if n == 2 {
        assert(m =~= seq!['0', '.'] + t);
        lemma_split_at_dot(m, 1);
        assert(whole_part(m) =~= seq!['0']);
        assert(frac_part(m) =~= t);
        assert(seq!['0'].drop_last() =~= Seq::<char>::empty());
        crate::money::lemma_digits_step(t, 0);
        crate::money::lemma_digits_step(t, 1);
        assert(t.take(0) =~= Seq::<char>::empty());
        assert(t.take(2) == t);
        assert(digits_value(seq!['0']) == 0);
        assert(frac_cents(frac_part(m)) == digit_value(t[0]) * 10 + digit_value(t[1]));
        assert(digits_value(whole_part(m)) * 100 + frac_cents(frac_part(m)) == c);
    } else {
        assert(m =~= seq!['0', '.', '0'] + t);
        lemma_split_at_dot(m, 1);
        assert(whole_part(m) =~= seq!['0']);
        assert(frac_part(m) =~= seq!['0'] + t);
        assert(seq!['0'].drop_last() =~= Seq::<char>::empty());
        assert(t.drop_last() =~= Seq::<char>::empty());
        assert forall|j: int| 0 <= j < 2 implies is_digit(#[trigger] (seq!['0'] + t)[j]) by {}
        assert(digits_value(Seq::<char>::empty()) == 0);
        assert(seq!['0'].last() == '0');
        assert(digit_value('0') == 0);
        assert(digits_value(seq!['0']) == digits_value(seq!['0'].drop_last()) * 10 + digit_value(seq!['0'].last()));
        assert(digits_value(seq!['0']) == 0);
        assert(digits_value(t) == digits_value(t.drop_last()) * 10 + digit_value(t.last()));
        assert(frac_cents(frac_part(m)) == digit_value(t[0]));
        assert(digits_value(whole_part(m)) * 100 + frac_cents(frac_part(m)) == c);
    }
    assert(well_formed_amount(s));
    assert(!(strip_dollar(s).len() > 0 && strip_dollar(s)[0] == '-'));
    assert(amount_cents(s) == c);
}

/// After an expense is added under some name, paying it by that name in any
/// ASCII case finds it, takes what it is expected to cost, and records that
/// amount as paid to it.
pub proof fn lemma_new_expense_then_pay(es: Seq<ExpenseView>, name: Seq<char>, other: Seq<char>, cents: int)
    requires
        expenses_wf(es),
        lower_text(name) == lower_text(other),
    ensures
        ({
            let k = lower_text(other);
            let es1 = with_expense(es, lower_text(name), cents);
            let i = index_of(es1, k);
            &&& has_expense(es1, k)
            &&& es1[i].expected == cents
            &&& es1[i].current == 0
            &&& with_payment(es1, k, cents)[i].current == cents
            &&& with_payment(es1, k, cents)[i].name == k
        }),
{
    let k = lower_text(name);
    let es1 = with_expense(es, k, cents);
    let e = ExpenseView { name: k, expected: cents, current: 0 };
    crate::text::lemma_lower_idempotent(name);
    crate::ledger::lemma_with_expense_wf(es, k, cents);
    if has_expense(es, k) {
        let i = index_of(es, k);
        assert(0 <= i < es.len() && es[i].name == k);
        assert(es1[i] == e);
        lemma_index_of(es1, k, i);
    } else {
        assert(es1[es.len() as int] == e);
        lemma_index_of(es1, k, es.len() as int);
    }
}

/// What is saved of a well-formed ledger reads back as the same ledger.
pub proof fn lemma_ledger_round_trip(b: BudgetView)
    requires
        expenses_wf(b.expenses),
    ensures
        decoded(b.account, b.balance, b.income, b.savings, b.expenses) == Some(b),
{
}

/// An envelope made by this application opens to the payload put in it.
pub proof fn lemma_envelope_round_trip(data: Seq<u8>)
    ensures
        envelope_payload(app_id(), SAVE_FORMAT_VERSION, data) == Some(data),
{
}

/// A whole encoded document cut short anywhere is no longer whole.
pub proof fn lemma_truncated_frame_rejected(b: Seq<u8>, k: int)
    requires
        frame_ok(b),
        0 <= k < b.len(),
    ensures
        !frame_ok(b.take(k)),
{
    if k >= 5 {
        let p = b.take(k);
        assert(p[0] == b[0] && p[1] == b[1] && p[2] == b[2] && p[3] == b[3]);
        assert(le_u32(p) == le_u32(b));
    }
}

} // verus!
