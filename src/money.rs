use vstd::prelude::*;
use crate::error::Error;
use crate::text::{push_char, push_chars};

verus! {

/// The character of a decimal digit.
pub open spec fn digit_char(d: nat) -> char {
    if d == 0 { '0' }
    else if d == 1 { '1' }
    else if d == 2 { '2' }
    else if d == 3 { '3' }
    else if d == 4 { '4' }
    else if d == 5 { '5' }
    else if d == 6 { '6' }
    else if d == 7 { '7' }
    else if d == 8 { '8' }
    else { '9' }
}

/// The decimal digits of `n`, most significant first, without leading zeros.
pub open spec fn nat_digits(n: nat) -> Seq<char>
    decreases n,
{
    if n < 10 {
        seq![digit_char(n)]
    } else {
        nat_digits(n / 10).push(digit_char(n % 10))
    }
}

/// The decimal text of an integer, with a leading `-` when negative.
pub open spec fn int_text(i: int) -> Seq<char> {
    if i < 0 {
        seq!['-'] + nat_digits((-i) as nat)
    } else {
        nat_digits(i as nat)
    }
}

/// `cents` as currency: the decimal text with its last two characters after
/// a dot, padded on the left with zeros when it is shorter than three.
pub open spec fn dollars_text(cents: int) -> Seq<char> {
    let t = int_text(cents);
    let n = t.len() as int;
    if n >= 3 {
        seq!['$'] + t.subrange(0, n - 2) + seq!['.'] + t.subrange(n - 2, n)
    } else if n == 2 {
        seq!['$', '0', '.'] + t
    } else {
        seq!['$', '0', '.', '0'] + t
    }
}

fn digit_of(d: u32) -> (c: char)
    requires
        d < 10,
    ensures
        c == digit_char(d as nat),
{
    if d == 0 { '0' }
    else if d == 1 { '1' }
    else if d == 2 { '2' }
    else if d == 3 { '3' }
    else if d == 4 { '4' }
    else if d == 5 { '5' }
    else if d == 6 { '6' }
    else if d == 7 { '7' }
    else if d == 8 { '8' }
    else { '9' }
}

/// Every number has at least one digit.
proof fn lemma_nat_digits_len(n: nat)
    ensures
        nat_digits(n).len() >= 1,
    decreases n,
{
    if n >= 10 {
        lemma_nat_digits_len(n / 10);
    }
}

/// The decimal digits of `n`.
fn digits_of(n: u32) -> (ds: Vec<char>)
    ensures
        ds@ == nat_digits(n as nat),
{
    let mut rest: u32 = n;
    let mut ds: Vec<char> = Vec::new();
    while rest >= 10
        invariant
            nat_digits(n as nat) == nat_digits(rest as nat) + ds@,
        decreases rest,
    {
        let c = digit_of(rest % 10);
        let ghost old_ds = ds@;
        ds.insert(0, c);
        assert(ds@ == seq![c] + old_ds);
        assert(nat_digits(rest as nat) == nat_digits((rest / 10) as nat).push(c));
        assert(nat_digits((rest / 10) as nat).push(c) + old_ds == nat_digits((rest / 10) as nat) + (seq![c] + old_ds));
        rest = rest / 10;
    }
    let c = digit_of(rest);
    let ghost old_ds = ds@;
    ds.insert(0, c);
    assert(ds@ == seq![c] + old_ds);
    ds
}

/// The decimal text of `v`.
fn int_chars(v: i32) -> (r: Vec<char>)
    ensures
        r@ == int_text(v as int),
{
    let mag: u32 = if v < 0 { (0i64 - v as i64) as u32 } else { v as u32 };
    let ds = digits_of(mag);
    if v < 0 {
        let mut r: Vec<char> = Vec::new();
        r.push('-');
        let mut i: usize = 0;
        while i < ds.len()
            invariant
                i <= ds@.len(),
                r@ == seq!['-'] + ds@.subrange(0, i as int),
            decreases ds@.len() - i,
        {
            r.push(ds[i]);
            i = i + 1;
            assert(ds@.subrange(0, i as int) == ds@.subrange(0, i - 1 as int).push(ds@[i - 1]));
        }
        assert(ds@.subrange(0, ds@.len() as int) == ds@);
        r
    } else {
        ds
    }
}

/// Renders integer cents as `$D.CC`: the decimal text of `cents` with its last
/// two characters after the dot, zero-padded on the left when shorter.
/// A negative amount keeps its sign inside the text (`-5` gives `$0.-5`).
pub fn format_dollars(cents: i32) -> (r: String)
    ensures
        r@ == dollars_text(cents as int),
{
    let t = int_chars(cents);
    let n = t.len();
    let mut out = String::new();
    push_char(&mut out, '$');
    if n >= 3 {
        let mut i: usize = 0;
        while i < n
            invariant
                n == t@.len(),
                n >= 3,
                i <= n,
                i <= n - 2 ==> out@ == seq!['$'] + t@.subrange(0, i as int),
                i > n - 2 ==> out@ == seq!['$'] + t@.subrange(0, n - 2) + seq!['.'] + t@.subrange(n - 2, i as int),
            decreases n - i,
        {
            if i == n - 2 {
                push_char(&mut out, '.');
                assert(t@.subrange(n - 2, n - 2) == Seq::<char>::empty());
            }
            let ghost before = out@;
            push_char(&mut out, t[i]);
            i = i + 1;
            if i <= n - 2 {
                assert(t@.subrange(0, i as int) == t@.subrange(0, i - 1 as int).push(t@[i - 1]));
            } else {
                assert(t@.subrange(n - 2, i as int) == t@.subrange(n - 2, i - 1 as int).push(t@[i - 1]));
            }
        }
    } else if n == 2 {
        push_char(&mut out, '0');
        push_char(&mut out, '.');
        push_chars(&mut out, &t);
    } else {
        push_char(&mut out, '0');
        push_char(&mut out, '.');
        push_char(&mut out, '0');
        push_chars(&mut out, &t);
    }
    proof {
        lemma_nat_digits_len(0);
    }
    out
}


pub open spec fn is_digit(c: char) -> bool {
    '0' <= c && c <= '9'
}

pub open spec fn digit_value(c: char) -> nat {
    (c as u32 - '0' as u32) as nat
}

pub open spec fn all_digits(s: Seq<char>) -> bool {
    forall|i: int| 0 <= i < s.len() ==> is_digit(#[trigger] s[i])
}

/// The number that a string of decimal digits spells.
pub open spec fn digits_value(s: Seq<char>) -> nat
    decreases s.len(),
{
    if s.len() == 0 {
        0
    } else {
        digits_value(s.drop_last()) * 10 + digit_value(s.last())
    }
}

/// The text without one leading `$`.
pub open spec fn strip_dollar(s: Seq<char>) -> Seq<char> {
    if s.len() > 0 && s[0] == '$' { s.drop_first() } else { s }
}

/// The text without one leading sign.
pub open spec fn strip_sign(s: Seq<char>) -> Seq<char> {
    if s.len() > 0 && (s[0] == '+' || s[0] == '-') { s.drop_first() } else { s }
}

/// The position of the first `.`, or the length when there is none.
pub open spec fn first_dot(m: Seq<char>) -> nat
    decreases m.len(),
{
    if m.len() == 0 {
        0
    } else if m[0] == '.' {
        0
    } else {
        1 + first_dot(m.drop_first())
    }
}

/// The digits before the decimal point.
pub open spec fn whole_part(m: Seq<char>) -> Seq<char> {
    m.take(first_dot(m) as int)
}

/// The digits after the decimal point (none when there is no point).
pub open spec fn frac_part(m: Seq<char>) -> Seq<char> {
    if first_dot(m) < m.len() { m.skip(first_dot(m) + 1 as int) } else { Seq::empty() }
}

/// The unsigned number of an amount literal: what follows `$` and sign.
pub open spec fn amount_digits(s: Seq<char>) -> Seq<char> {
    strip_sign(strip_dollar(s))
}

/// An amount literal: an optional `$`, an optional sign, then whole dollars
/// with an optional decimal point and fraction, at least one digit in all.
pub open spec fn well_formed_amount(s: Seq<char>) -> bool {
    let m = amount_digits(s);
    &&& all_digits(whole_part(m))
    &&& all_digits(frac_part(m))
    &&& whole_part(m).len() + frac_part(m).len() >= 1
}

/// The cents of the first two fraction digits; later ones are cut off.
pub open spec fn frac_cents(f: Seq<char>) -> nat {
    (if f.len() >= 1 { digit_value(f[0]) * 10 } else { 0 }) + (if f.len() >= 2 {
        digit_value(f[1])
    } else {
        0
    })
}

/// The value of an amount literal in cents, multiplied by a hundred and
/// truncated toward zero.
pub open spec fn amount_cents(s: Seq<char>) -> int {
    let b = strip_dollar(s);
    let m = amount_digits(s);
    let mag: int = (digits_value(whole_part(m)) * 100 + frac_cents(frac_part(m))) as int;
    if b.len() > 0 && b[0] == '-' { -mag } else { mag }
}

/// The cents of an amount literal, where it is one and fits in an `i32`.
pub open spec fn parsed_amount(s: Seq<char>) -> Option<i32> {
    if well_formed_amount(s) && i32::MIN <= amount_cents(s) <= i32::MAX {
        Some(amount_cents(s) as i32)
    } else {
        None
    }
}

/// Where no character before `k` is a dot, the first dot stands at `k` or
/// later, and at `k` where `k` holds one.
pub proof fn lemma_first_dot(m: Seq<char>, k: int)
    requires
        0 <= k <= m.len(),
        forall|j: int| 0 <= j < k ==> m[j] != '.',
    ensures
        first_dot(m) >= k,
        first_dot(m) <= m.len(),
        k < m.len() && m[k] == '.' ==> first_dot(m) == k,
        k == m.len() ==> first_dot(m) == m.len(),
    decreases m.len(),
{
    if m.len() > 0 && k > 0 {
        let t = m.drop_first();
        assert forall|j: int| 0 <= j < k - 1 implies t[j] != '.' by {
            assert(t[j] == m[j + 1]);
        }
        lemma_first_dot(t, k - 1);
        if k < m.len() {
            assert(t[k - 1] == m[k]);
        }
    } else if m.len() > 0 {
        lemma_first_dot_bound(m);
    }
}

/// The first dot stands within the text, or at its end.
proof fn lemma_first_dot_bound(m: Seq<char>)
    ensures
        first_dot(m) <= m.len(),
    decreases m.len(),
{
    if m.len() > 0 && m[0] != '.' {
        lemma_first_dot_bound(m.drop_first());
    }
}

/// The value of one more leading digit.
pub proof fn lemma_digits_step(s: Seq<char>, i: int)
    requires
        0 <= i < s.len(),
    ensures
        digits_value(s.take(i + 1)) == digits_value(s.take(i)) * 10 + digit_value(s[i]),
{
    assert(s.take(i + 1).drop_last() == s.take(i));
}

const WHOLE_CAP: i64 = 30000000;

fn char_digit(c: char) -> (d: i64)
    requires
        is_digit(c),
    ensures
        d == digit_value(c),
        0 <= d <= 9,
{
    (c as u32 - '0' as u32) as i64
}

/// Parses an amount of money into integer cents: an optional leading `$`,
/// then whole dollars, or dollars and a decimal fraction cut off after the
/// cents. Anything else, or an amount that does not fit, is refused.
#[verifier::rlimit(40)]
pub fn parse_dollar_string(s: &str) -> (r: Result<i32, Error>)
    ensures
        match parsed_amount(s@) {
            Some(v) => r == Ok::<i32, Error>(v),
            None => r matches Err(Error::InvalidDollarValue(t)) && t@ == s@,
        },
{
    let n = s.unicode_len();
    if n == 0 {
        proof {
            assert(amount_digits(s@).len() == 0);
            lemma_first_dot(amount_digits(s@), 0);
        }
        return Err(Error::InvalidDollarValue(String::from_str(s)));
    }
    let mut i: usize = 0;
    if s.get_char(0) == '$' {
        i = 1;
    }
    let mut negative = false;
    if i < n {
        let c = s.get_char(i);
        if c == '+' || c == '-' {
            negative = c == '-';
            i = i + 1;
        }
    }
    let p = i;
    let ghost m = amount_digits(s@);
    proof {
        assert(m == s@.skip(p as int));
        assert(negative == (strip_dollar(s@).len() > 0 && strip_dollar(s@)[0] == '-'));
    }
    let mut acc: i64 = 0;
    while i < n && is_digit_char(s.get_char(i))
        invariant
            p <= i <= n,
            n == s@.len(),
            m == s@.skip(p as int),
            forall|j: int| p <= j < i ==> is_digit(#[trigger] s@[j]),
            digits_value(m.take(i - p)) <= WHOLE_CAP ==> acc == digits_value(m.take(i - p)),
            digits_value(m.take(i - p)) > WHOLE_CAP ==> acc > WHOLE_CAP,
            0 <= acc <= WHOLE_CAP * 10 + 9,
        decreases n - i,
    {
        let d = char_digit(s.get_char(i));
        proof {
            lemma_digits_step(m, i - p);
            assert(m[i - p] == s@[i as int]);
        }
        if acc <= WHOLE_CAP {
            acc = acc * 10 + d;
        }
        i = i + 1;
    }
    let w = i;
    proof {
        assert forall|j: int| 0 <= j < w - p implies m[j] != '.' by {
            assert(m[j] == s@[j + p]);
            assert(is_digit(s@[j + p]));
        }
        lemma_first_dot(m, w - p);
        assert forall|j: int| 0 <= j < w - p implies is_digit(#[trigger] m.take(w - p)[j]) by {
            assert(m.take(w - p)[j] == s@[j + p]);
        }
    }
    let mut fc: i64 = 0;
    let mut flen: usize = 0;
    if i < n {
        if s.get_char(i) != '.' {
            proof {
                assert(m[w - p] == s@[w as int]);
                assert forall|j: int| 0 <= j < w - p + 1 implies m[j] != '.' by {
                    if j < w - p {
                        assert(m[j] == s@[j + p]);
                        assert(is_digit(s@[j + p]));
                    }
                }
                lemma_first_dot(m, w - p + 1);
                assert(whole_part(m)[w - p] == m[w - p]);
                assert(!is_digit(whole_part(m)[w - p]));
            }
            return Err(Error::InvalidDollarValue(String::from_str(s)));
        }
        proof {
            assert(m[w - p] == s@[w as int]);
        }
        i = i + 1;
        let ghost f = frac_part(m);
        proof {
            assert(first_dot(m) == w - p);
            assert(f == s@.skip(w + 1));
        }
        while i < n
            invariant
                w + 1 <= i <= n,
                n == s@.len(),
                f == s@.skip(w + 1),
                f == frac_part(m),
                m == amount_digits(s@),
                flen == i - w - 1,
                forall|j: int| w + 1 <= j < i ==> is_digit(#[trigger] s@[j]),
                fc == (if flen >= 1 { digit_value(f[0]) * 10 } else { 0 }) + (if flen >= 2 {
                    digit_value(f[1])
                } else {
                    0
                }),
                0 <= fc <= 99,
            decreases n - i,
        {
            let c = s.get_char(i);
            if !is_digit_char(c) {
                proof {
                    assert(f.len() == n - w - 1);
                    assert(f[i - w - 1] == s@[i as int]);
                    assert(!is_digit(f[i - w - 1]));
                    assert(!all_digits(frac_part(m)));
                }
                return Err(Error::InvalidDollarValue(String::from_str(s)));
            }
            let d = char_digit(c);
            proof {
                assert(f[i - w - 1] == s@[i as int]);
            }
            if flen == 0 {
                fc = d * 10;
            } else if flen == 1 {
                fc = fc + d;
            }
            flen = flen + 1;
            i = i + 1;
        }
        proof {
            assert forall|j: int| 0 <= j < f.len() implies is_digit(#[trigger] f[j]) by {
                assert(f[j] == s@[j + w + 1]);
            }
        }
    } else {
        proof {
            assert(first_dot(m) == m.len());
            assert(frac_part(m).len() == 0);
        }
    }
    proof {
        assert(whole_part(m) == m.take(w - p));
        assert(frac_part(m).len() == flen);
        assert(fc == frac_cents(frac_part(m)));
    }
    if w - p + flen == 0 {
        proof {
            assert(whole_part(m).len() == w - p);
            assert(!well_formed_amount(s@));
        }
        return Err(Error::InvalidDollarValue(String::from_str(s)));
    }
    if acc > WHOLE_CAP {
        return Err(Error::InvalidDollarValue(String::from_str(s)));
    }
    let mag = acc * 100 + fc;
    let v: i64 = if negative { 0 - mag } else { mag };
    if v < i32::MIN as i64 || v > i32::MAX as i64 {
        return Err(Error::InvalidDollarValue(String::from_str(s)));
    }
    Ok(v as i32)
}

fn is_digit_char(c: char) -> (r: bool)
    ensures
        r == is_digit(c),
{
    '0' <= c && c <= '9'
}

} // verus!
