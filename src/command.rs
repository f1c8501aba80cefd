use vstd::prelude::*;
use crate::error::{Error, ErrorView};
use crate::money::{parse_dollar_string, parsed_amount};
use crate::text::{push_char, same_text};

verus! {

/// One thing the user asks of the ledger.
#[derive(Debug)]
pub enum BudgetCommand {
    /// Sets the expected income.
    SetPaycheck { amount: i32 },
    /// Receives a payment: the given amount, or the expected income.
    Paid { amount: Option<i32> },
    /// Clears what was paid to the named expenses (all of them when none is
    /// named), or, inverted, to every expense but the named ones.
    ClearExpense { targets: Vec<String>, invert_selection: bool },
    /// Renames an expense, or changes what it is expected to cost, or both.
    EditExpense { target: String, new_name: Option<String>, new_amount: Option<i32> },
    /// Adds (or replaces) an expense.
    NewExpense { name: String, amount: i32 },
    /// Pays an expense: the given amount, or what it is expected to cost.
    PayExpense { name: String, amount: Option<i32> },
    /// Moves an amount from the balance into savings, or the whole balance.
    Savings { amount: Option<i32> },
    /// Does nothing.
    Nothing,
}

/// A command as mathematical values.
pub enum CommandView {
    SetPaycheck { amount: i32 },
    Paid { amount: Option<i32> },
    ClearExpense { targets: Seq<Seq<char>>, invert_selection: bool },
    EditExpense { target: Seq<char>, new_name: Option<Seq<char>>, new_amount: Option<i32> },
    NewExpense { name: Seq<char>, amount: i32 },
    PayExpense { name: Seq<char>, amount: Option<i32> },
    Savings { amount: Option<i32> },
    Nothing,
}

/// The views of a sequence of strings.
pub open spec fn texts(v: Seq<String>) -> Seq<Seq<char>> {
    v.map_values(|t: String| t@)
}

pub open spec fn opt_text(o: Option<String>) -> Option<Seq<char>> {
    match o {
        Some(t) => Some(t@),
        None => None,
    }
}

impl View for BudgetCommand {
    type V = CommandView;

    open spec fn view(&self) -> CommandView {
        match self {
            BudgetCommand::SetPaycheck { amount } => CommandView::SetPaycheck { amount: *amount },
            BudgetCommand::Paid { amount } => CommandView::Paid { amount: *amount },
            BudgetCommand::ClearExpense { targets, invert_selection } => CommandView::ClearExpense {
                targets: texts(targets@),
                invert_selection: *invert_selection,
            },
            BudgetCommand::EditExpense { target, new_name, new_amount } => CommandView::EditExpense {
                target: target@,
                new_name: opt_text(*new_name),
                new_amount: *new_amount,
            },
            BudgetCommand::NewExpense { name, amount } => CommandView::NewExpense {
                name: name@,
                amount: *amount,
            },
            BudgetCommand::PayExpense { name, amount } => CommandView::PayExpense {
                name: name@,
                amount: *amount,
            },
            BudgetCommand::Savings { amount } => CommandView::Savings { amount: *amount },
            BudgetCommand::Nothing => CommandView::Nothing,
        }
    }
}

pub open spec fn result_view(r: Result<BudgetCommand, Error>) -> Result<CommandView, ErrorView> {
    match r {
        Ok(c) => Ok(c@),
        Err(e) => Err(e@),
    }
}

/// The amount that a text spells, or the error that parsing it gives.
pub open spec fn amount_of(t: Seq<char>) -> Result<i32, ErrorView> {
    match parsed_amount(t) {
        Some(v) => Ok(v),
        None => Err(ErrorView::InvalidDollarValue(t)),
    }
}

/// A required amount, turned into a command.
pub open spec fn with_amount(t: Seq<char>, f: spec_fn(i32) -> CommandView) -> Result<CommandView, ErrorView> {
    match amount_of(t) {
        Ok(v) => Ok(f(v)),
        Err(e) => Err(e),
    }
}

// ---- structured flags ----

/// A target of `clear` without its `!` prefix.
pub open spec fn strip_bang(t: Seq<char>) -> Seq<char> {
    if t.len() > 0 && t[0] == '!' { t.drop_first() } else { t }
}

pub open spec fn has_bang(vs: Seq<Seq<char>>) -> bool {
    exists|i: int| 0 <= i < vs.len() && #[trigger] vs[i].len() > 0 && vs[i][0] == '!'
}

/// The last of the values that parses as an amount.
pub open spec fn last_amount(rs: Seq<Seq<char>>) -> Option<i32>
    decreases rs.len(),
{
    if rs.len() == 0 {
        None
    } else if parsed_amount(rs.last()) is Some {
        parsed_amount(rs.last())
    } else {
        last_amount(rs.drop_last())
    }
}

/// The last of the values that does not parse as an amount.
pub open spec fn last_name(rs: Seq<Seq<char>>) -> Option<Seq<char>>
    decreases rs.len(),
{
    if rs.len() == 0 {
        None
    } else if parsed_amount(rs.last()) is None {
        Some(rs.last())
    } else {
        last_name(rs.drop_last())
    }
}

/// The command of one occurrence of a flag with its values.
pub open spec fn flag_command(flag: Seq<char>, vs: Seq<Seq<char>>) -> Result<CommandView, ErrorView> {
    if flag == "paycheck"@ {
        if vs.len() < 1 {
            Err(ErrorView::InvalidCommand(flag))
        } else {
            with_amount(vs[0], |v: i32| CommandView::SetPaycheck { amount: v })
        }
    } else if flag == "paid"@ {
        if vs.len() < 1 {
            Ok(CommandView::Paid { amount: None })
        } else {
            with_amount(vs[0], |v: i32| CommandView::Paid { amount: Some(v) })
        }
    } else if flag == "clear"@ {
        Ok(CommandView::ClearExpense {
            targets: vs.map_values(|t: Seq<char>| strip_bang(t)),
            invert_selection: has_bang(vs),
        })
    } else if flag == "edit"@ {
        if vs.len() < 1 {
            Err(ErrorView::InvalidCommand(flag))
        } else {
            Ok(CommandView::EditExpense {
                target: vs[0],
                new_name: last_name(vs.skip(1)),
                new_amount: last_amount(vs.skip(1)),
            })
        }
    } else if flag == "new"@ {
        if vs.len() < 2 {
            Err(ErrorView::InvalidCommand(flag))
        } else {
            with_amount(vs[1], |v: i32| CommandView::NewExpense { name: vs[0], amount: v })
        }
    } else if flag == "pay"@ {
        if vs.len() < 1 {
            Err(ErrorView::InvalidCommand(flag))
        } else if vs.len() < 2 {
            Ok(CommandView::PayExpense { name: vs[0], amount: None })
        } else {
            with_amount(vs[1], |v: i32| CommandView::PayExpense { name: vs[0], amount: Some(v) })
        }
    } else {
        Err(ErrorView::InvalidCommand(flag))
    }
}

fn parse_amount_into(t: &String) -> (r: Result<i32, Error>)
    ensures
        match amount_of(t@) {
            Ok(v) => r == Ok::<i32, Error>(v),
            Err(e) => r is Err && r->Err_0@ == e,
        },
{
    parse_dollar_string(t.as_str())
}

/// `t` without a leading `!`.
fn without_bang(t: &String) -> (r: String)
    ensures
        r@ == strip_bang(t@),
{
    let n = t.as_str().unicode_len();
    if n > 0 && t.as_str().get_char(0) == '!' {
        String::from_str(t.as_str().substring_char(1, n))
    } else {
        t.clone()
    }
}

/// The command of one occurrence of a flag (`paycheck`, `paid`, `clear`,
/// `edit`, `new` or `pay`) with the values given to it.
#[verifier::rlimit(40)]
pub fn command_from_arg(arg: &str, vals: &Vec<String>) -> (r: Result<BudgetCommand, Error>)
    ensures
        result_view(r) == flag_command(arg@, texts(vals@)),
{
    let ghost vs = texts(vals@);
    let n = vals.len();
    assert(vs.len() == n);
    if same_text(arg, "paycheck") {
        if n < 1 {
            return Err(Error::InvalidCommand(String::from_str(arg)));
        }
        assert(vs[0] == vals@[0]@);
        match parse_amount_into(&vals[0]) {
            Ok(v) => Ok(BudgetCommand::SetPaycheck { amount: v }),
            Err(e) => Err(e),
        }
    } else if same_text(arg, "paid") {
        if n < 1 {
            return Ok(BudgetCommand::Paid { amount: None });
        }
        assert(vs[0] == vals@[0]@);
        match parse_amount_into(&vals[0]) {
            Ok(v) => Ok(BudgetCommand::Paid { amount: Some(v) }),
            Err(e) => Err(e),
        }
    } else if same_text(arg, "clear") {
        let mut targets: Vec<String> = Vec::new();
        let mut invert = false;
        let mut i: usize = 0;
        while i < n
            invariant
                n == vals@.len(),
                vs == texts(vals@),
                i <= n,
                texts(targets@) == vs.take(i as int).map_values(|t: Seq<char>| strip_bang(t)),
                invert == has_bang(vs.take(i as int)),
            decreases n - i,
        {
            let t = &vals[i];
            assert(vs[i as int] == t@);
            let bang = t.as_str().unicode_len() > 0 && t.as_str().get_char(0) == '!';
            let ghost before = targets@;
            targets.push(without_bang(t));
            proof {
                assert(texts(targets@) =~= texts(before).push(strip_bang(vs[i as int])));
                assert(vs.take(i + 1) == vs.take(i as int).push(vs[i as int]));
                assert(vs.take(i + 1).map_values(|t: Seq<char>| strip_bang(t)) =~= vs.take(i as int).map_values(|t: Seq<char>| strip_bang(t)).push(strip_bang(vs[i as int])));
                if bang {
                    assert(vs.take(i + 1)[i as int] == vs[i as int]);
                    assert(has_bang(vs.take(i + 1)));
                } else if invert {
                    let j = choose|j: int| 0 <= j < i && #[trigger] vs.take(i as int)[j].len() > 0 && vs.take(i as int)[j][0] == '!';
                    assert(vs.take(i + 1)[j] == vs.take(i as int)[j]);
                    assert(has_bang(vs.take(i + 1)));
                } else {
                    assert forall|j: int| 0 <= j < i + 1 implies !(#[trigger] vs.take(i + 1)[j].len() > 0 && vs.take(i + 1)[j][0] == '!') by {
                        if j < i {
                            assert(vs.take(i + 1)[j] == vs.take(i as int)[j]);
                        }
                    }
                }
            }
            invert = invert || bang;
            i = i + 1;
        }
        assert(vs.take(n as int) == vs);
        Ok(BudgetCommand::ClearExpense { targets, invert_selection: invert })
    } else if same_text(arg, "edit") {
        if n < 1 {
            return Err(Error::InvalidCommand(String::from_str(arg)));
        }
        let target = vals[0].clone();
        let mut new_name: Option<String> = None;
        let mut new_amount: Option<i32> = None;
        let mut i: usize = 1;
        while i < n
            invariant
                n == vals@.len(),
                vs == texts(vals@),
                1 <= i <= n,
                opt_text(new_name) == last_name(vs.subrange(1, i as int)),
                new_amount == last_amount(vs.subrange(1, i as int)),
            decreases n - i,
        {
            assert(vs[i as int] == vals@[i as int]@);
            assert(vs.subrange(1, i + 1).drop_last() == vs.subrange(1, i as int));
            assert(vs.subrange(1, i + 1).last() == vs[i as int]);
            match parse_amount_into(&vals[i]) {
                Ok(v) => {
                    new_amount = Some(v);
                },
                Err(_) => {
                    new_name = Some(vals[i].clone());
                },
            }
            i = i + 1;
        }
        assert(vs.subrange(1, n as int) == vs.skip(1));
        assert(vs[0] == vals@[0]@);
        Ok(BudgetCommand::EditExpense { target, new_name, new_amount })
    } else if same_text(arg, "new") {
        if n < 2 {
            return Err(Error::InvalidCommand(String::from_str(arg)));
        }
        assert(vs[0] == vals@[0]@);
        assert(vs[1] == vals@[1]@);
        match parse_amount_into(&vals[1]) {
            Ok(v) => Ok(BudgetCommand::NewExpense { name: vals[0].clone(), amount: v }),
            Err(e) => Err(e),
        }
    } else if same_text(arg, "pay") {
        if n < 1 {
            return Err(Error::InvalidCommand(String::from_str(arg)));
        }
        assert(vs[0] == vals@[0]@);
        if n < 2 {
            return Ok(BudgetCommand::PayExpense { name: vals[0].clone(), amount: None });
        }
        assert(vs[1] == vals@[1]@);
        match parse_amount_into(&vals[1]) {
            Ok(v) => Ok(BudgetCommand::PayExpense { name: vals[0].clone(), amount: Some(v) }),
            Err(e) => Err(e),
        }
    } else {
        Err(Error::InvalidCommand(String::from_str(arg)))
    }
}

// ---- batches of flags ----

/// What the flags of one invocation hold: for each flag, the values of each
/// of its occurrences, in the order given.
pub struct FlagOccurrences {
    pub paycheck: Vec<Vec<String>>,
    pub paid: Vec<Vec<String>>,
    pub clear: Vec<Vec<String>>,
    pub edit: Vec<Vec<String>>,
    pub new: Vec<Vec<String>>,
    pub pay: Vec<Vec<String>>,
}

pub open spec fn occurrence_texts(occs: Seq<Vec<String>>) -> Seq<Seq<Seq<char>>> {
    occs.map_values(|o: Vec<String>| texts(o@))
}

/// The commands of the occurrences of one flag, after those in `acc`; the
/// first occurrence that fails stops the batch with its error.
pub open spec fn group_commands(
    acc: Result<Seq<CommandView>, ErrorView>,
    flag: Seq<char>,
    occs: Seq<Seq<Seq<char>>>,
) -> Result<Seq<CommandView>, ErrorView>
    decreases occs.len(),
{
    match acc {
        Err(e) => Err(e),
        Ok(cs) => if occs.len() == 0 {
            Ok(cs)
        } else {
            match flag_command(flag, occs[0]) {
                Err(e) => Err(e),
                Ok(c) => group_commands(Ok(cs.push(c)), flag, occs.drop_first()),
            }
        },
    }
}

/// The batch of an invocation: flag by flag in a fixed order (`paycheck`,
/// `paid`, `clear`, `edit`, `new`, `pay`), and occurrence by occurrence.
pub open spec fn flags_batch(f: FlagOccurrences) -> Result<Seq<CommandView>, ErrorView> {
    let r = group_commands(Ok(Seq::empty()), "paycheck"@, occurrence_texts(f.paycheck@));
    let r = group_commands(r, "paid"@, occurrence_texts(f.paid@));
    let r = group_commands(r, "clear"@, occurrence_texts(f.clear@));
    let r = group_commands(r, "edit"@, occurrence_texts(f.edit@));
    let r = group_commands(r, "new"@, occurrence_texts(f.new@));
    group_commands(r, "pay"@, occurrence_texts(f.pay@))
}

pub open spec fn command_views(v: Seq<BudgetCommand>) -> Seq<CommandView> {
    v.map_values(|c: BudgetCommand| c@)
}

/// Parses the occurrences of one flag onto the end of `out`.
fn push_group(flag: &str, occs: &Vec<Vec<String>>, out: &mut Vec<BudgetCommand>) -> (r: Result<(), Error>)
    ensures
        match group_commands(Ok(command_views(old(out)@)), flag@, occurrence_texts(occs@)) {
            Ok(cs) => r is Ok && command_views(final(out)@) == cs,
            Err(e) => r matches Err(x) && x@ == e,
        },
{
    let ghost target = group_commands(Ok(command_views(out@)), flag@, occurrence_texts(occs@));
    let mut i: usize = 0;
    assert(occurrence_texts(occs@).skip(0) == occurrence_texts(occs@));
    while i < occs.len()
        invariant
            i <= occs@.len(),
            target == group_commands(Ok(command_views(old(out)@)), flag@, occurrence_texts(occs@)),
            target == group_commands(Ok(command_views(out@)), flag@, occurrence_texts(occs@).skip(i as int)),
        decreases occs@.len() - i,
    {
        let ghost os = occurrence_texts(occs@).skip(i as int);
        assert(os[0] == texts(occs@[i as int]@));
        assert(os.drop_first() == occurrence_texts(occs@).skip(i + 1));
        match command_from_arg(flag, &occs[i]) {
            Ok(c) => {
                let ghost before = out@;
                out.push(c);
                assert(command_views(out@) =~= command_views(before).push(c@));
            },
            Err(e) => {
                return Err(e);
            },
        }
        i = i + 1;
    }
    assert(occurrence_texts(occs@).skip(i as int).len() == 0);
    Ok(())
}

/// Parses every flag occurrence of an invocation into one batch of commands,
/// flag by flag in a fixed order (`paycheck`, `paid`, `clear`, `edit`, `new`,
/// `pay`) and occurrence by occurrence. The first occurrence that fails
/// stops the whole batch with its error.
pub fn commands_from_flags(f: &FlagOccurrences) -> (r: Result<Vec<BudgetCommand>, Error>)
    ensures
        match flags_batch(*f) {
            Ok(cs) => r matches Ok(v) && command_views(v@) == cs,
            Err(e) => r matches Err(x) && x@ == e,
        },
{
    let mut out: Vec<BudgetCommand> = Vec::new();
    assert(command_views(out@) == Seq::<CommandView>::empty());
    push_group("paycheck", &f.paycheck, &mut out)?;
    push_group("paid", &f.paid, &mut out)?;
    push_group("clear", &f.clear, &mut out)?;
    push_group("edit", &f.edit, &mut out)?;
    push_group("new", &f.new, &mut out)?;
    push_group("pay", &f.pay, &mut out)?;
    Ok(out)
}

// ---- lines of text ----

/// The characters that separate words: those with the Unicode property
/// White_Space.
pub open spec fn is_space(c: char) -> bool {
    ('\u{9}' <= c && c <= '\u{d}') || c == ' ' || c == '\u{85}' || c == '\u{a0}' || c == '\u{1680}'
        || ('\u{2000}' <= c && c <= '\u{200a}') || c == '\u{2028}' || c == '\u{2029}' || c == '\u{202f}'
        || c == '\u{205f}' || c == '\u{3000}'
}

fn space_char(c: char) -> (r: bool)
    ensures
        r == is_space(c),
{
    ('\u{9}' <= c && c <= '\u{d}') || c == ' ' || c == '\u{85}' || c == '\u{a0}' || c == '\u{1680}'
        || ('\u{2000}' <= c && c <= '\u{200a}') || c == '\u{2028}' || c == '\u{2029}' || c == '\u{202f}'
        || c == '\u{205f}' || c == '\u{3000}'
}

/// The words of a line: the maximal runs of characters that are not space.
pub open spec fn words(s: Seq<char>) -> Seq<Seq<char>>
    decreases s.len(),
{
    if s.len() == 0 {
        Seq::empty()
    } else {
        let t = words(s.drop_last());
        let c = s.last();
        if is_space(c) {
            t
        } else if s.len() >= 2 && !is_space(s[s.len() - 2]) {
            t.update(t.len() - 1, t.last().push(c))
        } else {
            t.push(seq![c])
        }
    }
}

/// Splits a line into its words.
#[verifier::rlimit(40)]
pub fn split_words(line: &str) -> (r: Vec<String>)
    ensures
        texts(r@) == words(line@),
{
    let n = line.unicode_len();
    let mut out: Vec<String> = Vec::new();
    let mut cur = String::new();
    let mut in_word = false;
    let mut i: usize = 0;
    while i < n
        invariant
            n == line@.len(),
            i <= n,
            in_word == (i > 0 && !is_space(line@[i - 1])),
            in_word ==> words(line@.take(i as int)) == texts(out@).push(cur@),
            !in_word ==> words(line@.take(i as int)) == texts(out@),
        decreases n - i,
    {
        let c = line.get_char(i);
        let ghost pre = line@.take(i as int);
        proof {
            assert(line@.take(i + 1).drop_last() == pre);
            assert(line@.take(i + 1).last() == c);
            if i >= 1 {
                assert(line@.take(i + 1)[i - 1] == line@[i - 1]);
            }
        }
        if space_char(c) {
            if in_word {
                let ghost before = out@;
                out.push(cur);
                assert(texts(out@) =~= texts(before).push(cur@));
                cur = String::new();
            }
            in_word = false;
        } else if in_word {
            let ghost w = cur@;
            push_char(&mut cur, c);
            assert(words(line@.take(i + 1)) =~= texts(out@).push(cur@));
        } else {
            cur = String::new();
            push_char(&mut cur, c);
            assert(cur@ =~= seq![c]);
            in_word = true;
        }
        i = i + 1;
    }
    if in_word {
        let ghost before = out@;
        out.push(cur);
        assert(texts(out@) =~= texts(before).push(cur@));
    }
    assert(line@.take(n as int) == line@);
    out
}

/// The word at `i`, or nothing.
pub open spec fn word_at(ws: Seq<Seq<char>>, i: int) -> Seq<char> {
    if i < ws.len() { ws[i] } else { Seq::empty() }
}

/// The command of a line of text, by its words: `help`; `income set <amount>`;
/// `paid [amount]`; `new <name> <amount>`; `pay <name> [amount]`;
/// `save <amount|all>`. `income raise` is not offered. Words after those a
/// command takes are ignored.
pub open spec fn line_command(ws: Seq<Seq<char>>) -> Result<CommandView, ErrorView> {
    let verb = word_at(ws, 0);
    if verb == "help"@ {
        Ok(CommandView::Nothing)
    } else if verb == "income"@ {
        if word_at(ws, 1) == "set"@ {
            if ws.len() < 3 {
                Err(ErrorView::InvalidCommand(verb))
            } else {
                with_amount(ws[2], |v: i32| CommandView::SetPaycheck { amount: v })
            }
        } else {
            Err(ErrorView::InvalidCommand(word_at(ws, 1)))
        }
    } else if verb == "paid"@ {
        if ws.len() < 2 {
            Ok(CommandView::Paid { amount: None })
        } else {
            with_amount(ws[1], |v: i32| CommandView::Paid { amount: Some(v) })
        }
    } else if verb == "new"@ {
        if ws.len() < 3 {
            Err(ErrorView::InvalidCommand(verb))
        } else {
            with_amount(ws[2], |v: i32| CommandView::NewExpense { name: ws[1], amount: v })
        }
    } else if verb == "pay"@ {
        if ws.len() < 2 {
            Err(ErrorView::InvalidCommand(verb))
        } else if ws.len() < 3 {
            Ok(CommandView::PayExpense { name: ws[1], amount: None })
        } else {
            with_amount(ws[2], |v: i32| CommandView::PayExpense { name: ws[1], amount: Some(v) })
        }
    } else if verb == "save"@ {
        if ws.len() < 2 {
            Err(ErrorView::InvalidCommand(verb))
        } else if ws[1] == "all"@ {
            Ok(CommandView::Savings { amount: None })
        } else {
            with_amount(ws[1], |v: i32| CommandView::Savings { amount: Some(v) })
        }
    } else {
        Err(ErrorView::InvalidCommand(verb))
    }
}

fn word(ws: &Vec<String>, i: usize) -> (r: String)
    ensures
        r@ == word_at(texts(ws@), i as int),
{
    if i < ws.len() {
        ws[i].clone()
    } else {
        String::new()
    }
}

/// Parses one line of text into a command.
#[verifier::rlimit(40)]
pub fn parse_command(input: &str) -> (r: Result<BudgetCommand, Error>)
    ensures
        result_view(r) == line_command(words(input@)),
{
    let ws = split_words(input);
    let ghost v = texts(ws@);
    let n = ws.len();
    assert(v.len() == n);
    let verb = word(&ws, 0);
    if same_text(verb.as_str(), "help") {
        Ok(BudgetCommand::Nothing)
    } else if same_text(verb.as_str(), "income") {
        let sub = word(&ws, 1);
        if same_text(sub.as_str(), "set") {
            if n < 3 {
                return Err(Error::InvalidCommand(verb));
            }
            assert(v[2] == ws@[2]@);
            match parse_amount_into(&ws[2]) {
                Ok(a) => Ok(BudgetCommand::SetPaycheck { amount: a }),
                Err(e) => Err(e),
            }
        } else {
            Err(Error::InvalidCommand(sub))
        }
    } else if same_text(verb.as_str(), "paid") {
        if n < 2 {
            return Ok(BudgetCommand::Paid { amount: None });
        }
        assert(v[1] == ws@[1]@);
        match parse_amount_into(&ws[1]) {
            Ok(a) => Ok(BudgetCommand::Paid { amount: Some(a) }),
            Err(e) => Err(e),
        }
    } else if same_text(verb.as_str(), "new") {
        if n < 3 {
            return Err(Error::InvalidCommand(verb));
        }
        assert(v[1] == ws@[1]@);
        assert(v[2] == ws@[2]@);
        match parse_amount_into(&ws[2]) {
            Ok(a) => Ok(BudgetCommand::NewExpense { name: ws[1].clone(), amount: a }),
            Err(e) => Err(e),
        }
    } else if same_text(verb.as_str(), "pay") {
        if n < 2 {
            return Err(Error::InvalidCommand(verb));
        }
        assert(v[1] == ws@[1]@);
        if n < 3 {
            return Ok(BudgetCommand::PayExpense { name: ws[1].clone(), amount: None });
        }
        assert(v[2] == ws@[2]@);
        match parse_amount_into(&ws[2]) {
            Ok(a) => Ok(BudgetCommand::PayExpense { name: ws[1].clone(), amount: Some(a) }),
            Err(e) => Err(e),
        }
    } else if same_text(verb.as_str(), "save") {
        if n < 2 {
            return Err(Error::InvalidCommand(verb));
        }
        assert(v[1] == ws@[1]@);
        if same_text(ws[1].as_str(), "all") {
            return Ok(BudgetCommand::Savings { amount: None });
        }
        match parse_amount_into(&ws[1]) {
            Ok(a) => Ok(BudgetCommand::Savings { amount: Some(a) }),
            Err(e) => Err(e),
        }
    } else {
        Err(Error::InvalidCommand(verb))
    }
}

} // verus!
