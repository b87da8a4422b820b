//! Reading a line typed at the console as a command on the list.
use vstd::prelude::*;
use vstd::string::*;

use crate::store::zero_based;
use crate::text::{chars_of, is_whitespace, is_whitespace_char, same_text};

verus! {

/// The white-space separated words of `s`, where `cur` is the word read so far.
pub open spec fn words_acc(s: Seq<char>, cur: Seq<char>) -> Seq<Seq<char>>
    decreases s.len(),
{
    if s.len() == 0 {
        if cur.len() > 0 {
            seq![cur]
        } else {
            seq![]
        }
    } else if is_whitespace(s[0]) {
        (if cur.len() > 0 {
            seq![cur]
        } else {
            seq![]
        }) + words_acc(s.drop_first(), seq![])
    } else {
        words_acc(s.drop_first(), cur.push(s[0]))
    }
}

/// The words of `s`: its maximal runs of characters that are not white space, in order.
pub open spec fn words(s: Seq<char>) -> Seq<Seq<char>> {
    words_acc(s, seq![])
}

/// The words joined with one space between each two.
pub open spec fn join_words(ws: Seq<Seq<char>>) -> Seq<char>
    decreases ws.len(),
{
    if ws.len() == 0 {
        seq![]
    } else if ws.len() == 1 {
        ws[0]
    } else {
        join_words(ws.drop_last()) + seq![' '] + ws.last()
    }
}

/// The models of a sequence of strings.
pub open spec fn strings_view(v: Seq<String>) -> Seq<Seq<char>> {
    v.map_values(|w: String| w@)
}

/// The lowercase form of `s`, as `str::to_lowercase` gives it.
pub uninterp spec fn lower_of(s: Seq<char>) -> Seq<char>;

/// Relies on `str::to_lowercase`: the result depends on the characters of `s` alone.
#[verifier::external_body]
fn lowercase(s: &str) -> (r: String)
    ensures
        r@ == lower_of(s@),
{
    s.to_lowercase()
}

/// The words of `text`, as `str::split_whitespace` gives them.
pub fn split_words(text: &str) -> (r: Vec<String>)
    ensures
        strings_view(r@) == words(text@),
{
    let chars = chars_of(text);
    let n = chars.len();
    let mut out: Vec<String> = Vec::new();
    let mut start: usize = 0;
    let mut i: usize = 0;
    assert(chars@.subrange(0, n as int) =~= text@);
    assert(chars@.subrange(0, 0) =~= Seq::<char>::empty());
    assert(strings_view(out@) =~= Seq::<Seq<char>>::empty());
    assert(strings_view(out@) + words(text@) =~= words(text@));
    while i < n
        invariant
            start <= i <= n == chars.len() <= usize::MAX,
            chars@ == text@,
            words(text@) == strings_view(out@) + words_acc(
                chars@.subrange(i as int, n as int),
                chars@.subrange(start as int, i as int),
            ),
        decreases n - i,
    {
        let ghost rest = chars@.subrange(i as int, n as int);
        let ghost cur = chars@.subrange(start as int, i as int);
        assert(rest.drop_first() =~= chars@.subrange(i + 1, n as int));
        assert(rest[0] == chars@[i as int]);
        if is_whitespace_char(chars[i]) {
            let ghost before = out@;
            if i > start {
                let word = text.substring_char(start, i).to_owned();
                out.push(word);
                assert(strings_view(out@) =~= strings_view(before) + seq![cur]);
            } else {
                assert(strings_view(out@) =~= strings_view(before) + seq![]);
            }
            assert(chars@.subrange(i + 1, i + 1) =~= Seq::<char>::empty());
            assert(strings_view(before) + ((if cur.len() > 0 { seq![cur] } else { seq![] })
                + words_acc(rest.drop_first(), seq![])) =~= strings_view(out@) + words_acc(
                rest.drop_first(),
                seq![],
            ));
            start = i + 1;
        } else {
            assert(cur.push(chars@[i as int]) =~= chars@.subrange(start as int, i + 1));
        }
        i = i + 1;
    }
    let ghost cur = chars@.subrange(start as int, n as int);
    let ghost before = out@;
    if n > start {
        let word = text.substring_char(start, n).to_owned();
        out.push(word);
        assert(strings_view(out@) =~= strings_view(before) + seq![cur]);
    } else {
        assert(strings_view(out@) =~= strings_view(before) + seq![]);
    }
    out
}

/// The words from position `from` on, joined with one space between each two.
fn join_from(ws: &Vec<String>, from: usize) -> (r: String)
    requires
        from <= ws.len(),
    ensures
        r@ == join_words(strings_view(ws@).subrange(from as int, ws.len() as int)),
{
    let ghost all = strings_view(ws@);
    let mut out = String::new();
    let mut i: usize = from;
    assert(all.subrange(from as int, from as int) =~= Seq::<Seq<char>>::empty());
    while i < ws.len()
        invariant
            from <= i <= ws.len(),
            all == strings_view(ws@),
            out@ == join_words(all.subrange(from as int, i as int)),
        decreases ws.len() - i,
    {
        let ghost before = out@;
        let ghost done = all.subrange(from as int, i + 1);
        assert(done.drop_last() =~= all.subrange(from as int, i as int));
        if i > from {
            out.append(" ");
            out.append(ws[i].as_str());
            proof {
                reveal_strlit(" ");
                assert(out@ =~= before + seq![' '] + done.last());
            }
        } else {
            out.append(ws[i].as_str());
            assert(out@ =~= done[0]);
        }
        i = i + 1;
    }
    out
}

/// An ASCII decimal digit.
pub open spec fn is_digit(c: char) -> bool {
    48 <= c as u32 <= 57
}

/// The number that a string of decimal digits writes.
pub open spec fn digits_value(s: Seq<char>) -> nat
    decreases s.len(),
{
    if s.len() == 0 {
        0
    } else {
        digits_value(s.drop_last()) * 10 + (s.last() as u32 - 48) as nat
    }
}

/// `s` without a leading `+`, if it has one.
pub open spec fn without_plus(s: Seq<char>) -> Seq<char> {
    if s.len() > 0 && s[0] == '+' {
        s.drop_first()
    } else {
        s
    }
}

/// The value of `s` as `usize::from_str` reads it: an optional `+`, then one or more decimal
/// digits, whose value must fit in `usize`.
pub open spec fn parse_usize(s: Seq<char>) -> Option<usize> {
    let d = without_plus(s);
    if d.len() > 0 && (forall|i: int| 0 <= i < d.len() ==> is_digit(#[trigger] d[i]))
        && digits_value(d) <= usize::MAX {
        Some(digits_value(d) as usize)
    } else {
        None
    }
}

proof fn lemma_digits_prefix(d: Seq<char>, k: int)
    requires
        0 <= k <= d.len(),
        forall|i: int| 0 <= i < d.len() ==> is_digit(#[trigger] d[i]),
    ensures
        digits_value(d.subrange(0, k)) <= digits_value(d),
    decreases d.len(),
{
    if k < d.len() {
        assert(d.drop_last().subrange(0, k) =~= d.subrange(0, k));
        lemma_digits_prefix(d.drop_last(), k);
    } else {
        assert(d.subrange(0, k) =~= d);
    }
}

/// Reads a `usize` as `usize::from_str` does.
fn parse_usize_exec(s: &str) -> (r: Option<usize>)
    ensures
        r == parse_usize(s@),
{
    let chars = chars_of(s);
    let n = chars.len();
    let mut start: usize = 0;
    if n > 0 && chars[0] == '+' {
        start = 1;
    }
    let ghost d = without_plus(s@);
    assert(d =~= chars@.subrange(start as int, n as int));
    if start == n {
        return None;
    }
    let mut value: usize = 0;
    let mut j: usize = start;
    assert(chars@.subrange(start as int, start as int) =~= Seq::<char>::empty());
    while j < n
        invariant
            start <= j <= n == chars.len(),
            chars@ == s@,
            d == chars@.subrange(start as int, n as int),
            d == without_plus(s@),
            value == digits_value(chars@.subrange(start as int, j as int)),
            forall|i: int| start <= i < j ==> is_digit(#[trigger] chars@[i]),
        decreases n - j,
    {
        let u = chars[j] as u32;
        assert(d[j - start] == chars@[j as int]);
        if u < 48 || u > 57 {
            assert(!is_digit(d[j - start]));
            return None;
        }
        let digit = (u - 48) as usize;
        let ghost next = chars@.subrange(start as int, j + 1);
        assert(next.drop_last() =~= chars@.subrange(start as int, j as int));
        assert(next.last() == chars@[j as int]);
        assert(digits_value(next) == value * 10 + digit);
        if value > (usize::MAX - digit) / 10 {
            assert(value * 10 + digit > usize::MAX) by (nonlinear_arith)
                requires
                    value > (usize::MAX - digit) / 10,
                    digit <= 9,
            ;
            proof {
                if forall|i: int| 0 <= i < d.len() ==> is_digit(#[trigger] d[i]) {
                    assert(d.subrange(0, j + 1 - start) =~= next);
                    lemma_digits_prefix(d, j + 1 - start);
                }
            }
            return None;
        }
        assert(value * 10 + digit <= usize::MAX) by (nonlinear_arith)
            requires
                value <= (usize::MAX - digit) / 10,
                digit <= 9,
        ;
        value = value * 10 + digit;
        j = j + 1;
    }
    assert forall|i: int| 0 <= i < d.len() implies is_digit(#[trigger] d[i]) by {
        assert(d[i] == chars@[start + i]);
    }
    assert(chars@.subrange(start as int, j as int) =~= d);
    Some(value)
}

/// The index argument of `todo complete` and `todo delete`.
#[derive(Debug, PartialEq, Eq, Structural, Clone, Copy)]
pub enum IndexArg {
    /// No argument was given.
    Missing,
    /// The argument is not a task number, counted from 1.
    Invalid,
    /// The 0-based index of the task that the argument numbers.
    Index(usize),
}

/// A line typed at the console, read as a command.
#[derive(Debug, PartialEq, Eq)]
pub enum Command {
    /// `todo add <description>`; `None` when no description follows.
    Add(Option<String>),
    /// `todo list`.
    List,
    /// `todo complete <number>`.
    Complete(IndexArg),
    /// `todo delete <number>`.
    Delete(IndexArg),
    /// `quit`.
    Quit,
    /// Anything else.
    Invalid,
}

/// The model of a command: a description is its sequence of characters.
pub enum CommandModel {
    Add(Option<Seq<char>>),
    List,
    Complete(IndexArg),
    Delete(IndexArg),
    Quit,
    Invalid,
}

impl View for Command {
    type V = CommandModel;

    open spec fn view(&self) -> CommandModel {
        match self {
            Command::Add(Some(d)) => CommandModel::Add(Some(d@)),
            Command::Add(None) => CommandModel::Add(None),
            Command::List => CommandModel::List,
            Command::Complete(a) => CommandModel::Complete(*a),
            Command::Delete(a) => CommandModel::Delete(*a),
            Command::Quit => CommandModel::Quit,
            Command::Invalid => CommandModel::Invalid,
        }
    }
}

/// The index that the argument of `complete` or `delete` gives.
pub open spec fn index_arg(param: Option<Seq<char>>) -> IndexArg {
    match param {
        None => IndexArg::Missing,
        Some(p) => match parse_usize(p) {
            Some(n) => if n > 0 {
                IndexArg::Index((n - 1) as usize)
            } else {
                IndexArg::Invalid
            },
            None => IndexArg::Invalid,
        },
    }
}

/// The command that a console line stands for. Its name is its first word, lowercased, or its
/// first two words, lowercased and joined by a space; the words after the first two, joined by
/// single spaces, are its argument.
pub open spec fn command_of(input: Seq<char>) -> CommandModel {
    let ws = words(input);
    if ws.len() == 0 {
        CommandModel::Invalid
    } else if ws.len() == 1 {
        if lower_of(ws[0]) == "quit"@ {
            CommandModel::Quit
        } else {
            CommandModel::Invalid
        }
    } else {
        let name = lower_of(ws[0]) + seq![' '] + lower_of(ws[1]);
        let param = if ws.len() > 2 {
            Some(join_words(ws.subrange(2, ws.len() as int)))
        } else {
            None
        };
        if name == "todo add"@ {
            CommandModel::Add(param)
        } else if name == "todo list"@ {
            CommandModel::List
        } else if name == "todo complete"@ {
            CommandModel::Complete(index_arg(param))
        } else if name == "todo delete"@ {
            CommandModel::Delete(index_arg(param))
        } else {
            CommandModel::Invalid
        }
    }
}

fn index_arg_exec(param: &Option<String>) -> (r: IndexArg)
    ensures
        r == index_arg(
            match param {
                Some(p) => Some(p@),
                None => None,
            },
        ),
{
    match param {
        None => IndexArg::Missing,
        Some(p) => match parse_usize_exec(p.as_str()) {
            Some(n) => match zero_based(n) {
                Some(i) => IndexArg::Index(i),
                None => IndexArg::Invalid,
            },
            None => IndexArg::Invalid,
        },
    }
}

/// Reads a line typed at the console as a command.
pub fn parse_command(input: &str) -> (r: Command)
    ensures
        r@ == command_of(input@),
{
    let ws = split_words(input);
    let ghost wv = strings_view(ws@);
    if ws.len() == 0 {
        return Command::Invalid;
    }
    let first = lowercase(ws[0].as_str());
    if ws.len() == 1 {
        if same_text(first.as_str(), "quit") {
            return Command::Quit;
        }
        return Command::Invalid;
    }
    let mut name = first;
    name.append(" ");
    let second = lowercase(ws[1].as_str());
    name.append(second.as_str());
    proof {
        reveal_strlit(" ");
        assert(name@ =~= lower_of(wv[0]) + seq![' '] + lower_of(wv[1]));
    }
    let param = if ws.len() > 2 {
        Some(join_from(&ws, 2))
    } else {
        None
    };
    if same_text(name.as_str(), "todo add") {
        Command::Add(param)
    } else if same_text(name.as_str(), "todo list") {
        Command::List
    } else if same_text(name.as_str(), "todo complete") {
        Command::Complete(index_arg_exec(&param))
    } else if same_text(name.as_str(), "todo delete") {
        Command::Delete(index_arg_exec(&param))
    } else {
        Command::Invalid
    }
}

} // verus!
