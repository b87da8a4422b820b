//! The tasks and the format of the file they are saved in: one line per task.
use vstd::prelude::*;
use vstd::string::*;

use crate::text::{
    chars_of, copy_range, find_from, find_from_exec, is_whitespace, is_whitespace_char,
    lemma_find_from_bounds, lemma_find_from_shift, lemma_occurs_single, occurs_at,
};

verus! {

/// A task: a description and whether it has been completed.
#[derive(Debug)]
pub struct Task {
    pub description: String,
    pub completed: bool,
}

impl View for Task {
    type V = (Seq<char>, bool);

    open spec fn view(&self) -> (Seq<char>, bool) {
        (self.description@, self.completed)
    }
}

impl Task {
    /// A task with the given description and completion flag.
    pub fn new(description: String, completed: bool) -> (r: Task)
        ensures
            r@ == (description@, completed),
    {
        Task { description, completed }
    }
}

/// The token that separates a description from its completion marker in a line.
pub open spec fn delimiter() -> Seq<char> {
    seq![':', ':', 'c', 'o', 'm', 'p', 'l', 'e', 't', 'e', 'd']
}

/// The completion marker written after the delimiter.
pub open spec fn marker(completed: bool) -> Seq<char> {
    if completed {
        seq!['t', 'r', 'u', 'e']
    } else {
        seq!['f', 'a', 'l', 's', 'e']
    }
}

/// A line that holds white space only; such lines are skipped when loading.
pub open spec fn is_blank(line: Seq<char>) -> bool {
    forall|i: int| 0 <= i < line.len() ==> is_whitespace(#[trigger] line[i])
}

/// The task that a non-blank line stands for: the text before the first delimiter is the
/// description, and the task is completed when the text between that delimiter and the next
/// one (or the end of the line) is `true`. A line without a delimiter stands for no task.
pub open spec fn parse_line(line: Seq<char>) -> Option<(Seq<char>, bool)> {
    let k = find_from(line, delimiter(), 0);
    if k + delimiter().len() <= line.len() {
        let start = k + delimiter().len();
        let end = find_from(line, delimiter(), start);
        Some((line.subrange(0, k), line.subrange(start, end) == marker(true)))
    } else {
        None
    }
}

/// Puts `done` in front of the tasks read from the rest of a file, if that rest could be read.
pub open spec fn prepend(
    done: Seq<(Seq<char>, bool)>,
    rest: Option<Seq<(Seq<char>, bool)>>,
) -> Option<Seq<(Seq<char>, bool)>> {
    match rest {
        Some(ts) => Some(done + ts),
        None => None,
    }
}

/// The tasks held by the text of a file from position `pos` on, line by line. A line ends at
/// `\n`, which may be preceded by `\r`; the last line need not end with `\n`. Blank lines are
/// skipped; `None` when any other line stands for no task.
pub open spec fn decode_from(text: Seq<char>, pos: int) -> Option<Seq<(Seq<char>, bool)>>
    decreases text.len() - pos,
{
    if 0 <= pos < text.len() {
        let k = find_from(text, seq!['\n'], pos);
        let line = if k < text.len() {
            strip_cr(text.subrange(pos, k))
        } else {
            text.subrange(pos, text.len() as int)
        };
        let next = if pos <= k < text.len() {
            k + 1
        } else {
            text.len() as int
        };
        if is_blank(line) {
            decode_from(text, next)
        } else {
            match parse_line(line) {
                Some(t) => prepend(seq![t], decode_from(text, next)),
                None => None,
            }
        }
    } else {
        Some(seq![])
    }
}

/// The tasks that the text of a file holds, or `None` when it is malformed.
pub open spec fn decode(text: Seq<char>) -> Option<Seq<(Seq<char>, bool)>> {
    decode_from(text, 0)
}

/// A line without its trailing `\r`, if it has one.
pub open spec fn strip_cr(line: Seq<char>) -> Seq<char> {
    if line.len() > 0 && line.last() == '\r' {
        line.drop_last()
    } else {
        line
    }
}

/// The line that stores one task.
pub open spec fn encode_task(t: (Seq<char>, bool)) -> Seq<char> {
    t.0 + delimiter() + marker(t.1) + seq!['\n']
}

/// The text of a file that stores `ts`, one line per task, in order.
pub open spec fn encode(ts: Seq<(Seq<char>, bool)>) -> Seq<char>
    decreases ts.len(),
{
    if ts.len() == 0 {
        seq![]
    } else {
        encode_task(ts[0]) + encode(ts.subrange(1, ts.len() as int))
    }
}

/// The models of a sequence of tasks.
pub open spec fn tasks_view(v: Seq<Task>) -> Seq<(Seq<char>, bool)> {
    v.map_values(|t: Task| t@)
}

fn delimiter_chars() -> (r: Vec<char>)
    ensures
        r@ == delimiter(),
{
    let r = vec![':', ':', 'c', 'o', 'm', 'p', 'l', 'e', 't', 'e', 'd'];
    assert(r@ =~= delimiter());
    r
}

fn is_blank_exec(line: &Vec<char>) -> (r: bool)
    ensures
        r == is_blank(line@),
{
    let mut i: usize = 0;
    while i < line.len()
        invariant
            i <= line.len(),
            forall|m: int| 0 <= m < i ==> is_whitespace(#[trigger] line@[m]),
        decreases line.len() - i,
    {
        if !is_whitespace_char(line[i]) {
            return false;
        }
        i = i + 1;
    }
    true
}

/// Reads the task of one line; `line` is the text of `text` that starts at `start`.
fn parse_line_exec(text: &str, line: &Vec<char>, start: usize) -> (r: Option<Task>)
    requires
        start + line.len() <= text@.len() <= usize::MAX,
        line@ == text@.subrange(start as int, start + line.len()),
    ensures
        match r {
            Some(t) => parse_line(line@) == Some(t@),
            None => parse_line(line@) is None,
        },
{
    let delim = delimiter_chars();
    let k = find_from_exec(line, &delim, 0);
    proof {
        lemma_find_from_bounds(line@, delimiter(), 0);
    }
    if k >= line.len() || line.len() - k < delim.len() {
        return None;
    }
    let flag_start = k + delim.len();
    let flag_end = find_from_exec(line, &delim, flag_start);
    proof {
        lemma_find_from_bounds(line@, delimiter(), flag_start as int);
    }
    let completed = flag_end - flag_start == 4 && line[flag_start] == 't' && line[flag_start + 1]
        == 'r' && line[flag_start + 2] == 'u' && line[flag_start + 3] == 'e';
    proof {
        let seg = line@.subrange(flag_start as int, flag_end as int);
        if completed {
            assert(seg =~= marker(true));
        } else if seg.len() == 4 {
            assert(seg[0] != 't' || seg[1] != 'r' || seg[2] != 'u' || seg[3] != 'e');
            assert(seg != marker(true));
        }
    }
    let description = text.substring_char(start, start + k).to_owned();
    assert(description@ =~= line@.subrange(0, k as int));
    Some(Task { description, completed })
}

/// Reads the tasks stored in the text of a file: `None` when a non-blank line lacks the
/// delimiter.
pub fn decode_text(text: &str) -> (r: Option<Vec<Task>>)
    ensures
        match r {
            Some(v) => decode(text@) == Some(tasks_view(v@)),
            None => decode(text@) is None,
        },
{
    let chars = chars_of(text);
    let n = chars.len();
    let newline = vec!['\n'];
    assert(newline@ =~= seq!['\n']);
    let mut out: Vec<Task> = Vec::new();
    let mut pos: usize = 0;
    while pos < n
        invariant
            pos <= n == chars.len(),
            chars@ == text@,
            newline@ == seq!['\n'],
            decode(text@) == prepend(tasks_view(out@), decode_from(text@, pos as int)),
        decreases n - pos,
    {
        let k = find_from_exec(&chars, &newline, pos);
        proof {
            lemma_find_from_bounds(chars@, seq!['\n'], pos as int);
        }
        let line_end: usize;
        let next: usize;
        if k < n {
            next = k + 1;
            if k > pos && chars[k - 1] == '\r' {
                line_end = k - 1;
            } else {
                line_end = k;
            }
        } else {
            next = n;
            line_end = n;
        }
        let line = copy_range(&chars, pos, line_end);
        let ghost spec_line = if k < n {
            strip_cr(text@.subrange(pos as int, k as int))
        } else {
            text@.subrange(pos as int, n as int)
        };
        assert(line@ =~= spec_line);
        if !is_blank_exec(&line) {
            match parse_line_exec(text, &line, pos) {
                Some(t) => {
                    let ghost before = out@;
                    out.push(t);
                    assert(tasks_view(out@) =~= tasks_view(before) + seq![t@]);
                    proof {
                        let rest = decode_from(text@, next as int);
                        if rest is Some {
                            assert(tasks_view(out@) + rest->0 =~= tasks_view(before) + (seq![t@]
                                + rest->0));
                        }
                    }
                },
                None => {
                    return None;
                },
            }
        }
        pos = next;
    }
    assert(tasks_view(out@) + seq![] =~= tasks_view(out@));
    Some(out)
}

/// The text of a file that stores `tasks`, one line per task.
pub fn encode_text(tasks: &Vec<Task>) -> (r: String)
    ensures
        r@ == encode(tasks_view(tasks@)),
{
    let ghost all = tasks_view(tasks@);
    let mut out = String::new();
    let mut i: usize = 0;
    assert(all.subrange(0, all.len() as int) =~= all);
    assert(seq![] + encode(all) =~= encode(all));
    while i < tasks.len()
        invariant
            i <= tasks.len(),
            all == tasks_view(tasks@),
            out@ + encode(all.subrange(i as int, all.len() as int)) == encode(all),
        decreases tasks.len() - i,
    {
        let ghost rest = all.subrange(i as int, all.len() as int);
        assert(rest.subrange(1, rest.len() as int) =~= all.subrange(i + 1, all.len() as int));
        let ghost before = out@;
        let task = &tasks[i];
        out.append(task.description.as_str());
        out.append("::completed");
        if task.completed {
            out.append("true");
        } else {
            out.append("false");
        }
        out.append("\n");
        proof {
            reveal_strlit("::completed");
            reveal_strlit("true");
            reveal_strlit("false");
            reveal_strlit("\n");
            assert(out@ =~= before + encode_task(all[i as int]));
            assert(encode(rest) == encode_task(all[i as int]) + encode(all.subrange(i + 1, all.len() as int)));
            assert(before + encode(rest) =~= out@ + encode(all.subrange(i + 1, all.len() as int)));
        }
        i = i + 1;
    }
    assert(all.subrange(i as int, all.len() as int) =~= seq![]);
    assert(out@ + seq![] =~= out@);
    out
}

/// A description that the file format can store: no line break and no delimiter in it.
pub open spec fn storable(description: Seq<char>) -> bool {
    !description.contains('\n') && forall|m: int| !occurs_at(description, delimiter(), m)
}

proof fn lemma_decode_from_shift(p: Seq<char>, s: Seq<char>, i: int)
    requires
        0 <= i,
    ensures
        decode_from(p + s, p.len() + i) == decode_from(s, i),
    decreases s.len() - i,
{
    if i < s.len() {
        let nl = seq!['\n'];
        lemma_find_from_shift(p, s, nl, i);
        lemma_find_from_bounds(s, nl, i);
        let k = find_from(s, nl, i);
        assert(find_from(p + s, nl, p.len() + i) == p.len() + k);
        if k < s.len() {
            assert((p + s).subrange(p.len() + i, p.len() + k) =~= s.subrange(i, k));
            lemma_decode_from_shift(p, s, k + 1);
            assert(decode_from(p + s, p.len() + k + 1) == decode_from(s, k + 1));
        } else {
            assert((p + s).subrange(p.len() + i, (p + s).len() as int) =~= s.subrange(
                i,
                s.len() as int,
            ));
            assert(decode_from(p + s, (p + s).len() as int) == decode_from(s, s.len() as int));
        }
    }
}

/// The line of a task with a storable description reads back as that task.
proof fn lemma_parse_task_line(t: (Seq<char>, bool))
    requires
        storable(t.0),
    ensures
        parse_line(t.0 + delimiter() + marker(t.1)) == Some(t),
        !is_blank(t.0 + delimiter() + marker(t.1)),
        !(t.0 + delimiter() + marker(t.1)).contains('\n'),
        (t.0 + delimiter() + marker(t.1)).last() != '\r',
{
    let d = t.0;
    let delim = delimiter();
    let line = d + delim + marker(t.1);
    let n = d.len() as int;
    assert(delim.len() == 11);
    assert(line.subrange(n, n + 11) =~= delim);
    assert(occurs_at(line, delim, n));
    assert forall|m: int| 0 <= m < n implies !occurs_at(line, delim, m) by {
        if m + 11 <= n {
            assert(line.subrange(m, m + 11) =~= d.subrange(m, m + 11));
            assert(!occurs_at(d, delim, m));
        } else if n - m == 1 {
            assert(line.subrange(m, m + 11)[2] != delim[2]);
        } else {
            assert(line.subrange(m, m + 11)[n - m] != delim[n - m]);
        }
    }
    lemma_find_from_bounds(line, delim, 0);
    assert(find_from(line, delim, 0) == n);
    let start = n + 11;
    lemma_find_from_bounds(line, delim, start);
    assert(find_from(line, delim, start) == line.len());
    assert(line.subrange(start, line.len() as int) =~= marker(t.1));
    assert(line.subrange(0, n) =~= d);
    assert(line[n] == ':');
    assert forall|m: int| 0 <= m < line.len() implies line[m] != '\n' by {
        if m < n {
            assert(line[m] == d[m]);
        }
    }
}

/// Saving tasks whose descriptions are storable and loading the saved text gives the same
/// tasks, in the same order.
pub proof fn lemma_round_trip(ts: Seq<(Seq<char>, bool)>)
    requires
        forall|i: int| 0 <= i < ts.len() ==> storable(#[trigger] ts[i].0),
    ensures
        decode(encode(ts)) == Some(ts),
    decreases ts.len(),
{
    if ts.len() > 0 {
        let t = ts[0];
        let tail = ts.subrange(1, ts.len() as int);
        let line = t.0 + delimiter() + marker(t.1);
        let e = encode_task(t);
        let all = encode(ts);
        assert(all == e + encode(tail));
        lemma_parse_task_line(t);
        let nl = seq!['\n'];
        assert forall|m: int| 0 <= m < line.len() implies !occurs_at(all, nl, m) by {
            assert(all[m] == line[m]);
            lemma_occurs_single(all, '\n', m);
            assert(!line.contains('\n'));
        }
        assert(all[line.len() as int] == '\n');
        lemma_occurs_single(all, '\n', line.len() as int);
        lemma_find_from_bounds(all, nl, 0);
        assert(find_from(all, nl, 0) == line.len());
        assert(all.subrange(0, line.len() as int) =~= line);
        lemma_round_trip(tail);
        lemma_decode_from_shift(e, encode(tail), 0);
        assert(seq![t] + tail =~= ts);
    }
}

} // verus!
