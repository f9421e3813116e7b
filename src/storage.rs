//! The text form of a task list: a markdown document with a section of
//! pending tasks and a section of finished ones, one task per line.
use crate::task::{finished, pending, Task, TaskList, TaskModel, TaskStatus};
use crate::task::max_id;
use crate::text::{
    char_is_id_digit, char_is_space, digit_char, digit_of, digit_value, is_digit, is_id_digit, is_space,
    push_all, string_of,
};
use crate::timestamp::rfc3339_of;
use crate::timestamp::Timestamp;
use vstd::prelude::*;

verus! {

/// The decimal digits of `n`, without leading zeros.
pub open spec fn decimal(n: nat) -> Seq<char>
    decreases n,
{
    if n < 10 {
        seq![digit_char(n)]
    } else {
        decimal(n / 10) + seq![digit_char(n % 10)]
    }
}

pub open spec fn open_tag() -> Seq<char> {
    seq![' ', '<', '!', '-', '-', ' ', 'i', 'd', ':']
}

pub open spec fn created_tag() -> Seq<char> {
    seq![' ', 'c', 'r', 'e', 'a', 't', 'e', 'd', ':']
}

pub open spec fn done_tag() -> Seq<char> {
    seq![' ', 'd', 'o', 'n', 'e', ':']
}

pub open spec fn close_tag() -> Seq<char> {
    seq![' ', '-', '-', '>']
}

/// `# godo tasks`, a blank line, `## Todo`, a blank line.
pub open spec fn todo_heading() -> Seq<char> {
    seq!['#', ' ', 'g', 'o', 'd', 'o', ' ', 't', 'a', 's', 'k', 's', '\n', '\n', '#', '#', ' ', 'T', 'o', 'd', 'o', '\n', '\n']
}

/// A blank line, `## Done`, a blank line.
pub open spec fn done_heading() -> Seq<char> {
    seq!['\n', '#', '#', ' ', 'D', 'o', 'n', 'e', '\n', '\n']
}

/// The line of one task, without its line break:
/// `- [ ] title <!-- id:N created:T -->`, with ` done:T` before `-->` when
/// the task has a time of completion.
pub open spec fn record_line(t: TaskModel) -> Seq<char> {
    seq!['-', ' '] + t.status.marker_spec() + seq![' '] + t.title + open_tag() + decimal(t.id as nat)
        + created_tag() + t.created_at.render() + match t.done_at {
        Some(d) => done_tag() + d.render(),
        None => Seq::empty(),
    } + close_tag()
}

/// The lines of the given tasks, each ended by a line break.
pub open spec fn record_block(ts: Seq<TaskModel>) -> Seq<char>
    decreases ts.len(),
{
    if ts.len() == 0 {
        Seq::empty()
    } else {
        record_block(ts.drop_last()) + record_line(ts.last()) + seq!['\n']
    }
}

/// The whole document for the tasks `ts`.
pub open spec fn document(ts: Seq<TaskModel>) -> Seq<char> {
    todo_heading() + record_block(pending(ts)) + done_heading() + record_block(finished(ts))
}

/// Every timestamp of the task can be written in the text form.
pub open spec fn timestamps_wf(t: TaskModel) -> bool {
    &&& t.created_at.wf()
    &&& t.done_at matches Some(d) ==> d.wf()
}

fn push_decimal(out: &mut Vec<char>, n: u32)
    ensures
        final(out)@ == old(out)@ + decimal(n as nat),
    decreases n,
{
    if n < 10 {
        out.push(digit_of(n));
    } else {
        push_decimal(out, n / 10);
        out.push(digit_of(n % 10));
    }
    assert(final(out)@ =~= old(out)@ + decimal(n as nat));
}

fn push_seq(out: &mut Vec<char>, s: &str)
    ensures
        final(out)@ == old(out)@ + s@,
{
    let v = crate::text::chars_of(s);
    push_all(out, &v);
}

/// Appends the line of `task`, without its line break.
#[verifier::rlimit(50)]
fn push_record(out: &mut Vec<char>, task: &Task)
    requires
        timestamps_wf(task@),
    ensures
        final(out)@ == old(out)@ + record_line(task@),
{
    let ghost o = out@;
    out.push('-');
    out.push(' ');
    push_seq(out, task.status.marker());
    out.push(' ');
    push_seq(out, task.title.as_str());
    push_all(out, &vec![' ', '<', '!', '-', '-', ' ', 'i', 'd', ':']);
    push_decimal(out, task.id);
    push_all(out, &vec![' ', 'c', 'r', 'e', 'a', 't', 'e', 'd', ':']);
    task.created_at.push_rfc3339(out);
    match task.done_at {
        Some(d) => {
            push_all(out, &vec![' ', 'd', 'o', 'n', 'e', ':']);
            d.push_rfc3339(out);
        },
        None => {},
    }
    push_all(out, &vec![' ', '-', '-', '>']);
    assert(out@ =~= o + record_line(task@));
}

/// The line of one task, as the task file writes it.
pub fn format_task(task: &Task) -> (r: String)
    requires
        timestamps_wf(task@),
    ensures
        r@ == record_line(task@),
{
    let mut out: Vec<char> = Vec::new();
    push_record(&mut out, task);
    assert(out@ =~= record_line(task@));
    string_of(&out)
}

/// Appends the lines of the tasks of `list` whose status is `status`.
fn push_block(out: &mut Vec<char>, list: &TaskList, status: TaskStatus)
    requires
        forall|i: int| 0 <= i < list.model().len() ==> timestamps_wf(#[trigger] list.model()[i]),
    ensures
        final(out)@ == old(out)@ + record_block(
            list.model().filter(|t: TaskModel| t.status == status),
        ),
{
    let ghost m = list.model();
    let mut i: usize = 0;
    while i < list.tasks.len()
        invariant
            i <= list.tasks.len(),
            m == list.model(),
            forall|k: int| 0 <= k < m.len() ==> timestamps_wf(#[trigger] m[k]),
            out@ == old(out)@ + record_block(
                m.subrange(0, i as int).filter(|t: TaskModel| t.status == status),
            ),
        decreases list.tasks.len() - i,
    {
        proof {
            assert(m.subrange(0, i + 1).drop_last() =~= m.subrange(0, i as int));
            reveal(Seq::filter);
        }
        if list.tasks[i].status == status {
            assert(timestamps_wf(m[i as int]));
            push_record(out, &list.tasks[i]);
            out.push('\n');
            proof {
                let f = m.subrange(0, i + 1).filter(|t: TaskModel| t.status == status);
                assert(f.drop_last() =~= m.subrange(0, i as int).filter(
                    |t: TaskModel| t.status == status,
                ));
                assert(out@ =~= old(out)@ + record_block(f));
            }
        }
        i += 1;
    }
    assert(m.subrange(0, i as int) =~= m);
}

/// The document for a task list: the heading, the pending tasks, then the
/// finished ones, each part in collection order.
pub fn format_tasks(task_list: &TaskList) -> (r: String)
    requires
        forall|i: int|
            0 <= i < task_list.model().len() ==> timestamps_wf(#[trigger] task_list.model()[i]),
    ensures
        r@ == document(task_list.model()),
{
    let mut out: Vec<char> = Vec::new();
    push_all(&mut out, &vec!['#', ' ', 'g', 'o', 'd', 'o', ' ', 't', 'a', 's', 'k', 's', '\n', '\n', '#', '#', ' ', 'T', 'o', 'd', 'o', '\n', '\n']);
    push_block(&mut out, task_list, TaskStatus::Todo);
    push_all(&mut out, &vec!['\n', '#', '#', ' ', 'D', 'o', 'n', 'e', '\n', '\n']);
    push_block(&mut out, task_list, TaskStatus::Done);
    assert(out@ =~= document(task_list.model()));
    string_of(&out)
}

/// The lines of `s` from position `i` on, where the current line began at
/// `start`: split at each `\n`, with no empty line after a final `\n`.
pub open spec fn lines_from(s: Seq<char>, i: int, start: int) -> Seq<Seq<char>>
    decreases s.len() - i,
{
    if i >= s.len() {
        if start < s.len() {
            seq![s.subrange(start, s.len() as int)]
        } else {
            Seq::empty()
        }
    } else if s[i] == '\n' {
        seq![s.subrange(start, i)] + lines_from(s, i + 1, i + 1)
    } else {
        lines_from(s, i + 1, start)
    }
}

pub open spec fn lines(s: Seq<char>) -> Seq<Seq<char>> {
    lines_from(s, 0, 0)
}

pub open spec fn trim_start_at(s: Seq<char>, i: int) -> int
    decreases s.len() - i,
{
    if 0 <= i < s.len() && is_space(s[i]) {
        trim_start_at(s, i + 1)
    } else {
        i
    }
}

pub open spec fn trim_end_at(s: Seq<char>, lo: int, j: int) -> int
    decreases j - lo,
{
    if lo < j && is_space(s[j - 1]) {
        trim_end_at(s, lo, j - 1)
    } else {
        j
    }
}

/// `s` without white space at either end.
pub open spec fn trim(s: Seq<char>) -> Seq<char> {
    let a = trim_start_at(s, 0);
    s.subrange(a, trim_end_at(s, a, s.len() as int))
}

/// The end of the run of decimal digits that starts at `i`.
pub open spec fn digit_end(s: Seq<char>, i: int) -> int
    decreases s.len() - i,
{
    if 0 <= i < s.len() && is_id_digit(s[i]) {
        digit_end(s, i + 1)
    } else {
        i
    }
}

/// The end of the run of non-space characters that starts at `i`.
pub open spec fn word_end(s: Seq<char>, i: int) -> int
    decreases s.len() - i,
{
    if 0 <= i < s.len() && !is_space(s[i]) {
        word_end(s, i + 1)
    } else {
        i
    }
}

/// `p` stands in `s` at position `i`.
pub open spec fn lit_at(s: Seq<char>, i: int, p: Seq<char>) -> bool {
    0 <= i && i + p.len() <= s.len() && s.subrange(i, i + p.len()) == p
}

/// The texts of the metadata comment of a record.
pub struct Fields {
    pub id_text: Seq<char>,
    pub created_text: Seq<char>,
    pub done_text: Option<Seq<char>>,
}

/// Reads ` <!-- id:DIGITS created:WORD[ done:WORD] -->` from position `i` to
/// the end of `s`, where a word is a run of non-space characters.
pub open spec fn fields_at(s: Seq<char>, i: int) -> Option<Fields> {
    if !lit_at(s, i, open_tag()) {
        None
    } else {
        let a = i + 9;
        let b = digit_end(s, a);
        if b == a || !lit_at(s, b, created_tag()) {
            None
        } else {
            let c = b + 9;
            let d = word_end(s, c);
            if d == c {
                None
            } else if lit_at(s, d, close_tag()) && d + 4 == s.len() {
                Some(
                    Fields {
                        id_text: s.subrange(a, b),
                        created_text: s.subrange(c, d),
                        done_text: None,
                    },
                )
            } else if lit_at(s, d, done_tag()) {
                let e = d + 6;
                let f = word_end(s, e);
                if f > e && lit_at(s, f, close_tag()) && f + 4 == s.len() {
                    Some(
                        Fields {
                            id_text: s.subrange(a, b),
                            created_text: s.subrange(c, d),
                            done_text: Some(s.subrange(e, f)),
                        },
                    )
                } else {
                    None
                }
            } else {
                None
            }
        }
    }
}

/// The first position from `k` on where the metadata comment can begin: the
/// title is as short as it can be.
pub open spec fn title_end(s: Seq<char>, k: int) -> Option<int>
    decreases s.len() - k,
{
    if k < 0 || k >= s.len() {
        None
    } else if fields_at(s, k) is Some {
        Some(k)
    } else {
        title_end(s, k + 1)
    }
}

/// The parts of a record line.
pub struct Record {
    pub done: bool,
    pub title: Seq<char>,
    pub fields: Fields,
}

/// Reads a trimmed line as a record `- [M] TITLE <!-- ... -->`, where `M` is a
/// space or `x` and the title is not empty.
pub open spec fn record_of(l: Seq<char>) -> Option<Record> {
    if l.len() >= 6 && l[0] == '-' && l[1] == ' ' && l[2] == '[' && (l[3] == ' ' || l[3] == 'x')
        && l[4] == ']' && l[5] == ' ' {
        match title_end(l, 7) {
            Some(k) => Some(
                Record { done: l[3] == 'x', title: l.subrange(6, k), fields: fields_at(l, k)->0 },
            ),
            None => None,
        }
    } else {
        None
    }
}

/// The number that a run of decimal digits writes.
pub open spec fn digits_value(ds: Seq<char>) -> nat
    decreases ds.len(),
{
    if ds.len() == 0 {
        0
    } else {
        digits_value(ds.drop_last()) * 10 + digit_value(ds.last())
    }
}

/// An identifier as read from the text: 0 where a digit is not ASCII or the
/// number does not fit.
pub open spec fn id_of(ds: Seq<char>) -> u32 {
    if (forall|k: int| 0 <= k < ds.len() ==> is_digit(#[trigger] ds[k])) && digits_value(ds)
        <= u32::MAX {
        digits_value(ds) as u32
    } else {
        0
    }
}

/// The task that a line holds, if it is a record. An unreadable creation time
/// reads as `now`; an unreadable time of completion reads as none.
pub open spec fn task_of(line: Seq<char>, now: Timestamp) -> Option<TaskModel> {
    match record_of(trim(line)) {
        None => None,
        Some(r) => Some(task_of_record(r, now)),
    }
}

/// The task that a record describes.
pub open spec fn task_of_record(r: Record, now: Timestamp) -> TaskModel {
            TaskModel {
                id: id_of(r.fields.id_text),
                title: r.title,
                status: if r.done {
                    TaskStatus::Done
                } else {
                    TaskStatus::Todo
                },
                created_at: match rfc3339_of(r.fields.created_text) {
                    Some(t) => t,
                    None => now,
                },
                done_at: match r.fields.done_text {
                    Some(d) => rfc3339_of(d),
                    None => None,
                },
            }
}

/// The tasks of the record lines among `ls`, in order.
pub open spec fn tasks_of_lines(ls: Seq<Seq<char>>, now: Timestamp) -> Seq<TaskModel>
    decreases ls.len(),
{
    if ls.len() == 0 {
        Seq::empty()
    } else {
        let head: Seq<TaskModel> = match task_of(ls[0], now) {
            Some(t) => seq![t],
            None => Seq::empty(),
        };
        head + tasks_of_lines(ls.drop_first(), now)
    }
}

/// The tasks that a document holds, in the order of their lines.
pub open spec fn tasks_of(text: Seq<char>, now: Timestamp) -> Seq<TaskModel> {
    tasks_of_lines(lines(text), now)
}

fn copy_range(v: &Vec<char>, lo: usize, hi: usize) -> (r: Vec<char>)
    requires
        lo <= hi <= v.len(),
    ensures
        r@ == v@.subrange(lo as int, hi as int),
{
    let mut r: Vec<char> = Vec::new();
    let mut k: usize = lo;
    while k < hi
        invariant
            lo <= k <= hi,
            hi <= v.len(),
            r@ == v@.subrange(lo as int, k as int),
        decreases hi - k,
    {
        r.push(v[k]);
        k += 1;
        assert(r@ =~= v@.subrange(lo as int, k as int));
    }
    r
}

fn trim_chars(s: &Vec<char>) -> (r: Vec<char>)
    ensures
        r@ == trim(s@),
{
    let mut a: usize = 0;
    while a < s.len() && char_is_space(s[a])
        invariant
            a <= s.len(),
            trim_start_at(s@, a as int) == trim_start_at(s@, 0),
        decreases s.len() - a,
    {
        a += 1;
    }
    let mut b: usize = s.len();
    while b > a && char_is_space(s[b - 1])
        invariant
            a <= b <= s.len(),
            trim_start_at(s@, 0) == a,
            trim_end_at(s@, a as int, b as int) == trim_end_at(s@, a as int, s.len() as int),
        decreases b,
    {
        b -= 1;
    }
    copy_range(s, a, b)
}

fn digit_end_exec(s: &Vec<char>, i: usize) -> (r: usize)
    requires
        i <= s.len(),
    ensures
        r == digit_end(s@, i as int),
        i <= r <= s.len(),
{
    let mut j: usize = i;
    while j < s.len() && char_is_id_digit(s[j])
        invariant
            i <= j <= s.len(),
            digit_end(s@, j as int) == digit_end(s@, i as int),
        decreases s.len() - j,
    {
        j += 1;
    }
    j
}

fn word_end_exec(s: &Vec<char>, i: usize) -> (r: usize)
    requires
        i <= s.len(),
    ensures
        r == word_end(s@, i as int),
        i <= r <= s.len(),
{
    let mut j: usize = i;
    while j < s.len() && !char_is_space(s[j])
        invariant
            i <= j <= s.len(),
            word_end(s@, j as int) == word_end(s@, i as int),
        decreases s.len() - j,
    {
        j += 1;
    }
    j
}

fn lit_at_exec(s: &Vec<char>, i: usize, p: &Vec<char>) -> (r: bool)
    requires
        i <= s.len(),
    ensures
        r == lit_at(s@, i as int, p@),
{
    if p.len() > s.len() - i {
        return false;
    }
    let mut k: usize = 0;
    while k < p.len()
        invariant
            k <= p.len(),
            i + p.len() <= s.len(),
            forall|m: int| 0 <= m < k ==> s@[i + m] == p@[m],
        decreases p.len() - k,
    {
        if s[i + k] != p[k] {
            assert(s@.subrange(i as int, i + p.len())[k as int] != p@[k as int]);
            return false;
        }
        k += 1;
    }
    assert(s@.subrange(i as int, i + p.len()) =~= p@);
    true
}

/// Where the texts of the metadata comment stand in a line.
struct Spans {
    id: (usize, usize),
    created: (usize, usize),
    done: Option<(usize, usize)>,
}

fn fields_exec(s: &Vec<char>, i: usize) -> (r: Option<Spans>)
    requires
        i <= s.len(),
    ensures
        r is None <==> fields_at(s@, i as int) is None,
        r matches Some(sp) ==> {
            &&& sp.id.0 <= sp.id.1 <= s.len()
            &&& sp.created.0 <= sp.created.1 <= s.len()
            &&& forall|k: int| sp.id.0 <= k < sp.id.1 ==> is_id_digit(#[trigger] s@[k])
            &&& sp.done matches Some(d) ==> d.0 <= d.1 <= s.len()
            &&& fields_at(s@, i as int) == Some(
                Fields {
                    id_text: s@.subrange(sp.id.0 as int, sp.id.1 as int),
                    created_text: s@.subrange(sp.created.0 as int, sp.created.1 as int),
                    done_text: match sp.done {
                        Some(d) => Some(s@.subrange(d.0 as int, d.1 as int)),
                        None => None,
                    },
                },
            )
        },
{
    if !lit_at_exec(s, i, &vec![' ', '<', '!', '-', '-', ' ', 'i', 'd', ':']) {
        return None;
    }
    let a = i + 9;
    let b = digit_end_exec(s, a);
    proof {
        lemma_digit_run(s@, a as int);
    }
    if b == a || !lit_at_exec(s, b, &vec![' ', 'c', 'r', 'e', 'a', 't', 'e', 'd', ':']) {
        return None;
    }
    let c = b + 9;
    let d = word_end_exec(s, c);
    if d == c {
        return None;
    }
    let close = vec![' ', '-', '-', '>'];
    if lit_at_exec(s, d, &close) && d + 4 == s.len() {
        return Some(Spans { id: (a, b), created: (c, d), done: None });
    }
    if lit_at_exec(s, d, &vec![' ', 'd', 'o', 'n', 'e', ':']) {
        let e = d + 6;
        let f = word_end_exec(s, e);
        if f > e && lit_at_exec(s, f, &close) && f + 4 == s.len() {
            return Some(Spans { id: (a, b), created: (c, d), done: Some((e, f)) });
        }
    }
    None
}

proof fn lemma_digit_run(s: Seq<char>, i: int)
    requires
        0 <= i <= s.len(),
    ensures
        i <= digit_end(s, i) <= s.len(),
        forall|k: int| i <= k < digit_end(s, i) ==> is_id_digit(#[trigger] s[k]),
    decreases s.len() - i,
{
    if i < s.len() && is_id_digit(s[i]) {
        lemma_digit_run(s, i + 1);
    }
}

proof fn lemma_value_grows(s: Seq<char>, i: int, j: int)
    requires
        0 <= i <= j <= s.len(),
    ensures
        digits_value(s.take(i)) <= digits_value(s.take(j)),
    decreases j - i,
{
    if i < j {
        assert(s.take(j).drop_last() =~= s.take(j - 1));
        lemma_value_grows(s, i, j - 1);
    }
}

/// Reads the identifier written by the digits `s[a..b]`.
fn id_exec(s: &Vec<char>, a: usize, b: usize) -> (r: u32)
    requires
        a <= b <= s.len(),
    ensures
        r == id_of(s@.subrange(a as int, b as int)),
{
    let ghost ds = s@.subrange(a as int, b as int);
    let mut j: usize = a;
    while j < b
        invariant
            a <= j <= b,
            b <= s.len(),
            ds == s@.subrange(a as int, b as int),
            forall|k: int| a <= k < j ==> is_digit(#[trigger] s@[k]),
        decreases b - j,
    {
        if !('0' <= s[j] && s[j] <= '9') {
            assert(!is_digit(ds[j - a]));
            return 0;
        }
        j += 1;
    }
    assert forall|k: int| 0 <= k < ds.len() implies is_digit(#[trigger] ds[k]) by {
        assert(ds[k] == s@[a + k]);
    }
    let mut acc: u64 = 0;
    let mut j: usize = a;
    while j < b
        invariant
            a <= j <= b,
            b <= s.len(),
            ds == s@.subrange(a as int, b as int),
            forall|k: int| a <= k < b ==> is_digit(#[trigger] s@[k]),
            forall|k: int| 0 <= k < ds.len() ==> is_digit(#[trigger] ds[k]),
            acc == digits_value(ds.take(j - a)),
            acc <= u32::MAX,
        decreases b - j,
    {
        let c = s[j];
        assert(is_digit(s@[j as int]));
        let d: u64 = (c as u32 - '0' as u32) as u64;
        assert(ds.take(j + 1 - a).drop_last() =~= ds.take(j - a));
        acc = acc * 10 + d;
        j += 1;
        if acc > u32::MAX as u64 {
            proof {
                lemma_value_grows(ds, j - a, ds.len() as int);
                assert(ds.take(ds.len() as int) =~= ds);
            }
            return 0;
        }
    }
    assert(ds.take(j - a) =~= ds);
    acc as u32
}

/// Reads one trimmed line as a task.
fn record_exec(l: &Vec<char>, now: Timestamp) -> (r: Option<Task>)
    ensures
        r is None <==> record_of(l@) is None,
        r matches Some(t) ==> t@ == task_of_record(record_of(l@)->0, now),
{
    if !(l.len() >= 6 && l[0] == '-' && l[1] == ' ' && l[2] == '[' && (l[3] == ' ' || l[3] == 'x')
        && l[4] == ']' && l[5] == ' ') {
        return None;
    }
    let mut k: usize = 7;
    while k < l.len()
        invariant
            7 <= k,
            title_end(l@, k as int) == title_end(l@, 7),
            l@.len() >= 6 && l@[0] == '-' && l@[1] == ' ' && l@[2] == '[' && (l@[3] == ' '
                || l@[3] == 'x') && l@[4] == ']' && l@[5] == ' ',
        decreases l.len() - k,
    {
        match fields_exec(l, k) {
            Some(sp) => {
                let title = string_of(&copy_range(l, 6, k));
                let id = id_exec(l, sp.id.0, sp.id.1);
                let created_text = string_of(&copy_range(l, sp.created.0, sp.created.1));
                let created_at = match Timestamp::parse(created_text.as_str()) {
                    Some(t) => t,
                    None => now,
                };
                let done_at = match sp.done {
                    Some(d) => {
                        let done_text = string_of(&copy_range(l, d.0, d.1));
                        Timestamp::parse(done_text.as_str())
                    },
                    None => None,
                };
                let status = if l[3] == 'x' {
                    TaskStatus::Done
                } else {
                    TaskStatus::Todo
                };
                return Some(Task { id, title, status, created_at, done_at });
            },
            None => {},
        }
        k += 1;
    }
    None
}

/// Reads a document: every line that is a record, wherever it stands, gives a
/// task, in the order of the lines; other lines are passed over. The next
/// identifier is one above the largest read.
pub fn parse_tasks(content: &str, now: Timestamp) -> (r: TaskList)
    ensures
        r.model() == tasks_of(content@, now),
        r.counter() == max_id(r.model()) + 1,
        r.wf(),
{
    let v = crate::text::chars_of(content);
    let mut tasks: Vec<Task> = Vec::new();
    let mut start: usize = 0;
    let mut i: usize = 0;
    while i < v.len()
        invariant
            start <= i <= v.len(),
            v@ == content@,
            tasks@.map_values(|t: Task| t@) + tasks_of_lines(
                lines_from(v@, i as int, start as int),
                now,
            ) == tasks_of(content@, now),
        decreases v.len() - i,
    {
        if v[i] == '\n' {
            let raw = copy_range(&v, start, i);
            let line = trim_chars(&raw);
            let ghost rest = lines_from(v@, i + 1, i + 1);
            let ghost before = tasks@.map_values(|t: Task| t@);
            assert((seq![raw@] + rest).drop_first() =~= rest);
            match record_exec(&line, now) {
                Some(t) => {
                    tasks.push(t);
                    assert(tasks@.map_values(|t: Task| t@) =~= before.push(t@));
                },
                None => {},
            }
            start = i + 1;
        }
        i += 1;
    }
    let ghost before = tasks@.map_values(|t: Task| t@);
    if start < v.len() {
        let raw = copy_range(&v, start, v.len());
        let line = trim_chars(&raw);
        assert(lines_from(v@, v.len() as int, start as int) == seq![raw@]);
        assert(seq![raw@].drop_first() =~= Seq::<Seq<char>>::empty());
        assert(tasks_of_lines(Seq::<Seq<char>>::empty(), now) == Seq::<TaskModel>::empty());
        assert(seq![raw@][0] == raw@);
        match record_exec(&line, now) {
            Some(t) => {
                assert(task_of(raw@, now) == Some(t@));
                tasks.push(t);
                assert(tasks@.map_values(|t: Task| t@) =~= before.push(t@));
            },
            None => {
                assert(task_of(raw@, now) is None);
                assert(tasks@.map_values(|t: Task| t@) =~= before);
            },
        }
    } else {
        assert(before + Seq::<TaskModel>::empty() =~= before);
    }
    assert(tasks@.map_values(|t: Task| t@) =~= tasks_of(content@, now));
    TaskList::with_tasks(tasks)
}

} // verus!
