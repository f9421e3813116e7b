//! Reading back what the formatter writes.
use crate::storage::{
    close_tag, created_tag, decimal, digit_end, digits_value, document, done_heading, done_tag,
    fields_at, id_of, lines_from, lit_at, open_tag, record_block, record_line, record_of,
    task_of, task_of_record, tasks_of, tasks_of_lines, timestamps_wf, title_end, todo_heading,
    trim, trim_end_at, trim_start_at, word_end, Fields,
};
use crate::task::{finished, pending, TaskModel, TaskStatus};
use crate::text::{digit_char, digit_value, is_digit, is_id_digit, is_space};
use crate::timestamp::{rfc3339_of, Timestamp};
use vstd::prelude::*;

verus! {

/// `<!--`, which opens the metadata comment.
pub open spec fn comment_open() -> Seq<char> {
    seq!['<', '!', '-', '-']
}

/// A title that a record line carries unchanged: not empty, on one line, and
/// free of `<!--`.
pub open spec fn title_writable(t: Seq<char>) -> bool {
    &&& t.len() > 0
    &&& forall|k: int| 0 <= k < t.len() ==> t[k] != '\n'
    &&& forall|k: int| !lit_at(t, k, comment_open())
}

/// A task that the text form can hold: a writable title and writable times.
pub open spec fn writable(t: TaskModel) -> bool {
    title_writable(t.title) && timestamps_wf(t)
}

/// A task as read back from its line: its times are what chrono reads from
/// their text (`Timestamp::parse` states that this is the time itself for a
/// writable time), an unreadable creation time being `now`.
pub open spec fn reread(t: TaskModel, now: Timestamp) -> TaskModel {
    TaskModel {
        created_at: match rfc3339_of(t.created_at.render()) {
            Some(x) => x,
            None => now,
        },
        done_at: match t.done_at {
            Some(d) => rfc3339_of(d.render()),
            None => None,
        },
        ..t
    }
}

/// The lines of the given tasks.
pub open spec fn record_lines(ts: Seq<TaskModel>) -> Seq<Seq<char>> {
    ts.map_values(|t: TaskModel| record_line(t))
}

/// Lines, each ended by a line break.
pub open spec fn joined(ls: Seq<Seq<char>>) -> Seq<char>
    decreases ls.len(),
{
    if ls.len() == 0 {
        Seq::empty()
    } else {
        joined(ls.drop_last()) + ls.last() + seq!['\n']
    }
}

pub open spec fn no_break(l: Seq<char>) -> bool {
    forall|k: int| 0 <= k < l.len() ==> l[k] != '\n'
}

proof fn lemma_digit_chars()
    ensures
        forall|d: nat|
            d < 10 ==> is_digit(#[trigger] digit_char(d)) && digit_value(digit_char(d)) == d
                && !is_space(digit_char(d)),
{
    assert forall|d: nat| d < 10 implies is_digit(#[trigger] digit_char(d)) && digit_value(
        digit_char(d),
    ) == d && !is_space(digit_char(d)) by {
        if d == 0 {
        } else if d == 1 {
        } else if d == 2 {
        } else if d == 3 {
        } else if d == 4 {
        } else if d == 5 {
        } else if d == 6 {
        } else if d == 7 {
        } else if d == 8 {
        } else {
        }
    }
}

proof fn lemma_decimal(n: nat)
    ensures
        decimal(n).len() >= 1,
        forall|k: int| 0 <= k < decimal(n).len() ==> is_digit(#[trigger] decimal(n)[k]),
        digits_value(decimal(n)) == n,
    decreases n,
{
    lemma_digit_chars();
    if n >= 10 {
        lemma_decimal(n / 10);
        assert(decimal(n).drop_last() =~= decimal(n / 10));
        assert(decimal(n).last() == digit_char(n % 10));
        assert(digit_value(digit_char(n % 10)) == n % 10);
        assert(digits_value(decimal(n)) == digits_value(decimal(n / 10)) * 10 + digit_value(
            digit_char(n % 10),
        ));
        assert((n / 10) * 10 + n % 10 == n);
    } else {
        assert(decimal(n).drop_last() =~= Seq::<char>::empty());
        assert(digit_value(digit_char(n)) == n);
        assert(digits_value(decimal(n)) == digits_value(Seq::<char>::empty()) * 10 + digit_value(
            digit_char(n),
        ));
    }
}

proof fn lemma_render(t: Timestamp)
    requires
        t.wf(),
    ensures
        t.render().len() == 25,
        forall|k: int| 0 <= k < 25 ==> !is_space(#[trigger] t.render()[k]),
{
    lemma_digit_chars();
    let r = t.render();
    assert(t.abs_offset() < 86400);
    assert forall|k: int| 0 <= k < 25 implies !is_space(#[trigger] r[k]) by {}
}

proof fn lemma_digit_end(s: Seq<char>, i: int, j: int)
    requires
        0 <= i <= j <= s.len(),
        forall|k: int| i <= k < j ==> is_id_digit(#[trigger] s[k]),
        j == s.len() || !is_id_digit(s[j]),
    ensures
        digit_end(s, i) == j,
    decreases j - i,
{
    if i < j {
        lemma_digit_end(s, i + 1, j);
    }
}

proof fn lemma_word_end(s: Seq<char>, i: int, j: int)
    requires
        0 <= i <= j <= s.len(),
        forall|k: int| i <= k < j ==> !is_space(#[trigger] s[k]),
        j == s.len() || is_space(s[j]),
    ensures
        word_end(s, i) == j,
    decreases j - i,
{
    if i < j {
        lemma_word_end(s, i + 1, j);
    }
}

proof fn lemma_title_scan(l: Seq<char>, k: int, e: int)
    requires
        0 <= k <= e < l.len(),
        forall|m: int| k <= m < e ==> !lit_at(l, m, open_tag()),
        fields_at(l, e) is Some,
    ensures
        title_end(l, k) == Some(e),
    decreases e - k,
{
    if k < e {
        lemma_title_scan(l, k + 1, e);
    }
}

pub open spec fn line_head(t: TaskModel) -> Seq<char> {
    seq!['-', ' '] + t.status.marker_spec() + seq![' ']
}

pub open spec fn done_part(t: TaskModel) -> Seq<char> {
    match t.done_at {
        Some(d) => done_tag() + d.render(),
        None => Seq::empty(),
    }
}

/// What follows the title in a task's line.
pub open spec fn line_tail(t: TaskModel) -> Seq<char> {
    open_tag() + decimal(t.id as nat) + created_tag() + t.created_at.render() + done_part(t)
        + close_tag()
}

proof fn lemma_shape(t: TaskModel)
    ensures
        record_line(t) == line_head(t) + t.title + line_tail(t),
        line_head(t).len() == 6,
        record_line(t).len() == 6 + t.title.len() + line_tail(t).len(),
        forall|m: int|
            0 <= m < t.title.len() ==> record_line(t)[6 + m] == #[trigger] t.title[m],
        forall|m: int|
            0 <= m < line_tail(t).len() ==> record_line(t)[6 + t.title.len() + m]
                == #[trigger] line_tail(t)[m],
{
    assert(record_line(t) =~= line_head(t) + t.title + line_tail(t));
}

#[verifier::rlimit(100)]
proof fn lemma_tail_fields(t: TaskModel)
    requires
        timestamps_wf(t),
    ensures
        fields_at(line_tail(t), 0) == Some(
            Fields {
                id_text: decimal(t.id as nat),
                created_text: t.created_at.render(),
                done_text: match t.done_at {
                    Some(d) => Some(d.render()),
                    None => None,
                },
            },
        ),
        line_tail(t)[0] == ' ',
        line_tail(t)[line_tail(t).len() - 1] == '>',
        forall|k: int| 0 <= k < line_tail(t).len() ==> line_tail(t)[k] != '\n',
{
    lemma_digit_chars();
    lemma_decimal(t.id as nat);
    lemma_render(t.created_at);
    let l = line_tail(t);
    let dec = decimal(t.id as nat);
    let rc = t.created_at.render();
    let a: int = 9;
    let b: int = a + dec.len();
    let c = b + 9;
    let d = c + 25;
    assert(l.subrange(0, a) =~= open_tag());
    assert forall|k: int| a <= k < b implies is_id_digit(#[trigger] l[k]) by {
        assert(l[k] == dec[k - a]);
        assert(is_digit(dec[k - a]));
    }
    assert(l[b] == ' ');
    lemma_digit_end(l, a, b);
    assert(l.subrange(b, c) =~= created_tag());
    assert forall|k: int| c <= k < d implies !is_space(#[trigger] l[k]) by {
        assert(l[k] == rc[k - c]);
    }
    assert(l[d] == ' ');
    lemma_word_end(l, c, d);
    assert(l.subrange(a, b) =~= dec);
    assert(l.subrange(c, d) =~= rc);
    match t.done_at {
        Some(dd) => {
            lemma_render(dd);
            let e = d + 6;
            let f = e + 25;
            assert(l[d + 1] == 'd');
            assert(!lit_at(l, d, close_tag()));
            assert(l.subrange(d, e) =~= done_tag());
            assert forall|k: int| e <= k < f implies !is_space(#[trigger] l[k]) by {
                assert(l[k] == dd.render()[k - e]);
            }
            assert(l[f] == ' ');
            lemma_word_end(l, e, f);
            assert(l.subrange(f, f + 4) =~= close_tag());
            assert(l.subrange(e, f) =~= dd.render());
            assert forall|k: int| 0 <= k < l.len() implies l[k] != '\n' by {
                if a <= k < b {
                } else if c <= k < d {
                } else if e <= k < f {
                }
            }
        },
        None => {
            assert(l.subrange(d, d + 4) =~= close_tag());
            assert forall|k: int| 0 <= k < l.len() implies l[k] != '\n' by {
                if a <= k < b {
                } else if c <= k < d {
                }
            }
        },
    }
}

proof fn lemma_fields_in_line(t: TaskModel)
    requires
        timestamps_wf(t),
    ensures
        fields_at(record_line(t), 6 + t.title.len() as int) == fields_at(line_tail(t), 0),
{
    lemma_shape(t);
    let l = record_line(t);
    let tail = line_tail(t);
    let o: int = 6 + t.title.len() as int;
    assert(l.subrange(o, l.len() as int) =~= tail);
    lemma_fields_shift(l, tail, o);
}

/// Reading the metadata comment looks only at what follows its start.
proof fn lemma_fields_shift(l: Seq<char>, tail: Seq<char>, o: int)
    requires
        0 <= o <= l.len(),
        l.subrange(o, l.len() as int) == tail,
    ensures
        fields_at(l, o) == fields_at(tail, 0),
{
    assert forall|i: int, p: Seq<char>| 0 <= i implies lit_at(l, o + i, p) == lit_at(tail, i, p) by {
        if lit_at(tail, i, p) {
            assert(l.subrange(o + i, o + i + p.len()) =~= tail.subrange(i, i + p.len()));
        }
        if lit_at(l, o + i, p) {
            assert(l.subrange(o + i, o + i + p.len()) =~= tail.subrange(i, i + p.len()));
        }
    }
    assert forall|i: int| 0 <= i <= tail.len() implies digit_end(l, o + i) == o + digit_end(tail, i)
        && word_end(l, o + i) == o + word_end(tail, i) by {
        lemma_run_shift(l, tail, o, i);
    }
    let a = 9int;
    if lit_at(tail, 0, open_tag()) {
        let b = digit_end(tail, a);
        lemma_run_bounds(tail, a);
        if b != a && lit_at(tail, b, created_tag()) {
            let c = b + 9;
            lemma_run_bounds(tail, c);
            let d = word_end(tail, c);
            if d != c && lit_at(tail, d, done_tag()) {
                lemma_run_bounds(tail, d + 6);
            }
            assert(l.subrange(o + a, o + b) =~= tail.subrange(a, b));
            assert(l.subrange(o + c, o + d) =~= tail.subrange(c, d));
            let e = d + 6;
            let f = word_end(tail, e);
            if f >= e && f <= tail.len() {
                assert(l.subrange(o + e, o + f) =~= tail.subrange(e, f));
            }
        }
    }
}

proof fn lemma_run_bounds(s: Seq<char>, i: int)
    requires
        0 <= i <= s.len(),
    ensures
        i <= digit_end(s, i) <= s.len(),
        i <= word_end(s, i) <= s.len(),
    decreases s.len() - i,
{
    if i < s.len() {
        lemma_run_bounds(s, i + 1);
    }
}

proof fn lemma_run_shift(l: Seq<char>, tail: Seq<char>, o: int, i: int)
    requires
        0 <= o <= l.len(),
        l.subrange(o, l.len() as int) == tail,
        0 <= i <= tail.len(),
    ensures
        digit_end(l, o + i) == o + digit_end(tail, i),
        word_end(l, o + i) == o + word_end(tail, i),
    decreases tail.len() - i,
{
    if i < tail.len() {
        assert(l[o + i] == tail[i]);
        lemma_run_shift(l, tail, o, i + 1);
    }
}

/// The line of a writable task reads back as that task.
/// The line of a writable task reads back as that task.
proof fn lemma_title_generic(l: Seq<char>, head: Seq<char>, title: Seq<char>, tail: Seq<char>)
    requires
        l == head + title + tail,
        head.len() == 6,
        title_writable(title),
        tail.len() > 0,
        tail[0] == ' ',
        fields_at(l, 6 + title.len() as int) is Some,
    ensures
        title_end(l, 7) == Some(6 + title.len() as int),
{
    let big_t = 6 + title.len() as int;
    assert(l[big_t] == ' ');
    assert forall|m: int| 7 <= m < big_t implies !lit_at(l, m, open_tag()) by {
        if lit_at(l, m, open_tag()) {
            let w = l.subrange(m, m + 9);
            assert(w == open_tag());
            assert(w[1] == '<' && w[2] == '!' && w[3] == '-' && w[4] == '-');
            if m + 4 < big_t {
                assert(title.subrange(m - 5, m - 1) =~= comment_open());
                assert(lit_at(title, m - 5, comment_open()));
            } else {
                assert(w[big_t - m] == l[big_t]);
            }
        }
    }
    lemma_title_scan(l, 7, big_t);
}

proof fn lemma_title_found(t: TaskModel)
    requires
        writable(t),
    ensures
        title_end(record_line(t), 7) == Some(6 + t.title.len() as int),
{
    lemma_shape(t);
    lemma_tail_fields(t);
    lemma_fields_in_line(t);
    lemma_title_generic(record_line(t), line_head(t), t.title, line_tail(t));
}

proof fn lemma_plain_generic(l: Seq<char>, head: Seq<char>, title: Seq<char>, tail: Seq<char>)
    requires
        l == head + title + tail,
        head.len() == 6,
        head[0] == '-',
        forall|k: int| 0 <= k < 6 ==> head[k] != '\n',
        no_break(title),
        no_break(tail),
        tail.len() > 0,
        tail[tail.len() - 1] == '>',
    ensures
        trim(l) == l,
        no_break(l),
        l.subrange(6, 6 + title.len() as int) == title,
{
    let big_t = 6 + title.len() as int;
    assert(l[l.len() - 1] == '>');
    assert(l[0] == '-');
    assert(trim_start_at(l, 0) == 0);
    assert(trim_end_at(l, 0, l.len() as int) == l.len());
    assert(trim(l) =~= l);
    assert(l.subrange(6, big_t) =~= title);
    assert forall|k: int| 0 <= k < l.len() implies l[k] != '\n' by {
        if k < 6 {
            assert(l[k] == head[k]);
        } else if k < big_t {
            assert(l[k] == title[k - 6]);
        } else {
            assert(l[k] == tail[k - big_t]);
        }
    }
}

#[verifier::rlimit(100)]
proof fn lemma_line_plain(t: TaskModel)
    requires
        writable(t),
    ensures
        trim(record_line(t)) == record_line(t),
        no_break(record_line(t)),
        record_line(t).subrange(6, 6 + t.title.len() as int) == t.title,
        record_line(t)[0] == '-' && record_line(t)[1] == ' ' && record_line(t)[2] == '['
            && record_line(t)[4] == ']' && record_line(t)[5] == ' ',
        record_line(t)[3] == (if t.status == TaskStatus::Done { 'x' } else { ' ' }),
{
    let tail = line_tail(t);
    assert(no_break(tail) && tail.len() > 0 && tail[tail.len() - 1] == '>') by {
        lemma_tail_fields(t);
    }
    let h = line_head(t);
    assert(h[0] == '-' && h[1] == ' ' && h[2] == '[' && h[4] == ']' && h[5] == ' ' && h[3] == (
    if t.status == TaskStatus::Done {
        'x'
    } else {
        ' '
    })) by {
        assert(h =~= seq!['-', ' '] + t.status.marker_spec() + seq![' ']);
    }
    assert(forall|k: int| 0 <= k < 6 ==> h[k] != '\n');
    lemma_shape(t);
    let l = record_line(t);
    lemma_plain_generic(l, h, t.title, tail);
    assert(l[0] == h[0] && l[1] == h[1] && l[2] == h[2] && l[3] == h[3] && l[4] == h[4] && l[5]
        == h[5]);
}

/// The line of a writable task reads back as that task.
proof fn lemma_record(t: TaskModel, now: Timestamp)
    requires
        writable(t),
    ensures
        task_of(record_line(t), now) == Some(reread(t, now)),
        no_break(record_line(t)),
{
    lemma_line_plain(t);
    lemma_title_found(t);
    lemma_tail_fields(t);
    lemma_fields_in_line(t);
    lemma_decimal(t.id as nat);
    let l = record_line(t);
    assert(id_of(decimal(t.id as nat)) == t.id);
    let r = record_of(l)->0;
    assert(r.title == t.title);
    assert(r.done == (t.status == TaskStatus::Done));
    assert(task_of_record(r, now) =~= reread(t, now));
}

proof fn lemma_joined_concat(a: Seq<Seq<char>>, b: Seq<Seq<char>>)
    ensures
        joined(a + b) == joined(a) + joined(b),
    decreases b.len(),
{
    if b.len() == 0 {
        assert(a + b =~= a);
        assert(joined(a) + joined(b) =~= joined(a));
    } else {
        assert((a + b).drop_last() =~= a + b.drop_last());
        lemma_joined_concat(a, b.drop_last());
        assert(joined(a + b) =~= joined(a) + joined(b));
    }
}

proof fn lemma_block(ts: Seq<TaskModel>)
    ensures
        record_block(ts) == joined(record_lines(ts)),
    decreases ts.len(),
{
    if ts.len() > 0 {
        lemma_block(ts.drop_last());
        assert(record_lines(ts).drop_last() =~= record_lines(ts.drop_last()));
    }
}

proof fn lemma_scan_line(s: Seq<char>, i: int, p: int, q: int)
    requires
        0 <= p <= i <= q < s.len(),
        s[q] == '\n',
        forall|k: int| i <= k < q ==> s[k] != '\n',
    ensures
        lines_from(s, i, p) == seq![s.subrange(p, q)] + lines_from(s, q + 1, q + 1),
    decreases q - i,
{
    if i < q {
        lemma_scan_line(s, i + 1, p, q);
    }
}

proof fn lemma_lines_of_joined(s: Seq<char>, p: int, ls: Seq<Seq<char>>)
    requires
        0 <= p <= s.len(),
        s.subrange(p, s.len() as int) == joined(ls),
        forall|i: int| 0 <= i < ls.len() ==> no_break(#[trigger] ls[i]),
    ensures
        lines_from(s, p, p) == ls,
    decreases ls.len(),
{
    if ls.len() == 0 {
        assert(s.subrange(p, s.len() as int).len() == 0);
    } else {
        let first = ls[0];
        let rest = ls.drop_first();
        assert(ls =~= seq![first] + rest);
        lemma_joined_concat(seq![first], rest);
        assert(seq![first].drop_last() =~= Seq::<Seq<char>>::empty());
        assert(joined(Seq::<Seq<char>>::empty()) == Seq::<char>::empty());
        assert(seq![first].last() == first);
        assert(joined(seq![first]) =~= first + seq!['\n']);
        let q = p + first.len();
        let tail = s.subrange(p, s.len() as int);
        assert(tail =~= first + seq!['\n'] + joined(rest));
        assert(tail.len() == first.len() + 1 + joined(rest).len());
        assert(tail[first.len() as int] == '\n');
        assert(tail[q - p] == s[q]);
        assert forall|k: int| p <= k < q implies s[k] != '\n' by {
            assert(tail[k - p] == s[k]);
            assert(tail[k - p] == first[k - p]);
        }
        lemma_scan_line(s, p, p, q);
        assert(s.subrange(p, q) =~= first);
        assert(tail.subrange(first.len() as int + 1, tail.len() as int) =~= joined(rest));
        assert(s.subrange(q + 1, s.len() as int) =~= tail.subrange(
            first.len() as int + 1,
            tail.len() as int,
        ));
        assert forall|i: int| 0 <= i < rest.len() implies no_break(#[trigger] rest[i]) by {
            assert(rest[i] == ls[i + 1]);
        }
        lemma_lines_of_joined(s, q + 1, rest);
    }
}

proof fn lemma_tasks_concat(a: Seq<Seq<char>>, b: Seq<Seq<char>>, now: Timestamp)
    ensures
        tasks_of_lines(a + b, now) == tasks_of_lines(a, now) + tasks_of_lines(b, now),
    decreases a.len(),
{
    if a.len() == 0 {
        assert(a + b =~= b);
        assert(tasks_of_lines(a, now) + tasks_of_lines(b, now) =~= tasks_of_lines(b, now));
    } else {
        assert((a + b).drop_first() =~= a.drop_first() + b);
        assert((a + b)[0] == a[0]);
        lemma_tasks_concat(a.drop_first(), b, now);
        assert(tasks_of_lines(a + b, now) =~= tasks_of_lines(a, now) + tasks_of_lines(b, now));
    }
}

proof fn lemma_records_read(ts: Seq<TaskModel>, now: Timestamp)
    requires
        forall|i: int| 0 <= i < ts.len() ==> writable(#[trigger] ts[i]),
    ensures
        tasks_of_lines(record_lines(ts), now) == ts.map_values(
            |t: TaskModel| reread(t, now),
        ),
        forall|i: int|
            0 <= i < ts.len() ==> no_break(
                #[trigger] record_lines(ts)[i],
            ),
    decreases ts.len(),
{
    let ls = record_lines(ts);
    if ts.len() > 0 {
        let rest = ts.drop_first();
        assert forall|i: int| 0 <= i < rest.len() implies writable(#[trigger] rest[i]) by {
            assert(rest[i] == ts[i + 1]);
        }
        lemma_records_read(rest, now);
        assert(ls.drop_first() =~= record_lines(rest));
        lemma_record(ts[0], now);
        assert(ls[0] == record_line(ts[0]));
        assert(tasks_of_lines(ls, now) =~= ts.map_values(|t: TaskModel| reread(t, now)));
        assert forall|i: int| 0 <= i < ts.len() implies no_break(#[trigger] ls[i]) by {
            if i > 0 {
                assert(ls[i] == record_lines(rest)[i - 1]);
            } else {
                lemma_record(ts[0], now);
            }
        }
    }
}

proof fn lemma_trim_end_bounds(s: Seq<char>, lo: int, j: int)
    requires
        lo <= j,
    ensures
        lo <= trim_end_at(s, lo, j) <= j,
    decreases j - lo,
{
    if lo < j && is_space(s[j - 1]) {
        lemma_trim_end_bounds(s, lo, j - 1);
    }
}

/// A line that is empty or starts with `#` holds no task.
proof fn lemma_heading_unread(l: Seq<char>, now: Timestamp)
    requires
        l.len() == 0 || l[0] == '#',
    ensures
        task_of(l, now) is None,
{
    assert(trim_start_at(l, 0) == 0);
    lemma_trim_end_bounds(l, 0, l.len() as int);
    let e = trim_end_at(l, 0, l.len() as int);
    if e > 0 {
        assert(trim(l)[0] == l[0]);
    }
}

pub open spec fn todo_heading_lines() -> Seq<Seq<char>> {
    seq![
        seq!['#', ' ', 'g', 'o', 'd', 'o', ' ', 't', 'a', 's', 'k', 's'],
        Seq::empty(),
        seq!['#', '#', ' ', 'T', 'o', 'd', 'o'],
        Seq::empty(),
    ]
}

pub open spec fn done_heading_lines() -> Seq<Seq<char>> {
    seq![Seq::empty(), seq!['#', '#', ' ', 'D', 'o', 'n', 'e'], Seq::empty()]
}

proof fn lemma_todo_heading(now: Timestamp)
    ensures
        joined(todo_heading_lines()) == todo_heading(),
        tasks_of_lines(todo_heading_lines(), now) == Seq::<TaskModel>::empty(),
        forall|i: int|
            0 <= i < todo_heading_lines().len() ==> no_break(#[trigger] todo_heading_lines()[i]),
{
    let h = todo_heading_lines();
    assert(joined(h) =~= todo_heading()) by {
        reveal_with_fuel(joined, 5);
    }
    lemma_heading_unread(h[0], now);
    lemma_heading_unread(h[1], now);
    lemma_heading_unread(h[2], now);
    lemma_heading_unread(h[3], now);
    let t1 = h.drop_first();
    let t2 = t1.drop_first();
    let t3 = t2.drop_first();
    let t4 = t3.drop_first();
    assert(t4 =~= Seq::<Seq<char>>::empty());
    assert(tasks_of_lines(t4, now) == Seq::<TaskModel>::empty());
    assert(tasks_of_lines(t3, now) =~= Seq::<TaskModel>::empty());
    assert(tasks_of_lines(t2, now) =~= Seq::<TaskModel>::empty());
    assert(tasks_of_lines(t1, now) =~= Seq::<TaskModel>::empty());
    assert(tasks_of_lines(h, now) =~= Seq::<TaskModel>::empty());
}

proof fn lemma_done_heading(now: Timestamp)
    ensures
        joined(done_heading_lines()) == done_heading(),
        tasks_of_lines(done_heading_lines(), now) == Seq::<TaskModel>::empty(),
        forall|i: int|
            0 <= i < done_heading_lines().len() ==> no_break(#[trigger] done_heading_lines()[i]),
{
    let h = done_heading_lines();
    assert(joined(h) =~= done_heading()) by {
        reveal_with_fuel(joined, 4);
    }
    lemma_heading_unread(h[0], now);
    lemma_heading_unread(h[1], now);
    lemma_heading_unread(h[2], now);
    let t1 = h.drop_first();
    let t2 = t1.drop_first();
    let t3 = t2.drop_first();
    assert(t3 =~= Seq::<Seq<char>>::empty());
    assert(tasks_of_lines(t3, now) == Seq::<TaskModel>::empty());
    assert(tasks_of_lines(t2, now) =~= Seq::<TaskModel>::empty());
    assert(tasks_of_lines(t1, now) =~= Seq::<TaskModel>::empty());
    assert(tasks_of_lines(h, now) =~= Seq::<TaskModel>::empty());
}

proof fn lemma_filter_writable(ts: Seq<TaskModel>, p: spec_fn(TaskModel) -> bool)
    requires
        forall|i: int| 0 <= i < ts.len() ==> writable(#[trigger] ts[i]),
    ensures
        forall|i: int| 0 <= i < ts.filter(p).len() ==> writable(#[trigger] ts.filter(p)[i]),
{
    assert forall|i: int| 0 <= i < ts.filter(p).len() implies writable(#[trigger] ts.filter(p)[i]) by {
        let x = ts.filter(p)[i];
        assert(ts.filter(p).contains(x));
        ts.lemma_filter_contains_rev(p, x);
        let j = choose|j: int| 0 <= j < ts.len() && ts[j] == x;
        assert(writable(ts[j]));
    }
}

/// The pending tasks followed by the finished ones are the tasks of `ts`,
/// counted with repeats.
proof fn lemma_split_multiset(ts: Seq<TaskModel>, now: Timestamp)
    ensures
        (pending(ts).map_values(|t: TaskModel| reread(t, now)) + finished(ts).map_values(
            |t: TaskModel| reread(t, now),
        )).to_multiset() == ts.map_values(|t: TaskModel| reread(t, now)).to_multiset(),
    decreases ts.len(),
{
    broadcast use vstd::seq_lib::lemma_multiset_commutative, vstd::seq_lib::to_multiset_build;
    broadcast use vstd::multiset::group_multiset_axioms;

    reveal(Seq::filter);
    let f = |t: TaskModel| reread(t, now);
    if ts.len() == 0 {
        assert(pending(ts) =~= Seq::<TaskModel>::empty());
        assert(finished(ts) =~= Seq::<TaskModel>::empty());
        assert(pending(ts).map_values(f) + finished(ts).map_values(f) =~= ts.map_values(f));
    } else {
        let p = ts.drop_last();
        let x = ts.last();
        lemma_split_multiset(p, now);
        assert(ts.map_values(f) =~= p.map_values(f).push(f(x)));
        let a = pending(p).map_values(f);
        let b = finished(p).map_values(f);
        if x.status == TaskStatus::Todo {
            assert(pending(ts) == pending(p).push(x));
            assert(finished(ts) == finished(p));
            assert(pending(ts).map_values(f) =~= a.push(f(x)));
            assert((a.push(f(x)) + b).to_multiset() =~= (a + b).to_multiset().insert(f(x)));
        } else {
            assert(pending(ts) == pending(p));
            assert(finished(ts) == finished(p).push(x));
            assert(finished(ts).map_values(f) =~= b.push(f(x)));
            assert(a + b.push(f(x)) =~= (a + b).push(f(x)));
        }
    }
}

/// Writing tasks and reading the text back gives the pending tasks, then the
/// finished ones, each in collection order and otherwise unchanged, except
/// that each time is what chrono reads from its written text
/// (`Timestamp::parse` states that this is the time itself). This holds when
/// every title is non-empty, on one line and free of `<!--`, and every time
/// can be written. Counted with repeats, the tasks read back are the tasks
/// written, each read back so.
pub proof fn law_round_trip(ts: Seq<TaskModel>, now: Timestamp)
    requires
        forall|i: int| 0 <= i < ts.len() ==> writable(#[trigger] ts[i]),
    ensures
        tasks_of(document(ts), now) == pending(ts).map_values(|t: TaskModel| reread(t, now))
            + finished(ts).map_values(|t: TaskModel| reread(t, now)),
        tasks_of(document(ts), now).to_multiset() == ts.map_values(
            |t: TaskModel| reread(t, now),
        ).to_multiset(),
{
    lemma_split_multiset(ts, now);
    let p = pending(ts);
    let f = finished(ts);
    lemma_filter_writable(ts, |t: TaskModel| t.status == TaskStatus::Todo);
    lemma_filter_writable(ts, |t: TaskModel| t.status == TaskStatus::Done);
    let rp = record_lines(p);
    let rf = record_lines(f);
    let h1 = todo_heading_lines();
    let h2 = done_heading_lines();
    lemma_todo_heading(now);
    lemma_done_heading(now);
    lemma_block(p);
    lemma_block(f);
    lemma_records_read(p, now);
    lemma_records_read(f, now);
    let all = h1 + rp + h2 + rf;
    lemma_joined_concat(h1, rp);
    lemma_joined_concat(h1 + rp, h2);
    lemma_joined_concat(h1 + rp + h2, rf);
    let doc = document(ts);
    assert(doc =~= joined(all));
    assert forall|i: int| 0 <= i < all.len() implies no_break(#[trigger] all[i]) by {
        if i < h1.len() {
            assert(all[i] == h1[i]);
        } else if i < h1.len() + rp.len() {
            assert(all[i] == rp[i - h1.len()]);
        } else if i < h1.len() + rp.len() + h2.len() {
            assert(all[i] == h2[i - h1.len() - rp.len()]);
        } else {
            assert(all[i] == rf[i - h1.len() - rp.len() - h2.len()]);
        }
    }
    assert(doc.subrange(0, doc.len() as int) =~= doc);
    lemma_lines_of_joined(doc, 0, all);
    lemma_tasks_concat(h1, rp, now);
    lemma_tasks_concat(h1 + rp, h2, now);
    lemma_tasks_concat(h1 + rp + h2, rf, now);
    assert(tasks_of(doc, now) =~= p.map_values(|t: TaskModel| reread(t, now)) + f.map_values(
        |t: TaskModel| reread(t, now),
    ));
}

} // verus!
