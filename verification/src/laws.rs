//! What holds of every text and every tree.

use vstd::prelude::*;
use crate::builder::{last_of, stars, task_of};
use crate::meaning::{
    fragment_at, fragments, lemma_last_of_none, meaning, priority_for,
    written_task, written_tasks,
};
use crate::model::{ParseErrorView, PartView, Rule, Status, TaskView, Tree};
use crate::syntax::{
    at_line_end, char_at, in_order, is_break, is_digit, is_space, lemma_line_stop, lemma_part_end,
    lemma_parts_in_order, lemma_skip_spaces, lemma_text_stop, lemma_trim_end, lemma_word_stop,
    line_stop, marker, next_line, part_end, part_rule, part_starts_at, part_tree, parts,
    skip_spaces, star_run, status_at, status_len, status_start, status_written_at, task_at,
    text_stop, word_stop,
};
use crate::order::{
    first_due_date, first_start_date, insert_by, not_after, sorted_by, text_le, SortMode,
};

verus! {

/// A status as it is written: its marker between brackets.
pub open spec fn status_text(status: Status) -> Seq<char> {
    seq!['['] + marker(status) + seq![']']
}

/// A line that holds a priority of `n` stars, where `n` is not zero, and a
/// status, and nothing else.
pub open spec fn bare_line(n: nat, status: Status) -> Seq<char> {
    if n == 0 {
        status_text(status)
    } else {
        stars(n) + seq![' '] + status_text(status)
    }
}

/// The task with a priority and a status and an empty description.
pub open spec fn bare_task(n: nat, status: Status) -> TaskView {
    TaskView { priority: priority_for(n as int), status, description: Seq::empty() }
}

/// The characters of a status as it is written.
pub proof fn lemma_status_text(status: Status)
    ensures
        status_text(status).len() == status_len(status),
        status_text(status)[0] == '[',
        status_text(status)[status_len(status) - 1] == ']',
        forall|j: int|
            0 <= j < marker(status).len() ==> #[trigger] status_text(status)[j + 1] == marker(
                status,
            )[j],
        forall|j: int|
            0 <= j < status_len(status) ==> !is_break(#[trigger] status_text(status)[j])
                && !is_space(status_text(status)[j]) && status_text(status)[j] != '*',
{
    match status {
        Status::Done => {
            assert(status_text(status) =~= seq!['[', 'D', 'O', 'N', 'E', ']']);
        },
        Status::Todo => {
            assert(status_text(status) =~= seq!['[', 'T', 'O', 'D', 'O', ']']);
        },
        Status::Doing => {
            assert(status_text(status) =~= seq!['[', 'D', 'O', 'I', 'N', 'G', ']']);
        },
    }
}

/// Where a status is written at `k`, it is the status that is found there.
pub proof fn lemma_status_found(s: Seq<char>, k: int, status: Status)
    requires
        0 <= k,
        k + status_len(status) <= s.len(),
        s.subrange(k, k + status_len(status)) == status_text(status),
    ensures
        status_at(s, k) == Some(status),
{
    let t = status_text(status);
    let w = marker(status);
    lemma_status_text(status);
    assert forall|j: int| 0 <= j < status_len(status) implies s[k + j] == #[trigger] t[j] by {
        assert(s.subrange(k, k + status_len(status))[j] == s[k + j]);
    }
    assert(s[k + 0] == t[0]);
    assert(s[k + (status_len(status) - 1)] == t[status_len(status) - 1]);
    assert forall|j: int| 0 <= j < w.len() implies s[k + 1 + j] == #[trigger] w[j] by {
        assert(s[k + (j + 1)] == t[j + 1]);
    }
    assert(s.subrange(k + 1, k + 1 + w.len()) =~= w);
    assert(status_written_at(s, k, status));
    assert(s[k + 1] == w[0] && s[k + 3] == w[2]);
    if status != Status::Done && status_written_at(s, k, Status::Done) {
        let sub = s.subrange(k + 1, k + 1 + marker(Status::Done).len());
        assert(sub[0] == s[k + 1] && sub[2] == s[k + 3]);
    }
    if status == Status::Doing && status_written_at(s, k, Status::Todo) {
        let sub = s.subrange(k + 1, k + 1 + marker(Status::Todo).len());
        assert(sub[0] == s[k + 1]);
    }
}

/// The characters of a line of stars and a status.
pub proof fn lemma_bare_line(n: nat, status: Status)
    requires
        n <= 3,
    ensures
        bare_line(n, status).len() == (if n == 0 {
            0
        } else {
            n + 1
        }) + status_len(status),
        forall|i: int| 0 <= i < n ==> #[trigger] bare_line(n, status)[i] == '*',
        n > 0 ==> bare_line(n, status)[n as int] == ' ',
        forall|i: int| 0 <= i < bare_line(n, status).len() ==> !is_break(#[trigger] bare_line(n, status)[i]),
        bare_line(n, status).subrange(
            bare_line(n, status).len() - status_len(status),
            bare_line(n, status).len() as int,
        ) == status_text(status),
{
    let s = bare_line(n, status);
    let t = status_text(status);
    lemma_status_text(status);
    if n == 0 {
        assert(s.subrange(0, s.len() as int) =~= t);
    } else {
        let k = n + 1;
        assert(s.len() == k + t.len());
        assert forall|i: int| 0 <= i < s.len() implies !is_break(#[trigger] s[i]) by {
            if i >= k {
                assert(s[i] == t[i - k]);
            }
        }
        assert(s.subrange(k as int, s.len() as int) =~= t);
    }
}

/// A line that holds up to three stars and a status is one task with that
/// status, with the priority of the stars, none where there is no star, and
/// with an empty description.
pub proof fn law_bare_line(n: nat, status: Status)
    requires
        n <= 3,
    ensures
        meaning(bare_line(n, status)) == Ok::<Seq<TaskView>, ParseErrorView>(
            seq![bare_task(n, status)],
        ),
{
    let s = bare_line(n, status);
    let m = n as int;
    let len = s.len() as int;
    let k = len - status_len(status);
    lemma_bare_line(n, status);
    lemma_status_text(status);
    lemma_status_found(s, k, status);
    assert(s[k] == status_text(status)[0]) by {
        assert(s.subrange(k, len)[0] == s[k]);
    }
    assert(star_run(s, 0) == m) by {
        if m > 0 {
            assert(s[0] == '*');
        }
        if m > 1 {
            assert(s[1] == '*');
        }
        if m > 2 {
            assert(s[2] == '*');
        }
    }
    assert(skip_spaces(s, 0) == 0);
    assert(status_start(s, 0) == k) by {
        if m > 0 {
            assert(is_space(s[m]));
            assert(skip_spaces(s, k) == k);
            assert(skip_spaces(s, m) == k);
        }
    }
    assert(skip_spaces(s, len) == len);
    assert(fragments(s, len) =~= Seq::<PartView>::empty());
    assert(written_task(s, 0) == Ok::<TaskView, ParseErrorView>(bare_task(n, status)));
    lemma_same_line(s, 0, len);
    assert(line_stop(s, len) == len);
    assert(next_line(s, 0) == len);
    assert(written_tasks(s, len) == Ok::<Seq<TaskView>, ParseErrorView>(Seq::empty()));
    assert(seq![bare_task(n, status)] + Seq::<TaskView>::empty() =~= seq![bare_task(n, status)]);
}

/// Each of the three statuses, alone on the only line of a text, is one
/// task with that status, without a priority and with an empty description.
pub proof fn law_status_alone(status: Status)
    ensures
        meaning(status_text(status)) == Ok::<Seq<TaskView>, ParseErrorView>(
            seq![TaskView { priority: None, status, description: Seq::empty() }],
        ),
{
    law_bare_line(0, status);
}

/// The priority of a task is that of the stars its line starts with: the
/// lowest for one, the highest for three, none for none.
pub proof fn law_priority_of_stars(s: Seq<char>, p: int)
    ensures
        written_task(s, p) matches Ok(task) ==> task.priority == priority_for(star_run(s, p)),
        0 <= star_run(s, p) <= 3,
{
}

/// The fragments of a description stand in the order in which they are
/// written: there is one for each part that the grammar finds on the line,
/// each holds the text of its part, and each part ends before the next one
/// starts.
pub proof fn law_description_order(s: Seq<char>, p: int)
    requires
        0 <= p <= s.len(),
    ensures
        fragments(s, p).len() == parts(s, p).len(),
        in_order(parts(s, p), p, s.len() as int),
        forall|i: int|
            0 <= i < parts(s, p).len() ==> (#[trigger] fragments(s, p)[i]) == fragment_at(
                s,
                parts(s, p)[i].start,
            ) && parts(s, p)[i].end == part_end(s, parts(s, p)[i].start),
    decreases s.len() - p,
{
    lemma_parts_in_order(s, p);
    let q = skip_spaces(s, p);
    lemma_skip_spaces(s, p);
    if !at_line_end(s, q) {
        let e = part_end(s, q);
        lemma_part_end(s, q);
        law_description_order(s, e);
        let all = parts(s, p);
        let rest = parts(s, e);
        assert(all == seq![part_tree(s, q)] + rest);
        assert(fragments(s, p) == seq![fragment_at(s, q)] + fragments(s, e));
        assert forall|i: int| 0 <= i < all.len() implies (#[trigger] fragments(s, p)[i])
            == fragment_at(s, all[i].start) && all[i].end == part_end(s, all[i].start) by {
            if i > 0 {
                assert(all[i] == rest[i - 1]);
                assert(fragments(s, p)[i] == fragments(s, e)[i - 1]);
            }
        }
    }
}

/// A tag takes letters of every script: whatever stands behind the `+`,
/// up to the next space or line end, belongs to it, and the fragment holds
/// all of it.
pub proof fn law_tag_letters(s: Seq<char>, p: int)
    requires
        char_at(s, p, '+'),
        p + 1 < s.len(),
        !is_space(s[p + 1]),
        !is_break(s[p + 1]),
    ensures
        fragment_at(s, p) == PartView::Tag(s.subrange(p, word_stop(s, p + 1))),
        p + 1 < word_stop(s, p + 1) <= s.len(),
        at_line_end(s, word_stop(s, p + 1)) || is_space(s[word_stop(s, p + 1)]),
        forall|i: int| p < i < word_stop(s, p + 1) ==> !is_space(#[trigger] s[i]) && !is_break(s[i]),
{
    lemma_word_stop(s, p + 1);
}

/// Where the tasks of the lines from `p` on start: behind the leading
/// spaces of each line that holds more than spaces.
pub open spec fn task_starts(s: Seq<char>, p: int) -> Seq<int>
    decreases s.len() - p,
    via task_starts_decreases
{
    if p < 0 || p >= s.len() {
        Seq::empty()
    } else if at_line_end(s, skip_spaces(s, p)) {
        task_starts(s, next_line(s, p))
    } else {
        seq![skip_spaces(s, p)] + task_starts(s, next_line(s, p))
    }
}

#[via_fn]
proof fn task_starts_decreases(s: Seq<char>, p: int) {
    if !(p < 0 || p >= s.len()) {
        lemma_line_stop(s, p);
    }
}

/// A text that parses holds exactly one task for each of its lines that
/// holds more than spaces, in the order of the lines: the task at each
/// place is the one written on the line of that place, and the lines
/// follow each other in the text.
pub proof fn law_one_task_per_line(s: Seq<char>, p: int)
    requires
        0 <= p <= s.len(),
    ensures
        forall|i: int| 0 <= i < task_starts(s, p).len() ==> p <= #[trigger] task_starts(s, p)[i] < s.len(),
        forall|i: int, j: int|
            0 <= i < j < task_starts(s, p).len() ==> #[trigger] task_starts(s, p)[i]
                < #[trigger] task_starts(s, p)[j],
        written_tasks(s, p) matches Ok(tasks) ==> {
            &&& tasks.len() == task_starts(s, p).len()
            &&& forall|i: int|
                0 <= i < tasks.len() ==> written_task(s, task_starts(s, p)[i]) == Ok::<
                    TaskView,
                    ParseErrorView,
                >(#[trigger] tasks[i])
        },
    decreases s.len() - p,
{
    if p < s.len() {
        let q = skip_spaces(s, p);
        let next = next_line(s, p);
        lemma_skip_spaces(s, p);
        lemma_line_stop(s, p);
        law_one_task_per_line(s, next);
        let starts = task_starts(s, p);
        let later = task_starts(s, next);
        if !at_line_end(s, q) {
            assert(starts == seq![q] + later);
            assert(q < next) by {
                lemma_skip_stays_on_line(s, p);
            }
            assert forall|i: int| 0 <= i < starts.len() implies p <= #[trigger] starts[i]
                < s.len() by {
                if i > 0 {
                    assert(starts[i] == later[i - 1]);
                }
            }
            assert forall|i: int, j: int| 0 <= i < j < starts.len() implies #[trigger] starts[i]
                < #[trigger] starts[j] by {
                assert(starts[j] == later[j - 1]);
                if i > 0 {
                    assert(starts[i] == later[i - 1]);
                }
            }
            if let Ok(tasks) = written_tasks(s, p) {
                let first = written_task(s, q)->Ok_0;
                let rest = written_tasks(s, next)->Ok_0;
                assert(tasks == seq![first] + rest);
                assert forall|i: int| 0 <= i < tasks.len() implies written_task(s, starts[i])
                    == Ok::<TaskView, ParseErrorView>(#[trigger] tasks[i]) by {
                    if i > 0 {
                        assert(starts[i] == later[i - 1]);
                        assert(tasks[i] == rest[i - 1]);
                    }
                }
            }
        }
    }
}

/// The spaces that a line starts with end before the line does.
pub proof fn lemma_skip_stays_on_line(s: Seq<char>, p: int)
    requires
        0 <= p <= s.len(),
    ensures
        skip_spaces(s, p) <= line_stop(s, p),
    decreases s.len() - p,
{
    if p < s.len() && is_space(s[p]) {
        lemma_skip_stays_on_line(s, p + 1);
    } else {
        lemma_line_stop(s, p);
    }
}

/// A text never lacks a status or a tree: whatever is wrong with it is a
/// syntax error.
pub proof fn law_only_syntax_errors(s: Seq<char>, p: int)
    requires
        0 <= p <= s.len(),
    ensures
        written_tasks(s, p) matches Err(e) ==> e is Syntax,
    decreases s.len() - p,
{
    if p < s.len() {
        lemma_line_stop(s, p);
        law_only_syntax_errors(s, next_line(s, p));
    }
}

/// A line that holds more than spaces and no status where one has to stand
/// is refused, with a syntax error at that place.
pub proof fn law_line_without_status(s: Seq<char>, p: int)
    requires
        0 <= p < s.len(),
        !at_line_end(s, skip_spaces(s, p)),
        status_at(s, status_start(s, skip_spaces(s, p))) is None,
    ensures
        written_tasks(s, p) matches Err(ParseErrorView::Syntax(f)) && f.position == status_start(
            s,
            skip_spaces(s, p),
        ),
{
}

/// A task's tree stands for no task, and gives the error of the missing
/// status, exactly where no status is among its fields.
pub proof fn law_missing_status(t: Tree)
    ensures
        task_of(t) == Err::<TaskView, ParseErrorView>(ParseErrorView::MissingStatus) <==> forall|
            i: int,
        |
            0 <= i < t.children.len() ==> (#[trigger] t.children[i]).rule != Rule::Status,
        task_of(t) is Ok <==> exists|i: int|
            0 <= i < t.children.len() && (#[trigger] t.children[i]).rule == Rule::Status,
{
    let ts = t.children;
    if forall|i: int| 0 <= i < ts.len() ==> (#[trigger] ts[i]).rule != Rule::Status {
        lemma_last_of_none(ts, Rule::Status);
    } else {
        let i = choose|i: int| 0 <= i < ts.len() && (#[trigger] ts[i]).rule == Rule::Status;
        lemma_last_of_some(ts, Rule::Status, i);
    }
}

/// Where some tree of `ts` has the rule, `last_of` finds one.
pub proof fn lemma_last_of_some(ts: Seq<Tree>, rule: Rule, i: int)
    requires
        0 <= i < ts.len(),
        ts[i].rule == rule,
    ensures
        last_of(ts, rule) is Some,
    decreases ts.len(),
{
    if ts.last().rule != rule {
        lemma_last_of_some(ts.drop_last(), rule, i);
    }
}

/// The empty text holds no task, and is no error.
pub proof fn law_empty_input()
    ensures
        meaning(Seq::empty()) == Ok::<Seq<TaskView>, ParseErrorView>(Seq::empty()),
{
}

/// A text of spaces and line breaks holds no task, and is no error.
pub proof fn law_blank_input(s: Seq<char>, p: int)
    requires
        0 <= p <= s.len(),
        forall|i: int| p <= i < s.len() ==> is_space(#[trigger] s[i]) || is_break(s[i]),
    ensures
        written_tasks(s, p) == Ok::<Seq<TaskView>, ParseErrorView>(Seq::empty()),
    decreases s.len() - p,
{
    if p < s.len() {
        lemma_skip_spaces(s, p);
        lemma_line_stop(s, p);
        law_blank_input(s, next_line(s, p));
    }
}

/// A line of spaces only, wherever it stands, adds nothing to the tasks of
/// a text.
pub proof fn law_blank_line_dropped(s: Seq<char>, p: int)
    requires
        0 <= p < s.len(),
        at_line_end(s, skip_spaces(s, p)),
    ensures
        written_tasks(s, p) == written_tasks(s, next_line(s, p)),
{
}

/// Where no break stands between `p` and `e`, the line of `p` ends where
/// that of `e` ends.
pub proof fn lemma_same_line(s: Seq<char>, p: int, e: int)
    requires
        0 <= p <= e <= s.len(),
        forall|i: int| p <= i < e ==> !is_break(#[trigger] s[i]),
    ensures
        line_stop(s, p) == line_stop(s, e),
    decreases e - p,
{
    if p < e {
        lemma_same_line(s, p + 1, e);
    }
}

/// A description part holds no break: it ends on the line on which it
/// starts.
pub proof fn lemma_part_on_line(s: Seq<char>, p: int)
    requires
        part_starts_at(s, p),
    ensures
        line_stop(s, part_end(s, p)) == line_stop(s, p),
{
    let e = part_end(s, p);
    lemma_part_end(s, p);
    lemma_word_stop(s, p + 1);
    lemma_text_stop(s, p + 1);
    lemma_trim_end(s, p + 1, text_stop(s, p + 1));
    assert forall|i: int| p <= i < e implies !is_break(#[trigger] s[i]) by {
        if i > p {
            match part_rule(s, p) {
                Rule::Tag => {},
                Rule::DueDate | Rule::StartDate => {
                    let d = i - p - 1;
                    assert(0 <= d < 10);
                    assert(is_digit(s[p + 1 + d]) || s[p + 1 + d] == '-');
                },
                _ => {},
            }
        }
    }
    lemma_same_line(s, p, e);
}

/// Where the parts of the line from `p` on end: behind the last of them,
/// or at `p` where there is none.
pub open spec fn parts_end(s: Seq<char>, p: int) -> int {
    if parts(s, p).len() > 0 {
        parts(s, p).last().end
    } else {
        p
    }
}

/// The parts of a line reach its end: only spaces stand between the last
/// of them and the end of the line.
pub proof fn lemma_parts_fill_line(s: Seq<char>, p: int)
    requires
        0 <= p <= s.len(),
    ensures
        p <= parts_end(s, p) <= s.len(),
        skip_spaces(s, parts_end(s, p)) == line_stop(s, p),
    decreases s.len() - p,
{
    let q = skip_spaces(s, p);
    lemma_skip_spaces(s, p);
    lemma_same_line(s, p, q);
    lemma_line_stop(s, q);
    if !at_line_end(s, q) {
        let e = part_end(s, q);
        lemma_part_end(s, q);
        lemma_part_on_line(s, q);
        lemma_parts_fill_line(s, e);
        let rest = parts(s, e);
        let all = parts(s, p);
        assert(all == seq![part_tree(s, q)] + rest);
        if rest.len() > 0 {
            assert(all.last() == rest.last());
        } else {
            assert(all.last() == part_tree(s, q));
        }
    }
}

/// A task fills its line: it starts where it is looked for, and only
/// spaces stand between its end and the end of the line.
pub proof fn law_task_fills_line(s: Seq<char>, p: int)
    requires
        0 <= p <= s.len(),
    ensures
        task_at(s, p) matches Ok(t) ==> t.start == p && p < t.end <= s.len() && skip_spaces(
            s,
            t.end,
        ) == line_stop(s, p),
{
    let n = star_run(s, p);
    let k = status_start(s, p);
    if n > 0 {
        lemma_skip_spaces(s, p + n);
    }
    if let Some(status) = status_at(s, k) {
        let e = k + status_len(status);
        let w = marker(status);
        let sub = s.subrange(k + 1, k + 1 + w.len());
        assert forall|i: int| p <= i < e implies !is_break(#[trigger] s[i]) by {
            if k < i < e - 1 {
                assert(sub[i - k - 1] == s[i]);
            }
        }
        lemma_same_line(s, p, e);
        lemma_parts_fill_line(s, e);
    }
}

/// Of two texts, one does not come after the other.
pub proof fn lemma_text_le_total(a: Seq<char>, b: Seq<char>)
    ensures
        text_le(a, b) || text_le(b, a),
    decreases a.len(),
{
    if a.len() > 0 && b.len() > 0 && a.first() == b.first() {
        lemma_text_le_total(a.drop_first(), b.drop_first());
    }
}

/// Where `a` does not come after `b`, nor `b` after `c`, `a` does not come
/// after `c`.
pub proof fn lemma_text_le_transitive(a: Seq<char>, b: Seq<char>, c: Seq<char>)
    requires
        text_le(a, b),
        text_le(b, c),
    ensures
        text_le(a, c),
    decreases a.len(),
{
    if a.len() > 0 && b.len() > 0 && c.len() > 0 && a.first() == b.first() && b.first()
        == c.first() {
        lemma_text_le_transitive(a.drop_first(), b.drop_first(), c.drop_first());
    }
}

/// Of two tasks, one does not come after the other, in every order.
pub proof fn lemma_not_after_total(mode: SortMode, a: TaskView, b: TaskView)
    ensures
        not_after(mode, a, b) || not_after(mode, b, a),
{
    match mode {
        SortMode::Start => {
            if let (Some(x), Some(y)) = (
                first_start_date(a.description),
                first_start_date(b.description),
            ) {
                lemma_text_le_total(x, y);
            }
        },
        SortMode::Due => {
            if let (Some(x), Some(y)) = (
                first_due_date(a.description),
                first_due_date(b.description),
            ) {
                lemma_text_le_total(x, y);
            }
        },
        _ => {},
    }
}

/// Where `a` does not come after `b`, nor `b` after `c`, `a` does not come
/// after `c`, in every order.
pub proof fn lemma_not_after_transitive(mode: SortMode, a: TaskView, b: TaskView, c: TaskView)
    requires
        not_after(mode, a, b),
        not_after(mode, b, c),
    ensures
        not_after(mode, a, c),
{
    match mode {
        SortMode::Start => {
            if let (Some(x), Some(y), Some(z)) = (
                first_start_date(a.description),
                first_start_date(b.description),
                first_start_date(c.description),
            ) {
                lemma_text_le_transitive(x, y, z);
            }
        },
        SortMode::Due => {
            if let (Some(x), Some(y), Some(z)) = (
                first_due_date(a.description),
                first_due_date(b.description),
                first_due_date(c.description),
            ) {
                lemma_text_le_transitive(x, y, z);
            }
        },
        _ => {},
    }
}

/// No task of `tasks` comes after one that stands behind it.
pub open spec fn ordered(mode: SortMode, tasks: Seq<TaskView>) -> bool {
    forall|i: int, j: int|
        0 <= i < j < tasks.len() ==> not_after(mode, #[trigger] tasks[i], #[trigger] tasks[j])
}

/// Putting a task into an ordered list keeps it ordered, and adds that task
/// and nothing else.
pub proof fn lemma_insert_by(mode: SortMode, sorted: Seq<TaskView>, x: TaskView)
    requires
        ordered(mode, sorted),
    ensures
        ordered(mode, insert_by(mode, sorted, x)),
        insert_by(mode, sorted, x).to_multiset() == sorted.to_multiset().insert(x),
        insert_by(mode, sorted, x).len() == sorted.len() + 1,
        forall|i: int|
            0 <= i < sorted.len() + 1 ==> #[trigger] insert_by(mode, sorted, x)[i] == x
                || sorted.contains(insert_by(mode, sorted, x)[i]),
    decreases sorted.len(),
{
    broadcast use vstd::seq_lib::to_multiset_build;

    let r = insert_by(mode, sorted, x);
    if sorted.len() == 0 {
        assert(sorted =~= Seq::<TaskView>::empty());
        assert(r =~= sorted.push(x));
        assert(r.to_multiset() =~= sorted.to_multiset().insert(x));
    } else if not_after(mode, sorted.last(), x) {
        assert(r == sorted.push(x));
        assert(r.to_multiset() =~= sorted.to_multiset().insert(x));
        assert forall|i: int, j: int| 0 <= i < j < r.len() implies not_after(
            mode,
            #[trigger] r[i],
            #[trigger] r[j],
        ) by {
            if j == sorted.len() && i < sorted.len() - 1 {
                lemma_not_after_transitive(mode, sorted[i], sorted.last(), x);
            }
        }
        assert forall|i: int| 0 <= i < sorted.len() + 1 implies #[trigger] r[i] == x
            || sorted.contains(r[i]) by {
            if i < sorted.len() {
                assert(sorted[i] == r[i]);
            }
        }
    } else {
        let head = sorted.drop_last();
        let last = sorted.last();
        lemma_insert_by(mode, head, x);
        let inner = insert_by(mode, head, x);
        lemma_not_after_total(mode, last, x);
        assert forall|i: int, j: int| 0 <= i < j < r.len() implies not_after(
            mode,
            #[trigger] r[i],
            #[trigger] r[j],
        ) by {
            if j == inner.len() {
                if inner[i] != x {
                    assert(head.contains(inner[i]));
                    let k = choose|k: int| 0 <= k < head.len() && head[k] == inner[i];
                    assert(sorted[k] == inner[i]);
                }
            }
        }
        assert(sorted =~= head.push(last));
        assert(r == inner.push(last));
        assert(inner.to_multiset() =~= head.to_multiset().insert(x));
        assert(r.to_multiset() =~= inner.to_multiset().insert(last));
        assert(sorted.to_multiset() =~= head.to_multiset().insert(last));
        assert(r.to_multiset() =~= sorted.to_multiset().insert(x));
        assert forall|i: int| 0 <= i < sorted.len() + 1 implies #[trigger] r[i] == x
            || sorted.contains(r[i]) by {
            if i < inner.len() {
                if inner[i] != x {
                    let k = choose|k: int| 0 <= k < head.len() && head[k] == inner[i];
                    assert(sorted[k] == r[i]);
                }
            } else {
                assert(sorted[sorted.len() - 1] == r[i]);
            }
        }
    }
}

/// A sorted list is in order: none of its tasks comes after one that
/// stands behind it.
pub proof fn law_sorted_in_order(mode: SortMode, tasks: Seq<TaskView>)
    ensures
        ordered(mode, sorted_by(mode, tasks)),
    decreases tasks.len(),
{
    if tasks.len() > 0 {
        law_sorted_in_order(mode, tasks.drop_last());
        lemma_insert_by(mode, sorted_by(mode, tasks.drop_last()), tasks.last());
    }
}

/// A sorted list holds the tasks that were given, each as often as it was
/// given, and no others.
pub proof fn law_sorted_same_tasks(mode: SortMode, tasks: Seq<TaskView>)
    ensures
        sorted_by(mode, tasks).to_multiset() == tasks.to_multiset(),
        sorted_by(mode, tasks).len() == tasks.len(),
    decreases tasks.len(),
{
    broadcast use vstd::seq_lib::to_multiset_build;

    if tasks.len() > 0 {
        law_sorted_same_tasks(mode, tasks.drop_last());
        law_sorted_in_order(mode, tasks.drop_last());
        lemma_insert_by(mode, sorted_by(mode, tasks.drop_last()), tasks.last());
        assert(tasks =~= tasks.drop_last().push(tasks.last()));
    } else {
        assert(sorted_by(mode, tasks) =~= tasks);
    }
}

/// Sorting by no order leaves the list as it is.
pub proof fn law_unsorted_unchanged(tasks: Seq<TaskView>)
    ensures
        sorted_by(SortMode::Unsorted, tasks) == tasks,
    decreases tasks.len(),
{
    if tasks.len() > 0 {
        law_unsorted_unchanged(tasks.drop_last());
        let head = tasks.drop_last();
        assert(insert_by(SortMode::Unsorted, head, tasks.last()) == head.push(tasks.last()));
        assert(tasks =~= head.push(tasks.last()));
    } else {
        assert(sorted_by(SortMode::Unsorted, tasks) =~= tasks);
    }
}

} // verus!
