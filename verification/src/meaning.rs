//! What a text means as a task list, said without any tree, and the proof
//! that walking the grammar's tree gives exactly that.

use vstd::prelude::*;
use crate::builder::{
    description_of, description_shaped, field_shaped, file_shaped, last_of, line_shaped, part_of,
    part_shaped, priority_of, priority_shaped, stars, status_of, status_shaped, task_description,
    task_of, task_priority, task_shaped, task_status, tasks_of, file_tasks,
};
use crate::model::{ParseErrorView, PartView, Priority, Rule, Status, TaskView, Tree};
use crate::syntax::{
    at_line_end, description_tree, failure, lemma_part_end, lemma_skip_spaces, line_at,
    lines, next_line, part_end, part_rule, part_tree, parts, priority_tree, skip_spaces, star_run,
    status_at, status_expected, status_len, status_start, status_tree, task_at, lemma_line_stop,
    file_tree,
};

verus! {

/// The priority that a run of `n` stars stands for; none for no star.
pub open spec fn priority_for(n: int) -> Option<Priority> {
    if n == 1 {
        Some(Priority::P3)
    } else if n == 2 {
        Some(Priority::P2)
    } else if n == 3 {
        Some(Priority::P1)
    } else {
        None
    }
}

/// The fragment written at `p`: its kind, and its text as it stands in `s`,
/// marker included.
pub open spec fn fragment_at(s: Seq<char>, p: int) -> PartView {
    let text = s.subrange(p, part_end(s, p));
    match part_rule(s, p) {
        Rule::Tag => PartView::Tag(text),
        Rule::DueDate => PartView::DueDate(text),
        Rule::StartDate => PartView::StartDate(text),
        _ => PartView::Text(text),
    }
}

/// The fragments written between `p` and the end of its line, from left to
/// right.
pub open spec fn fragments(s: Seq<char>, p: int) -> Seq<PartView>
    decreases s.len() - p,
    via fragments_decreases
{
    let q = skip_spaces(s, p);
    if p < 0 || at_line_end(s, q) {
        Seq::empty()
    } else {
        seq![fragment_at(s, q)] + fragments(s, part_end(s, q))
    }
}

#[via_fn]
proof fn fragments_decreases(s: Seq<char>, p: int) {
    let q = skip_spaces(s, p);
    if !(p < 0 || at_line_end(s, q)) {
        lemma_skip_spaces(s, p);
        lemma_part_end(s, q);
    }
}

/// The task written at `p`, or the syntax error of its status missing.
pub open spec fn written_task(s: Seq<char>, p: int) -> Result<TaskView, ParseErrorView> {
    let k = status_start(s, p);
    match status_at(s, k) {
        None => Err(ParseErrorView::Syntax(failure(k, status_expected(s, p)))),
        Some(status) => Ok(
            TaskView {
                priority: priority_for(star_run(s, p)),
                status,
                description: fragments(s, k + status_len(status)),
            },
        ),
    }
}

/// The tasks written from `p` on, one for each line that holds more than
/// spaces, in the order of the lines; or the syntax error of the first line
/// that is no task.
pub open spec fn written_tasks(s: Seq<char>, p: int) -> Result<Seq<TaskView>, ParseErrorView>
    decreases s.len() - p,
    via written_tasks_decreases
{
    if p < 0 || p >= s.len() {
        Ok(Seq::empty())
    } else if at_line_end(s, skip_spaces(s, p)) {
        written_tasks(s, next_line(s, p))
    } else {
        match written_task(s, skip_spaces(s, p)) {
            Err(e) => Err(e),
            Ok(task) => match written_tasks(s, next_line(s, p)) {
                Err(e) => Err(e),
                Ok(rest) => Ok(seq![task] + rest),
            },
        }
    }
}

#[via_fn]
proof fn written_tasks_decreases(s: Seq<char>, p: int) {
    if !(p < 0 || p >= s.len()) {
        lemma_line_stop(s, p);
    }
}

/// The tasks that the text `s` holds.
pub open spec fn meaning(s: Seq<char>) -> Result<Seq<TaskView>, ParseErrorView> {
    written_tasks(s, 0)
}

/// Where no tree of `ts` has the rule, `last_of` finds none.
pub proof fn lemma_last_of_none(ts: Seq<Tree>, rule: Rule)
    requires
        forall|i: int| 0 <= i < ts.len() ==> (#[trigger] ts[i]).rule != rule,
    ensures
        last_of(ts, rule) is None,
    decreases ts.len(),
{
    if ts.len() > 0 {
        lemma_last_of_none(ts.drop_last(), rule);
    }
}

/// Where `ts[i]` has the rule and no tree behind it has, `last_of` finds it.
pub proof fn lemma_last_of_at(ts: Seq<Tree>, rule: Rule, i: int)
    requires
        0 <= i < ts.len(),
        ts[i].rule == rule,
        forall|j: int| i < j < ts.len() ==> (#[trigger] ts[j]).rule != rule,
    ensures
        last_of(ts, rule) == Some(ts[i]),
    decreases ts.len(),
{
    if i < ts.len() - 1 {
        lemma_last_of_at(ts.drop_last(), rule, i);
    }
}

/// The tree of a description part stands for the fragment written there.
pub proof fn lemma_part_meaning(s: Seq<char>, p: int)
    ensures
        part_shaped(part_tree(s, p)),
        part_of(part_tree(s, p)) == fragment_at(s, p),
{
}

/// The trees of the parts of a line stand for the fragments written on it.
pub proof fn lemma_parts_meaning(s: Seq<char>, p: int)
    requires
        0 <= p <= s.len(),
    ensures
        forall|i: int| 0 <= i < parts(s, p).len() ==> part_shaped(#[trigger] parts(s, p)[i]),
        parts(s, p).map_values(|t: Tree| part_of(t)) == fragments(s, p),
    decreases s.len() - p,
{
    let q = skip_spaces(s, p);
    lemma_skip_spaces(s, p);
    if !at_line_end(s, q) {
        let e = part_end(s, q);
        lemma_part_end(s, q);
        lemma_parts_meaning(s, e);
        lemma_part_meaning(s, q);
        let all = parts(s, p);
        let rest = parts(s, e);
        assert(all == seq![part_tree(s, q)] + rest);
        assert forall|i: int| 0 <= i < all.len() implies part_shaped(#[trigger] all[i]) by {
            if i > 0 {
                assert(all[i] == rest[i - 1]);
            }
        }
        assert(all.map_values(|t: Tree| part_of(t)) =~= seq![fragment_at(s, q)] + rest.map_values(
            |t: Tree| part_of(t),
        ));
    } else {
        assert(parts(s, p).map_values(|t: Tree| part_of(t)) =~= fragments(s, p));
    }
}

/// The tree of a priority holds its stars, and stands for the priority of
/// their number.
pub proof fn lemma_priority_meaning(s: Seq<char>, p: int)
    requires
        0 <= p,
        star_run(s, p) > 0,
    ensures
        priority_shaped(priority_tree(s, p, star_run(s, p))),
        Some(priority_of(priority_tree(s, p, star_run(s, p)))) == priority_for(star_run(s, p)),
{
    let t = priority_tree(s, p, star_run(s, p));
    assert(t.text =~= stars(t.text.len()));
}

/// The tree of a task stands for the task written there, and where there is
/// no tree the failure is the syntax error of the missing status.
pub proof fn lemma_task_meaning(s: Seq<char>, p: int)
    requires
        0 <= p <= s.len(),
    ensures
        match task_at(s, p) {
            Ok(t) => t.rule == Rule::Task && task_shaped(t) && task_of(t) == written_task(s, p),
            Err(f) => written_task(s, p) == Err::<TaskView, ParseErrorView>(
                ParseErrorView::Syntax(f),
            ),
        },
{
    let n = star_run(s, p);
    let k = status_start(s, p);
    if n > 0 {
        lemma_skip_spaces(s, p + n);
    }
    if let Some(status) = status_at(s, k) {
        let e = k + status_len(status);
        let ps = parts(s, e);
        lemma_parts_meaning(s, e);
        let t = task_at(s, p)->Ok_0;
        let ts = t.children;
        let st = status_tree(s, k, status);
        let at_status: int = if n > 0 {
            1
        } else {
            0
        };
        assert(ts[at_status] == st);
        assert(status_shaped(st) && status_of(st) == status);
        if n > 0 {
            lemma_priority_meaning(s, p);
            assert(ts[0] == priority_tree(s, p, n));
            lemma_last_of_at(ts, Rule::Priority, 0);
        } else {
            lemma_last_of_none(ts, Rule::Priority);
        }
        lemma_last_of_at(ts, Rule::Status, at_status);
        if ps.len() > 0 {
            let d = description_tree(s, ps);
            assert(ts[at_status + 1] == d);
            assert(description_shaped(d));
            assert(description_of(d) == fragments(s, e));
            lemma_last_of_at(ts, Rule::Description, at_status + 1);
        } else {
            lemma_last_of_none(ts, Rule::Description);
            assert(fragments(s, e) =~= Seq::<PartView>::empty());
        }
        assert forall|i: int| 0 <= i < ts.len() implies field_shaped(#[trigger] ts[i]) by {
            if i == at_status {
            } else if i < at_status {
            } else {
            }
        }
        assert(task_priority(ts) == priority_for(n));
        assert(task_status(ts) == Some(status));
        assert(task_description(ts) == fragments(s, e));
    }
}

/// The tasks of a sequence of lines, read from its first line on.
pub proof fn lemma_tasks_of_front(t: Tree, rest: Seq<Tree>)
    ensures
        tasks_of(seq![t] + rest) == if t.rule == Rule::Task {
            match task_of(t) {
                Err(e) => Err(e),
                Ok(task) => match tasks_of(rest) {
                    Err(e) => Err(e),
                    Ok(others) => Ok(seq![task] + others),
                },
            }
        } else {
            tasks_of(rest)
        },
    decreases rest.len(),
{
    let all = seq![t] + rest;
    if rest.len() == 0 {
        assert(all.drop_last() =~= Seq::<Tree>::empty());
        assert(all.last() == t);
        assert(rest =~= Seq::<Tree>::empty());
        assert(tasks_of(Seq::<Tree>::empty()) == Ok::<Seq<TaskView>, ParseErrorView>(
            Seq::empty(),
        ));
        if t.rule == Rule::Task {
            if let Ok(task) = task_of(t) {
                assert(Seq::<TaskView>::empty().push(task) =~= seq![task] + Seq::<
                    TaskView,
                >::empty());
            }
        }
    } else {
        assert(all.drop_last() =~= seq![t] + rest.drop_last());
        assert(all.last() == rest.last());
        lemma_tasks_of_front(t, rest.drop_last());
        if t.rule == Rule::Task {
            if let Ok(task) = task_of(t) {
                if let Ok(done) = tasks_of(rest.drop_last()) {
                    if rest.last().rule == Rule::Task {
                        if let Ok(last) = task_of(rest.last()) {
                            assert((seq![task] + done).push(last) =~= seq![task] + done.push(
                                last,
                            ));
                        }
                    }
                }
            }
        }
    }
}

/// The trees of the lines from `p` on stand for the tasks written there,
/// and where there are no trees the failure is the syntax error of the
/// first line that is no task.
pub proof fn lemma_lines_meaning(s: Seq<char>, p: int)
    requires
        0 <= p <= s.len(),
    ensures
        match lines(s, p) {
            Ok(ts) => tasks_of(ts) == written_tasks(s, p) && forall|i: int|
                0 <= i < ts.len() ==> line_shaped(#[trigger] ts[i]),
            Err(f) => written_tasks(s, p) == Err::<Seq<TaskView>, ParseErrorView>(
                ParseErrorView::Syntax(f),
            ),
        },
    decreases s.len() - p,
{
    if p < s.len() {
        let q = skip_spaces(s, p);
        lemma_skip_spaces(s, p);
        lemma_line_stop(s, p);
        lemma_task_meaning(s, q);
        lemma_lines_meaning(s, next_line(s, p));
        if let Ok(t) = line_at(s, p) {
            if let Ok(rest) = lines(s, next_line(s, p)) {
                let ts = seq![t] + rest;
                lemma_tasks_of_front(t, rest);
                assert forall|i: int| 0 <= i < ts.len() implies line_shaped(#[trigger] ts[i]) by {
                    if i > 0 {
                        assert(ts[i] == rest[i - 1]);
                    }
                }
            }
        }
    }
}

/// The tree of a file stands for the tasks that its text holds, and where
/// there is no tree the failure is the text's syntax error.
pub proof fn lemma_file_meaning(s: Seq<char>)
    ensures
        match file_tree(s) {
            Ok(t) => file_shaped(t) && file_tasks(Some(t)) == meaning(s),
            Err(f) => meaning(s) == Err::<Seq<TaskView>, ParseErrorView>(ParseErrorView::Syntax(f)),
        },
{
    lemma_lines_meaning(s, 0);
}

} // verus!
