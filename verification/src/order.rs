//! Sorting a task list: the keys that tasks are ordered by, and the sort.

use vstd::prelude::*;
use crate::model::{part_views, task_views, DescriptionPart, PartView, Priority, Status, Task, TaskView};
use crate::text::chars_of;

verus! {

/// The rank of a priority: the highest comes first, none comes last.
pub open spec fn priority_rank(priority: Option<Priority>) -> u8 {
    match priority {
        Some(Priority::P1) => 0,
        Some(Priority::P2) => 1,
        Some(Priority::P3) => 2,
        None => 3,
    }
}

/// The rank of a status: what is still to do comes first.
pub open spec fn status_rank(status: Status) -> u8 {
    match status {
        Status::Todo => 0,
        Status::Doing => 1,
        Status::Done => 2,
    }
}

/// The first due date among the fragments of a description.
pub open spec fn first_due_date(parts: Seq<PartView>) -> Option<Seq<char>>
    decreases parts.len(),
{
    if parts.len() == 0 {
        None
    } else {
        match parts.first() {
            PartView::DueDate(date) => Some(date),
            _ => first_due_date(parts.drop_first()),
        }
    }
}

/// The first start date among the fragments of a description.
pub open spec fn first_start_date(parts: Seq<PartView>) -> Option<Seq<char>>
    decreases parts.len(),
{
    if parts.len() == 0 {
        None
    } else {
        match parts.first() {
            PartView::StartDate(date) => Some(date),
            _ => first_start_date(parts.drop_first()),
        }
    }
}

/// The value of an optional string.
pub open spec fn text_view(text: Option<String>) -> Option<Seq<char>> {
    match text {
        Some(t) => Some(t@),
        None => None,
    }
}

/// The rank of a priority: the highest comes first, none comes last.
pub fn priority_order(priority: &Option<Priority>) -> (rank: u8)
    ensures
        rank == priority_rank(*priority),
{
    match priority {
        Some(Priority::P1) => 0,
        Some(Priority::P2) => 1,
        Some(Priority::P3) => 2,
        None => 3,
    }
}

/// The rank of a status: what is still to do comes first.
pub fn status_order(status: &Status) -> (rank: u8)
    ensures
        rank == status_rank(*status),
{
    match status {
        Status::Todo => 0,
        Status::Doing => 1,
        Status::Done => 2,
    }
}

/// The first due date in the description of a task, marker included.
pub fn extract_due_date(task: &Task) -> (date: Option<String>)
    ensures
        text_view(date) == first_due_date(task@.description),
{
    let ghost parts = task@.description;
    let mut i: usize = 0;
    assert(parts.skip(0) =~= parts);
    while i < task.description.len()
        invariant
            i <= task.description.len(),
            parts == part_views(task.description@),
            first_due_date(parts.skip(i as int)) == first_due_date(parts),
        decreases task.description.len() - i,
    {
        assert(parts.skip(i as int).first() == task.description@[i as int]@);
        assert(parts.skip(i as int).drop_first() =~= parts.skip(i + 1));
        match &task.description[i] {
            DescriptionPart::DueDate(date) => {
                return Some(date.clone());
            },
            _ => {},
        }
        i += 1;
    }
    None
}

/// The first start date in the description of a task, marker included.
pub fn extract_start_date(task: &Task) -> (date: Option<String>)
    ensures
        text_view(date) == first_start_date(task@.description),
{
    let ghost parts = task@.description;
    let mut i: usize = 0;
    assert(parts.skip(0) =~= parts);
    while i < task.description.len()
        invariant
            i <= task.description.len(),
            parts == part_views(task.description@),
            first_start_date(parts.skip(i as int)) == first_start_date(parts),
        decreases task.description.len() - i,
    {
        assert(parts.skip(i as int).first() == task.description@[i as int]@);
        assert(parts.skip(i as int).drop_first() =~= parts.skip(i + 1));
        match &task.description[i] {
            DescriptionPart::StartDate(date) => {
                return Some(date.clone());
            },
            _ => {},
        }
        i += 1;
    }
    None
}

/// `a` does not come after `b` in the order of dictionaries: at the first
/// place where they differ `a` has the smaller character, or `a` ends
/// there.
pub open spec fn text_le(a: Seq<char>, b: Seq<char>) -> bool
    decreases a.len(),
{
    if a.len() == 0 {
        true
    } else if b.len() == 0 {
        false
    } else if a.first() != b.first() {
        a.first() < b.first()
    } else {
        text_le(a.drop_first(), b.drop_first())
    }
}

/// Tells whether `a` does not come after `b` in the order of dictionaries.
pub fn text_before_or_equal(a: &str, b: &str) -> (le: bool)
    ensures
        le == text_le(a@, b@),
{
    let x = chars_of(a);
    let y = chars_of(b);
    let mut i: usize = 0;
    assert(x@.skip(0) =~= x@ && y@.skip(0) =~= y@);
    while i < x.len() && i < y.len() && x[i] == y[i]
        invariant
            i <= x.len(),
            i <= y.len(),
            x@ == a@,
            y@ == b@,
            text_le(x@.skip(i as int), y@.skip(i as int)) == text_le(a@, b@),
        decreases x.len() - i,
    {
        assert(x@.skip(i as int).drop_first() =~= x@.skip(i + 1));
        assert(y@.skip(i as int).drop_first() =~= y@.skip(i + 1));
        i += 1;
    }
    if i >= x.len() {
        true
    } else if i >= y.len() {
        false
    } else {
        x[i] < y[i]
    }
}

/// What a task list is sorted by.
#[derive(Debug, PartialEq, Eq, Clone, Copy, Structural)]
pub enum SortMode {
    Priority,
    Status,
    Start,
    Due,
    Unsorted,
}

/// The mode that a choice of orders stands for: the first that is asked
/// for, of priority, status, start date and due date.
pub open spec fn chosen_mode(by_priority: bool, by_status: bool, by_start: bool, by_due: bool) -> SortMode {
    if by_priority {
        SortMode::Priority
    } else if by_status {
        SortMode::Status
    } else if by_start {
        SortMode::Start
    } else if by_due {
        SortMode::Due
    } else {
        SortMode::Unsorted
    }
}

/// The name under which a mode is shown.
pub open spec fn mode_label(mode: SortMode) -> Seq<char> {
    match mode {
        SortMode::Priority => "Priority"@,
        SortMode::Status => "Status"@,
        SortMode::Start => "Start Date"@,
        SortMode::Due => "Final date"@,
        SortMode::Unsorted => "just list"@,
    }
}

/// The date `a` does not come after the date `b`; a date that is missing
/// comes after every date that is there.
pub open spec fn date_le(a: Option<Seq<char>>, b: Option<Seq<char>>) -> bool {
    match (a, b) {
        (Some(x), Some(y)) => text_le(x, y),
        (Some(_), None) => true,
        (None, Some(_)) => false,
        (None, None) => true,
    }
}

/// The task `a` does not come after the task `b` in the order of `mode`.
pub open spec fn not_after(mode: SortMode, a: TaskView, b: TaskView) -> bool {
    match mode {
        SortMode::Priority => priority_rank(a.priority) <= priority_rank(b.priority),
        SortMode::Status => status_rank(a.status) <= status_rank(b.status),
        SortMode::Start => date_le(
            first_start_date(a.description),
            first_start_date(b.description),
        ),
        SortMode::Due => date_le(first_due_date(a.description), first_due_date(b.description)),
        SortMode::Unsorted => true,
    }
}

/// `sorted` with `x` put behind the last task that does not come after it.
pub open spec fn insert_by(mode: SortMode, sorted: Seq<TaskView>, x: TaskView) -> Seq<TaskView>
    decreases sorted.len(),
{
    if sorted.len() == 0 {
        seq![x]
    } else if not_after(mode, sorted.last(), x) {
        sorted.push(x)
    } else {
        insert_by(mode, sorted.drop_last(), x).push(sorted.last())
    }
}

/// The tasks in the order of `mode`; tasks that the order does not tell
/// apart stay in the order in which they were.
pub open spec fn sorted_by(mode: SortMode, tasks: Seq<TaskView>) -> Seq<TaskView>
    decreases tasks.len(),
{
    if tasks.len() == 0 {
        Seq::empty()
    } else {
        insert_by(mode, sorted_by(mode, tasks.drop_last()), tasks.last())
    }
}

impl SortMode {
    /// The mode that a choice of orders stands for: the first that is
    /// asked for, of priority, status, start date and due date.
    pub fn choose_mode(by_priority: bool, by_status: bool, by_start: bool, by_due: bool) -> (mode:
        SortMode)
        ensures
            mode == chosen_mode(by_priority, by_status, by_start, by_due),
    {
        if by_priority {
            SortMode::Priority
        } else if by_status {
            SortMode::Status
        } else if by_start {
            SortMode::Start
        } else if by_due {
            SortMode::Due
        } else {
            SortMode::Unsorted
        }
    }

    /// The name under which the mode is shown.
    pub fn label(&self) -> (label: &'static str)
        ensures
            label@ == mode_label(*self),
    {
        match self {
            SortMode::Priority => "Priority",
            SortMode::Status => "Status",
            SortMode::Start => "Start Date",
            SortMode::Due => "Final date",
            SortMode::Unsorted => "just list",
        }
    }
}

/// Tells whether the date `a` does not come after the date `b`.
pub fn date_before_or_equal(a: &Option<String>, b: &Option<String>) -> (le: bool)
    ensures
        le == date_le(text_view(*a), text_view(*b)),
{
    match (a, b) {
        (Some(x), Some(y)) => text_before_or_equal(x.as_str(), y.as_str()),
        (Some(_), None) => true,
        (None, Some(_)) => false,
        (None, None) => true,
    }
}

/// Tells whether the task `a` does not come after the task `b` in the
/// order of `mode`.
pub fn comes_not_after(mode: SortMode, a: &Task, b: &Task) -> (le: bool)
    ensures
        le == not_after(mode, a@, b@),
{
    match mode {
        SortMode::Priority => priority_order(&a.priority) <= priority_order(&b.priority),
        SortMode::Status => status_order(&a.status) <= status_order(&b.status),
        SortMode::Start => date_before_or_equal(&extract_start_date(a), &extract_start_date(b)),
        SortMode::Due => date_before_or_equal(&extract_due_date(a), &extract_due_date(b)),
        SortMode::Unsorted => true,
    }
}

/// Puts `task` into `sorted`, behind the last task that does not come
/// after it.
pub fn insert_task(mode: SortMode, sorted: &mut Vec<Task>, task: Task)
    ensures
        task_views(final(sorted)@) == insert_by(mode, task_views(old(sorted)@), task@),
{
    let ghost before = task_views(sorted@);
    let mut j: usize = sorted.len();
    assert(before.take(j as int) =~= before);
    assert(before.skip(j as int) =~= Seq::<TaskView>::empty());
    assert(insert_by(mode, before, task@) + Seq::<TaskView>::empty() =~= insert_by(
        mode,
        before,
        task@,
    ));
    while j > 0 && !comes_not_after(mode, &sorted[j - 1], &task)
        invariant
            j <= sorted.len(),
            sorted@ == old(sorted)@,
            before == task_views(sorted@),
            insert_by(mode, before.take(j as int), task@) + before.skip(j as int) == insert_by(
                mode,
                before,
                task@,
            ),
        decreases j,
    {
        proof {
            let head = before.take(j as int);
            assert(head.last() == before[j - 1]);
            assert(head.drop_last() =~= before.take(j - 1));
            assert(insert_by(mode, head, task@) == insert_by(mode, before.take(j - 1), task@).push(
                before[j - 1],
            ));
            assert(insert_by(mode, before.take(j - 1), task@).push(before[j - 1]) + before.skip(
                j as int,
            ) =~= insert_by(mode, before.take(j - 1), task@) + before.skip(j - 1));
        }
        j -= 1;
    }
    proof {
        let head = before.take(j as int);
        if j > 0 {
            assert(head.last() == before[j - 1]);
        }
        assert(insert_by(mode, head, task@) == head.push(task@));
    }
    sorted.insert(j, task);
    assert(task_views(sorted@) =~= before.take(j as int).push(task@) + before.skip(j as int));
}

/// Sorts the tasks in the order of `mode`. Tasks that the order does not
/// tell apart stay in the order in which they were, and without an order
/// the list stays as it is.
pub fn sort_tasks(mode: SortMode, tasks: Vec<Task>) -> (sorted: Vec<Task>)
    ensures
        task_views(sorted@) == sorted_by(mode, task_views(tasks@)),
{
    let ghost all = task_views(tasks@);
    let mut rest = tasks;
    let mut sorted: Vec<Task> = Vec::new();
    let ghost done: int = 0;
    assert(task_views(sorted@) =~= sorted_by(mode, all.take(0)));
    assert(all.skip(0) =~= all);
    while rest.len() > 0
        invariant
            0 <= done <= all.len(),
            task_views(rest@) == all.skip(done),
            task_views(sorted@) == sorted_by(mode, all.take(done)),
        decreases rest.len(),
    {
        let ghost before = task_views(rest@);
        let ghost held = rest@;
        let task = rest.remove(0);
        proof {
            assert(task@ == before[0]);
            assert(before.len() == held.len());
            assert(all.skip(done).len() == all.len() - done);
            assert(all.skip(done)[0] == all[done]);
            assert(rest@ =~= held.skip(1));
            assert forall|k: int| 0 <= k < rest@.len() implies #[trigger] task_views(rest@)[k]
                == all.skip(done + 1)[k] by {
                assert(task_views(rest@)[k] == before[k + 1]);
                assert(all.skip(done)[k + 1] == all[done + k + 1]);
            }
            assert(task_views(rest@) =~= all.skip(done + 1));
            assert(all.take(done + 1).drop_last() =~= all.take(done));
            assert(all.take(done + 1).last() == all[done]);
            done = done + 1;
        }
        insert_task(mode, &mut sorted, task);
    }
    assert(all.take(done) =~= all);
    sorted
}

} // verus!
