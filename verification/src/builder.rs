//! The task builder: walks a parse tree and makes the tasks it stands for.
//!
//! The functions take any tree of the right shape, not only those that the
//! grammar engine makes; what shape each of them asks for is said by the
//! `*_shaped` predicates.

use vstd::prelude::*;
use vstd::string::StrSliceExecFns;
use crate::model::{
    lemma_tree_children, part_views, task_views, DescriptionPart, Node, ParseError, ParseErrorView, PartView,
    Priority, Rule, Status, Task, TaskView, Tree,
};

verus! {

/// A run of `n` stars.
pub open spec fn stars(n: nat) -> Seq<char> {
    Seq::new(n, |i: int| '*')
}

/// The tree holds one, two or three stars.
pub open spec fn priority_shaped(t: Tree) -> bool {
    1 <= t.text.len() <= 3 && t.text == stars(t.text.len())
}

/// The priority that a run of stars stands for: the more stars, the higher.
pub open spec fn priority_of(t: Tree) -> Priority {
    if t.text.len() == 1 {
        Priority::P3
    } else if t.text.len() == 2 {
        Priority::P2
    } else {
        Priority::P1
    }
}

/// The first rule inside the tree is one of the three markers.
pub open spec fn status_shaped(t: Tree) -> bool {
    t.children.len() > 0 && (t.children[0].rule == Rule::Complete || t.children[0].rule
        == Rule::Incomplete || t.children[0].rule == Rule::InProgress)
}

/// The status that the marker inside the tree stands for.
pub open spec fn status_of(t: Tree) -> Status {
    match t.children[0].rule {
        Rule::Complete => Status::Done,
        Rule::Incomplete => Status::Todo,
        _ => Status::Doing,
    }
}

/// The tree is a description part: the first rule inside it is a text, a
/// tag or a date.
pub open spec fn part_shaped(t: Tree) -> bool {
    &&& t.rule == Rule::DescriptionPart
    &&& t.children.len() > 0
    &&& (t.children[0].rule == Rule::Text || t.children[0].rule == Rule::Tag || t.children[0].rule
        == Rule::DueDate || t.children[0].rule == Rule::StartDate)
}

/// The fragment that a description part stands for: its kind from the rule
/// inside it, its text as matched.
pub open spec fn part_of(t: Tree) -> PartView {
    match t.children[0].rule {
        Rule::Text => PartView::Text(t.children[0].text),
        Rule::Tag => PartView::Tag(t.children[0].text),
        Rule::DueDate => PartView::DueDate(t.children[0].text),
        _ => PartView::StartDate(t.children[0].text),
    }
}

/// Everything inside the tree is a description part.
pub open spec fn description_shaped(t: Tree) -> bool {
    forall|i: int| 0 <= i < t.children.len() ==> part_shaped(#[trigger] t.children[i])
}

/// The fragments that a description stands for, in the order of its parts.
pub open spec fn description_of(t: Tree) -> Seq<PartView> {
    t.children.map_values(|c: Tree| part_of(c))
}

/// The tree is a well-shaped priority, status or description.
pub open spec fn field_shaped(t: Tree) -> bool {
    match t.rule {
        Rule::Priority => priority_shaped(t),
        Rule::Status => status_shaped(t),
        Rule::Description => description_shaped(t),
        _ => false,
    }
}

/// Everything inside the tree is a well-shaped priority, status or
/// description.
pub open spec fn task_shaped(t: Tree) -> bool {
    forall|i: int| 0 <= i < t.children.len() ==> field_shaped(#[trigger] t.children[i])
}

/// The last tree of `ts` that has the rule `rule`.
pub open spec fn last_of(ts: Seq<Tree>, rule: Rule) -> Option<Tree>
    decreases ts.len(),
{
    if ts.len() == 0 {
        None
    } else if ts.last().rule == rule {
        Some(ts.last())
    } else {
        last_of(ts.drop_last(), rule)
    }
}

/// The priority that the fields `ts` give a task: that of the last
/// priority among them, if there is one.
pub open spec fn task_priority(ts: Seq<Tree>) -> Option<Priority> {
    match last_of(ts, Rule::Priority) {
        Some(t) => Some(priority_of(t)),
        None => None,
    }
}

/// The status that the fields `ts` give a task: that of the last status
/// among them, if there is one.
pub open spec fn task_status(ts: Seq<Tree>) -> Option<Status> {
    match last_of(ts, Rule::Status) {
        Some(t) => Some(status_of(t)),
        None => None,
    }
}

/// The description that the fields `ts` give a task: that of the last
/// description among them, empty if there is none.
pub open spec fn task_description(ts: Seq<Tree>) -> Seq<PartView> {
    match last_of(ts, Rule::Description) {
        Some(t) => description_of(t),
        None => Seq::empty(),
    }
}

/// The task that a tree stands for, or the error of its status missing.
pub open spec fn task_of(t: Tree) -> Result<TaskView, ParseErrorView> {
    match task_status(t.children) {
        None => Err(ParseErrorView::MissingStatus),
        Some(status) => Ok(
            TaskView {
                priority: task_priority(t.children),
                status,
                description: task_description(t.children),
            },
        ),
    }
}

/// The tree is an empty line or a well-shaped task.
pub open spec fn line_shaped(t: Tree) -> bool {
    t.rule == Rule::EmptyLine || (t.rule == Rule::Task && task_shaped(t))
}

/// Everything inside the tree is an empty line or a well-shaped task.
pub open spec fn file_shaped(t: Tree) -> bool {
    forall|i: int| 0 <= i < t.children.len() ==> line_shaped(#[trigger] t.children[i])
}

/// The tasks that the lines `ts` stand for, in their order, or the error of
/// the first task among them that has one.
pub open spec fn tasks_of(ts: Seq<Tree>) -> Result<Seq<TaskView>, ParseErrorView>
    decreases ts.len(),
{
    if ts.len() == 0 {
        Ok(Seq::empty())
    } else {
        match tasks_of(ts.drop_last()) {
            Err(e) => Err(e),
            Ok(done) => if ts.last().rule == Rule::Task {
                match task_of(ts.last()) {
                    Err(e) => Err(e),
                    Ok(task) => Ok(done.push(task)),
                }
            } else {
                Ok(done)
            },
        }
    }
}

/// The tasks that a file's tree stands for; without a tree, the error of
/// an empty file.
pub open spec fn file_tasks(root: Option<Tree>) -> Result<Seq<TaskView>, ParseErrorView> {
    match root {
        None => Err(ParseErrorView::EmptyFile),
        Some(t) => tasks_of(t.children),
    }
}

/// The views of the two sides of a result of tasks.
pub open spec fn tasks_result_view(r: Result<Vec<Task>, ParseError>) -> Result<
    Seq<TaskView>,
    ParseErrorView,
> {
    match r {
        Ok(tasks) => Ok(task_views(tasks@)),
        Err(e) => Err(e@),
    }
}

/// The view of the two sides of a result of one task.
pub open spec fn task_result_view(r: Result<Task, ParseError>) -> Result<TaskView, ParseErrorView> {
    match r {
        Ok(task) => Ok(task@),
        Err(e) => Err(e@),
    }
}

/// The priority that a run of one, two or three stars stands for.
pub fn build_priority(node: &Node) -> (priority: Priority)
    requires
        priority_shaped(node.tree()),
    ensures
        priority == priority_of(node.tree()),
{
    let n = node.text.as_str().unicode_len();
    if n == 1 {
        Priority::P3
    } else if n == 2 {
        Priority::P2
    } else {
        Priority::P1
    }
}

/// The status that the marker inside a status node stands for.
pub fn build_status(node: &Node) -> (status: Status)
    requires
        status_shaped(node.tree()),
    ensures
        status == status_of(node.tree()),
{
    proof {
        lemma_tree_children(*node);
        lemma_tree_children(node.children@[0]);
    }
    match node.children[0].rule {
        Rule::Complete => Status::Done,
        Rule::Incomplete => Status::Todo,
        _ => Status::Doing,
    }
}

/// The fragment that a description part stands for.
pub fn build_part(node: &Node) -> (part: DescriptionPart)
    requires
        part_shaped(node.tree()),
    ensures
        part@ == part_of(node.tree()),
{
    proof {
        lemma_tree_children(*node);
        lemma_tree_children(node.children@[0]);
    }
    let inner = &node.children[0];
    let text = inner.text.clone();
    match inner.rule {
        Rule::Text => DescriptionPart::Text(text),
        Rule::Tag => DescriptionPart::Tag(text),
        Rule::DueDate => DescriptionPart::DueDate(text),
        _ => DescriptionPart::StartDate(text),
    }
}

/// The fragments that a description stands for, in the order of its parts.
pub fn build_description(node: &Node) -> (parts: Vec<DescriptionPart>)
    requires
        description_shaped(node.tree()),
    ensures
        part_views(parts@) == description_of(node.tree()),
{
    proof {
        lemma_tree_children(*node);
    }
    let mut parts: Vec<DescriptionPart> = Vec::new();
    let mut i: usize = 0;
    while i < node.children.len()
        invariant
            i <= node.children.len(),
            parts@.len() == i,
            node.tree().children.len() == node.children.len(),
            description_shaped(node.tree()),
            forall|j: int| 0 <= j < i ==> (#[trigger] parts@[j])@ == part_of(node.tree().children[j]),
            forall|j: int|
                0 <= j < node.children.len() ==> node.tree().children[j]
                    == (#[trigger] node.children@[j]).tree(),
        decreases node.children.len() - i,
    {
        assert(part_shaped(node.tree().children[i as int]));
        let part = build_part(&node.children[i]);
        parts.push(part);
        i += 1;
    }
    assert(part_views(parts@) =~= description_of(node.tree()));
    parts
}

/// The task that a task node stands for: the priority, status and
/// description of the last field of each kind inside it. Without a
/// priority the task has none, without a description an empty one; without
/// a status there is no task, and the error says so.
pub fn build_task(node: &Node) -> (r: Result<Task, ParseError>)
    requires
        task_shaped(node.tree()),
    ensures
        task_result_view(r) == task_of(node.tree()),
{
    proof {
        lemma_tree_children(*node);
    }
    let ghost ts = node.tree().children;
    let mut priority: Option<Priority> = None;
    let mut status: Option<Status> = None;
    let mut description: Vec<DescriptionPart> = Vec::new();
    let mut i: usize = 0;
    assert(part_views(description@) =~= Seq::empty());
    while i < node.children.len()
        invariant
            i <= node.children.len(),
            ts == node.tree().children,
            ts.len() == node.children.len(),
            task_shaped(node.tree()),
            forall|j: int|
                0 <= j < node.children.len() ==> ts[j] == (#[trigger] node.children@[j]).tree(),
            priority == task_priority(ts.take(i as int)),
            status == task_status(ts.take(i as int)),
            part_views(description@) == task_description(ts.take(i as int)),
        decreases node.children.len() - i,
    {
        let field = &node.children[i];
        proof {
            lemma_tree_children(*field);
            assert(field_shaped(ts[i as int]));
            assert(ts.take(i + 1).drop_last() =~= ts.take(i as int));
            assert(ts.take(i + 1).last() == ts[i as int]);
        }
        match field.rule {
            Rule::Priority => {
                priority = Some(build_priority(field));
            },
            Rule::Status => {
                status = Some(build_status(field));
            },
            _ => {
                description = build_description(field);
            },
        }
        i += 1;
    }
    assert(ts.take(i as int) =~= ts);
    match status {
        None => Err(ParseError::MissingStatus),
        Some(status) => Ok(Task { priority, status, description }),
    }
}

/// The tasks that the tree of a file stands for, in the order of its
/// lines; empty lines stand for nothing. The first task without a status
/// ends the walk with its error, and no tree at all is the error of an
/// empty file.
pub fn build_file(root: Option<&Node>) -> (r: Result<Vec<Task>, ParseError>)
    requires
        root matches Some(node) ==> file_shaped(node.tree()),
    ensures
        tasks_result_view(r) == file_tasks(
            match root {
                Some(node) => Some(node.tree()),
                None => None,
            },
        ),
{
    match root {
        None => Err(ParseError::EmptyFile),
        Some(node) => build_lines(node),
    }
}

/// The tasks that the lines inside a node stand for, in their order, or the
/// error of the first task among them that has one.
pub fn build_lines(node: &Node) -> (r: Result<Vec<Task>, ParseError>)
    requires
        file_shaped(node.tree()),
    ensures
        tasks_result_view(r) == tasks_of(node.tree().children),
{
    proof {
        lemma_tree_children(*node);
    }
    let ghost ts = node.tree().children;
    let mut tasks: Vec<Task> = Vec::new();
    let mut i: usize = 0;
    assert(task_views(tasks@) =~= Seq::empty());
    while i < node.children.len()
        invariant
            i <= node.children.len(),
            ts == node.tree().children,
            ts.len() == node.children.len(),
            file_shaped(node.tree()),
            forall|j: int|
                0 <= j < node.children.len() ==> ts[j] == (#[trigger] node.children@[j]).tree(),
            tasks_of(ts.take(i as int)) == Ok::<Seq<TaskView>, ParseErrorView>(task_views(tasks@)),
        decreases node.children.len() - i,
    {
        let line = &node.children[i];
        proof {
            lemma_tree_children(*line);
            assert(line_shaped(ts[i as int]));
            assert(ts.take(i + 1).drop_last() =~= ts.take(i as int));
            assert(ts.take(i + 1).last() == ts[i as int]);
        }
        match line.rule {
            Rule::Task => {
                match build_task(line) {
                    Err(e) => {
                        proof {
                            assert(task_of(ts[i as int]) == Err::<TaskView, ParseErrorView>(e@));
                            assert(tasks_of(ts.take(i + 1)) == Err::<
                                Seq<TaskView>,
                                ParseErrorView,
                            >(e@));
                            lemma_tasks_of_fails(ts, i + 1);
                        }
                        return Err(e);
                    },
                    Ok(task) => {
                        let ghost before = task_views(tasks@);
                        tasks.push(task);
                        assert(task_views(tasks@) =~= before.push(task@));
                    },
                }
            },
            _ => {},
        }
        i += 1;
    }
    assert(ts.take(i as int) =~= ts);
    Ok(tasks)
}

/// Once the lines up to `n` have failed, all of them fail in the same way.
pub proof fn lemma_tasks_of_fails(ts: Seq<Tree>, n: int)
    requires
        0 <= n <= ts.len(),
        tasks_of(ts.take(n)) is Err,
    ensures
        tasks_of(ts) == tasks_of(ts.take(n)),
    decreases ts.len() - n,
{
    if n < ts.len() {
        assert(ts.take(n + 1).drop_last() =~= ts.take(n));
        lemma_tasks_of_fails(ts, n + 1);
    } else {
        assert(ts.take(n) =~= ts);
    }
}

} // verus!
