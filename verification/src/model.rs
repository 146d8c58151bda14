//! The domain model: what a parsed task list is made of.

use vstd::prelude::*;

verus! {

/// The state of a task.
#[derive(Debug, PartialEq, Eq, Clone, Copy, Structural)]
pub enum Status {
    Todo,
    Doing,
    Done,
}

/// The urgency of a task; `P1` is the highest.
#[derive(Debug, PartialEq, Eq, Clone, Copy, Structural)]
pub enum Priority {
    P1,
    P2,
    P3,
}

/// The names of the grammar's rules; every node of a parse tree carries one.
#[derive(Debug, PartialEq, Eq, Clone, Copy, Structural)]
pub enum Rule {
    File,
    Task,
    EmptyLine,
    Priority,
    Status,
    Complete,
    Incomplete,
    InProgress,
    Description,
    DescriptionPart,
    Tag,
    DueDate,
    StartDate,
    Text,
}

/// A node of a parse tree: the rule that matched, the matched span of the
/// input (in characters, end exclusive), the matched text, and the nodes of
/// the rules that matched inside it, in source order.
#[derive(Debug, PartialEq, Eq)]
pub struct Node {
    pub rule: Rule,
    pub start: usize,
    pub end: usize,
    pub text: String,
    pub children: Vec<Node>,
}

/// The mathematical value of a [`Node`].
pub struct Tree {
    pub rule: Rule,
    pub start: int,
    pub end: int,
    pub text: Seq<char>,
    pub children: Seq<Tree>,
}

impl Node {
    pub open spec fn tree(self) -> Tree
        decreases self,
    {
        Tree {
            rule: self.rule,
            start: self.start as int,
            end: self.end as int,
            text: self.text@,
            children: Seq::new(
                self.children@.len(),
                |i: int|
                    if 0 <= i < self.children@.len() {
                        self.children@[i].tree()
                    } else {
                        Tree { rule: self.rule, start: 0, end: 0, text: Seq::empty(), children: Seq::empty() }
                    },
            ),
        }
    }
}

/// Where recognition stopped, and the rules that could have gone on there.
pub struct Failure {
    pub position: int,
    pub expected: Seq<Rule>,
}

/// A syntax error: the input does not match the grammar. `position` counts
/// the characters before the place where recognition stopped; `expected`
/// names the rules that could have gone on there.
#[derive(Debug, PartialEq, Eq, Clone)]
pub struct SyntaxError {
    pub position: usize,
    pub expected: Vec<Rule>,
}

impl View for SyntaxError {
    type V = Failure;

    open spec fn view(&self) -> Failure {
        Failure { position: self.position as int, expected: self.expected@ }
    }
}

/// One fragment of a task's description. Tags and dates keep their marker.
#[derive(Debug, PartialEq, Eq, Clone)]
pub enum DescriptionPart {
    Text(String),
    Tag(String),
    DueDate(String),
    StartDate(String),
}

/// The mathematical value of a [`DescriptionPart`].
pub enum PartView {
    Text(Seq<char>),
    Tag(Seq<char>),
    DueDate(Seq<char>),
    StartDate(Seq<char>),
}

impl View for DescriptionPart {
    type V = PartView;

    open spec fn view(&self) -> PartView {
        match *self {
            DescriptionPart::Text(t) => PartView::Text(t@),
            DescriptionPart::Tag(t) => PartView::Tag(t@),
            DescriptionPart::DueDate(t) => PartView::DueDate(t@),
            DescriptionPart::StartDate(t) => PartView::StartDate(t@),
        }
    }
}

/// One entry of a task list.
#[derive(Debug, PartialEq, Eq, Clone)]
pub struct Task {
    pub priority: Option<Priority>,
    pub status: Status,
    pub description: Vec<DescriptionPart>,
}

/// The mathematical value of a [`Task`].
pub struct TaskView {
    pub priority: Option<Priority>,
    pub status: Status,
    pub description: Seq<PartView>,
}

impl View for Task {
    type V = TaskView;

    open spec fn view(&self) -> TaskView {
        TaskView {
            priority: self.priority,
            status: self.status,
            description: part_views(self.description@),
        }
    }
}

/// Why a file could not be turned into tasks.
#[derive(Debug, PartialEq, Eq, Clone)]
pub enum ParseError {
    /// The input does not match the grammar.
    Syntax(SyntaxError),
    /// Recognition produced no tree for the file.
    EmptyFile,
    /// A task holds no status.
    MissingStatus,
}

/// The mathematical value of a [`ParseError`].
pub enum ParseErrorView {
    Syntax(Failure),
    EmptyFile,
    MissingStatus,
}

impl View for ParseError {
    type V = ParseErrorView;

    open spec fn view(&self) -> ParseErrorView {
        match *self {
            ParseError::Syntax(e) => ParseErrorView::Syntax(e@),
            ParseError::EmptyFile => ParseErrorView::EmptyFile,
            ParseError::MissingStatus => ParseErrorView::MissingStatus,
        }
    }
}

/// The values of a sequence of nodes.
pub open spec fn trees(nodes: Seq<Node>) -> Seq<Tree> {
    nodes.map_values(|n: Node| n.tree())
}

/// The values of a sequence of description parts.
pub open spec fn part_views(parts: Seq<DescriptionPart>) -> Seq<PartView> {
    parts.map_values(|p: DescriptionPart| p@)
}

/// The values of a sequence of tasks.
pub open spec fn task_views(tasks: Seq<Task>) -> Seq<TaskView> {
    tasks.map_values(|t: Task| t@)
}

/// The children of a node's value are the values of its children.
pub proof fn lemma_tree_children(n: Node)
    ensures
        n.tree().children == trees(n.children@),
        n.tree().rule == n.rule,
        n.tree().start == n.start,
        n.tree().end == n.end,
        n.tree().text == n.text@,
{
    assert(n.tree().children =~= trees(n.children@));
}

} // verus!
