//! The grammar engine: turns text into a parse tree, or says where it is
//! not what the grammar asks for.

use vstd::prelude::*;
use crate::model::{lemma_tree_children, trees, Failure, Node, Rule, Status, SyntaxError, Tree};
use crate::scan;
use crate::syntax;
use crate::text::{chars_of, slice_string};

verus! {

/// The node of a rule that matched `input` from `from` to `to` with
/// `children` inside it.
pub fn branch_node(rule: Rule, input: &Vec<char>, from: usize, to: usize, children: Vec<Node>) -> (n:
    Node)
    requires
        from <= to <= input.len(),
    ensures
        n.tree() == syntax::branch(rule, input@, from as int, to as int, trees(children@)),
        n.rule == rule,
        n.start == from,
        n.end == to,
        n.children == children,
{
    let n = Node { rule, start: from, end: to, text: slice_string(input, from, to), children };
    proof {
        lemma_tree_children(n);
    }
    n
}

/// The node of a rule that matched `input` from `from` to `to` and has no
/// rules inside it.
pub fn leaf_node(rule: Rule, input: &Vec<char>, from: usize, to: usize) -> (n: Node)
    requires
        from <= to <= input.len(),
    ensures
        n.tree() == syntax::leaf(rule, input@, from as int, to as int),
        n.rule == rule,
        n.start == from,
        n.end == to,
{
    let children: Vec<Node> = Vec::new();
    assert(trees(children@) =~= Seq::empty());
    branch_node(rule, input, from, to, children)
}

/// A vector that holds `n` alone.
fn single(n: Node) -> (v: Vec<Node>)
    ensures
        v@ == seq![n],
        trees(v@) == seq![n.tree()],
{
    let mut v: Vec<Node> = Vec::new();
    v.push(n);
    assert(v@ =~= seq![n]);
    assert(trees(v@) =~= seq![n.tree()]);
    v
}

/// Recognises the description part that starts at `p`.
pub fn parse_part(input: &Vec<char>, p: usize) -> (n: Node)
    requires
        p < input.len(),
    ensures
        n.tree() == syntax::part_tree(input@, p as int),
        n.start == p,
        n.end == syntax::part_end(input@, p as int),
        p < n.end <= input.len(),
{
    proof {
        syntax::lemma_part_end(input@, p as int);
    }
    let rule = scan::part_rule(input, p);
    let end = scan::part_end(input, p);
    let inner = leaf_node(rule, input, p, end);
    branch_node(Rule::DescriptionPart, input, p, end, single(inner))
}

/// Recognises the description parts between `p` and the end of its line.
pub fn parse_parts(input: &Vec<char>, p: usize) -> (nodes: Vec<Node>)
    requires
        p <= input.len(),
    ensures
        trees(nodes@) == syntax::parts(input@, p as int),
{
    let mut nodes: Vec<Node> = Vec::new();
    let mut at: usize = scan::skip_spaces(input, p);
    proof {
        syntax::lemma_skip_twice(input@, p as int);
        syntax::lemma_parts_skip(input@, p as int);
        assert(trees(nodes@) + syntax::parts(input@, at as int) =~= syntax::parts(
            input@,
            p as int,
        ));
    }
    while !scan::at_line_end(input, at)
        invariant
            at <= input.len(),
            at == syntax::skip_spaces(input@, at as int),
            trees(nodes@) + syntax::parts(input@, at as int) == syntax::parts(input@, p as int),
        decreases input.len() - at,
    {
        let node = parse_part(input, at);
        let ghost before = nodes@;
        let ghost here = at as int;
        let next = scan::skip_spaces(input, node.end);
        nodes.push(node);
        proof {
            let s = input@;
            syntax::lemma_skip_twice(s, node.end as int);
            assert(syntax::parts(s, here) == seq![node.tree()] + syntax::parts(s, node.end as int));
            assert(syntax::parts(s, node.end as int) == syntax::parts(s, next as int)) by {
                syntax::lemma_parts_skip(s, node.end as int);
            }
            assert(trees(nodes@) =~= trees(before) + seq![node.tree()]);
            assert(trees(nodes@) + syntax::parts(s, next as int) =~= trees(before) + syntax::parts(
                s,
                here,
            ));
        }
        at = next;
    }
    proof {
        assert(syntax::parts(input@, at as int) =~= Seq::empty());
        assert(trees(nodes@) + Seq::<Tree>::empty() =~= trees(nodes@));
    }
    nodes
}

/// The length of a status as written, brackets included.
pub fn status_len(status: Status) -> (n: usize)
    ensures
        n == syntax::status_len(status),
        6 <= n <= 7,
{
    scan::marker_len(status) + 2
}

/// The rule that matches the marker of a status.
pub fn marker_rule(status: Status) -> (rule: Rule)
    ensures
        rule == syntax::marker_rule(status),
{
    match status {
        Status::Done => Rule::Complete,
        Status::Todo => Rule::Incomplete,
        Status::Doing => Rule::InProgress,
    }
}

/// The node of the status `status` written at `p`.
pub fn status_node(input: &Vec<char>, p: usize, status: Status) -> (n: Node)
    requires
        p + syntax::status_len(status) <= input.len(),
    ensures
        n.tree() == syntax::status_tree(input@, p as int, status),
{
    let end = p + status_len(status);
    let inner = leaf_node(marker_rule(status), input, p + 1, end - 1);
    branch_node(Rule::Status, input, p, end, single(inner))
}

/// The node of a description made of the parts `parts`.
fn description_node(input: &Vec<char>, parts: Vec<Node>, Ghost(p): Ghost<int>) -> (n: Node)
    requires
        0 <= p <= input.len(),
        trees(parts@) == syntax::parts(input@, p),
        parts@.len() > 0,
    ensures
        n.tree() == syntax::description_tree(input@, syntax::parts(input@, p)),
        n.end == syntax::parts(input@, p).last().end,
        p <= n.end <= input.len(),
{
    let first = parts[0].start;
    let last = parts[parts.len() - 1].end;
    proof {
        let ts = syntax::parts(input@, p);
        syntax::lemma_parts_in_order(input@, p);
        lemma_tree_children(parts@[0]);
        lemma_tree_children(parts@[parts@.len() - 1]);
        assert(ts[0] == parts@[0].tree());
        assert(ts[ts.len() - 1] == parts@[parts@.len() - 1].tree());
        assert(ts.first().start <= ts.first().end <= ts.last().end) by {
            if ts.len() > 1 {
                assert(ts[0].end <= ts[ts.len() - 1].start);
            }
        }
    }
    branch_node(Rule::Description, input, first, last, parts)
}

/// Recognises the task that starts at `p`.
pub fn parse_task(input: &Vec<char>, p: usize) -> (r: Result<Node, SyntaxError>)
    requires
        p <= input.len(),
    ensures
        match r {
            Ok(n) => syntax::task_at(input@, p as int) == Ok::<Tree, Failure>(n.tree()),
            Err(e) => syntax::task_at(input@, p as int) == Err::<Tree, Failure>(e@),
        },
{
    let ghost s = input@;
    let n = scan::star_run(input, p);
    let k = if n > 0 {
        scan::skip_spaces(input, p + n)
    } else {
        p
    };
    match scan::status_at(input, k) {
        None => {
            let mut expected: Vec<Rule> = Vec::new();
            if n == 0 {
                expected.push(Rule::Priority);
            }
            expected.push(Rule::Status);
            assert(expected@ =~= syntax::status_expected(s, p as int));
            Err(SyntaxError { position: k, expected })
        },
        Some(status) => {
            let e = k + status_len(status);
            let parts = parse_parts(input, e);
            let mut children: Vec<Node> = Vec::new();
            if n > 0 {
                children.push(leaf_node(Rule::Priority, input, p, p + n));
            }
            children.push(status_node(input, k, status));
            let ghost head = trees(children@);
            assert(head =~= (if n > 0 {
                seq![syntax::priority_tree(s, p as int, n as int)]
            } else {
                Seq::empty()
            }) + seq![syntax::status_tree(s, k as int, status)]);
            let end = if parts.len() > 0 {
                let description = description_node(input, parts, Ghost(e as int));
                let end = description.end;
                children.push(description);
                assert(trees(children@) =~= head + seq![description.tree()]);
                end
            } else {
                assert(trees(children@) =~= head + Seq::<Tree>::empty());
                e
            };
            Ok(branch_node(Rule::Task, input, p, end, children))
        },
    }
}

/// Recognises the line that starts at `p`: an empty line or a task.
pub fn parse_line(input: &Vec<char>, p: usize) -> (r: Result<Node, SyntaxError>)
    requires
        p <= input.len(),
    ensures
        match r {
            Ok(n) => syntax::line_at(input@, p as int) == Ok::<Tree, Failure>(n.tree()),
            Err(e) => syntax::line_at(input@, p as int) == Err::<Tree, Failure>(e@),
        },
{
    let q = scan::skip_spaces(input, p);
    if scan::at_line_end(input, q) {
        Ok(leaf_node(Rule::EmptyLine, input, p, q))
    } else {
        parse_task(input, q)
    }
}

/// Where the line after the one that holds `p` starts.
pub fn next_line(input: &Vec<char>, p: usize) -> (q: usize)
    requires
        p < input.len(),
    ensures
        q == syntax::next_line(input@, p as int),
        p < q <= input.len(),
{
    let stop = scan::line_stop(input, p);
    if stop < input.len() {
        stop + 1
    } else {
        stop
    }
}

/// Recognises the lines of the whole input.
pub fn parse_lines(input: &Vec<char>) -> (r: Result<Vec<Node>, SyntaxError>)
    ensures
        match r {
            Ok(nodes) => syntax::lines(input@, 0) == Ok::<Seq<Tree>, Failure>(trees(nodes@)),
            Err(e) => syntax::lines(input@, 0) == Err::<Seq<Tree>, Failure>(e@),
        },
{
    let ghost s = input@;
    let mut nodes: Vec<Node> = Vec::new();
    let mut at: usize = 0;
    assert(trees(nodes@) =~= Seq::empty());
    assert(syntax::after(trees(nodes@), syntax::lines(s, 0)) == syntax::lines(s, 0)) by {
        match syntax::lines(s, 0) {
            Ok(rest) => {
                assert(Seq::<Tree>::empty() + rest =~= rest);
            },
            Err(_) => {},
        }
    }
    while at < input.len()
        invariant
            at <= input.len(),
            s == input@,
            syntax::after(trees(nodes@), syntax::lines(s, at as int)) == syntax::lines(s, 0),
        decreases input.len() - at,
    {
        let ghost before = trees(nodes@);
        match parse_line(input, at) {
            Err(e) => {
                return Err(e);
            },
            Ok(node) => {
                let next = next_line(input, at);
                nodes.push(node);
                proof {
                    assert(trees(nodes@) =~= before + seq![node.tree()]);
                    match syntax::lines(s, next as int) {
                        Ok(rest) => {
                            assert(trees(nodes@) + rest =~= before + (seq![node.tree()] + rest));
                        },
                        Err(_) => {},
                    }
                }
                at = next;
            },
        }
    }
    proof {
        assert(trees(nodes@) + Seq::<Tree>::empty() =~= trees(nodes@));
    }
    Ok(nodes)
}

/// The error of `rule` not being found at the start of the input.
fn expected_at_start(rule: Rule) -> (e: SyntaxError)
    ensures
        e@ == syntax::failure(0, seq![rule]),
{
    let mut expected: Vec<Rule> = Vec::new();
    expected.push(rule);
    assert(expected@ =~= seq![rule]);
    SyntaxError { position: 0, expected }
}

/// The leaf of `rule` from the start of `input` to `to` where `found` holds,
/// else the error of `rule` not being found there.
fn leaf_or_expected(found: bool, rule: Rule, input: &Vec<char>, to: usize) -> (r: Result<
    Node,
    SyntaxError,
>)
    requires
        found ==> to <= input.len(),
    ensures
        match r {
            Ok(n) => syntax::found_or_expected(
                found,
                syntax::leaf(rule, input@, 0, to as int),
                rule,
            ) == Ok::<Tree, Failure>(n.tree()),
            Err(e) => syntax::found_or_expected(
                found,
                syntax::leaf(rule, input@, 0, to as int),
                rule,
            ) == Err::<Tree, Failure>(e@),
        },
{
    if found {
        Ok(leaf_node(rule, input, 0, to))
    } else {
        Err(expected_at_start(rule))
    }
}

/// Recognises `rule` at the start of `input`.
pub fn parse_chars(rule: Rule, input: &Vec<char>) -> (r: Result<Node, SyntaxError>)
    ensures
        match r {
            Ok(n) => syntax::recognise(rule, input@) == Ok::<Tree, Failure>(n.tree()),
            Err(e) => syntax::recognise(rule, input@) == Err::<Tree, Failure>(e@),
        },
{
    let ghost s = input@;
    match rule {
        Rule::File => match parse_lines(input) {
            Ok(nodes) => Ok(branch_node(Rule::File, input, 0, input.len(), nodes)),
            Err(e) => Err(e),
        },
        Rule::Task => parse_task(input, 0),
        Rule::EmptyLine => {
            let q = scan::skip_spaces(input, 0);
            if scan::at_line_end(input, q) {
                Ok(leaf_node(Rule::EmptyLine, input, 0, q))
            } else {
                let mut expected: Vec<Rule> = Vec::new();
                expected.push(Rule::EmptyLine);
                assert(expected@ =~= seq![Rule::EmptyLine]);
                Err(SyntaxError { position: q, expected })
            }
        },
        Rule::Priority => {
            let n = scan::star_run(input, 0);
            leaf_or_expected(n > 0, rule, input, n)
        },
        Rule::Status => match scan::status_at(input, 0) {
            Some(status) => Ok(status_node(input, 0, status)),
            None => Err(expected_at_start(rule)),
        },
        Rule::Complete => leaf_or_expected(
            scan::marker_at(input, 0, Status::Done),
            rule,
            input,
            scan::marker_len(Status::Done),
        ),
        Rule::Incomplete => leaf_or_expected(
            scan::marker_at(input, 0, Status::Todo),
            rule,
            input,
            scan::marker_len(Status::Todo),
        ),
        Rule::InProgress => leaf_or_expected(
            scan::marker_at(input, 0, Status::Doing),
            rule,
            input,
            scan::marker_len(Status::Doing),
        ),
        Rule::Description => {
            let parts = parse_parts(input, 0);
            if parts.len() > 0 {
                Ok(description_node(input, parts, Ghost(0)))
            } else {
                let mut expected: Vec<Rule> = Vec::new();
                expected.push(Rule::DescriptionPart);
                assert(expected@ =~= seq![Rule::DescriptionPart]);
                Err(SyntaxError { position: scan::skip_spaces(input, 0), expected })
            }
        },
        Rule::DescriptionPart => {
            if scan::part_starts_at(input, 0) {
                Ok(parse_part(input, 0))
            } else {
                Err(expected_at_start(rule))
            }
        },
        Rule::Tag => {
            let found = scan::tag_at(input, 0);
            leaf_or_expected(found, rule, input, scan::part_end(input, 0))
        },
        Rule::DueDate => {
            let found = scan::due_date_at(input, 0);
            leaf_or_expected(found, rule, input, scan::part_end(input, 0))
        },
        Rule::StartDate => {
            let found = scan::start_date_at(input, 0);
            leaf_or_expected(found, rule, input, scan::part_end(input, 0))
        },
        Rule::Text => {
            let found = scan::part_starts_at(input, 0) && !scan::token_at(input, 0);
            leaf_or_expected(found, rule, input, scan::part_end(input, 0))
        },
    }
}

/// The grammar of task lists.
pub struct Grammar;

impl Grammar {
    /// Recognises `rule` at the start of `input`. On success the tree is the
    /// one that the grammar gives for this input; on failure the error says
    /// where recognition stopped and which rules could have gone on there.
    pub fn parse(rule: Rule, input: &str) -> (r: Result<Node, SyntaxError>)
        ensures
            match r {
                Ok(n) => syntax::recognise(rule, input@) == Ok::<Tree, Failure>(n.tree()),
                Err(e) => syntax::recognise(rule, input@) == Err::<Tree, Failure>(e@),
            },
    {
        let chars = chars_of(input);
        parse_chars(rule, &chars)
    }
}

} // verus!
