//! The shape that every tree of the grammar has: each node holds the text
//! of its span, and the nodes inside it lie in its span, in source order.

use vstd::prelude::*;
use crate::laws::{law_task_fills_line, lemma_same_line, lemma_skip_stays_on_line};
use crate::model::{Rule, Status, Tree};
use crate::syntax::{
    at_line_end, branch, description_tree, file_tree, leaf, lemma_line_stop, lemma_part_end,
    lemma_parts_in_order, lemma_skip_spaces, line_at, line_stop, lines, marker, marker_rule,
    next_line, part_end, part_rule, part_starts_at, part_tree, parts, priority_tree, recognise, skip_spaces, star_run,
    status_at, status_len, status_start, status_tree, task_at,
};

verus! {

/// The trees of `ts` lie between `lo` and `hi`, each ends where it starts
/// or later, and each ends before the next one starts.
pub open spec fn side_by_side(ts: Seq<Tree>, lo: int, hi: int) -> bool {
    &&& forall|i: int| 0 <= i < ts.len() ==> lo <= (#[trigger] ts[i]).start <= ts[i].end <= hi
    &&& forall|i: int, j: int|
        0 <= i < j < ts.len() ==> (#[trigger] ts[i]).end <= (#[trigger] ts[j]).start
}

/// The tree holds the text of its span in `s`, the trees inside it lie in
/// its span side by side, and the same holds of each of them.
pub open spec fn well_nested(t: Tree, s: Seq<char>) -> bool
    decreases t,
{
    &&& 0 <= t.start <= t.end <= s.len()
    &&& t.text == s.subrange(t.start, t.end)
    &&& side_by_side(t.children, t.start, t.end)
    &&& forall|i: int| 0 <= i < t.children.len() ==> well_nested(#[trigger] t.children[i], s)
}

/// A leaf inside the text is well nested.
pub proof fn lemma_leaf_nested(rule: Rule, s: Seq<char>, from: int, to: int)
    requires
        0 <= from <= to <= s.len(),
    ensures
        well_nested(leaf(rule, s, from, to), s),
{
}

/// A branch inside the text is well nested where the trees inside it are,
/// and lie in its span side by side.
pub proof fn lemma_branch_nested(rule: Rule, s: Seq<char>, from: int, to: int, children: Seq<Tree>)
    requires
        0 <= from <= to <= s.len(),
        side_by_side(children, from, to),
        forall|i: int| 0 <= i < children.len() ==> well_nested(#[trigger] children[i], s),
    ensures
        well_nested(branch(rule, s, from, to, children), s),
{
}

/// The tree of a description part is well nested.
pub proof fn lemma_part_nested(s: Seq<char>, p: int)
    requires
        0 <= p < s.len(),
    ensures
        well_nested(part_tree(s, p), s),
{
    let e = part_end(s, p);
    lemma_part_end(s, p);
    let inner = leaf(part_rule(s, p), s, p, e);
    lemma_leaf_nested(inner.rule, s, p, e);
    lemma_branch_nested(Rule::DescriptionPart, s, p, e, seq![inner]);
}

/// The trees of the parts of a line are well nested.
pub proof fn lemma_parts_nested(s: Seq<char>, p: int)
    requires
        0 <= p <= s.len(),
    ensures
        forall|i: int| 0 <= i < parts(s, p).len() ==> well_nested(#[trigger] parts(s, p)[i], s),
        side_by_side(parts(s, p), p, s.len() as int),
    decreases s.len() - p,
{
    lemma_parts_in_order(s, p);
    let q = skip_spaces(s, p);
    lemma_skip_spaces(s, p);
    if !at_line_end(s, q) {
        let e = part_end(s, q);
        lemma_part_end(s, q);
        lemma_part_nested(s, q);
        lemma_parts_nested(s, e);
        let all = parts(s, p);
        let rest = parts(s, e);
        assert(all == seq![part_tree(s, q)] + rest);
        assert forall|i: int| 0 <= i < all.len() implies well_nested(#[trigger] all[i], s) by {
            if i > 0 {
                assert(all[i] == rest[i - 1]);
            }
        }
    }
}

/// The tree of a status is well nested.
pub proof fn lemma_status_nested(s: Seq<char>, p: int, status: Status)
    requires
        0 <= p,
        p + status_len(status) <= s.len(),
    ensures
        well_nested(status_tree(s, p, status), s),
{
    let e = p + status_len(status);
    let inner = leaf(marker_rule(status), s, p + 1, e - 1);
    assert(marker(status).len() >= 4);
    lemma_leaf_nested(inner.rule, s, p + 1, e - 1);
    lemma_branch_nested(Rule::Status, s, p, e, seq![inner]);
}

/// The tree of a task is well nested.
pub proof fn lemma_task_nested(s: Seq<char>, p: int)
    requires
        0 <= p <= s.len(),
    ensures
        task_at(s, p) matches Ok(t) ==> well_nested(t, s),
{
    let n = star_run(s, p);
    let k = status_start(s, p);
    if n > 0 {
        lemma_skip_spaces(s, p + n);
    }
    if let Some(status) = status_at(s, k) {
        let e = k + status_len(status);
        let ps = parts(s, e);
        let t = task_at(s, p)->Ok_0;
        let ts = t.children;
        law_task_fills_line(s, p);
        lemma_parts_nested(s, e);
        lemma_status_nested(s, k, status);
        let at_status: int = if n > 0 {
            1
        } else {
            0
        };
        assert(ts[at_status] == status_tree(s, k, status));
        if n > 0 {
            assert(ts[0] == priority_tree(s, p, n));
            lemma_leaf_nested(Rule::Priority, s, p, p + n);
        }
        if ps.len() > 0 {
            let d = description_tree(s, ps);
            assert(ts[at_status + 1] == d);
            assert(ps.first().start <= ps.first().end <= ps.last().end) by {
                if ps.len() > 1 {
                    assert(ps[0].end <= ps[ps.len() - 1].start);
                }
            }
            lemma_branch_nested(Rule::Description, s, ps.first().start, ps.last().end, ps);
        }
        assert forall|i: int| 0 <= i < ts.len() implies well_nested(#[trigger] ts[i], s) by {
            if i == at_status {
            } else if i < at_status {
            } else {
            }
        }
        assert(side_by_side(ts, t.start, t.end)) by {
            assert forall|i: int| 0 <= i < ts.len() implies t.start <= (#[trigger] ts[i]).start
                <= ts[i].end <= t.end by {
                if i == at_status {
                } else if i < at_status {
                } else {
                }
            }
            assert forall|i: int, j: int| 0 <= i < j < ts.len() implies (#[trigger] ts[i]).end <= (
            #[trigger] ts[j]).start by {
                if j == at_status {
                } else {
                    if i == at_status {
                    } else {
                    }
                }
            }
        }
        lemma_branch_nested(Rule::Task, s, t.start, t.end, ts);
    }
}

/// The tree of a line is well nested, and lies on its line.
pub proof fn lemma_line_nested(s: Seq<char>, p: int)
    requires
        0 <= p < s.len(),
    ensures
        line_at(s, p) matches Ok(t) ==> well_nested(t, s) && p <= t.start <= t.end <= line_stop(
            s,
            p,
        ),
{
    let q = skip_spaces(s, p);
    lemma_skip_spaces(s, p);
    lemma_line_stop(s, p);
    lemma_skip_stays_on_line(s, p);
    if at_line_end(s, q) {
        lemma_leaf_nested(Rule::EmptyLine, s, p, q);
    } else {
        lemma_task_nested(s, q);
        law_task_fills_line(s, q);
        if let Ok(t) = task_at(s, q) {
            lemma_skip_spaces(s, t.end);
            lemma_same_line(s, p, q);
        }
    }
}

/// The trees of the lines from `p` on are well nested, and stand side by
/// side behind `p`.
pub proof fn lemma_lines_nested(s: Seq<char>, p: int)
    requires
        0 <= p <= s.len(),
    ensures
        lines(s, p) matches Ok(ts) ==> side_by_side(ts, p, s.len() as int) && forall|i: int|
            0 <= i < ts.len() ==> well_nested(#[trigger] ts[i], s),
    decreases s.len() - p,
{
    if p < s.len() {
        lemma_line_stop(s, p);
        lemma_line_nested(s, p);
        lemma_lines_nested(s, next_line(s, p));
        if let Ok(t) = line_at(s, p) {
            if let Ok(rest) = lines(s, next_line(s, p)) {
                let ts = seq![t] + rest;
                assert forall|i: int| 0 <= i < ts.len() implies well_nested(#[trigger] ts[i], s)
                    && p <= ts[i].start <= ts[i].end <= s.len() by {
                    if i > 0 {
                        assert(ts[i] == rest[i - 1]);
                    }
                }
                assert forall|i: int, j: int| 0 <= i < j < ts.len() implies (#[trigger] ts[i]).end
                    <= (#[trigger] ts[j]).start by {
                    assert(ts[j] == rest[j - 1]);
                    if i > 0 {
                        assert(ts[i] == rest[i - 1]);
                    }
                }
            }
        }
    }
}

/// Every tree that the grammar gives is well nested: each node holds the
/// text of its span, the nodes inside it lie in its span, and they follow
/// each other as their texts do in the input. The tree has the rule that
/// was asked for.
pub proof fn law_tree_nested(rule: Rule, s: Seq<char>)
    ensures
        recognise(rule, s) matches Ok(t) ==> well_nested(t, s) && t.rule == rule,
{
    lemma_skip_spaces(s, 0);
    match rule {
        Rule::File => {
            lemma_lines_nested(s, 0);
            if let Ok(ts) = lines(s, 0) {
                lemma_branch_nested(Rule::File, s, 0, s.len() as int, ts);
            }
        },
        Rule::Task => {
            lemma_task_nested(s, 0);
        },
        Rule::Status => {
            if let Some(status) = status_at(s, 0) {
                lemma_status_nested(s, 0, status);
            }
        },
        Rule::Description => {
            let ps = parts(s, 0);
            lemma_parts_nested(s, 0);
            if ps.len() > 0 {
                assert(ps.first().start <= ps.first().end <= ps.last().end) by {
                    if ps.len() > 1 {
                        assert(ps[0].end <= ps[ps.len() - 1].start);
                    }
                }
                lemma_branch_nested(Rule::Description, s, ps.first().start, ps.last().end, ps);
            }
        },
        Rule::DescriptionPart => {
            if part_starts_at(s, 0) {
                lemma_part_nested(s, 0);
            }
        },
        Rule::Tag | Rule::DueDate | Rule::StartDate | Rule::Text => {
            if s.len() > 0 {
                lemma_part_end(s, 0);
            }
        },
        _ => {},
    }
}

} // verus!
