//! The grammar, stated over sequences of characters.
//!
//! Everything here is ghost code: it says which tree the recogniser owes for
//! which input. Positions count characters from the start of the input.
//!
//! ```text
//! file        = line*
//! line        = space* (task | empty_line) (break | end of input)
//! task        = priority? space* status description?
//! priority    = "*" | "**" | "***"
//! status      = "[" (complete | incomplete | in_progress) "]"
//! complete    = "DONE"        incomplete = "TODO"        in_progress = "DOING"
//! description = (space* description_part)+
//! description_part = tag | due_date | start_date | text
//! tag         = "+" word-character+
//! due_date    = "@" date      start_date = "^" date
//! date        = digit{4} "-" digit{2} "-" digit{2}
//! text        = what precedes the next tag, date or line end,
//!               without the spaces at its end
//! space       = " " | tab     break = line feed | carriage return
//! ```
//!
//! Choices are ordered and the first alternative that matches is taken.

use vstd::prelude::*;
use crate::model::{Failure, Rule, Status, Tree};

verus! {

/// `c` is a space or a tab.
pub open spec fn is_space(c: char) -> bool {
    c == ' ' || c == '\t'
}

/// `c` ends a line: a line feed or a carriage return.
pub open spec fn is_break(c: char) -> bool {
    c == '\n' || c == '\r'
}

/// `c` is one of the digits `0` to `9`.
pub open spec fn is_digit(c: char) -> bool {
    '0' <= c && c <= '9'
}

/// `p` is the end of the input or stands on a line break.
pub open spec fn at_line_end(s: Seq<char>, p: int) -> bool {
    p >= s.len() || is_break(s[p])
}

/// The character `c` stands at `p`.
pub open spec fn char_at(s: Seq<char>, p: int, c: char) -> bool {
    0 <= p < s.len() && s[p] == c
}

/// The characters of `lit` stand at `p`.
pub open spec fn literal_at(s: Seq<char>, p: int, lit: Seq<char>) -> bool {
    0 <= p && p + lit.len() <= s.len() && s.subrange(p, p + lit.len()) == lit
}

/// The first position from `p` on that holds no space.
pub open spec fn skip_spaces(s: Seq<char>, p: int) -> int
    decreases s.len() - p,
{
    if 0 <= p < s.len() && is_space(s[p]) {
        skip_spaces(s, p + 1)
    } else {
        p
    }
}

/// The first position from `p` on that is a line end.
pub open spec fn line_stop(s: Seq<char>, p: int) -> int
    decreases s.len() - p,
{
    if 0 <= p < s.len() && !is_break(s[p]) {
        line_stop(s, p + 1)
    } else {
        p
    }
}

/// The first position from `p` on that holds a space or is a line end.
pub open spec fn word_stop(s: Seq<char>, p: int) -> int
    decreases s.len() - p,
{
    if 0 <= p < s.len() && !is_space(s[p]) && !is_break(s[p]) {
        word_stop(s, p + 1)
    } else {
        p
    }
}

/// How many `*` stand at `p`, counted up to three.
pub open spec fn star_run(s: Seq<char>, p: int) -> int {
    if !char_at(s, p, '*') {
        0
    } else if !char_at(s, p + 1, '*') {
        1
    } else if !char_at(s, p + 2, '*') {
        2
    } else {
        3
    }
}

/// The word between the brackets of a status.
pub open spec fn marker(status: Status) -> Seq<char> {
    match status {
        Status::Done => seq!['D', 'O', 'N', 'E'],
        Status::Todo => seq!['T', 'O', 'D', 'O'],
        Status::Doing => seq!['D', 'O', 'I', 'N', 'G'],
    }
}

/// The rule that matches the marker of a status.
pub open spec fn marker_rule(status: Status) -> Rule {
    match status {
        Status::Done => Rule::Complete,
        Status::Todo => Rule::Incomplete,
        Status::Doing => Rule::InProgress,
    }
}

/// The status `status` is written at `p`, brackets included.
pub open spec fn status_written_at(s: Seq<char>, p: int, status: Status) -> bool {
    &&& char_at(s, p, '[')
    &&& literal_at(s, p + 1, marker(status))
    &&& char_at(s, p + 1 + marker(status).len(), ']')
}

/// The status written at `p`, if there is one.
pub open spec fn status_at(s: Seq<char>, p: int) -> Option<Status> {
    if status_written_at(s, p, Status::Done) {
        Some(Status::Done)
    } else if status_written_at(s, p, Status::Todo) {
        Some(Status::Todo)
    } else if status_written_at(s, p, Status::Doing) {
        Some(Status::Doing)
    } else {
        None
    }
}

/// The length of a status as written, brackets included.
pub open spec fn status_len(status: Status) -> int {
    marker(status).len() as int + 2
}

/// A date, `YYYY-MM-DD`, stands at `p`. Only the shape is looked at.
pub open spec fn date_at(s: Seq<char>, p: int) -> bool {
    &&& 0 <= p
    &&& p + 10 <= s.len()
    &&& is_digit(s[p])
    &&& is_digit(s[p + 1])
    &&& is_digit(s[p + 2])
    &&& is_digit(s[p + 3])
    &&& s[p + 4] == '-'
    &&& is_digit(s[p + 5])
    &&& is_digit(s[p + 6])
    &&& s[p + 7] == '-'
    &&& is_digit(s[p + 8])
    &&& is_digit(s[p + 9])
}

/// The length of a dated token: its marker and the date.
pub open spec fn dated_len() -> int {
    11
}

/// A tag starts at `p`: a `+` with a character of a word behind it.
pub open spec fn tag_at(s: Seq<char>, p: int) -> bool {
    &&& char_at(s, p, '+')
    &&& p + 1 < s.len()
    &&& !is_space(s[p + 1])
    &&& !is_break(s[p + 1])
}

/// A due date stands at `p`: an `@` with a date behind it.
pub open spec fn due_date_at(s: Seq<char>, p: int) -> bool {
    char_at(s, p, '@') && date_at(s, p + 1)
}

/// A start date stands at `p`: a `^` with a date behind it.
pub open spec fn start_date_at(s: Seq<char>, p: int) -> bool {
    char_at(s, p, '^') && date_at(s, p + 1)
}

/// A tag or a date starts at `p`.
pub open spec fn token_at(s: Seq<char>, p: int) -> bool {
    tag_at(s, p) || due_date_at(s, p) || start_date_at(s, p)
}

/// The first position from `p` on where a text cannot go on: a line end, or
/// the start of a tag or a date.
pub open spec fn text_stop(s: Seq<char>, p: int) -> int
    decreases s.len() - p,
{
    if 0 <= p < s.len() && !is_break(s[p]) && !token_at(s, p) {
        text_stop(s, p + 1)
    } else {
        p
    }
}

/// `hi` moved back over the spaces before it, but not below `lo`.
pub open spec fn trim_end(s: Seq<char>, lo: int, hi: int) -> int
    decreases hi - lo,
{
    if lo < hi && 0 < hi <= s.len() && is_space(s[hi - 1]) {
        trim_end(s, lo, hi - 1)
    } else {
        hi
    }
}

/// The tree of a rule that matched `s` from `from` to `to` and has no rules
/// inside it.
pub open spec fn leaf(rule: Rule, s: Seq<char>, from: int, to: int) -> Tree {
    Tree { rule, start: from, end: to, text: s.subrange(from, to), children: Seq::empty() }
}

/// The tree of a rule that matched `s` from `from` to `to` with `children`
/// inside it.
pub open spec fn branch(rule: Rule, s: Seq<char>, from: int, to: int, children: Seq<Tree>) -> Tree {
    Tree { rule, start: from, end: to, text: s.subrange(from, to), children }
}

/// The failure of `expected` at `position`.
pub open spec fn failure(position: int, expected: Seq<Rule>) -> Failure {
    Failure { position, expected }
}

/// The alternative of `description_part` that is taken at `p`: the first of
/// tag, due date and start date that matches, else text.
pub open spec fn part_rule(s: Seq<char>, p: int) -> Rule {
    if tag_at(s, p) {
        Rule::Tag
    } else if due_date_at(s, p) {
        Rule::DueDate
    } else if start_date_at(s, p) {
        Rule::StartDate
    } else {
        Rule::Text
    }
}

/// Where the description part that starts at `p` ends.
pub open spec fn part_end(s: Seq<char>, p: int) -> int {
    match part_rule(s, p) {
        Rule::Tag => word_stop(s, p + 1),
        Rule::DueDate | Rule::StartDate => p + dated_len(),
        _ => trim_end(s, p + 1, text_stop(s, p + 1)),
    }
}

/// The tree of the description part that starts at `p`.
pub open spec fn part_tree(s: Seq<char>, p: int) -> Tree {
    branch(
        Rule::DescriptionPart,
        s,
        p,
        part_end(s, p),
        seq![leaf(part_rule(s, p), s, p, part_end(s, p))],
    )
}

/// The trees of the description parts between `p` and the end of its line.
pub open spec fn parts(s: Seq<char>, p: int) -> Seq<Tree>
    decreases s.len() - p,
    via parts_decreases
{
    let q = skip_spaces(s, p);
    if p < 0 || at_line_end(s, q) {
        Seq::empty()
    } else {
        seq![part_tree(s, q)] + parts(s, part_end(s, q))
    }
}

#[via_fn]
proof fn parts_decreases(s: Seq<char>, p: int) {
    let q = skip_spaces(s, p);
    if !(p < 0 || at_line_end(s, q)) {
        lemma_skip_spaces(s, p);
        lemma_part_end(s, q);
    }
}

/// The tree of the priority of `n` stars at `p`.
pub open spec fn priority_tree(s: Seq<char>, p: int, n: int) -> Tree {
    leaf(Rule::Priority, s, p, p + n)
}

/// The tree of the status `status` at `p`.
pub open spec fn status_tree(s: Seq<char>, p: int, status: Status) -> Tree {
    branch(
        Rule::Status,
        s,
        p,
        p + status_len(status),
        seq![leaf(marker_rule(status), s, p + 1, p + status_len(status) - 1)],
    )
}

/// The tree of a description made of the parts `ps`, of which there is at
/// least one.
pub open spec fn description_tree(s: Seq<char>, ps: Seq<Tree>) -> Tree {
    branch(Rule::Description, s, ps.first().start, ps.last().end, ps)
}

/// Where the status of the task that starts at `p` has to stand: at `p`, or
/// behind the priority and the spaces after it.
pub open spec fn status_start(s: Seq<char>, p: int) -> int {
    if star_run(s, p) > 0 {
        skip_spaces(s, p + star_run(s, p))
    } else {
        p
    }
}

/// The rules that can go on where the status of the task at `p` has to stand.
pub open spec fn status_expected(s: Seq<char>, p: int) -> Seq<Rule> {
    if star_run(s, p) > 0 {
        seq![Rule::Status]
    } else {
        seq![Rule::Priority, Rule::Status]
    }
}

/// The task that starts at `p`: its tree, or the failure where the status is
/// missing.
pub open spec fn task_at(s: Seq<char>, p: int) -> Result<Tree, Failure> {
    let n = star_run(s, p);
    let k = status_start(s, p);
    match status_at(s, k) {
        None => Err(failure(k, status_expected(s, p))),
        Some(status) => {
            let e = k + status_len(status);
            let ps = parts(s, e);
            let head = if n > 0 {
                seq![priority_tree(s, p, n)]
            } else {
                Seq::empty()
            };
            let tail = if ps.len() > 0 {
                seq![description_tree(s, ps)]
            } else {
                Seq::empty()
            };
            let end = if ps.len() > 0 {
                ps.last().end
            } else {
                e
            };
            Ok(branch(Rule::Task, s, p, end, head + seq![status_tree(s, k, status)] + tail))
        },
    }
}

/// Where the line after the one that holds `p` starts.
pub open spec fn next_line(s: Seq<char>, p: int) -> int {
    if line_stop(s, p) < s.len() {
        line_stop(s, p) + 1
    } else {
        line_stop(s, p)
    }
}

/// The tree of the line that starts at `p`: an empty line where it holds
/// spaces only, else the task behind its leading spaces.
pub open spec fn line_at(s: Seq<char>, p: int) -> Result<Tree, Failure> {
    let q = skip_spaces(s, p);
    if at_line_end(s, q) {
        Ok(leaf(Rule::EmptyLine, s, p, q))
    } else {
        task_at(s, q)
    }
}

/// The trees of the lines from `p` to the end of the input, or the failure
/// of the first line that is neither empty nor a task.
pub open spec fn lines(s: Seq<char>, p: int) -> Result<Seq<Tree>, Failure>
    decreases s.len() - p,
    via lines_decreases
{
    if p < 0 || p >= s.len() {
        Ok(Seq::empty())
    } else {
        match line_at(s, p) {
            Err(f) => Err(f),
            Ok(t) => match lines(s, next_line(s, p)) {
                Err(f) => Err(f),
                Ok(rest) => Ok(seq![t] + rest),
            },
        }
    }
}

#[via_fn]
proof fn lines_decreases(s: Seq<char>, p: int) {
    if !(p < 0 || p >= s.len()) {
        lemma_line_stop(s, p);
    }
}

/// `r` with the trees `ts` put before its own, where it has any.
pub open spec fn after(ts: Seq<Tree>, r: Result<Seq<Tree>, Failure>) -> Result<Seq<Tree>, Failure> {
    match r {
        Ok(rest) => Ok(ts + rest),
        Err(f) => Err(f),
    }
}

/// The tree of the whole input as a file.
pub open spec fn file_tree(s: Seq<char>) -> Result<Tree, Failure> {
    match lines(s, 0) {
        Err(f) => Err(f),
        Ok(ls) => Ok(branch(Rule::File, s, 0, s.len() as int, ls)),
    }
}

/// A description part can start at `p`: a character stands there that is
/// neither a space nor a break.
pub open spec fn part_starts_at(s: Seq<char>, p: int) -> bool {
    0 <= p < s.len() && !is_space(s[p]) && !is_break(s[p])
}

/// `tree` where `found` holds, else the failure of `rule` at the start.
pub open spec fn found_or_expected(found: bool, tree: Tree, rule: Rule) -> Result<Tree, Failure> {
    if found {
        Ok(tree)
    } else {
        Err(failure(0, seq![rule]))
    }
}

/// What recognising `rule` at the start of `s` gives: the tree of the
/// longest match that the grammar allows, or the failure. Only `File` asks
/// that the whole input is matched.
pub open spec fn recognise(rule: Rule, s: Seq<char>) -> Result<Tree, Failure> {
    match rule {
        Rule::File => file_tree(s),
        Rule::Task => task_at(s, 0),
        Rule::EmptyLine => if at_line_end(s, skip_spaces(s, 0)) {
            Ok(leaf(Rule::EmptyLine, s, 0, skip_spaces(s, 0)))
        } else {
            Err(failure(skip_spaces(s, 0), seq![Rule::EmptyLine]))
        },
        Rule::Priority => found_or_expected(
            star_run(s, 0) > 0,
            priority_tree(s, 0, star_run(s, 0)),
            rule,
        ),
        Rule::Status => match status_at(s, 0) {
            Some(status) => Ok(status_tree(s, 0, status)),
            None => Err(failure(0, seq![Rule::Status])),
        },
        Rule::Complete => found_or_expected(
            literal_at(s, 0, marker(Status::Done)),
            leaf(rule, s, 0, marker(Status::Done).len() as int),
            rule,
        ),
        Rule::Incomplete => found_or_expected(
            literal_at(s, 0, marker(Status::Todo)),
            leaf(rule, s, 0, marker(Status::Todo).len() as int),
            rule,
        ),
        Rule::InProgress => found_or_expected(
            literal_at(s, 0, marker(Status::Doing)),
            leaf(rule, s, 0, marker(Status::Doing).len() as int),
            rule,
        ),
        Rule::Description => if parts(s, 0).len() > 0 {
            Ok(description_tree(s, parts(s, 0)))
        } else {
            Err(failure(skip_spaces(s, 0), seq![Rule::DescriptionPart]))
        },
        Rule::DescriptionPart => found_or_expected(part_starts_at(s, 0), part_tree(s, 0), rule),
        Rule::Tag => found_or_expected(tag_at(s, 0), leaf(rule, s, 0, part_end(s, 0)), rule),
        Rule::DueDate => found_or_expected(
            due_date_at(s, 0),
            leaf(rule, s, 0, part_end(s, 0)),
            rule,
        ),
        Rule::StartDate => found_or_expected(
            start_date_at(s, 0),
            leaf(rule, s, 0, part_end(s, 0)),
            rule,
        ),
        Rule::Text => found_or_expected(
            part_starts_at(s, 0) && !token_at(s, 0),
            leaf(rule, s, 0, part_end(s, 0)),
            rule,
        ),
    }
}

/// `skip_spaces` moves forward, stays inside the input, and stops on
/// something that is no space.
pub proof fn lemma_skip_spaces(s: Seq<char>, p: int)
    requires
        0 <= p <= s.len(),
    ensures
        p <= skip_spaces(s, p) <= s.len(),
        skip_spaces(s, p) < s.len() ==> !is_space(s[skip_spaces(s, p)]),
        forall|i: int| p <= i < skip_spaces(s, p) ==> is_space(#[trigger] s[i]),
    decreases s.len() - p,
{
    if p < s.len() && is_space(s[p]) {
        lemma_skip_spaces(s, p + 1);
    }
}

/// Skipping spaces a second time changes nothing.
pub proof fn lemma_skip_twice(s: Seq<char>, p: int)
    requires
        0 <= p <= s.len(),
    ensures
        skip_spaces(s, skip_spaces(s, p)) == skip_spaces(s, p),
{
    lemma_skip_spaces(s, p);
}

/// The parts from `p` on are those from behind the spaces at `p` on.
pub proof fn lemma_parts_skip(s: Seq<char>, p: int)
    requires
        0 <= p <= s.len(),
    ensures
        parts(s, skip_spaces(s, p)) == parts(s, p),
{
    lemma_skip_twice(s, p);
    lemma_skip_spaces(s, p);
}

/// The trees of `ts` lie between `lo` and `hi`, none is empty, and each ends
/// before the next one starts.
pub open spec fn in_order(ts: Seq<Tree>, lo: int, hi: int) -> bool {
    &&& forall|i: int| 0 <= i < ts.len() ==> lo <= (#[trigger] ts[i]).start < ts[i].end <= hi
    &&& forall|i: int, j: int|
        0 <= i < j < ts.len() ==> (#[trigger] ts[i]).end <= (#[trigger] ts[j]).start
}

/// The description parts of a line stand in the order in which they are
/// written: each starts where the one before it has ended, or later.
pub proof fn lemma_parts_in_order(s: Seq<char>, p: int)
    requires
        0 <= p <= s.len(),
    ensures
        in_order(parts(s, p), p, s.len() as int),
    decreases s.len() - p,
{
    let q = skip_spaces(s, p);
    lemma_skip_spaces(s, p);
    if !at_line_end(s, q) {
        let e = part_end(s, q);
        lemma_part_end(s, q);
        lemma_parts_in_order(s, e);
        let rest = parts(s, e);
        let all = parts(s, p);
        assert(all == seq![part_tree(s, q)] + rest);
        assert forall|i: int| 0 <= i < all.len() implies p <= (#[trigger] all[i]).start
            < all[i].end <= s.len() by {
            if i > 0 {
                assert(all[i] == rest[i - 1]);
            }
        }
        assert forall|i: int, j: int| 0 <= i < j < all.len() implies (#[trigger] all[i]).end <= (
        #[trigger] all[j]).start by {
            assert(all[j] == rest[j - 1]);
            if i > 0 {
                assert(all[i] == rest[i - 1]);
            }
        }
    }
}

/// `line_stop` moves forward, stays inside the input, and stops on a line
/// end; no break stands before it.
pub proof fn lemma_line_stop(s: Seq<char>, p: int)
    requires
        0 <= p <= s.len(),
    ensures
        p <= line_stop(s, p) <= s.len(),
        at_line_end(s, line_stop(s, p)),
        forall|i: int| p <= i < line_stop(s, p) ==> !is_break(#[trigger] s[i]),
    decreases s.len() - p,
{
    if p < s.len() && !is_break(s[p]) {
        lemma_line_stop(s, p + 1);
    }
}

/// `word_stop` moves forward, stays inside the input, and passes neither a
/// space nor a break.
pub proof fn lemma_word_stop(s: Seq<char>, p: int)
    requires
        0 <= p <= s.len(),
    ensures
        p <= word_stop(s, p) <= s.len(),
        word_stop(s, p) < s.len() ==> is_space(s[word_stop(s, p)]) || is_break(s[word_stop(s, p)]),
        forall|i: int| p <= i < word_stop(s, p) ==> !is_space(#[trigger] s[i]) && !is_break(s[i]),
    decreases s.len() - p,
{
    if p < s.len() && !is_space(s[p]) && !is_break(s[p]) {
        lemma_word_stop(s, p + 1);
    }
}

/// `text_stop` moves forward, stays inside the input, and stops on a line
/// end or on the start of a tag or a date; it passes none of them.
pub proof fn lemma_text_stop(s: Seq<char>, p: int)
    requires
        0 <= p <= s.len(),
    ensures
        p <= text_stop(s, p) <= s.len(),
        at_line_end(s, text_stop(s, p)) || token_at(s, text_stop(s, p)),
        forall|i: int| p <= i < text_stop(s, p) ==> !is_break(#[trigger] s[i]) && !token_at(s, i),
    decreases s.len() - p,
{
    if p < s.len() && !is_break(s[p]) && !token_at(s, p) {
        lemma_text_stop(s, p + 1);
    }
}

/// `trim_end` moves back over spaces only, and not below `lo`.
pub proof fn lemma_trim_end(s: Seq<char>, lo: int, hi: int)
    requires
        0 <= lo <= hi <= s.len(),
    ensures
        lo <= trim_end(s, lo, hi) <= hi,
        lo < trim_end(s, lo, hi) ==> !is_space(s[trim_end(s, lo, hi) - 1]),
        forall|i: int| trim_end(s, lo, hi) <= i < hi ==> is_space(#[trigger] s[i]),
    decreases hi - lo,
{
    if lo < hi && is_space(s[hi - 1]) {
        lemma_trim_end(s, lo, hi - 1);
    }
}

/// A description part that starts inside the input is not empty and ends
/// inside the input.
pub proof fn lemma_part_end(s: Seq<char>, p: int)
    requires
        0 <= p < s.len(),
    ensures
        p < part_end(s, p) <= s.len(),
{
    lemma_word_stop(s, p + 1);
    lemma_text_stop(s, p + 1);
    lemma_trim_end(s, p + 1, text_stop(s, p + 1));
}

} // verus!
