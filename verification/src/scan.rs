//! The recogniser's scanners: executable counterparts of the grammar's
//! lexical functions, each proved equal to the function it computes.

use vstd::prelude::*;
use crate::model::{Rule, Status};
use crate::syntax;

verus! {

/// Tells whether `c` is a space or a tab.
pub fn is_space(c: char) -> (b: bool)
    ensures
        b == syntax::is_space(c),
{
    c == ' ' || c == '\t'
}

/// Tells whether `c` ends a line.
pub fn is_break(c: char) -> (b: bool)
    ensures
        b == syntax::is_break(c),
{
    c == '\n' || c == '\r'
}

/// Tells whether `c` is one of the digits `0` to `9`.
pub fn is_digit(c: char) -> (b: bool)
    ensures
        b == syntax::is_digit(c),
{
    '0' <= c && c <= '9'
}

/// Tells whether `p` is a line end of `input`.
pub fn at_line_end(input: &Vec<char>, p: usize) -> (b: bool)
    ensures
        b == syntax::at_line_end(input@, p as int),
{
    p >= input.len() || is_break(input[p])
}

/// Tells whether `c` stands at `p`.
pub fn char_at(input: &Vec<char>, p: usize, c: char) -> (b: bool)
    ensures
        b == syntax::char_at(input@, p as int, c),
        b ==> p < input.len(),
{
    p < input.len() && input[p] == c
}

/// The first position from `p` on that holds no space.
pub fn skip_spaces(input: &Vec<char>, p: usize) -> (q: usize)
    requires
        p <= input.len(),
    ensures
        q == syntax::skip_spaces(input@, p as int),
        p <= q <= input.len(),
{
    let mut q: usize = p;
    while q < input.len() && is_space(input[q])
        invariant
            p <= q <= input.len(),
            syntax::skip_spaces(input@, q as int) == syntax::skip_spaces(input@, p as int),
        decreases input.len() - q,
    {
        q += 1;
    }
    q
}

/// The first position from `p` on that is a line end.
pub fn line_stop(input: &Vec<char>, p: usize) -> (q: usize)
    requires
        p <= input.len(),
    ensures
        q == syntax::line_stop(input@, p as int),
        p <= q <= input.len(),
{
    let mut q: usize = p;
    while q < input.len() && !is_break(input[q])
        invariant
            p <= q <= input.len(),
            syntax::line_stop(input@, q as int) == syntax::line_stop(input@, p as int),
        decreases input.len() - q,
    {
        q += 1;
    }
    q
}

/// The first position from `p` on that holds a space or is a line end.
pub fn word_stop(input: &Vec<char>, p: usize) -> (q: usize)
    requires
        p <= input.len(),
    ensures
        q == syntax::word_stop(input@, p as int),
        p <= q <= input.len(),
{
    let mut q: usize = p;
    while q < input.len() && !is_space(input[q]) && !is_break(input[q])
        invariant
            p <= q <= input.len(),
            syntax::word_stop(input@, q as int) == syntax::word_stop(input@, p as int),
        decreases input.len() - q,
    {
        q += 1;
    }
    q
}

/// How many `*` stand at `p`, counted up to three.
pub fn star_run(input: &Vec<char>, p: usize) -> (n: usize)
    requires
        p <= input.len(),
    ensures
        n == syntax::star_run(input@, p as int),
        n <= 3,
        p + n <= input.len(),
{
    if !char_at(input, p, '*') {
        0
    } else if !char_at(input, p + 1, '*') {
        1
    } else if !char_at(input, p + 2, '*') {
        2
    } else {
        3
    }
}

/// Tells whether a date stands at `p`.
pub fn date_at(input: &Vec<char>, p: usize) -> (b: bool)
    requires
        p <= input.len(),
    ensures
        b == syntax::date_at(input@, p as int),
{
    input.len() - p >= 10 && is_digit(input[p]) && is_digit(input[p + 1]) && is_digit(
        input[p + 2],
    ) && is_digit(input[p + 3]) && input[p + 4] == '-' && is_digit(input[p + 5]) && is_digit(
        input[p + 6],
    ) && input[p + 7] == '-' && is_digit(input[p + 8]) && is_digit(input[p + 9])
}

/// Tells whether a tag starts at `p`.
pub fn tag_at(input: &Vec<char>, p: usize) -> (b: bool)
    requires
        p <= input.len(),
    ensures
        b == syntax::tag_at(input@, p as int),
        b ==> p + 1 < input.len(),
{
    char_at(input, p, '+') && p + 1 < input.len() && !is_space(input[p + 1]) && !is_break(
        input[p + 1],
    )
}

/// Tells whether a due date stands at `p`.
pub fn due_date_at(input: &Vec<char>, p: usize) -> (b: bool)
    requires
        p <= input.len(),
    ensures
        b == syntax::due_date_at(input@, p as int),
        b ==> p + 11 <= input.len(),
{
    char_at(input, p, '@') && date_at(input, p + 1)
}

/// Tells whether a start date stands at `p`.
pub fn start_date_at(input: &Vec<char>, p: usize) -> (b: bool)
    requires
        p <= input.len(),
    ensures
        b == syntax::start_date_at(input@, p as int),
        b ==> p + 11 <= input.len(),
{
    char_at(input, p, '^') && date_at(input, p + 1)
}

/// Tells whether a tag or a date starts at `p`.
pub fn token_at(input: &Vec<char>, p: usize) -> (b: bool)
    requires
        p <= input.len(),
    ensures
        b == syntax::token_at(input@, p as int),
{
    tag_at(input, p) || due_date_at(input, p) || start_date_at(input, p)
}

/// The first position from `p` on where a text cannot go on.
pub fn text_stop(input: &Vec<char>, p: usize) -> (q: usize)
    requires
        p <= input.len(),
    ensures
        q == syntax::text_stop(input@, p as int),
        p <= q <= input.len(),
{
    let mut q: usize = p;
    while q < input.len() && !is_break(input[q]) && !token_at(input, q)
        invariant
            p <= q <= input.len(),
            syntax::text_stop(input@, q as int) == syntax::text_stop(input@, p as int),
        decreases input.len() - q,
    {
        q += 1;
    }
    q
}

/// `hi` moved back over the spaces before it, but not below `lo`.
pub fn trim_end(input: &Vec<char>, lo: usize, hi: usize) -> (q: usize)
    requires
        lo <= hi <= input.len(),
    ensures
        q == syntax::trim_end(input@, lo as int, hi as int),
        lo <= q <= hi,
{
    let mut q: usize = hi;
    while lo < q && is_space(input[q - 1])
        invariant
            lo <= q <= hi <= input.len(),
            syntax::trim_end(input@, lo as int, q as int) == syntax::trim_end(
                input@,
                lo as int,
                hi as int,
            ),
        decreases q - lo,
    {
        q -= 1;
    }
    q
}

/// Tells whether the marker of `status` stands at `p`.
pub fn marker_at(input: &Vec<char>, p: usize, status: Status) -> (b: bool)
    requires
        p <= input.len(),
    ensures
        b == syntax::literal_at(input@, p as int, syntax::marker(status)),
        b ==> p + syntax::marker(status).len() <= input.len(),
{
    let ghost s = input@;
    let ghost w = syntax::marker(status);
    let ghost sub = s.subrange(p as int, p + w.len());
    proof {
        if syntax::literal_at(s, p as int, w) {
            assert(sub[0] == s[p + 0]);
            assert(sub[1] == s[p + 1]);
            assert(sub[2] == s[p + 2]);
            assert(sub[3] == s[p + 3]);
            if w.len() > 4 {
                assert(sub[4] == s[p + 4]);
            }
        }
    }
    let b = match status {
        Status::Done => input.len() - p >= 4 && input[p] == 'D' && input[p + 1] == 'O' && input[p
            + 2] == 'N' && input[p + 3] == 'E',
        Status::Todo => input.len() - p >= 4 && input[p] == 'T' && input[p + 1] == 'O' && input[p
            + 2] == 'D' && input[p + 3] == 'O',
        Status::Doing => input.len() - p >= 5 && input[p] == 'D' && input[p + 1] == 'O' && input[p
            + 2] == 'I' && input[p + 3] == 'N' && input[p + 4] == 'G',
    };
    proof {
        if b {
            assert(sub =~= w);
        }
    }
    b
}

/// The length of the marker of `status`.
pub fn marker_len(status: Status) -> (n: usize)
    ensures
        n == syntax::marker(status).len(),
        4 <= n <= 5,
{
    match status {
        Status::Done => 4,
        Status::Todo => 4,
        Status::Doing => 5,
    }
}

/// Tells whether `status` is written at `p`, brackets included.
pub fn status_written_at(input: &Vec<char>, p: usize, status: Status) -> (b: bool)
    requires
        p <= input.len(),
    ensures
        b == syntax::status_written_at(input@, p as int, status),
        b ==> p + syntax::status_len(status) <= input.len(),
{
    char_at(input, p, '[') && marker_at(input, p + 1, status) && char_at(
        input,
        p + 1 + marker_len(status),
        ']',
    )
}

/// The status written at `p`, if there is one.
pub fn status_at(input: &Vec<char>, p: usize) -> (found: Option<Status>)
    requires
        p <= input.len(),
    ensures
        found == syntax::status_at(input@, p as int),
        found matches Some(status) ==> p + syntax::status_len(status) <= input.len(),
{
    if status_written_at(input, p, Status::Done) {
        Some(Status::Done)
    } else if status_written_at(input, p, Status::Todo) {
        Some(Status::Todo)
    } else if status_written_at(input, p, Status::Doing) {
        Some(Status::Doing)
    } else {
        None
    }
}

/// Tells whether a description part can start at `p`.
pub fn part_starts_at(input: &Vec<char>, p: usize) -> (b: bool)
    ensures
        b == syntax::part_starts_at(input@, p as int),
        b ==> p < input.len(),
{
    p < input.len() && !is_space(input[p]) && !is_break(input[p])
}

/// The alternative of `description_part` that is taken at `p`.
pub fn part_rule(input: &Vec<char>, p: usize) -> (rule: Rule)
    requires
        p <= input.len(),
    ensures
        rule == syntax::part_rule(input@, p as int),
{
    if tag_at(input, p) {
        Rule::Tag
    } else if due_date_at(input, p) {
        Rule::DueDate
    } else if start_date_at(input, p) {
        Rule::StartDate
    } else {
        Rule::Text
    }
}

/// Where the description part that starts at `p` ends; `p` itself where
/// the input ends at `p`.
pub fn part_end(input: &Vec<char>, p: usize) -> (end: usize)
    requires
        p <= input.len(),
    ensures
        p < input.len() ==> end == syntax::part_end(input@, p as int),
        p < input.len() ==> p < end,
        p <= end <= input.len(),
{
    if p >= input.len() {
        return p;
    }
    proof {
        syntax::lemma_part_end(input@, p as int);
    }
    match part_rule(input, p) {
        Rule::Tag => word_stop(input, p + 1),
        Rule::DueDate | Rule::StartDate => p + 11,
        _ => {
            let stop = text_stop(input, p + 1);
            trim_end(input, p + 1, stop)
        },
    }
}

} // verus!
