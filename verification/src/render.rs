//! Showing a task as a line of text.

use vstd::prelude::*;
use vstd::string::StringExecFns;
use crate::model::{part_views, DescriptionPart, PartView, Priority, Status, Task, TaskView};
use crate::text::{chars_of, slice_string};

verus! {

/// The characters that count as white space when a text is trimmed: those
/// with the Unicode property `White_Space`.
pub open spec fn is_white(c: char) -> bool {
    ||| ('\u{9}' <= c && c <= '\u{d}')
    ||| c == ' '
    ||| c == '\u{85}'
    ||| c == '\u{a0}'
    ||| c == '\u{1680}'
    ||| ('\u{2000}' <= c && c <= '\u{200a}')
    ||| c == '\u{2028}'
    ||| c == '\u{2029}'
    ||| c == '\u{202f}'
    ||| c == '\u{205f}'
    ||| c == '\u{3000}'
}

/// The first position from `p` on that holds no white space.
pub open spec fn ink_start(s: Seq<char>, p: int) -> int
    decreases s.len() - p,
{
    if 0 <= p < s.len() && is_white(s[p]) {
        ink_start(s, p + 1)
    } else {
        p
    }
}

/// `hi` moved back over the white space before it, but not below `lo`.
pub open spec fn ink_end(s: Seq<char>, lo: int, hi: int) -> int
    decreases hi - lo,
{
    if lo < hi && 0 < hi <= s.len() && is_white(s[hi - 1]) {
        ink_end(s, lo, hi - 1)
    } else {
        hi
    }
}

/// `s` without the white space at its start and at its end.
pub open spec fn trimmed(s: Seq<char>) -> Seq<char> {
    s.subrange(ink_start(s, 0), ink_end(s, ink_start(s, 0), s.len() as int))
}

/// How a priority is shown.
pub open spec fn priority_mark(priority: Option<Priority>) -> Seq<char> {
    match priority {
        Some(Priority::P1) => "(***)"@,
        Some(Priority::P2) => "(**)"@,
        Some(Priority::P3) => "(*)"@,
        None => ""@,
    }
}

/// How a status is shown.
pub open spec fn status_mark(status: Status) -> Seq<char> {
    match status {
        Status::Todo => "[TODO]"@,
        Status::Doing => "[DOING]"@,
        Status::Done => "[DONE]"@,
    }
}

/// How a fragment is shown: a text trimmed, a tag or a date as it is.
pub open spec fn shown(part: PartView) -> Seq<char> {
    match part {
        PartView::Text(t) => trimmed(t),
        PartView::Tag(t) => t,
        PartView::DueDate(t) => t,
        PartView::StartDate(t) => t,
    }
}

/// The fragments as they are shown, a space before each.
pub open spec fn shown_parts(parts: Seq<PartView>) -> Seq<char>
    decreases parts.len(),
{
    if parts.len() == 0 {
        Seq::empty()
    } else {
        shown_parts(parts.drop_last()) + seq![' '] + shown(parts.last())
    }
}

/// The line that shows a task: its priority, a space, its status, and its
/// fragments in their order with a space before each.
pub open spec fn rendered(task: TaskView) -> Seq<char> {
    priority_mark(task.priority) + seq![' '] + status_mark(task.status) + shown_parts(
        task.description,
    )
}

/// Tells whether `c` counts as white space.
pub fn is_white_char(c: char) -> (b: bool)
    ensures
        b == is_white(c),
{
    ('\u{9}' <= c && c <= '\u{d}') || c == ' ' || c == '\u{85}' || c == '\u{a0}' || c == '\u{1680}'
        || ('\u{2000}' <= c && c <= '\u{200a}') || c == '\u{2028}' || c == '\u{2029}' || c
        == '\u{202f}' || c == '\u{205f}' || c == '\u{3000}'
}

/// The text without the white space at its start and at its end.
pub fn trim(text: &str) -> (out: String)
    ensures
        out@ == trimmed(text@),
{
    let chars = chars_of(text);
    let mut lo: usize = 0;
    while lo < chars.len() && is_white_char(chars[lo])
        invariant
            lo <= chars.len(),
            ink_start(chars@, lo as int) == ink_start(chars@, 0),
        decreases chars.len() - lo,
    {
        lo += 1;
    }
    let mut hi: usize = chars.len();
    while lo < hi && is_white_char(chars[hi - 1])
        invariant
            lo <= hi <= chars.len(),
            ink_end(chars@, lo as int, hi as int) == ink_end(chars@, lo as int, chars.len() as int),
        decreases hi - lo,
    {
        hi -= 1;
    }
    slice_string(&chars, lo, hi)
}

/// The line that shows a task, without a line break at its end.
pub fn render_task(task: &Task) -> (line: String)
    ensures
        line@ == rendered(task@),
{
    let priority_str = match &task.priority {
        Some(Priority::P1) => "(***)",
        Some(Priority::P2) => "(**)",
        Some(Priority::P3) => "(*)",
        None => "",
    };
    let status_str = match &task.status {
        Status::Todo => "[TODO]",
        Status::Doing => "[DOING]",
        Status::Done => "[DONE]",
    };
    let mut line = String::from_str(priority_str);
    line.append(" ");
    line.append(status_str);
    let ghost head = line@;
    let ghost parts = task@.description;
    proof {
        reveal_strlit(" ");
        assert(" "@ =~= seq![' ']);
        assert(head =~= priority_mark(task@.priority) + seq![' '] + status_mark(task@.status));
        assert(parts.take(0) =~= Seq::<PartView>::empty());
        assert(line@ =~= head + shown_parts(parts.take(0)));
    }
    let mut i: usize = 0;
    while i < task.description.len()
        invariant
            i <= task.description.len(),
            parts == part_views(task.description@),
            line@ == head + shown_parts(parts.take(i as int)),
        decreases task.description.len() - i,
    {
        let ghost before = line@;
        line.append(" ");
        match &task.description[i] {
            DescriptionPart::Text(t) => {
                let text = trim(t.as_str());
                line.append(text.as_str());
            },
            DescriptionPart::Tag(t) => {
                line.append(t.as_str());
            },
            DescriptionPart::DueDate(t) => {
                line.append(t.as_str());
            },
            DescriptionPart::StartDate(t) => {
                line.append(t.as_str());
            },
        }
        proof {
            reveal_strlit(" ");
            assert(" "@ =~= seq![' ']);
            let now = parts.take(i + 1);
            assert(now.drop_last() =~= parts.take(i as int));
            assert(now.last() == task.description@[i as int]@);
            assert(line@ =~= before + seq![' '] + shown(now.last()));
            assert(line@ =~= head + shown_parts(now));
        }
        i += 1;
    }
    assert(parts.take(i as int) =~= parts);
    line
}

} // verus!
