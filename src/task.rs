//! Rendering a task description as a checklist line.
use vstd::prelude::*;
use crate::text::{chars_of, lemma_trim_chars, push_all, string_of, trim, trimmed};

verus! {

/// The hourglass that marks a due date.
pub const DUE_MARK: char = '\u{23F3}';

/// The unchecked-checkbox marker that opens every task line.
pub open spec fn checkbox() -> Seq<char> {
    seq!['-', ' ', '[', ' ', ']', ' ']
}

/// What separates the description from a due date.
pub open spec fn due_separator() -> Seq<char> {
    seq![' ', DUE_MARK, ' ']
}

/// The task line for `description` with an optional due date, kept verbatim.
pub open spec fn task_line(description: Seq<char>, due: Option<Seq<char>>) -> Seq<char> {
    match due {
        Some(d) => checkbox() + trim(description) + due_separator() + d,
        None => checkbox() + trim(description),
    }
}

/// Renders `content` (trimmed) as an unchecked task, followed by the due date
/// when one is given.
pub fn format_task(content: &str, due_date: Option<&str>) -> (r: String)
    ensures
        r@ == task_line(content@, match due_date {
            Some(d) => Some(d@),
            None => None,
        }),
{
    let chars = chars_of(content);
    let body = trimmed(chars.as_slice());
    let mut out: Vec<char> = Vec::new();
    out.push('-');
    out.push(' ');
    out.push('[');
    out.push(' ');
    out.push(']');
    out.push(' ');
    assert(out@ =~= checkbox());
    push_all(&mut out, body.as_slice());
    match due_date {
        Some(d) => {
            out.push(' ');
            out.push(DUE_MARK);
            out.push(' ');
            let dc = chars_of(d);
            push_all(&mut out, dc.as_slice());
            assert(out@ =~= checkbox() + trim(content@) + due_separator() + d@);
        },
        None => {},
    }
    string_of(&out)
}

/// A task line opens with the checkbox and the trimmed description; with a due
/// date it closes with the hourglass and that date, and without one it holds no
/// hourglass unless the description does.
pub proof fn lemma_task_line_shape(description: Seq<char>, due: Option<Seq<char>>)
    ensures
        task_line(description, due).subrange(0, 6) == checkbox(),
        task_line(description, due).subrange(6, 6 + trim(description).len() as int) == trim(description),
        due is Some ==> ({
            let tail = due_separator() + due->0;
            let r = task_line(description, due);
            r.subrange(r.len() - tail.len(), r.len() as int) == tail
        }),
        due is None && !description.contains(DUE_MARK) ==> !task_line(description, due).contains(
            DUE_MARK,
        ),
{
    let t = trim(description);
    let r = task_line(description, due);
    assert(r.subrange(0, 6) =~= checkbox());
    assert(r.subrange(6, 6 + t.len() as int) =~= t);
    if due is Some {
        let tail = due_separator() + due->0;
        assert(r =~= checkbox() + t + tail);
        assert(r.subrange(r.len() - tail.len(), r.len() as int) =~= tail);
    }
    if due is None && !description.contains(DUE_MARK) {
        lemma_trim_chars(description, DUE_MARK);
        if r.contains(DUE_MARK) {
            let i = choose|i: int| 0 <= i < r.len() && r[i] == DUE_MARK;
            if i >= 6 {
                assert(t[i - 6] == DUE_MARK);
            }
        }
    }
}

} // verus!
