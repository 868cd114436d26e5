//! The text of a daily note after a task line is added to it.
use vstd::prelude::*;
use crate::date::{iso_format, padded, render_date, Date};
use crate::template::{matches_at, starts_with};
use crate::task::{due_separator, lemma_task_line_shape, task_line};
use crate::text::{
    chars_of, is_ws, lemma_trim_chars, lemma_trim_end_prefix, push_all, slice_of, string_of, trim, trim_end,
    trimmed_end,
};

verus! {

/// The heading of the task section.
pub open spec fn tasks_heading() -> Seq<char> {
    seq!['#', '#', ' ', 'T', 'a', 's', 'k', 's']
}

/// What opens the heading of any section.
pub open spec fn section_prefix() -> Seq<char> {
    seq!['#', '#', ' ']
}

/// The number of characters before the first line break of `s`.
pub open spec fn first_line_len(s: Seq<char>) -> nat
    decreases s.len(),
{
    if s.len() == 0 || s[0] == '\n' {
        0
    } else {
        1 + first_line_len(s.drop_first())
    }
}

/// A line that was ended by a line break, without the carriage return before it.
pub open spec fn strip_cr(l: Seq<char>) -> Seq<char> {
    if l.len() > 0 && l.last() == '\r' {
        l.drop_last()
    } else {
        l
    }
}

/// The lines of `s`: split at `\n` or `\r\n`; a final line break ends the last
/// line and opens no new one.
pub open spec fn lines_of(s: Seq<char>) -> Seq<Seq<char>>
    decreases s.len(),
{
    if s.len() == 0 {
        seq![]
    } else {
        let n = first_line_len(s);
        if n >= s.len() {
            seq![s]
        } else {
            seq![strip_cr(s.subrange(0, n as int))] + lines_of(s.subrange((n + 1) as int, s.len() as int))
        }
    }
}

/// `ls`, each line followed by a line break.
pub open spec fn terminated(ls: Seq<Seq<char>>) -> Seq<char>
    decreases ls.len(),
{
    if ls.len() == 0 {
        seq![]
    } else {
        terminated(ls.drop_last()) + ls.last() + seq!['\n']
    }
}

/// The index of the first line at or after `i` that begins with `pre`, or the
/// number of lines.
pub open spec fn find_prefixed(ls: Seq<Seq<char>>, pre: Seq<char>, i: int) -> int
    decreases ls.len() - i,
{
    if i >= ls.len() {
        ls.len() as int
    } else if starts_with(ls[i], pre) {
        i
    } else {
        find_prefixed(ls, pre, i + 1)
    }
}

/// `p`, moved back over the empty lines before it, but not below `lo`.
pub open spec fn back_over_blank(ls: Seq<Seq<char>>, lo: int, p: int) -> int
    decreases p,
{
    if p > lo && 0 < p <= ls.len() && ls[p - 1].len() == 0 {
        back_over_blank(ls, lo, p - 1)
    } else {
        p
    }
}

/// The index of the line after the last task line of the section whose heading
/// is line `h`, or after the heading when the section has none.
pub open spec fn task_slot(ls: Seq<Seq<char>>, h: int) -> int {
    back_over_blank(ls, h + 1, find_prefixed(ls, section_prefix(), h + 1))
}

/// A fresh note for the day `label`, holding the task section and `task`.
pub open spec fn fresh_note(label: Seq<char>, task: Seq<char>) -> Seq<char> {
    seq!['#', ' '] + label + seq!['\n', '\n'] + tasks_heading() + seq!['\n', '\n'] + task
        + seq!['\n']
}

/// `existing` with a task section holding `task` appended after it.
pub open spec fn with_new_section(existing: Seq<char>, task: Seq<char>) -> Seq<char> {
    trim_end(existing) + seq!['\n', '\n'] + tasks_heading() + seq!['\n', '\n'] + task + seq![
        '\n',
    ]
}

/// The shape of a note, which decides how a task is added to it.
#[derive(Clone, Copy, Debug, PartialEq, Eq, Structural)]
pub enum NoteShape {
    /// No text at all: a missing or empty file.
    Blank,
    /// Text with a line that opens the task section.
    WithTasks,
    /// Text without a task section.
    WithoutTasks,
}

/// The shape of the note `existing`.
pub open spec fn shape_of(existing: Seq<char>) -> NoteShape {
    if existing.len() == 0 {
        NoteShape::Blank
    } else {
        let ls = lines_of(existing);
        let h = find_prefixed(ls, tasks_heading(), 0);
        if h < ls.len() {
            NoteShape::WithTasks
        } else {
            NoteShape::WithoutTasks
        }
    }
}

/// The note `existing` once `task` is added to it, with `label` naming the day
/// of a fresh note.
pub open spec fn note_with_task(existing: Seq<char>, task: Seq<char>, label: Seq<char>) -> Seq<
    char,
> {
    match shape_of(existing) {
        NoteShape::Blank => fresh_note(label, task),
        NoteShape::WithTasks => {
            let ls = lines_of(existing);
            let h = find_prefixed(ls, tasks_heading(), 0);
            terminated(ls.insert(task_slot(ls, h), task))
        },
        NoteShape::WithoutTasks => with_new_section(existing, task),
    }
}

/// The views of a sequence of lines.
pub open spec fn views(v: Seq<Vec<char>>) -> Seq<Seq<char>> {
    v.map_values(|l: Vec<char>| l@)
}

/// The lines of `s`, split as `lines_of` says.
pub fn split_lines(s: &[char]) -> (r: Vec<Vec<char>>)
    ensures
        views(r@) == lines_of(s@),
{
    let mut out: Vec<Vec<char>> = Vec::new();
    let mut i: usize = 0;
    assert(s@.subrange(0, s@.len() as int) =~= s@);
    assert(views(out@) =~= seq![]);
    while i < s.len()
        invariant
            i <= s@.len(),
            views(out@) + lines_of(s@.subrange(i as int, s@.len() as int)) == lines_of(s@),
        decreases s@.len() - i,
    {
        let ghost rest = s@.subrange(i as int, s@.len() as int);
        let ghost before = out@;
        let ghost i0 = i;
        let mut j: usize = i;
        while j < s.len() && s[j] != '\n'
            invariant
                i <= j <= s@.len(),
                rest == s@.subrange(i as int, s@.len() as int),
                first_line_len(rest) == (j - i) + first_line_len(
                    s@.subrange(j as int, s@.len() as int),
                ),
            decreases s@.len() - j,
        {
            assert(s@.subrange(j as int, s@.len() as int).drop_first() =~= s@.subrange(
                j + 1,
                s@.len() as int,
            ));
            j += 1;
        }
        assert(first_line_len(rest) == j - i);
        if j == s.len() {
            let line = slice_of(s, i, j);
            out.push(line);
            i = j;
            assert(views(out@) =~= views(before) + seq![rest]);
            assert(s@.subrange(i as int, s@.len() as int) =~= seq![]);
        } else {
            let mut end: usize = j;
            if end > i && s[end - 1] == '\r' {
                end -= 1;
            }
            let line = slice_of(s, i, end);
            assert(line@ =~= strip_cr(rest.subrange(0, (j - i) as int)));
            out.push(line);
            i = j + 1;
            assert(rest.subrange((j - i0 + 1) as int, rest.len() as int) =~= s@.subrange(
                i as int,
                s@.len() as int,
            ));
            assert(views(out@) =~= views(before) + seq![line@]);
        }
    }
    assert(s@.subrange(i as int, s@.len() as int) =~= seq![]);
    assert(views(out@) + seq![] =~= views(out@));
    out
}

/// Whether the line `l` begins with `pre`.
fn line_starts_with(l: &[char], pre: &[char]) -> (r: bool)
    ensures
        r == starts_with(l@, pre@),
{
    if pre.len() > l.len() {
        false
    } else {
        matches_at(l, 0, pre)
    }
}

/// The index of the first line at or after `from` that begins with `pre`, or
/// the number of lines.
fn find_line(ls: &Vec<Vec<char>>, pre: &[char], from: usize) -> (r: usize)
    requires
        from <= ls@.len(),
    ensures
        from <= r <= ls@.len(),
        r as int == find_prefixed(views(ls@), pre@, from as int),
{
    let mut i: usize = from;
    while i < ls.len()
        invariant
            from <= i <= ls@.len(),
            find_prefixed(views(ls@), pre@, from as int) == find_prefixed(
                views(ls@),
                pre@,
                i as int,
            ),
        decreases ls@.len() - i,
    {
        assert(views(ls@)[i as int] == ls@[i as int]@);
        if line_starts_with(ls[i].as_slice(), pre) {
            return i;
        }
        i += 1;
    }
    i
}

/// `p`, moved back over the empty lines before it, but not below `lo`.
fn skip_back_blank(ls: &Vec<Vec<char>>, lo: usize, p: usize) -> (r: usize)
    requires
        lo <= p <= ls@.len(),
    ensures
        lo <= r <= p,
        r as int == back_over_blank(views(ls@), lo as int, p as int),
{
    let mut q: usize = p;
    while q > lo && ls[q - 1].len() == 0
        invariant
            lo <= q <= p <= ls@.len(),
            back_over_blank(views(ls@), lo as int, p as int) == back_over_blank(
                views(ls@),
                lo as int,
                q as int,
            ),
        decreases q,
    {
        assert(views(ls@)[q - 1] == ls@[q - 1]@);
        q -= 1;
    }
    if q > lo {
        assert(views(ls@)[q - 1] == ls@[q - 1]@);
    }
    q
}

/// The lines of `ls`, each followed by a line break.
fn join_terminated(ls: &Vec<Vec<char>>) -> (r: Vec<char>)
    ensures
        r@ == terminated(views(ls@)),
{
    let mut out: Vec<char> = Vec::new();
    let mut i: usize = 0;
    while i < ls.len()
        invariant
            i <= ls@.len(),
            out@ == terminated(views(ls@).subrange(0, i as int)),
        decreases ls@.len() - i,
    {
        let ghost done = views(ls@).subrange(0, (i + 1) as int);
        assert(done.drop_last() =~= views(ls@).subrange(0, i as int));
        assert(done.last() == ls@[i as int]@);
        push_all(&mut out, ls[i].as_slice());
        out.push('\n');
        i += 1;
    }
    assert(views(ls@).subrange(0, i as int) =~= views(ls@));
    out
}

/// The note `existing` once `task_line` is added to it; `date_label` names the
/// day when the note has no text yet.
pub fn insert_task(existing: &str, task_line: &str, date_label: &str) -> (r: String)
    ensures
        r@ == note_with_task(existing@, task_line@, date_label@),
{
    let e = chars_of(existing);
    let t = chars_of(task_line);
    let heading = vec!['#', '#', ' ', 'T', 'a', 's', 'k', 's'];
    assert(heading@ =~= tasks_heading());
    let mut out: Vec<char> = Vec::new();
    if e.len() == 0 {
        let label = chars_of(date_label);
        out.push('#');
        out.push(' ');
        push_all(&mut out, label.as_slice());
        out.push('\n');
        out.push('\n');
        push_all(&mut out, heading.as_slice());
        out.push('\n');
        out.push('\n');
        push_all(&mut out, t.as_slice());
        out.push('\n');
        assert(out@ =~= fresh_note(date_label@, task_line@));
        return string_of(&out);
    }
    let mut ls = split_lines(e.as_slice());
    let h = find_line(&ls, heading.as_slice(), 0);
    if h < ls.len() {
        let prefix = vec!['#', '#', ' '];
        assert(prefix@ =~= section_prefix());
        let next = find_line(&ls, prefix.as_slice(), h + 1);
        let p = skip_back_blank(&ls, h + 1, next);
        let ghost before = ls@;
        ls.insert(p, t);
        assert(views(ls@) =~= views(before).insert(p as int, task_line@));
        let joined = join_terminated(&ls);
        string_of(&joined)
    } else {
        let kept = trimmed_end(e.as_slice());
        push_all(&mut out, kept.as_slice());
        out.push('\n');
        out.push('\n');
        push_all(&mut out, heading.as_slice());
        out.push('\n');
        out.push('\n');
        push_all(&mut out, t.as_slice());
        out.push('\n');
        assert(out@ =~= with_new_section(existing@, task_line@));
        string_of(&out)
    }
}

/// The note `existing` (none: a missing file) once `task_line` is added to it
/// on the day `today`.
pub fn add_task_to_note(existing: Option<&str>, task_line: &str, today: &Date) -> (r: String)
    requires
        today.wf(),
    ensures
        r@ == note_with_task(
            match existing {
                Some(e) => e@,
                None => seq![],
            },
            task_line@,
            today.iso(),
        ),
{
    proof {
        reveal_strlit("%Y-%m-%d");
    }
    assert("%Y-%m-%d"@ =~= iso_format());
    let label = render_date(today, "%Y-%m-%d").unwrap();
    assert(label@ == today.iso());
    let text: &str = match existing {
        Some(e) => e,
        None => {
            proof {
                reveal_strlit("");
            }
            assert(""@ =~= seq![]);
            ""
        },
    };
    insert_task(text, task_line, label.as_str())
}

proof fn lemma_find_prefixed(ls: Seq<Seq<char>>, pre: Seq<char>, i: int)
    requires
        0 <= i <= ls.len(),
    ensures
        i <= find_prefixed(ls, pre, i) <= ls.len(),
        forall|j: int| i <= j < find_prefixed(ls, pre, i) ==> !starts_with(#[trigger] ls[j], pre),
        find_prefixed(ls, pre, i) < ls.len() ==> starts_with(ls[find_prefixed(ls, pre, i)], pre),
    decreases ls.len() - i,
{
    if i < ls.len() && !starts_with(ls[i], pre) {
        lemma_find_prefixed(ls, pre, i + 1);
    }
}

proof fn lemma_back_over_blank(ls: Seq<Seq<char>>, lo: int, p: int)
    requires
        0 <= lo <= p <= ls.len(),
    ensures
        lo <= back_over_blank(ls, lo, p) <= p,
        forall|i: int| back_over_blank(ls, lo, p) <= i < p ==> (#[trigger] ls[i]).len() == 0,
        back_over_blank(ls, lo, p) == lo || ls[back_over_blank(ls, lo, p) - 1].len() > 0,
    decreases p,
{
    if p > lo && 0 < p <= ls.len() && ls[p - 1].len() == 0 {
        lemma_back_over_blank(ls, lo, p - 1);
    }
}

/// Adding a task to a note that has a task section inserts exactly one line:
/// after the last non-blank line of that section (or right after its heading)
/// and before the next section heading or the end. Every other line keeps its
/// text and order, and nothing but blank lines stands between the task and the
/// next heading.
pub proof fn lemma_insert_into_task_section(
    existing: Seq<char>,
    task: Seq<char>,
    label: Seq<char>,
)
    requires
        shape_of(existing) is WithTasks,
    ensures
        ({
            let ls = lines_of(existing);
            let h = find_prefixed(ls, tasks_heading(), 0);
            let next = find_prefixed(ls, section_prefix(), h + 1);
            let p = task_slot(ls, h);
            let nl = ls.insert(p, task);
            &&& starts_with(ls[h], tasks_heading())
            &&& note_with_task(existing, task, label) == terminated(nl)
            &&& h < p <= next <= ls.len()
            &&& forall|i: int| h < i < next ==> !starts_with(#[trigger] ls[i], section_prefix())
            &&& next < ls.len() ==> starts_with(ls[next], section_prefix())
            &&& p == h + 1 || ls[p - 1].len() > 0
            &&& forall|i: int| p <= i < next ==> (#[trigger] ls[i]).len() == 0
            &&& nl.len() == ls.len() + 1
            &&& nl.subrange(0, p) == ls.subrange(0, p)
            &&& nl[p] == task
            &&& nl.subrange(p + 1, nl.len() as int) == ls.subrange(p, ls.len() as int)
        }),
{
    let ls = lines_of(existing);
    let h = find_prefixed(ls, tasks_heading(), 0);
    lemma_find_prefixed(ls, tasks_heading(), 0);
    lemma_find_prefixed(ls, section_prefix(), h + 1);
    let next = find_prefixed(ls, section_prefix(), h + 1);
    lemma_back_over_blank(ls, h + 1, next);
    let p = task_slot(ls, h);
    let nl = ls.insert(p, task);
    assert(nl.subrange(0, p) =~= ls.subrange(0, p));
    assert(nl.subrange(p + 1, nl.len() as int) =~= ls.subrange(p, ls.len() as int));
}

/// Adding a task to a note without a task section keeps the note's text, less
/// its trailing whitespace, and appends one task section holding the task.
pub proof fn lemma_append_task_section(existing: Seq<char>, task: Seq<char>, label: Seq<char>)
    requires
        shape_of(existing) is WithoutTasks,
    ensures
        ({
            let kept = trim_end(existing);
            &&& note_with_task(existing, task, label) == kept + seq!['\n', '\n'] + tasks_heading()
                + seq!['\n', '\n'] + task + seq!['\n']
            &&& kept == existing.subrange(0, kept.len() as int)
            &&& forall|i: int| kept.len() <= i < existing.len() ==> is_ws(#[trigger] existing[i])
        }),
{
    lemma_trim_end_prefix(existing);
}

proof fn lemma_padded_len(n: int, width: nat)
    ensures
        padded(n, width).len() == width,
    decreases width,
{
    if width > 0 {
        lemma_padded_len(n / 10, (width - 1) as nat);
    }
}

proof fn lemma_first_line_len(l: Seq<char>, rest: Seq<char>)
    requires
        !l.contains('\n'),
    ensures
        first_line_len(l + seq!['\n'] + rest) == l.len(),
    decreases l.len(),
{
    if l.len() > 0 {
        assert(l[0] != '\n') by {
            assert(l.contains(l[0]));
        }
        assert((l + seq!['\n'] + rest).drop_first() =~= l.drop_first() + seq!['\n'] + rest);
        assert(!l.drop_first().contains('\n')) by {
            if l.drop_first().contains('\n') {
                let i = choose|i: int| 0 <= i < l.drop_first().len() && l.drop_first()[i] == '\n';
                assert(l[i + 1] == '\n');
            }
        }
        lemma_first_line_len(l.drop_first(), rest);
    } else {
        assert((l + seq!['\n'] + rest)[0] == '\n');
    }
}

proof fn lemma_lines_cons(l: Seq<char>, rest: Seq<char>)
    requires
        !l.contains('\n'),
        !l.contains('\r'),
    ensures
        lines_of(l + seq!['\n'] + rest) == seq![l] + lines_of(rest),
{
    let s = l + seq!['\n'] + rest;
    lemma_first_line_len(l, rest);
    assert(s.subrange(0, l.len() as int) =~= l);
    assert(s.subrange(l.len() + 1 as int, s.len() as int) =~= rest);
    if l.len() > 0 {
        assert(l.contains(l.last()));
    }
}

/// The task line of `description` and `due`, added to a note that has no text
/// yet, gives a note that opens with `# ` and the date as `YYYY-MM-DD`, has
/// exactly one task-section heading, and ends with exactly one line break.
pub proof fn lemma_fresh_note_shape(description: Seq<char>, due: Option<Seq<char>>, today: Date)
    requires
        today.wf(),
        !description.contains('\n'),
        !description.contains('\r'),
        due is Some ==> !due->0.contains('\n') && !due->0.contains('\r'),
    ensures
        ({
            let task = task_line(description, due);
            let r = note_with_task(seq![], task, today.iso());
            let ls = lines_of(r);
            &&& r.subrange(0, 12) == seq!['#', ' '] + today.iso()
            &&& r.last() == '\n'
            &&& r[r.len() - 2] != '\n'
            &&& ls.len() == 5
            &&& ls[2] == tasks_heading()
            &&& find_prefixed(ls, tasks_heading(), 0) == 2
            &&& forall|i: int|
                0 <= i < ls.len() && i != 2 ==> !starts_with(#[trigger] ls[i], tasks_heading())
        }),
{
    let task = task_line(description, due);
    let label = today.iso();
    let r = note_with_task(seq![], task, label);
    lemma_padded_len(today.year as int, 4);
    lemma_padded_len(today.month as int, 2);
    lemma_padded_len(today.day as int, 2);
    assert(label.len() == 10);
    let l0 = seq!['#', ' '] + label;
    assert(r =~= l0 + seq!['\n'] + (seq![] + seq!['\n'] + (tasks_heading() + seq!['\n'] + (seq![]
        + seq!['\n'] + (task + seq!['\n'] + seq![])))));
    assert(r.subrange(0, 12) =~= l0);
    // no line break in the first line: it is made of '#', ' ' and digits or '-'
    assert(!label.contains('\n') && !label.contains('\r')) by {
        assert forall|i: int| 0 <= i < label.len() implies label[i] != '\n' && label[i] != '\r' by {
            let y = padded(today.year as int, 4);
            let m = padded(today.month as int, 2);
            let d = padded(today.day as int, 2);
            assert(label =~= y + seq!['-'] + m + seq!['-'] + d);
            lemma_padded_digits(today.year as int, 4);
            lemma_padded_digits(today.month as int, 2);
            lemma_padded_digits(today.day as int, 2);
            if i < 4 {
                assert(label[i] == y[i]);
            } else if 5 <= i < 7 {
                assert(label[i] == m[i - 5]);
            } else if 8 <= i {
                assert(label[i] == d[i - 8]);
            }
        }
    }
    assert(!l0.contains('\n') && !l0.contains('\r')) by {
        if l0.contains('\n') {
            let i = choose|i: int| 0 <= i < l0.len() && l0[i] == '\n';
            if i >= 2 {
                assert(label[i - 2] == '\n');
            }
        }
        if l0.contains('\r') {
            let i = choose|i: int| 0 <= i < l0.len() && l0[i] == '\r';
            if i >= 2 {
                assert(label[i - 2] == '\r');
            }
        }
    }
    lemma_task_line_shape(description, due);
    assert(!task.contains('\n') && !task.contains('\r')) by {
        lemma_trim_chars(description, '\n');
        lemma_trim_chars(description, '\r');
        let t = trim(description);
        let tail = match due {
            Some(d) => due_separator() + d,
            None => seq![],
        };
        assert(task =~= seq!['-', ' ', '[', ' ', ']', ' '] + t + tail);
        if task.contains('\n') {
            let i = choose|i: int| 0 <= i < task.len() && task[i] == '\n';
            if 6 <= i < 6 + t.len() {
                assert(t.contains(t[i - 6]));
            } else if i >= 6 + t.len() && due is Some {
                let k = i - 6 - t.len();
                if k >= 3 {
                    assert(due->0.contains(due->0[k - 3]));
                }
            }
        }
        if task.contains('\r') {
            let i = choose|i: int| 0 <= i < task.len() && task[i] == '\r';
            if 6 <= i < 6 + t.len() {
                assert(t.contains(t[i - 6]));
            } else if i >= 6 + t.len() && due is Some {
                let k = i - 6 - t.len();
                if k >= 3 {
                    assert(due->0.contains(due->0[k - 3]));
                }
            }
        }
    }
    let e: Seq<char> = seq![];
    assert(!e.contains('\n') && !e.contains('\r'));
    assert(!tasks_heading().contains('\n') && !tasks_heading().contains('\r')) by {
        if tasks_heading().contains('\n') || tasks_heading().contains('\r') {
            let i = choose|i: int|
                0 <= i < tasks_heading().len() && (tasks_heading()[i] == '\n' || tasks_heading()[i]
                    == '\r');
            assert(0 <= i < 8);
        }
    }
    lemma_lines_cons(task, seq![]);
    assert(lines_of(seq![]) =~= Seq::<Seq<char>>::empty());
    lemma_lines_cons(e, task + seq!['\n'] + seq![]);
    lemma_lines_cons(tasks_heading(), seq![] + seq!['\n'] + (task + seq!['\n'] + seq![]));
    lemma_lines_cons(
        e,
        tasks_heading() + seq!['\n'] + (seq![] + seq!['\n'] + (task + seq!['\n'] + seq![])),
    );
    lemma_lines_cons(
        l0,
        seq![] + seq!['\n'] + (tasks_heading() + seq!['\n'] + (seq![] + seq!['\n'] + (task
            + seq!['\n'] + seq![]))),
    );
    let ls = lines_of(r);
    assert(ls =~= seq![l0, e, tasks_heading(), e, task]);
    assert(task[0] == '-') by {
        assert(task.subrange(0, 6)[0] == '-');
    }
    assert(starts_with(ls[2], tasks_heading())) by {
        assert(tasks_heading().subrange(0, 8) =~= tasks_heading());
    }
    assert forall|i: int| 0 <= i < ls.len() && i != 2 implies !starts_with(
        #[trigger] ls[i],
        tasks_heading(),
    ) by {
        if i == 0 && starts_with(ls[0], tasks_heading()) {
            assert(ls[0].subrange(0, 8)[1] == l0[1]);
        }
        if i == 4 && starts_with(ls[4], tasks_heading()) {
            assert(ls[4].subrange(0, 8)[0] == task[0]);
        }
    }
    assert(starts_with(ls[0], tasks_heading()) == false);
    assert(starts_with(ls[1], tasks_heading()) == false);
    assert(find_prefixed(ls, tasks_heading(), 2) == 2);
    assert(find_prefixed(ls, tasks_heading(), 1) == 2);
    let n = r.len();
    assert(r[n - 2] == task.last());
    assert(task.contains(task.last()));
}

proof fn lemma_padded_digits(n: int, width: nat)
    requires
        n >= 0,
    ensures
        forall|i: int|
            0 <= i < padded(n, width).len() ==> #[trigger] padded(n, width)[i] != '\n'
                && padded(n, width)[i] != '\r',
    decreases width,
{
    if width > 0 {
        lemma_padded_digits(n / 10, (width - 1) as nat);
        let d = n % 10;
        let digits = seq!['0', '1', '2', '3', '4', '5', '6', '7', '8', '9'];
        assert(0 <= d < 10);
        assert(digits[d] != '\n' && digits[d] != '\r');
        let prev = padded(n / 10, (width - 1) as nat);
        assert forall|i: int| 0 <= i < padded(n, width).len() implies #[trigger] padded(n, width)[i]
            != '\n' && padded(n, width)[i] != '\r' by {
            if i < prev.len() {
                assert(padded(n, width)[i] == prev[i]);
            }
        }
    }
}

} // verus!
