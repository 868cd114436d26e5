use quick_add::date::Date;
use quick_add::note::{add_task_to_note, insert_task};
use quick_add::task::format_task;

fn jan17() -> Date {
    Date::new(2024, 1, 17).unwrap()
}

#[test]
fn empty_note_scenario() {
    let task = format_task("Buy milk", Some("2024-01-18"));
    let r = add_task_to_note(Some(""), &task, &jan17());
    assert_eq!(r, "# 2024-01-17\n\n## Tasks\n\n- [ ] Buy milk \u{23F3} 2024-01-18\n");
    assert_eq!(add_task_to_note(None, &task, &jan17()), r);
}

#[test]
fn fresh_note_pads_date() {
    let d = Date::new(987, 3, 5).unwrap();
    let r = add_task_to_note(None, "- [ ] a", &d);
    assert_eq!(r, "# 0987-03-05\n\n## Tasks\n\n- [ ] a\n");
    assert_eq!(r.matches("## Tasks").count(), 1);
}

#[test]
fn appends_after_last_task_before_next_section() {
    let existing = "# Day\n\n## Tasks\n- [ ] one\n- [ ] two\n\n\n## Notes\nhello\n";
    let r = insert_task(existing, "- [ ] three", "x");
    assert_eq!(r, "# Day\n\n## Tasks\n- [ ] one\n- [ ] two\n- [ ] three\n\n\n## Notes\nhello\n");
}

#[test]
fn appends_at_end_when_tasks_is_last_section() {
    let existing = "## Tasks\n- [ ] one\n\n";
    let r = insert_task(existing, "- [ ] two", "x");
    assert_eq!(r, "## Tasks\n- [ ] one\n- [ ] two\n\n");
}

#[test]
fn empty_task_section_gets_task_after_heading() {
    let existing = "## Tasks\n\n\n## Other";
    let r = insert_task(existing, "- [ ] t", "x");
    assert_eq!(r, "## Tasks\n- [ ] t\n\n\n## Other\n");
}

#[test]
fn crlf_lines_are_rejoined_with_newlines() {
    let r = insert_task("# T\r\n## Tasks\r\n- [ ] a\r\n", "- [ ] b", "x");
    assert_eq!(r, "# T\n## Tasks\n- [ ] a\n- [ ] b\n");
}

#[test]
fn note_without_section_gets_one_appended() {
    let r = insert_task("Some notes\nmore  \n\n \t", "- [ ] t", "x");
    assert_eq!(r, "Some notes\nmore\n\n## Tasks\n\n- [ ] t\n");
}

#[test]
fn heading_text_in_a_line_is_not_a_section() {
    let r = insert_task("see ## Tasks later\n", "- [ ] t", "x");
    assert_eq!(r, "see ## Tasks later\n\n## Tasks\n\n- [ ] t\n");
}

#[test]
fn inserting_twice_duplicates() {
    let once = insert_task("## Tasks\n", "- [ ] t", "x");
    let twice = insert_task(&once, "- [ ] t", "x");
    assert_eq!(twice, "## Tasks\n- [ ] t\n- [ ] t\n");
}

#[test]
fn whitespace_only_note_has_section_appended() {
    assert_eq!(insert_task("\n", "- [ ] t", "x"), "\n\n## Tasks\n\n- [ ] t\n");
}
