use quick_add::task::format_task;

#[test]
fn test_format_task_with_date() {
    let result = format_task("Buy groceries", Some("2024-01-17"));
    assert_eq!(result, "- [ ] Buy groceries \u{23F3} 2024-01-17");
}

#[test]
fn test_format_task_without_date() {
    let result = format_task("Buy groceries", None);
    assert_eq!(result, "- [ ] Buy groceries");
}

#[test]
fn format_trims_description() {
    assert_eq!(format_task("  \tCall mom \n", None), "- [ ] Call mom");
    assert_eq!(format_task("\u{3000}x\u{a0}", Some("tomorrow")), "- [ ] x \u{23F3} tomorrow");
}

#[test]
fn format_without_due_has_no_hourglass() {
    let r = format_task("Water plants", None);
    assert!(r.starts_with("- [ ] Water plants"));
    assert!(!r.contains('\u{23F3}'));
}

#[test]
fn format_keeps_due_verbatim() {
    let r = format_task("x", Some(" not a date "));
    assert_eq!(r, "- [ ] x \u{23F3}  not a date ");
}

#[test]
fn format_empty_description() {
    assert_eq!(format_task("   ", None), "- [ ] ");
}
