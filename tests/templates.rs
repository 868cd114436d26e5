use quick_add::template::to_strftime;

#[test]
fn translates_default_template() {
    assert_eq!(to_strftime("YYYY-MM-DD"), "%Y-%m-%d");
}

#[test]
fn translates_longest_token_first() {
    assert_eq!(to_strftime("dddd, MMMM DD YY"), "%A, %B %d %y");
    assert_eq!(to_strftime("ddd MMM"), "%a %b");
}

#[test]
fn translation_twice_equals_once() {
    for t in ["YYYY-MM-DD", "YYYYY", "DDdd", "MMMMM-dddddd", "Daily Notes", "YYYY/MMMM/ddd DD"] {
        let once = to_strftime(t);
        assert_eq!(to_strftime(&once), once);
    }
}

#[test]
fn leftover_letters_are_kept() {
    assert_eq!(to_strftime("YYYYY"), "%%y");
    assert_eq!(to_strftime("DDdd"), "%%a");
    assert_eq!(to_strftime("Notes"), "Notes");
}
