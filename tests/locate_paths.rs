use quick_add::date::Date;
use quick_add::locate::{assemble_note_path, get_daily_note_path, DailyNotesConfig, LocateError};

fn jan17() -> Date {
    Date::new(2024, 1, 17).unwrap()
}

#[test]
fn default_config_puts_note_in_vault_root() {
    let cfg = DailyNotesConfig { folder: None, format: None };
    assert_eq!(get_daily_note_path("/vault", &cfg, &jan17()), Ok("/vault/2024-01-17.md".to_string()));
}

#[test]
fn dated_folder_is_rendered() {
    let cfg = DailyNotesConfig {
        folder: Some("Daily/YYYY".to_string()),
        format: Some("YYYY-MM-DD".to_string()),
    };
    assert_eq!(
        get_daily_note_path("/vault", &cfg, &jan17()),
        Ok("/vault/Daily/2024/2024-01-17.md".to_string())
    );
}

#[test]
fn plain_folder_is_kept_verbatim() {
    let cfg = DailyNotesConfig { folder: Some("Daily Notes".to_string()), format: None };
    assert_eq!(
        get_daily_note_path("/vault/", &cfg, &jan17()),
        Ok("/vault/Daily Notes/2024-01-17.md".to_string())
    );
}

#[test]
fn names_and_weekdays_are_rendered() {
    let cfg = DailyNotesConfig { folder: None, format: Some("dddd, MMMM DD YYYY".to_string()) };
    assert_eq!(
        get_daily_note_path("v", &cfg, &jan17()),
        Ok("v/Wednesday, January 17 2024.md".to_string())
    );
    let cfg = DailyNotesConfig { folder: None, format: Some("ddd DD MMM YY".to_string()) };
    assert_eq!(get_daily_note_path("v", &cfg, &jan17()), Ok("v/Wed 17 Jan 24.md".to_string()));
}

#[test]
fn malformed_template_is_an_error() {
    let cfg = DailyNotesConfig { folder: None, format: Some("YYYY 100%".to_string()) };
    assert_eq!(get_daily_note_path("/vault", &cfg, &jan17()), Err(LocateError::MalformedTemplate));
}

#[test]
fn dates_are_checked() {
    assert!(Date::new(2023, 2, 29).is_none());
    assert!(Date::new(2024, 2, 29).is_some());
    assert!(Date::new(1900, 2, 29).is_none());
    assert!(Date::new(2000, 2, 29).is_some());
    assert!(Date::new(2024, 13, 1).is_none());
    assert!(Date::new(2024, 4, 31).is_none());
    assert!(Date::new(0, 1, 1).is_none());
}

#[test]
fn note_path_joins_components() {
    assert_eq!(assemble_note_path("/v", "", "n"), "/v/n.md");
    assert_eq!(assemble_note_path("/v/", "Daily", "n"), "/v/Daily/n.md");
    assert_eq!(assemble_note_path("/v", "/abs", "n"), "/abs/n.md");
    assert_eq!(assemble_note_path("", "", "n"), "n.md");
}

#[test]
fn dated_folder_uses_the_same_tokens() {
    let cfg = DailyNotesConfig {
        folder: Some("Journal/YYYY/MMMM".to_string()),
        format: Some("DD".to_string()),
    };
    assert_eq!(
        get_daily_note_path("/vault", &cfg, &jan17()),
        Ok("/vault/Journal/2024/January/17.md".to_string())
    );
}

#[test]
fn folder_with_only_name_tokens_is_verbatim() {
    let cfg = DailyNotesConfig { folder: Some("dddd".to_string()), format: None };
    assert_eq!(get_daily_note_path("/vault", &cfg, &jan17()), Ok("/vault/dddd/2024-01-17.md".to_string()));
}
