use thoughts::cli::{Cli, Commands};
use thoughts::config::{Config, ConfigError, ConfigProto};
use thoughts::date::{date_of_timestamp, Date};
use thoughts::editor::{get_timestamp, timestamp_text};
use thoughts::filesystem::Filesystem;
use thoughts::text::{
    chars_of, contains_chars, decimal, find_char, is_ascii_space, matches_at, parse_number,
    range_is, same_chars,
};
use thoughts::tui::{Focused, InputState};

fn chars(s: &str) -> Vec<char> {
    s.chars().collect()
}

fn number(s: &str) -> Option<i32> {
    let c = chars(s);
    parse_number(&c, 0, c.len())
}

#[test]
fn characters_of_a_text() {
    assert_eq!(chars_of("a\u{e9}\u{1F600}z"), vec!['a', '\u{e9}', '\u{1F600}', 'z']);
    assert_eq!(chars_of(""), Vec::<char>::new());
}

#[test]
fn ascii_whitespace_only() {
    for c in [' ', '\t', '\n', '\r', '\u{c}'] {
        assert!(is_ascii_space(c));
        assert!(c.is_ascii_whitespace());
    }
    for c in ['\u{b}', '\u{a0}', 'a', '-', '\u{2003}'] {
        assert!(!is_ascii_space(c));
        assert!(!c.is_ascii_whitespace());
    }
}

#[test]
fn numbers_parse_like_the_standard_library() {
    let cases = [
        "0", "7", "-7", "+7", "007", "-0", "2147483647", "2147483648", "-2147483648",
        "-2147483649", "99999999999999999999", "", "-", "+", "1a", "a1", " 1", "1 ", "--1", "+-1",
        "1-", "\u{663}", "00000000000000000000000012",
    ];
    for case in cases {
        assert_eq!(number(case), case.parse::<i32>().ok(), "{:?}", case);
    }
    assert_eq!(number("2147483647"), Some(i32::MAX));
    assert_eq!(number("-2147483648"), Some(i32::MIN));
    assert_eq!(number("2147483648"), None);
}

#[test]
fn number_in_a_range() {
    let c = chars("ab-12cd");
    assert_eq!(parse_number(&c, 2, 5), Some(-12));
    assert_eq!(parse_number(&c, 3, 5), Some(12));
    assert_eq!(parse_number(&c, 3, 6), None);
    assert_eq!(parse_number(&c, 3, 3), None);
}

#[test]
fn first_position_of_a_character() {
    let c = chars("a-b-c");
    assert_eq!(find_char(&c, 0, 5, '-'), 1);
    assert_eq!(find_char(&c, 2, 5, '-'), 1);
    assert_eq!(find_char(&c, 4, 5, '-'), 1);
    assert_eq!(find_char(&c, 0, 1, '-'), 1);
    assert_eq!(find_char(&c, 0, 0, '-'), 0);
}

#[test]
fn ranges_and_runs() {
    let c = chars("favorite: x");
    assert!(range_is(&c, 0, 9, "favorite:"));
    assert!(!range_is(&c, 0, 8, "favorite:"));
    assert!(!range_is(&c, 1, 10, "favorite:"));
    assert!(range_is(&c, 3, 3, ""));

    let hay = chars("hello world");
    for needle in ["", "h", "hello", "o w", "world", "hello world", "worlds", "x", "hello world!"] {
        assert_eq!(contains_chars(&hay, &chars(needle)), "hello world".contains(needle));
        assert_eq!(matches_at(&hay, &chars(needle), 0), "hello world".starts_with(needle));
    }
    assert!(contains_chars(&chars(""), &chars("")));
    assert!(!contains_chars(&chars(""), &chars("a")));
    assert!(matches_at(&hay, &chars("world"), 6));
    assert!(!matches_at(&hay, &chars("world"), 7));
    assert!(!matches_at(&hay, &chars(""), 12));
    assert!(same_chars(&hay, &chars("hello world")));
    assert!(!same_chars(&hay, &chars("hello worl")));
}

#[test]
fn decimal_spelling() {
    for n in [0u64, 1, 9, 10, 11, 99, 100, 101, 14400, 1431648000, u64::MAX] {
        assert_eq!(decimal(n), n.to_string());
    }
}

#[test]
fn dates_from_month_day_year() {
    assert_eq!(Date::from_mdy(6, 7, 2023), Some(Date { year: 2023, month: 6, day: 7 }));
    assert_eq!(Date::from_mdy(2, 29, 2024), Some(Date { year: 2024, month: 2, day: 29 }));
    assert_eq!(Date::from_mdy(2, 29, 2000), Some(Date { year: 2000, month: 2, day: 29 }));
    assert_eq!(Date::from_mdy(2, 29, -4), Some(Date { year: -4, month: 2, day: 29 }));
    assert_eq!(Date::from_mdy(12, 31, 262142), Some(Date { year: 262142, month: 12, day: 31 }));
    assert_eq!(Date::from_mdy(1, 1, -262143), Some(Date { year: -262143, month: 1, day: 1 }));
    assert_eq!(Date::from_mdy(13, 40, 2023), None);
    assert_eq!(Date::from_mdy(2, 29, 2023), None);
    assert_eq!(Date::from_mdy(2, 29, 1900), None);
    assert_eq!(Date::from_mdy(4, 31, 2023), None);
    assert_eq!(Date::from_mdy(0, 1, 2023), None);
    assert_eq!(Date::from_mdy(1, 0, 2023), None);
    assert_eq!(Date::from_mdy(-1, 1, 2023), None);
    assert_eq!(Date::from_mdy(1, -1, 2023), None);
    assert_eq!(Date::from_mdy(1, 1, 262143), None);
    assert_eq!(Date::from_mdy(1, 1, -262144), None);
}

#[test]
fn every_month_has_its_days() {
    let lengths = [31, 28, 31, 30, 31, 30, 31, 31, 30, 31, 30, 31];
    for (i, days) in lengths.iter().enumerate() {
        let month = i as i32 + 1;
        assert!(Date::from_mdy(month, *days, 2023).is_some());
        assert!(Date::from_mdy(month, *days + 1, 2023).is_none());
    }
}

#[test]
fn dates_compare_in_time() {
    let a = Date { year: 2023, month: 6, day: 7 };
    let b = Date { year: 2023, month: 6, day: 8 };
    let c = Date { year: 2023, month: 7, day: 1 };
    let d = Date { year: 2024, month: 1, day: 1 };
    assert!(a.is_before(&b) && b.is_before(&c) && c.is_before(&d) && a.is_before(&d));
    assert!(!b.is_before(&a) && !a.is_before(&a) && !d.is_before(&c));
    assert!(a.is_same_day(&a) && !a.is_same_day(&b));
}

#[test]
fn day_of_a_timestamp() {
    assert_eq!(date_of_timestamp(0), Some(Date { year: 1970, month: 1, day: 1 }));
    assert_eq!(date_of_timestamp(86399), Some(Date { year: 1970, month: 1, day: 1 }));
    assert_eq!(date_of_timestamp(86400), Some(Date { year: 1970, month: 1, day: 2 }));
    assert_eq!(date_of_timestamp(1431648000), Some(Date { year: 2015, month: 5, day: 15 }));
    assert_eq!(date_of_timestamp(u64::MAX), None);
    assert_eq!(date_of_timestamp(i64::MAX as u64), None);
}

#[test]
fn timestamps_are_moved_back_four_hours() {
    assert_eq!(timestamp_text(14400), Some("0".to_string()));
    assert_eq!(timestamp_text(20000), Some("5600".to_string()));
    assert_eq!(timestamp_text(1431648000), Some("1431633600".to_string()));
    assert_eq!(timestamp_text(14399), None);
    assert_eq!(timestamp_text(0), None);
}

#[test]
fn timestamp_of_now_is_a_number() {
    let stamp = get_timestamp().unwrap();
    let secs: u64 = stamp.parse().unwrap();
    assert!(secs > 1_500_000_000);
    assert_eq!(decimal(secs), stamp);
}

#[test]
fn filesystem_store_pattern() {
    assert_eq!(Filesystem::new("/notes".to_string()).entry_pattern(), "/notes/*.md");
    assert_eq!(Filesystem::new(String::new()).entry_pattern(), "/*.md");
}

#[test]
fn command_line_search_query() {
    let search = |query: Option<&str>| Cli {
        config: None,
        command: Some(Commands::Search { query: query.map(|q| q.to_string()) }),
    };
    assert_eq!(search(Some("favorite: true")).search_query(), Some("favorite: true".to_string()));
    assert_eq!(search(None).search_query(), Some(String::new()));
    let backup = Cli { config: Some("c.toml".to_string()), command: Some(Commands::Backup) };
    assert_eq!(backup.search_query(), None);
    let new = Cli { config: None, command: Some(Commands::New { name: "n".to_string() }) };
    assert_eq!(new.search_query(), None);
    assert_eq!(Cli { config: None, command: None }.search_query(), None);
}

fn proto() -> ConfigProto {
    let mut p = ConfigProto::with_defaults(Some("/tmp/thought.md".to_string()));
    p.thoughts_path = Some("/notes".to_string());
    p.editor_command = Some("vi".to_string());
    p
}

fn ok(s: &str) -> Result<String, String> {
    Ok(s.to_string())
}

#[test]
fn default_settings() {
    let p = ConfigProto::with_defaults(None);
    assert_eq!(
        p,
        ConfigProto {
            thoughts_path: None,
            temp_file_path: None,
            editor_command: None,
            reactive: Some(true),
            min_width: Some(58),
            min_height: Some(18),
            react_width: Some(80),
        }
    );
}

#[test]
fn settings_are_assembled() {
    assert_eq!(
        Config::assemble(proto(), ok("/home/me/notes"), ok("/tmp/thought.md")),
        Ok(Config {
            thoughts_path: "/home/me/notes".to_string(),
            temp_file_path: "/tmp/thought.md".to_string(),
            editor_command: "vi".to_string(),
            reactive: true,
            min_width: 58,
            min_height: 18,
            react_width: 80,
        })
    );
}

#[test]
fn missing_settings_are_reported_in_order() {
    let mut p = proto();
    p.thoughts_path = None;
    p.editor_command = None;
    p.temp_file_path = None;
    assert_eq!(
        Config::assemble(p, Err("x".to_string()), Err("y".to_string())),
        Err(ConfigError::MissingThoughtsPath)
    );

    let mut p = proto();
    p.editor_command = None;
    assert_eq!(
        Config::assemble(p, Err("no HOME".to_string()), ok("/tmp/t")),
        Err(ConfigError::Expansion("no HOME".to_string()))
    );

    let mut p = proto();
    p.editor_command = None;
    p.temp_file_path = None;
    assert_eq!(Config::assemble(p, ok("/n"), ok("/t")), Err(ConfigError::MissingEditorCommand));

    let mut p = proto();
    p.temp_file_path = None;
    assert_eq!(
        Config::assemble(p, ok("/n"), Err("y".to_string())),
        Err(ConfigError::MissingTempFilePath)
    );

    assert_eq!(
        Config::assemble(proto(), ok("/n"), Err("bad var".to_string())),
        Err(ConfigError::Expansion("bad var".to_string()))
    );
}

#[test]
fn settings_without_variables_are_read_as_written() {
    let config = Config::read(proto()).unwrap();
    assert_eq!(config.thoughts_path, "/notes");
    assert_eq!(config.temp_file_path, "/tmp/thought.md");
    assert_eq!(config.editor_command, "vi");
}

#[test]
fn unknown_variable_fails_the_settings() {
    let mut p = proto();
    p.thoughts_path = Some("$THOUGHTS_NO_SUCH_VARIABLE_7F3A/notes".to_string());
    assert!(matches!(Config::read(p), Err(ConfigError::Expansion(_))));
    let mut p = proto();
    p.thoughts_path = None;
    assert_eq!(Config::read(p), Err(ConfigError::MissingThoughtsPath));
}

#[test]
fn settings_file_path() {
    assert_eq!(
        Config::get_path(Some("/etc/t.toml".to_string()), "~/.config/thoughts.toml".to_string()),
        "/etc/t.toml"
    );
    assert_eq!(
        Config::get_path(None, "~/.config/thoughts.toml".to_string()),
        "~/.config/thoughts.toml"
    );
}

#[test]
fn screen_state_values() {
    assert_ne!(Focused::MainWindow, Focused::DeletionPrompt);
    assert_ne!(InputState::Search, InputState::Rename);
}
