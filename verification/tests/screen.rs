use thoughts::database::{Entry, Identifier};
use thoughts::editor::{feeling_name, fill_in, post_process, timestamp_labels};
use thoughts::text::{copy_chars, parse_count, replace_all, string_of};
use thoughts::config::Config;
use thoughts::tui::{
    note_list_width, reconcile_input, selection_down, selection_up, settled_selection,
    should_render, show_note_content, shown_title, App, Focused, InputState, StatefulList,
};
use thoughts::text::append_range;

fn chars(s: &str) -> Vec<char> {
    s.chars().collect()
}

fn entry(id: i32, title: &str, favorite: bool) -> Entry {
    Entry {
        identifier: Identifier::Row(id),
        title: title.to_string(),
        content: format!("content of {}", title),
        favorite,
        tags: vec!["t".to_string()],
        created_at: 1_431_648_000,
        modified_at: 1_431_648_100,
    }
}

fn app_with(query: &str, titles: &[&str], selected: Option<usize>) -> App {
    let mut app = App::new();
    for c in query.chars() {
        app.insert_query_char(c);
    }
    let found = titles.iter().enumerate().map(|(i, t)| entry(i as i32 + 1, t, false)).collect();
    app.update_entries(found);
    app.entries.select(selected);
    app
}

#[test]
fn list_steps_down_and_wraps() {
    let mut list = StatefulList::with_items(vec!['a', 'b', 'c']);
    assert_eq!(list.selected(), None);
    list.next();
    assert_eq!(list.selected(), Some(0));
    list.next();
    list.next();
    assert_eq!(list.selected(), Some(2));
    list.next();
    assert_eq!(list.selected(), Some(0));
}

#[test]
fn list_steps_up_and_wraps() {
    let mut list = StatefulList::with_items(vec!['a', 'b', 'c']);
    list.previous();
    assert_eq!(list.selected(), Some(0));
    list.previous();
    assert_eq!(list.selected(), Some(2));
    list.previous();
    assert_eq!(list.selected(), Some(1));
}

#[test]
fn empty_list_selects_position_zero() {
    let mut list: StatefulList<char> = StatefulList::with_items(Vec::new());
    list.next();
    assert_eq!(list.selected(), Some(0));
    list.next();
    assert_eq!(list.selected(), Some(0));
    list.previous();
    assert_eq!(list.selected(), Some(0));
    list.last();
    assert_eq!(list.selected(), Some(0));
    assert_eq!(list.get_selected(), None);
}

#[test]
fn list_last_and_selected_item() {
    let mut list = StatefulList::with_items(vec!['a', 'b', 'c']);
    assert_eq!(list.get_selected(), None);
    list.last();
    assert_eq!(list.selected(), Some(2));
    assert_eq!(list.get_selected(), Some(&'c'));
    list.select(Some(7));
    assert_eq!(list.get_selected(), None);
    list.select(Some(1));
    assert_eq!(list.get_selected(), Some(&'b'));
    assert_eq!(list.items(), &vec!['a', 'b', 'c']);
}

#[test]
fn new_screen_is_an_empty_search() {
    let app = App::new();
    assert!(app.input.is_empty() && app.input_backup.is_empty());
    assert_eq!((app.input_index, app.input_index_backup), (0, 0));
    assert_eq!(app.input_state, InputState::Search);
    assert_eq!(app.focused, Focused::MainWindow);
    assert!(app.entries.items().is_empty());
    assert_eq!(app.entries.selected(), None);
    assert_eq!(app.get_query_string(), "");
}

#[test]
fn characters_go_in_at_the_cursor() {
    let mut app = app_with("ac", &[], None);
    assert_eq!(app.input_index, 2);
    app.prev_query_char();
    app.insert_query_char('b');
    assert_eq!(app.get_query_string(), "abc");
    assert_eq!(app.input_index, 2);
}

#[test]
fn backspace_takes_the_character_before_the_cursor() {
    let mut app = app_with("abc", &[], None);
    app.prev_query_char();
    app.delete_query_char();
    assert_eq!(app.get_query_string(), "ac");
    assert_eq!(app.input_index, 1);
}

#[test]
fn backspace_at_the_start_clears_the_line() {
    let mut app = app_with("abc", &[], None);
    app.prev_query_char();
    app.prev_query_char();
    app.prev_query_char();
    assert_eq!(app.input_index, 0);
    app.delete_query_char();
    assert_eq!(app.get_query_string(), "");
    assert_eq!(app.input_index, 0);
}

#[test]
fn cursor_stays_within_the_line() {
    let mut app = app_with("ab", &[], None);
    app.next_query_char();
    assert_eq!(app.input_index, 2);
    app.prev_query_char();
    app.prev_query_char();
    app.prev_query_char();
    assert_eq!(app.input_index, 0);
    app.next_query_char();
    assert_eq!(app.input_index, 1);
}

#[test]
fn found_entries_are_numbered_and_selection_stays() {
    let mut app = app_with("", &["a", "b", "c"], Some(1));
    assert_eq!(
        app.entries.items(),
        &vec![(entry(1, "a", false), 0), (entry(2, "b", false), 1), (entry(3, "c", false), 2)]
    );
    app.update_entries(vec![entry(9, "z", true)]);
    assert_eq!(app.entries.items(), &vec![(entry(9, "z", true), 0)]);
    assert_eq!(app.entries.selected(), Some(1));
    assert_eq!(app.entries.get_selected(), None);
}

#[test]
fn deleting_asks_first() {
    let mut app = app_with("", &["a", "b"], Some(1));
    assert_eq!(app.delete_selected_entry(), None);
    assert_eq!(app.focused, Focused::DeletionPrompt);
    assert_eq!(app.delete_selected_entry(), Some(Identifier::Row(2)));
    assert_eq!(app.focused, Focused::MainWindow);
}

#[test]
fn deleting_needs_a_selection() {
    let mut app = app_with("", &["a"], None);
    assert_eq!(app.delete_selected_entry(), None);
    assert_eq!(app.focused, Focused::MainWindow);
    app.focused = Focused::DeletionPrompt;
    assert_eq!(app.delete_selected_entry(), None);
    assert_eq!(app.focused, Focused::DeletionPrompt);
}

#[test]
fn favorite_is_flipped_on_a_copy() {
    let app = app_with("", &["a", "b"], Some(0));
    assert_eq!(app.toggle_favorite_selected_entry(), Some(entry(1, "a", true)));
    assert_eq!(app.entries.get_selected(), Some(&(entry(1, "a", false), 0)));
    let nothing = app_with("", &["a"], None);
    assert_eq!(nothing.toggle_favorite_selected_entry(), None);
}

#[test]
fn renaming_puts_the_search_aside() {
    let mut app = app_with("fav", &["old title"], Some(0));
    app.prev_query_char();
    app.enter_rename_mode();
    assert_eq!(app.input_state, InputState::Rename);
    assert_eq!(app.get_query_string(), "old title");
    assert_eq!(app.input_index, 9);
    assert_eq!(app.input_backup, chars("fav"));
    assert_eq!(app.input_index_backup, 2);

    app.delete_query_char();
    app.insert_query_char('E');
    let mut renamed = entry(1, "old title", false);
    renamed.title = "old titlE".to_string();
    assert_eq!(app.rename_entry(), Some(renamed));
    assert_eq!(app.input_state, InputState::Search);
    assert_eq!(app.get_query_string(), "fav");
    assert_eq!(app.input_index, 2);
}

#[test]
fn renaming_needs_a_selection() {
    let mut app = app_with("fav", &["t"], None);
    app.enter_rename_mode();
    assert_eq!(app.input_state, InputState::Search);
    assert_eq!(app.get_query_string(), "fav");
    assert_eq!(app.rename_entry(), None);
    assert_eq!(app.get_query_string(), "fav");
}

#[test]
fn leaving_rename_restores_the_search() {
    let mut app = app_with("query", &["t"], Some(0));
    app.enter_rename_mode();
    app.exit_rename_mode();
    assert_eq!(app.input_state, InputState::Search);
    assert_eq!(app.get_query_string(), "query");
    assert_eq!(app.input_index, 5);
}

#[test]
fn entries_are_copied_whole() {
    let e = entry(4, "t", true);
    assert_eq!(e.clone(), e);
    let f = Entry { identifier: Identifier::File("/n/a.md".to_string()), ..entry(1, "a", false) };
    assert_eq!(f.clone(), f);
}

#[test]
fn counts_parse_like_the_standard_library() {
    for case in [
        "0", "7", "+7", "-7", "007", "18446744073709551615", "18446744073709551616",
        "99999999999999999999999", "", "+", "1a", " 1", "1_000", "+-1", "++1", "\u{663}",
    ] {
        assert_eq!(parse_count(case), case.parse::<u64>().ok(), "{:?}", case);
    }
    assert_eq!(parse_count("18446744073709551615"), Some(u64::MAX));
}

#[test]
fn replacing_runs_of_characters() {
    let cases = [
        ("a<DATE>b<DATE>", "<DATE>", "06-07-2023"),
        ("aaaa", "aa", "b"),
        ("aaa", "aa", "b"),
        ("abc", "abcd", "x"),
        ("abc", "c", ""),
        ("", "a", "b"),
        ("<<DATE>", "<DATE>", "<DATE>"),
        ("ababab", "aba", "x"),
        ("none here", "zz", "y"),
    ];
    for (text, from, to) in cases {
        assert_eq!(
            string_of(&replace_all(&chars(text), &chars(from), &chars(to))),
            text.replace(from, to),
            "{:?}",
            (text, from, to)
        );
    }
    assert_eq!(replace_all(&chars("abc"), &chars(""), &chars("x")), chars("abc"));
}

#[test]
fn strings_and_characters() {
    assert_eq!(string_of(&chars("h\u{e9}llo")), "h\u{e9}llo");
    assert_eq!(string_of(&Vec::new()), "");
    assert_eq!(copy_chars(&chars("abc")), chars("abc"));
}

#[test]
fn labels_of_a_timestamp() {
    assert_eq!(
        timestamp_labels(1_431_648_000),
        Some(("05-15-2015".to_string(), "12:00am".to_string()))
    );
    assert_eq!(
        timestamp_labels(1_431_648_000 + 13 * 3600 + 5 * 60),
        Some(("05-15-2015".to_string(), "01:05pm".to_string()))
    );
    assert_eq!(timestamp_labels(u64::MAX), None);
    assert_eq!(timestamp_labels(i64::MAX as u64), None);
    let e = entry(1, "a", false);
    assert_eq!(e.get_date(), Some("05-15-2015".to_string()));
    assert_eq!(e.get_time(), Some("12:00am".to_string()));
}

#[test]
fn date_and_time_are_filled_in() {
    assert_eq!(
        fill_in("On <DATE> at <TIME>: <DATE>", "05-15-2015", "12:00am"),
        "On 05-15-2015 at 12:00am: 05-15-2015"
    );
    assert_eq!(fill_in("<TIME>", "<TIME>", "x"), "x");
    assert_eq!(
        post_process("<DATE> <TIME> note".to_string(), "1431648000".to_string()),
        Some("05-15-2015 12:00am note".to_string())
    );
    assert_eq!(post_process("x".to_string(), "soon".to_string()), None);
    assert_eq!(post_process("x".to_string(), "-5".to_string()), None);
    assert_eq!(post_process("x".to_string(), "18446744073709551615".to_string()), None);
}

#[test]
fn editor_file_names_count_up() {
    assert_eq!(feeling_name(0), "FEELING.md");
    assert_eq!(feeling_name(1), "FEELING1.md");
    assert_eq!(feeling_name(27), "FEELING27.md");
}

fn config() -> Config {
    Config {
        thoughts_path: "/notes".to_string(),
        temp_file_path: "/tmp/thought.md".to_string(),
        editor_command: "vi".to_string(),
        reactive: true,
        min_width: 58,
        min_height: 18,
        react_width: 80,
    }
}

#[test]
fn screen_needs_its_least_size() {
    assert!(should_render(58, 18, &config()));
    assert!(should_render(200, 50, &config()));
    assert!(!should_render(57, 18, &config()));
    assert!(!should_render(58, 17, &config()));
}

#[test]
fn content_shows_from_the_react_width_on() {
    assert!(show_note_content(80, &config()));
    assert!(show_note_content(81, &config()));
    assert!(!show_note_content(79, &config()));
}

#[test]
fn list_takes_half_or_all_but_the_frame() {
    assert_eq!(note_list_width(true, 100), 50);
    assert_eq!(note_list_width(true, 81), 40);
    assert_eq!(note_list_width(false, 60), 58);
    assert_eq!(note_list_width(false, 2), 0);
}

#[test]
fn long_titles_are_cut() {
    assert_eq!(shown_title("short", 40), ("short".to_string(), false));
    assert_eq!(shown_title("exactly fifteen", 40), ("exactly fifteen".to_string(), false));
    assert_eq!(shown_title("sixteen letters!", 40), ("sixteen letters".to_string(), true));
    assert_eq!(shown_title("\u{e9}t\u{e9} au caf\u{e9}", 28), ("\u{e9}t\u{e9}".to_string(), true));
    assert_eq!(shown_title("x", 25), (String::new(), true));
    assert_eq!(shown_title("", 25), (String::new(), false));
}

#[test]
fn selection_settles_on_the_first_entry() {
    assert_eq!(settled_selection(None, 0), None);
    assert_eq!(settled_selection(Some(3), 0), None);
    assert_eq!(settled_selection(None, 4), Some(0));
    assert_eq!(settled_selection(Some(3), 4), Some(3));
}

#[test]
fn selection_stops_at_both_ends() {
    assert_eq!(selection_up(Some(2)), Some(1));
    assert_eq!(selection_up(Some(0)), Some(0));
    assert_eq!(selection_up(None), None);
    assert_eq!(selection_down(Some(0), 3), Some(1));
    assert_eq!(selection_down(Some(2), 3), Some(2));
    assert_eq!(selection_down(Some(9), 3), Some(2));
    assert_eq!(selection_down(None, 3), None);
}

#[test]
fn typed_text_goes_in_at_the_cursor() {
    let line = |s: &str| chars(s);
    assert_eq!(reconcile_input(&line("helo"), &line("helol"), 3), (line("hello"), 4));
    assert_eq!(reconcile_input(&line("ad"), &line("adbc"), 1), (line("abcd"), 3));
    assert_eq!(reconcile_input(&line(""), &line("x"), 0), (line("x"), 1));
    assert_eq!(reconcile_input(&line("ab"), &line("abc"), 2), (line("abc"), 3));
    assert_eq!(reconcile_input(&line("ab"), &line("abc"), 0), (line("cab"), 1));
}

#[test]
fn dropped_text_goes_out_before_the_cursor() {
    let line = |s: &str| chars(s);
    assert_eq!(reconcile_input(&line("hello"), &line("hell"), 3), (line("helo"), 2));
    assert_eq!(reconcile_input(&line("hello"), &line("hell"), 5), (line("hell"), 4));
    assert_eq!(reconcile_input(&line("hello"), &line("hell"), 0), (line("hello"), 0));
    assert_eq!(reconcile_input(&line("hello"), &line("hel"), 2), (line("hlo"), 0));
    assert_eq!(reconcile_input(&line("abc"), &line("xyz"), 1), (line("xyz"), 1));
}

#[test]
fn ranges_are_appended() {
    let mut out = chars("ab");
    append_range(&mut out, &chars("01234"), 1, 4);
    assert_eq!(out, chars("ab123"));
    append_range(&mut out, &chars("01234"), 2, 2);
    assert_eq!(out, chars("ab123"));
}
