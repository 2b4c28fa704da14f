use thoughts::database::{Entry, Identifier};
use thoughts::input::{handle_delete_window, handle_input, handle_main_window, has_name, Key, Request, Step};
use thoughts::tui::{App, Focused, InputState};

fn entry(id: i32, title: &str, favorite: bool) -> Entry {
    Entry {
        identifier: Identifier::Row(id),
        title: title.to_string(),
        content: "body".to_string(),
        favorite,
        tags: Vec::new(),
        created_at: 5,
        modified_at: 6,
    }
}

fn app_with(query: &str, titles: &[&str], selected: Option<usize>) -> App {
    let mut app = App::new();
    for c in query.chars() {
        app.insert_query_char(c);
    }
    let found = titles.iter().enumerate().map(|(i, t)| entry(i as i32 + 1, t, false)).collect();
    app.update_entries(found);
    app.entries.select(selected);
    app
}

fn step(proceed: bool, refresh: bool, request: Request) -> Step {
    Step { proceed, refresh, request }
}

#[test]
fn typing_edits_the_search_and_refreshes() {
    let mut app = app_with("ab", &["x"], Some(0));
    assert_eq!(handle_input(Key::Char('c'), false, &mut app), step(true, true, Request::Nothing));
    assert_eq!(app.get_query_string(), "abc");
    assert_eq!(handle_input(Key::Left, false, &mut app), step(true, true, Request::Nothing));
    assert_eq!(handle_input(Key::Backspace, false, &mut app), step(true, true, Request::Nothing));
    assert_eq!(app.get_query_string(), "ac");
    assert_eq!(handle_input(Key::Right, false, &mut app), step(true, true, Request::Nothing));
    assert_eq!(app.input_index, 2);
    assert_eq!(handle_input(Key::Other, false, &mut app), step(true, true, Request::Nothing));
    assert_eq!(app.get_query_string(), "ac");
}

#[test]
fn escape_ends_the_screen() {
    let mut app = app_with("ab", &["x"], Some(0));
    assert_eq!(handle_input(Key::Esc, false, &mut app), step(false, false, Request::Nothing));
    assert_eq!(app.get_query_string(), "ab");
}

#[test]
fn enter_asks_for_a_new_entry() {
    let mut app = app_with("my note", &[], None);
    assert_eq!(
        handle_main_window(Key::Enter, false, &mut app),
        step(true, true, Request::Create("my note".to_string()))
    );
    let mut blank = app_with("   ", &[], None);
    assert_eq!(handle_main_window(Key::Enter, false, &mut blank), step(true, true, Request::Nothing));
    let mut empty = app_with("", &[], None);
    assert_eq!(handle_main_window(Key::Enter, false, &mut empty), step(true, true, Request::Nothing));
}

#[test]
fn names_need_more_than_spaces() {
    let line = |s: &str| s.chars().collect::<Vec<char>>();
    assert!(has_name(&line("a")));
    assert!(has_name(&line("  a ")));
    assert!(has_name(&line("\t")));
    assert!(!has_name(&line("")));
    assert!(!has_name(&line("    ")));
}

#[test]
fn arrows_move_the_selection() {
    let mut app = app_with("", &["a", "b"], Some(0));
    handle_input(Key::Down, false, &mut app);
    assert_eq!(app.entries.selected(), Some(1));
    handle_input(Key::Down, false, &mut app);
    assert_eq!(app.entries.selected(), Some(0));
    handle_input(Key::Up, false, &mut app);
    assert_eq!(app.entries.selected(), Some(1));
}

#[test]
fn delete_opens_the_prompt_and_y_confirms() {
    let mut app = app_with("", &["a", "b"], Some(1));
    assert_eq!(handle_input(Key::Delete, false, &mut app), step(true, true, Request::Nothing));
    assert_eq!(app.focused, Focused::DeletionPrompt);
    assert_eq!(handle_input(Key::Char('x'), false, &mut app), step(true, false, Request::Nothing));
    assert_eq!(app.focused, Focused::DeletionPrompt);
    assert_eq!(app.get_query_string(), "");
    assert_eq!(
        handle_input(Key::Char('y'), false, &mut app),
        step(true, true, Request::Delete(Identifier::Row(2)))
    );
    assert_eq!(app.focused, Focused::MainWindow);
}

#[test]
fn n_closes_the_prompt() {
    let mut app = app_with("", &["a"], Some(0));
    handle_input(Key::Delete, false, &mut app);
    assert_eq!(handle_delete_window(Key::Char('n'), &mut app), step(true, false, Request::Nothing));
    assert_eq!(app.focused, Focused::MainWindow);
}

#[test]
fn y_without_selection_changes_nothing() {
    let mut app = app_with("", &["a"], None);
    app.focused = Focused::DeletionPrompt;
    assert_eq!(handle_delete_window(Key::Char('y'), &mut app), step(true, false, Request::Nothing));
    assert_eq!(app.focused, Focused::DeletionPrompt);
}

#[test]
fn control_keys_are_commands() {
    let mut app = app_with("q", &["a", "b"], Some(1));
    assert_eq!(
        handle_input(Key::Char('f'), true, &mut app),
        step(true, true, Request::Write(entry(2, "b", true)))
    );
    assert_eq!(
        handle_input(Key::Char('e'), true, &mut app),
        step(true, true, Request::Edit(entry(2, "b", false)))
    );
    assert_eq!(handle_input(Key::Char('z'), true, &mut app), step(true, true, Request::Nothing));
    assert_eq!(handle_input(Key::Enter, true, &mut app), step(true, true, Request::Nothing));
    assert_eq!(app.get_query_string(), "q");

    let mut nothing = app_with("q", &["a"], None);
    assert_eq!(handle_input(Key::Char('f'), true, &mut nothing), step(true, true, Request::Nothing));
    assert_eq!(handle_input(Key::Char('e'), true, &mut nothing), step(true, true, Request::Nothing));
    assert_eq!(handle_input(Key::Char('r'), true, &mut nothing), step(true, true, Request::Nothing));
    assert_eq!(nothing.input_state, InputState::Search);
}

#[test]
fn renaming_from_the_keys() {
    let mut app = app_with("q", &["old"], Some(0));
    assert_eq!(handle_input(Key::Char('r'), true, &mut app), step(true, false, Request::Nothing));
    assert_eq!(app.input_state, InputState::Rename);
    assert_eq!(app.get_query_string(), "old");
    assert_eq!(handle_input(Key::Char('f'), true, &mut app), step(true, false, Request::Nothing));
    assert_eq!(handle_input(Key::Down, false, &mut app), step(true, false, Request::Nothing));
    assert_eq!(app.entries.selected(), Some(0));
    assert_eq!(handle_input(Key::Char('!'), false, &mut app), step(true, false, Request::Nothing));
    let mut renamed = entry(1, "old", false);
    renamed.title = "old!".to_string();
    assert_eq!(handle_input(Key::Enter, false, &mut app), step(true, true, Request::Write(renamed)));
    assert_eq!(app.input_state, InputState::Search);
    assert_eq!(app.get_query_string(), "q");
}

#[test]
fn escape_leaves_renaming_only() {
    let mut app = app_with("q", &["old"], Some(0));
    handle_input(Key::Char('r'), true, &mut app);
    assert_eq!(handle_input(Key::Esc, false, &mut app), step(true, true, Request::Nothing));
    assert_eq!(app.input_state, InputState::Search);
    assert_eq!(app.get_query_string(), "q");
}
