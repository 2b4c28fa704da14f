//! What each key does to the screen, and what it asks of the store.

use crate::database::{Entry, Identifier};
use crate::tui::{
    deletion_named, focus_after_delete, next_index, previous_index, same_but_favorite,
    same_but_title, App, Focused, InputState,
};
use vstd::prelude::*;

verus! {

/// A key, as the screen tells keys apart.
#[derive(Clone, Copy, Debug, PartialEq, Eq, Structural)]
pub enum Key {
    Char(char),
    Enter,
    Esc,
    Down,
    Up,
    Delete,
    Backspace,
    Left,
    Right,
    Other,
}

/// What a key asks of the editor and the store.
#[derive(Debug, PartialEq)]
pub enum Request {
    Nothing,
    /// Write a new entry of this title in the editor and store it.
    Create(String),
    /// Open this entry in the editor and store what comes back.
    Edit(Entry),
    /// Store this entry in place of the one with its identifier.
    Write(Entry),
    /// Delete the entry with this identifier.
    Delete(Identifier),
}

/// The outcome of one key.
#[derive(Debug, PartialEq)]
pub struct Step {
    /// Whether the screen goes on; false once Esc ends it.
    pub proceed: bool,
    /// Whether the list is to be searched anew.
    pub refresh: bool,
    pub request: Request,
}

/// Whether `a` and `b` are the same entry, field by field.
pub open spec fn same_entry(a: Entry, b: Entry) -> bool {
    a.title == b.title && same_but_title(a, b)
}

/// Whether the line holds anything but spaces.
pub open spec fn names_something(line: Seq<char>) -> bool {
    exists|i: int| 0 <= i < line.len() && line[i] != ' '
}

/// Whether the screen is as before in every part.
pub open spec fn unchanged(after: App, before: App) -> bool {
    after.line_kept(before) && after.rest_kept(before)
}

/// The request of a step of deleting.
pub open spec fn asks_deletion(before: App, request: Request) -> bool {
    match deletion_named(before) {
        Some(identifier) => request == Request::Delete(identifier),
        None => request is Nothing,
    }
}

/// What a key does while the prompt asks whether to delete: `y` deletes the
/// selected entry and closes the prompt, `n` closes the prompt, any other
/// key does nothing.
pub open spec fn prompt_step(before: App, code: Key, after: App, step: Step) -> bool {
    &&& step.proceed
    &&& after.all_but_focus_kept(before)
    &&& match code {
        Key::Char('y') => {
            &&& after.focused == focus_after_delete(before)
            &&& asks_deletion(before, step.request)
            &&& step.refresh == deletion_named(before) is Some
        },
        Key::Char('n') => {
            &&& after.focused == Focused::MainWindow
            &&& step.request is Nothing
            &&& !step.refresh
        },
        _ => after.focused == before.focused && step.request is Nothing && !step.refresh,
    }
}

/// What a key does to the input line: a character is typed, Backspace
/// erases, the arrows move the cursor, any other key leaves the line.
pub open spec fn line_step(before: App, code: Key, after: App) -> bool {
    match code {
        Key::Char(c) => after.typed(before, c),
        Key::Backspace => after.erased(before),
        Key::Left => after.moved_left(before),
        Key::Right => after.moved_right(before),
        _ => unchanged(after, before),
    }
}

/// What a key with Control does in the main window: while searching, `f`
/// flips the favorite flag of the selected entry, `e` opens it in the
/// editor and `r` starts renaming it.
pub open spec fn control_step(before: App, code: Key, after: App, request: Request) -> bool {
    if before.input_state == InputState::Search && code == Key::Char('f') {
        &&& unchanged(after, before)
        &&& match before.entries.chosen() {
            Some(item) => request matches Request::Write(e) && e.favorite == !item.0.favorite
                && same_but_favorite(e, item.0),
            None => request is Nothing,
        }
    } else if before.input_state == InputState::Search && code == Key::Char('e') {
        &&& unchanged(after, before)
        &&& match before.entries.chosen() {
            Some(item) => request matches Request::Edit(e) && same_entry(e, item.0),
            None => request is Nothing,
        }
    } else if before.input_state == InputState::Search && code == Key::Char('r') {
        after.rename_started(before) && request is Nothing
    } else {
        unchanged(after, before) && request is Nothing
    }
}

/// What a key without Control does in the main window, before it reaches
/// the input line. While searching: Enter asks for a new entry named by the
/// line, the arrows move the selection, Delete starts deleting. While
/// renaming: Esc leaves, Enter renames.
pub open spec fn command_step(before: App, code: Key, after: App, request: Request) -> bool {
    match (before.input_state, code) {
        (InputState::Search, Key::Enter) => {
            &&& unchanged(after, before)
            &&& if names_something(before.input@) {
                request matches Request::Create(name) && name@ == before.input@
            } else {
                request is Nothing
            }
        },
        (InputState::Search, Key::Down) => {
            &&& after.line_kept(before)
            &&& after.input_backup@ == before.input_backup@
            &&& after.input_index_backup == before.input_index_backup
            &&& after.input_state == before.input_state
            &&& after.focused == before.focused
            &&& after.entries.elements() == before.entries.elements()
            &&& after.entries.selection() == Some(
                next_index(before.entries.selection(), before.entries.elements().len()),
            )
            &&& request is Nothing
        },
        (InputState::Search, Key::Up) => {
            &&& after.line_kept(before)
            &&& after.input_backup@ == before.input_backup@
            &&& after.input_index_backup == before.input_index_backup
            &&& after.input_state == before.input_state
            &&& after.focused == before.focused
            &&& after.entries.elements() == before.entries.elements()
            &&& after.entries.selection() == Some(
                previous_index(before.entries.selection(), before.entries.elements().len()),
            )
            &&& request is Nothing
        },
        (InputState::Search, Key::Delete) => {
            &&& after.all_but_focus_kept(before)
            &&& after.focused == focus_after_delete(before)
            &&& asks_deletion(before, request)
        },
        (InputState::Rename, Key::Esc) => after.rename_ended(before) && request is Nothing,
        (InputState::Rename, Key::Enter) => match before.entries.chosen() {
            Some(item) => {
                &&& after.rename_ended(before)
                &&& request matches Request::Write(e) && e.title@ == before.input@
                    && same_but_title(e, item.0)
            },
            None => unchanged(after, before) && request is Nothing,
        },
        _ => unchanged(after, before) && request is Nothing,
    }
}

/// What a key does in the main window. Esc while searching ends the screen
/// and nothing else happens. With Control the key is a command and never
/// reaches the input line. Without, it is first a command and then edits
/// the line. The list is searched anew whenever the screen is left
/// searching.
pub open spec fn main_window_step(
    before: App,
    code: Key,
    control: bool,
    after: App,
    step: Step,
) -> bool {
    if !control && before.input_state == InputState::Search && code == Key::Esc {
        unchanged(after, before) && !step.proceed && !step.refresh && step.request is Nothing
    } else {
        &&& step.proceed
        &&& step.refresh == (after.input_state == InputState::Search)
        &&& if control {
            control_step(before, code, after, step.request)
        } else {
            exists|between: App|
                command_step(before, code, between, step.request) && line_step(
                    between,
                    code,
                    after,
                )
        }
    }
}

/// Whether the line holds anything but spaces.
pub fn has_name(line: &Vec<char>) -> (r: bool)
    ensures
        r == names_something(line@),
{
    let mut i: usize = 0;
    while i < line.len()
        invariant
            0 <= i <= line@.len(),
            forall|k: int| 0 <= k < i ==> line@[k] == ' ',
        decreases line@.len() - i,
    {
        if line[i] != ' ' {
            return true;
        }
        i += 1;
    }
    false
}

/// Handles a key while the prompt asks whether to delete.
pub fn handle_delete_window(code: Key, app: &mut App) -> (r: Step)
    ensures
        prompt_step(*old(app), code, *final(app), r),
{
    match code {
        Key::Char('y') => match app.delete_selected_entry() {
            Some(identifier) => Step {
                proceed: true,
                refresh: true,
                request: Request::Delete(identifier),
            },
            None => Step { proceed: true, refresh: false, request: Request::Nothing },
        },
        Key::Char('n') => {
            app.focused = Focused::MainWindow;
            Step { proceed: true, refresh: false, request: Request::Nothing }
        },
        _ => Step { proceed: true, refresh: false, request: Request::Nothing },
    }
}

/// Handles a key in the main window.
pub fn handle_main_window(code: Key, control: bool, app: &mut App) -> (r: Step)
    requires
        !control ==> old(app).wf(),
        !control && code is Char ==> old(app).input@.len() + 1 < i32::MAX,
    ensures
        main_window_step(*old(app), code, control, *final(app), r),
{
    let mut request = Request::Nothing;
    if control {
        match (app.input_state, code) {
            (InputState::Search, Key::Char('f')) => {
                match app.toggle_favorite_selected_entry() {
                    Some(entry) => {
                        request = Request::Write(entry);
                    },
                    None => {},
                }
            },
            (InputState::Search, Key::Char('e')) => {
                match app.entries.get_selected() {
                    Some(item) => {
                        request = Request::Edit(item.0.clone());
                    },
                    None => {},
                }
            },
            (InputState::Search, Key::Char('r')) => {
                app.enter_rename_mode();
            },
            _ => {},
        }
    } else {
        match (app.input_state, code) {
            (InputState::Search, Key::Esc) => {
                return Step { proceed: false, refresh: false, request: Request::Nothing };
            },
            (InputState::Search, Key::Enter) => {
                if has_name(&app.input) {
                    request = Request::Create(app.get_query_string());
                }
            },
            (InputState::Search, Key::Down) => {
                app.entries.next();
            },
            (InputState::Search, Key::Up) => {
                app.entries.previous();
            },
            (InputState::Search, Key::Delete) => {
                match app.delete_selected_entry() {
                    Some(identifier) => {
                        request = Request::Delete(identifier);
                    },
                    None => {},
                }
            },
            (InputState::Rename, Key::Esc) => {
                app.exit_rename_mode();
            },
            (InputState::Rename, Key::Enter) => {
                match app.rename_entry() {
                    Some(entry) => {
                        request = Request::Write(entry);
                    },
                    None => {},
                }
            },
            _ => {},
        }
        let ghost between = *app;
        proof {
            assert(command_step(*old(app), code, between, request));
        }
        match code {
            Key::Char(c) => {
                app.insert_query_char(c);
            },
            Key::Backspace => {
                app.delete_query_char();
            },
            Key::Left => {
                app.prev_query_char();
            },
            Key::Right => {
                app.next_query_char();
            },
            _ => {},
        }
        proof {
            assert(line_step(between, code, *app));
        }
    }
    let refresh = match app.input_state {
        InputState::Search => true,
        InputState::Rename => false,
    };
    Step { proceed: true, refresh, request }
}

/// Handles a key: in the main window, or in the prompt where it is open.
pub fn handle_input(code: Key, control: bool, app: &mut App) -> (r: Step)
    requires
        old(app).focused == Focused::MainWindow && !control ==> old(app).wf(),
        old(app).focused == Focused::MainWindow && !control && code is Char ==> old(app).input@.len() + 1 < i32::MAX,
    ensures
        match old(app).focused {
            Focused::MainWindow => main_window_step(*old(app), code, control, *final(app), r),
            Focused::DeletionPrompt => prompt_step(*old(app), code, *final(app), r),
        },
{
    match app.focused {
        Focused::MainWindow => handle_main_window(code, control, app),
        Focused::DeletionPrompt => handle_delete_window(code, app),
    }
}

} // verus!
