//! The state of the interactive screen: the input line, the list of
//! entries and what has the focus.

use crate::config::Config;
use crate::database::{Entry, Identifier};
use crate::text::{append_range, chars_of, copy_chars, string_of};
use vstd::prelude::*;

verus! {

/// Which part of the screen takes the keys.
#[derive(Clone, Copy, Debug, PartialEq, Eq, Structural)]
pub enum Focused {
    MainWindow,
    DeletionPrompt,
}

/// What the input line is used for.
#[derive(Clone, Copy, Debug, PartialEq, Eq, Structural)]
pub enum InputState {
    Search,
    Rename,
}

/// The position selected after a step down a list of `len` items: back to
/// the top from the last item.
pub open spec fn next_index(selected: Option<usize>, len: nat) -> usize {
    match selected {
        Some(i) => if len == 0 || i >= len - 1 {
            0
        } else {
            (i + 1) as usize
        },
        None => 0,
    }
}

/// The position selected after a step up a list of `len` items: to the last
/// item from the top.
pub open spec fn previous_index(selected: Option<usize>, len: nat) -> usize {
    match selected {
        Some(i) => if i == 0 {
            if len == 0 {
                0
            } else {
                (len - 1) as usize
            }
        } else {
            (i - 1) as usize
        },
        None => 0,
    }
}

/// A list with at most one position selected.
#[derive(Debug)]
pub struct StatefulList<T> {
    state: Option<usize>,
    items: Vec<T>,
}

impl<T> StatefulList<T> {
    /// The position that is selected, if any.
    pub closed spec fn selection(&self) -> Option<usize> {
        self.state
    }

    /// The items of the list.
    pub closed spec fn elements(&self) -> Seq<T> {
        self.items@
    }

    /// The item that is selected, if the selection names one.
    pub open spec fn chosen(&self) -> Option<T> {
        match self.selection() {
            Some(i) => if i < self.elements().len() {
                Some(self.elements()[i as int])
            } else {
                None
            },
            None => None,
        }
    }

    /// A list of the items, nothing selected.
    pub fn with_items(items: Vec<T>) -> (r: StatefulList<T>)
        ensures
            r.selection() is None,
            r.elements() == items@,
    {
        StatefulList { state: None, items }
    }

    /// The position that is selected, if any.
    pub fn selected(&self) -> (r: Option<usize>)
        ensures
            r == self.selection(),
    {
        self.state
    }

    /// Selects a position, or nothing.
    pub fn select(&mut self, position: Option<usize>)
        ensures
            final(self).selection() == position,
            final(self).elements() == old(self).elements(),
    {
        self.state = position;
    }

    /// The items of the list.
    pub fn items(&self) -> (r: &Vec<T>)
        ensures
            r@ == self.elements(),
    {
        &self.items
    }

    /// Moves the selection one item down, from the last item to the first.
    pub fn next(&mut self)
        ensures
            final(self).elements() == old(self).elements(),
            final(self).selection() == Some(
                next_index(old(self).selection(), old(self).elements().len()),
            ),
    {
        let i: usize = match self.state {
            Some(i) => {
                if self.items.len() == 0 || i >= self.items.len() - 1 {
                    0
                } else {
                    i + 1
                }
            },
            None => 0,
        };
        self.state = Some(i);
    }

    /// Moves the selection one item up, from the first item to the last.
    pub fn previous(&mut self)
        ensures
            final(self).elements() == old(self).elements(),
            final(self).selection() == Some(
                previous_index(old(self).selection(), old(self).elements().len()),
            ),
    {
        let i: usize = match self.state {
            Some(i) => {
                if i == 0 {
                    if self.items.len() == 0 {
                        0
                    } else {
                        self.items.len() - 1
                    }
                } else {
                    i - 1
                }
            },
            None => 0,
        };
        self.state = Some(i);
    }

    /// Selects the last item; position 0 in an empty list.
    pub fn last(&mut self)
        ensures
            final(self).elements() == old(self).elements(),
            final(self).selection() == Some(
                if old(self).elements().len() != 0 {
                    (old(self).elements().len() - 1) as usize
                } else {
                    0usize
                },
            ),
    {
        let i: usize = if self.items.len() != 0 {
            self.items.len() - 1
        } else {
            0
        };
        self.state = Some(i);
    }

    /// The item that is selected, if the selection names one.
    pub fn get_selected(&self) -> (r: Option<&T>)
        ensures
            match r {
                Some(item) => self.chosen() == Some(*item),
                None => self.chosen() is None,
            },
    {
        match self.state {
            Some(i) => {
                if i < self.items.len() {
                    Some(&self.items[i])
                } else {
                    None
                }
            },
            None => None,
        }
    }
}

/// The entries as the list shows them: each with its position.
pub open spec fn numbered(entries: Seq<Entry>) -> Seq<(Entry, usize)> {
    Seq::new(entries.len(), |i: int| (entries[i], i as usize))
}

/// The state of the screen.
#[derive(Debug)]
pub struct App {
    pub input: Vec<char>,
    pub input_backup: Vec<char>,
    pub input_index: i32,
    pub input_index_backup: i32,
    pub input_state: InputState,
    pub entries: StatefulList<(Entry, usize)>,
    pub focused: Focused,
}

impl App {
    /// Whether the cursor stands within the input line.
    pub open spec fn wf(&self) -> bool {
        0 <= self.input_index <= self.input@.len() < i32::MAX
    }

    /// Whether the input line and its cursor are those of `before`.
    pub open spec fn line_kept(&self, before: App) -> bool {
        self.input@ == before.input@ && self.input_index == before.input_index
    }

    /// Whether all but the input line and its cursor is as in `before`.
    pub open spec fn rest_kept(&self, before: App) -> bool {
        &&& self.input_backup@ == before.input_backup@
        &&& self.input_index_backup == before.input_index_backup
        &&& self.input_state == before.input_state
        &&& self.entries == before.entries
        &&& self.focused == before.focused
    }

    /// Whether all but the focus is as in `before`.
    pub open spec fn all_but_focus_kept(&self, before: App) -> bool {
        &&& self.line_kept(before)
        &&& self.input_backup@ == before.input_backup@
        &&& self.input_index_backup == before.input_index_backup
        &&& self.input_state == before.input_state
        &&& self.entries == before.entries
    }

    /// `self` is `before` after `c` was typed at the cursor.
    pub open spec fn typed(&self, before: App, c: char) -> bool {
        &&& self.rest_kept(before)
        &&& self.input@ == before.input@.insert(before.input_index as int, c)
        &&& self.input_index == before.input_index + 1
    }

    /// `self` is `before` after the character before the cursor was taken
    /// out, or, with the cursor at the start, the whole line.
    pub open spec fn erased(&self, before: App) -> bool {
        &&& self.rest_kept(before)
        &&& before.input_index > 0 ==> self.input@ == before.input@.remove(
            before.input_index - 1,
        ) && self.input_index == before.input_index - 1
        &&& before.input_index <= 0 ==> self.input@.len() == 0 && self.input_index == 0
    }

    /// `self` is `before` with the cursor one place right, at most at the
    /// end of the line.
    pub open spec fn moved_right(&self, before: App) -> bool {
        &&& self.rest_kept(before)
        &&& self.input@ == before.input@
        &&& self.input_index == if before.input_index < before.input@.len() {
            before.input_index + 1
        } else {
            before.input_index as int
        }
    }

    /// `self` is `before` with the cursor one place left, at most at the
    /// start of the line.
    pub open spec fn moved_left(&self, before: App) -> bool {
        &&& self.rest_kept(before)
        &&& self.input@ == before.input@
        &&& self.input_index == if before.input_index > 0 {
            before.input_index - 1
        } else {
            0
        }
    }

    /// `self` is `before` after renaming was started on the selected entry;
    /// the same as `before` where nothing is selected.
    pub open spec fn rename_started(&self, before: App) -> bool {
        &&& self.entries == before.entries
        &&& self.focused == before.focused
        &&& match before.entries.chosen() {
            None => self.line_kept(before) && self.rest_kept(before),
            Some(item) => {
                &&& self.input@ == item.0.title@
                &&& self.input_backup@ == before.input@
                &&& self.input_index_backup == before.input_index
                &&& self.input_state == InputState::Rename
                &&& self.input_index == if item.0.title@.len() < i32::MAX {
                    item.0.title@.len() as int
                } else {
                    i32::MAX as int
                }
            },
        }
    }

    /// `self` is `before` after renaming was left: the search that was put
    /// aside is back.
    pub open spec fn rename_ended(&self, before: App) -> bool {
        &&& self.input@ == before.input_backup@
        &&& self.input_backup@ == before.input_backup@
        &&& self.input_index == before.input_index_backup
        &&& self.input_index_backup == before.input_index_backup
        &&& self.input_state == InputState::Search
        &&& self.entries == before.entries
        &&& self.focused == before.focused
    }

    /// The screen at the start: an empty search, an empty list, the main
    /// window in focus.
    pub fn new() -> (r: App)
        ensures
            r.wf(),
            r.input@.len() == 0,
            r.input_backup@.len() == 0,
            r.input_index == 0,
            r.input_index_backup == 0,
            r.input_state == InputState::Search,
            r.entries.elements().len() == 0,
            r.entries.selection() is None,
            r.focused == Focused::MainWindow,
    {
        App {
            input: Vec::new(),
            input_backup: Vec::new(),
            input_index: 0,
            input_index_backup: 0,
            input_state: InputState::Search,
            entries: StatefulList::with_items(Vec::new()),
            focused: Focused::MainWindow,
        }
    }

    /// The text of the input line.
    pub fn get_query_string(&self) -> (r: String)
        ensures
            r@ == self.input@,
    {
        string_of(&self.input)
    }

    /// Shows the entries that a search found. The selection stays at the
    /// position it had.
    pub fn update_entries(&mut self, found: Vec<Entry>)
        ensures
            final(self).entries.elements() == numbered(found@),
            final(self).entries.selection() == old(self).entries.selection(),
            final(self).line_kept(*old(self)),
            final(self).input_backup@ == old(self).input_backup@,
            final(self).input_index_backup == old(self).input_index_backup,
            final(self).input_state == old(self).input_state,
            final(self).focused == old(self).focused,
    {
        let position = self.entries.selected();
        let mut items: Vec<(Entry, usize)> = Vec::new();
        let ghost all = found@;
        for entry in it: found
            invariant
                it.seq() == all,
                items@ == numbered(all.take(it.index() as int)),
        {
            let place = items.len();
            items.push((entry, place));
            proof {
                assert(items@ =~= numbered(all.take(it.index() + 1)));
            }
        }
        proof {
            assert(all.take(all.len() as int) =~= all);
        }
        self.entries = StatefulList::with_items(items);
        self.entries.last();
        self.entries.select(position);
    }

    /// Puts a character in at the cursor and moves the cursor past it.
    pub fn insert_query_char(&mut self, c: char)
        requires
            old(self).wf(),
            old(self).input@.len() + 1 < i32::MAX,
        ensures
            final(self).wf(),
            final(self).typed(*old(self), c),
    {
        self.input.insert(self.input_index as usize, c);
        self.input_index += 1;
    }

    /// Takes out the character before the cursor and moves the cursor back.
    /// With the cursor at the start, the whole line is cleared.
    pub fn delete_query_char(&mut self)
        requires
            old(self).wf(),
        ensures
            final(self).wf(),
            final(self).erased(*old(self)),
    {
        if self.input_index > 0 {
            self.input.remove((self.input_index - 1) as usize);
            self.input_index -= 1;
        } else {
            self.input = Vec::new();
        }
    }

    /// Moves the cursor one character right, at most to the end of the line.
    pub fn next_query_char(&mut self)
        requires
            old(self).wf(),
        ensures
            final(self).wf(),
            final(self).moved_right(*old(self)),
    {
        if (self.input_index as usize) < self.input.len() {
            self.input_index += 1;
        }
    }

    /// Moves the cursor one character left, at most to the start of the line.
    pub fn prev_query_char(&mut self)
        ensures
            final(self).moved_left(*old(self)),
            old(self).wf() ==> final(self).wf(),
    {
        if self.input_index > 0 {
            self.input_index -= 1;
        } else {
            self.input_index = 0;
        }
    }

    /// One step of deleting the selected entry. In the main window it opens
    /// the prompt, if an entry is selected. In the prompt it closes the
    /// prompt and names the entry to delete, if one is selected. Else
    /// nothing changes.
    pub fn delete_selected_entry(&mut self) -> (r: Option<Identifier>)
        ensures
            final(self).all_but_focus_kept(*old(self)),
            r == deletion_named(*old(self)),
            final(self).focused == focus_after_delete(*old(self)),
    {
        match self.focused {
            Focused::MainWindow => {
                if self.entries.get_selected().is_some() {
                    self.focused = Focused::DeletionPrompt;
                }
                None
            },
            Focused::DeletionPrompt => {
                let identifier = match self.entries.get_selected() {
                    Some(item) => Some(item.0.identifier.clone()),
                    None => None,
                };
                if identifier.is_some() {
                    self.focused = Focused::MainWindow;
                }
                identifier
            },
        }
    }

    /// The selected entry with its favorite flag flipped, to be written to
    /// the store; none where nothing is selected.
    pub fn toggle_favorite_selected_entry(&self) -> (r: Option<Entry>)
        ensures
            match self.entries.chosen() {
                None => r is None,
                Some(item) => r is Some && r->0.favorite == !item.0.favorite && same_but_favorite(
                    r->0,
                    item.0,
                ),
            },
    {
        match self.entries.get_selected() {
            Some(item) => {
                let mut entry = item.0.clone();
                entry.favorite = !entry.favorite;
                Some(entry)
            },
            None => None,
        }
    }

    /// Starts renaming the selected entry: the search is put aside and the
    /// input line holds the title, the cursor at its end. Nothing changes
    /// where nothing is selected.
    pub fn enter_rename_mode(&mut self)
        ensures
            final(self).rename_started(*old(self)),
    {
        let title = match self.entries.get_selected() {
            Some(item) => Some(chars_of(item.0.title.as_str())),
            None => None,
        };
        match title {
            Some(chars) => {
                let end: i32 = if chars.len() < 0x7fff_ffff {
                    chars.len() as i32
                } else {
                    0x7fff_ffff
                };
                let mut line = chars;
                std::mem::swap(&mut self.input, &mut line);
                self.input_backup = line;
                self.input_index_backup = self.input_index;
                self.input_index = end;
                self.input_state = InputState::Rename;
            },
            None => {},
        }
    }

    /// Leaves renaming: the search that was put aside is back in the input
    /// line.
    pub fn exit_rename_mode(&mut self)
        ensures
            final(self).rename_ended(*old(self)),
    {
        self.input = copy_chars(&self.input_backup);
        self.input_index = self.input_index_backup;
        self.input_state = InputState::Search;
    }

    /// Ends renaming: the selected entry with the input line as its title,
    /// to be written to the store, and the search back in the input line.
    /// Nothing changes where nothing is selected.
    pub fn rename_entry(&mut self) -> (r: Option<Entry>)
        ensures
            match old(self).entries.chosen() {
                None => r is None && final(self).line_kept(*old(self)) && final(self).rest_kept(
                    *old(self),
                ),
                Some(item) => r is Some && r->0.title@ == old(self).input@ && same_but_title(
                    r->0,
                    item.0,
                ) && final(self).rename_ended(*old(self)),
            },
    {
        let renamed = match self.entries.get_selected() {
            Some(item) => {
                let mut entry = item.0.clone();
                entry.title = self.get_query_string();
                Some(entry)
            },
            None => None,
        };
        if renamed.is_some() {
            self.exit_rename_mode();
        }
        renamed
    }
}

/// The entry that a step of deleting names for deletion: the selected one,
/// once the prompt is open.
pub open spec fn deletion_named(before: App) -> Option<Identifier> {
    match (before.focused, before.entries.chosen()) {
        (Focused::DeletionPrompt, Some(item)) => Some(item.0.identifier),
        _ => None,
    }
}

/// The focus after a step of deleting: it changes sides where an entry is
/// selected.
pub open spec fn focus_after_delete(before: App) -> Focused {
    match (before.focused, before.entries.chosen()) {
        (Focused::MainWindow, Some(_)) => Focused::DeletionPrompt,
        (Focused::DeletionPrompt, Some(_)) => Focused::MainWindow,
        (focused, None) => focused,
    }
}

/// Whether `a` is `b` in all but the favorite flag.
pub open spec fn same_but_favorite(a: Entry, b: Entry) -> bool {
    &&& a.identifier == b.identifier
    &&& a.title == b.title
    &&& a.content == b.content
    &&& a.tags@ == b.tags@
    &&& a.created_at == b.created_at
    &&& a.modified_at == b.modified_at
}

/// Whether `a` is `b` in all but the title.
pub open spec fn same_but_title(a: Entry, b: Entry) -> bool {
    &&& a.identifier == b.identifier
    &&& a.content == b.content
    &&& a.favorite == b.favorite
    &&& a.tags@ == b.tags@
    &&& a.created_at == b.created_at
    &&& a.modified_at == b.modified_at
}

/// Columns that a row of the list needs beside the title.
pub const ROW_MARGIN: u16 = 25;

/// Whether a terminal of this size is large enough for the screen.
pub fn should_render(width: u16, height: u16, config: &Config) -> (r: bool)
    ensures
        r == (width >= config.min_width && height >= config.min_height),
{
    width >= config.min_width && height >= config.min_height
}

/// Whether a terminal of this width shows the content of the selected
/// entry beside the list.
pub fn show_note_content(width: u16, config: &Config) -> (r: bool)
    ensures
        r == (width >= config.react_width),
{
    width >= config.react_width
}

/// The width of the list: half of the terminal beside the content, else
/// all of it but the two columns of the frame.
pub fn note_list_width(show_note_content: bool, term_width: u16) -> (r: u16)
    requires
        term_width >= 2,
    ensures
        r == if show_note_content {
            term_width / 2
        } else {
            (term_width - 2) as u16
        },
{
    if show_note_content {
        term_width / 2
    } else {
        term_width - 2
    }
}

/// The title as a row of `width` columns shows it: its first characters,
/// as many as fit beside the margin, and whether any were cut off.
pub fn shown_title(title: &str, width: u16) -> (r: (String, bool))
    requires
        width >= ROW_MARGIN,
    ensures
        r.1 == (title@.len() > width - ROW_MARGIN),
        r.0@ == if title@.len() > width - ROW_MARGIN {
            title@.take(width - ROW_MARGIN)
        } else {
            title@
        },
{
    let room: usize = (width - ROW_MARGIN) as usize;
    let chars = chars_of(title);
    if chars.len() > room {
        let mut kept = chars;
        kept.truncate(room);
        (string_of(&kept), true)
    } else {
        (string_of(&chars), false)
    }
}

/// The search line and its cursor after the input field reported a new
/// value. The field only ever appends and drops at the end; the line takes
/// what was appended in at the cursor, and where the value got shorter it
/// drops as many characters from the one before the cursor on. A value of
/// the same length replaces the line. With the cursor at the start nothing
/// is dropped.
pub open spec fn reconciled(line: Seq<char>, value: Seq<char>, cursor: int) -> (Seq<char>, int) {
    if value.len() > line.len() {
        (
            value.take(cursor) + value.skip(line.len() as int) + value.subrange(
                cursor,
                line.len() as int,
            ),
            cursor + (value.len() - line.len()),
        )
    } else if value.len() < line.len() {
        let gone = line.len() - value.len();
        (
            if cursor > 0 {
                line.take(cursor - 1) + line.skip(cursor - 1 + gone)
            } else {
                line
            },
            if cursor > gone {
                cursor - gone
            } else {
                0
            },
        )
    } else {
        (value, cursor)
    }
}

/// Brings the search line up to date with the value of the input field.
pub fn reconcile_input(line: &Vec<char>, value: &Vec<char>, cursor: usize) -> (r: (
    Vec<char>,
    usize,
))
    requires
        value@.len() > line@.len() ==> cursor <= line@.len(),
        value@.len() < line@.len() && cursor > 0 ==> cursor - 1 + (line@.len() - value@.len())
            <= line@.len(),
    ensures
        r.0@ == reconciled(line@, value@, cursor as int).0,
        r.1 == reconciled(line@, value@, cursor as int).1,
{
    let mut out: Vec<char> = Vec::new();
    if value.len() > line.len() {
        append_range(&mut out, value, 0, cursor);
        append_range(&mut out, value, line.len(), value.len());
        append_range(&mut out, value, cursor, line.len());
        proof {
            assert(out@ =~= value@.take(cursor as int) + value@.skip(line@.len() as int)
                + value@.subrange(cursor as int, line@.len() as int));
        }
        (out, cursor + (value.len() - line.len()))
    } else if value.len() < line.len() {
        let gone: usize = line.len() - value.len();
        if cursor > 0 {
            append_range(&mut out, line, 0, cursor - 1);
            append_range(&mut out, line, cursor - 1 + gone, line.len());
            proof {
                assert(out@ =~= line@.take(cursor - 1) + line@.skip(cursor - 1 + gone));
            }
        } else {
            append_range(&mut out, line, 0, line.len());
            proof {
                assert(out@ =~= line@);
            }
        }
        let place: usize = if cursor > gone {
            cursor - gone
        } else {
            0
        };
        (out, place)
    } else {
        append_range(&mut out, value, 0, value.len());
        proof {
            assert(out@ =~= value@);
        }
        (out, cursor)
    }
}

/// The selection that a list of `count` entries starts from: the first
/// entry where nothing is selected yet, nothing in an empty list.
pub fn settled_selection(selected: Option<usize>, count: usize) -> (r: Option<usize>)
    ensures
        r == if count == 0 {
            None
        } else if selected is None {
            Some(0usize)
        } else {
            selected
        },
{
    if count == 0 {
        None
    } else if selected.is_none() {
        Some(0)
    } else {
        selected
    }
}

/// The selection one entry up, at most at the first entry.
pub fn selection_up(selected: Option<usize>) -> (r: Option<usize>)
    ensures
        r == match selected {
            Some(i) => Some(
                if i > 0 {
                    (i - 1) as usize
                } else {
                    0usize
                },
            ),
            None => None,
        },
{
    match selected {
        Some(i) => Some(
            if i > 0 {
                i - 1
            } else {
                0
            },
        ),
        None => None,
    }
}

/// The selection one entry down, at most at the last of `count` entries.
pub fn selection_down(selected: Option<usize>, count: usize) -> (r: Option<usize>)
    requires
        count > 0,
    ensures
        r == match selected {
            Some(i) => Some(
                if i + 1 < count {
                    (i + 1) as usize
                } else {
                    (count - 1) as usize
                },
            ),
            None => None,
        },
{
    match selected {
        Some(i) => Some(
            if i < count - 1 {
                i + 1
            } else {
                count - 1
            },
        ),
        None => None,
    }
}

} // verus!
