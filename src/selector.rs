use vstd::prelude::*;

use crate::history::{entry_map, ids_of, EntryId, History, HistoryView};
use crate::table::{
    built_from, filtered, opt_nat, row_removed, score_key, scores_changed, table_ok, unfiltered,
    RowView, TableData, TableRow, TableView,
};
use crate::text::{blank, is_blank};

verus! {

/// What the user asked for, in terms of the selector.
#[derive(Debug, Clone, Copy, PartialEq, Eq, Structural)]
pub enum AppAction {
    Quit,
    SelectNext,
    SelectPrevious,
    SelectFirst,
    SelectLast,
    OpenSelected,
    DeleteSelectedEntry,
    /// Text for the search field.
    SearchInput,
    /// A left click on the screen line `row`.
    TableClick(u16),
}

/// A key of the keyboard, as far as the selector tells keys apart.
#[derive(Debug, Clone, Copy, PartialEq, Eq, Structural)]
pub enum Key {
    Esc,
    Down,
    Up,
    KeypadBegin,
    End,
    Enter,
    Delete,
    Char(char),
    Other,
}

/// An input event of the terminal.
#[derive(Debug, Clone, Copy, PartialEq, Eq, Structural)]
pub enum InputEvent {
    /// A key; `pressed` is false for a release or a repeat, `ctrl` tells whether
    /// the control modifier was held.
    Key { code: Key, ctrl: bool, pressed: bool },
    /// The left mouse button went down on the screen line `row`.
    LeftClick(u16),
    ScrollDown,
    ScrollUp,
    /// Any other mouse event.
    OtherMouse,
    /// Any other event (resize, focus, paste).
    Other,
}

/// The action for a pressed key: `None` when the key only edits the search text.
pub open spec fn key_action(code: Key, ctrl: bool) -> Option<AppAction> {
    if code == Key::Esc || (ctrl && (code == Key::Char('q') || code == Key::Char('c'))) {
        Some(AppAction::Quit)
    } else if code == Key::Down || (ctrl && code == Key::Char('j')) {
        Some(AppAction::SelectNext)
    } else if code == Key::Up || (ctrl && code == Key::Char('k')) {
        Some(AppAction::SelectPrevious)
    } else if code == Key::KeypadBegin || (ctrl && code == Key::Char('1')) {
        Some(AppAction::SelectFirst)
    } else if code == Key::End || (ctrl && code == Key::Char('0')) {
        Some(AppAction::SelectLast)
    } else if code == Key::Enter || (ctrl && code == Key::Char('o')) {
        Some(AppAction::OpenSelected)
    } else if code == Key::Delete || (ctrl && (code == Key::Char('r') || code == Key::Char('x'))) {
        Some(AppAction::DeleteSelectedEntry)
    } else {
        None
    }
}

/// The action for an input event: key releases do nothing, and what is neither a
/// command nor a known mouse gesture goes to the search field.
pub open spec fn input_action(input: InputEvent) -> Option<AppAction> {
    match input {
        InputEvent::Key { code, ctrl, pressed } => if !pressed {
            None
        } else {
            match key_action(code, ctrl) {
                Some(a) => Some(a),
                None => Some(AppAction::SearchInput),
            }
        },
        InputEvent::LeftClick(row) => Some(AppAction::TableClick(row)),
        InputEvent::ScrollDown => Some(AppAction::SelectNext),
        InputEvent::ScrollUp => Some(AppAction::SelectPrevious),
        _ => Some(AppAction::SearchInput),
    }
}

/// Maps an input event to the action it asks for.
pub fn handle_input(input: &InputEvent) -> (r: Option<AppAction>)
    ensures
        r == input_action(*input),
{
    match *input {
        InputEvent::Key { code, ctrl, pressed } => {
            if !pressed {
                return None;
            }
            let is_ctrl_char = |c: char| -> (b: bool)
                ensures
                    b == (ctrl && code == Key::Char(c)),
                { ctrl && code == Key::Char(c) };
            if code == Key::Esc || is_ctrl_char('q') || is_ctrl_char('c') {
                Some(AppAction::Quit)
            } else if code == Key::Down || is_ctrl_char('j') {
                Some(AppAction::SelectNext)
            } else if code == Key::Up || is_ctrl_char('k') {
                Some(AppAction::SelectPrevious)
            } else if code == Key::KeypadBegin || is_ctrl_char('1') {
                Some(AppAction::SelectFirst)
            } else if code == Key::End || is_ctrl_char('0') {
                Some(AppAction::SelectLast)
            } else if code == Key::Enter || is_ctrl_char('o') {
                Some(AppAction::OpenSelected)
            } else if code == Key::Delete || is_ctrl_char('r') || is_ctrl_char('x') {
                Some(AppAction::DeleteSelectedEntry)
            } else {
                Some(AppAction::SearchInput)
            }
        },
        InputEvent::LeftClick(row) => Some(AppAction::TableClick(row)),
        InputEvent::ScrollDown => Some(AppAction::SelectNext),
        InputEvent::ScrollUp => Some(AppAction::SelectPrevious),
        _ => Some(AppAction::SearchInput),
    }
}

/// What the selector holds: its table, the display positions of the cursor and of
/// the row clicked last, and which panels are hidden.
pub struct UIView {
    pub table: TableView,
    pub selected: Option<nat>,
    pub last_clicked: Option<nat>,
    pub hide_instructions: bool,
    pub hide_info: bool,
}

impl UIView {
    /// The cursor is on a visible row, or there is none.
    pub open spec fn cursor_ok(self) -> bool {
        self.selected matches Some(i) ==> i < self.table.visible().len()
    }

    /// The record under the cursor, if the cursor is on a visible row.
    pub open spec fn selected_id(self) -> Option<EntryId> {
        match self.selected {
            Some(i) => if i < self.table.visible().len() {
                Some(self.table.visible()[i as int].id)
            } else {
                None
            },
            None => None,
        }
    }

    /// Everything but the cursor and the clicked row stays as in `old`.
    pub open spec fn same_but_cursor(self, old: UIView) -> bool {
        &&& self.table == old.table
        &&& self.hide_instructions == old.hide_instructions
        &&& self.hide_info == old.hide_info
    }
}

/// The cursor on the first visible row, or none when no row is visible.
pub open spec fn first_cursor(t: TableView) -> Option<nat> {
    if t.visible().len() > 0 {
        Some(0)
    } else {
        None
    }
}

/// The cursor on the last visible row, or none when no row is visible.
pub open spec fn last_cursor(t: TableView) -> Option<nat> {
    if t.visible().len() > 0 {
        Some((t.visible().len() - 1) as nat)
    } else {
        None
    }
}

/// A cursor moved back onto the rows `0..len`: past the end it goes to the last row.
pub open spec fn clamped(sel: Option<nat>, len: nat) -> Option<nat> {
    match sel {
        Some(i) => if i < len {
            Some(i)
        } else if len > 0 {
            Some((len - 1) as nat)
        } else {
            None
        },
        None => None,
    }
}

/// The cursor after the visible rows changed: on the row of record `prev` when it
/// is still visible, else on the first row.
pub open spec fn reanchored(t: TableView, prev: Option<EntryId>, sel: Option<nat>) -> bool {
    if prev is Some && exists|a: int|
        0 <= a < t.visible().len() && (#[trigger] t.visible()[a]).id == prev->0 {
        &&& sel is Some
        &&& sel->0 < t.visible().len()
        &&& t.visible()[sel->0 as int].id == prev->0
        &&& forall|b: int| 0 <= b < sel->0 ==> (#[trigger] t.visible()[b]).id != prev->0
    } else {
        sel == first_cursor(t)
    }
}

/// The cursor one row down, wrapping from the last row to the first.
pub open spec fn next_cursor(old: UIView) -> Option<nat> {
    let len = old.table.visible().len();
    if len == 0 {
        None
    } else {
        let i = match old.selected {
            Some(i) => i,
            None => 0,
        };
        Some(((i + 1) as int % (len as int)) as nat)
    }
}

/// The cursor one row up, wrapping from the first row to the last; without a
/// cursor it starts from the last row.
pub open spec fn previous_cursor(old: UIView) -> Option<nat> {
    let len = old.table.visible().len();
    if len == 0 {
        None
    } else {
        let i = match old.selected {
            Some(i) => i,
            None => (len - 1) as nat,
        };
        Some(((i + len - 1) as int % (len as int)) as nat)
    }
}

/// The text of the search field, empty when there is none.
pub open spec fn query_text(pattern: Option<&str>) -> Seq<char> {
    match pattern {
        Some(p) => p@,
        None => Seq::empty(),
    }
}

/// `new` is `old` after the search text became `q`: a blank text resets the filter,
/// any other filters the table; when that changed the visible rows the cursor is
/// re-anchored, else it is only kept on the rows.
pub open spec fn search_applied(old: UIView, q: Seq<char>, new: UIView) -> bool {
    let update = blank(q) || scores_changed(old.table, new.table);
    &&& blank(q) ==> unfiltered(old.table, new.table)
    &&& !blank(q) ==> filtered(old.table, q, new.table)
    &&& update ==> reanchored(new.table, old.selected_id(), new.selected)
    &&& !update ==> new.table == old.table && new.selected == old.selected
    &&& new.last_clicked == old.last_clicked
    &&& new.hide_instructions == old.hide_instructions
    &&& new.hide_info == old.hide_info
}

/// The state of the interactive selector, apart from the search field.
pub struct UI {
    table_data: TableData,
    selected: Option<usize>,
    last_clicked_index: Option<usize>,
    hide_instructions: bool,
    hide_info: bool,
}

impl View for UI {
    type V = UIView;

    closed spec fn view(&self) -> UIView {
        UIView {
            table: self.table_data@,
            selected: opt_nat(self.selected),
            last_clicked: opt_nat(self.last_clicked_index),
            hide_instructions: self.hide_instructions,
            hide_info: self.hide_info,
        }
    }
}

impl UI {
    #[verifier::type_invariant]
    closed spec fn cursor_on_rows(self) -> bool {
        self@.cursor_ok()
    }

    /// A selector over the records of `history`, the cursor on the most recent one.
    pub fn new(history: &History, hide_instructions: bool, hide_info: bool) -> (r: UI)
        ensures
            exists|items: Seq<(EntryId, crate::record::Entry)>|
                ids_of(items).no_duplicates() && entry_map(items) == history@.entries && built_from(
                    items,
                    r@.table,
                ),
            r@.selected == first_cursor(r@.table),
            r@.last_clicked is None,
            r@.hide_instructions == hide_instructions,
            r@.hide_info == hide_info,
    {
        let items = history.to_vec();
        let table_data = TableData::from_iter(items);
        let selected = if table_data.visible_len() > 0 {
            Some(0)
        } else {
            None
        };
        UI { table_data, selected, last_clicked_index: None, hide_instructions, hide_info }
    }

    /// The table.
    pub fn table(&self) -> (r: &TableData)
        ensures
            r@ == self@.table,
    {
        &self.table_data
    }

    /// The display position of the cursor.
    pub fn selected(&self) -> (r: Option<usize>)
        ensures
            opt_nat(r) == self@.selected,
    {
        self.selected
    }

    /// Whether the instructions are hidden.
    pub fn hide_instructions(&self) -> (r: bool)
        ensures
            r == self@.hide_instructions,
    {
        self.hide_instructions
    }

    /// Whether the information about the selected record is hidden.
    pub fn hide_info(&self) -> (r: bool)
        ensures
            r == self@.hide_info,
    {
        self.hide_info
    }

    /// Moves the cursor one row down, from the last row to the first.
    pub fn select_next(&mut self)
        ensures
            final(self)@.same_but_cursor(old(self)@),
            final(self)@.last_clicked == old(self)@.last_clicked,
            final(self)@.selected == next_cursor(old(self)@),
            final(self)@.cursor_ok(),
    {
        proof {
            use_type_invariant(&*self);
        }
        let len = self.table_data.visible_len();
        if len == 0 {
            self.selected = None;
            return;
        }
        let i = match self.selected {
            Some(i) => i,
            None => 0,
        };
        self.selected = Some(if i >= len - 1 { 0 } else { i + 1 });
        proof {
            if i + 1 < len {
                assert((i + 1) as int % (len as int) == i + 1) by (nonlinear_arith)
                    requires i + 1 < len;
            }
            if i + 1 == len {
                assert((i + 1) as int % (len as int) == 0) by (nonlinear_arith)
                    requires i + 1 == len;
            }
        }
    }

    /// Moves the cursor one row up, from the first row to the last.
    pub fn select_previous(&mut self)
        ensures
            final(self)@.same_but_cursor(old(self)@),
            final(self)@.last_clicked == old(self)@.last_clicked,
            final(self)@.selected == previous_cursor(old(self)@),
            final(self)@.cursor_ok(),
    {
        proof {
            use_type_invariant(&*self);
        }
        let len = self.table_data.visible_len();
        if len == 0 {
            self.selected = None;
            return;
        }
        let i = match self.selected {
            Some(i) => i,
            None => len - 1,
        };
        self.selected = Some(if i == 0 || i > len { len - 1 } else { i - 1 });
        proof {
            if i > 0 && i < len {
                assert((i + len - 1) % (len as int) == i - 1) by (nonlinear_arith)
                    requires 0 < i < len;
            }
            if i == 0 {
                assert((i + len - 1) % (len as int) == len - 1) by (nonlinear_arith)
                    requires i == 0 < len;
            }
        }
    }

    /// Puts the cursor on the first visible row.
    pub fn select_first(&mut self)
        ensures
            final(self)@.same_but_cursor(old(self)@),
            final(self)@.last_clicked == old(self)@.last_clicked,
            final(self)@.selected == first_cursor(final(self)@.table),
            final(self)@.cursor_ok(),
    {
        self.selected = if self.table_data.visible_len() > 0 {
            Some(0)
        } else {
            None
        };
    }

    /// Puts the cursor on the last visible row.
    pub fn select_last(&mut self)
        ensures
            final(self)@.same_but_cursor(old(self)@),
            final(self)@.last_clicked == old(self)@.last_clicked,
            final(self)@.selected == last_cursor(final(self)@.table),
            final(self)@.cursor_ok(),
    {
        let len = self.table_data.visible_len();
        self.selected = if len > 0 {
            Some(len - 1)
        } else {
            None
        };
    }

    /// Moves the table out, leaving an empty one and no cursor behind.
    fn take_table(&mut self) -> (r: TableData)
        ensures
            r@ == old(self)@.table,
            final(self)@.selected is None,
            final(self)@.last_clicked == old(self)@.last_clicked,
            final(self)@.hide_instructions == old(self)@.hide_instructions,
            final(self)@.hide_info == old(self)@.hide_info,
    {
        self.selected = None;
        let none: Vec<(EntryId, crate::record::Entry)> = Vec::new();
        proof {
            assert(ids_of(none@) =~= Seq::<EntryId>::empty());
        }
        let mut table = TableData::from_iter(none);
        std::mem::swap(&mut self.table_data, &mut table);
        table
    }

    /// A cursor moved back onto the `len` visible rows.
    fn clamp(sel: Option<usize>, len: usize) -> (r: Option<usize>)
        ensures
            opt_nat(r) == clamped(opt_nat(sel), len as nat),
    {
        match sel {
            Some(i) => if i < len {
                Some(i)
            } else if len > 0 {
                Some(len - 1)
            } else {
                None
            },
            None => None,
        }
    }

    /// The cursor on the first visible row of `table`.
    fn first_of(table: &TableData) -> (r: Option<usize>)
        ensures
            opt_nat(r) == first_cursor(table@),
    {
        if table.visible_len() > 0 {
            Some(0)
        } else {
            None
        }
    }

    /// The record under the cursor.
    fn selected_id(&self) -> (r: Option<EntryId>)
        ensures
            r == self@.selected_id(),
    {
        match self.selected {
            Some(i) => if i < self.table_data.visible_len() {
                Some(self.table_data.visible_row(i).id)
            } else {
                None
            },
            None => None,
        }
    }

    /// The row under the cursor, if the cursor is on a visible row.
    pub fn get_selected_row(&self) -> (r: Option<&TableRow>)
        ensures
            r is Some <==> self@.selected_id() is Some,
            r matches Some(row) ==> row@ == self@.table.visible()[self@.selected->0 as int],
    {
        match self.selected {
            Some(i) => if i < self.table_data.visible_len() {
                Some(self.table_data.visible_row(i))
            } else {
                None
            },
            None => None,
        }
    }

    /// Filters the table by the search text `pattern` (none: empty); a blank text
    /// resets the filter. When the visible rows changed, the cursor stays on the
    /// record it was on if that is still visible, else goes to the first row.
    pub fn apply_filter(&mut self, pattern: Option<&str>)
        ensures
            search_applied(old(self)@, query_text(pattern), final(self)@),
            final(self)@.cursor_ok(),
    {
        let pattern: &str = match pattern {
            Some(p) => p,
            None => {
                proof {
                    reveal_strlit("");
                }
                let empty = "";
                assert(empty@ =~= Seq::<char>::empty());
                empty
            },
        };
        proof {
            use_type_invariant(&*self);
        }
        let prev = self.selected_id();
        let old_selected = self.selected;
        let mut table = self.take_table();
        let update = if is_blank(pattern) {
            table.reset_filter();
            true
        } else {
            table.apply_filter(pattern)
        };
        let selected = if !update {
            old_selected
        } else {
            match prev {
                Some(id) => match table.visible_position(id) {
                    Some(a) => Some(a),
                    None => Self::first_of(&table),
                },
                None => Self::first_of(&table),
            }
        };
        self.table_data = table;
        self.selected = selected;
    }

    /// Resets the filter: every row visible, in order of recency.
    pub fn reset_filter(&mut self)
        ensures
            unfiltered(old(self)@.table, final(self)@.table),
            final(self)@.selected == clamped(old(self)@.selected, final(self)@.table.visible().len()),
            final(self)@.last_clicked == old(self)@.last_clicked,
            final(self)@.hide_instructions == old(self)@.hide_instructions,
            final(self)@.hide_info == old(self)@.hide_info,
            final(self)@.cursor_ok(),
    {
        let old_selected = self.selected;
        let mut table = self.take_table();
        table.reset_filter();
        let selected = Self::clamp(old_selected, table.visible_len());
        self.table_data = table;
        self.selected = selected;
    }

    /// Removes the row of record `id` from the table and keeps the cursor on the
    /// rows. Tells whether a row was removed.
    pub fn delete(&mut self, entry_id: EntryId) -> (r: bool)
        ensures
            row_removed(old(self)@.table, entry_id, final(self)@.table, r),
            final(self)@.selected == clamped(old(self)@.selected, final(self)@.table.visible().len()),
            final(self)@.last_clicked == old(self)@.last_clicked,
            final(self)@.hide_instructions == old(self)@.hide_instructions,
            final(self)@.hide_info == old(self)@.hide_info,
            final(self)@.cursor_ok(),
    {
        let old_selected = self.selected;
        let mut table = self.take_table();
        let removed = table.remove_row(entry_id);
        let selected = Self::clamp(old_selected, table.visible_len());
        self.table_data = table;
        self.selected = selected;
        removed
    }

    /// Rebuilds the table from `history` and puts the cursor on the first row.
    pub fn resync_table(&mut self, history: &History)
        ensures
            exists|items: Seq<(EntryId, crate::record::Entry)>|
                ids_of(items).no_duplicates() && entry_map(items) == history@.entries && built_from(
                    items,
                    final(self)@.table,
                ),
            final(self)@.selected == first_cursor(final(self)@.table),
            final(self)@.last_clicked == old(self)@.last_clicked,
            final(self)@.hide_instructions == old(self)@.hide_instructions,
            final(self)@.hide_info == old(self)@.hide_info,
    {
        self.selected = None;
        self.table_data = TableData::from_iter(history.to_vec());
        self.select_first();
    }

    /// Deletes the record under the cursor from `history` and its row from the
    /// table; when the table has no row for it, the table is rebuilt from
    /// `history`. Forgets the last click.
    pub fn delete_selected(&mut self, history: &mut History)
        ensures
            deleted_selected(old(self)@, old(history)@, final(self)@, final(history)@),
    {
        if let Some(id) = self.selected_id() {
            if history.delete(id).is_some() && !self.delete(id) {
                self.resync_table(history);
            }
        }
        proof {
            use_type_invariant(&*self);
        }
        self.last_clicked_index = None;
    }

    /// A left click on the screen line `row` of a frame whose first line is
    /// `frame_top` and which is `frame_height` lines high: a row of the table is
    /// selected by the first click and opened by a second click on it.
    pub fn click(&mut self, row: u16, frame_top: u16, frame_height: u16) -> (r: Option<EntryId>)
        ensures
            clicked(old(self)@, row as int, frame_top as int, frame_height as int, final(self)@, r),
    {
        let row = row as u32;
        let top = frame_top as u32;
        let height = frame_height as u32;
        if row >= top + 2 && row + 1 < top + height {
            let index = (row - top - 2) as usize;
            if index < self.table_data.visible_len() {
                if self.last_clicked_index == Some(index) && self.selected == Some(index) {
                    return self.selected_id();
                } else {
                    self.selected = Some(index);
                    self.last_clicked_index = Some(index);
                }
            }
        }
        None
    }

    /// Takes the new text of the search field into account and forgets the last click.
    pub fn search_changed(&mut self, line: Option<&str>)
        ensures
            search_applied(
                old(self)@,
                query_text(line),
                UIView { last_clicked: old(self)@.last_clicked, ..final(self)@ },
            ),
            final(self)@.last_clicked is None,
            final(self)@.cursor_ok(),
    {
        self.apply_filter(line);
        self.last_clicked_index = None;
    }

    /// Carries out `action` (text input goes through `search_changed`); a click is
    /// placed in a frame whose first line is `frame_top` and which is
    /// `frame_height` lines high. The cursor never leaves the visible rows, and only
    /// a deletion changes the history.
    pub fn update(&mut self, history: &mut History, action: AppAction, frame_top: u16, frame_height: u16) -> (r: Flow)
        ensures
            stepped(
                old(self)@,
                old(history)@,
                action,
                frame_top as int,
                frame_height as int,
                final(self)@,
                final(history)@,
                r,
            ),
            final(self)@.cursor_ok(),
    {
        proof {
            use_type_invariant(&*self);
        }
        match action {
            AppAction::Quit => Flow::Exit(None),
            AppAction::SelectNext => {
                self.select_next();
                self.last_clicked_index = None;
                Flow::Continue
            },
            AppAction::SelectPrevious => {
                self.select_previous();
                self.last_clicked_index = None;
                Flow::Continue
            },
            AppAction::SelectFirst => {
                self.select_first();
                self.last_clicked_index = None;
                Flow::Continue
            },
            AppAction::SelectLast => {
                self.select_last();
                self.last_clicked_index = None;
                Flow::Continue
            },
            AppAction::OpenSelected => match self.selected_id() {
                Some(id) => Flow::Exit(Some(id)),
                None => Flow::Continue,
            },
            AppAction::DeleteSelectedEntry => {
                self.delete_selected(history);
                Flow::Continue
            },
            AppAction::SearchInput => Flow::Continue,
            AppAction::TableClick(row) => match self.click(row, frame_top, frame_height) {
                Some(id) => Flow::Exit(Some(id)),
                None => Flow::Continue,
            },
        }
    }
}

/// Whether the selector goes on, or ends with the chosen record (or none).
#[derive(Debug, Clone, Copy, PartialEq, Eq, Structural)]
pub enum Flow {
    Continue,
    Exit(Option<EntryId>),
}

/// `new` is the table rebuilt from the history `h`, with the cursor on its first row.
pub open spec fn rebuilt(h: HistoryView, new: UIView) -> bool {
    &&& exists|items: Seq<(EntryId, crate::record::Entry)>|
        ids_of(items).no_duplicates() && entry_map(items) == h.entries && built_from(items, new.table)
    &&& new.selected == first_cursor(new.table)
}

/// The state after deleting the record under the cursor: the history loses it, and
/// the table loses its row (or is rebuilt when it has none); the cursor is kept on
/// the rows and the last click is forgotten.
pub open spec fn deleted_selected(old: UIView, oh: HistoryView, new: UIView, nh: HistoryView) -> bool {
    &&& new.last_clicked is None
    &&& new.hide_instructions == old.hide_instructions
    &&& new.hide_info == old.hide_info
    &&& match old.selected_id() {
        None => new.table == old.table && new.selected == old.selected && nh == oh,
        Some(id) => {
            &&& nh.entries == oh.entries.remove(id)
            &&& nh.next_id == oh.next_id
            &&& !oh.entries.contains_key(id) ==> new.table == old.table && new.selected == old.selected
            &&& oh.entries.contains_key(id) ==> if exists|p: int|
                0 <= p < old.table.rows.len() && (#[trigger] old.table.rows[p]).id == id {
                &&& row_removed(old.table, id, new.table, true)
                &&& new.selected == clamped(old.selected, new.table.visible().len())
            } else {
                rebuilt(nh, new)
            }
        },
    }
}

/// The state after a left click on the screen line `row` of a frame from line `top`
/// of `height` lines: the table starts two lines below the frame's top and ends
/// one line above its bottom.
pub open spec fn clicked(
    old: UIView,
    row: int,
    top: int,
    height: int,
    new: UIView,
    r: Option<EntryId>,
) -> bool {
    let index = row - top - 2;
    if row >= top + 2 && row + 1 < top + height && index < old.table.visible().len() {
        if old.last_clicked == Some(index as nat) && old.selected == Some(index as nat) {
            r == Some(old.table.visible()[index].id) && new == old
        } else {
            &&& r is None
            &&& new.selected == Some(index as nat)
            &&& new.last_clicked == Some(index as nat)
            &&& new.same_but_cursor(old)
        }
    } else {
        r is None && new == old
    }
}

/// A navigation moved the cursor to `sel` and forgot the last click.
pub open spec fn navigated(old: UIView, new: UIView, sel: Option<nat>) -> bool {
    &&& new.same_but_cursor(old)
    &&& new.last_clicked is None
    &&& new.selected == sel
}

/// The state and flow after carrying out `action`.
pub open spec fn stepped(
    old: UIView,
    oh: HistoryView,
    action: AppAction,
    top: int,
    height: int,
    new: UIView,
    nh: HistoryView,
    r: Flow,
) -> bool {
    &&& action != AppAction::DeleteSelectedEntry ==> nh == oh
    &&& match action {
        AppAction::Quit => r == Flow::Exit(None) && new == old,
        AppAction::SelectNext => r == Flow::Continue && new.same_but_cursor(old) && new.last_clicked is None
            && new.cursor_ok() && new.selected == next_cursor(old),
        AppAction::SelectPrevious => r == Flow::Continue && new.same_but_cursor(old)
            && new.last_clicked is None && new.cursor_ok() && new.selected == previous_cursor(old),
        AppAction::SelectFirst => r == Flow::Continue && navigated(old, new, first_cursor(old.table)),
        AppAction::SelectLast => r == Flow::Continue && navigated(old, new, last_cursor(old.table)),
        AppAction::OpenSelected => new == old && match old.selected_id() {
            Some(id) => r == Flow::Exit(Some(id)),
            None => r == Flow::Continue,
        },
        AppAction::DeleteSelectedEntry => r == Flow::Continue && deleted_selected(old, oh, new, nh),
        AppAction::SearchInput => r == Flow::Continue && new == old,
        AppAction::TableClick(row) => exists|o: Option<EntryId>|
            clicked(old, row as int, top, height, new, o) && r == match o {
                Some(id) => Flow::Exit(Some(id)),
                None => Flow::Continue,
            },
    }
}

/// Deleting the row under the cursor from a table that shows every row leaves one
/// row fewer and keeps the cursor where it was, or on the new last row when the
/// deleted row was the last one: it never points past the new last row.
pub proof fn lemma_delete_clamps_cursor(old: UIView, id: EntryId, new: UIView, r: bool)
    requires
        table_ok(old.table),
        forall|i: int| 0 <= i < old.table.rows.len() ==> (#[trigger] old.table.rows[i]).score is Some,
        old.selected_id() == Some(id),
        row_removed(old.table, id, new.table, r),
        new.selected == clamped(old.selected, new.table.visible().len()),
    ensures
        r,
        new.table.visible().len() == old.table.visible().len() - 1,
        old.selected->0 + 1 < old.table.visible().len() ==> new.selected == old.selected,
        old.selected->0 + 1 == old.table.visible().len() && old.table.visible().len() >= 2
            ==> new.selected == Some((old.table.visible().len() - 2) as nat),
        old.table.visible().len() == 1 ==> new.selected is None,
{
    let t = old.table;
    let i = old.selected->0 as int;
    let p = lemma_full_table(t, i);
    lemma_removal_from_full(t, id, new.table, r, p);
}

/// In a table that shows every row, the visible rows are all the rows, and the
/// row at display position `i` is a row of the table.
proof fn lemma_full_table(t: TableView, i: int) -> (p: int)
    requires
        table_ok(t),
        forall|k: int| 0 <= k < t.rows.len() ==> (#[trigger] t.rows[k]).score is Some,
        0 <= i < t.visible().len(),
    ensures
        t.visible().len() == t.rows.len(),
        0 <= p < t.rows.len(),
        t.visible()[i] == t.rows[p],
{
    let keys = t.rows.map_values(|x: RowView| score_key(x.score));
    assert(t.order[i] < keys.len());
    t.order[i] as int
}

/// Removing a row of a table that shows every row leaves a table one row shorter
/// that still shows every row.
proof fn lemma_removal_from_full(t: TableView, id: EntryId, n: TableView, r: bool, p: int)
    requires
        forall|k: int| 0 <= k < t.rows.len() ==> (#[trigger] t.rows[k]).score is Some,
        0 <= p < t.rows.len(),
        t.rows[p].id == id,
        row_removed(t, id, n, r),
    ensures
        r,
        n.rows.len() == t.rows.len() - 1,
        n.visible().len() == n.rows.len(),
{
    assert(r);
    let q = choose|q: int|
        0 <= q < t.rows.len() && (#[trigger] t.rows[q]).id == id && (forall|x: int|
            0 <= x < q ==> (#[trigger] t.rows[x]).id != id) && n.rows == t.rows.remove(q);
    assert forall|k: int| 0 <= k < n.rows.len() implies (#[trigger] n.rows[k]).score is Some by {
        if k < q {
            assert(n.rows[k] == t.rows[k]);
        } else {
            assert(n.rows[k] == t.rows[k + 1]);
        }
    }
}

} // verus!
