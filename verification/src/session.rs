//! The session: the registry, the selection and the search under a mode
//! that decides which keys do what.

use crate::entry::CacheEntry;
use crate::registry::{
    lemma_rows_follow_flags, lemma_visible_rows, visible_rows, EntryRegistry, RegistryView,
};
use crate::search::{find_next_match, next_match, scan_hits, BufferView, SearchBuffer};
use crate::selection::{
    first, fits, last, next, previous, reanchor, reanchored, select_first, select_last,
    select_next, select_previous,
};
use crate::table::views;
use crate::text::{first_index, lemma_first_index, lemma_first_index_is};
use vstd::prelude::*;

verus! {

/// What the session is doing.
#[derive(Clone, Copy, Debug, PartialEq, Eq, Structural)]
pub enum Mode {
    /// Moving through the entries and changing their values.
    Browsing,
    /// Composing a search query.
    SearchEditing,
    /// Looking at the selected entry.
    Detail,
}

/// A key that was pressed.
#[derive(Clone, Copy, Debug, PartialEq, Eq, Structural)]
pub enum Key {
    Char(char),
    Esc,
    Enter,
    Backspace,
    Left,
    Right,
    Up,
    Down,
    Home,
    End,
    Other,
}

/// A session as plain mathematical values.
pub struct AppView {
    pub should_exit: bool,
    pub registry: RegistryView,
    pub selected: Option<usize>,
    pub mode: Mode,
    pub search: BufferView,
}

impl AppView {
    /// Whether the selection fits the visible sequence and the cursor the
    /// query.
    pub open spec fn wf(self) -> bool {
        &&& self.registry.entries.len() <= usize::MAX
        &&& fits(self.selected, self.registry.rows().len())
        &&& self.search.cursor <= self.search.text.len()
    }

    /// How many rows are to be seen.
    pub open spec fn len(self) -> nat {
        self.registry.rows().len()
    }

    /// The place, among all entries, of the entry that is selected.
    pub open spec fn selected_entry(self) -> Option<usize> {
        match self.selected {
            Some(row) => if row < self.len() {
                Some(self.registry.rows()[row as int])
            } else {
                None
            },
            None => None,
        }
    }

    /// The session after a request to end it.
    pub open spec fn quit(self) -> AppView {
        AppView { should_exit: true, ..self }
    }

    /// While browsing, the selection moves one row down.
    pub open spec fn select_next(self) -> AppView {
        if self.mode == Mode::Browsing {
            AppView { selected: next(self.selected, self.len()), ..self }
        } else {
            self
        }
    }

    /// While browsing, the selection moves one row up.
    pub open spec fn select_previous(self) -> AppView {
        if self.mode == Mode::Browsing {
            AppView { selected: previous(self.selected, self.len()), ..self }
        } else {
            self
        }
    }

    /// While browsing, the selection moves to the first row.
    pub open spec fn select_first(self) -> AppView {
        if self.mode == Mode::Browsing {
            AppView { selected: first(self.len()), ..self }
        } else {
            self
        }
    }

    /// While browsing, the selection moves to the last row.
    pub open spec fn select_last(self) -> AppView {
        if self.mode == Mode::Browsing {
            AppView { selected: last(self.len()), ..self }
        } else {
            self
        }
    }

    /// While browsing, advanced entries are shown if they were hidden and
    /// hidden if they were shown, and the selection stays with its entry
    /// where that is still to be seen.
    pub open spec fn toggle_show_advanced(self) -> AppView {
        if self.mode == Mode::Browsing {
            let registry = self.registry.showing(!self.registry.show_advanced);
            AppView {
                registry,
                selected: reanchored(self.selected_entry(), self.selected, registry.rows()),
                ..self
            }
        } else {
            self
        }
    }

    /// While browsing, a new query is begun.
    pub open spec fn search_var(self) -> AppView {
        if self.mode == Mode::Browsing {
            AppView { mode: Mode::SearchEditing, search: BufferView::empty(), ..self }
        } else {
            self
        }
    }

    /// While browsing, the selected entry makes the value transition of its
    /// kind.
    pub open spec fn cycle_value(self) -> AppView {
        match self.selected {
            Some(row) => if self.mode == Mode::Browsing {
                AppView { registry: self.registry.stepped(row), ..self }
            } else {
                self
            },
            None => self,
        }
    }

    /// The view of the selected entry opens while browsing with an entry
    /// selected, and closes while it is open.
    pub open spec fn edit_value(self) -> AppView {
        if self.mode == Mode::Detail {
            AppView { mode: Mode::Browsing, ..self }
        } else if self.mode == Mode::Browsing && self.selected is Some {
            AppView { mode: Mode::Detail, ..self }
        } else {
            self
        }
    }

    /// While browsing, the selection moves to the next row whose name begins
    /// with the query, if there is one.
    pub open spec fn select_next_search_result(self) -> AppView {
        if self.mode == Mode::Browsing {
            match next_match(self.registry.names(), self.selected, self.search.text) {
                Some(row) => AppView { selected: Some(row), ..self },
                None => self,
            }
        } else {
            self
        }
    }

    /// What a key does while browsing.
    pub open spec fn handle_scroll_mode_key(self, key: Key) -> AppView {
        if key == Key::Char('q') || key == Key::Esc {
            self.quit()
        } else if key == Key::Char('j') || key == Key::Down {
            self.select_next()
        } else if key == Key::Char('k') || key == Key::Up {
            self.select_previous()
        } else if key == Key::Char('g') || key == Key::Home {
            self.select_first()
        } else if key == Key::Char('G') || key == Key::End {
            self.select_last()
        } else if key == Key::Char('t') {
            self.toggle_show_advanced()
        } else if key == Key::Enter {
            self.edit_value()
        } else if key == Key::Char(' ') {
            self.cycle_value()
        } else if key == Key::Char('/') {
            self.search_var()
        } else if key == Key::Char('n') {
            self.select_next_search_result()
        } else {
            self
        }
    }

    /// What a key does while a query is composed.
    pub open spec fn handle_search_input_mode_key(self, key: Key) -> AppView {
        match key {
            Key::Char(c) => AppView { search: self.search.inserted(c), ..self },
            Key::Esc => AppView { search: BufferView::empty(), mode: Mode::Browsing, ..self },
            Key::Backspace => AppView { search: self.search.deleted(), ..self },
            Key::Left => AppView { search: self.search.left(), ..self },
            Key::Right => AppView { search: self.search.right(), ..self },
            Key::Enter => (AppView { mode: Mode::Browsing, ..self }).select_next_search_result(),
            _ => self,
        }
    }

    /// What a key does while the selected entry is looked at.
    pub open spec fn handle_detail_mode_key(self, key: Key) -> AppView {
        if key == Key::Enter {
            self.edit_value()
        } else {
            self
        }
    }

    /// What a key does.
    pub open spec fn handle_key(self, key: Key) -> AppView {
        match self.mode {
            Mode::Browsing => self.handle_scroll_mode_key(key),
            Mode::SearchEditing => self.handle_search_input_mode_key(key),
            Mode::Detail => self.handle_detail_mode_key(key),
        }
    }
}

/// The state of a session.
pub struct App {
    should_exit: bool,
    registry: EntryRegistry,
    selected: Option<usize>,
    mode: Mode,
    search: SearchBuffer,
}

impl View for App {
    type V = AppView;

    closed spec fn view(&self) -> AppView {
        AppView {
            should_exit: self.should_exit,
            registry: self.registry@,
            selected: self.selected,
            mode: self.mode,
            search: self.search@,
        }
    }
}

impl App {
    /// Whether the parts of the session fit together.
    pub closed spec fn wf(&self) -> bool {
        &&& self.registry.wf()
        &&& self.search.wf()
        &&& self@.wf()
    }

    /// In a well-formed session the selection is a row of the visible
    /// sequence, or none while that is empty, and the cursor stands within
    /// the query.
    pub proof fn lemma_wf(&self)
        requires
            self.wf(),
        ensures
            self@.wf(),
    {
    }

    /// A session over the given entries: browsing, advanced entries hidden,
    /// the first visible row selected, no query.
    pub fn new(entries: Vec<CacheEntry>) -> (app: Self)
        ensures
            app.wf(),
            app@ == (AppView {
                should_exit: false,
                registry: RegistryView { entries: views(entries@), show_advanced: false },
                selected: first(app@.len()),
                mode: Mode::Browsing,
                search: BufferView::empty(),
            }),
    {
        assert(views(entries@).len() == entries.len());
        let registry = EntryRegistry::new(entries);
        let selected = select_first(registry.visible_len());
        App { should_exit: false, registry, selected, mode: Mode::Browsing, search: SearchBuffer::new() }
    }

    /// Whether the session is to end.
    pub fn should_exit(&self) -> (r: bool)
        ensures
            r == self@.should_exit,
    {
        self.should_exit
    }

    /// What the session is doing.
    pub fn mode(&self) -> (r: Mode)
        ensures
            r == self@.mode,
    {
        self.mode
    }

    /// The selected row of the visible sequence.
    pub fn selected(&self) -> (r: Option<usize>)
        ensures
            r == self@.selected,
    {
        self.selected
    }

    /// The entries and the rows of them that are to be seen.
    pub fn registry(&self) -> (r: &EntryRegistry)
        requires
            self.wf(),
        ensures
            r.wf(),
            r@ == self@.registry,
    {
        &self.registry
    }

    /// The query and its cursor.
    pub fn search(&self) -> (r: &SearchBuffer)
        requires
            self.wf(),
        ensures
            r.wf(),
            r@ == self@.search,
    {
        &self.search
    }

    /// The selected entry, if a row is selected.
    pub fn get_selected_var(&self) -> (r: Option<&CacheEntry>)
        requires
            self.wf(),
        ensures
            r is Some <==> self@.selected is Some,
            r matches Some(e) ==> e@ == self@.registry.visible()[self@.selected->0 as int],
    {
        match self.selected {
            Some(row) => self.registry.visible_entry(row),
            None => None,
        }
    }

    /// Moves the selection one row down.
    pub fn select_next(&mut self)
        requires
            old(self).wf(),
        ensures
            final(self).wf(),
            final(self)@ == old(self)@.select_next(),
    {
        if self.mode == Mode::Browsing {
            self.selected = select_next(self.selected, self.registry.visible_len());
        }
    }

    /// Moves the selection one row up.
    pub fn select_previous(&mut self)
        requires
            old(self).wf(),
        ensures
            final(self).wf(),
            final(self)@ == old(self)@.select_previous(),
    {
        if self.mode == Mode::Browsing {
            self.selected = select_previous(self.selected, self.registry.visible_len());
        }
    }

    /// Moves the selection to the first row.
    pub fn select_first(&mut self)
        requires
            old(self).wf(),
        ensures
            final(self).wf(),
            final(self)@ == old(self)@.select_first(),
    {
        if self.mode == Mode::Browsing {
            self.selected = select_first(self.registry.visible_len());
        }
    }

    /// Moves the selection to the last row.
    pub fn select_last(&mut self)
        requires
            old(self).wf(),
        ensures
            final(self).wf(),
            final(self)@ == old(self)@.select_last(),
    {
        if self.mode == Mode::Browsing {
            self.selected = select_last(self.registry.visible_len());
        }
    }

    /// Shows the advanced entries if they were hidden and hides them if they
    /// were shown. The rows are found anew, and the selection stays with its
    /// entry where that is still to be seen.
    pub fn toggle_show_advanced(&mut self)
        requires
            old(self).wf(),
        ensures
            final(self).wf(),
            final(self)@ == old(self)@.toggle_show_advanced(),
    {
        if self.mode == Mode::Browsing {
            let entry = match self.selected {
                Some(row) => Some(self.registry.rows()[row]),
                None => None,
            };
            let show = !self.registry.show_advanced();
            self.registry.set_show_advanced(show);
            self.selected = reanchor(entry, self.selected, self.registry.rows());
        }
    }

    /// Begins a new query.
    pub fn search_var(&mut self)
        requires
            old(self).wf(),
        ensures
            final(self).wf(),
            final(self)@ == old(self)@.search_var(),
    {
        if self.mode == Mode::Browsing {
            self.search.clear();
            self.mode = Mode::SearchEditing;
        }
    }

    /// Lets the selected entry make the value transition of its kind.
    pub fn cycle_value(&mut self)
        requires
            old(self).wf(),
        ensures
            final(self).wf(),
            final(self)@ == old(self)@.cycle_value(),
    {
        if self.mode == Mode::Browsing {
            match self.selected {
                Some(row) => {
                    self.registry.step_value(row);
                },
                None => {},
            }
        }
    }

    /// Opens the view of the selected entry, or closes it.
    pub fn edit_value(&mut self)
        requires
            old(self).wf(),
        ensures
            final(self).wf(),
            final(self)@ == old(self)@.edit_value(),
    {
        if self.mode == Mode::Detail {
            self.mode = Mode::Browsing;
        } else if self.mode == Mode::Browsing && self.selected.is_some() {
            self.mode = Mode::Detail;
        }
    }

    /// Moves the selection to the next row whose name begins with the
    /// query.
    pub fn select_next_search_result(&mut self)
        requires
            old(self).wf(),
        ensures
            final(self).wf(),
            final(self)@ == old(self)@.select_next_search_result(),
    {
        if self.mode == Mode::Browsing {
            let query = self.search.text();
            match find_next_match(&self.registry, self.selected, query.as_str()) {
                Some(row) => {
                    self.selected = Some(row);
                },
                None => {},
            }
        }
    }

    /// Handles a key that was pressed while browsing.
    pub fn handle_scroll_mode_key(&mut self, key: Key)
        requires
            old(self).wf(),
        ensures
            final(self).wf(),
            final(self)@ == old(self)@.handle_scroll_mode_key(key),
    {
        match key {
            Key::Esc => {
                self.should_exit = true;
            },
            Key::Down => self.select_next(),
            Key::Up => self.select_previous(),
            Key::Home => self.select_first(),
            Key::End => self.select_last(),
            Key::Enter => self.edit_value(),
            Key::Char(c) => {
                if c == 'q' {
                    self.should_exit = true;
                } else if c == 'j' {
                    self.select_next();
                } else if c == 'k' {
                    self.select_previous();
                } else if c == 'g' {
                    self.select_first();
                } else if c == 'G' {
                    self.select_last();
                } else if c == 't' {
                    self.toggle_show_advanced();
                } else if c == ' ' {
                    self.cycle_value();
                } else if c == '/' {
                    self.search_var();
                } else if c == 'n' {
                    self.select_next_search_result();
                }
            },
            _ => {},
        }
    }

    /// Handles a key that was pressed while a query is composed.
    pub fn handle_search_input_mode_key(&mut self, key: Key)
        requires
            old(self).wf(),
        ensures
            final(self).wf(),
            final(self)@ == old(self)@.handle_search_input_mode_key(key),
    {
        match key {
            Key::Char(c) => {
                self.search.insert(c);
            },
            Key::Esc => {
                self.search.clear();
                self.mode = Mode::Browsing;
            },
            Key::Backspace => {
                self.search.delete_before_cursor();
            },
            Key::Left => {
                self.search.move_left();
            },
            Key::Right => {
                self.search.move_right();
            },
            Key::Enter => {
                self.mode = Mode::Browsing;
                self.select_next_search_result();
            },
            _ => {},
        }
    }

    /// Handles a key that was pressed, as the mode has it.
    pub fn handle_key(&mut self, key: Key)
        requires
            old(self).wf(),
        ensures
            final(self).wf(),
            final(self)@ == old(self)@.handle_key(key),
    {
        match self.mode {
            Mode::Browsing => self.handle_scroll_mode_key(key),
            Mode::SearchEditing => self.handle_search_input_mode_key(key),
            Mode::Detail => {
                match key {
                    Key::Enter => self.edit_value(),
                    _ => {},
                }
            },
        }
    }
}

/// Hiding the advanced entries and showing them again, or showing and
/// hiding them, leaves the session as it was: the entry that was selected is
/// selected again, in its old row. This holds where that entry is not itself
/// advanced, so that it was to be seen all the while.
pub proof fn lemma_toggle_twice_restores(app: AppView)
    requires
        app.wf(),
        app.mode == Mode::Browsing,
        app.selected_entry() matches Some(at) && !app.registry.entries[at as int].advanced,
    ensures
        app.toggle_show_advanced().selected_entry() == app.selected_entry(),
        app.toggle_show_advanced().toggle_show_advanced() == app,
{
    let entries = app.registry.entries;
    let show = app.registry.show_advanced;
    let rows = app.registry.rows();
    let row = app.selected->0;
    let at = rows[row as int];
    let between = app.toggle_show_advanced();
    let hidden = between.registry.rows();
    lemma_visible_rows(entries, show);
    lemma_visible_rows(entries, !show);
    assert(hidden.contains(at));
    lemma_first_index(hidden, at);
    let k = first_index(hidden, at);
    assert(k < hidden.len()) by {
        let j = choose|j: int| 0 <= j < hidden.len() && hidden[j] == at;
        assert(hidden[j] == at);
    }
    assert(between.selected == Some(k as usize));
    assert(between.selected_entry() == Some(at));
    assert forall|j: int| 0 <= j < row implies rows[j] != at by {
        assert(rows[j] < rows[row as int]);
    }
    lemma_first_index_is(rows, at, row as int);
    let after = between.toggle_show_advanced();
    assert(after.registry == app.registry);
}

/// Whatever was selected, two toggles in a row bring back the same visible
/// sequence with a selection that fits it.
pub proof fn lemma_toggle_twice_keeps_rows(app: AppView)
    requires
        app.wf(),
    ensures
        app.toggle_show_advanced().wf(),
        app.toggle_show_advanced().toggle_show_advanced().wf(),
        app.toggle_show_advanced().toggle_show_advanced().registry == app.registry,
{
    lemma_key_keeps_wf(app, Key::Char('t'));
    let between = app.toggle_show_advanced();
    lemma_key_keeps_wf(between, Key::Char('t'));
    assert(between.toggle_show_advanced().registry == app.registry);
}

/// No key takes the session out of shape: the selection is a row of the
/// visible sequence, or none while that is empty, and the cursor stands
/// within the query.
pub proof fn lemma_key_keeps_wf(app: AppView, key: Key)
    requires
        app.wf(),
    ensures
        app.handle_key(key).wf(),
        app.select_next().wf(),
        app.select_previous().wf(),
        app.select_first().wf(),
        app.select_last().wf(),
        app.toggle_show_advanced().wf(),
        app.cycle_value().wf(),
        app.select_next_search_result().wf(),
{
    let entries = app.registry.entries;
    let show = app.registry.show_advanced;
    lemma_visible_rows(entries, show);
    lemma_visible_rows(entries, !show);
    let rows = app.registry.rows();
    let other = visible_rows(entries, !show);
    if other.len() > 0 && app.selected_entry() is Some {
        lemma_first_index(other, app.selected_entry()->0);
    }
    assert(app.toggle_show_advanced().wf());
    match app.selected {
        Some(row) => {
            if row < rows.len() {
                let at = rows[row as int] as int;
                let stepped = entries.update(at, entries[at].stepped());
                lemma_rows_follow_flags(entries, stepped, show);
            }
        },
        None => {},
    }
    assert(app.cycle_value().wf());
    match next_match(app.registry.names(), app.selected, app.search.text) {
        Some(found) => {
            let hits = scan_hits(app.registry.names(), app.selected->0 as int, app.search.text);
            lemma_first_index(hits, true);
        },
        None => {},
    }
    assert(app.select_next_search_result().wf());
    let confirmed = AppView { mode: Mode::Browsing, ..app };
    match next_match(confirmed.registry.names(), confirmed.selected, confirmed.search.text) {
        Some(found) => {
            let hits = scan_hits(
                confirmed.registry.names(),
                confirmed.selected->0 as int,
                confirmed.search.text,
            );
            lemma_first_index(hits, true);
        },
        None => {},
    }
    assert(confirmed.select_next_search_result().wf());
}

/// Each mode takes its own keys only. While a query is composed no key but
/// the confirming one touches the entries, the selection or the end of the
/// session; while the selected entry is looked at a key can only close that
/// view; and while browsing no key edits the query, though one begins a new
/// one.
pub proof fn lemma_keys_are_gated(app: AppView, key: Key)
    ensures
        app.mode == Mode::SearchEditing ==> {
            let after = app.handle_key(key);
            &&& after.registry == app.registry
            &&& after.should_exit == app.should_exit
            &&& key != Key::Enter ==> after.selected == app.selected
            &&& key != Key::Enter && key != Key::Esc ==> after.mode == Mode::SearchEditing
        },
        app.mode == Mode::Detail ==> app.handle_key(key) == if key == Key::Enter {
            AppView { mode: Mode::Browsing, ..app }
        } else {
            app
        },
        app.mode == Mode::Browsing ==> {
            let after = app.handle_key(key);
            after.search == app.search || (key == Key::Char('/') && after.search
                == BufferView::empty() && after.mode == Mode::SearchEditing)
        },
{
}

/// The entries of a session are fixed but for their values: no key adds,
/// removes or reorders entries or touches a name, a kind, a description, a
/// list of allowed values, an advanced flag or the value that was read. A
/// key changes at most the value of the entry that is selected, and that by
/// its value transition.
pub proof fn lemma_key_changes_one_value(app: AppView, key: Key)
    requires
        app.wf(),
    ensures
        app.handle_key(key).registry.entries.len() == app.registry.entries.len(),
        forall|i: int|
            0 <= i < app.registry.entries.len() ==> {
                let before = #[trigger] app.registry.entries[i];
                let after = app.handle_key(key).registry.entries[i];
                if app.selected_entry() == Some(i as usize) {
                    after == before || after == before.stepped()
                } else {
                    after == before
                }
            },
        forall|i: int|
            0 <= i < app.registry.entries.len() ==> (#[trigger] app.handle_key(
                key,
            ).registry.entries[i]).with_value(app.registry.entries[i].value)
                == app.registry.entries[i],
{
    lemma_visible_rows(app.registry.entries, app.registry.show_advanced);
    let after = app.handle_key(key).registry.entries;
    assert forall|i: int| 0 <= i < app.registry.entries.len() implies (#[trigger] after[i]).with_value(
        app.registry.entries[i].value,
    ) == app.registry.entries[i] by {
        let before = app.registry.entries[i];
        assert(before.stepped().with_value(before.value) == before);
        assert(before.with_value(before.value) == before);
    }
}

} // verus!
