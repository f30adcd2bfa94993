//! What the picker does with each key.
//!
//! Everything printable goes to the filter (fzf-style), so the destructive actions sit
//! on control chords: Ctrl-A adds, Ctrl-D deletes.

use crate::cli;
use crate::model;
use crate::model::{Connection, ConnectionView, Store};
use crate::ssh;
use crate::ssh::FindSshError;
use crate::text;
use crate::time::Timestamp;
use vstd::prelude::*;

verus! {

broadcast use model::lemma_ref_views_push;

// ---------------------------------------------------------------- state

/// A pending destructive action, drawn as a modal over the list.
#[derive(Debug, PartialEq, Eq)]
pub enum Mode {
    Normal,
    ConfirmDelete { id: String, label: String },
}

/// The mathematical form of a [`Mode`].
pub enum ModeView {
    Normal,
    ConfirmDelete { id: Seq<char>, label: Seq<char> },
}

impl View for Mode {
    type V = ModeView;

    open spec fn view(&self) -> ModeView {
        match self {
            Mode::Normal => ModeView::Normal,
            Mode::ConfirmDelete { id, label } => ModeView::ConfirmDelete {
                id: id@,
                label: label@,
            },
        }
    }
}

/// What the picker remembers between two keys.
#[derive(Debug, PartialEq, Eq)]
pub struct Picker {
    pub query: String,
    /// Which line of the list is highlighted.
    pub selected: usize,
    pub mode: Mode,
    /// A message in place of the key help.
    pub status: Option<String>,
}

/// The mathematical form of a [`Picker`].
#[verifier::ext_equal]
pub struct PickerView {
    pub query: Seq<char>,
    pub selected: nat,
    pub mode: ModeView,
    pub status: Option<Seq<char>>,
}

impl View for Picker {
    type V = PickerView;

    open spec fn view(&self) -> PickerView {
        PickerView {
            query: self.query@,
            selected: self.selected as nat,
            mode: self.mode@,
            status: text::opt_text(self.status),
        }
    }
}

/// A key, as far as the picker tells keys apart.
#[derive(Clone, Copy, Debug, PartialEq, Eq, Structural)]
pub enum Key {
    Esc,
    Enter,
    Up,
    Down,
    Backspace,
    Char(char),
    Other,
}

/// What a key asks to be done.
#[derive(Debug, PartialEq, Eq)]
pub enum Action {
    /// Nothing beyond drawing the list anew.
    Stay,
    Quit,
    Connect(Connection),
    Add,
    Edit { id: String },
    Delete { id: String },
}

/// The mathematical form of an [`Action`].
pub enum ActionView {
    Stay,
    Quit,
    Connect(ConnectionView),
    Add,
    Edit { id: Seq<char> },
    Delete { id: Seq<char> },
}

impl View for Action {
    type V = ActionView;

    open spec fn view(&self) -> ActionView {
        match self {
            Action::Stay => ActionView::Stay,
            Action::Quit => ActionView::Quit,
            Action::Connect(c) => ActionView::Connect(c@),
            Action::Add => ActionView::Add,
            Action::Edit { id } => ActionView::Edit { id: id@ },
            Action::Delete { id } => ActionView::Delete { id: id@ },
        }
    }
}

impl PickerView {
    pub open spec fn started() -> PickerView {
        PickerView { query: seq![], selected: 0, mode: ModeView::Normal, status: None }
    }

    /// The highlight moved up onto the last line where it would be below the list.
    pub open spec fn settled(self, count: nat) -> PickerView {
        if self.selected < count {
            self
        } else if count == 0 {
            PickerView { selected: 0, ..self }
        } else {
            PickerView { selected: (count - 1) as nat, ..self }
        }
    }

    pub open spec fn saying(self, status: Seq<char>) -> PickerView {
        PickerView { status: Some(status), ..self }
    }

    /// With another filter, which starts at the top of its list.
    pub open spec fn filtering(self, query: Seq<char>) -> PickerView {
        PickerView { query, selected: 0, ..self }
    }

    pub open spec fn moved_to(self, selected: nat) -> PickerView {
        PickerView { selected, ..self }
    }
}

// ---------------------------------------------------------------- keys

/// What a key does while a deletion awaits its confirmation.
pub open spec fn confirming(p: PickerView, id: Seq<char>, key: Key) -> (PickerView, ActionView) {
    match key {
        Key::Char(c) => if c == 'y' || c == 'Y' {
            (PickerView { mode: ModeView::Normal, ..p }, ActionView::Delete { id })
        } else if c == 'n' || c == 'N' {
            (PickerView { mode: ModeView::Normal, status: None, ..p }, ActionView::Stay)
        } else {
            (p, ActionView::Stay)
        },
        Key::Esc => (PickerView { mode: ModeView::Normal, status: None, ..p }, ActionView::Stay),
        _ => (p, ActionView::Stay),
    }
}

/// The highlight one line down, from the last line to the first.
pub open spec fn below(p: PickerView, count: nat) -> PickerView {
    if count == 0 {
        p
    } else if p.selected + 1 < count {
        p.moved_to(p.selected + 1)
    } else {
        p.moved_to(0)
    }
}

/// The highlight one line up, from the first line to the last.
pub open spec fn above(p: PickerView, count: nat) -> PickerView {
    if count == 0 {
        p
    } else if p.selected > 0 {
        p.moved_to((p.selected - 1) as nat)
    } else {
        p.moved_to((count - 1) as nat)
    }
}

/// What a control chord does.
pub open spec fn chord(p: PickerView, entries: Seq<ConnectionView>, c: char) -> (
    PickerView,
    ActionView,
) {
    let at = p.selected as int;
    if c == 'c' || c == 'q' {
        (p, ActionView::Quit)
    } else if c == 'n' {
        (below(p, entries.len()), ActionView::Stay)
    } else if c == 'p' {
        (above(p, entries.len()), ActionView::Stay)
    } else if c == 'a' {
        (p, ActionView::Add)
    } else if c == 'e' {
        if at < entries.len() {
            (p, ActionView::Edit { id: entries[at].id })
        } else {
            (p.saying("Nothing to edit."@), ActionView::Stay)
        }
    } else if c == 'd' {
        if at < entries.len() {
            let target = entries[at];
            let label = target.name + " ("@ + target.destination() + ")"@;
            (
                PickerView { mode: ModeView::ConfirmDelete { id: target.id, label }, ..p },
                ActionView::Stay,
            )
        } else {
            (p, ActionView::Stay)
        }
    } else {
        (p, ActionView::Stay)
    }
}

/// What a key does while nothing awaits a confirmation.
pub open spec fn browsing(p: PickerView, entries: Seq<ConnectionView>, key: Key, ctrl: bool) -> (
    PickerView,
    ActionView,
) {
    match key {
        // Esc clears a filter first; only an empty filter closes the picker.
        Key::Esc => if p.query.len() == 0 {
            (p, ActionView::Quit)
        } else {
            (p.filtering(seq![]), ActionView::Stay)
        },
        Key::Down => (below(p, entries.len()), ActionView::Stay),
        Key::Up => (above(p, entries.len()), ActionView::Stay),
        Key::Enter => if p.selected < entries.len() {
            (p, ActionView::Connect(entries[p.selected as int]))
        } else {
            (p.saying("Nothing to connect to."@), ActionView::Stay)
        },
        Key::Backspace => if p.query.len() == 0 {
            (p.moved_to(0), ActionView::Stay)
        } else {
            (p.filtering(p.query.drop_last()), ActionView::Stay)
        },
        Key::Char(c) => if ctrl {
            chord(p, entries, c)
        } else {
            (p.filtering(p.query.push(c)), ActionView::Stay)
        },
        Key::Other => (p, ActionView::Stay),
    }
}

/// What a key does to the picker that lists `entries`.
pub open spec fn pressed(p: PickerView, entries: Seq<ConnectionView>, key: Key, ctrl: bool) -> (
    PickerView,
    ActionView,
) {
    let p = p.settled(entries.len());
    match p.mode {
        ModeView::ConfirmDelete { id, .. } => confirming(p, id, key),
        ModeView::Normal => browsing(PickerView { status: None, ..p }, entries, key, ctrl),
    }
}

/// `name (destination)`, which tells the user what is about to go.
fn delete_label(conn: &Connection) -> (r: String)
    ensures
        r@ == conn@.name + " ("@ + conn@.destination() + ")"@,
{
    let mut s = text::concat2(conn.name.as_str(), " (");
    s.append(conn.destination().as_str());
    s.append(")");
    s
}

impl Picker {
    /// An empty filter, with the first line highlighted.
    pub fn new() -> (r: Picker)
        ensures
            r@ == PickerView::started(),
    {
        let r = Picker {
            query: String::new(),
            selected: 0,
            mode: Mode::Normal,
            status: None,
        };
        assert(r@ =~= PickerView::started());
        r
    }

    /// Move the highlight onto the last line where it would be below the list.
    pub fn settle(&mut self, count: usize)
        ensures
            final(self)@ == old(self)@.settled(count as nat),
    {
        if self.selected >= count {
            self.selected = if count == 0 {
                0
            } else {
                count - 1
            };
        }
    }

    fn confirm(&mut self, key: Key) -> (r: Action)
        requires
            old(self).mode is ConfirmDelete,
        ensures
            (final(self)@, r@) == confirming(old(self)@, old(self)@.mode->id, key),
    {
        let mut yes = false;
        let mut no = false;
        match key {
            Key::Char(c) => {
                yes = c == 'y' || c == 'Y';
                no = c == 'n' || c == 'N';
            },
            Key::Esc => {
                no = true;
            },
            _ => {},
        }
        if yes {
            let id = match &self.mode {
                Mode::ConfirmDelete { id, .. } => id.clone(),
                Mode::Normal => String::new(),
            };
            self.mode = Mode::Normal;
            return Action::Delete { id };
        }
        if no {
            self.mode = Mode::Normal;
            self.status = None;
        }
        Action::Stay
    }

    fn go_down(&mut self, count: usize)
        requires
            old(self).selected < count || count == 0,
        ensures
            final(self)@ == below(old(self)@, count as nat),
    {
        if count != 0 {
            self.selected = if self.selected + 1 < count {
                self.selected + 1
            } else {
                0
            };
        }
    }

    fn go_up(&mut self, count: usize)
        ensures
            final(self)@ == above(old(self)@, count as nat),
    {
        if count != 0 {
            self.selected = if self.selected > 0 {
                self.selected - 1
            } else {
                count - 1
            };
        }
    }

    fn press_chord(&mut self, entries: &Vec<&Connection>, c: char) -> (r: Action)
        requires
            old(self).selected < entries@.len() || entries@.len() == 0,
        ensures
            (final(self)@, r@) == chord(old(self)@, model::ref_views(entries@), c),
    {
        if c == 'c' || c == 'q' {
            return Action::Quit;
        }
        if c == 'n' {
            self.go_down(entries.len());
            return Action::Stay;
        }
        if c == 'p' {
            self.go_up(entries.len());
            return Action::Stay;
        }
        if c == 'a' {
            return Action::Add;
        }
        if c == 'e' {
            if self.selected < entries.len() {
                return Action::Edit { id: entries[self.selected].id.clone() };
            }
            self.status = Some("Nothing to edit.".to_string());
            return Action::Stay;
        }
        if c == 'd' {
            if self.selected < entries.len() {
                let target = entries[self.selected];
                self.mode = Mode::ConfirmDelete {
                    id: target.id.clone(),
                    label: delete_label(target),
                };
            }
        }
        Action::Stay
    }

    fn browse(&mut self, entries: &Vec<&Connection>, key: Key, ctrl: bool) -> (r: Action)
        requires
            old(self).selected < entries@.len() || entries@.len() == 0,
        ensures
            (final(self)@, r@) == browsing(old(self)@, model::ref_views(entries@), key, ctrl),
    {
        match key {
            Key::Esc => {
                if self.query.as_str().is_empty() {
                    return Action::Quit;
                }
                self.query = String::new();
                self.selected = 0;
                assert(self.query@ =~= seq![]);
                Action::Stay
            },
            Key::Down => {
                self.go_down(entries.len());
                Action::Stay
            },
            Key::Up => {
                self.go_up(entries.len());
                Action::Stay
            },
            Key::Enter => {
                if self.selected < entries.len() {
                    return Action::Connect(entries[self.selected].clone());
                }
                self.status = Some("Nothing to connect to.".to_string());
                Action::Stay
            },
            Key::Backspace => {
                let v = text::to_chars(self.query.as_str());
                if v.len() > 0 {
                    self.query = text::from_range(&v, 0, v.len() - 1);
                }
                self.selected = 0;
                Action::Stay
            },
            Key::Char(c) => {
                if ctrl {
                    return self.press_chord(entries, c);
                }
                self.query.push(c);
                self.selected = 0;
                Action::Stay
            },
            Key::Other => Action::Stay,
        }
    }

    /// Take a key while `entries` are listed; returns what it asks to be done.
    pub fn press(&mut self, entries: &Vec<&Connection>, key: Key, ctrl: bool) -> (r: Action)
        ensures
            (final(self)@, r@) == pressed(old(self)@, model::ref_views(entries@), key, ctrl),
    {
        self.settle(entries.len());
        match &self.mode {
            Mode::ConfirmDelete { .. } => self.confirm(key),
            Mode::Normal => {
                self.status = None;
                self.browse(entries, key, ctrl)
            },
        }
    }
}

// ---------------------------------------------------------------- what comes of an action

/// How adding or editing an entry ended.
#[derive(Debug, PartialEq, Eq)]
pub enum FormOutcome {
    /// Saved, under this id or name.
    Done(String),
    Cancelled,
    Failed(String),
}

/// The picker once a new entry was asked for.
pub open spec fn after_add(p: PickerView, outcome: FormOutcome) -> PickerView {
    match outcome {
        FormOutcome::Done(id) => p.filtering(seq![]).saying("Saved `"@ + id@ + "`."@),
        FormOutcome::Cancelled => p.saying("Add cancelled."@),
        FormOutcome::Failed(e) => p.saying(e@),
    }
}

/// The picker once an edit was asked for. The filter is deliberately left alone: the user
/// narrowed the list to reach this entry, and editing it is no reason to lose that.
pub open spec fn after_edit(p: PickerView, outcome: FormOutcome) -> PickerView {
    match outcome {
        FormOutcome::Done(name) => p.saying("Updated `"@ + name@ + "`."@),
        FormOutcome::Cancelled => p.saying("Edit cancelled."@),
        FormOutcome::Failed(e) => p.saying(e@),
    }
}

/// An entry that was taken out of the store, and the place where it stood.
#[derive(Debug)]
pub struct Removed {
    pub place: usize,
    pub entry: Connection,
}

/// The mathematical form of an entry that was taken out, if one was.
pub open spec fn removed_view(removed: Option<Removed>) -> Option<(int, ConnectionView)> {
    match removed {
        Some(r) => Some((r.place as int, r.entry@)),
        None => None,
    }
}

/// Take the entry with that id out of the store.
pub fn take_out(store: &mut Store, id: &str) -> (r: Option<Removed>)
    ensures
        final(store)@ == model::taken_out(old(store)@, id@),
        match model::position(old(store)@, id@) {
            Some(i) => {
                &&& removed_view(r) == Some((i, old(store)@[i]))
                &&& final(store)@ == old(store)@.remove(i)
            },
            None => r is None && final(store)@ == old(store)@,
        },
{
    match store.index_of(id) {
        Some(place) => {
            let entry = store.connections.remove(place);
            assert(store@ =~= old(store)@.remove(place as int));
            Some(Removed { place, entry })
        },
        None => None,
    }
}

/// The store once an attempt was made to delete an entry: without it, or, where that could
/// not be saved, with it back in its place rather than diverging from what is on disk.
pub open spec fn after_delete(
    rest: Seq<ConnectionView>,
    removed: Option<(int, ConnectionView)>,
    saved: bool,
) -> Seq<ConnectionView> {
    match removed {
        Some((place, c)) => if saved {
            rest
        } else {
            rest.insert(place, c)
        },
        None => rest,
    }
}

/// The picker once an attempt was made to delete an entry.
pub open spec fn delete_reported(
    p: PickerView,
    removed: Option<(int, ConnectionView)>,
    failure: Option<Seq<char>>,
) -> PickerView {
    match failure {
        Some(e) => p.saying("Could not save: "@ + e),
        None => match removed {
            Some((_, c)) => p.saying("Deleted `"@ + c.id + "`."@),
            None => PickerView { status: None, ..p },
        },
    }
}

/// The picker and the store once a session is about to start, and whether it can.
pub open spec fn after_connect(
    p: PickerView,
    all: Seq<ConnectionView>,
    c: ConnectionView,
    ssh_missing: Option<FindSshError>,
    now: (int, int),
) -> (PickerView, Seq<ConnectionView>, bool) {
    match cli::obstacle(ssh_missing, c) {
        Some(e) => (p.saying(e.text()), all, false),
        None => (p, model::used(all, c.id, now), true),
    }
}

impl Picker {
    /// Report how adding an entry ended.
    pub fn added(&mut self, outcome: FormOutcome)
        ensures
            final(self)@ == after_add(old(self)@, outcome),
    {
        match outcome {
            FormOutcome::Done(id) => {
                self.query = String::new();
                self.selected = 0;
                self.status = Some(text::concat3("Saved `", id.as_str(), "`."));
                assert(self.query@ =~= seq![]);
            },
            FormOutcome::Cancelled => {
                self.status = Some("Add cancelled.".to_string());
            },
            FormOutcome::Failed(e) => {
                self.status = Some(e);
            },
        }
    }

    /// Report how editing an entry ended.
    pub fn edited(&mut self, outcome: FormOutcome)
        ensures
            final(self)@ == after_edit(old(self)@, outcome),
    {
        self.status = Some(
            match outcome {
                FormOutcome::Done(name) => text::concat3("Updated `", name.as_str(), "`."),
                FormOutcome::Cancelled => "Edit cancelled.".to_string(),
                FormOutcome::Failed(e) => e,
            },
        );
    }

    /// Report how deleting an entry ended, and put it back where it stood if that could not
    /// be saved. `removed` is what was taken out of the store, and `failure` says why saving
    /// failed, if it did.
    pub fn deleted(
        &mut self,
        store: &mut Store,
        removed: Option<Removed>,
        failure: &Option<String>,
    )
        requires
            removed is Some ==> removed->0.place <= old(store)@.len(),
        ensures
            final(store)@ == after_delete(old(store)@, removed_view(removed), *failure is None),
            final(self)@ == delete_reported(
                old(self)@,
                removed_view(removed),
                text::opt_text(*failure),
            ),
    {
        match failure {
            Some(e) => {
                if let Some(r) = removed {
                    store.connections.insert(r.place, r.entry);
                    assert(store@ =~= old(store)@.insert(r.place as int, r.entry@));
                }
                self.status = Some(text::concat2("Could not save: ", e.as_str()));
            },
            None => {
                self.status = match &removed {
                    Some(r) => Some(text::concat3("Deleted `", r.entry.id.as_str(), "`.")),
                    None => None,
                };
            },
        }
    }

    /// Get ready to connect: validate before the list is torn down, so that an error stays
    /// readable, and note down the time. Returns whether the session can start.
    pub fn connecting(
        &mut self,
        store: &mut Store,
        conn: &Connection,
        ssh_missing: Option<FindSshError>,
        now: Timestamp,
    ) -> (r: bool)
        ensures
            (final(self)@, final(store)@, r) == after_connect(
                old(self)@,
                old(store)@,
                conn@,
                ssh_missing,
                now@,
            ),
            match cli::obstacle(ssh_missing, conn@) {
                Some(e) => {
                    &&& !r
                    &&& final(self)@ == old(self)@.saying(e.text())
                    &&& final(store)@ == old(store)@
                },
                None => {
                    &&& r
                    &&& final(self)@ == old(self)@
                    &&& final(store)@ == model::used(old(store)@, conn@.id, now@)
                },
            },
    {
        match cli::check_connect(ssh_missing, conn) {
            Err(e) => {
                self.status = Some(e.message());
                false
            },
            Ok(()) => {
                store.record_use(conn.id.as_str(), now);
                true
            },
        }
    }
}

// ---------------------------------------------------------------- laws

/// Every entry is deleted only after it was asked for and confirmed: no key deletes unless
/// a confirmation was pending, and what is deleted is what the confirmation was about.
pub proof fn law_deletion_is_confirmed(
    p: PickerView,
    entries: Seq<ConnectionView>,
    key: Key,
    ctrl: bool,
)
    ensures
        pressed(p, entries, key, ctrl).1 matches ActionView::Delete { id } ==> {
            &&& p.mode matches ModeView::ConfirmDelete { id: pending, .. } && pending == id
            &&& key == Key::Char('y') || key == Key::Char('Y')
        },
{
}

/// A confirmation is only ever asked for the entry that is highlighted.
pub proof fn law_confirmation_is_for_the_highlighted(
    p: PickerView,
    entries: Seq<ConnectionView>,
    key: Key,
    ctrl: bool,
)
    requires
        p.mode is Normal,
    ensures
        pressed(p, entries, key, ctrl).0.mode matches ModeView::ConfirmDelete { id, .. } ==> {
            let at = p.settled(entries.len()).selected;
            at < entries.len() && id == entries[at as int].id && key == Key::Char('d') && ctrl
        },
{
}

/// Every printable key without control goes to the filter.
pub proof fn law_printable_keys_filter(p: PickerView, entries: Seq<ConnectionView>, c: char)
    requires
        p.mode is Normal,
    ensures
        pressed(p, entries, Key::Char(c), false).0.query == p.query.push(c),
        pressed(p, entries, Key::Char(c), false).1 is Stay,
{
}

/// Esc closes the picker from anywhere within three strokes: it leaves a confirmation,
/// clears the filter, then closes.
pub proof fn law_esc_leaves(p: PickerView, a: Seq<ConnectionView>, b: Seq<ConnectionView>, c: Seq<
    ConnectionView,
>)
    ensures
        ({
            let first = pressed(p, a, Key::Esc, false);
            let second = pressed(first.0, b, Key::Esc, false);
            let third = pressed(second.0, c, Key::Esc, false);
            first.1 is Quit || second.1 is Quit || third.1 is Quit
        }),
{
}

/// Going down and then up, or up and then down, ends where it began.
pub proof fn law_up_undoes_down(p: PickerView, count: nat)
    requires
        p.selected < count,
    ensures
        above(below(p, count), count) == p,
        below(above(p, count), count) == p,
{
}

/// A deletion that could not be saved leaves the store as it was, entry for entry and in
/// the same order.
pub proof fn law_failed_delete_loses_nothing(all: Seq<ConnectionView>, i: int)
    requires
        0 <= i < all.len(),
    ensures
        after_delete(all.remove(i), Some((i, all[i])), false) == all,
        after_delete(all.remove(i), Some((i, all[i])), true) == all.remove(i),
{
    assert(all.remove(i).insert(i, all[i]) =~= all);
}

/// The line of a list of `count` that is highlighted: the one that was, or the last where
/// the list has become shorter.
pub open spec fn highlight(selected: nat, count: nat) -> nat
    recommends
        count > 0,
{
    if selected < count {
        selected
    } else {
        (count - 1) as nat
    }
}

/// The highlight is always on the list, and stays where it is as long as that is.
pub proof fn law_highlight_is_on_the_list(p: PickerView, count: nat)
    ensures
        count > 0 ==> p.settled(count).selected == highlight(p.selected, count),
        count > 0 ==> p.settled(count).selected < count,
        p.settled(count).query == p.query,
        p.settled(count).mode == p.mode,
        p.settled(count).status == p.status,
{
}

/// Enter asks to connect to the entry that is highlighted, and on an empty list says that
/// there is none.
pub proof fn law_enter_connects_to_the_highlighted(
    p: PickerView,
    entries: Seq<ConnectionView>,
    ctrl: bool,
)
    requires
        p.mode is Normal,
    ensures
        ({
            let (after, action) = pressed(p, entries, Key::Enter, ctrl);
            &&& entries.len() > 0 ==> action == ActionView::Connect(
                entries[highlight(p.selected, entries.len()) as int],
            )
            &&& entries.len() > 0 ==> after.selected == highlight(p.selected, entries.len())
            &&& entries.len() > 0 ==> after.status is None
            &&& entries.len() == 0 ==> action is Stay && after.status == Some(
                "Nothing to connect to."@,
            )
            &&& after.query == p.query
            &&& after.mode is Normal
        }),
{
}

/// Ctrl-E asks to edit the entry that is highlighted, and on an empty list says that there
/// is none.
pub proof fn law_edit_is_for_the_highlighted(p: PickerView, entries: Seq<ConnectionView>)
    requires
        p.mode is Normal,
    ensures
        ({
            let (after, action) = pressed(p, entries, Key::Char('e'), true);
            &&& entries.len() > 0 ==> action == (ActionView::Edit {
                id: entries[highlight(p.selected, entries.len()) as int].id,
            })
            &&& entries.len() > 0 ==> after.selected == highlight(p.selected, entries.len())
            &&& entries.len() > 0 ==> after.status is None
            &&& entries.len() == 0 ==> action is Stay && after.status == Some("Nothing to edit."@)
            &&& after.query == p.query
            &&& after.mode is Normal
        }),
{
}

/// Ctrl-D deletes nothing yet: it asks whether the entry that is highlighted is to go, by its
/// name and destination, and on an empty list does nothing.
pub proof fn law_delete_asks_first(p: PickerView, entries: Seq<ConnectionView>)
    requires
        p.mode is Normal,
    ensures
        ({
            let (after, action) = pressed(p, entries, Key::Char('d'), true);
            let target = entries[highlight(p.selected, entries.len()) as int];
            &&& action is Stay
            &&& after.query == p.query
            &&& after.status is None
            &&& entries.len() == 0 ==> after.mode is Normal
            &&& entries.len() > 0 ==> after.selected == highlight(p.selected, entries.len())
            &&& entries.len() > 0 ==> after.mode == (ModeView::ConfirmDelete {
                id: target.id,
                label: target.name + seq![' ', '('] + target.destination() + seq![')'],
            })
        }),
{
    reveal_strlit(" (");
    reveal_strlit(")");
    assert(" ("@ =~= seq![' ', '(']);
    assert(")"@ =~= seq![')']);
}

/// While a deletion awaits its answer, `y` deletes the entry that was asked about, `n` and
/// Esc do not, and every other key is ignored. Whatever the answer is, the filter and the
/// highlight stay.
pub proof fn law_answering(
    p: PickerView,
    entries: Seq<ConnectionView>,
    id: Seq<char>,
    label: Seq<char>,
    key: Key,
    ctrl: bool,
)
    requires
        p.mode == (ModeView::ConfirmDelete { id, label }),
    ensures
        ({
            let (after, action) = pressed(p, entries, key, ctrl);
            let yes = key == Key::Char('y') || key == Key::Char('Y');
            let no = key == Key::Char('n') || key == Key::Char('N') || key == Key::Esc;
            &&& yes ==> action == (ActionView::Delete { id }) && after.mode is Normal
            &&& yes ==> after.status == p.status
            &&& no ==> action is Stay && after.mode is Normal && after.status is None
            &&& !yes && !no ==> action is Stay && after.mode == p.mode && after.status == p.status
            &&& after.query == p.query
            &&& entries.len() > 0 ==> after.selected == highlight(p.selected, entries.len())
        }),
{
}

/// Down and Ctrl-N move the highlight one line down, Up and Ctrl-P one line up, round the
/// ends of the list, and change nothing else.
pub proof fn law_moving(p: PickerView, entries: Seq<ConnectionView>, ctrl: bool)
    requires
        p.mode is Normal,
        entries.len() > 0,
    ensures
        ({
            let n = entries.len() as int;
            let at = highlight(p.selected, entries.len()) as int;
            let down = pressed(p, entries, Key::Down, ctrl);
            let up = pressed(p, entries, Key::Up, ctrl);
            &&& down.0.selected == (at + 1) % n
            &&& up.0.selected == (at + n - 1) % n
            &&& down.1 is Stay && up.1 is Stay
            &&& down.0.query == p.query && down.0.mode is Normal && down.0.status is None
            &&& up.0.query == p.query && up.0.mode is Normal && up.0.status is None
            &&& pressed(p, entries, Key::Char('n'), true) == down
            &&& pressed(p, entries, Key::Char('p'), true) == up
        }),
{
    let n = entries.len() as int;
    let at = highlight(p.selected, entries.len()) as int;
    vstd::arithmetic::div_mod::lemma_fundamental_div_mod_converse(
        at + 1,
        n,
        if at + 1 < n {
            0
        } else {
            1
        },
        if at + 1 < n {
            at + 1
        } else {
            0
        },
    );
    vstd::arithmetic::div_mod::lemma_fundamental_div_mod_converse(
        at + n - 1,
        n,
        if at > 0 {
            1
        } else {
            0
        },
        if at > 0 {
            at - 1
        } else {
            n - 1
        },
    );
}

/// What is typed goes to the end of the filter, Backspace takes the last character off it
/// again, and Esc clears it; each time the first line of the new list is highlighted. On an
/// empty list the keys that move do nothing.
pub proof fn law_filtering(p: PickerView, entries: Seq<ConnectionView>, c: char, ctrl: bool)
    requires
        p.mode is Normal,
    ensures
        ({
            let typed = pressed(p, entries, Key::Char(c), false);
            let erased = pressed(p, entries, Key::Backspace, ctrl);
            let cleared = pressed(p, entries, Key::Esc, ctrl);
            &&& typed.0.query == p.query.push(c) && typed.0.selected == 0 && typed.1 is Stay
            &&& typed.0.mode is Normal && typed.0.status is None
            &&& p.query.len() > 0 ==> erased.0.query == p.query.take(p.query.len() - 1)
            &&& p.query.len() == 0 ==> erased.0.query == p.query
            &&& erased.0.selected == 0 && erased.1 is Stay && erased.0.mode is Normal
            &&& p.query.len() > 0 ==> cleared.0.query.len() == 0 && cleared.0.selected == 0
                && cleared.1 is Stay && cleared.0.mode is Normal
            &&& pressed(typed.0, entries, Key::Backspace, ctrl).0.query == p.query
        }),
        entries.len() == 0 ==> pressed(p, entries, Key::Down, ctrl).0.query == p.query && pressed(
            p,
            entries,
            Key::Up,
            ctrl,
        ).0.query == p.query,
{
    if p.query.len() > 0 {
        assert(p.query.drop_last() =~= p.query.take(p.query.len() - 1));
    }
    assert(p.query.push(c).drop_last() =~= p.query);
}

/// The picker closes on Ctrl-C, on Ctrl-Q and on Esc with an empty filter, and on nothing
/// else; Ctrl-A, and nothing else, asks for a new entry; only Enter asks to connect.
pub proof fn law_which_keys_do_what(
    p: PickerView,
    entries: Seq<ConnectionView>,
    key: Key,
    ctrl: bool,
)
    requires
        p.mode is Normal,
    ensures
        ({
            let action = pressed(p, entries, key, ctrl).1;
            &&& action is Quit <==> (ctrl && (key == Key::Char('c') || key == Key::Char('q'))) || (
            key == Key::Esc && p.query.len() == 0)
            &&& action is Add <==> ctrl && key == Key::Char('a')
            &&& action is Connect ==> key == Key::Enter
            &&& action is Edit ==> ctrl && key == Key::Char('e')
            &&& !(action is Delete)
        }),
{
}

/// Any other control chord, and any other key, does nothing but clear the message.
pub proof fn law_other_keys_do_nothing(
    p: PickerView,
    entries: Seq<ConnectionView>,
    key: Key,
    c: char,
)
    requires
        p.mode is Normal,
        entries.len() > 0,
        key == Key::Other || (key == Key::Char(c) && c != 'a' && c != 'c' && c != 'd' && c != 'e'
            && c != 'n' && c != 'p' && c != 'q'),
    ensures
        ({
            let (after, action) = pressed(p, entries, key, true);
            &&& action is Stay
            &&& after.query == p.query && after.mode is Normal && after.status is None
            &&& after.selected == highlight(p.selected, entries.len())
        }),
{
}

/// The picker opens with an empty filter, the first line highlighted, and nothing to say.
pub proof fn law_picker_opens_empty()
    ensures
        PickerView::started().query.len() == 0,
        PickerView::started().selected == 0,
        PickerView::started().mode is Normal,
        PickerView::started().status is None,
{
}

/// Once a new entry is saved the filter is cleared, so that it can be seen, and the list
/// starts at the top; where none was saved both stay. An edit leaves both alone in any case.
/// Each way the outcome is told.
pub proof fn law_forms_are_reported(p: PickerView, outcome: FormOutcome)
    ensures
        ({
            let added = after_add(p, outcome);
            let edited = after_edit(p, outcome);
            &&& outcome is Done ==> added.query.len() == 0 && added.selected == 0
            &&& !(outcome is Done) ==> added.query == p.query && added.selected == p.selected
            &&& added.mode == p.mode
            &&& edited.query == p.query && edited.selected == p.selected && edited.mode == p.mode
            &&& outcome matches FormOutcome::Failed(e) ==> added.status == Some(e@)
                && edited.status == Some(e@)
            &&& outcome matches FormOutcome::Done(name) ==> added.status is Some && edited.status
                is Some && text::occurs_in(added.status->0, name@) && text::occurs_in(
                edited.status->0,
                name@,
            )
            &&& outcome is Cancelled ==> added.status == Some("Add cancelled."@) && edited.status
                == Some("Edit cancelled."@)
        }),
{
    if let FormOutcome::Done(name) = outcome {
        let n = name@;
        let a = "Saved `"@ + n + "`."@;
        let b = "Updated `"@ + n + "`."@;
        let i = "Saved `"@.len() as int;
        let j = "Updated `"@.len() as int;
        assert(a.subrange(i, i + n.len()) =~= n);
        assert(b.subrange(j, j + n.len()) =~= n);
        assert(text::occurs_at(a, n, i));
        assert(text::occurs_at(b, n, j));
    }
}

/// What became of a deletion is told: the cause where it could not be saved, and else the id
/// of the entry that is gone. The filter, the highlight and the mode stay.
pub proof fn law_deletion_is_reported(
    p: PickerView,
    removed: Option<(int, ConnectionView)>,
    failure: Option<Seq<char>>,
)
    ensures
        ({
            let after = delete_reported(p, removed, failure);
            &&& after.query == p.query && after.selected == p.selected && after.mode == p.mode
            &&& failure matches Some(e) ==> after.status is Some && text::occurs_in(
                after.status->0,
                e,
            )
            &&& failure is None && removed is None ==> after.status is None
            &&& failure is None && removed is Some ==> after.status is Some && text::occurs_in(
                after.status->0,
                (removed->0).1.id,
            )
        }),
{
    if let Some(e) = failure {
        let a = "Could not save: "@ + e;
        let n = "Could not save: "@.len() as int;
        assert(a.subrange(n, n + e.len()) =~= e);
        assert(text::occurs_at(a, e, n));
    } else if let Some((_, c)) = removed {
        let a = "Deleted `"@ + c.id + "`."@;
        let n = "Deleted `"@.len() as int;
        assert(a.subrange(n, n + c.id.len()) =~= c.id);
        assert(text::occurs_at(a, c.id, n));
    }
}

/// A session starts where ssh is there and the entry can be used. Its time is then noted down
/// for the entry, and the picker stays as it is; otherwise the store stays as it is, and the
/// picker says what stands in the way.
pub proof fn law_connecting(
    p: PickerView,
    all: Seq<ConnectionView>,
    c: ConnectionView,
    ssh_missing: Option<FindSshError>,
    now: (int, int),
    i: int,
)
    ensures
        ({
            let (after, store, starts) = after_connect(p, all, c, ssh_missing, now);
            &&& starts <==> ssh_missing is None && ssh::fault(c) is None
            &&& starts ==> after == p
            &&& !starts ==> store == all && after.query == p.query && after.selected == p.selected
                && after.mode == p.mode
            &&& ssh_missing matches Some(e) ==> after.status == Some(e.text())
            &&& ssh_missing is None && ssh::fault(c) is Some ==> after.status == Some(
                (ssh::fault(c)->0).text(),
            )
            &&& starts && 0 <= i < all.len() && all[i].id == c.id && (forall|j: int|
                0 <= j < i ==> #[trigger] all[j].id != c.id) ==> store == all.update(
                i,
                ConnectionView { last_connected_at: Some(now), ..all[i] },
            )
        }),
{
    if 0 <= i < all.len() && all[i].id == c.id && (forall|j: int|
        0 <= j < i ==> #[trigger] all[j].id != c.id) {
        model::law_use_is_recorded(all, c.id, now, i);
    }
}

} // verus!
