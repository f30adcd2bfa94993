//! What the picker shows.

use crate::model;
use crate::model::{Connection, ConnectionView};
use crate::picker;
use crate::picker::{Row, RowView};
use crate::picker_state::{Mode, ModeView, Picker, PickerView};
use crate::text;
use crate::time::Timestamp;
use vstd::prelude::*;

verus! {

broadcast use text::lemma_texts_push;

/// The part below the search line.
#[derive(Debug, PartialEq, Eq)]
pub enum Body {
    /// Nothing is saved yet: the first line is blank, the second a headline.
    Welcome(Vec<String>),
    /// Nothing matches the filter.
    NoMatch(String),
    /// The entries that match, and which of them is highlighted.
    Rows { rows: Vec<Row>, selected: usize },
}

/// The bottom line.
#[derive(Debug, PartialEq, Eq)]
pub enum Footer {
    Status(String),
    Hints(Vec<String>),
}

/// All that the picker shows.
#[derive(Debug, PartialEq, Eq)]
pub struct Screen {
    pub query: String,
    pub body: Body,
    pub footer: Footer,
    /// The question of a confirmation that is pending.
    pub confirm: Option<String>,
}

/// The mathematical form of a [`Body`].
pub enum BodyView {
    Welcome(Seq<Seq<char>>),
    NoMatch(Seq<char>),
    Rows { rows: Seq<RowView>, selected: nat },
}

/// The mathematical form of a [`Footer`].
pub enum FooterView {
    Status(Seq<char>),
    Hints(Seq<Seq<char>>),
}

/// The mathematical form of a [`Screen`].
pub struct ScreenView {
    pub query: Seq<char>,
    pub body: BodyView,
    pub footer: FooterView,
    pub confirm: Option<Seq<char>>,
}

pub open spec fn row_views(v: Seq<Row>) -> Seq<RowView> {
    Seq::new(v.len(), |i: int| v[i]@)
}

impl View for Body {
    type V = BodyView;

    open spec fn view(&self) -> BodyView {
        match self {
            Body::Welcome(lines) => BodyView::Welcome(text::texts(lines@)),
            Body::NoMatch(line) => BodyView::NoMatch(line@),
            Body::Rows { rows, selected } => BodyView::Rows {
                rows: row_views(rows@),
                selected: *selected as nat,
            },
        }
    }
}

impl View for Footer {
    type V = FooterView;

    open spec fn view(&self) -> FooterView {
        match self {
            Footer::Status(line) => FooterView::Status(line@),
            Footer::Hints(spans) => FooterView::Hints(text::texts(spans@)),
        }
    }
}

impl View for Screen {
    type V = ScreenView;

    open spec fn view(&self) -> ScreenView {
        ScreenView {
            query: self.query@,
            body: self.body@,
            footer: self.footer@,
            confirm: text::opt_text(self.confirm),
        }
    }
}

/// What is shown while nothing is saved.
pub open spec fn welcome() -> Seq<Seq<char>> {
    seq![
        ""@,
        "  No saved connections yet."@,
        ""@,
        "  Press Ctrl-A to add one now,"@,
        "  or run `herdr-ssh-manager import` to pull in your ~/.ssh/config."@,
    ]
}

/// The part below the search line: results, or an empty state.
pub open spec fn body_of(
    selected: nat,
    saved: nat,
    entries: Seq<ConnectionView>,
    now: (int, int),
) -> BodyView {
    if saved == 0 {
        BodyView::Welcome(welcome())
    } else if entries.len() == 0 {
        BodyView::NoMatch("    no match"@)
    } else {
        BodyView::Rows {
            rows: entries.map_values(|c: ConnectionView| picker::row_of(c, now)),
            selected,
        }
    }
}

/// What the picker shows while `entries` out of `saved` match, on a screen of the given
/// width.
pub open spec fn shown(
    p: PickerView,
    saved: nat,
    entries: Seq<ConnectionView>,
    width: nat,
    now: (int, int),
) -> ScreenView {
    ScreenView {
        query: p.query,
        body: body_of(p.selected, saved, entries, now),
        // A status message when there is one, otherwise the key help.
        footer: match p.status {
            Some(message) => FooterView::Status("  "@ + message),
            None => FooterView::Hints(picker::hints(width, saved)),
        },
        confirm: match p.mode {
            ModeView::ConfirmDelete { label, .. } => Some("  Delete "@ + label + "?"@),
            ModeView::Normal => None,
        },
    }
}

fn welcome_lines() -> (r: Vec<String>)
    ensures
        text::texts(r@) == welcome(),
{
    let mut out: Vec<String> = Vec::new();
    out.push("".to_string());
    out.push("  No saved connections yet.".to_string());
    out.push("".to_string());
    out.push("  Press Ctrl-A to add one now,".to_string());
    out.push("  or run `herdr-ssh-manager import` to pull in your ~/.ssh/config.".to_string());
    assert(text::texts(out@) =~= welcome());
    out
}

fn rows(entries: &Vec<&Connection>, now: &Timestamp) -> (r: Vec<Row>)
    ensures
        row_views(r@) == model::ref_views(entries@).map_values(
            |c: ConnectionView| picker::row_of(c, now@),
        ),
{
    let ghost expected = model::ref_views(entries@).map_values(
        |c: ConnectionView| picker::row_of(c, now@),
    );
    let mut out: Vec<Row> = Vec::new();
    let mut i: usize = 0;
    while i < entries.len()
        invariant
            i <= entries@.len(),
            out@.len() == i,
            expected == model::ref_views(entries@).map_values(
                |c: ConnectionView| picker::row_of(c, now@),
            ),
            forall|j: int| 0 <= j < i ==> (#[trigger] out@[j])@ == expected[j],
        decreases entries@.len() - i,
    {
        out.push(picker::row(entries[i], now));
        i = i + 1;
    }
    assert(row_views(out@) =~= expected);
    out
}

/// What the picker shows while `entries` out of `saved` match, on a screen of the given
/// width.
pub fn draw(
    picker: &Picker,
    saved: usize,
    entries: &Vec<&Connection>,
    width: u16,
    now: &Timestamp,
) -> (r: Screen)
    ensures
        r@ == shown(picker@, saved as nat, model::ref_views(entries@), width as nat, now@),
{
    let body = if saved == 0 {
        Body::Welcome(welcome_lines())
    } else if entries.len() == 0 {
        Body::NoMatch("    no match".to_string())
    } else {
        Body::Rows { rows: rows(entries, now), selected: picker.selected }
    };
    let footer = match &picker.status {
        Some(message) => Footer::Status(text::concat2("  ", message.as_str())),
        None => Footer::Hints(picker::footer_hints(width, saved)),
    };
    let confirm = match &picker.mode {
        Mode::ConfirmDelete { label, .. } => Some(
            text::concat3("  Delete ", label.as_str(), "?"),
        ),
        Mode::Normal => None,
    };
    Screen { query: picker.query.clone(), body, footer, confirm }
}

// ---------------------------------------------------------------- laws

/// The screen lists the entries that match, one row each and in their order, with the
/// highlight where the picker has it. Where nothing is saved it says how to begin, and where
/// nothing matches it says so.
pub proof fn law_what_is_listed(
    p: PickerView,
    saved: nat,
    entries: Seq<ConnectionView>,
    width: nat,
    now: (int, int),
    i: int,
)
    ensures
        ({
            let body = shown(p, saved, entries, width, now).body;
            &&& saved == 0 <==> body is Welcome
            &&& saved > 0 && entries.len() == 0 ==> body == BodyView::NoMatch("    no match"@)
            &&& saved > 0 && entries.len() > 0 ==> {
                &&& body matches BodyView::Rows { rows, selected }
                &&& selected == p.selected
                &&& rows.len() == entries.len()
                &&& 0 <= i < entries.len() ==> rows[i] == picker::row_of(entries[i], now)
            }
        }),
{
}

/// The filter is shown as it was typed. The last line is what there is to say, and else the
/// help on the keys. A question is asked exactly while a deletion awaits its answer, and it
/// names what would go.
pub proof fn law_what_is_said(
    p: PickerView,
    saved: nat,
    entries: Seq<ConnectionView>,
    width: nat,
    now: (int, int),
)
    ensures
        ({
            let s = shown(p, saved, entries, width, now);
            &&& s.query == p.query
            &&& p.status matches Some(message) ==> s.footer == FooterView::Status(
                seq![' ', ' '] + message,
            )
            &&& p.status is None ==> s.footer == FooterView::Hints(picker::hints(width, saved))
            &&& p.mode is Normal ==> s.confirm is None
            &&& p.mode matches ModeView::ConfirmDelete { label, .. } ==> s.confirm is Some
                && text::occurs_in(s.confirm->0, label)
        }),
{
    reveal_strlit("  ");
    assert("  "@ =~= seq![' ', ' ']);
    if let ModeView::ConfirmDelete { label, .. } = p.mode {
        let q = "  Delete "@ + label + "?"@;
        let n = "  Delete "@.len() as int;
        assert(q.subrange(n, n + label.len()) =~= label);
        assert(text::occurs_at(q, label, n));
    }
}

} // verus!
