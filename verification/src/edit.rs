//! Editing a saved connection by picking fields off a view of the whole record.
//!
//! Walking every field in sequence — the way `add` does — is wrong for editing: it hides
//! the record behind one prompt at a time and makes you confirm values you never intended
//! to touch. Here the whole entry stays on screen, and only what you select changes.

use crate::model::{Connection, ConnectionView};
use crate::number;
use crate::split;
use crate::ssh;
use crate::ssh::{SshError, SshErrorView};
use crate::text;
use vstd::prelude::*;

verus! {

broadcast use text::lemma_texts_push;

// ---------------------------------------------------------------- optional text

/// What was typed, without the white space around it; nothing when that leaves nothing.
pub fn blank_to_none(value: &str) -> (r: Option<String>)
    ensures
        text::opt_text(r) == ssh::filled(Some(value@)),
{
    let trimmed = text::trim(value);
    if trimmed.as_str().is_empty() {
        None
    } else {
        Some(trimmed)
    }
}

/// The texts that are not blank, each without the white space around it.
pub open spec fn all_filled(list: Seq<Seq<char>>) -> Seq<Seq<char>>
    decreases list.len(),
{
    if list.len() == 0 {
        seq![]
    } else {
        let before = all_filled(list.drop_last());
        match ssh::filled(Some(list.last())) {
            Some(t) => before.push(t),
            None => before,
        }
    }
}

/// The tags in a comma-separated line.
pub open spec fn tags_in(line: Seq<char>) -> Seq<Seq<char>> {
    all_filled(split::pieces(line, ','))
}

/// The tags in a comma-separated line.
pub fn split_tags(line: &str) -> (r: Vec<String>)
    ensures
        text::texts(r@) == tags_in(line@),
{
    let parts = split::split_pieces(line, ',');
    let ghost all = text::texts(parts@);
    let mut out: Vec<String> = Vec::new();
    let mut i: usize = 0;
    assert(text::texts(out@) =~= all_filled(all.take(0)));
    while i < parts.len()
        invariant
            i <= parts@.len(),
            all == text::texts(parts@),
            text::texts(out@) == all_filled(all.take(i as int)),
        decreases parts@.len() - i,
    {
        proof {
            assert(all.take(i + 1).drop_last() =~= all.take(i as int));
            assert(all.take(i + 1).last() == parts@[i as int]@);
        }
        if let Some(t) = blank_to_none(parts[i].as_str()) {
            out.push(t);
        }
        i = i + 1;
    }
    assert(all.take(i as int) =~= all);
    out
}

// ---------------------------------------------------------------- fields

/// One editable field of a saved connection.
#[derive(Clone, Copy, Debug, PartialEq, Eq, Structural)]
pub enum Field {
    Name,
    Host,
    User,
    Port,
    IdentityFile,
    JumpHost,
    Tags,
    ExtraSshArgs,
    Notes,
}

/// The fields, in the order in which they are listed.
pub open spec fn field_order() -> Seq<Field> {
    seq![
        Field::Name,
        Field::Host,
        Field::User,
        Field::Port,
        Field::IdentityFile,
        Field::JumpHost,
        Field::Tags,
        Field::ExtraSshArgs,
        Field::Notes,
    ]
}

/// An optional text, or an empty one.
pub open spec fn or_empty(t: Option<Seq<char>>) -> Seq<char> {
    match t {
        Some(s) => s,
        None => seq![],
    }
}

impl Field {
    pub open spec fn name_text(self) -> Seq<char> {
        match self {
            Field::Name => "Name"@,
            Field::Host => "Host"@,
            Field::User => "User"@,
            Field::Port => "Port"@,
            Field::IdentityFile => "Identity file"@,
            Field::JumpHost => "Jump host"@,
            Field::Tags => "Tags"@,
            Field::ExtraSshArgs => "Extra ssh args"@,
            Field::Notes => "Notes"@,
        }
    }

    /// The field as a line that can be edited.
    pub open spec fn line_of(self, c: ConnectionView) -> Seq<char> {
        match self {
            Field::Name => c.name,
            Field::Host => c.host,
            Field::User => or_empty(c.user),
            Field::Port => number::decimal(c.port as nat),
            Field::IdentityFile => or_empty(c.identity_file),
            Field::JumpHost => or_empty(c.jump_host),
            Field::Tags => split::join(c.tags, ", "@),
            Field::ExtraSshArgs => split::join(c.extra_ssh_args, " "@),
            Field::Notes => or_empty(c.notes),
        }
    }

    /// The field's current value, or an em dash when it is unset.
    pub open spec fn shown_value(self, c: ConnectionView) -> Seq<char> {
        let raw = self.line_of(c);
        if raw.len() == 0 {
            "—"@
        } else {
            raw
        }
    }

    /// What to ask for.
    pub open spec fn question(self) -> Seq<char> {
        match self {
            Field::Tags => "Tags (comma separated)"@,
            Field::ExtraSshArgs => "Extra ssh args (space separated)"@,
            other => other.name_text(),
        }
    }

    pub fn label(self) -> (r: &'static str)
        ensures
            r@ == self.name_text(),
    {
        match self {
            Field::Name => "Name",
            Field::Host => "Host",
            Field::User => "User",
            Field::Port => "Port",
            Field::IdentityFile => "Identity file",
            Field::JumpHost => "Jump host",
            Field::Tags => "Tags",
            Field::ExtraSshArgs => "Extra ssh args",
            Field::Notes => "Notes",
        }
    }

    /// The field as a line that can be edited.
    pub fn current(self, conn: &Connection) -> (r: String)
        ensures
            r@ == self.line_of(conn@),
    {
        match self {
            Field::Name => conn.name.clone(),
            Field::Host => conn.host.clone(),
            Field::User => text_or_empty(&conn.user),
            Field::Port => number::to_decimal(conn.port as u128),
            Field::IdentityFile => text_or_empty(&conn.identity_file),
            Field::JumpHost => text_or_empty(&conn.jump_host),
            Field::Tags => split::join_texts(&conn.tags, ", "),
            Field::ExtraSshArgs => split::join_texts(&conn.extra_ssh_args, " "),
            Field::Notes => text_or_empty(&conn.notes),
        }
    }

    /// The field's current value, or an em dash when it is unset.
    pub fn value_of(self, conn: &Connection) -> (r: String)
        ensures
            r@ == self.shown_value(conn@),
    {
        let raw = self.current(conn);
        if raw.as_str().is_empty() {
            "—".to_string()
        } else {
            raw
        }
    }

    /// What to ask for.
    pub fn prompt(self) -> (r: &'static str)
        ensures
            r@ == self.question(),
    {
        match self {
            Field::Tags => "Tags (comma separated)",
            Field::ExtraSshArgs => "Extra ssh args (space separated)",
            other => other.label(),
        }
    }

    /// The field in line `i` of the list.
    pub fn at(i: usize) -> (r: Option<Field>)
        ensures
            r == (if i < field_order().len() {
                Some(field_order()[i as int])
            } else {
                None
            }),
    {
        match i {
            0 => Some(Field::Name),
            1 => Some(Field::Host),
            2 => Some(Field::User),
            3 => Some(Field::Port),
            4 => Some(Field::IdentityFile),
            5 => Some(Field::JumpHost),
            6 => Some(Field::Tags),
            7 => Some(Field::ExtraSshArgs),
            8 => Some(Field::Notes),
            _ => None,
        }
    }
}

fn text_or_empty(t: &Option<String>) -> (r: String)
    ensures
        r@ == or_empty(text::opt_text(*t)),
{
    match t {
        Some(s) => s.clone(),
        None => {
            let s = String::new();
            assert(s@ =~= seq![]);
            s
        },
    }
}

// ---------------------------------------------------------------- the menu

/// The line of the menu that shows a field.
pub open spec fn menu_line(field: Field, draft: ConnectionView) -> Seq<char> {
    text::padded(field.name_text(), 16) + " "@ + field.shown_value(draft)
}

/// The lines of the menu.
pub open spec fn menu(draft: ConnectionView) -> Seq<Seq<char>> {
    field_order().map_values(|f: Field| menu_line(f, draft)).push("Save changes"@).push(
        "Discard"@,
    )
}

/// The lines of the menu.
pub fn menu_options(draft: &Connection) -> (r: Vec<String>)
    ensures
        text::texts(r@) == menu(draft@),
{
    let mut out: Vec<String> = Vec::new();
    let ghost lines = field_order().map_values(|f: Field| menu_line(f, draft@));
    let mut i: usize = 0;
    assert(text::texts(out@) =~= lines.take(0));
    while i < 9
        invariant
            i <= 9,
            lines == field_order().map_values(|f: Field| menu_line(f, draft@)),
            text::texts(out@) == lines.take(i as int),
        decreases 9 - i,
    {
        if let Some(field) = Field::at(i) {
            let mut line = text::pad(field.label(), 16);
            line.append(" ");
            line.append(field.value_of(draft).as_str());
            out.push(line);
        }
        assert(lines.take(i + 1) =~= lines.take(i as int).push(lines[i as int]));
        i = i + 1;
    }
    assert(lines.take(i as int) =~= lines);
    out.push("Save changes".to_string());
    out.push("Discard".to_string());
    out
}

/// The title of the menu.
pub fn menu_title(existing: &Connection) -> (r: String)
    ensures
        r@ == "Edit `"@ + existing@.name + "`"@,
{
    text::concat3("Edit `", existing.name.as_str(), "`")
}

/// The help below the menu.
///
/// Showing the command the entry resolves to makes the effect of an edit concrete;
/// an entry too broken to render one is reported at save time, not here.
pub fn menu_help(draft: &Connection, home: &Option<String>) -> (r: String)
    ensures
        r@ == match ssh::fault(draft@) {
            None => ssh::shown_command(ssh::ssh_args(draft@, text::opt_text(*home))),
            Some(_) => "this entry cannot be turned into an ssh command yet"@,
        },
{
    match ssh::command_line(draft, home) {
        Ok(line) => line,
        Err(_) => "this entry cannot be turned into an ssh command yet".to_string(),
    }
}

/// What a choice in the menu comes to.
#[derive(Debug, PartialEq, Eq)]
pub enum FormStep {
    /// Leave the entry as it is saved.
    Discard,
    /// Save the draft.
    Save,
    /// The draft could never connect: say so, and keep it.
    Refuse(SshError),
    /// Ask for this field.
    Ask(Field),
}

/// The mathematical form of a [`FormStep`].
pub enum FormStepView {
    Discard,
    Save,
    Refuse(SshErrorView),
    Ask(Field),
}

impl View for FormStep {
    type V = FormStepView;

    open spec fn view(&self) -> FormStepView {
        match self {
            FormStep::Discard => FormStepView::Discard,
            FormStep::Save => FormStepView::Save,
            FormStep::Refuse(e) => FormStepView::Refuse(e@),
            FormStep::Ask(field) => FormStepView::Ask(*field),
        }
    }
}

/// What the choice of a line of the menu comes to; leaving it without one discards.
pub open spec fn form_step(draft: ConnectionView, choice: Option<usize>) -> FormStepView {
    match choice {
        None => FormStepView::Discard,
        Some(i) => if i < 9 {
            FormStepView::Ask(field_order()[i as int])
        } else if i == 9 {
            match ssh::fault(draft) {
                None => FormStepView::Save,
                Some(f) => FormStepView::Refuse(f),
            }
        } else {
            FormStepView::Discard
        },
    }
}

/// Edit a saved connection by picking fields off a view of the whole record: what the
/// choice of a line of the menu comes to.
///
/// A draft that could never connect is refused, but kept, so the work is not thrown away.
pub fn edit_form(draft: &Connection, choice: Option<usize>) -> (r: FormStep)
    requires
        choice is Some ==> choice->0 < menu(draft@).len(),
    ensures
        r@ == form_step(draft@, choice),
{
    match choice {
        // Esc out of the menu discards, the same as picking Discard.
        None => FormStep::Discard,
        Some(i) => match Field::at(i) {
            Some(field) => FormStep::Ask(field),
            None => if i == 9 {
                match ssh::validate(draft) {
                    Ok(()) => FormStep::Save,
                    Err(e) => FormStep::Refuse(e),
                }
            } else {
                FormStep::Discard
            },
        },
    }
}

/// Where the cursor of the menu stands once a line of it was chosen: on the field that was
/// asked for, and where it stood after any other choice.
pub open spec fn cursor_after(cursor: usize, choice: Option<usize>) -> usize {
    match choice {
        Some(i) if i < 9 => i,
        _ => cursor,
    }
}

/// Where the cursor of the menu stands once a line of it was chosen.
///
/// Coming back from a field leaves the cursor where it was, not at the top: fixing three
/// fields in a row should not mean scrolling down from Name each time.
pub fn menu_cursor(cursor: usize, choice: Option<usize>) -> (r: usize)
    ensures
        r == cursor_after(cursor, choice),
{
    match choice {
        Some(i) => if i < 9 {
            i
        } else {
            cursor
        },
        None => cursor,
    }
}

// ---------------------------------------------------------------- one field

/// A port that something can listen on.
pub open spec fn usable_port(line: Seq<char>) -> Option<u16> {
    match number::u16_in(line) {
        Some(p) => if p > 0 {
            Some(p)
        } else {
            None
        },
        None => None,
    }
}

/// A port that something can listen on.
pub fn parse_port(line: &str) -> (r: Option<u16>)
    ensures
        r == usable_port(line@),
{
    match number::parse_u16(line) {
        Some(p) => if p > 0 {
            Some(p)
        } else {
            None
        },
        None => None,
    }
}

/// The draft once `line` was typed for a field, and the complaint where it was left
/// unchanged.
pub open spec fn typed(
    field: Field,
    draft: ConnectionView,
    existing: ConnectionView,
    line: Seq<char>,
) -> (ConnectionView, Option<Seq<char>>) {
    let value = text::trimmed(line);
    match field {
        Field::Name => if value.len() == 0 {
            (draft, Some("  name is required; left unchanged"@))
        } else {
            (ConnectionView { name: value, ..draft }, None)
        },
        Field::Host => if value.len() == 0 {
            (draft, Some("  host is required; left unchanged"@))
        } else {
            (ConnectionView { host: value, ..draft }, None)
        },
        Field::Port => match usable_port(value) {
            Some(port) => (ConnectionView { port, ..draft }, None),
            None => (draft, Some("  not a valid port (1-65535); left unchanged"@)),
        },
        Field::User => (ConnectionView { user: ssh::filled(Some(value)), ..draft }, None),
        Field::IdentityFile => (
            ConnectionView { identity_file: ssh::filled(Some(value)), ..draft },
            None,
        ),
        Field::JumpHost => (ConnectionView { jump_host: ssh::filled(Some(value)), ..draft }, None),
        Field::Notes => (ConnectionView { notes: ssh::filled(Some(value)), ..draft }, None),
        Field::Tags => (ConnectionView { tags: tags_in(value), ..draft }, None),
        Field::ExtraSshArgs => (
            ConnectionView {
                extra_ssh_args: if line == split::join(existing.extra_ssh_args, " "@) || value
                    == split::join(existing.extra_ssh_args, " "@) {
                    existing.extra_ssh_args
                } else {
                    split::words(value)
                },
                ..draft
            },
            None,
        ),
    }
}

/// Take what was typed for a single field; returns the complaint where the field was left
/// unchanged.
pub fn edit_one_field(
    field: Field,
    draft: &mut Connection,
    existing: &Connection,
    line: &str,
) -> (r: Option<&'static str>)
    ensures
        final(draft)@ == typed(field, old(draft)@, existing@, line@).0,
        match (r, typed(field, old(draft)@, existing@, line@).1) {
            (Some(complaint), Some(expected)) => complaint@ == expected,
            (None, None) => true,
            _ => false,
        },
{
    let value = text::trim(line);
    match field {
        Field::Name => {
            if value.as_str().is_empty() {
                return Some("  name is required; left unchanged");
            }
            draft.name = value;
        },
        Field::Host => {
            if value.as_str().is_empty() {
                return Some("  host is required; left unchanged");
            }
            draft.host = value;
        },
        Field::Port => {
            match parse_port(value.as_str()) {
                Some(port) => {
                    draft.port = port;
                },
                None => {
                    return Some("  not a valid port (1-65535); left unchanged");
                },
            }
        },
        Field::User => {
            draft.user = blank_to_none(value.as_str());
        },
        Field::IdentityFile => {
            draft.identity_file = blank_to_none(value.as_str());
        },
        Field::JumpHost => {
            draft.jump_host = blank_to_none(value.as_str());
        },
        Field::Notes => {
            draft.notes = blank_to_none(value.as_str());
        },
        Field::Tags => {
            draft.tags = split_tags(value.as_str());
        },
        Field::ExtraSshArgs => {
            // Splitting on whitespace cannot express an argument that contains a space, so
            // an untouched line keeps the original vector verbatim — editing other fields
            // can never quietly flatten `-o "ProxyCommand=ssh -W %h:%p bastion"`.
            let saved = split::join_texts(&existing.extra_ssh_args, " ");
            draft.extra_ssh_args = if text::same(line, saved.as_str()) || text::same(
                value.as_str(),
                saved.as_str(),
            ) {
                text::copy_list(&existing.extra_ssh_args)
            } else {
                split::split_words(value.as_str())
            };
        },
    }
    None
}

// ---------------------------------------------------------------- laws

/// Coming back from a field leaves the cursor on the line of that field, and a draft that
/// was refused leaves it where it was.
pub proof fn law_cursor_stays(draft: ConnectionView, cursor: usize, choice: Option<usize>)
    requires
        choice is Some ==> choice->0 < menu(draft).len(),
    ensures
        form_step(draft, choice) is Ask ==> form_step(draft, choice) == FormStepView::Ask(
            field_order()[cursor_after(cursor, choice) as int],
        ),
        form_step(draft, choice) is Refuse ==> cursor_after(cursor, choice) == cursor,
{
}

/// Typing something for one field leaves every other field alone, and the id and the
/// history with them.
pub proof fn law_one_field_changes(
    field: Field,
    draft: ConnectionView,
    existing: ConnectionView,
    line: Seq<char>,
)
    ensures
        ({
            let after = typed(field, draft, existing, line).0;
            &&& after.id == draft.id
            &&& after.last_connected_at == draft.last_connected_at
            &&& field != Field::Name ==> after.name == draft.name
            &&& field != Field::Host ==> after.host == draft.host
            &&& field != Field::User ==> after.user == draft.user
            &&& field != Field::Port ==> after.port == draft.port
            &&& field != Field::IdentityFile ==> after.identity_file == draft.identity_file
            &&& field != Field::JumpHost ==> after.jump_host == draft.jump_host
            &&& field != Field::Tags ==> after.tags == draft.tags
            &&& field != Field::ExtraSshArgs ==> after.extra_ssh_args == draft.extra_ssh_args
            &&& field != Field::Notes ==> after.notes == draft.notes
        }),
{
}

/// Confirming the extra arguments as they are shown keeps them verbatim, spaces inside
/// them and all.
pub proof fn law_untouched_extra_args_stay(draft: ConnectionView, existing: ConnectionView)
    ensures
        typed(
            Field::ExtraSshArgs,
            draft,
            existing,
            Field::ExtraSshArgs.line_of(existing),
        ).0.extra_ssh_args == existing.extra_ssh_args,
{
}

/// A tag that survives being typed.
pub open spec fn is_tag(t: Seq<char>) -> bool {
    text::trimmed(t) == t && t.len() > 0 && !t.contains(',')
}

/// All tags but the first, each behind a space.
spec fn spaced(tags: Seq<Seq<char>>) -> Seq<Seq<char>> {
    Seq::new(
        tags.len(),
        |i: int|
            if i == 0 {
                tags[i]
            } else {
                seq![' '] + tags[i]
            },
    )
}

proof fn lemma_join_spaced(tags: Seq<Seq<char>>)
    ensures
        split::join(tags, ", "@) == split::join(spaced(tags), seq![',']),
    decreases tags.len(),
{
    reveal_strlit(", ");
    if tags.len() > 1 {
        let front = tags.drop_last();
        lemma_join_spaced(front);
        assert(spaced(tags).drop_last() =~= spaced(front));
        assert(spaced(tags).last() == seq![' '] + tags.last());
        let j = split::join(front, ", "@);
        assert(j + ", "@ + tags.last() =~= j + seq![','] + (seq![' '] + tags.last()));
    }
}

proof fn lemma_spaced_trims(t: Seq<char>)
    ensures
        text::trimmed(seq![' '] + t) == text::trimmed(t),
{
    assert((seq![' '] + t).drop_first() =~= t);
}

proof fn lemma_spaced_filled(tags: Seq<Seq<char>>)
    requires
        forall|i: int| 0 <= i < tags.len() ==> is_tag(#[trigger] tags[i]),
    ensures
        all_filled(spaced(tags)) == tags,
    decreases tags.len(),
{
    if tags.len() == 0 {
        assert(all_filled(spaced(tags)) =~= tags);
    } else {
        let front = tags.drop_last();
        assert forall|i: int| 0 <= i < front.len() implies is_tag(#[trigger] front[i]) by {
            assert(front[i] == tags[i]);
        }
        lemma_spaced_filled(front);
        assert(spaced(tags).drop_last() =~= spaced(front));
        assert(is_tag(tags[tags.len() - 1]));
        lemma_spaced_trims(tags.last());
        assert(front.push(tags.last()) =~= tags);
    }
}

proof fn lemma_trimmed_ends(t: Seq<char>)
    ensures
        (text::trimmed(t) == t && t.len() > 0) <==> (t.len() > 0 && !text::is_white(t[0])
            && !text::is_white(t.last())),
{
    let (a, b) = text::lemma_trimmed_bounds(t);
    if text::trimmed(t) == t && t.len() > 0 {
        assert(t.subrange(a, b).len() == b - a);
        assert(a == 0 && b == t.len());
    }
}

proof fn lemma_join_ends(tags: Seq<Seq<char>>, sep: Seq<char>)
    requires
        tags.len() > 0,
        forall|i: int| 0 <= i < tags.len() ==> (#[trigger] tags[i]).len() > 0,
    ensures
        split::join(tags, sep).len() > 0,
        split::join(tags, sep)[0] == tags[0][0],
        split::join(tags, sep).last() == tags.last().last(),
    decreases tags.len(),
{
    assert(tags[tags.len() - 1].len() > 0);
    if tags.len() > 1 {
        let front = tags.drop_last();
        assert forall|i: int| 0 <= i < front.len() implies (#[trigger] front[i]).len() > 0 by {
            assert(front[i] == tags[i]);
        }
        lemma_join_ends(front, sep);
    }
}

/// Confirming tags as they are shown keeps them: what a comma-separated line is taken
/// apart into is what it was put together from.
pub proof fn law_tags_come_back(draft: ConnectionView, existing: ConnectionView)
    requires
        forall|i: int| 0 <= i < draft.tags.len() ==> is_tag(#[trigger] draft.tags[i]),
    ensures
        typed(Field::Tags, draft, existing, Field::Tags.line_of(draft)).0.tags == draft.tags,
{
    let tags = draft.tags;
    let line = split::join(tags, ", "@);
    if tags.len() == 0 {
        assert(text::trimmed(line) =~= seq![]);
        let one = split::pieces(text::trimmed(line), ',');
        assert(one =~= seq![seq![]]);
        assert(one.drop_last() =~= seq![]);
        assert(text::trimmed(Seq::<char>::empty()) =~= seq![]);
        assert(all_filled(one.drop_last()) =~= seq![]);
        assert(tags_in(text::trimmed(line)) =~= tags);
    } else {
        lemma_join_spaced(tags);
        lemma_spaced_filled(tags);
        let parts = spaced(tags);
        assert forall|k: int| 0 <= k < parts.len() implies !(#[trigger] parts[k]).contains(',') by {
            assert(is_tag(tags[k]));
            if k > 0 && parts[k].contains(',') {
                let at = choose|at: int| 0 <= at < parts[k].len() && parts[k][at] == ',';
                assert(tags[k][at - 1] == ',');
            }
        }
        split::law_pieces_join(parts, ',');
        assert forall|i: int| 0 <= i < tags.len() implies (#[trigger] tags[i]).len() > 0 by {
            assert(is_tag(tags[i]));
        }
        lemma_join_ends(tags, ", "@);
        assert(is_tag(tags[0]) && is_tag(tags[tags.len() - 1]));
        lemma_trimmed_ends(tags[0]);
        lemma_trimmed_ends(tags.last());
        lemma_trimmed_ends(line);
    }
}

/// What is typed for a field is what the field then holds, without the white space around
/// it. A name and a host cannot be emptied, an optional field can.
pub proof fn law_typed_text_is_taken(
    draft: ConnectionView,
    existing: ConnectionView,
    before: Seq<char>,
    value: Seq<char>,
    after: Seq<char>,
)
    requires
        text::all_white(before),
        text::is_tight(value),
        text::all_white(after),
    ensures
        ({
            let line = before + value + after;
            let given = if value.len() > 0 {
                Some(value)
            } else {
                None
            };
            let name = typed(Field::Name, draft, existing, line);
            let host = typed(Field::Host, draft, existing, line);
            &&& value.len() > 0 ==> name.0.name == value && name.1 is None
            &&& value.len() == 0 ==> name.0.name == draft.name && name.1 is Some
            &&& value.len() > 0 ==> host.0.host == value && host.1 is None
            &&& value.len() == 0 ==> host.0.host == draft.host && host.1 is Some
            &&& typed(Field::User, draft, existing, line).0.user == given
            &&& typed(Field::IdentityFile, draft, existing, line).0.identity_file == given
            &&& typed(Field::JumpHost, draft, existing, line).0.jump_host == given
            &&& typed(Field::Notes, draft, existing, line).0.notes == given
            &&& typed(Field::User, draft, existing, line).1 is None
            &&& typed(Field::IdentityFile, draft, existing, line).1 is None
            &&& typed(Field::JumpHost, draft, existing, line).1 is None
            &&& typed(Field::Notes, draft, existing, line).1 is None
        }),
{
    let none = Seq::<char>::empty();
    text::law_trimmed(before, value, after);
    text::law_trimmed(none, value, none);
    assert(none + value + none =~= value);
}

/// A number between 1 and 65535 typed for the port becomes the port; anything that is read
/// as no such number leaves it as it is and is complained about.
pub proof fn law_typed_port(
    draft: ConnectionView,
    existing: ConnectionView,
    before: Seq<char>,
    port: u16,
    after: Seq<char>,
    line: Seq<char>,
)
    requires
        text::all_white(before),
        text::all_white(after),
    ensures
        port > 0 ==> typed(
            Field::Port,
            draft,
            existing,
            before + number::decimal(port as nat) + after,
        ) == (ConnectionView { port, ..draft }, None::<Seq<char>>),
        ({
            let read = number::u16_in(text::trimmed(line));
            let r = typed(Field::Port, draft, existing, line);
            &&& read is None || read == Some(0u16) ==> r.0.port == draft.port && r.1 is Some
            &&& read is Some && read != Some(0u16) ==> Some(r.0.port) == read && r.1 is None
        }),
{
    let digits = number::decimal(port as nat);
    number::lemma_decimal_value(port as nat);
    number::law_u16_round_trip(port);
    assert(text::is_digit(digits[0]) && text::is_digit(digits[digits.len() - 1]));
    text::law_trimmed(before, digits, after);
}

/// The tags in a line are what stands between its commas, each without the white space
/// around it, in their order; what is blank is none.
pub proof fn law_tags_in(a: Seq<char>, b: Seq<char>, before: Seq<char>, tag: Seq<char>, after: Seq<char>)
    requires
        text::all_white(before),
        text::is_tight(tag),
        text::all_white(after),
        !tag.contains(','),
    ensures
        tags_in(a.push(',') + b) == tags_in(a) + tags_in(b),
        tag.len() > 0 ==> tags_in(before + tag + after) == seq![tag],
        tag.len() == 0 ==> tags_in(before + tag + after).len() == 0,
{
    split::lemma_pieces_concat(a, b, ',');
    lemma_filled_concat(split::pieces(a, ','), split::pieces(b, ','));
    let s = before + tag + after;
    assert(!s.contains(',')) by {
        assert forall|i: int| 0 <= i < s.len() implies s[i] != ',' by {
            if i < before.len() {
                assert(text::is_white(before[i]));
            } else if i < before.len() + tag.len() {
                assert(tag[i - before.len()] == s[i]);
            } else {
                assert(text::is_white(after[i - before.len() - tag.len()]));
            }
        }
    }
    split::lemma_pieces_single(s, ',');
    text::law_trimmed(before, tag, after);
    let one = seq![s];
    assert(one.drop_last() =~= seq![]);
    assert(all_filled(one.drop_last()) =~= seq![]);
    assert(one.last() == s);
    if tag.len() > 0 {
        assert(all_filled(one) =~= seq![tag]);
    }
}

proof fn lemma_filled_concat(a: Seq<Seq<char>>, b: Seq<Seq<char>>)
    ensures
        all_filled(a + b) == all_filled(a) + all_filled(b),
    decreases b.len(),
{
    if b.len() == 0 {
        assert(a + b =~= a);
        assert(all_filled(a) + all_filled(b) =~= all_filled(a));
    } else {
        lemma_filled_concat(a, b.drop_last());
        assert((a + b).drop_last() =~= a + b.drop_last());
        assert((a + b).last() == b.last());
        assert(all_filled(a + b) =~= all_filled(a) + all_filled(b));
    }
}

/// Tags and extra arguments are taken from the line that was typed: the tags from between
/// its commas, the arguments word by word unless the line is the one that was saved.
pub proof fn law_typed_lists(draft: ConnectionView, existing: ConnectionView, line: Seq<char>)
    ensures
        typed(Field::Tags, draft, existing, line) == (
            ConnectionView { tags: tags_in(text::trimmed(line)), ..draft },
            None::<Seq<char>>,
        ),
        typed(Field::ExtraSshArgs, draft, existing, line).1 is None,
        line != split::join(existing.extra_ssh_args, seq![' ']) && text::trimmed(line)
            != split::join(existing.extra_ssh_args, seq![' ']) ==> typed(
            Field::ExtraSshArgs,
            draft,
            existing,
            line,
        ).0.extra_ssh_args == split::words(text::trimmed(line)),
{
    reveal_strlit(" ");
    assert(" "@ =~= seq![' ']);
}

/// Each line of the menu shows the field that choosing it asks for, with what the draft
/// holds there; the two lines behind the fields save and discard. A draft that could never
/// connect is not saved.
pub proof fn law_menu(draft: ConnectionView, i: usize)
    requires
        i < 11,
    ensures
        menu(draft).len() == 11,
        i < 9 ==> form_step(draft, Some(i)) == FormStepView::Ask(field_order()[i as int]),
        i < 9 ==> field_order()[i as int].name_text().is_prefix_of(menu(draft)[i as int]),
        i < 9 ==> {
            let value = field_order()[i as int].shown_value(draft);
            let line = menu(draft)[i as int];
            line.len() >= value.len() && line.skip(line.len() - value.len()) == value
        },
        menu(draft)[9] == "Save changes"@,
        menu(draft)[10] == "Discard"@,
        i == 9 && ssh::fault(draft) is None ==> form_step(draft, Some(i)) is Save,
        i == 9 && ssh::fault(draft) is Some ==> form_step(draft, Some(i)) == FormStepView::Refuse(
            ssh::fault(draft)->0,
        ),
        i == 10 ==> form_step(draft, Some(i)) is Discard,
        form_step(draft, None) is Discard,
{
    if i < 9 {
        let f = field_order()[i as int];
        let line = menu(draft)[i as int];
        assert(line == menu_line(f, draft));
        text::law_padded(f.name_text(), 16);
        assert(f.name_text() =~= line.subrange(0, f.name_text().len() as int)) by {
            let p = text::padded(f.name_text(), 16);
            assert(f.name_text() == p.subrange(0, f.name_text().len() as int));
        }
        let value = f.shown_value(draft);
        assert(line.skip(line.len() - value.len()) =~= value);
    }
}

/// Every field is on the menu, once.
pub proof fn law_every_field_is_on_the_menu(field: Field)
    ensures
        exists|i: int| 0 <= i < 9 && #[trigger] field_order()[i] == field,
        field_order().len() == 9,
        forall|i: int, j: int|
            0 <= i < j < 9 ==> #[trigger] field_order()[i] != #[trigger] field_order()[j],
{
    let o = field_order();
    assert(o[0] == Field::Name && o[1] == Field::Host && o[2] == Field::User && o[3] == Field::Port
        && o[4] == Field::IdentityFile && o[5] == Field::JumpHost && o[6] == Field::Tags && o[7]
        == Field::ExtraSshArgs && o[8] == Field::Notes);
}

/// A field is shown as what it holds: a text as it is, a list with its separator between the
/// items, and a dash where there is nothing.
pub proof fn law_fields_are_shown(c: ConnectionView, field: Field)
    ensures
        Field::Name.line_of(c) == c.name,
        Field::Host.line_of(c) == c.host,
        c.user matches Some(user) ==> Field::User.line_of(c) == user,
        c.user is None ==> Field::User.line_of(c).len() == 0,
        c.identity_file matches Some(path) ==> Field::IdentityFile.line_of(c) == path,
        c.identity_file is None ==> Field::IdentityFile.line_of(c).len() == 0,
        c.jump_host matches Some(jump) ==> Field::JumpHost.line_of(c) == jump,
        c.jump_host is None ==> Field::JumpHost.line_of(c).len() == 0,
        c.notes matches Some(notes) ==> Field::Notes.line_of(c) == notes,
        c.notes is None ==> Field::Notes.line_of(c).len() == 0,
        Field::Port.line_of(c) == number::decimal(c.port as nat),
        Field::Tags.line_of(c) == split::join(c.tags, seq![',', ' ']),
        Field::ExtraSshArgs.line_of(c) == split::join(c.extra_ssh_args, seq![' ']),
        field.line_of(c).len() > 0 ==> field.shown_value(c) == field.line_of(c),
        field.line_of(c).len() == 0 ==> field.shown_value(c) == "—"@,
{
    reveal_strlit(" ");
    reveal_strlit(", ");
    assert(" "@ =~= seq![' ']);
    assert(", "@ =~= seq![',', ' ']);
}

/// Each field has a name of its own, and is asked for by it.
pub proof fn law_field_names(field: Field)
    ensures
        field.name_text() == match field {
            Field::Name => "Name"@,
            Field::Host => "Host"@,
            Field::User => "User"@,
            Field::Port => "Port"@,
            Field::IdentityFile => "Identity file"@,
            Field::JumpHost => "Jump host"@,
            Field::Tags => "Tags"@,
            Field::ExtraSshArgs => "Extra ssh args"@,
            Field::Notes => "Notes"@,
        },
        field.name_text().is_prefix_of(field.question()),
{
    reveal_strlit("Tags");
    reveal_strlit("Tags (comma separated)");
    reveal_strlit("Extra ssh args");
    reveal_strlit("Extra ssh args (space separated)");
    let n = field.name_text();
    assert(n =~= field.question().subrange(0, n.len() as int));
}

} // verus!
