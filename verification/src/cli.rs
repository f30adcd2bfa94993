//! Command-line surface: everything except the picker.

use crate::edit;
use crate::model;
use crate::model::{Connection, ConnectionView, Store};
use crate::number;
use crate::order;
use crate::picker;
use crate::setup::SetupArgs;
use crate::split;
use crate::ssh;
use crate::ssh::{FindSshError, SshError, SshErrorView};
use crate::table;
use crate::table::{TableRow, TableRowView};
use crate::text;
use crate::time::Timestamp;
use vstd::prelude::*;

pub use crate::bulk_import::import;
pub use crate::edit::edit_form;

verus! {

broadcast use text::lemma_texts_push;

// ---------------------------------------------------------------- arguments

#[derive(Debug)]
pub struct Cli {
    pub command: Command,
}

#[derive(Debug)]
pub enum Command {
    /// Save a new connection (interactive unless --name and --host are given)
    Add(AddArgs),
    /// List saved connections
    List(ListArgs),
    /// Change a saved connection
    Edit(EditArgs),
    /// Delete a saved connection
    Remove(RemoveArgs),
    /// Import Host entries from ~/.ssh/config
    Import(ImportArgs),
    /// Open the fuzzy picker (this is what the Herdr popup pane runs)
    Pick,
    /// Connect to a saved connection by id
    Connect(ConnectArgs),
    /// Print where connections.toml lives
    Where,
    /// Bind a key to the picker in Herdr's config
    Setup(SetupArgs),
    /// Ask Herdr to open the picker popup (bound to the open-picker action)
    OpenPicker,
    /// Ask Herdr to open the add popup (bound to the open-add action)
    OpenAdd,
}

/// The fields of a connection, as far as they were given.
#[derive(Debug)]
pub struct AddArgs {
    /// Label shown in the picker; also seeds the id
    pub name: Option<String>,
    /// Hostname or IP to connect to
    pub host: Option<String>,
    pub user: Option<String>,
    pub port: Option<u16>,
    /// Private key passed as `ssh -i`
    pub identity_file: Option<String>,
    /// Bastion passed as `ssh -J`
    pub jump_host: Option<String>,
    pub tags: Vec<String>,
    /// Extra flags appended verbatim to the ssh command
    pub extra_ssh_args: Vec<String>,
    pub notes: Option<String>,
}

/// The mathematical form of an [`AddArgs`].
#[verifier::ext_equal]
pub struct AddArgsView {
    pub name: Option<Seq<char>>,
    pub host: Option<Seq<char>>,
    pub user: Option<Seq<char>>,
    pub port: Option<u16>,
    pub identity_file: Option<Seq<char>>,
    pub jump_host: Option<Seq<char>>,
    pub tags: Seq<Seq<char>>,
    pub extra_ssh_args: Seq<Seq<char>>,
    pub notes: Option<Seq<char>>,
}

impl View for AddArgs {
    type V = AddArgsView;

    open spec fn view(&self) -> AddArgsView {
        AddArgsView {
            name: text::opt_text(self.name),
            host: text::opt_text(self.host),
            user: text::opt_text(self.user),
            port: self.port,
            identity_file: text::opt_text(self.identity_file),
            jump_host: text::opt_text(self.jump_host),
            tags: text::texts(self.tags@),
            extra_ssh_args: text::texts(self.extra_ssh_args@),
            notes: text::opt_text(self.notes),
        }
    }
}

impl Default for AddArgs {
    fn default() -> (r: Self)
        ensures
            r@ == (AddArgsView {
                name: None,
                host: None,
                user: None,
                port: None,
                identity_file: None,
                jump_host: None,
                tags: seq![],
                extra_ssh_args: seq![],
                notes: None,
            }),
    {
        let r = AddArgs {
            name: None,
            host: None,
            user: None,
            port: None,
            identity_file: None,
            jump_host: None,
            tags: Vec::new(),
            extra_ssh_args: Vec::new(),
            notes: None,
        };
        assert(r@.tags =~= seq![]);
        assert(r@.extra_ssh_args =~= seq![]);
        r
    }
}

#[derive(Debug)]
pub struct ListArgs {
    /// Emit JSON instead of a table
    pub json: bool,
}

#[derive(Debug)]
pub struct EditArgs {
    pub id: String,
    pub fields: AddArgs,
}

#[derive(Debug)]
pub struct RemoveArgs {
    pub id: String,
    /// Skip the confirmation prompt
    pub yes: bool,
}

#[derive(Debug)]
pub struct ImportArgs {
    /// Read from this file instead of ~/.ssh/config
    pub path: Option<String>,
    /// Show what would be imported and exit
    pub dry_run: bool,
    /// Import everything without prompting
    pub yes: bool,
}

#[derive(Debug)]
pub struct ConnectArgs {
    pub id: String,
    /// Print the ssh command instead of running it
    pub print: bool,
}

// ---------------------------------------------------------------- errors

/// Why a command cannot do what it is asked.
#[derive(Debug, PartialEq, Eq)]
pub enum CliError {
    EmptyName,
    EmptyHost,
    /// `known` are the ids that there are, in order.
    UnknownId { id: String, known: Vec<String> },
    Ssh(SshError),
    FindSsh(FindSshError),
}

/// The mathematical form of a [`CliError`].
pub enum CliErrorView {
    EmptyName,
    EmptyHost,
    UnknownId { id: Seq<char>, known: Seq<Seq<char>> },
    Ssh(SshErrorView),
    FindSsh(FindSshError),
}

impl View for CliError {
    type V = CliErrorView;

    open spec fn view(&self) -> CliErrorView {
        match self {
            CliError::EmptyName => CliErrorView::EmptyName,
            CliError::EmptyHost => CliErrorView::EmptyHost,
            CliError::UnknownId { id, known } => CliErrorView::UnknownId {
                id: id@,
                known: text::texts(known@),
            },
            CliError::Ssh(e) => CliErrorView::Ssh(e@),
            CliError::FindSsh(e) => CliErrorView::FindSsh(*e),
        }
    }
}

impl CliErrorView {
    pub open spec fn text(self) -> Seq<char> {
        match self {
            CliErrorView::EmptyName => "--name must not be empty"@,
            CliErrorView::EmptyHost => "--host must not be empty"@,
            CliErrorView::UnknownId { id, known } => if known.len() == 0 {
                "no connection `"@ + id + "`: the store is empty"@
            } else {
                "no connection `"@ + id + "`. Known ids: "@ + split::join(known, ", "@)
            },
            CliErrorView::Ssh(e) => e.text(),
            CliErrorView::FindSsh(e) => e.text(),
        }
    }
}

impl CliError {
    /// What to tell the user.
    pub fn message(&self) -> (r: String)
        ensures
            r@ == self@.text(),
    {
        match self {
            CliError::EmptyName => "--name must not be empty".to_string(),
            CliError::EmptyHost => "--host must not be empty".to_string(),
            CliError::UnknownId { id, known } => {
                let mut s = text::concat2("no connection `", id.as_str());
                if known.len() == 0 {
                    s.append("`: the store is empty");
                } else {
                    s.append("`. Known ids: ");
                    s.append(split::join_texts(known, ", ").as_str());
                }
                s
            },
            CliError::Ssh(e) => e.message(),
            CliError::FindSsh(e) => e.message(),
        }
    }
}

/// Do two results hold the same connection, or the same error?
pub open spec fn same_connection(
    r: Result<Connection, CliError>,
    expected: Result<ConnectionView, CliErrorView>,
) -> bool {
    match (r, expected) {
        (Ok(c), Ok(e)) => c@ == e,
        (Err(error), Err(e)) => error@ == e,
        _ => false,
    }
}

/// The ids of the entries.
pub open spec fn ids(all: Seq<ConnectionView>) -> Seq<Seq<char>> {
    Seq::new(all.len(), |i: int| all[i].id)
}

/// What is said of an id that no entry holds.
pub open spec fn unknown(all: Seq<ConnectionView>, id: Seq<char>) -> CliErrorView {
    CliErrorView::UnknownId { id, known: order::sorted(ids(all)) }
}

/// Suggest near matches so a typo does not read as "your data is gone".
pub fn unknown_id(store: &Store, id: &str) -> (r: CliError)
    ensures
        r@ == unknown(store@, id@),
{
    let mut known: Vec<String> = Vec::new();
    let ghost all = ids(store@);
    let mut i: usize = 0;
    assert(text::texts(known@) =~= all.take(0));
    while i < store.connections.len()
        invariant
            i <= store.connections@.len(),
            all == ids(store@),
            text::texts(known@) == all.take(i as int),
        decreases store.connections@.len() - i,
    {
        known.push(store.connections[i].id.clone());
        assert(all.take(i + 1) =~= all.take(i as int).push(all[i as int]));
        i = i + 1;
    }
    assert(all.take(i as int) =~= all);
    CliError::UnknownId { id: id.to_string(), known: order::sort(&known) }
}

// ---------------------------------------------------------------- add

/// The parts of `existing` that an edit must not disturb, with the rest of `updated`.
pub open spec fn carried_over(updated: ConnectionView, existing: ConnectionView) -> ConnectionView {
    ConnectionView {
        id: existing.id,
        last_connected_at: existing.last_connected_at,
        ..updated
    }
}

/// Carry over the parts of an entry that an edit must not disturb.
///
/// The id is the user's handle for this connection — scripts and `connect <id>` use it — so
/// renaming must not invalidate it. The timestamp is history, not something being edited.
pub fn carry_over_identity(updated: &mut Connection, existing: &Connection)
    ensures
        final(updated)@ == carried_over(old(updated)@, existing@),
{
    updated.id = existing.id.clone();
    updated.last_connected_at = existing.last_connected_at;
}

/// The optional fields, where they were given.
pub open spec fn overridden(c: ConnectionView, args: AddArgsView) -> ConnectionView {
    ConnectionView {
        user: match args.user {
            Some(v) => ssh::filled(Some(v)),
            None => c.user,
        },
        port: match args.port {
            Some(p) => p,
            None => c.port,
        },
        identity_file: match args.identity_file {
            Some(v) => ssh::filled(Some(v)),
            None => c.identity_file,
        },
        jump_host: match args.jump_host {
            Some(v) => ssh::filled(Some(v)),
            None => c.jump_host,
        },
        notes: match args.notes {
            Some(v) => ssh::filled(Some(v)),
            None => c.notes,
        },
        ..c
    }
}

/// A connection that can be turned into a command line.
pub open spec fn usable(c: ConnectionView) -> Result<ConnectionView, CliErrorView> {
    match ssh::fault(c) {
        None => Ok(c),
        Some(f) => Err(CliErrorView::Ssh(f)),
    }
}

/// The connection that the flags describe.
pub open spec fn flagged(args: AddArgsView) -> Result<ConnectionView, CliErrorView> {
    let name = edit::or_empty(args.name);
    let host = edit::or_empty(args.host);
    if text::is_blank(name) {
        Err(CliErrorView::EmptyName)
    } else if text::is_blank(host) {
        Err(CliErrorView::EmptyHost)
    } else {
        let c = ConnectionView::plain(text::trimmed(name), text::trimmed(host));
        usable(
            ConnectionView {
                tags: args.tags,
                extra_ssh_args: args.extra_ssh_args,
                ..overridden(c, args)
            },
        )
    }
}

fn given_or(value: &Option<String>, otherwise: Option<String>) -> (r: Option<String>)
    ensures
        text::opt_text(r) == match text::opt_text(*value) {
            Some(v) => ssh::filled(Some(v)),
            None => text::opt_text(otherwise),
        },
{
    match value {
        Some(v) => edit::blank_to_none(v.as_str()),
        None => otherwise,
    }
}

/// Take over the optional fields that were given.
pub fn apply_overrides(conn: Connection, args: &AddArgs) -> (r: Connection)
    ensures
        r@ == overridden(conn@, args@),
{
    Connection {
        user: given_or(&args.user, conn.user),
        port: match args.port {
            Some(p) => p,
            None => conn.port,
        },
        identity_file: given_or(&args.identity_file, conn.identity_file),
        jump_host: given_or(&args.jump_host, conn.jump_host),
        notes: given_or(&args.notes, conn.notes),
        id: conn.id,
        name: conn.name,
        host: conn.host,
        tags: conn.tags,
        extra_ssh_args: conn.extra_ssh_args,
        last_connected_at: conn.last_connected_at,
    }
}

/// Surface a bad host now rather than at connect time.
fn checked(conn: Connection) -> (r: Result<Connection, CliError>)
    ensures
        same_connection(r, usable(conn@)),
{
    match ssh::validate(&conn) {
        Ok(()) => Ok(conn),
        Err(e) => Err(CliError::Ssh(e)),
    }
}

/// Were enough flags given to do without a form?
pub fn has_name_and_host(args: &AddArgs) -> (r: bool)
    ensures
        r == (args@.name is Some && args@.host is Some),
{
    args.name.is_some() && args.host.is_some()
}

/// The connection that the flags describe.
pub fn from_flags(args: AddArgs) -> (r: Result<Connection, CliError>)
    ensures
        same_connection(r, flagged(args@)),
{
    let name = match &args.name {
        Some(s) => text::trim(s.as_str()),
        None => String::new(),
    };
    let host = match &args.host {
        Some(s) => text::trim(s.as_str()),
        None => String::new(),
    };
    assert(name@ =~= text::trimmed(edit::or_empty(args@.name)));
    assert(host@ =~= text::trimmed(edit::or_empty(args@.host)));
    if name.as_str().is_empty() {
        return Err(CliError::EmptyName);
    }
    if host.as_str().is_empty() {
        return Err(CliError::EmptyHost);
    }
    let mut conn = apply_overrides(Connection::new(name.as_str(), host.as_str()), &args);
    conn.tags = args.tags;
    conn.extra_ssh_args = args.extra_ssh_args;
    checked(conn)
}

/// A verb, an id and the command that the entry resolves to.
pub open spec fn report(verb: Seq<char>, c: ConnectionView, home: Option<Seq<char>>) -> Seq<char> {
    verb + " `"@ + c.id + "` — "@ + ssh::shown_command(ssh::ssh_args(c, home))
}

fn report_line(verb: &str, conn: &Connection, home: &Option<String>) -> (r: Result<
    String,
    SshError,
>)
    ensures
        match (r, ssh::fault(conn@)) {
            (Ok(line), None) => line@ == report(verb@, conn@, text::opt_text(*home)),
            (Err(e), Some(f)) => e@ == f,
            _ => false,
        },
{
    match ssh::command_line(conn, home) {
        Ok(command) => {
            let mut s = text::concat3(verb, " `", conn.id.as_str());
            s.append("` — ");
            s.append(command.as_str());
            Ok(s)
        },
        Err(e) => Err(e),
    }
}

/// What to say once a connection is saved.
pub fn saved_line(conn: &Connection, home: &Option<String>) -> (r: Result<String, SshError>)
    ensures
        match (r, ssh::fault(conn@)) {
            (Ok(line), None) => line@ == report("Saved"@, conn@, text::opt_text(*home)),
            (Err(e), Some(f)) => e@ == f,
            _ => false,
        },
{
    report_line("Saved", conn, home)
}

// ---------------------------------------------------------------- the form for a new entry

/// One question of the form.
#[derive(Debug, PartialEq, Eq)]
pub struct Prompt {
    pub message: String,
    /// Taken where nothing is typed.
    pub default: Option<String>,
    pub required: bool,
}

/// The mathematical form of a [`Prompt`].
#[verifier::ext_equal]
pub struct PromptView {
    pub message: Seq<char>,
    pub default: Option<Seq<char>>,
    pub required: bool,
}

impl View for Prompt {
    type V = PromptView;

    open spec fn view(&self) -> PromptView {
        PromptView {
            message: self.message@,
            default: text::opt_text(self.default),
            required: self.required,
        }
    }
}

pub open spec fn prompt_views(v: Seq<Prompt>) -> Seq<PromptView> {
    Seq::new(v.len(), |i: int| v[i]@)
}

/// A question; an empty default is none.
pub open spec fn asked(message: Seq<char>, default: Option<Seq<char>>, required: bool) -> PromptView {
    PromptView {
        message,
        default: match default {
            Some(d) => if d.len() == 0 {
                None
            } else {
                Some(d)
            },
            None => None,
        },
        required,
    }
}

/// The questions of the form, in order.
pub open spec fn questions(defaults: AddArgsView) -> Seq<PromptView> {
    let port = match defaults.port {
        Some(p) => p,
        None => 22,
    };
    seq![
        asked("Name"@, defaults.name, true),
        asked("Host"@, defaults.host, true),
        asked("User (optional)"@, defaults.user, false),
        asked("Port"@, Some(number::decimal(port as nat)), false),
        asked("Identity file (optional, e.g. ~/.ssh/id_ed25519)"@, defaults.identity_file, false),
        asked("Jump host / ProxyJump (optional)"@, defaults.jump_host, false),
        asked(
            "Tags (comma separated, optional)"@,
            Some(split::join(defaults.tags, ", "@)),
            false,
        ),
        asked("Notes (optional)"@, defaults.notes, false),
    ]
}

fn ask(message: &str, default: Option<String>, required: bool) -> (r: Prompt)
    ensures
        r@ == asked(message@, text::opt_text(default), required),
{
    let default = match default {
        Some(d) => if d.as_str().is_empty() {
            None
        } else {
            Some(d)
        },
        None => None,
    };
    Prompt { message: message.to_string(), default, required }
}

/// The questions of the form, in order.
pub fn prompts(defaults: &AddArgs) -> (r: Vec<Prompt>)
    ensures
        prompt_views(r@) == questions(defaults@),
{
    let port: u16 = match defaults.port {
        Some(p) => p,
        None => 22,
    };
    let mut out: Vec<Prompt> = Vec::new();
    out.push(ask("Name", text::copy_opt(&defaults.name), true));
    out.push(ask("Host", text::copy_opt(&defaults.host), true));
    out.push(ask("User (optional)", text::copy_opt(&defaults.user), false));
    out.push(ask("Port", Some(number::to_decimal(port as u128)), false));
    out.push(
        ask(
            "Identity file (optional, e.g. ~/.ssh/id_ed25519)",
            text::copy_opt(&defaults.identity_file),
            false,
        ),
    );
    out.push(
        ask("Jump host / ProxyJump (optional)", text::copy_opt(&defaults.jump_host), false),
    );
    out.push(
        ask(
            "Tags (comma separated, optional)",
            Some(split::join_texts(&defaults.tags, ", ")),
            false,
        ),
    );
    out.push(ask("Notes (optional)", text::copy_opt(&defaults.notes), false));
    assert(prompt_views(out@) =~= questions(defaults@));
    out
}

/// The complaint about an answer that has to be given again, if it has.
pub fn prompt_text(prompt: &Prompt, answer: &str) -> (r: Option<String>)
    ensures
        text::opt_text(r) == (if prompt.required && text::is_blank(answer@) {
            Some("  "@ + prompt@.message + " is required"@)
        } else {
            None
        }),
{
    if prompt.required && text::blank(answer) {
        Some(text::concat3("  ", prompt.message.as_str(), " is required"))
    } else {
        None
    }
}

/// The port that was typed; 22 where nothing was, and nothing where it is not one.
pub open spec fn port_typed(answer: Seq<char>) -> Option<u16> {
    if text::is_blank(answer) {
        Some(22)
    } else {
        edit::usable_port(text::trimmed(answer))
    }
}

/// The port that was typed; 22 where nothing was, and nothing where it is not one.
pub fn port_answer(answer: &str) -> (r: Option<u16>)
    ensures
        r == port_typed(answer@),
{
    let value = text::trim(answer);
    if value.as_str().is_empty() {
        Some(22)
    } else {
        edit::parse_port(value.as_str())
    }
}

/// What was answered to the questions of the form.
#[derive(Debug)]
pub struct Answers {
    pub name: String,
    pub host: String,
    pub user: String,
    pub port: u16,
    pub identity_file: String,
    pub jump_host: String,
    pub tags: String,
    pub notes: String,
}

/// The connection that the answers describe.
pub open spec fn filled_in(a: Answers, extra_ssh_args: Seq<Seq<char>>) -> ConnectionView {
    ConnectionView {
        user: ssh::filled(Some(a.user@)),
        port: a.port,
        identity_file: ssh::filled(Some(a.identity_file@)),
        jump_host: ssh::filled(Some(a.jump_host@)),
        tags: edit::tags_in(a.tags@),
        extra_ssh_args,
        notes: ssh::filled(Some(a.notes@)),
        ..ConnectionView::plain(text::trimmed(a.name@), text::trimmed(a.host@))
    }
}

/// The connection that the answers to the interactive form describe, used by `add` and by
/// Ctrl-A inside the picker.
pub fn prompt_for_connection(answers: &Answers, extra_ssh_args: Vec<String>) -> (r: Result<
    Connection,
    CliError,
>)
    ensures
        same_connection(r, usable(filled_in(*answers, text::texts(extra_ssh_args@)))),
{
    let name = text::trim(answers.name.as_str());
    let host = text::trim(answers.host.as_str());
    let mut conn = Connection::new(name.as_str(), host.as_str());
    conn.user = edit::blank_to_none(answers.user.as_str());
    conn.port = answers.port;
    conn.identity_file = edit::blank_to_none(answers.identity_file.as_str());
    conn.jump_host = edit::blank_to_none(answers.jump_host.as_str());
    conn.tags = edit::split_tags(answers.tags.as_str());
    conn.extra_ssh_args = extra_ssh_args;
    conn.notes = edit::blank_to_none(answers.notes.as_str());
    checked(conn)
}

// ---------------------------------------------------------------- list

/// The cells for one entry.
pub open spec fn cells(c: ConnectionView, now: (int, int)) -> TableRowView {
    TableRowView {
        id: c.id,
        name: c.name,
        destination: c.destination(),
        last_used: match c.last_connected_at {
            Some(ts) => picker::age_at(now, ts),
            None => "never"@,
        },
    }
}

/// What `list` prints at the time `now`.
pub open spec fn listing(all: Seq<ConnectionView>, now: (int, int)) -> Seq<Seq<char>> {
    if all.len() == 0 {
        seq![
            "No saved connections yet."@,
            "Add one with `herdr-ssh-manager add`, or import your ssh config with `herdr-ssh-manager import`."@,
        ]
    } else {
        table::table(model::by_recency(all).map_values(|c: ConnectionView| cells(c, now)))
    }
}

/// What `list` prints at the time `now`; nothing of this when JSON is asked for.
pub fn list(args: &ListArgs, store: &Store, now: &Timestamp) -> (r: Option<Vec<String>>)
    ensures
        match r {
            None => args.json,
            Some(lines) => !args.json && text::texts(lines@) == listing(store@, now@),
        },
{
    if args.json {
        return None;
    }
    if store.connections.len() == 0 {
        let mut out: Vec<String> = Vec::new();
        out.push("No saved connections yet.".to_string());
        out.push(
            "Add one with `herdr-ssh-manager add`, or import your ssh config with `herdr-ssh-manager import`.".to_string(),
        );
        assert(text::texts(out@) =~= listing(store@, now@));
        return Some(out);
    }
    let entries = store.sorted_by_recency();
    let ghost expected = model::by_recency(store@).map_values(|c: ConnectionView| cells(c, now@));
    let mut rows: Vec<TableRow> = Vec::new();
    let mut i: usize = 0;
    assert(table::row_views(rows@) =~= expected.take(0));
    while i < entries.len()
        invariant
            i <= entries@.len(),
            model::ref_views(entries@) == model::by_recency(store@),
            expected == model::by_recency(store@).map_values(|c: ConnectionView| cells(c, now@)),
            table::row_views(rows@) == expected.take(i as int),
        decreases entries@.len() - i,
    {
        let c = entries[i];
        let ghost before = rows@;
        rows.push(
            TableRow {
                id: c.id.clone(),
                name: c.name.clone(),
                destination: c.destination(),
                last_used: match &c.last_connected_at {
                    Some(ts) => picker::humanize_at(now, ts),
                    None => "never".to_string(),
                },
            },
        );
        proof {
            assert(table::row_views(before).len() == before.len());
            assert(model::ref_views(entries@)[i as int] == c@);
            assert(rows@[i as int]@ == expected[i as int]);
            assert(table::row_views(rows@) =~= table::row_views(before).push(expected[i as int]));
            assert(expected.take(i + 1) =~= expected.take(i as int).push(expected[i as int]));
        }
        i = i + 1;
    }
    assert(expected.take(i as int) =~= expected);
    Some(table::format_table(&rows))
}

// ---------------------------------------------------------------- edit

/// Was any field given?
pub open spec fn any_given(f: AddArgsView) -> bool {
    f.name is Some || f.host is Some || f.user is Some || f.port is Some || f.identity_file is Some
        || f.jump_host is Some || f.notes is Some || f.tags.len() > 0 || f.extra_ssh_args.len() > 0
}

/// The entry with the fields that were given, and the others as they are.
pub open spec fn flag_edited(existing: ConnectionView, f: AddArgsView) -> Result<
    ConnectionView,
    CliErrorView,
> {
    if f.name is Some && text::is_blank(f.name->0) {
        Err(CliErrorView::EmptyName)
    } else if f.host is Some && text::is_blank(f.host->0) {
        Err(CliErrorView::EmptyHost)
    } else {
        let c = ConnectionView {
            name: match f.name {
                Some(name) => text::trimmed(name),
                None => existing.name,
            },
            host: match f.host {
                Some(host) => text::trimmed(host),
                None => existing.host,
            },
            tags: if f.tags.len() > 0 {
                f.tags
            } else {
                existing.tags
            },
            extra_ssh_args: if f.extra_ssh_args.len() > 0 {
                f.extra_ssh_args
            } else {
                existing.extra_ssh_args
            },
            ..existing
        };
        usable(overridden(c, f))
    }
}

/// How an edit goes on.
#[derive(Debug)]
pub enum EditStep {
    /// Save this in place of the entry.
    Replace { existing: Connection, updated: Connection },
    /// Show the form for the entry.
    Form { existing: Connection },
}

/// The mathematical form of an [`EditStep`].
pub enum EditStepView {
    Replace { existing: ConnectionView, updated: ConnectionView },
    Form { existing: ConnectionView },
}

impl View for EditStep {
    type V = EditStepView;

    open spec fn view(&self) -> EditStepView {
        match self {
            EditStep::Replace { existing, updated } => EditStepView::Replace {
                existing: existing@,
                updated: updated@,
            },
            EditStep::Form { existing } => EditStepView::Form { existing: existing@ },
        }
    }
}

/// What `edit` comes to.
pub open spec fn edit_step(all: Seq<ConnectionView>, id: Seq<char>, f: AddArgsView) -> Result<
    EditStepView,
    CliErrorView,
> {
    match model::position(all, id) {
        None => Err(unknown(all, id)),
        Some(i) => if any_given(f) {
            match flag_edited(all[i], f) {
                Ok(updated) => Ok(EditStepView::Replace { existing: all[i], updated }),
                Err(e) => Err(e),
            }
        } else {
            Ok(EditStepView::Form { existing: all[i] })
        },
    }
}

/// The entry with the fields that were given, and the others as they are.
pub fn edit_with_flags(existing: &Connection, f: &AddArgs) -> (r: Result<Connection, CliError>)
    ensures
        same_connection(r, flag_edited(existing@, f@)),
{
    let mut c = existing.clone();
    if let Some(name) = &f.name {
        let name = text::trim(name.as_str());
        if name.as_str().is_empty() {
            return Err(CliError::EmptyName);
        }
        c.name = name;
    }
    if let Some(host) = &f.host {
        let host = text::trim(host.as_str());
        if host.as_str().is_empty() {
            return Err(CliError::EmptyHost);
        }
        c.host = host;
    }
    if f.tags.len() > 0 {
        c.tags = text::copy_list(&f.tags);
    }
    if f.extra_ssh_args.len() > 0 {
        c.extra_ssh_args = text::copy_list(&f.extra_ssh_args);
    }
    checked(apply_overrides(c, f))
}

/// What `edit` comes to: the fields that were given are changed at once, and where none
/// was, the form is shown.
pub fn edit(store: &Store, args: &EditArgs) -> (r: Result<EditStep, CliError>)
    ensures
        match (r, edit_step(store@, args.id@, args.fields@)) {
            (Ok(step), Ok(expected)) => step@ == expected,
            (Err(e), Err(expected)) => e@ == expected,
            _ => false,
        },
{
    let existing = match store.get(args.id.as_str()) {
        Some(c) => c.clone(),
        None => {
            return Err(unknown_id(store, args.id.as_str()));
        },
    };
    let f = &args.fields;
    let any_flag = f.name.is_some() || f.host.is_some() || f.user.is_some() || f.port.is_some()
        || f.identity_file.is_some() || f.jump_host.is_some() || f.notes.is_some() || f.tags.len()
        > 0 || f.extra_ssh_args.len() > 0;
    if !any_flag {
        return Ok(EditStep::Form { existing });
    }
    match edit_with_flags(&existing, f) {
        Ok(updated) => Ok(EditStep::Replace { existing, updated }),
        Err(e) => Err(e),
    }
}

/// The entries once `updated` has taken the place of `existing`.
pub open spec fn replaced(
    all: Seq<ConnectionView>,
    existing: ConnectionView,
    updated: ConnectionView,
) -> Seq<ConnectionView> {
    match model::position(all, existing.id) {
        Some(i) => all.update(i, carried_over(updated, existing)),
        None => all,
    }
}

/// Put `updated` in the place of `existing`, whose id and history it takes over.
pub fn commit_edit(store: &mut Store, existing: &Connection, updated: Connection)
    ensures
        final(store)@ == replaced(old(store)@, existing@, updated@),
{
    let mut updated = updated;
    carry_over_identity(&mut updated, existing);
    if let Some(i) = store.index_of(existing.id.as_str()) {
        let ghost before = store@;
        store.connections.set(i, updated);
        assert(store@ =~= before.update(i as int, updated@));
    }
}

/// What to say once an entry is changed.
pub fn updated_line(conn: &Connection, home: &Option<String>) -> (r: Result<String, SshError>)
    ensures
        match (r, ssh::fault(conn@)) {
            (Ok(line), None) => line@ == report("Updated"@, conn@, text::opt_text(*home)),
            (Err(e), Some(f)) => e@ == f,
            _ => false,
        },
{
    report_line("Updated", conn, home)
}

/// What to say when an edit was discarded.
pub fn unchanged_line(id: &str) -> (r: String)
    ensures
        r@ == "No changes to `"@ + id@ + "`."@,
{
    text::concat3("No changes to `", id, "`.")
}

// ---------------------------------------------------------------- remove

/// What to ask before `c` is deleted.
pub open spec fn delete_question(c: ConnectionView) -> Seq<char> {
    "Delete `"@ + c.id + "` ("@ + c.destination() + ")?"@
}

/// What `remove` asks before it deletes the entry with the id.
pub open spec fn remove_step(all: Seq<ConnectionView>, id: Seq<char>, yes: bool) -> Result<
    Option<Seq<char>>,
    CliErrorView,
> {
    match model::position(all, id) {
        None => Err(unknown(all, id)),
        Some(i) => if yes {
            Ok(None)
        } else {
            Ok(Some(delete_question(all[i])))
        },
    }
}

/// What has to be confirmed before the entry is deleted; nothing when that is not wanted.
pub fn remove(store: &Store, args: &RemoveArgs) -> (r: Result<Option<String>, CliError>)
    ensures
        match (r, remove_step(store@, args.id@, args.yes)) {
            (Ok(question), Ok(expected)) => text::opt_text(question) == expected,
            (Err(e), Err(expected)) => e@ == expected,
            _ => false,
        },
        match (r, model::position(store@, args.id@)) {
            (Ok(question), Some(i)) => text::opt_text(question) == (if args.yes {
                None
            } else {
                Some(delete_question(store@[i]))
            }),
            (Err(e), None) => e@ == unknown(store@, args.id@),
            _ => false,
        },
{
    match store.get(args.id.as_str()) {
        Some(target) => if args.yes {
            Ok(None)
        } else {
            let mut s = text::concat3("Delete `", target.id.as_str(), "` (");
            s.append(target.destination().as_str());
            s.append(")?");
            Ok(Some(s))
        },
        None => Err(unknown_id(store, args.id.as_str())),
    }
}

/// What to say when an entry stays.
pub fn kept_line(id: &str) -> (r: String)
    ensures
        r@ == "Kept `"@ + id@ + "`."@,
{
    text::concat3("Kept `", id, "`.")
}

/// What to say once an entry is gone.
pub fn deleted_line(id: &str) -> (r: String)
    ensures
        r@ == "Deleted `"@ + id@ + "`."@,
{
    text::concat3("Deleted `", id, "`.")
}

// ---------------------------------------------------------------- connect

/// How a connect goes on.
#[derive(Debug)]
pub enum ConnectStep {
    /// Print this command.
    Print(String),
    /// Run ssh for this entry.
    Run(Connection),
}

/// Why no session can be started for an entry, if none can.
pub open spec fn obstacle(ssh_missing: Option<FindSshError>, c: ConnectionView) -> Option<
    CliErrorView,
> {
    match (ssh_missing, ssh::fault(c)) {
        (Some(e), _) => Some(CliErrorView::FindSsh(e)),
        (None, Some(f)) => Some(CliErrorView::Ssh(f)),
        (None, None) => None,
    }
}

/// Fail before touching the store if ssh or the entry is unusable. `ssh_missing` says that
/// no ssh client was found.
pub fn check_connect(ssh_missing: Option<FindSshError>, conn: &Connection) -> (r: Result<
    (),
    CliError,
>)
    ensures
        match (r, obstacle(ssh_missing, conn@)) {
            (Ok(()), None) => true,
            (Err(e), Some(expected)) => e@ == expected,
            _ => false,
        },
{
    if let Some(e) = ssh_missing {
        return Err(CliError::FindSsh(e));
    }
    match ssh::validate(conn) {
        Ok(()) => Ok(()),
        Err(e) => Err(CliError::Ssh(e)),
    }
}

/// The mathematical form of a [`ConnectStep`].
pub enum ConnectStepView {
    Print(Seq<char>),
    Run(ConnectionView),
}

impl View for ConnectStep {
    type V = ConnectStepView;

    open spec fn view(&self) -> ConnectStepView {
        match self {
            ConnectStep::Print(line) => ConnectStepView::Print(line@),
            ConnectStep::Run(c) => ConnectStepView::Run(c@),
        }
    }
}

/// What `connect` comes to.
pub open spec fn connect_step(
    all: Seq<ConnectionView>,
    id: Seq<char>,
    print: bool,
    home: Option<Seq<char>>,
) -> Result<ConnectStepView, CliErrorView> {
    match model::position(all, id) {
        None => Err(unknown(all, id)),
        Some(i) => if !print {
            Ok(ConnectStepView::Run(all[i]))
        } else {
            match ssh::fault(all[i]) {
                None => Ok(
                    ConnectStepView::Print(ssh::shown_command(ssh::ssh_args(all[i], home))),
                ),
                Some(f) => Err(CliErrorView::Ssh(f)),
            }
        },
    }
}

/// What `connect` comes to.
pub fn connect(store: &Store, args: &ConnectArgs, home: &Option<String>) -> (r: Result<
    ConnectStep,
    CliError,
>)
    ensures
        match (r, connect_step(store@, args.id@, args.print, text::opt_text(*home))) {
            (Ok(step), Ok(expected)) => step@ == expected,
            (Err(e), Err(expected)) => e@ == expected,
            _ => false,
        },
        match model::position(store@, args.id@) {
            None => r matches Err(e) && e@ == unknown(store@, args.id@),
            Some(i) => if !args.print {
                r matches Ok(ConnectStep::Run(c)) && c@ == store@[i]
            } else {
                match ssh::fault(store@[i]) {
                    None => r matches Ok(ConnectStep::Print(line)) && line@ == ssh::shown_command(
                        ssh::ssh_args(store@[i], text::opt_text(*home)),
                    ),
                    Some(f) => r matches Err(e) && e@ == CliErrorView::Ssh(f),
                }
            },
        },
{
    let conn = match store.get(args.id.as_str()) {
        Some(c) => c.clone(),
        None => {
            return Err(unknown_id(store, args.id.as_str()));
        },
    };
    if !args.print {
        return Ok(ConnectStep::Run(conn));
    }
    match ssh::command_line(&conn, home) {
        Ok(line) => Ok(ConnectStep::Print(line)),
        Err(e) => Err(CliError::Ssh(e)),
    }
}

/// What to say when the time of a connection could not be saved. It is not fatal:
/// connecting matters more than the timestamp.
pub fn unrecorded_warning(cause: &str) -> (r: String)
    ensures
        r@ == "could not record the connection time: "@ + cause@,
{
    text::concat2("could not record the connection time: ", cause)
}

// ---------------------------------------------------------------- popup launchers

/// Why a popup pane could not be opened.
#[derive(Debug, PartialEq, Eq)]
pub enum OpenPaneError {
    NoBinPath,
    NotRun { bin: String, cause: String },
    /// Herdr ended with this status.
    Failed { entrypoint: String, status: String },
}

/// The mathematical form of an [`OpenPaneError`].
pub enum OpenPaneErrorView {
    NoBinPath,
    NotRun { bin: Seq<char>, cause: Seq<char> },
    Failed { entrypoint: Seq<char>, status: Seq<char> },
}

impl View for OpenPaneError {
    type V = OpenPaneErrorView;

    open spec fn view(&self) -> OpenPaneErrorView {
        match self {
            OpenPaneError::NoBinPath => OpenPaneErrorView::NoBinPath,
            OpenPaneError::NotRun { bin, cause } => OpenPaneErrorView::NotRun {
                bin: bin@,
                cause: cause@,
            },
            OpenPaneError::Failed { entrypoint, status } => OpenPaneErrorView::Failed {
                entrypoint: entrypoint@,
                status: status@,
            },
        }
    }
}

impl OpenPaneErrorView {
    pub open spec fn text(self) -> Seq<char> {
        match self {
            OpenPaneErrorView::NoBinPath => {
                "HERDR_BIN_PATH is not set. This subcommand is meant to be run by Herdr as a \
         plugin action; from a shell, run `herdr-ssh-manager pick` directly instead."@
            },
            OpenPaneErrorView::NotRun { bin, cause } => "could not run "@ + bin + ": "@ + cause,
            OpenPaneErrorView::Failed { entrypoint, status } => {
                "`herdr plugin pane open --entrypoint "@ + entrypoint + "` failed with "@ + status
            },
        }
    }
}

impl OpenPaneError {
    /// What to tell the user.
    pub fn message(&self) -> (r: String)
        ensures
            r@ == self@.text(),
    {
        match self {
            OpenPaneError::NoBinPath => {
                "HERDR_BIN_PATH is not set. This subcommand is meant to be run by Herdr as a \
         plugin action; from a shell, run `herdr-ssh-manager pick` directly instead.".to_string()
            },
            OpenPaneError::NotRun { bin, cause } => {
                let mut s = text::concat3("could not run ", bin.as_str(), ": ");
                s.append(cause.as_str());
                s
            },
            OpenPaneError::Failed { entrypoint, status } => {
                let mut s = text::concat3(
                    "`herdr plugin pane open --entrypoint ",
                    entrypoint.as_str(),
                    "` failed with ",
                );
                s.append(status.as_str());
                s
            },
        }
    }
}

/// A program and what to call it with.
#[derive(Debug, PartialEq, Eq)]
pub struct Invocation {
    pub program: String,
    pub args: Vec<String>,
}

/// The arguments that ask Herdr to open a popup pane.
pub open spec fn open_pane_call(entrypoint: Seq<char>) -> Seq<Seq<char>> {
    seq![
        "plugin"@,
        "pane"@,
        "open"@,
        "--plugin"@,
        "herdr-ssh-manager"@,
        "--entrypoint"@,
        entrypoint,
        "--placement"@,
        "popup"@,
    ]
}

/// Ask Herdr to open one of the popup panes declared in herdr-plugin.toml. `bin` is the
/// value of `HERDR_BIN_PATH`.
pub fn open_pane(bin: &Option<String>, entrypoint: &str) -> (r: Result<Invocation, OpenPaneError>)
    ensures
        match (r, text::opt_text(*bin)) {
            (Ok(call), Some(b)) => b.len() > 0 && call.program@ == b && text::texts(call.args@)
                == open_pane_call(entrypoint@),
            (Err(e), Some(b)) => b.len() == 0 && e@ == OpenPaneErrorView::NoBinPath,
            (Err(e), None) => e@ == OpenPaneErrorView::NoBinPath,
            (Ok(_), None) => false,
        },
{
    let program = match bin {
        Some(b) => if b.as_str().is_empty() {
            return Err(OpenPaneError::NoBinPath);
        } else {
            b.clone()
        },
        None => {
            return Err(OpenPaneError::NoBinPath);
        },
    };
    let mut args: Vec<String> = Vec::new();
    args.push("plugin".to_string());
    args.push("pane".to_string());
    args.push("open".to_string());
    args.push("--plugin".to_string());
    args.push("herdr-ssh-manager".to_string());
    args.push("--entrypoint".to_string());
    args.push(entrypoint.to_string());
    args.push("--placement".to_string());
    args.push("popup".to_string());
    assert(text::texts(args@) =~= open_pane_call(entrypoint@));
    Ok(Invocation { program, args })
}

/// True when Herdr launched us as one of the declared popup panes. `entrypoint` is the
/// value of `HERDR_PLUGIN_ENTRYPOINT_ID`.
pub fn is_popup(entrypoint: &Option<String>) -> (r: bool)
    ensures
        r == (text::opt_text(*entrypoint) is Some && text::opt_text(*entrypoint)->0.len() > 0),
{
    match entrypoint {
        Some(v) => !v.as_str().is_empty(),
        None => false,
    }
}

// ---------------------------------------------------------------- laws

/// An edit changes the entry it is about and no other, and neither the entry's id nor the
/// time it was last used.
pub proof fn law_edit_keeps_identity(
    all: Seq<ConnectionView>,
    existing: ConnectionView,
    updated: ConnectionView,
    i: int,
)
    requires
        model::position(all, existing.id) == Some(i),
        all[i] == existing,
    ensures
        ({
            let after = replaced(all, existing, updated);
            &&& after.len() == all.len()
            &&& ids(after) == ids(all)
            &&& after[i].last_connected_at == existing.last_connected_at
            &&& model::position(after, existing.id) == Some(i)
            &&& forall|j: int| 0 <= j < all.len() && j != i ==> #[trigger] after[j] == all[j]
            &&& model::distinct_ids(all) ==> model::distinct_ids(after)
        }),
{
    model::lemma_position(all, existing.id);
    let after = replaced(all, existing, updated);
    if model::distinct_ids(all) {
        assert forall|a: int, b: int| 0 <= a < b < after.len() implies #[trigger] after[a].id
            != #[trigger] after[b].id by {
            assert(all[a].id != all[b].id);
        }
    }
    assert(ids(after) =~= ids(all));
    assert forall|j: int| 0 <= j < i implies #[trigger] after[j].id != existing.id by {
        assert(all[j].id != existing.id);
    }
    assert(model::is_first(after, existing.id, i));
    model::lemma_position(after, existing.id);
}

/// Flags change the fields that they name and no others.
pub proof fn law_flags_change_what_they_name(existing: ConnectionView, f: AddArgsView)
    ensures
        flag_edited(existing, f) matches Ok(c) ==> {
            &&& c.id == existing.id
            &&& c.last_connected_at == existing.last_connected_at
            &&& f.name is None ==> c.name == existing.name
            &&& f.host is None ==> c.host == existing.host
            &&& f.user is None ==> c.user == existing.user
            &&& f.port is None ==> c.port == existing.port
            &&& f.identity_file is None ==> c.identity_file == existing.identity_file
            &&& f.jump_host is None ==> c.jump_host == existing.jump_host
            &&& f.tags.len() == 0 ==> c.tags == existing.tags
            &&& f.extra_ssh_args.len() == 0 ==> c.extra_ssh_args == existing.extra_ssh_args
            &&& f.notes is None ==> c.notes == existing.notes
        },
{
}

/// Nothing that could never connect gets into the store through flags or the form.
pub proof fn law_saved_entries_are_usable(
    args: AddArgsView,
    answers: Answers,
    extra_ssh_args: Seq<Seq<char>>,
    existing: ConnectionView,
)
    ensures
        flagged(args) matches Ok(c) ==> ssh::fault(c) is None,
        usable(filled_in(answers, extra_ssh_args)) matches Ok(c) ==> ssh::fault(c) is None,
        flag_edited(existing, args) matches Ok(c) ==> ssh::fault(c) is None,
{
}

/// Flags do change the fields that they name: each to what was given, without the white
/// space around it, and an optional one to nothing where that is blank. A port, tags and
/// extra arguments are taken as they are.
pub proof fn law_flags_do_change_the_entry(existing: ConnectionView, f: AddArgsView)
    ensures
        flag_edited(existing, f) matches Ok(c) ==> {
            &&& f.name matches Some(name) ==> c.name == text::trimmed(name) && c.name.len() > 0
            &&& f.host matches Some(host) ==> c.host == text::trimmed(host) && c.host.len() > 0
            &&& f.user matches Some(user) ==> c.user == ssh::filled(Some(user))
            &&& f.port matches Some(port) ==> c.port == port
            &&& f.identity_file matches Some(path) ==> c.identity_file == ssh::filled(Some(path))
            &&& f.jump_host matches Some(jump) ==> c.jump_host == ssh::filled(Some(jump))
            &&& f.notes matches Some(notes) ==> c.notes == ssh::filled(Some(notes))
            &&& f.tags.len() > 0 ==> c.tags == f.tags
            &&& f.extra_ssh_args.len() > 0 ==> c.extra_ssh_args == f.extra_ssh_args
        },
{
}

/// An edit by flags is refused where the name or the host that was given is blank, and
/// where the entry that comes of it could not be used, and only there.
pub proof fn law_when_an_edit_is_refused(existing: ConnectionView, f: AddArgsView)
    ensures
        ({
            let no_name = f.name is Some && text::all_white(f.name->0);
            let no_host = f.host is Some && text::all_white(f.host->0);
            let r = flag_edited(existing, f);
            &&& no_name ==> r == Err::<ConnectionView, CliErrorView>(CliErrorView::EmptyName)
            &&& !no_name && no_host ==> r == Err::<ConnectionView, CliErrorView>(
                CliErrorView::EmptyHost,
            )
            &&& !no_name && !no_host ==> !(r == Err::<ConnectionView, CliErrorView>(
                CliErrorView::EmptyName,
            )) && !(r == Err::<ConnectionView, CliErrorView>(CliErrorView::EmptyHost))
            &&& !no_name && !no_host && f.host is None && f.user is None && ssh::fault(existing)
                is None ==> r is Ok
        }),
{
    if let Some(name) = f.name {
        text::law_blank(name);
    }
    if let Some(host) = f.host {
        text::law_blank(host);
    }
}

/// A connection described by flags has what they say in every field: the name and the host
/// without the white space around them, the usual port unless one was given, and the
/// optional fields where they are filled in.
pub proof fn law_flags_describe_the_entry(args: AddArgsView)
    ensures
        flagged(args) matches Ok(c) ==> {
            &&& args.name matches Some(name) && c.name == text::trimmed(name)
            &&& args.host matches Some(host) && c.host == text::trimmed(host)
            &&& c.id == model::slug(c.name)
            &&& args.port matches Some(port) ==> c.port == port
            &&& args.port is None ==> c.port == 22
            &&& c.user == ssh::filled(args.user)
            &&& c.identity_file == ssh::filled(args.identity_file)
            &&& c.jump_host == ssh::filled(args.jump_host)
            &&& c.notes == ssh::filled(args.notes)
            &&& c.tags == args.tags
            &&& c.extra_ssh_args == args.extra_ssh_args
            &&& c.last_connected_at is None
        },
{
    assert(text::trimmed(Seq::<char>::empty()) =~= seq![]);
}

/// Flags without a name, or with a blank one, are refused, then those without a host; what
/// could never connect is refused with the reason, and everything else is taken.
pub proof fn law_when_flags_are_refused(args: AddArgsView)
    ensures
        ({
            let no_name = args.name is None || text::all_white(args.name->0);
            let no_host = args.host is None || text::all_white(args.host->0);
            let r = flagged(args);
            &&& no_name ==> r == Err::<ConnectionView, CliErrorView>(CliErrorView::EmptyName)
            &&& !no_name && no_host ==> r == Err::<ConnectionView, CliErrorView>(
                CliErrorView::EmptyHost,
            )
            &&& !no_name && !no_host ==> r is Ok || r matches Err(CliErrorView::Ssh(_))
        }),
{
    assert(text::trimmed(Seq::<char>::empty()) =~= seq![]);
    if let Some(name) = args.name {
        text::law_blank(name);
    }
    if let Some(host) = args.host {
        text::law_blank(host);
    }
}

/// A connection is taken as it is where nothing is wrong with it, and else refused with what
/// is.
pub proof fn law_usable_or_refused(c: ConnectionView)
    ensures
        ssh::fault(c) is None ==> usable(c) == Ok::<ConnectionView, CliErrorView>(c),
        ssh::fault(c) matches Some(f) ==> usable(c) == Err::<ConnectionView, CliErrorView>(
            CliErrorView::Ssh(f),
        ),
{
}

/// A connection described in the form has in every field what was answered to its question.
pub proof fn law_answers_describe_the_entry(a: Answers, extra: Seq<Seq<char>>)
    ensures
        ({
            let c = filled_in(a, extra);
            &&& c.name == text::trimmed(a.name@)
            &&& c.host == text::trimmed(a.host@)
            &&& c.id == model::slug(text::trimmed(a.name@))
            &&& c.user == ssh::filled(Some(a.user@))
            &&& c.port == a.port
            &&& c.identity_file == ssh::filled(Some(a.identity_file@))
            &&& c.jump_host == ssh::filled(Some(a.jump_host@))
            &&& c.tags == edit::tags_in(a.tags@)
            &&& c.extra_ssh_args == extra
            &&& c.notes == ssh::filled(Some(a.notes@))
            &&& c.last_connected_at is None
        }),
{
}

/// The form asks for each field once and offers what was given for it; a name and a host
/// have to be given.
pub proof fn law_the_form(defaults: AddArgsView, i: int)
    requires
        0 <= i < 8,
    ensures
        ({
            let q = questions(defaults);
            let given = seq![
                defaults.name,
                defaults.host,
                defaults.user,
                Some(
                    number::decimal(
                        if defaults.port is Some {
                            defaults.port->0 as nat
                        } else {
                            22
                        },
                    ),
                ),
                defaults.identity_file,
                defaults.jump_host,
                Some(split::join(defaults.tags, seq![',', ' '])),
                defaults.notes,
            ];
            &&& q.len() == 8
            &&& q[i].required <==> i < 2
            &&& q[i].message == seq![
                "Name"@,
                "Host"@,
                "User (optional)"@,
                "Port"@,
                "Identity file (optional, e.g. ~/.ssh/id_ed25519)"@,
                "Jump host / ProxyJump (optional)"@,
                "Tags (comma separated, optional)"@,
                "Notes (optional)"@,
            ][i]
            &&& given[i] is Some && given[i]->0.len() > 0 ==> q[i].default == given[i]
            &&& given[i] is None || given[i]->0.len() == 0 ==> q[i].default is None
        }),
{
    reveal_strlit(", ");
    assert(", "@ =~= seq![',', ' ']);
}

/// An answer to the question for the port is the number it says, between 1 and 65535; none
/// at all stands for 22, and anything else has to be given again.
pub proof fn law_port_answer(before: Seq<char>, port: u16, after: Seq<char>)
    requires
        text::all_white(before),
        text::all_white(after),
    ensures
        port > 0 ==> port_typed(before + number::decimal(port as nat) + after) == Some(port),
        port == 0 ==> port_typed(before + number::decimal(port as nat) + after) is None,
        port_typed(before) == Some(22u16),
{
    let digits = number::decimal(port as nat);
    number::lemma_decimal_value(port as nat);
    number::law_u16_round_trip(port);
    assert(text::is_digit(digits[0]) && text::is_digit(digits[digits.len() - 1]));
    text::law_trimmed(before, digits, after);
    text::law_blank(before);
    let whole = before + digits + after;
    assert(whole[before.len() as int] == digits[0]);
    text::law_blank(whole);
}

/// `edit` is about the entry with the id, changes it at once where any field was given, and
/// else shows the form; an id that no entry holds is refused with the ids that there are.
pub proof fn law_edit(all: Seq<ConnectionView>, i: int, id: Seq<char>, f: AddArgsView)
    ensures
        model::is_first(all, id, i) ==> {
            let given = f.name is Some || f.host is Some || f.user is Some || f.port is Some
                || f.identity_file is Some || f.jump_host is Some || f.notes is Some || f.tags.len()
                > 0 || f.extra_ssh_args.len() > 0;
            &&& !given ==> edit_step(all, id, f) == Ok::<EditStepView, CliErrorView>(
                EditStepView::Form { existing: all[i] },
            )
            &&& given ==> match flag_edited(all[i], f) {
                Ok(updated) => edit_step(all, id, f) == Ok::<EditStepView, CliErrorView>(
                    EditStepView::Replace { existing: all[i], updated },
                ),
                Err(e) => edit_step(all, id, f) == Err::<EditStepView, CliErrorView>(e),
            }
        },
        !model::holds_id(all, id) ==> edit_step(all, id, f) == Err::<EditStepView, CliErrorView>(
            unknown(all, id),
        ),
{
    model::lemma_position(all, id);
}

/// What is edited takes the place of the entry, with everything that was changed.
pub proof fn law_edit_is_saved(
    all: Seq<ConnectionView>,
    i: int,
    existing: ConnectionView,
    updated: ConnectionView,
)
    requires
        model::is_first(all, existing.id, i),
    ensures
        ({
            let now = replaced(all, existing, updated)[i];
            &&& now.name == updated.name && now.host == updated.host && now.port == updated.port
            &&& now.user == updated.user && now.identity_file == updated.identity_file
            &&& now.jump_host == updated.jump_host && now.tags == updated.tags
            &&& now.extra_ssh_args == updated.extra_ssh_args && now.notes == updated.notes
            &&& now.id == existing.id && now.last_connected_at == existing.last_connected_at
        }),
{
    model::lemma_position(all, existing.id);
}

/// An id that no entry holds is refused with all the ids there are, in order.
pub proof fn law_unknown_ids(all: Seq<ConnectionView>, id: Seq<char>)
    ensures
        unknown(all, id) matches CliErrorView::UnknownId { id: asked, known } && {
            &&& asked == id
            &&& known.len() == all.len()
            &&& known.to_multiset() == Seq::new(all.len(), |i: int| all[i].id).to_multiset()
            &&& forall|i: int, j: int|
                0 <= i < j < known.len() ==> order::text_le(#[trigger] known[i], #[trigger] known[j])
        },
{
    order::law_sorted(ids(all));
    assert(ids(all) =~= Seq::new(all.len(), |i: int| all[i].id));
}

/// The list has a heading and then a line for each entry, the most recently used first,
/// that shows its id, name, destination and when it was last used.
pub proof fn law_listing(all: Seq<ConnectionView>, now: (int, int), k: int)
    requires
        0 <= k < all.len(),
    ensures
        ({
            let entries = model::by_recency(all);
            let rows = entries.map_values(|c: ConnectionView| cells(c, now));
            let row = cells(entries[k], now);
            &&& listing(all, now) == table::table(rows)
            &&& rows.len() == all.len()
            &&& rows[k] == row
            &&& row.id == entries[k].id
            &&& row.name == entries[k].name
            &&& row.destination == entries[k].destination()
            &&& entries[k].last_connected_at is None ==> row.last_used == "never"@
            &&& entries[k].last_connected_at matches Some(t) ==> row.last_used == picker::age_at(
                now,
                t,
            )
        }),
{
    model::law_recency_list(all);
}

/// Nothing stands in the way of a session where ssh is there and the entry can be used. A
/// missing ssh is named before what is wrong with the entry.
pub proof fn law_obstacle(ssh_missing: Option<FindSshError>, c: ConnectionView)
    ensures
        obstacle(ssh_missing, c) is None <==> ssh_missing is None && ssh::fault(c) is None,
        ssh_missing matches Some(e) ==> obstacle(ssh_missing, c) == Some(CliErrorView::FindSsh(e)),
        ssh_missing is None && ssh::fault(c) is Some ==> obstacle(ssh_missing, c) == Some(
            CliErrorView::Ssh(ssh::fault(c)->0),
        ),
{
}

/// A deletion is asked for by the id and the destination of the entry.
pub proof fn law_delete_question(c: ConnectionView)
    ensures
        text::occurs_in(delete_question(c), c.id),
        text::occurs_in(delete_question(c), c.destination()),
{
    let q = delete_question(c);
    let i = "Delete `"@.len() as int;
    assert(q.subrange(i, i + c.id.len()) =~= c.id);
    assert(text::occurs_at(q, c.id, i));
    let j = i + c.id.len() + "` ("@.len();
    assert(q.subrange(j, j + c.destination().len()) =~= c.destination());
    assert(text::occurs_at(q, c.destination(), j));
}

/// What was saved or updated is told with the id and the command that the entry stands for.
pub proof fn law_report(verb: Seq<char>, c: ConnectionView, home: Option<Seq<char>>)
    ensures
        ({
            let r = report(verb, c, home);
            let command = ssh::shown_command(ssh::ssh_args(c, home));
            &&& verb.is_prefix_of(r)
            &&& text::occurs_in(r, c.id)
            &&& r.len() >= command.len()
            &&& r.skip(r.len() - command.len()) == command
        }),
{
    let r = report(verb, c, home);
    let command = ssh::shown_command(ssh::ssh_args(c, home));
    assert(verb =~= r.subrange(0, verb.len() as int));
    let i: int = verb.len() + " `"@.len() as int;
    assert(r.subrange(i, i + c.id.len()) =~= c.id);
    assert(text::occurs_at(r, c.id, i));
    assert(r.skip(r.len() - command.len()) =~= command);
}

/// Herdr is asked for a popup of this plugin, at the entry point that was named.
pub proof fn law_open_pane_call(entrypoint: Seq<char>)
    ensures
        ({
            let call = open_pane_call(entrypoint);
            &&& exists|i: int|
                0 <= i < call.len() - 1 && #[trigger] call[i] == "--entrypoint"@ && call[i + 1]
                    == entrypoint
            &&& exists|i: int|
                0 <= i < call.len() - 1 && #[trigger] call[i] == "--plugin"@ && call[i + 1]
                    == "herdr-ssh-manager"@
            &&& call.take(3) == seq!["plugin"@, "pane"@, "open"@]
        }),
{
    let call = open_pane_call(entrypoint);
    assert(call[5] == "--entrypoint"@ && call[6] == entrypoint);
    assert(call[3] == "--plugin"@ && call[4] == "herdr-ssh-manager"@);
    assert(call.take(3) =~= seq!["plugin"@, "pane"@, "open"@]);
}

/// An unknown id is told with the ids that there are, if there are any, and what is wrong
/// with an entry or with ssh in its own words.
pub proof fn law_errors_are_told(e: CliErrorView)
    ensures
        match e {
            CliErrorView::UnknownId { id, known } => {
                &&& text::occurs_in(e.text(), id)
                &&& known.len() > 0 ==> text::occurs_in(
                    e.text(),
                    split::join(known, seq![',', ' ']),
                )
            },
            CliErrorView::Ssh(f) => e.text() == f.text(),
            CliErrorView::FindSsh(f) => e.text() == f.text(),
            _ => true,
        },
{
    reveal_strlit(", ");
    assert(", "@ =~= seq![',', ' ']);
    if let CliErrorView::UnknownId { id, known } = e {
        let s = e.text();
        let i = "no connection `"@.len() as int;
        text::lemma_found(s, id, i);
        if known.len() > 0 {
            let j = i + id.len() + "`. Known ids: "@.len();
            text::lemma_found(s, split::join(known, ", "@), j);
        }
    }
}

/// A pane that could not be opened is told with the program and the cause, or with the entry
/// point and the status.
pub proof fn law_open_pane_errors_are_told(e: OpenPaneErrorView)
    ensures
        match e {
            OpenPaneErrorView::NoBinPath => true,
            OpenPaneErrorView::NotRun { bin, cause } => text::occurs_in(e.text(), bin)
                && text::occurs_in(e.text(), cause),
            OpenPaneErrorView::Failed { entrypoint, status } => text::occurs_in(
                e.text(),
                entrypoint,
            ) && text::occurs_in(e.text(), status),
        },
{
    let s = e.text();
    match e {
        OpenPaneErrorView::NoBinPath => {},
        OpenPaneErrorView::NotRun { bin, cause } => {
            let i = "could not run "@.len() as int;
            text::lemma_found(s, bin, i);
            text::lemma_found(s, cause, i + bin.len() + ": "@.len());
        },
        OpenPaneErrorView::Failed { entrypoint, status } => {
            let i = "`herdr plugin pane open --entrypoint "@.len() as int;
            text::lemma_found(s, entrypoint, i);
            text::lemma_found(s, status, i + entrypoint.len() + "` failed with "@.len());
        },
    }
}

/// `connect` is about the first entry with the id, and hands over that entry as it is, or
/// shows the command it stands for where only that was asked for. An entry that cannot be
/// used has no command to show, and an id that no entry holds is refused.
pub proof fn law_connect(
    all: Seq<ConnectionView>,
    i: int,
    id: Seq<char>,
    home: Option<Seq<char>>,
)
    ensures
        0 <= i < all.len() && all[i].id == id && (forall|j: int|
            0 <= j < i ==> #[trigger] all[j].id != id) ==> {
            &&& connect_step(all, id, false, home) == Ok::<ConnectStepView, CliErrorView>(
                ConnectStepView::Run(all[i]),
            )
            &&& ssh::fault(all[i]) is None ==> connect_step(all, id, true, home) == Ok::<
                ConnectStepView,
                CliErrorView,
            >(ConnectStepView::Print(ssh::shown_command(ssh::ssh_args(all[i], home))))
            &&& ssh::fault(all[i]) matches Some(f) ==> connect_step(all, id, true, home) == Err::<
                ConnectStepView,
                CliErrorView,
            >(CliErrorView::Ssh(f))
        },
        (forall|j: int| 0 <= j < all.len() ==> #[trigger] all[j].id != id) ==> forall|print: bool|
            #[trigger] connect_step(all, id, print, home) == Err::<ConnectStepView, CliErrorView>(
                unknown(all, id),
            ),
{
    model::lemma_position(all, id);
    if 0 <= i < all.len() && all[i].id == id && (forall|j: int|
        0 <= j < i ==> #[trigger] all[j].id != id) {
        assert(model::is_first(all, id, i));
    }
}

/// `remove` asks about the first entry with the id, unless it was told not to ask, and
/// refuses an id that no entry holds.
pub proof fn law_remove_asks(all: Seq<ConnectionView>, i: int, id: Seq<char>, yes: bool)
    ensures
        0 <= i < all.len() && all[i].id == id && (forall|j: int|
            0 <= j < i ==> #[trigger] all[j].id != id) ==> {
            &&& remove_step(all, id, true) == Ok::<Option<Seq<char>>, CliErrorView>(None)
            &&& remove_step(all, id, false) == Ok::<Option<Seq<char>>, CliErrorView>(
                Some(delete_question(all[i])),
            )
        },
        (forall|j: int| 0 <= j < all.len() ==> #[trigger] all[j].id != id) ==> remove_step(
            all,
            id,
            yes,
        ) == Err::<Option<Seq<char>>, CliErrorView>(unknown(all, id)),
{
    model::lemma_position(all, id);
    if 0 <= i < all.len() && all[i].id == id && (forall|j: int|
        0 <= j < i ==> #[trigger] all[j].id != id) {
        assert(model::is_first(all, id, i));
    }
}

} // verus!
