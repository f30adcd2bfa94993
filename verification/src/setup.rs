//! `setup` — put the picker on a key without hand-editing Herdr's config.
//!
//! Doing this by hand means getting four separate things right, and each one fails the
//! same silent way: you press the key and nothing happens.
//!
//!  - Herdr's `config.toml` may not exist at all yet, so there is nothing to edit.
//!  - Where it lives differs per platform.
//!  - Windows needs the `-windows` action id. Herdr rejects duplicate action ids even
//!    when they are platform-gated, so the two platforms cannot share one — and binding
//!    the wrong one answers `platform_unsupported` at the keyboard, which looks like
//!    nothing at all.
//!  - On Windows the obvious ways to write the file (`Set-Content`, `-Encoding utf8`)
//!    produce UTF-16 or a BOM, either of which the TOML parser can choke on.
//!
//! This appends to the config rather than rewriting it, so hand-written comments and
//! keybindings survive.

use crate::config::Platform;
use crate::number;
use crate::split;
use crate::sweep;
use crate::text;
use crate::toml_value;
use crate::toml_value::TomlTree;
use vstd::prelude::*;

pub use crate::config::herdr_config_path;
pub use crate::sweep::without_our_bindings;

verus! {

pub const DEFAULT_KEY: &'static str = "prefix+shift+s";

/// The options of `setup`.
#[derive(Debug)]
pub struct SetupArgs {
    /// Key combination to bind, e.g. `prefix+shift+s`
    pub key: String,
    /// Show what would change without writing anything
    pub dry_run: bool,
    /// Take the binding back out again
    ///
    /// Herdr has no uninstall hook, so a plugin cannot clean up after itself — run this
    /// before `herdr plugin uninstall`, while the binary still exists.
    pub remove: bool,
}

impl Default for SetupArgs {
    fn default() -> (r: Self)
        ensures
            r.key@ == Seq::<char>::empty(),
            !r.dry_run,
            !r.remove,
    {
        let r = SetupArgs { key: String::new(), dry_run: false, remove: false };
        assert(r.key@ =~= Seq::<char>::empty());
        r
    }
}

// ---------------------------------------------------------------- action ids

/// The action id that works on the platform.
pub open spec fn action_text(platform: Platform) -> Seq<char> {
    match platform {
        Platform::Windows => "herdr-ssh-manager.open-picker-windows"@,
        Platform::Unix => "herdr-ssh-manager.open-picker"@,
    }
}

/// The action id that works on the platform. See the module docs for why they differ.
pub fn action_id(platform: Platform) -> (r: &'static str)
    ensures
        r@ == action_text(platform),
{
    match platform {
        Platform::Windows => "herdr-ssh-manager.open-picker-windows",
        Platform::Unix => "herdr-ssh-manager.open-picker",
    }
}

// ---------------------------------------------------------------- reading bindings

/// What a `[[keys.command]]` entry in Herdr's config says.
#[derive(Debug, PartialEq, Eq)]
pub struct Binding {
    pub key: String,
    pub command: String,
}

/// The mathematical form of a [`Binding`].
pub struct BindingView {
    pub key: Seq<char>,
    pub command: Seq<char>,
}

impl View for Binding {
    type V = BindingView;

    open spec fn view(&self) -> BindingView {
        BindingView { key: self.key@, command: self.command@ }
    }
}

/// The mathematical form of a list of bindings.
pub open spec fn binding_views(v: Seq<Binding>) -> Seq<BindingView> {
    Seq::new(v.len(), |i: int| v[i]@)
}

/// The binding that an entry describes: a table with a string under `key` and another
/// under `command`.
pub open spec fn binding_in(entry: TomlTree) -> Option<BindingView> {
    match (entry.text_entry("key"@), entry.text_entry("command"@)) {
        (Some(key), Some(command)) => Some(BindingView { key, command }),
        _ => None,
    }
}

/// The bindings among some entries, in order; entries that describe none are passed over.
pub open spec fn bindings_among(entries: Seq<TomlTree>) -> Seq<BindingView>
    decreases entries.len(),
{
    if entries.len() == 0 {
        seq![]
    } else {
        let before = bindings_among(entries.drop_last());
        match binding_in(entries.last()) {
            Some(b) => before.push(b),
            None => before,
        }
    }
}

/// The bindings that a config holds: those in the array `command` of the table `keys`.
pub open spec fn bindings_of(doc: TomlTree) -> Seq<BindingView> {
    match doc.entry("keys"@) {
        Some(keys) => match keys.entry("command"@) {
            Some(TomlTree::List(entries)) => bindings_among(entries),
            _ => seq![],
        },
        None => seq![],
    }
}

/// The string under `key` of a table.
fn string_under(entry: &toml::Value, key: &str) -> (r: Option<String>)
    ensures
        text::opt_text(r) == toml_value::toml_tree(*entry).text_entry(key@),
{
    match toml_value::toml_get(entry, key) {
        Some(v) => match toml_value::toml_as_str(v) {
            Some(s) => Some(s.to_string()),
            None => None,
        },
        None => None,
    }
}

/// The bindings that a parsed config holds.
pub fn bindings_in(doc: &toml::Value) -> (r: Vec<Binding>)
    ensures
        binding_views(r@) == bindings_of(toml_value::toml_tree(*doc)),
{
    let mut out: Vec<Binding> = Vec::new();
    assert(binding_views(out@) =~= seq![]);
    let keys = match toml_value::toml_get(doc, "keys") {
        Some(keys) => keys,
        None => {
            return out;
        },
    };
    let command = match toml_value::toml_get(keys, "command") {
        Some(command) => command,
        None => {
            return out;
        },
    };
    let entries = match toml_value::toml_as_array(command) {
        Some(entries) => entries,
        None => {
            return out;
        },
    };
    let ghost trees = match toml_value::toml_tree(*command) {
        TomlTree::List(trees) => trees,
        _ => seq![],
    };
    let mut i: usize = 0;
    assert(binding_views(out@) =~= bindings_among(trees.take(0)));
    while i < entries.len()
        invariant
            i <= entries@.len(),
            entries@.len() == trees.len(),
            forall|j: int|
                0 <= j < trees.len() ==> toml_value::toml_tree(#[trigger] entries@[j]) == trees[j],
            binding_views(out@) == bindings_among(trees.take(i as int)),
        decreases entries@.len() - i,
    {
        proof {
            assert(trees.take(i + 1).drop_last() =~= trees.take(i as int));
            assert(trees.take(i + 1).last() == trees[i as int]);
        }
        let key = string_under(&entries[i], "key");
        let command = string_under(&entries[i], "command");
        if let (Some(key), Some(command)) = (key, command) {
            let b = Binding { key, command };
            let ghost more = binding_views(out@).push(b@);
            out.push(b);
            assert(binding_views(out@) =~= more);
        }
        i = i + 1;
    }
    assert(trees.take(i as int) =~= trees);
    out
}

/// Read the `[[keys.command]]` entries out of a Herdr config.
///
/// Parsed rather than pattern-matched, so a binding written across odd whitespace or with
/// its fields in another order is still recognised — but the file is only ever *appended*
/// to, which is what keeps comments and layout intact.
pub fn bindings(config: &str) -> (r: Result<Vec<Binding>, SetupError>)
    ensures
        match (r, toml_value::toml_document(config@)) {
            (Ok(v), Ok(doc)) => binding_views(v@) == bindings_of(doc),
            (Err(e), Err(reason)) => e@ == (SetupErrorView::InvalidToml { reason }),
            _ => false,
        },
        forall|platform: Platform, key: Seq<char>|
            text::is_plain(key) && config@ == #[trigger] plain_block(platform, key) ==> r is Ok
                && binding_views(r->Ok_0@) == seq![
                BindingView { key, command: action_text(platform) },
            ],
{
    proof {
        assert forall|platform: Platform, key: Seq<char>|
            text::is_plain(key) && config@ == #[trigger] plain_block(
                platform,
                key,
            ) implies toml_value::is_bare_key("keys"@) && toml_value::is_bare_key("command"@)
            && toml_value::are_fields(block_fields(platform, key)) && bindings_of(
            toml_value::stanza_tree("keys"@, "command"@, block_fields(platform, key)),
        ) == seq![BindingView { key, command: action_text(platform) }] by {
            lemma_block_fields(platform, key);
            law_block_reads_back(platform, key, key);
        }
    }
    match toml_value::parse_toml(config) {
        Ok(doc) => Ok(bindings_in(&doc)),
        Err(reason) => Err(SetupError::InvalidToml { reason }),
    }
}

// ---------------------------------------------------------------- planning

/// The block appended to the config.
pub open spec fn block_text(platform: Platform, key: Seq<char>) -> Seq<char> {
    "[[keys.command]]\nkey = "@ + text::debug_text(key)
        + "\ntype = \"plugin_action\"\ncommand = \""@ + action_text(platform)
        + "\"\ndescription = \"SSH connections\"\n"@
}

/// What the block says of a key.
pub open spec fn block_fields(platform: Platform, key: Seq<char>) -> Seq<(Seq<char>, Seq<char>)> {
    seq![
        ("key"@, key),
        ("type"@, "plugin_action"@),
        ("command"@, action_text(platform)),
        ("description"@, "SSH connections"@),
    ]
}

/// The block for a key of printable ASCII, as TOML.
pub open spec fn plain_block(platform: Platform, key: Seq<char>) -> Seq<char> {
    toml_value::stanza("keys"@, "command"@, block_fields(platform, key))
}

/// A config to which a block can be appended and from which it can be taken out without a
/// trace: it has no binding to this plugin, and it is empty or ends with a line that is
/// not blank.
pub open spec fn leaves_room(existing: Seq<char>) -> bool {
    &&& sweep::without_ours(existing).1 == 0
    &&& existing.len() > 0 ==> sweep::is_closed(existing) && !text::is_blank(
        split::raw_lines(existing).last(),
    )
}

/// The block appended to the config. Appending it and taking it out again gives back the
/// config that there was, character for character. For a key of printable ASCII, quotes and
/// backslashes among it, it is TOML that says what was meant; see [`bindings`].
pub fn block(platform: Platform, key: &str) -> (r: String)
    ensures
        r@ == block_text(platform, key@),
        forall|existing: Seq<char>|
            leaves_room(existing) ==> sweep::without_ours(#[trigger] appended(existing, r@)) == (
                existing,
                1nat,
            ),
        text::is_plain(key@) ==> r@ == plain_block(platform, key@),
        split::raw_lines(r@).len() == 5,
        split::raw_lines(r@)[1] == "key = "@ + text::debug_text(key@),
        split::raw_lines(r@)[3] == "command = \""@ + action_text(platform) + "\""@,
{
    let mut s = "[[keys.command]]\nkey = ".to_string();
    s.append(text::debug(key).as_str());
    s.append("\ntype = \"plugin_action\"\ncommand = \"");
    s.append(action_id(platform));
    s.append("\"\ndescription = \"SSH connections\"\n");
    proof {
        assert forall|existing: Seq<char>| leaves_room(existing) implies sweep::without_ours(
            #[trigger] appended(existing, s@),
        ) == (existing, 1nat) by {
            law_add_then_remove(platform, existing, key@);
        }
        if text::is_plain(key@) {
            lemma_plain_block(platform, key@);
        }
        law_block_lines(platform, key@);
    }
    s
}

/// What `setup` decided to do, so the caller can report it without re-deriving it.
#[derive(Debug, PartialEq, Eq)]
pub enum Plan {
    /// Already bound correctly; nothing to write.
    AlreadyDone { key: String },
    /// Bound to this plugin, but to an action id that does not exist on this platform.
    WrongPlatformId { key: String, command: String },
    /// The requested key is taken by something else.
    KeyTaken { key: String, command: String },
    /// Append the block.
    Append,
}

/// The mathematical form of a [`Plan`].
pub enum PlanView {
    AlreadyDone { key: Seq<char> },
    WrongPlatformId { key: Seq<char>, command: Seq<char> },
    KeyTaken { key: Seq<char>, command: Seq<char> },
    Append,
}

impl View for Plan {
    type V = PlanView;

    open spec fn view(&self) -> PlanView {
        match self {
            Plan::AlreadyDone { key } => PlanView::AlreadyDone { key: key@ },
            Plan::WrongPlatformId { key, command } => PlanView::WrongPlatformId {
                key: key@,
                command: command@,
            },
            Plan::KeyTaken { key, command } => PlanView::KeyTaken { key: key@, command: command@ },
            Plan::Append => PlanView::Append,
        }
    }
}

/// Is the command an action of this plugin that opens the picker, on whatever platform?
pub open spec fn opens_picker(command: Seq<char>) -> bool {
    "herdr-ssh-manager.open-picker"@.is_prefix_of(command)
}

/// The first binding that opens the picker.
pub open spec fn first_own(existing: Seq<BindingView>) -> Option<BindingView>
    decreases existing.len(),
{
    if existing.len() == 0 {
        None
    } else if opens_picker(existing[0].command) {
        Some(existing[0])
    } else {
        first_own(existing.skip(1))
    }
}

/// The first binding of the key; the case of its letters does not matter.
pub open spec fn first_on(existing: Seq<BindingView>, key: Seq<char>) -> Option<BindingView>
    decreases existing.len(),
{
    if existing.len() == 0 {
        None
    } else if text::lower(existing[0].key) == text::lower(key) {
        Some(existing[0])
    } else {
        first_on(existing.skip(1), key)
    }
}

/// What to do about the key, given the bindings that there are.
pub open spec fn planned(platform: Platform, existing: Seq<BindingView>, key: Seq<char>) -> PlanView {
    match first_own(existing) {
        Some(b) => if b.command == action_text(platform) {
            PlanView::AlreadyDone { key: b.key }
        } else {
            PlanView::WrongPlatformId { key: b.key, command: b.command }
        },
        None => match first_on(existing, key) {
            Some(b) => PlanView::KeyTaken { key: b.key, command: b.command },
            None => PlanView::Append,
        },
    }
}

proof fn lemma_action_opens_picker(platform: Platform)
    ensures
        opens_picker(action_text(platform)),
{
    reveal_strlit("herdr-ssh-manager.open-picker");
    reveal_strlit("herdr-ssh-manager.open-picker-windows");
    let p = "herdr-ssh-manager.open-picker"@;
    assert(p =~= action_text(platform).subrange(0, p.len() as int));
}

pub fn plan(platform: Platform, existing: &Vec<Binding>, key: &str) -> (r: Plan)
    ensures
        r@ == planned(platform, binding_views(existing@), key@),
{
    let ghost all = binding_views(existing@);
    let mut i: usize = 0;
    assert(all.skip(0) =~= all);
    while i < existing.len()
        invariant
            all == binding_views(existing@),
            i <= existing@.len(),
            first_own(all.skip(i as int)) == first_own(all),
        decreases existing@.len() - i,
    {
        let b = &existing[i];
        proof {
            lemma_action_opens_picker(platform);
            assert(all.skip(i as int)[0] == b@);
            assert(all.skip(i as int).skip(1) =~= all.skip(i + 1));
        }
        if text::same(b.command.as_str(), action_id(platform)) {
            return Plan::AlreadyDone { key: b.key.clone() };
        }
        if text::begins_with(b.command.as_str(), "herdr-ssh-manager.open-picker") {
            return Plan::WrongPlatformId { key: b.key.clone(), command: b.command.clone() };
        }
        i = i + 1;
    }
    assert(first_own(all) == None::<BindingView>);
    let mut j: usize = 0;
    while j < existing.len()
        invariant
            all == binding_views(existing@),
            j <= existing@.len(),
            first_own(all) == None::<BindingView>,
            first_on(all.skip(j as int), key@) == first_on(all, key@),
        decreases existing@.len() - j,
    {
        let b = &existing[j];
        proof {
            assert(all.skip(j as int)[0] == b@);
            assert(all.skip(j as int).skip(1) =~= all.skip(j + 1));
        }
        if text::same_ignoring_case(b.key.as_str(), key) {
            return Plan::KeyTaken { key: b.key.clone(), command: b.command.clone() };
        }
        j = j + 1;
    }
    Plan::Append
}

// ---------------------------------------------------------------- setup as a whole

/// Why `setup` refuses.
#[derive(Debug, PartialEq, Eq)]
pub enum SetupError {
    /// Herdr's config is no TOML.
    InvalidToml { reason: String },
    /// The picker is bound under an id that does not exist on this platform.
    WrongPlatformId { key: String, command: String },
    /// The key does something else already.
    KeyTaken { key: String, command: String },
}

/// The mathematical form of a [`SetupError`].
pub enum SetupErrorView {
    InvalidToml { reason: Seq<char> },
    WrongPlatformId { key: Seq<char>, command: Seq<char> },
    KeyTaken { key: Seq<char>, command: Seq<char> },
}

impl View for SetupError {
    type V = SetupErrorView;

    open spec fn view(&self) -> SetupErrorView {
        match self {
            SetupError::InvalidToml { reason } => SetupErrorView::InvalidToml { reason: reason@ },
            SetupError::WrongPlatformId { key, command } => SetupErrorView::WrongPlatformId {
                key: key@,
                command: command@,
            },
            SetupError::KeyTaken { key, command } => SetupErrorView::KeyTaken {
                key: key@,
                command: command@,
            },
        }
    }
}

impl SetupErrorView {
    /// What to tell the user of the config at `path`.
    pub open spec fn text(self, platform: Platform, path: Seq<char>) -> Seq<char> {
        match self {
            SetupErrorView::InvalidToml { reason } => {
                "Herdr's config.toml is not valid TOML. Fix it first — refusing to append to a \
                 file Herdr itself cannot read: "@ + reason
            },
            SetupErrorView::WrongPlatformId { key, command } => path + " binds "@ + key + " to `"@
                + command + "`, which does not exist on this platform — Herdr answers \
                 `platform_unsupported` and the key appears dead. Change that line to `command = \""@
                + action_text(platform) + "\"`."@,
            SetupErrorView::KeyTaken { key, command } => key + " is already bound to `"@ + command
                + "` in "@ + path
                + ". Pick another with `--key`, e.g. `--key prefix+shift+h`."@,
        }
    }
}

impl SetupError {
    /// What to tell the user of the config at `path`.
    pub fn message(&self, platform: Platform, path: &str) -> (r: String)
        ensures
            r@ == self@.text(platform, path@),
    {
        match self {
            SetupError::InvalidToml { reason } => {
                let mut s = "Herdr's config.toml is not valid TOML. Fix it first — refusing to append to a \
                 file Herdr itself cannot read: ".to_string();
                s.append(reason.as_str());
                s
            },
            SetupError::WrongPlatformId { key, command } => {
                let mut s = path.to_string();
                s.append(" binds ");
                s.append(key.as_str());
                s.append(" to `");
                s.append(command.as_str());
                s.append("`, which does not exist on this platform — Herdr answers \
                 `platform_unsupported` and the key appears dead. Change that line to `command = \"");
                s.append(action_id(platform));
                s.append("\"`.");
                s
            },
            SetupError::KeyTaken { key, command } => {
                let mut s = key.clone();
                s.append(" is already bound to `");
                s.append(command.as_str());
                s.append("` in ");
                s.append(path);
                s.append(". Pick another with `--key`, e.g. `--key prefix+shift+h`.");
                s
            },
        }
    }
}

/// What `setup` is to do to Herdr's config.
#[derive(Debug, PartialEq, Eq)]
pub enum SetupStep {
    /// There is no binding to take out.
    NothingToRemove,
    /// Say how many bindings would be taken out.
    WouldRemove { removed: usize },
    /// Back the config up and replace it.
    Remove { updated: String, removed: usize },
    /// The picker is bound already, to this key.
    AlreadyDone { key: String },
    /// Show what would be appended.
    WouldAppend { addition: String },
    /// Replace the config, after backing it up if there is one.
    Append { backup: bool, updated: String },
}

/// The mathematical form of a [`SetupStep`].
pub enum SetupStepView {
    NothingToRemove,
    WouldRemove { removed: nat },
    Remove { updated: Seq<char>, removed: nat },
    AlreadyDone { key: Seq<char> },
    WouldAppend { addition: Seq<char> },
    Append { backup: bool, updated: Seq<char> },
}

impl View for SetupStep {
    type V = SetupStepView;

    open spec fn view(&self) -> SetupStepView {
        match self {
            SetupStep::NothingToRemove => SetupStepView::NothingToRemove,
            SetupStep::WouldRemove { removed } => SetupStepView::WouldRemove {
                removed: *removed as nat,
            },
            SetupStep::Remove { updated, removed } => SetupStepView::Remove {
                updated: updated@,
                removed: *removed as nat,
            },
            SetupStep::AlreadyDone { key } => SetupStepView::AlreadyDone { key: key@ },
            SetupStep::WouldAppend { addition } => SetupStepView::WouldAppend {
                addition: addition@,
            },
            SetupStep::Append { backup, updated } => SetupStepView::Append {
                backup: *backup,
                updated: updated@,
            },
        }
    }
}

impl SetupStepView {
    /// What to tell the user, of the key that was asked for, the config at `path` and its
    /// backup.
    pub open spec fn report_text(self, key: Seq<char>, path: Seq<char>, backup: Seq<char>) -> Seq<
        char,
    > {
        match self {
            SetupStepView::NothingToRemove => "No SSH Manager keybinding in "@ + path + "."@,
            SetupStepView::WouldRemove { removed } => "Would remove "@ + number::decimal(removed)
                + " binding(s) from "@ + path + "."@,
            SetupStepView::Remove { removed, .. } => "Removed "@ + number::decimal(removed)
                + " binding(s) from "@ + path + " (backup at "@ + backup + ")."@,
            SetupStepView::AlreadyDone { key } => "Already bound: "@ + key
                + " opens the SSH picker ("@ + path + ")."@,
            SetupStepView::WouldAppend { addition } => "Would append to "@ + path + ":\n"@
                + addition,
            SetupStepView::Append { .. } => "Bound "@ + key + " to the SSH picker in "@ + path,
        }
    }
}

impl SetupStep {
    /// What to tell the user once the step is done.
    pub fn report(&self, key: &str, path: &str, backup: &str) -> (r: String)
        ensures
            r@ == self@.report_text(key@, path@, backup@),
    {
        match self {
            SetupStep::NothingToRemove => text::concat3("No SSH Manager keybinding in ", path, "."),
            SetupStep::WouldRemove { removed } => {
                let count = number::to_decimal(*removed as u128);
                let mut s = text::concat3("Would remove ", count.as_str(), " binding(s) from ");
                s.append(path);
                s.append(".");
                s
            },
            SetupStep::Remove { removed, .. } => {
                let count = number::to_decimal(*removed as u128);
                let mut s = text::concat3("Removed ", count.as_str(), " binding(s) from ");
                s.append(path);
                s.append(" (backup at ");
                s.append(backup);
                s.append(").");
                s
            },
            SetupStep::AlreadyDone { key } => {
                let mut s = text::concat3("Already bound: ", key.as_str(), " opens the SSH picker (");
                s.append(path);
                s.append(").");
                s
            },
            SetupStep::WouldAppend { addition } => {
                let mut s = text::concat3("Would append to ", path, ":\n");
                s.append(addition.as_str());
                s
            },
            SetupStep::Append { .. } => {
                text::concat2(text::concat3("Bound ", key, " to the SSH picker in ").as_str(), path)
            },
        }
    }
}

/// What to say once Herdr was asked to reload its config.
pub fn reload_line(reloaded: bool, key: &str) -> (r: String)
    ensures
        r@ == (if reloaded {
            "Herdr reloaded its config — press "@ + key@ + " to open it."@
        } else {
            "Now run `herdr server reload-config` (or restart Herdr) and press "@ + key@ + "."@
        }),
{
    if reloaded {
        text::concat3("Herdr reloaded its config — press ", key, " to open it.")
    } else {
        text::concat3(
            "Now run `herdr server reload-config` (or restart Herdr) and press ",
            key,
            ".",
        )
    }
}

/// `existing` with a block appended as a stanza of its own: behind a blank line, unless it
/// is the first thing in the file.
pub open spec fn appended(existing: Seq<char>, addition: Seq<char>) -> Seq<char> {
    if existing.len() == 0 {
        addition
    } else if existing.last() == '\n' {
        existing + "\n"@ + addition
    } else {
        existing + "\n\n"@ + addition
    }
}

/// `existing` with a block appended as a stanza of its own.
pub fn append_block(existing: &str, addition: &str) -> (r: String)
    ensures
        r@ == appended(existing@, addition@),
{
    if existing.is_empty() {
        addition.to_string()
    } else if text::ends_with_char(existing, '\n') {
        text::concat3(existing, "\n", addition)
    } else {
        text::concat3(existing, "\n\n", addition)
    }
}

/// What taking the binding out of `existing` comes to.
pub open spec fn removal(existing: Seq<char>, dry_run: bool) -> SetupStepView {
    let (updated, removed) = sweep::without_ours(existing);
    if removed == 0 {
        SetupStepView::NothingToRemove
    } else if dry_run {
        SetupStepView::WouldRemove { removed }
    } else {
        SetupStepView::Remove { updated, removed }
    }
}

/// What putting the picker on `key` comes to, given the bindings in `existing`.
pub open spec fn addition(
    platform: Platform,
    existing: Seq<char>,
    bound: Seq<BindingView>,
    key: Seq<char>,
    dry_run: bool,
) -> Result<SetupStepView, SetupErrorView> {
    match planned(platform, bound, key) {
        PlanView::AlreadyDone { key } => Ok(SetupStepView::AlreadyDone { key }),
        PlanView::WrongPlatformId { key, command } => Err(
            SetupErrorView::WrongPlatformId { key, command },
        ),
        PlanView::KeyTaken { key, command } => Err(SetupErrorView::KeyTaken { key, command }),
        PlanView::Append => if dry_run {
            Ok(SetupStepView::WouldAppend { addition: block_text(platform, key) })
        } else {
            Ok(
                SetupStepView::Append {
                    backup: existing.len() > 0,
                    updated: appended(existing, block_text(platform, key)),
                },
            )
        },
    }
}

/// What `setup` comes to once the bindings in `existing` are known.
pub open spec fn decided(
    args: SetupArgs,
    platform: Platform,
    existing: Seq<char>,
    bound: Seq<BindingView>,
) -> Result<SetupStepView, SetupErrorView> {
    if args.remove {
        Ok(removal(existing, args.dry_run))
    } else {
        addition(platform, existing, bound, args.key@, args.dry_run)
    }
}

/// Do two results hold the same step, or the same error?
pub open spec fn same_outcome(
    r: Result<SetupStep, SetupError>,
    expected: Result<SetupStepView, SetupErrorView>,
) -> bool {
    match (r, expected) {
        (Ok(step), Ok(e)) => step@ == e,
        (Err(error), Err(e)) => error@ == e,
        _ => false,
    }
}

fn remove(args: &SetupArgs, existing: &str) -> (r: SetupStep)
    ensures
        r@ == removal(existing@, args.dry_run),
{
    let (updated, removed) = sweep::without_our_bindings(existing);
    if removed == 0 {
        SetupStep::NothingToRemove
    } else if args.dry_run {
        SetupStep::WouldRemove { removed }
    } else {
        SetupStep::Remove { updated, removed }
    }
}

/// What `setup` is to do, given Herdr's config and the bindings read out of it.
pub fn decide(
    args: &SetupArgs,
    platform: Platform,
    existing: &str,
    bound: &Vec<Binding>,
) -> (r: Result<SetupStep, SetupError>)
    ensures
        same_outcome(r, decided(*args, platform, existing@, binding_views(bound@))),
{
    if args.remove {
        return Ok(remove(args, existing));
    }
    match plan(platform, bound, args.key.as_str()) {
        Plan::AlreadyDone { key } => Ok(SetupStep::AlreadyDone { key }),
        Plan::WrongPlatformId { key, command } => Err(
            SetupError::WrongPlatformId { key, command },
        ),
        Plan::KeyTaken { key, command } => Err(SetupError::KeyTaken { key, command }),
        Plan::Append => {
            let addition = block(platform, args.key.as_str());
            if args.dry_run {
                Ok(SetupStep::WouldAppend { addition })
            } else {
                // Never be the reason someone loses a hand-written Herdr config.
                let backup = !existing.is_empty();
                Ok(
                    SetupStep::Append {
                        backup,
                        updated: append_block(existing, addition.as_str()),
                    },
                )
            }
        },
    }
}

/// What `setup` is to do to Herdr's config, which is `existing`, or empty when there is no
/// such file. A config that Herdr itself cannot read is refused, whatever is asked. Where
/// the config is the block of an earlier `setup`, there is nothing to do.
pub fn run(args: &SetupArgs, platform: Platform, existing: &str) -> (r: Result<
    SetupStep,
    SetupError,
>)
    ensures
        match toml_value::toml_document(existing@) {
            Ok(doc) => same_outcome(r, decided(*args, platform, existing@, bindings_of(doc))),
            Err(reason) => same_outcome(r, Err(SetupErrorView::InvalidToml { reason })),
        },
        forall|key: Seq<char>|
            !args.remove && text::is_plain(key) && existing@ == #[trigger] plain_block(
                platform,
                key,
            ) ==> same_outcome(r, Ok(SetupStepView::AlreadyDone { key })),
{
    proof {
        assert forall|key: Seq<char>|
            text::is_plain(key) && existing@ == #[trigger] plain_block(
                platform,
                key,
            ) implies planned(
            platform,
            seq![BindingView { key, command: action_text(platform) }],
            args.key@,
        ) == (PlanView::AlreadyDone { key }) by {
            law_block_reads_back(platform, key, args.key@);
        }
    }
    match bindings(existing) {
        Ok(bound) => decide(args, platform, existing, &bound),
        Err(e) => Err(e),
    }
}

// ---------------------------------------------------------------- laws

/// Once the picker is bound on this platform, `setup` never appends a second block,
/// whatever key it is asked for.
pub proof fn law_bound_once(platform: Platform, existing: Seq<BindingView>, own: int, key: Seq<char>)
    requires
        0 <= own < existing.len(),
        existing[own].command == action_text(platform),
    ensures
        planned(platform, existing, key) !is Append,
        planned(platform, existing, key) !is KeyTaken,
{
    lemma_own_found(platform, existing, own);
}

proof fn lemma_own_found(platform: Platform, existing: Seq<BindingView>, own: int)
    requires
        0 <= own < existing.len(),
        existing[own].command == action_text(platform),
    ensures
        first_own(existing) is Some,
    decreases existing.len(),
{
    lemma_action_opens_picker(platform);
    if !opens_picker(existing[0].command) {
        assert(existing.skip(1)[own - 1] == existing[own]);
        lemma_own_found(platform, existing.skip(1), own - 1);
    }
}

/// A block is appended only where no binding opens the picker and none is on the key.
pub proof fn law_append_steals_nothing(platform: Platform, existing: Seq<BindingView>, key: Seq<char>)
    ensures
        planned(platform, existing, key) is Append <==> forall|i: int|
            0 <= i < existing.len() ==> !opens_picker((#[trigger] existing[i]).command)
                && text::lower(existing[i].key) != text::lower(key),
{
    lemma_first_own(existing);
    lemma_first_on(existing, key);
}

proof fn lemma_first_own(existing: Seq<BindingView>)
    ensures
        first_own(existing) is None <==> forall|i: int|
            0 <= i < existing.len() ==> !opens_picker((#[trigger] existing[i]).command),
    decreases existing.len(),
{
    if existing.len() > 0 {
        let rest = existing.skip(1);
        lemma_first_own(rest);
        assert(forall|i: int| 0 <= i < rest.len() ==> rest[i] == #[trigger] existing[i + 1]);
        if !opens_picker(existing[0].command) && first_own(rest) is None {
            assert forall|i: int| 0 <= i < existing.len() implies !opens_picker(
                (#[trigger] existing[i]).command,
            ) by {
                if i > 0 {
                    assert(rest[i - 1] == existing[i]);
                }
            }
        }
    }
}

proof fn lemma_first_on(existing: Seq<BindingView>, key: Seq<char>)
    ensures
        first_on(existing, key) is None <==> forall|i: int|
            0 <= i < existing.len() ==> text::lower((#[trigger] existing[i]).key) != text::lower(key),
    decreases existing.len(),
{
    if existing.len() > 0 {
        let rest = existing.skip(1);
        lemma_first_on(rest, key);
        assert(forall|i: int| 0 <= i < rest.len() ==> rest[i] == #[trigger] existing[i + 1]);
        if text::lower(existing[0].key) != text::lower(key) && first_on(rest, key) is None {
            assert forall|i: int| 0 <= i < existing.len() implies text::lower(
                (#[trigger] existing[i]).key,
            ) != text::lower(key) by {
                if i > 0 {
                    assert(rest[i - 1] == existing[i]);
                }
            }
        }
    }
}

/// The lines of the block.
spec fn block_lines(platform: Platform, key: Seq<char>) -> Seq<Seq<char>> {
    seq![
        "[[keys.command]]"@,
        "key = "@ + text::debug_text(key),
        "type = \"plugin_action\""@,
        "command = \""@ + action_text(platform) + "\""@,
        "description = \"SSH connections\""@,
    ]
}

proof fn lemma_join_five(l: Seq<Seq<char>>, sep: Seq<char>)
    requires
        l.len() == 5,
    ensures
        split::join(l, sep) == l[0] + sep + l[1] + sep + l[2] + sep + l[3] + sep + l[4],
{
    let four = l.drop_last();
    let three = four.drop_last();
    let two = three.drop_last();
    let one = two.drop_last();
    assert(four.last() == l[3] && three.last() == l[2] && two.last() == l[1] && one[0] == l[0]);
    assert(split::join(one, sep) == l[0]);
    assert(split::join(two, sep) == l[0] + sep + l[1]);
    assert(split::join(three, sep) == l[0] + sep + l[1] + sep + l[2]);
    assert(split::join(four, sep) == l[0] + sep + l[1] + sep + l[2] + sep + l[3]);
}

proof fn lemma_literal_head()
    ensures
        "[[keys.command]]\nkey = "@ == "[[keys.command]]"@ + "\n"@ + "key = "@,
{
    reveal_strlit("[[keys.command]]\nkey = ");
    reveal_strlit("[[keys.command]]");
    reveal_strlit("\n");
    reveal_strlit("key = ");
    assert("[[keys.command]]\nkey = "@ =~= "[[keys.command]]"@ + "\n"@ + "key = "@);
}

proof fn lemma_literal_middle()
    ensures
        "\ntype = \"plugin_action\"\ncommand = \""@ == "\n"@ + "type = \"plugin_action\""@
            + "\n"@ + "command = \""@,
{
    reveal_strlit("\ntype = \"plugin_action\"\ncommand = \"");
    reveal_strlit("type = \"plugin_action\"");
    reveal_strlit("\n");
    reveal_strlit("command = \"");
    assert("\ntype = \"plugin_action\"\ncommand = \""@ =~= "\n"@ + "type = \"plugin_action\""@
        + "\n"@ + "command = \""@);
}

proof fn lemma_literal_tail()
    ensures
        "\"\ndescription = \"SSH connections\"\n"@ == "\""@ + "\n"@
            + "description = \"SSH connections\""@ + "\n"@,
{
    reveal_strlit("\"\ndescription = \"SSH connections\"\n");
    reveal_strlit("description = \"SSH connections\"");
    reveal_strlit("\n");
    reveal_strlit("\"");
    assert("\"\ndescription = \"SSH connections\"\n"@ =~= "\""@ + "\n"@
        + "description = \"SSH connections\""@ + "\n"@);
}

proof fn lemma_block_lines(platform: Platform, key: Seq<char>)
    ensures
        block_text(platform, key) == sweep::unlines(block_lines(platform, key), true),
{
    let l = block_lines(platform, key);
    let nl = "\n"@;
    let quote = "\""@;
    let value = text::debug_text(key);
    let action = action_text(platform);
    let open = "command = \""@;
    lemma_join_five(l, nl);
    lemma_literal_head();
    lemma_literal_middle();
    lemma_literal_tail();
    // The header and the key.
    let second = l[0] + nl + l[1];
    lemma_assoc(l[0] + nl, "key = "@, value);
    // The line with the action, from the part before it to the quote behind it.
    lemma_assoc4(second, nl, l[2], nl);
    lemma_assoc(second, nl + l[2] + nl, open);
    let third = second + nl + l[2] + nl;
    lemma_assoc4(third, open, action, quote);
    let fourth = third + l[3];
    // The rest.
    lemma_assoc4(third + open + action, quote, nl, l[4]);
    lemma_assoc(third + open + action, quote + nl + l[4], nl);
    assert(block_text(platform, key) == fourth + nl + l[4] + nl);
}

/// A line that starts with a letter opens no table and is not blank.
proof fn lemma_plain_line(line: Seq<char>)
    requires
        line.len() > 0,
        'a' <= line[0] <= 'z',
    ensures
        !sweep::opens_table(line),
        !text::is_blank(line),
{
    let (a, b) = text::lemma_trimmed_bounds(line);
    if a == b {
        assert(text::is_white(line[0]));
    }
}

proof fn lemma_block_without_breaks(platform: Platform, key: Seq<char>)
    requires
        !text::debug_text(key).contains('\n'),
    ensures
        forall|k: int|
            0 <= k < 5 ==> !(#[trigger] block_lines(platform, key)[k]).contains('\n'),
{
    let block = block_lines(platform, key);
    reveal_strlit("[[keys.command]]");
    reveal_strlit("key = ");
    reveal_strlit("type = \"plugin_action\"");
    reveal_strlit("command = \"");
    reveal_strlit("\"");
    reveal_strlit("description = \"SSH connections\"");
    reveal_strlit("herdr-ssh-manager.open-picker");
    reveal_strlit("herdr-ssh-manager.open-picker-windows");
    assert forall|k: int| 0 <= k < block.len() implies !(#[trigger] block[k]).contains('\n') by {
        if k == 1 {
            assert forall|i: int| 0 <= i < block[1].len() implies block[1][i] != '\n' by {
                if i >= 6 {
                    assert(text::debug_text(key)[i - 6] == block[1][i]);
                }
            }
        }
    }
}

/// Putting the picker on a key and taking the binding out again gives back the config that
/// there was, character for character.
///
/// A key is always rendered without a line break; see [`block`].
pub proof fn law_add_then_remove(platform: Platform, existing: Seq<char>, key: Seq<char>)
    requires
        leaves_room(existing),
        !text::debug_text(key).contains('\n'),
    ensures
        sweep::without_ours(appended(existing, block_text(platform, key))) == (existing, 1nat),
{
    let block = block_lines(platform, key);
    reveal_strlit("[[keys.command]]");
    reveal_strlit("key = ");
    reveal_strlit("type = \"plugin_action\"");
    reveal_strlit("command = \"");
    reveal_strlit("\"");
    reveal_strlit("description = \"SSH connections\"");
    reveal_strlit("herdr-ssh-manager.open-picker");
    reveal_strlit("herdr-ssh-manager.open-picker-windows");
    reveal_strlit("\"herdr-ssh-manager.");
    lemma_block_lines(platform, key);
    sweep::lemma_plain_header();
    lemma_plain_line(block[1]);
    lemma_plain_line(block[2]);
    lemma_plain_line(block[3]);
    lemma_plain_line(block[4]);
    assert(sweep::block_stop(block, 5) == 5);
    assert(sweep::block_stop(block, 4) == 5);
    assert(sweep::block_stop(block, 3) == 5);
    assert(sweep::block_stop(block, 2) == 5);
    assert(sweep::block_end(block) == 5);
    assert(sweep::names_plugin(block[3])) by {
        assert(text::trim_start(block[3]) == block[3]);
        let p = "\"herdr-ssh-manager."@;
        assert(block[3].subrange(10, 10int + p.len()) =~= p);
        assert(text::occurs_at(block[3], p, 10));
    }
    lemma_block_without_breaks(platform, key);
    sweep::law_appended_block_leaves_no_trace(existing, block);
}

proof fn lemma_block_fields(platform: Platform, key: Seq<char>)
    requires
        text::is_plain(key),
    ensures
        toml_value::is_bare_key("keys"@),
        toml_value::is_bare_key("command"@),
        toml_value::are_fields(block_fields(platform, key)),
{
    reveal_strlit("keys");
    reveal_strlit("key");
    reveal_strlit("type");
    reveal_strlit("command");
    reveal_strlit("description");
    reveal_strlit("plugin_action");
    reveal_strlit("SSH connections");
    reveal_strlit("herdr-ssh-manager.open-picker");
    reveal_strlit("herdr-ssh-manager.open-picker-windows");
    assert("key"@[0] != "type"@[0]);
    assert("key"@[0] != "command"@[0]);
    assert("key"@[0] != "description"@[0]);
    assert("type"@[0] != "command"@[0]);
    assert("type"@[0] != "description"@[0]);
    assert("command"@[0] != "description"@[0]);
}

/// One field as TOML.
spec fn field_line(name: Seq<char>, quoted: Seq<char>) -> Seq<char> {
    name + " = "@ + quoted + "\n"@
}

proof fn lemma_four_fields(f: Seq<(Seq<char>, Seq<char>)>)
    requires
        f.len() == 4,
    ensures
        toml_value::field_lines(f) == field_line(f[0].0, text::quoted(f[0].1)) + field_line(
            f[1].0,
            text::quoted(f[1].1),
        ) + field_line(f[2].0, text::quoted(f[2].1)) + field_line(f[3].0, text::quoted(f[3].1)),
{
    let three = f.drop_last();
    let two = three.drop_last();
    let one = two.drop_last();
    assert(three.last() == f[2] && two.last() == f[1] && one.last() == f[0]);
    assert(toml_value::field_lines(one.drop_last()) =~= seq![]);
    assert(toml_value::field_lines(one) =~= field_line(f[0].0, text::quoted(f[0].1)));
    assert(toml_value::field_lines(two) =~= toml_value::field_lines(one) + field_line(
        f[1].0,
        text::quoted(f[1].1),
    ));
    assert(toml_value::field_lines(three) =~= toml_value::field_lines(two) + field_line(
        f[2].0,
        text::quoted(f[2].1),
    ));
    assert(toml_value::field_lines(f) =~= toml_value::field_lines(three) + field_line(
        f[3].0,
        text::quoted(f[3].1),
    ));
}

proof fn lemma_block_head()
    ensures
        "[[keys.command]]\nkey = "@ == "[["@ + "keys"@ + "."@ + "command"@ + "]]\n"@ + "key"@
            + " = "@,
{
    reveal_strlit("[[keys.command]]\nkey = ");
    reveal_strlit("[[");
    reveal_strlit("keys");
    reveal_strlit(".");
    reveal_strlit("command");
    reveal_strlit("]]\n");
    reveal_strlit("key");
    reveal_strlit(" = ");
    assert("[[keys.command]]\nkey = "@ =~= "[["@ + "keys"@ + "."@ + "command"@ + "]]\n"@ + "key"@
        + " = "@);
}

proof fn lemma_block_middle()
    ensures
        "\ntype = \"plugin_action\"\ncommand = \""@ == "\n"@ + field_line(
            "type"@,
            text::quoted("plugin_action"@),
        ) + "command"@ + " = "@ + "\""@,
{
    reveal_strlit("\ntype = \"plugin_action\"\ncommand = \"");
    reveal_strlit("\n");
    reveal_strlit("type");
    reveal_strlit("plugin_action");
    reveal_strlit("command");
    reveal_strlit(" = ");
    reveal_strlit("\"");
    text::lemma_nothing_escaped("plugin_action"@);
    assert("\ntype = \"plugin_action\"\ncommand = \""@ =~= "\n"@ + field_line(
        "type"@,
        text::quoted("plugin_action"@),
    ) + "command"@ + " = "@ + "\""@);
}

proof fn lemma_block_tail()
    ensures
        "\"\ndescription = \"SSH connections\"\n"@ == "\""@ + "\n"@ + field_line(
            "description"@,
            text::quoted("SSH connections"@),
        ),
{
    reveal_strlit("\"\ndescription = \"SSH connections\"\n");
    reveal_strlit("\n");
    reveal_strlit("description");
    reveal_strlit("SSH connections");
    reveal_strlit(" = ");
    reveal_strlit("\"");
    text::lemma_nothing_escaped("SSH connections"@);
    assert("\"\ndescription = \"SSH connections\"\n"@ =~= "\""@ + "\n"@ + field_line(
        "description"@,
        text::quoted("SSH connections"@),
    ));
}

proof fn lemma_action_unescaped(platform: Platform)
    ensures
        text::quoted(action_text(platform)) == "\""@ + action_text(platform) + "\""@,
{
    reveal_strlit("herdr-ssh-manager.open-picker");
    reveal_strlit("herdr-ssh-manager.open-picker-windows");
    text::lemma_nothing_escaped(action_text(platform));
}

proof fn lemma_assoc(a: Seq<char>, b: Seq<char>, c: Seq<char>)
    ensures
        a + b + c == a + (b + c),
{
    assert(a + b + c =~= a + (b + c));
}

/// Four texts in a row, however they are put together.
proof fn lemma_assoc4(a: Seq<char>, b: Seq<char>, c: Seq<char>, d: Seq<char>)
    ensures
        a + b + c + d == a + (b + c + d),
        a + b + c + d == a + b + (c + d),
{
    lemma_assoc(a, b, c);
    lemma_assoc(a, b + c, d);
    lemma_assoc(a + b, c, d);
}

/// The head of the block, the key and the line end make the header and the first line.
proof fn lemma_first_line(
    header: Seq<char>,
    name: Seq<char>,
    eq: Seq<char>,
    value: Seq<char>,
    end: Seq<char>,
)
    ensures
        header + name + eq + value + end == header + (name + eq + value + end),
{
    lemma_assoc4(header, name, eq, value);
    lemma_assoc(header, name + eq + value, end);
}

/// What stands around the action id makes its line, with `next` behind it.
proof fn lemma_action_line(
    name: Seq<char>,
    eq: Seq<char>,
    quote: Seq<char>,
    action: Seq<char>,
    end: Seq<char>,
    next: Seq<char>,
)
    ensures
        name + eq + quote + action + (quote + end + next) == name + eq + (quote + action + quote)
            + end + next,
{
    let before = name + eq;
    lemma_assoc(quote, end, next);
    lemma_assoc(before + quote + action, quote, end + next);
    lemma_assoc4(before, quote, action, quote);
    lemma_assoc(before + (quote + action + quote), end, next);
}

/// The five parts that the block is put together from make its header and its four lines.
proof fn lemma_five_parts(
    head: Seq<char>,
    value: Seq<char>,
    end: Seq<char>,
    second: Seq<char>,
    third: Seq<char>,
    action: Seq<char>,
    tail: Seq<char>,
)
    ensures
        head + value + (end + second + third) + action + tail == head + value + end + second + (
        third + action + tail),
{
    let front = head + value;
    lemma_assoc4(front, end, second, third);
    lemma_assoc4(front + end + second, third, action, tail);
}

/// Where the key is rendered as it is quoted, the block is the TOML of its fields.
proof fn lemma_plain_block(platform: Platform, key: Seq<char>)
    requires
        text::debug_text(key) == text::quoted(key),
    ensures
        block_text(platform, key) == plain_block(platform, key),
{
    let f = block_fields(platform, key);
    let header = "[["@ + "keys"@ + "."@ + "command"@ + "]]\n"@;
    let eq = " = "@;
    let end = "\n"@;
    let quote = "\""@;
    let value = text::quoted(key);
    let action = action_text(platform);
    let first = field_line("key"@, value);
    let second = field_line("type"@, text::quoted("plugin_action"@));
    let third = "command"@ + eq + quote;
    let whole_third = field_line("command"@, text::quoted(action));
    let fourth = field_line("description"@, text::quoted("SSH connections"@));
    let tail = quote + end + fourth;
    lemma_four_fields(f);
    lemma_block_head();
    lemma_block_middle();
    lemma_block_tail();
    lemma_action_unescaped(platform);
    lemma_assoc4(end + second, "command"@, eq, quote);
    lemma_five_parts(header + "key"@ + eq, value, end, second, third, action, tail);
    lemma_first_line(header, "key"@, eq, value, end);
    lemma_action_line("command"@, eq, quote, action, end, fourth);
    assert(block_text(platform, key) == header + first + second + (whole_third + fourth));
    lemma_assoc(header + first + second, whole_third, fourth);
    lemma_assoc4(header, first, second, whole_third);
    lemma_assoc(header, first + second + whole_third, fourth);
}

/// What the block says of a key is read back as one binding of that key to the picker, so
/// that `setup`, asked again for whatever key, has nothing left to do.
pub proof fn law_block_reads_back(platform: Platform, key: Seq<char>, asked: Seq<char>)
    ensures
        bindings_of(toml_value::stanza_tree("keys"@, "command"@, block_fields(platform, key)))
            == seq![BindingView { key, command: action_text(platform) }],
        planned(platform, seq![BindingView { key, command: action_text(platform) }], asked) == (
        PlanView::AlreadyDone { key }),
{
    reveal_strlit("key");
    reveal_strlit("type");
    reveal_strlit("command");
    reveal_strlit("description");
    assert("key"@[0] != "type"@[0]);
    assert("key"@[0] != "command"@[0]);
    assert("key"@[0] != "description"@[0]);
    assert("command"@[0] != "description"@[0]);
    let f = block_fields(platform, key);
    assert(f.drop_last() =~= seq![f[0], f[1], f[2]]);
    assert(f.drop_last().drop_last() =~= seq![f[0], f[1]]);
    assert(f.drop_last().drop_last().drop_last() =~= seq![f[0]]);
    reveal_with_fuel(toml_value::field_table, 6);
    let element = TomlTree::Table(toml_value::field_table(f));
    let b = BindingView { key, command: action_text(platform) };
    assert(element.text_entry("key"@) == Some(key));
    assert(element.text_entry("command"@) == Some(action_text(platform)));
    assert(binding_in(element) == Some(b));
    let list = seq![element];
    assert(list.drop_last().len() == 0);
    assert(bindings_among(list.drop_last()) =~= seq![]);
    assert(list.last() == element);
    assert(bindings_among(list) =~= seq![b]);
    lemma_action_opens_picker(platform);
    assert(first_own(seq![b]) == Some(b));
}

/// An entry of the config that binds a key: a table that holds both as strings.
pub open spec fn binds(entry: TomlTree, key: Seq<char>, command: Seq<char>) -> bool {
    entry matches TomlTree::Table(fields) && {
        &&& fields.contains_key("key"@) && fields["key"@] == TomlTree::Text(key)
        &&& fields.contains_key("command"@) && fields["command"@] == TomlTree::Text(command)
    }
}

/// Every entry that binds a key is read, with its key and its command, in the order of the
/// entries, however many there are and whatever the others hold; an entry that binds none
/// is passed over.
pub proof fn law_every_binding_is_read(
    before: Seq<TomlTree>,
    entry: TomlTree,
    after: Seq<TomlTree>,
    key: Seq<char>,
    command: Seq<char>,
)
    ensures
        binds(entry, key, command) ==> bindings_among(before.push(entry) + after)
            == bindings_among(before).push(BindingView { key, command }) + bindings_among(after),
        (forall|k: Seq<char>, c: Seq<char>| !#[trigger] binds(entry, k, c)) ==> bindings_among(
            before.push(entry) + after,
        ) == bindings_among(before) + bindings_among(after),
        bindings_among(Seq::empty()).len() == 0,
    decreases after.len(),
{
    let all = before.push(entry) + after;
    if after.len() == 0 {
        assert(all =~= before.push(entry));
        assert(all.drop_last() =~= before);
        if binding_in(entry) is Some {
            let b = binding_in(entry)->0;
            assert(binds(entry, b.key, b.command));
        }
        assert(bindings_among(after) =~= seq![]);
        let one = bindings_among(before).push(BindingView { key, command });
        assert(one + bindings_among(after) =~= one);
        assert(bindings_among(before) + bindings_among(after) =~= bindings_among(before));
    } else {
        law_every_binding_is_read(before, entry, after.drop_last(), key, command);
        assert(all.drop_last() =~= before.push(entry) + after.drop_last());
        assert(all.last() == after.last());
        if binds(entry, key, command) {
            assert(bindings_among(all) =~= bindings_among(before).push(
                BindingView { key, command },
            ) + bindings_among(after));
        }
        if forall|k: Seq<char>, c: Seq<char>| !#[trigger] binds(entry, k, c) {
            assert(bindings_among(all) =~= bindings_among(before) + bindings_among(after));
        }
    }
}

/// How many of the entries bind a key.
pub open spec fn count_binding(entries: Seq<TomlTree>) -> nat
    decreases entries.len(),
{
    if entries.len() == 0 {
        0
    } else {
        count_binding(entries.drop_last()) + if exists|k: Seq<char>, c: Seq<char>| #[trigger]
            binds(entries.last(), k, c) {
            1nat
        } else {
            0nat
        }
    }
}

/// There are as many bindings as entries that bind a key, and each such entry is among them
/// behind those of the entries in front of it.
pub proof fn law_no_binding_is_lost(
    entries: Seq<TomlTree>,
    i: int,
    key: Seq<char>,
    command: Seq<char>,
)
    requires
        0 <= i < entries.len(),
        binds(entries[i], key, command),
    ensures
        bindings_among(entries).len() == count_binding(entries),
        count_binding(entries.take(i)) < count_binding(entries),
        bindings_among(entries)[count_binding(entries.take(i)) as int] == (BindingView {
            key,
            command,
        }),
{
    lemma_count_binding(entries);
    lemma_count_binding(entries.take(i));
    let before = entries.take(i);
    let after = entries.skip(i + 1);
    assert(before.push(entries[i]) + after =~= entries);
    law_every_binding_is_read(before, entries[i], after, key, command);
}

proof fn lemma_count_binding(entries: Seq<TomlTree>)
    ensures
        bindings_among(entries).len() == count_binding(entries),
    decreases entries.len(),
{
    if entries.len() > 0 {
        lemma_count_binding(entries.drop_last());
        if let Some(b) = binding_in(entries.last()) {
            assert(binds(entries.last(), b.key, b.command));
        } else {
            assert forall|k: Seq<char>, c: Seq<char>| !#[trigger] binds(entries.last(), k, c) by {
                if binds(entries.last(), k, c) {
                    assert(binding_in(entries.last()) is Some);
                }
            }
        }
    }
}

/// The bindings of a config are those of the array `command` in the table `keys`, whatever
/// else the config holds; without that array there are none.
pub proof fn law_where_bindings_stand(
    doc: Map<Seq<char>, TomlTree>,
    keys: Map<Seq<char>, TomlTree>,
    entries: Seq<TomlTree>,
)
    ensures
        doc.contains_key("keys"@) && doc["keys"@] == TomlTree::Table(keys) && keys.contains_key(
            "command"@,
        ) && keys["command"@] == TomlTree::List(entries) ==> bindings_of(TomlTree::Table(doc))
            == bindings_among(entries),
        !doc.contains_key("keys"@) ==> bindings_of(TomlTree::Table(doc)).len() == 0,
        doc.contains_key("keys"@) && doc["keys"@] == TomlTree::Table(keys) && !keys.contains_key(
            "command"@,
        ) ==> bindings_of(TomlTree::Table(doc)).len() == 0,
{
}

/// The first binding that opens the picker decides, wherever it stands and whatever key is
/// asked for: with the platform's action id there is nothing to do, with another one that is
/// the problem.
pub proof fn law_own_binding_decides(
    platform: Platform,
    existing: Seq<BindingView>,
    i: int,
    key: Seq<char>,
)
    requires
        0 <= i < existing.len(),
        "herdr-ssh-manager.open-picker"@.is_prefix_of(existing[i].command),
        forall|j: int|
            0 <= j < i ==> !"herdr-ssh-manager.open-picker"@.is_prefix_of(
                (#[trigger] existing[j]).command,
            ),
    ensures
        existing[i].command == action_text(platform) ==> planned(platform, existing, key) == (
        PlanView::AlreadyDone { key: existing[i].key }),
        existing[i].command != action_text(platform) ==> planned(platform, existing, key) == (
        PlanView::WrongPlatformId { key: existing[i].key, command: existing[i].command }),
{
    lemma_first_own_at(existing, i);
}

proof fn lemma_first_own_at(existing: Seq<BindingView>, i: int)
    requires
        0 <= i < existing.len(),
        opens_picker(existing[i].command),
        forall|j: int| 0 <= j < i ==> !opens_picker((#[trigger] existing[j]).command),
    ensures
        first_own(existing) == Some(existing[i]),
    decreases existing.len(),
{
    if i > 0 {
        assert(!opens_picker(existing[0].command));
        let rest = existing.skip(1);
        assert(rest[i - 1] == existing[i]);
        assert forall|j: int| 0 <= j < i - 1 implies !opens_picker((#[trigger] rest[j]).command) by {
            assert(rest[j] == existing[j + 1]);
        }
        lemma_first_own_at(rest, i - 1);
    }
}

/// A key that something else is bound to is not taken: whichever binding is on it, however
/// its letters are written, setup names the first of them instead of appending.
pub proof fn law_taken_key_is_refused(
    platform: Platform,
    existing: Seq<BindingView>,
    i: int,
    key: Seq<char>,
)
    requires
        forall|j: int|
            0 <= j < existing.len() ==> !"herdr-ssh-manager.open-picker"@.is_prefix_of(
                (#[trigger] existing[j]).command,
            ),
        0 <= i < existing.len(),
        text::lower(existing[i].key) == text::lower(key),
        forall|j: int| 0 <= j < i ==> text::lower((#[trigger] existing[j]).key) != text::lower(key),
    ensures
        planned(platform, existing, key) == (PlanView::KeyTaken {
            key: existing[i].key,
            command: existing[i].command,
        }),
{
    lemma_first_own(existing);
    assert forall|j: int| 0 <= j < existing.len() implies !opens_picker(
        (#[trigger] existing[j]).command,
    ) by {
        assert(!"herdr-ssh-manager.open-picker"@.is_prefix_of(existing[j].command));
    }
    lemma_first_on_at(existing, key, i);
}

proof fn lemma_first_on_at(existing: Seq<BindingView>, key: Seq<char>, i: int)
    requires
        0 <= i < existing.len(),
        text::lower(existing[i].key) == text::lower(key),
        forall|j: int| 0 <= j < i ==> text::lower((#[trigger] existing[j]).key) != text::lower(key),
    ensures
        first_on(existing, key) == Some(existing[i]),
    decreases existing.len(),
{
    if i > 0 {
        assert(text::lower(existing[0].key) != text::lower(key));
        let rest = existing.skip(1);
        assert(rest[i - 1] == existing[i]);
        assert forall|j: int| 0 <= j < i - 1 implies text::lower((#[trigger] rest[j]).key)
            != text::lower(key) by {
            assert(rest[j] == existing[j + 1]);
        }
        lemma_first_on_at(rest, key, i - 1);
    }
}

/// The two platforms have action ids of their own, and both open the picker.
pub proof fn law_action_ids(platform: Platform)
    ensures
        action_text(Platform::Unix) != action_text(Platform::Windows),
        "herdr-ssh-manager.open-picker"@.is_prefix_of(action_text(platform)),
        action_text(Platform::Unix) == "herdr-ssh-manager.open-picker"@,
        action_text(Platform::Windows) == "herdr-ssh-manager.open-picker-windows"@,
{
    reveal_strlit("herdr-ssh-manager.open-picker");
    reveal_strlit("herdr-ssh-manager.open-picker-windows");
    assert(action_text(Platform::Unix).len() != action_text(Platform::Windows).len());
    lemma_action_opens_picker(platform);
}

/// Appending keeps what there was in front, character for character, and puts the block at
/// the end, behind an empty line; a file that was empty holds the block and nothing else.
pub proof fn law_appended(existing: Seq<char>, block: Seq<char>)
    ensures
        existing.is_prefix_of(appended(existing, block)),
        existing.len() == 0 ==> appended(existing, block) == block,
        existing.len() > 0 && existing.last() == '\n' ==> appended(existing, block)
            == existing.push('\n') + block,
        existing.len() > 0 && existing.last() != '\n' ==> appended(existing, block)
            == existing.push('\n').push('\n') + block,
{
    reveal_strlit("\n");
    reveal_strlit("\n\n");
    let all = appended(existing, block);
    assert(existing =~= all.subrange(0, existing.len() as int));
    if existing.len() > 0 && existing.last() == '\n' {
        assert(all =~= existing.push('\n') + block);
    }
    if existing.len() > 0 && existing.last() != '\n' {
        assert(all =~= existing.push('\n').push('\n') + block);
    }
}

/// Something is written only where that was not to be a dry run: the config without our
/// bindings where they are to go and there are some, and else the config with the block
/// behind it where nothing stands in the way. A config that held something is backed up.
pub proof fn law_what_setup_writes(
    args: SetupArgs,
    platform: Platform,
    existing: Seq<char>,
    bound: Seq<BindingView>,
)
    ensures
        ({
            let outcome = decided(args, platform, existing, bound);
            let (rest, removed) = sweep::without_ours(existing);
            &&& args.dry_run ==> !(outcome matches Ok(SetupStepView::Append { .. })) && !(outcome
                matches Ok(SetupStepView::Remove { .. }))
            &&& args.remove && removed == 0 ==> outcome == Ok::<SetupStepView, SetupErrorView>(
                SetupStepView::NothingToRemove,
            )
            &&& args.remove && removed > 0 && !args.dry_run ==> outcome == Ok::<
                SetupStepView,
                SetupErrorView,
            >(SetupStepView::Remove { updated: rest, removed })
            &&& args.remove && removed > 0 && args.dry_run ==> outcome == Ok::<
                SetupStepView,
                SetupErrorView,
            >(SetupStepView::WouldRemove { removed })
            &&& !args.remove ==> match planned(platform, bound, args.key@) {
                PlanView::AlreadyDone { key } => outcome == Ok::<SetupStepView, SetupErrorView>(
                    SetupStepView::AlreadyDone { key },
                ),
                PlanView::WrongPlatformId { key, command } => outcome == Err::<
                    SetupStepView,
                    SetupErrorView,
                >(SetupErrorView::WrongPlatformId { key, command }),
                PlanView::KeyTaken { key, command } => outcome == Err::<
                    SetupStepView,
                    SetupErrorView,
                >(SetupErrorView::KeyTaken { key, command }),
                PlanView::Append => if args.dry_run {
                    outcome == Ok::<SetupStepView, SetupErrorView>(
                        SetupStepView::WouldAppend { addition: block_text(platform, args.key@) },
                    )
                } else {
                    outcome == Ok::<SetupStepView, SetupErrorView>(
                        SetupStepView::Append {
                            backup: existing.len() > 0,
                            updated: appended(existing, block_text(platform, args.key@)),
                        },
                    )
                },
            }
        }),
{
}

/// The block says which key is bound, as it is rendered, and to which action, each on a line
/// of its own below the header.
pub proof fn law_block_lines(platform: Platform, key: Seq<char>)
    requires
        !text::debug_text(key).contains('\n'),
    ensures
        ({
            let lines = split::raw_lines(block_text(platform, key));
            &&& lines.len() == 5
            &&& lines[0] == "[[keys.command]]"@
            &&& lines[1] == "key = "@ + text::debug_text(key)
            &&& lines[2] == "type = \"plugin_action\""@
            &&& lines[3] == "command = \""@ + action_text(platform) + "\""@
        }),
{
    let l = block_lines(platform, key);
    lemma_block_lines(platform, key);
    lemma_block_without_breaks(platform, key);
    sweep::lemma_raw_lines_unlines(l, true);
}

/// What stands in the way is told with the key and the command that are bound and the file
/// they stand in, and a config that cannot be read with the reason.
pub proof fn law_errors_are_told(e: SetupErrorView, platform: Platform, path: Seq<char>)
    ensures
        ({
            let s = e.text(platform, path);
            match e {
                SetupErrorView::InvalidToml { reason } => text::occurs_in(s, reason),
                SetupErrorView::WrongPlatformId { key, command } => text::occurs_in(s, path)
                    && text::occurs_in(s, key) && text::occurs_in(s, command) && text::occurs_in(
                    s,
                    action_text(platform),
                ),
                SetupErrorView::KeyTaken { key, command } => text::occurs_in(s, path)
                    && text::occurs_in(s, key) && text::occurs_in(s, command),
            }
        }),
{
    let s = e.text(platform, path);
    match e {
        SetupErrorView::InvalidToml { reason } => {
            text::lemma_found(s, reason, s.len() - reason.len());
        },
        SetupErrorView::WrongPlatformId { key, command } => {
            let i = path.len() + " binds "@.len();
            let j: int = i + key.len() + " to `"@.len() as int;
            text::lemma_found(s, path, 0);
            text::lemma_found(s, key, i as int);
            text::lemma_found(s, command, j);
            let action = action_text(platform);
            text::lemma_found(s, action, s.len() - "\"`."@.len() - action.len());
        },
        SetupErrorView::KeyTaken { key, command } => {
            let j: int = key.len() + " is already bound to `"@.len() as int;
            let k = j + command.len() + "` in "@.len();
            text::lemma_found(s, key, 0);
            text::lemma_found(s, command, j);
            text::lemma_found(s, path, k);
        },
    }
}

/// What was done, or would be, is told with the file it is about, with how many bindings go
/// or went, with the key that is bound, and with where the backup is.
pub proof fn law_steps_are_told(
    step: SetupStepView,
    key: Seq<char>,
    path: Seq<char>,
    backup: Seq<char>,
)
    ensures
        ({
            let s = step.report_text(key, path, backup);
            &&& text::occurs_in(s, path)
            &&& match step {
                SetupStepView::NothingToRemove => true,
                SetupStepView::WouldRemove { removed } => text::occurs_in(
                    s,
                    number::decimal(removed),
                ),
                SetupStepView::Remove { removed, .. } => text::occurs_in(
                    s,
                    number::decimal(removed),
                ) && text::occurs_in(s, backup),
                SetupStepView::AlreadyDone { key: bound } => text::occurs_in(s, bound),
                SetupStepView::WouldAppend { addition } => text::occurs_in(s, addition),
                SetupStepView::Append { .. } => text::occurs_in(s, key),
            }
        }),
{
    let s = step.report_text(key, path, backup);
    match step {
        SetupStepView::NothingToRemove => {
            text::lemma_found(s, path, "No SSH Manager keybinding in "@.len() as int);
        },
        SetupStepView::WouldRemove { removed } => {
            let d = number::decimal(removed);
            let i = "Would remove "@.len() as int;
            text::lemma_found(s, d, i);
            text::lemma_found(s, path, i + d.len() + " binding(s) from "@.len());
        },
        SetupStepView::Remove { removed, .. } => {
            let d = number::decimal(removed);
            let i = "Removed "@.len() as int;
            let j = i + d.len() + " binding(s) from "@.len();
            text::lemma_found(s, d, i);
            text::lemma_found(s, path, j);
            text::lemma_found(s, backup, j + path.len() + " (backup at "@.len());
        },
        SetupStepView::AlreadyDone { key: bound } => {
            let i = "Already bound: "@.len() as int;
            text::lemma_found(s, bound, i);
            text::lemma_found(s, path, i + bound.len() + " opens the SSH picker ("@.len());
        },
        SetupStepView::WouldAppend { addition } => {
            let i = "Would append to "@.len() as int;
            text::lemma_found(s, path, i);
            text::lemma_found(s, addition, s.len() - addition.len());
        },
        SetupStepView::Append { .. } => {
            text::lemma_found(s, key, "Bound "@.len() as int);
            text::lemma_found(s, path, s.len() - path.len());
        },
    }
}

} // verus!
