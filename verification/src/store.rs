//! Loading and saving `connections.toml`.
//!
//! Saves are atomic: the new document is written to a sibling temp file, flushed to
//! disk, and renamed over the target. A crash (or Herdr killing the popup mid-write)
//! therefore leaves either the old file or the new one, never a truncated mix.

use crate::config;
use crate::config::{ConfigError, Environment, Location, LocationView};
use crate::model::{ConnectionView, Store};
use crate::text;
use crate::time;
use crate::time::Timestamp;
use vstd::prelude::*;

verus! {

/// Where the connections are kept.
#[derive(Debug, PartialEq, Eq)]
pub struct StoreFile {
    path: Location,
}

impl View for StoreFile {
    type V = LocationView;

    closed spec fn view(&self) -> LocationView {
        self.path@
    }
}

impl StoreFile {
    /// The store at the plugin's configured location.
    pub fn discover(env: &Environment) -> (r: Result<StoreFile, ConfigError>)
        ensures
            match (r, env.plugin_dir()) {
                (Ok(file), Some(dir)) => file@ == dir.down(config::CONNECTIONS_FILE@),
                (Err(e), None) => e == ConfigError::NoConfigDir(env.platform),
                _ => false,
            },
    {
        match config::config_dir(env) {
            Ok(dir) => Ok(StoreFile::at(dir.join(config::CONNECTIONS_FILE))),
            Err(e) => Err(e),
        }
    }

    pub fn at(path: Location) -> (r: StoreFile)
        ensures
            r@ == path@,
    {
        StoreFile { path }
    }

    pub fn path(&self) -> (r: &Location)
        ensures
            r@ == self@,
    {
        &self.path
    }
}

// ---------------------------------------------------------------- loading

/// What `load` had to do to produce a usable store.
#[derive(Debug, PartialEq, Eq)]
pub enum LoadOutcome {
    /// File parsed, or did not exist yet.
    Clean,
    /// File was unparseable and was moved aside; the store starts empty.
    RecoveredFromCorrupt { backup: String, error: String },
}

/// The mathematical form of a [`LoadOutcome`].
pub enum LoadOutcomeView {
    Clean,
    RecoveredFromCorrupt { backup: Seq<char>, error: Seq<char> },
}

impl View for LoadOutcome {
    type V = LoadOutcomeView;

    open spec fn view(&self) -> LoadOutcomeView {
        match self {
            LoadOutcome::Clean => LoadOutcomeView::Clean,
            LoadOutcome::RecoveredFromCorrupt { backup, error } => {
                LoadOutcomeView::RecoveredFromCorrupt { backup: backup@, error: error@ }
            },
        }
    }
}

/// What was found where the connections are kept.
#[derive(Debug)]
pub enum Found {
    /// No file.
    Missing,
    /// A document that holds this store.
    Parsed(Store),
    /// A document that could not be parsed, for this reason.
    Corrupt(String),
}

/// How loading goes on.
#[derive(Debug)]
pub enum LoadStep {
    /// The store is this.
    Loaded(Store, LoadOutcome),
    /// Move the file aside first.
    Quarantine { error: String },
}

/// Load the store, quarantining the file if it cannot be parsed.
pub fn load(found: Found) -> (r: LoadStep)
    ensures
        match (found, r) {
            (Found::Missing, LoadStep::Loaded(store, outcome)) => {
                store@ == Seq::<ConnectionView>::empty() && outcome@ is Clean
            },
            (Found::Parsed(given), LoadStep::Loaded(store, outcome)) => {
                store@ == given@ && outcome@ is Clean
            },
            (Found::Corrupt(reason), LoadStep::Quarantine { error }) => error@ == reason@,
            _ => false,
        },
{
    match found {
        Found::Missing => LoadStep::Loaded(Store::default(), LoadOutcome::Clean),
        Found::Parsed(store) => LoadStep::Loaded(store, LoadOutcome::Clean),
        Found::Corrupt(error) => LoadStep::Quarantine { error },
    }
}

/// The store once the unparseable file was moved aside to `backup`.
pub fn recovered(backup: String, error: String) -> (r: (Store, LoadOutcome))
    ensures
        r.0@ == Seq::<ConnectionView>::empty(),
        r.1@ == (LoadOutcomeView::RecoveredFromCorrupt { backup: backup@, error: error@ }),
{
    (Store::default(), LoadOutcome::RecoveredFromCorrupt { backup, error })
}

/// The name under which a file of the given name is kept when it cannot be parsed.
pub open spec fn quarantine_text(name: Option<Seq<char>>, now: (int, int)) -> Seq<char> {
    (match name {
        Some(n) => n,
        None => config::CONNECTIONS_FILE@,
    }) + ".corrupt-"@ + time::stamp_text(now.0, now.1)
}

/// Move an unparseable file aside so the user can recover it by hand: the name to give it
/// at the time `now`.
pub fn quarantine(name: &Option<String>, now: &Timestamp) -> (r: String)
    ensures
        r@ == quarantine_text(text::opt_text(*name), now@),
{
    let stamp = now.file_stamp();
    match name {
        Some(n) => text::concat3(n.as_str(), ".corrupt-", stamp.as_str()),
        None => text::concat3(config::CONNECTIONS_FILE, ".corrupt-", stamp.as_str()),
    }
}

/// The warning to print if the previous file, at `path`, had to be moved aside.
pub fn load_reporting(path: &str, outcome: &LoadOutcome) -> (r: Option<String>)
    ensures
        text::opt_text(r) == match outcome@ {
            LoadOutcomeView::Clean => None,
            LoadOutcomeView::RecoveredFromCorrupt { backup, error } => Some(
                "herdr-ssh-manager: "@ + path@ + " could not be parsed ("@ + error
                    + ").\nherdr-ssh-manager: it was saved as "@ + backup
                    + " and a fresh, empty store was started."@,
            ),
        },
{
    match outcome {
        LoadOutcome::Clean => None,
        LoadOutcome::RecoveredFromCorrupt { backup, error } => {
            let mut s = text::concat3("herdr-ssh-manager: ", path, " could not be parsed (");
            s.append(error.as_str());
            s.append(").\nherdr-ssh-manager: it was saved as ");
            s.append(backup.as_str());
            s.append(" and a fresh, empty store was started.");
            Some(s)
        },
    }
}

// ---------------------------------------------------------------- saving

/// The document with its heading.
pub open spec fn headed(body: Seq<char>) -> Seq<char> {
    "# Managed by herdr-ssh-manager. Hand edits are fine; keep it valid TOML.\n\
     # Docs: https://github.com/jorge07RD/herdr-ssh-manager\n\n"@ + body
}

/// The document to save for the serialized connections.
pub fn document(body: &str) -> (r: String)
    ensures
        r@ == headed(body@),
{
    text::concat2(
        "# Managed by herdr-ssh-manager. Hand edits are fine; keep it valid TOML.\n\
     # Docs: https://github.com/jorge07RD/herdr-ssh-manager\n\n",
        body,
    )
}

/// One step of a save. The temp file is in the same directory as the target, so that the
/// rename stays on one filesystem.
#[derive(Clone, Copy, Debug, PartialEq, Eq, Structural)]
pub enum SaveStep {
    /// Make the directory that holds the target.
    MakeDirectory,
    /// Make the temp file, empty.
    Create,
    /// Write the document to the temp file.
    Write,
    /// Wait until the temp file has reached the disk.
    Flush,
    /// Let nobody but the owner read the temp file: it records usernames, hostnames and
    /// private-key paths.
    Restrict,
    /// Rename the temp file over the target.
    Replace,
}

/// The steps of a save, in order.
pub open spec fn save_order() -> Seq<SaveStep> {
    seq![
        SaveStep::MakeDirectory,
        SaveStep::Create,
        SaveStep::Write,
        SaveStep::Flush,
        SaveStep::Restrict,
        SaveStep::Replace,
    ]
}

/// Replace the file atomically: the steps that do it, in order.
pub fn save() -> (r: Vec<SaveStep>)
    ensures
        r@ == save_order(),
{
    let mut steps: Vec<SaveStep> = Vec::new();
    steps.push(SaveStep::MakeDirectory);
    steps.push(SaveStep::Create);
    steps.push(SaveStep::Write);
    steps.push(SaveStep::Flush);
    steps.push(SaveStep::Restrict);
    steps.push(SaveStep::Replace);
    steps
}

impl SaveStep {
    /// What to say when the step fails.
    pub open spec fn failure_text(self, target: Seq<char>, temp: Seq<char>, dir: Seq<char>) -> Seq<
        char,
    > {
        match self {
            SaveStep::MakeDirectory => "could not create "@ + dir,
            SaveStep::Create => "could not create "@ + temp,
            SaveStep::Write => "could not write "@ + temp,
            SaveStep::Flush => "could not flush "@ + temp,
            SaveStep::Restrict => "could not set permissions on "@ + temp,
            SaveStep::Replace => "could not replace "@ + target + " with "@ + temp,
        }
    }

    /// What to say when the step fails.
    pub fn failure(self, target: &str, temp: &str, dir: &str) -> (r: String)
        ensures
            r@ == self.failure_text(target@, temp@, dir@),
    {
        match self {
            SaveStep::MakeDirectory => text::concat2("could not create ", dir),
            SaveStep::Create => text::concat2("could not create ", temp),
            SaveStep::Write => text::concat2("could not write ", temp),
            SaveStep::Flush => text::concat2("could not flush ", temp),
            SaveStep::Restrict => text::concat2("could not set permissions on ", temp),
            SaveStep::Replace => {
                let mut s = text::concat3("could not replace ", target, " with ");
                s.append(temp);
                s
            },
        }
    }
}

// ---------------------------------------------------------------- what a save leaves behind

/// A file, as far as a save is concerned.
pub struct FileState {
    pub contents: Seq<char>,
    /// All of it is on the disk.
    pub flushed: bool,
    /// Nobody but the owner can read it.
    pub owner_only: bool,
}

/// The two files that a save works on, as far as they exist.
pub struct Disk {
    pub target: Option<FileState>,
    pub temp: Option<FileState>,
}

/// The files once a step is done.
pub open spec fn done(disk: Disk, step: SaveStep, document: Seq<char>) -> Disk {
    match step {
        SaveStep::MakeDirectory => disk,
        SaveStep::Create => Disk {
            temp: Some(FileState { contents: seq![], flushed: false, owner_only: false }),
            ..disk
        },
        SaveStep::Write => Disk {
            temp: match disk.temp {
                Some(f) => Some(
                    FileState { contents: f.contents + document, flushed: false, ..f },
                ),
                None => None,
            },
            ..disk
        },
        SaveStep::Flush => Disk {
            temp: match disk.temp {
                Some(f) => Some(FileState { flushed: true, ..f }),
                None => None,
            },
            ..disk
        },
        SaveStep::Restrict => Disk {
            temp: match disk.temp {
                Some(f) => Some(FileState { owner_only: true, ..f }),
                None => None,
            },
            ..disk
        },
        SaveStep::Replace => match disk.temp {
            Some(f) => Disk { target: Some(f), temp: None },
            None => disk,
        },
    }
}

/// The files may be in the state `after` while a step is under way: not begun, done, or,
/// for a write, done with a part of the document.
pub open spec fn under_way(disk: Disk, step: SaveStep, document: Seq<char>, after: Disk) -> bool {
    ||| after == disk
    ||| after == done(disk, step, document)
    ||| step is Write && exists|n: int|
        0 <= n <= document.len() && after == #[trigger] done(disk, step, document.take(n))
}

/// The files once the first `n` steps of a save are done.
pub open spec fn saved_up_to(disk: Disk, document: Seq<char>, n: nat) -> Disk
    decreases n,
{
    if n == 0 {
        disk
    } else {
        done(saved_up_to(disk, document, (n - 1) as nat), save_order()[n - 1], document)
    }
}

/// The document in full, on the disk, for the owner alone.
pub open spec fn complete(document: Seq<char>) -> FileState {
    FileState { contents: document, flushed: true, owner_only: true }
}

// ---------------------------------------------------------------- laws

proof fn lemma_steps(disk: Disk, document: Seq<char>)
    ensures
        ({
            let empty = FileState { contents: seq![], flushed: false, owner_only: false };
            let written = FileState { contents: document, flushed: false, owner_only: false };
            &&& saved_up_to(disk, document, 0) == disk
            &&& saved_up_to(disk, document, 1) == disk
            &&& saved_up_to(disk, document, 2) == Disk { temp: Some(empty), ..disk }
            &&& saved_up_to(disk, document, 3) == Disk { temp: Some(written), ..disk }
            &&& saved_up_to(disk, document, 4) == Disk {
                temp: Some(FileState { flushed: true, ..written }),
                ..disk
            }
            &&& saved_up_to(disk, document, 5) == Disk { temp: Some(complete(document)), ..disk }
            &&& saved_up_to(disk, document, 6) == Disk {
                target: Some(complete(document)),
                temp: None,
            }
        }),
{
    reveal_with_fuel(saved_up_to, 8);
    assert(Seq::<char>::empty() + document =~= document);
}

/// Whenever a save is cut short, the target is what it was before or the new document,
/// complete, flushed and owner-only; never a mix of the two.
pub proof fn law_save_is_atomic(disk: Disk, document: Seq<char>, n: nat, after: Disk)
    requires
        n < save_order().len(),
        under_way(saved_up_to(disk, document, n), save_order()[n as int], document, after),
    ensures
        after.target == disk.target || after.target == Some(complete(document)),
{
    lemma_steps(disk, document);
}

/// A save that ends leaves the document in place and no temp file behind, not even one
/// that an earlier save was cut short over.
pub proof fn law_save_completes(disk: Disk, document: Seq<char>)
    ensures
        saved_up_to(disk, document, save_order().len()) == (Disk {
            target: Some(complete(document)),
            temp: None,
        }),
{
    lemma_steps(disk, document);
}

/// Two lines and an empty one.
pub open spec fn two_lines(a: Seq<char>, b: Seq<char>) -> Seq<char> {
    a + seq!['\n'] + b + seq!['\n', '\n']
}

/// A comment that fills a line.
pub open spec fn is_comment_line(s: Seq<char>) -> bool {
    s.len() > 0 && s[0] == '#' && !s.contains('\n')
}

/// The heading is two lines of comment and an empty line, so that the document says what
/// its body says.
pub proof fn law_heading_is_comments(body: Seq<char>)
    ensures
        exists|a: Seq<char>, b: Seq<char>|
            is_comment_line(a) && is_comment_line(b) && headed(body) == #[trigger] two_lines(a, b)
                + body,
{
    let heading =
        "# Managed by herdr-ssh-manager. Hand edits are fine; keep it valid TOML.\n\
     # Docs: https://github.com/jorge07RD/herdr-ssh-manager\n\n"@;
    reveal_strlit(
        "# Managed by herdr-ssh-manager. Hand edits are fine; keep it valid TOML.\n\
     # Docs: https://github.com/jorge07RD/herdr-ssh-manager\n\n",
    );
    let a = heading.take(72);
    let b = heading.subrange(73, 127);
    assert(heading.len() == 129);
    assert(heading[72] == '\n' && heading[127] == '\n' && heading[128] == '\n');
    assert(two_lines(a, b) =~= heading);
    assert(is_comment_line(a) && is_comment_line(b));
}

/// A file that cannot be parsed is kept under a name of its own, which goes on from the name
/// that it had and ends with the time.
pub proof fn law_quarantine_name(name: Seq<char>, now: (int, int))
    ensures
        ({
            let kept = quarantine_text(Some(name), now);
            let stamp = time::stamp_text(now.0, now.1);
            &&& name.is_prefix_of(kept)
            &&& kept != name
            &&& kept.len() >= name.len() + stamp.len()
            &&& kept.skip(kept.len() - stamp.len()) == stamp
            &&& quarantine_text(None, now) == quarantine_text(Some(config::CONNECTIONS_FILE@), now)
        }),
{
    reveal_strlit(".corrupt-");
    let kept = quarantine_text(Some(name), now);
    let stamp = time::stamp_text(now.0, now.1);
    assert(name =~= kept.subrange(0, name.len() as int));
    assert(kept.skip(kept.len() - stamp.len()) =~= stamp);
}

/// The document ends with the serialized connections, as they are.
pub proof fn law_document_holds_the_connections(body: Seq<char>)
    ensures
        headed(body).len() > body.len(),
        headed(body).skip(headed(body).len() - body.len()) == body,
{
    law_heading_is_comments(body);
    assert(headed(body).skip(headed(body).len() - body.len()) =~= body);
    assert(headed(body).len() > body.len()) by {
        let (a, b) = choose|a: Seq<char>, b: Seq<char>|
            is_comment_line(a) && is_comment_line(b) && headed(body) == #[trigger] two_lines(a, b)
                + body;
        assert(two_lines(a, b).len() > 0);
    }
}

/// A step that fails is told with the file or directory that it was about.
pub proof fn law_failures_name_the_file(
    step: SaveStep,
    target: Seq<char>,
    temp: Seq<char>,
    dir: Seq<char>,
)
    ensures
        step is MakeDirectory ==> text::occurs_in(step.failure_text(target, temp, dir), dir),
        !(step is MakeDirectory) ==> text::occurs_in(step.failure_text(target, temp, dir), temp),
        step is Replace ==> text::occurs_in(step.failure_text(target, temp, dir), target),
{
    let s = step.failure_text(target, temp, dir);
    let named = if step is MakeDirectory {
        dir
    } else {
        temp
    };
    let i = s.len() - named.len();
    assert(s.subrange(i, i + named.len()) =~= named);
    assert(text::occurs_at(s, named, i));
    if step is Replace {
        let j = "could not replace "@.len() as int;
        assert(s.subrange(j, j + target.len()) =~= target);
        assert(text::occurs_at(s, target, j));
    }
}

} // verus!
