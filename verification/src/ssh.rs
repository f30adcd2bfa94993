//! Building the `ssh` command line and finding the program to hand the process over to.

use crate::config;
use crate::config::Platform;
use crate::model::{Connection, ConnectionView};
use crate::number;
use crate::split;
use crate::text;
use vstd::prelude::*;

verus! {

broadcast use text::lemma_texts_push;

// ---------------------------------------------------------------- entries that cannot work

/// Why an entry cannot be turned into a command line.
#[derive(Debug, PartialEq, Eq)]
pub enum SshError {
    NoHost { name: String, id: String },
    /// A host starting with `-` would be read by ssh as a flag.
    HostIsFlag { name: String, host: String },
    HostHasWhitespace { name: String, host: String },
    InvalidUser { name: String, user: String },
}

/// The mathematical form of an [`SshError`].
pub enum SshErrorView {
    NoHost { name: Seq<char>, id: Seq<char> },
    HostIsFlag { name: Seq<char>, host: Seq<char> },
    HostHasWhitespace { name: Seq<char>, host: Seq<char> },
    InvalidUser { name: Seq<char>, user: Seq<char> },
}

impl View for SshError {
    type V = SshErrorView;

    open spec fn view(&self) -> SshErrorView {
        match self {
            SshError::NoHost { name, id } => SshErrorView::NoHost { name: name@, id: id@ },
            SshError::HostIsFlag { name, host } => SshErrorView::HostIsFlag {
                name: name@,
                host: host@,
            },
            SshError::HostHasWhitespace { name, host } => SshErrorView::HostHasWhitespace {
                name: name@,
                host: host@,
            },
            SshError::InvalidUser { name, user } => SshErrorView::InvalidUser {
                name: name@,
                user: user@,
            },
        }
    }
}

impl SshErrorView {
    pub open spec fn text(self) -> Seq<char> {
        match self {
            SshErrorView::NoHost { name, id } => "connection `"@ + name
                + "` has no host; fix it with `herdr-ssh-manager edit "@ + id + "`"@,
            SshErrorView::HostIsFlag { name, host } => "connection `"@ + name
                + "` has an invalid host "@ + text::debug_text(host)
                + ": it must not start with `-`"@,
            SshErrorView::HostHasWhitespace { name, host } => "connection `"@ + name
                + "` has an invalid host "@ + text::debug_text(host)
                + ": it must not contain whitespace"@,
            SshErrorView::InvalidUser { name, user } => "connection `"@ + name
                + "` has an invalid user "@ + text::debug_text(user),
        }
    }
}

impl SshError {
    /// What to tell the user.
    pub fn message(&self) -> (r: String)
        ensures
            r@ == self@.text(),
    {
        let mut s = "connection `".to_string();
        match self {
            SshError::NoHost { name, id } => {
                s.append(name.as_str());
                s.append("` has no host; fix it with `herdr-ssh-manager edit ");
                s.append(id.as_str());
                s.append("`");
            },
            SshError::HostIsFlag { name, host } => {
                s.append(name.as_str());
                s.append("` has an invalid host ");
                s.append(text::debug(host.as_str()).as_str());
                s.append(": it must not start with `-`");
            },
            SshError::HostHasWhitespace { name, host } => {
                s.append(name.as_str());
                s.append("` has an invalid host ");
                s.append(text::debug(host.as_str()).as_str());
                s.append(": it must not contain whitespace");
            },
            SshError::InvalidUser { name, user } => {
                s.append(name.as_str());
                s.append("` has an invalid user ");
                s.append(text::debug(user.as_str()).as_str());
            },
        }
        s
    }
}

/// An optional field without the white space around it; one that is blank counts as absent.
pub open spec fn filled(value: Option<Seq<char>>) -> Option<Seq<char>> {
    match value {
        Some(v) => if text::is_blank(v) {
            None
        } else {
            Some(text::trimmed(v))
        },
        None => None,
    }
}

/// Why the entry would produce a nonsensical or unsafe command line, if it would.
pub open spec fn fault(c: ConnectionView) -> Option<SshErrorView> {
    let host = text::trimmed(c.host);
    if host.len() == 0 {
        Some(SshErrorView::NoHost { name: c.name, id: c.id })
    } else if host[0] == '-' {
        Some(SshErrorView::HostIsFlag { name: c.name, host })
    } else if !text::no_white(host) {
        Some(SshErrorView::HostHasWhitespace { name: c.name, host })
    } else {
        match filled(c.user) {
            Some(user) if user[0] == '-' || user.contains('@') || !text::no_white(user) => Some(
                SshErrorView::InvalidUser { name: c.name, user },
            ),
            _ => None,
        }
    }
}

/// An optional field without the white space around it; one that is blank counts as absent.
pub fn non_blank(value: &Option<String>) -> (r: Option<String>)
    ensures
        text::opt_text(r) == filled(text::opt_text(*value)),
{
    match value {
        Some(v) => {
            let t = text::trim(v.as_str());
            if t.as_str().is_empty() {
                None
            } else {
                Some(t)
            }
        },
        None => None,
    }
}

/// Reject entries that would produce a nonsensical or unsafe command line.
pub fn validate(conn: &Connection) -> (r: Result<(), SshError>)
    ensures
        match (r, fault(conn@)) {
            (Ok(()), None) => true,
            (Err(e), Some(f)) => e@ == f,
            _ => false,
        },
{
    let host = text::trim(conn.host.as_str());
    if host.as_str().is_empty() {
        return Err(SshError::NoHost { name: conn.name.clone(), id: conn.id.clone() });
    }
    if text::begins_with_char(host.as_str(), '-') {
        return Err(SshError::HostIsFlag { name: conn.name.clone(), host });
    }
    if text::has_white(host.as_str()) {
        return Err(SshError::HostHasWhitespace { name: conn.name.clone(), host });
    }
    if let Some(user) = non_blank(&conn.user) {
        if text::begins_with_char(user.as_str(), '-') || text::contains_char(user.as_str(), '@')
            || text::has_white(user.as_str()) {
            return Err(SshError::InvalidUser { name: conn.name.clone(), user });
        }
    }
    Ok(())
}

// ---------------------------------------------------------------- the argument list

/// The arguments that are not blank, verbatim.
pub open spec fn without_blanks(args: Seq<Seq<char>>) -> Seq<Seq<char>>
    decreases args.len(),
{
    if args.len() == 0 {
        seq![]
    } else {
        let before = without_blanks(args.drop_last());
        if text::is_blank(args.last()) {
            before
        } else {
            before.push(args.last())
        }
    }
}

/// `user@host`, or the host alone.
pub open spec fn target(c: ConnectionView) -> Seq<char> {
    let host = text::trimmed(c.host);
    match filled(c.user) {
        Some(user) => user + "@"@ + host,
        None => host,
    }
}

/// The flags: `[-p] [-i] [-J]`, each with its value.
pub open spec fn flags(c: ConnectionView, home: Option<Seq<char>>) -> Seq<Seq<char>> {
    let port = if c.port == 22 {
        seq![]
    } else {
        seq!["-p"@, number::decimal(c.port as nat)]
    };
    let identity = match filled(c.identity_file) {
        Some(path) => seq!["-i"@, config::expanded(path, home)],
        None => seq![],
    };
    let jump = match filled(c.jump_host) {
        Some(jump) => seq!["-J"@, jump],
        None => seq![],
    };
    port + identity + jump
}

/// The argv passed to `ssh`: `[-p] [-i] [-J] [extra…] destination`.
pub open spec fn ssh_args(c: ConnectionView, home: Option<Seq<char>>) -> Seq<Seq<char>> {
    (flags(c, home) + without_blanks(c.extra_ssh_args)).push(target(c))
}

/// Build the argv passed to `ssh`, excluding argv[0]. A leading `~` in the identity file
/// stands for `home`.
///
/// Order is `[-p] [-i] [-J] [extra…] destination`, with the destination last: what stands in
/// `extra_ssh_args` comes before it and is handed over as it is.
pub fn build_args(conn: &Connection, home: &Option<String>) -> (r: Result<Vec<String>, SshError>)
    ensures
        match (r, fault(conn@)) {
            (Ok(args), None) => text::texts(args@) == ssh_args(conn@, text::opt_text(*home)),
            (Err(e), Some(f)) => e@ == f,
            _ => false,
        },
{
    if let Err(e) = validate(conn) {
        return Err(e);
    }
    let ghost c = conn@;
    let ghost h = text::opt_text(*home);
    let mut args: Vec<String> = Vec::new();
    if conn.port != 22 {
        args.push("-p".to_string());
        args.push(number::to_decimal(conn.port as u128));
    }
    if let Some(identity) = non_blank(&conn.identity_file) {
        args.push("-i".to_string());
        args.push(config::expand_tilde(identity.as_str(), home));
    }
    if let Some(jump) = non_blank(&conn.jump_host) {
        args.push("-J".to_string());
        args.push(jump);
    }
    assert(text::texts(args@) =~= flags(c, h));
    let ghost extras = c.extra_ssh_args;
    let mut i: usize = 0;
    assert(text::texts(args@) =~= flags(c, h) + without_blanks(extras.take(0)));
    while i < conn.extra_ssh_args.len()
        invariant
            i <= conn.extra_ssh_args@.len(),
            extras == text::texts(conn.extra_ssh_args@),
            text::texts(args@) == flags(c, h) + without_blanks(extras.take(i as int)),
        decreases conn.extra_ssh_args@.len() - i,
    {
        let extra = &conn.extra_ssh_args[i];
        proof {
            assert(extras.take(i + 1).drop_last() =~= extras.take(i as int));
            assert(extras.take(i + 1).last() == extra@);
        }
        if !text::blank(extra.as_str()) {
            proof {
                assert(flags(c, h) + without_blanks(extras.take(i as int)).push(extra@) =~= (
                flags(c, h) + without_blanks(extras.take(i as int))).push(extra@));
            }
            args.push(extra.clone());
        }
        i = i + 1;
    }
    assert(extras.take(i as int) =~= extras);
    let host = text::trim(conn.host.as_str());
    let destination = match non_blank(&conn.user) {
        Some(user) => text::concat3(user.as_str(), "@", host.as_str()),
        None => host,
    };
    args.push(destination);
    Ok(args)
}

/// An argument as shown to the user: quoted when it contains white space.
pub open spec fn shown(arg: Seq<char>) -> Seq<char> {
    if text::no_white(arg) {
        arg
    } else {
        text::debug_text(arg)
    }
}

/// `ssh` and the arguments, with a space between neighbours.
pub open spec fn shown_command(args: Seq<Seq<char>>) -> Seq<char>
    decreases args.len(),
{
    if args.len() == 0 {
        "ssh"@
    } else {
        shown_command(args.drop_last()) + " "@ + shown(args.last())
    }
}

/// A human-readable rendering of an ssh command with the given arguments.
pub fn render_command(args: &Vec<String>) -> (r: String)
    ensures
        r@ == shown_command(text::texts(args@)),
{
    let ghost all = text::texts(args@);
    let mut out = "ssh".to_string();
    let mut i: usize = 0;
    assert(all.take(0) =~= seq![]);
    while i < args.len()
        invariant
            i <= args@.len(),
            all == text::texts(args@),
            out@ == shown_command(all.take(i as int)),
        decreases args@.len() - i,
    {
        proof {
            assert(all.take(i + 1).drop_last() =~= all.take(i as int));
            assert(all.take(i + 1).last() == args@[i as int]@);
        }
        out.append(" ");
        if text::has_white(args[i].as_str()) {
            out.append(text::debug(args[i].as_str()).as_str());
        } else {
            out.append(args[i].as_str());
        }
        i = i + 1;
    }
    assert(all.take(i as int) =~= all);
    out
}

/// A human-readable rendering of the command, for `--print` and messages.
pub fn command_line(conn: &Connection, home: &Option<String>) -> (r: Result<String, SshError>)
    ensures
        match (r, fault(conn@)) {
            (Ok(line), None) => line@ == shown_command(ssh_args(conn@, text::opt_text(*home))),
            (Err(e), Some(f)) => e@ == f,
            _ => false,
        },
{
    match build_args(conn, home) {
        Ok(args) => Ok(render_command(&args)),
        Err(e) => Err(e),
    }
}

// ---------------------------------------------------------------- the program

/// No ssh client could be found.
#[derive(Clone, Copy, Debug, PartialEq, Eq, Structural)]
pub enum FindSshError {
    PathNotSet,
    NotFound(Platform),
}

/// The file name of the ssh client.
pub open spec fn ssh_name(platform: Platform) -> Seq<char> {
    match platform {
        Platform::Windows => "ssh.exe"@,
        Platform::Unix => "ssh"@,
    }
}

/// The file name of the ssh client.
pub fn ssh_exe(platform: Platform) -> (r: &'static str)
    ensures
        r@ == ssh_name(platform),
{
    match platform {
        Platform::Windows => "ssh.exe",
        Platform::Unix => "ssh",
    }
}

impl FindSshError {
    pub open spec fn text(self) -> Seq<char> {
        match self {
            FindSshError::PathNotSet => "PATH is not set, so `ssh` cannot be located"@,
            FindSshError::NotFound(platform) => "`"@ + ssh_name(platform)
                + "` was not found on PATH. Install an OpenSSH client \
                 (Debian/Ubuntu: `sudo apt install openssh-client`; macOS: bundled; \
                 Windows: Settings > Optional features > OpenSSH Client)."@,
        }
    }

    /// What to tell the user.
    pub fn message(&self) -> (r: String)
        ensures
            r@ == self.text(),
    {
        match self {
            FindSshError::PathNotSet => "PATH is not set, so `ssh` cannot be located".to_string(),
            FindSshError::NotFound(platform) => {
                text::concat3(
                    "`",
                    ssh_exe(*platform),
                    "` was not found on PATH. Install an OpenSSH client \
                 (Debian/Ubuntu: `sudo apt install openssh-client`; macOS: bundled; \
                 Windows: Settings > Optional features > OpenSSH Client).",
                )
            },
        }
    }
}

/// Is a file with this mode a program that somebody may run?
pub fn is_executable(is_file: bool, mode: u32) -> (r: bool)
    ensures
        r == (is_file && mode & 0o111 != 0),
{
    is_file && mode & 0o111 != 0
}

/// The first directory whose candidate is executable.
pub open spec fn first_executable(found: Seq<bool>) -> Option<int>
    decreases found.len(),
{
    if found.len() == 0 {
        None
    } else {
        match first_executable(found.drop_last()) {
            Some(i) => Some(i),
            None => if found.last() {
                Some(found.len() - 1)
            } else {
                None
            },
        }
    }
}

/// Which directory of PATH holds the ssh client: the first whose candidate is executable.
/// `executable` says of each directory whether its candidate is, and is missing when PATH
/// is not set.
///
/// A missing client fails with a clear message rather than a bare "No such file or
/// directory" from exec.
pub fn find_ssh(platform: Platform, executable: &Option<Vec<bool>>) -> (r: Result<
    usize,
    FindSshError,
>)
    ensures
        match *executable {
            None => r == Err::<usize, FindSshError>(FindSshError::PathNotSet),
            Some(found) => match first_executable(found@) {
                Some(i) => r is Ok && r->Ok_0 == i,
                None => r == Err::<usize, FindSshError>(FindSshError::NotFound(platform)),
            },
        },
        match (r, *executable) {
            (Ok(i), Some(found)) => {
                &&& i < found@.len()
                &&& found@[i as int]
                &&& forall|j: int| 0 <= j < i ==> !#[trigger] found@[j]
            },
            (Err(e), Some(found)) => {
                &&& e == FindSshError::NotFound(platform)
                &&& forall|j: int| 0 <= j < found@.len() ==> !#[trigger] found@[j]
            },
            (Err(e), None) => e == FindSshError::PathNotSet,
            (Ok(_), None) => false,
        },
{
    match executable {
        None => Err(FindSshError::PathNotSet),
        Some(found) => {
            let mut i: usize = 0;
            while i < found.len()
                invariant
                    i <= found@.len(),
                    *executable == Some(*found),
                    forall|j: int| 0 <= j < i ==> !#[trigger] found@[j],
                decreases found@.len() - i,
            {
                if found[i] {
                    proof {
                        law_first_executable(found@, i as int);
                    }
                    return Ok(i);
                }
                i = i + 1;
            }
            proof {
                law_first_executable(found@, 0);
            }
            Err(FindSshError::NotFound(platform))
        },
    }
}

// ---------------------------------------------------------------- laws

/// The destination comes last, is one word, and does not read as a flag.
pub proof fn law_destination_is_last(c: ConnectionView, home: Option<Seq<char>>)
    requires
        fault(c) is None,
    ensures
        ssh_args(c, home).last() == target(c),
        target(c).len() > 0,
        text::no_white(target(c)),
        target(c)[0] != '-',
{
    reveal_strlit("@");
    let t = target(c);
    let host = text::trimmed(c.host);
    if let Some(user) = filled(c.user) {
        assert(t[0] == user[0]);
        assert forall|i: int| 0 <= i < t.len() implies !text::is_white(#[trigger] t[i]) by {
            if i < user.len() {
                assert(t[i] == user[i]);
            } else if i > user.len() {
                assert(t[i] == host[i - user.len() - 1]);
            }
        }
    }
}

/// Fields that are blank make no difference to the command line.
pub proof fn law_blank_fields_count_as_absent(c: ConnectionView, home: Option<Seq<char>>)
    requires
        c.user is Some ==> text::is_blank(c.user->0),
        c.identity_file is Some ==> text::is_blank(c.identity_file->0),
        c.jump_host is Some ==> text::is_blank(c.jump_host->0),
        forall|i: int|
            0 <= i < c.extra_ssh_args.len() ==> text::is_blank(#[trigger] c.extra_ssh_args[i]),
        c.port == 22,
    ensures
        ssh_args(c, home) == seq![text::trimmed(c.host)],
{
    lemma_only_blanks(c.extra_ssh_args);
    assert(ssh_args(c, home) =~= seq![text::trimmed(c.host)]);
}

proof fn lemma_only_blanks(args: Seq<Seq<char>>)
    requires
        forall|i: int| 0 <= i < args.len() ==> text::is_blank(#[trigger] args[i]),
    ensures
        without_blanks(args) == Seq::<Seq<char>>::empty(),
    decreases args.len(),
{
    if args.len() > 0 {
        let front = args.drop_last();
        assert forall|i: int| 0 <= i < front.len() implies text::is_blank(#[trigger] front[i]) by {
            assert(front[i] == args[i]);
        }
        lemma_only_blanks(front);
        assert(text::is_blank(args[args.len() - 1]));
    }
}

/// An optional field counts as absent where it is missing or holds nothing but white space,
/// and otherwise stands without the white space around it.
pub proof fn law_filled(before: Seq<char>, value: Seq<char>, after: Seq<char>)
    requires
        text::all_white(before),
        text::is_tight(value),
        text::all_white(after),
    ensures
        filled(None) is None,
        value.len() > 0 ==> filled(Some(before + value + after)) == Some(value),
        value.len() == 0 ==> filled(Some(before + value + after)) is None,
{
    text::law_trimmed(before, value, after);
}

/// An entry can be used where its host is one word that does not start with a dash, and its
/// user, if there is one, is one word without an at sign that does not start with a dash.
/// No other field matters.
pub proof fn law_usable(c: ConnectionView)
    ensures
        fault(c) is None <==> {
            let host = text::trimmed(c.host);
            &&& host.len() > 0
            &&& host[0] != '-'
            &&& forall|i: int| 0 <= i < host.len() ==> !text::is_white(#[trigger] host[i])
            &&& filled(c.user) matches Some(user) ==> {
                &&& user[0] != '-'
                &&& forall|i: int|
                    0 <= i < user.len() ==> #[trigger] user[i] != '@' && !text::is_white(user[i])
            }
        },
{
    if let Some(user) = filled(c.user) {
        if user.contains('@') {
            let i = choose|i: int| 0 <= i < user.len() && user[i] == '@';
            assert(user[i] == '@');
        } else {
            assert forall|i: int| 0 <= i < user.len() implies #[trigger] user[i] != '@' by {
                assert(!user.contains('@'));
            }
        }
    }
}

/// What is wrong with an entry is named, the host before the user, with the entry's name
/// and what it holds.
pub proof fn law_fault_is_named(c: ConnectionView)
    ensures
        fault(c) matches Some(f) ==> {
            let host = text::trimmed(c.host);
            match f {
                SshErrorView::NoHost { name, id } => name == c.name && id == c.id && host.len()
                    == 0,
                SshErrorView::HostIsFlag { name, host: shown } => name == c.name && shown == host
                    && host.len() > 0 && host[0] == '-',
                SshErrorView::HostHasWhitespace { name, host: shown } => name == c.name && shown
                    == host && host.len() > 0 && host[0] != '-' && !text::no_white(host),
                SshErrorView::InvalidUser { name, user } => name == c.name && Some(user) == filled(
                    c.user,
                ) && host.len() > 0 && host[0] != '-' && text::no_white(host),
            }
        },
{
}

/// The destination is the host without the white space around it, with the user and an at
/// sign in front where there is a user.
pub proof fn law_target(c: ConnectionView)
    ensures
        filled(c.user) is None ==> target(c) == text::trimmed(c.host),
        filled(c.user) matches Some(user) ==> target(c) == user.push('@') + text::trimmed(c.host),
{
    reveal_strlit("@");
    if let Some(user) = filled(c.user) {
        assert(target(c) =~= user.push('@') + text::trimmed(c.host));
    }
}

/// The arguments that stand for a flag of its own: two where it is set.
pub open spec fn places(set: bool) -> int {
    if set {
        2
    } else {
        0
    }
}

/// Each flag depends on its own field alone. The port comes first, where it is not the
/// usual one, then the identity file and the jump host, where they are filled in, each
/// directly behind its flag; then the extra arguments, and the destination at the end.
pub proof fn law_each_flag_has_its_field(c: ConnectionView, home: Option<Seq<char>>)
    ensures
        ({
            let args = ssh_args(c, home);
            let i = places(c.port != 22);
            let j = i + places(filled(c.identity_file) is Some);
            let k = j + places(filled(c.jump_host) is Some);
            &&& c.port != 22 ==> args[0] == "-p"@ && args[1] == number::decimal(c.port as nat)
            &&& filled(c.identity_file) matches Some(path) ==> args[i] == "-i"@ && args[i + 1]
                == config::expanded(path, home)
            &&& filled(c.jump_host) matches Some(jump) ==> args[j] == "-J"@ && args[j + 1] == jump
            &&& args.len() == k + without_blanks(c.extra_ssh_args).len() + 1
            &&& args.subrange(k, args.len() - 1) == without_blanks(c.extra_ssh_args)
            &&& args.last() == target(c)
        }),
{
    let args = ssh_args(c, home);
    let k = flags(c, home).len() as int;
    assert(args.subrange(k, args.len() - 1) =~= without_blanks(c.extra_ssh_args));
}

/// Filling in one field adds its flag and changes nothing else on the command line, whatever
/// the other fields hold.
pub proof fn law_one_field_one_flag(c: ConnectionView, home: Option<Seq<char>>)
    ensures
        ({
            let args = ssh_args(c, home);
            let i = places(c.port != 22);
            let j = i + places(filled(c.identity_file) is Some);
            let no_port = ssh_args(ConnectionView { port: 22, ..c }, home);
            let no_key = ssh_args(ConnectionView { identity_file: None, ..c }, home);
            let no_jump = ssh_args(ConnectionView { jump_host: None, ..c }, home);
            &&& c.port != 22 ==> args == seq!["-p"@, number::decimal(c.port as nat)] + no_port
            &&& filled(c.identity_file) matches Some(path) ==> args == no_key.take(i) + seq![
                "-i"@,
                config::expanded(path, home),
            ] + no_key.skip(i)
            &&& filled(c.jump_host) matches Some(jump) ==> args == no_jump.take(j) + seq![
                "-J"@,
                jump,
            ] + no_jump.skip(j)
            &&& filled(c.identity_file) is None ==> args == no_key
            &&& filled(c.jump_host) is None ==> args == no_jump
        }),
{
    let args = ssh_args(c, home);
    let i = places(c.port != 22);
    let j = i + places(filled(c.identity_file) is Some);
    let no_port = ssh_args(ConnectionView { port: 22, ..c }, home);
    let no_key = ssh_args(ConnectionView { identity_file: None, ..c }, home);
    let no_jump = ssh_args(ConnectionView { jump_host: None, ..c }, home);
    if c.port != 22 {
        assert(args =~= seq!["-p"@, number::decimal(c.port as nat)] + no_port);
    }
    if let Some(path) = filled(c.identity_file) {
        assert(args =~= no_key.take(i) + seq!["-i"@, config::expanded(path, home)] + no_key.skip(
            i,
        ));
    }
    if let Some(jump) = filled(c.jump_host) {
        assert(args =~= no_jump.take(j) + seq!["-J"@, jump] + no_jump.skip(j));
    }
}

/// Fields that are no part of a command line make no difference to it.
pub proof fn law_other_fields_do_not_show(
    c: ConnectionView,
    d: ConnectionView,
    home: Option<Seq<char>>,
)
    requires
        c.host == d.host,
        c.port == d.port,
        c.user == d.user,
        c.identity_file == d.identity_file,
        c.jump_host == d.jump_host,
        c.extra_ssh_args == d.extra_ssh_args,
    ensures
        ssh_args(c, home) == ssh_args(d, home),
        fault(c) is None <==> fault(d) is None,
{
}

/// The extra arguments are handed over one by one, as they are and in their order; only
/// those that are blank are left out.
pub proof fn law_extra_args_are_verbatim(a: Seq<Seq<char>>, x: Seq<char>, b: Seq<Seq<char>>)
    ensures
        without_blanks(a + b) == without_blanks(a) + without_blanks(b),
        !text::all_white(x) ==> without_blanks(seq![x]) == seq![x],
        text::all_white(x) ==> without_blanks(seq![x]).len() == 0,
        without_blanks(Seq::empty()).len() == 0,
    decreases b.len(),
{
    text::law_blank(x);
    let one = seq![x];
    assert(one.drop_last() =~= seq![]);
    assert(without_blanks(one.drop_last()) =~= seq![]);
    assert(one.last() == x);
    if !text::all_white(x) {
        assert(without_blanks(one) =~= one);
    }
    if b.len() == 0 {
        assert(a + b =~= a);
        assert(without_blanks(a) + without_blanks(b) =~= without_blanks(a));
    } else {
        law_extra_args_are_verbatim(a, x, b.drop_last());
        assert((a + b).drop_last() =~= a + b.drop_last());
        assert((a + b).last() == b.last());
        assert(without_blanks(a + b) =~= without_blanks(a) + without_blanks(b));
    }
}

/// A command is shown as `ssh` and its arguments with a space in front of each; those with
/// white space in them are shown in quotes.
pub proof fn law_shown_command(args: Seq<Seq<char>>, arg: Seq<char>)
    ensures
        shown_command(Seq::empty()) == seq!['s', 's', 'h'],
        text::no_white(arg) ==> shown_command(args.push(arg)) == shown_command(args).push(' ')
            + arg,
        !text::no_white(arg) ==> shown_command(args.push(arg)) == shown_command(args).push(' ')
            + text::debug_text(arg),
{
    reveal_strlit("ssh");
    reveal_strlit(" ");
    assert("ssh"@ =~= seq!['s', 's', 'h']);
    assert(args.push(arg).drop_last() =~= args);
    assert(shown_command(args) + " "@ =~= shown_command(args).push(' '));
}

/// What is told of an entry that cannot be used names the entry, and shows the host or the
/// user that is at fault, or says how to mend an entry without a host.
pub proof fn law_faults_are_told(e: SshErrorView)
    ensures
        match e {
            SshErrorView::NoHost { name, id } => text::occurs_in(e.text(), name) && text::occurs_in(
                e.text(),
                id,
            ),
            SshErrorView::HostIsFlag { name, host } => text::occurs_in(e.text(), name)
                && text::occurs_in(e.text(), text::debug_text(host)),
            SshErrorView::HostHasWhitespace { name, host } => text::occurs_in(e.text(), name)
                && text::occurs_in(e.text(), text::debug_text(host)),
            SshErrorView::InvalidUser { name, user } => text::occurs_in(e.text(), name)
                && text::occurs_in(e.text(), text::debug_text(user)),
        },
{
    let s = e.text();
    let i = "connection `"@.len() as int;
    match e {
        SshErrorView::NoHost { name, id } => {
            text::lemma_found(s, name, i);
            let j = i + name.len() + "` has no host; fix it with `herdr-ssh-manager edit "@.len();
            text::lemma_found(s, id, j);
        },
        SshErrorView::HostIsFlag { name, host } => {
            text::lemma_found(s, name, i);
            let j = i + name.len() + "` has an invalid host "@.len();
            text::lemma_found(s, text::debug_text(host), j);
        },
        SshErrorView::HostHasWhitespace { name, host } => {
            text::lemma_found(s, name, i);
            let j = i + name.len() + "` has an invalid host "@.len();
            text::lemma_found(s, text::debug_text(host), j);
        },
        SshErrorView::InvalidUser { name, user } => {
            text::lemma_found(s, name, i);
            let j = i + name.len() + "` has an invalid user "@.len();
            text::lemma_found(s, text::debug_text(user), j);
        },
    }
}

/// The ssh that is taken is the first on PATH that can be run, and there is none where none
/// can.
pub proof fn law_first_executable(found: Seq<bool>, i: int)
    ensures
        0 <= i < found.len() && found[i] && (forall|j: int| 0 <= j < i ==> !#[trigger] found[j])
            ==> first_executable(found) == Some(i),
        (forall|j: int| 0 <= j < found.len() ==> !#[trigger] found[j]) ==> first_executable(found)
            is None,
    decreases found.len(),
{
    if found.len() > 0 {
        let front = found.drop_last();
        if 0 <= i < found.len() && found[i] && (forall|j: int|
            0 <= j < i ==> !#[trigger] found[j]) {
            if i < front.len() {
                assert(front[i] == found[i]);
            }
            assert forall|j: int| 0 <= j < i && j < front.len() implies !#[trigger] front[j] by {
                assert(!found[j]);
            }
        }
        if forall|j: int| 0 <= j < found.len() ==> !#[trigger] found[j] {
            assert forall|j: int| 0 <= j < front.len() implies !#[trigger] front[j] by {
                assert(!found[j]);
            }
            assert(!found[found.len() - 1]);
        }
        law_first_executable(front, i);
    }
}

} // verus!
