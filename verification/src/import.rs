//! A small parser for `~/.ssh/config`, used by `herdr-ssh-manager import`.
//!
//! This deliberately understands only the handful of keywords that map onto a saved
//! connection. Anything else in the file is ignored, and pattern entries (`Host *`,
//! `Host web-?`) are skipped because they describe defaults rather than a destination.
//! `Include` is not followed: importing is a one-off convenience, not a reimplementation
//! of ssh's config resolution.

use crate::model;
use crate::model::{Connection, ConnectionView};
use crate::number;
use crate::split;
use crate::text;
use vstd::prelude::*;

pub use crate::config::default_ssh_config_path;

verus! {

broadcast use text::lemma_texts_push;

/// One `Host` block, reduced to what we store.
#[derive(Debug, PartialEq, Eq)]
pub struct SshConfigHost {
    /// The alias as written after `Host`.
    pub alias: String,
    pub hostname: Option<String>,
    pub user: Option<String>,
    pub port: Option<u16>,
    pub identity_file: Option<String>,
    pub proxy_jump: Option<String>,
}

/// The mathematical form of a [`SshConfigHost`].
#[verifier::ext_equal]
pub struct HostView {
    pub alias: Seq<char>,
    pub hostname: Option<Seq<char>>,
    pub user: Option<Seq<char>>,
    pub port: Option<u16>,
    pub identity_file: Option<Seq<char>>,
    pub proxy_jump: Option<Seq<char>>,
}

impl View for SshConfigHost {
    type V = HostView;

    open spec fn view(&self) -> HostView {
        HostView {
            alias: self.alias@,
            hostname: text::opt_text(self.hostname),
            user: text::opt_text(self.user),
            port: self.port,
            identity_file: text::opt_text(self.identity_file),
            proxy_jump: text::opt_text(self.proxy_jump),
        }
    }
}

impl Clone for SshConfigHost {
    fn clone(&self) -> (r: Self)
        ensures
            r@ == self@,
    {
        SshConfigHost {
            alias: self.alias.clone(),
            hostname: text::copy_opt(&self.hostname),
            user: text::copy_opt(&self.user),
            port: self.port,
            identity_file: text::copy_opt(&self.identity_file),
            proxy_jump: text::copy_opt(&self.proxy_jump),
        }
    }
}

/// The mathematical form of a list of hosts.
pub open spec fn host_views(v: Seq<SshConfigHost>) -> Seq<HostView> {
    Seq::new(v.len(), |i: int| v[i]@)
}

/// What a directive is about.
#[derive(Clone, Copy, Debug, PartialEq, Eq, Structural)]
pub enum Keyword {
    Host,
    Match,
    HostName,
    User,
    IdentityFile,
    ProxyJump,
    Port,
    Other,
}

/// What the directive with the given first word is about; the case of letters does not
/// matter.
pub open spec fn keyword_of(word: Seq<char>) -> Keyword {
    let w = text::lower(word);
    if w == "host"@ {
        Keyword::Host
    } else if w == "match"@ {
        Keyword::Match
    } else if w == "hostname"@ {
        Keyword::HostName
    } else if w == "user"@ {
        Keyword::User
    } else if w == "identityfile"@ {
        Keyword::IdentityFile
    } else if w == "proxyjump"@ {
        Keyword::ProxyJump
    } else if w == "port"@ {
        Keyword::Port
    } else {
        Keyword::Other
    }
}

/// How many characters stand in front of the first white space or equals sign.
pub open spec fn keyword_len(s: Seq<char>) -> nat
    decreases s.len(),
{
    if s.len() == 0 || text::is_white(s[0]) || s[0] == '=' {
        0
    } else {
        1 + keyword_len(s.drop_first())
    }
}

/// `s` without the equals signs it starts with.
pub open spec fn strip_equals(s: Seq<char>) -> Seq<char>
    decreases s.len(),
{
    if s.len() > 0 && s[0] == '=' {
        strip_equals(s.drop_first())
    } else {
        s
    }
}

/// The keyword and the value of a line `Keyword value` or `Keyword = value`. Comments,
/// blank lines and lines of one word have none.
pub open spec fn directive(line: Seq<char>) -> Option<(Seq<char>, Seq<char>)> {
    let t = text::trimmed(line);
    let n = keyword_len(t);
    if t.len() == 0 || t[0] == '#' || n == t.len() {
        None
    } else {
        Some(
            (
                t.take(n as int),
                text::trimmed(strip_equals(text::trim_start(t.skip(n as int)))),
            ),
        )
    }
}

/// `!pattern` negations and globs describe rules, not destinations.
pub open spec fn pattern(alias: Seq<char>) -> bool {
    text::starts_with_char(alias, '!') || alias.contains('*') || alias.contains('?')
}

/// `value` without the double quotes around it.
pub open spec fn unquoted(value: Seq<char>) -> Seq<char> {
    if value.len() >= 2 && value[0] == '"' && value.last() == '"' {
        value.subrange(1, value.len() - 1)
    } else {
        value
    }
}

/// `current`, or `value` where there is nothing yet.
pub open spec fn first_of<T>(current: Option<T>, value: T) -> Option<T> {
    match current {
        Some(v) => Some(v),
        None => Some(value),
    }
}

impl HostView {
    /// A host of which nothing but the alias is known.
    pub open spec fn bare(alias: Seq<char>) -> HostView {
        HostView {
            alias,
            hostname: None,
            user: None,
            port: None,
            identity_file: None,
            proxy_jump: None,
        }
    }

    /// The host with a setting applied. The first value of a repeated keyword stands.
    pub open spec fn with(self, keyword: Keyword, value: Seq<char>) -> HostView {
        match keyword {
            Keyword::HostName => HostView { hostname: first_of(self.hostname, value), ..self },
            Keyword::User => HostView { user: first_of(self.user, value), ..self },
            Keyword::IdentityFile => HostView {
                identity_file: first_of(self.identity_file, unquoted(value)),
                ..self
            },
            Keyword::ProxyJump => HostView { proxy_jump: first_of(self.proxy_jump, value), ..self },
            Keyword::Port => match number::u16_in(value) {
                Some(port) => HostView { port: first_of(self.port, port), ..self },
                None => self,
            },
            _ => self,
        }
    }

    /// The host ssh would actually dial: `HostName` when present, else the alias.
    pub open spec fn effective_host(self) -> Seq<char> {
        match self.hostname {
            Some(h) => h,
            None => self.alias,
        }
    }

    /// The connection that the host stands for.
    pub open spec fn connection(self) -> ConnectionView {
        ConnectionView {
            user: self.user,
            port: match self.port {
                Some(p) => p,
                None => 22,
            },
            identity_file: self.identity_file,
            jump_host: self.proxy_jump,
            tags: seq!["ssh-config"@],
            ..ConnectionView::plain(self.alias, self.effective_host())
        }
    }
}

/// The hosts seen so far, and the position from which on they belong to the current block.
#[verifier::ext_equal]
pub struct Progress {
    pub hosts: Seq<HostView>,
    pub block: int,
}

/// The hosts that the aliases of a `Host` line declare.
pub open spec fn declared(aliases: Seq<Seq<char>>) -> Seq<HostView>
    decreases aliases.len(),
{
    if aliases.len() == 0 {
        seq![]
    } else {
        let before = declared(aliases.drop_last());
        if pattern(aliases.last()) {
            before
        } else {
            before.push(HostView::bare(aliases.last()))
        }
    }
}

/// The hosts with a setting applied to those of the current block.
pub open spec fn applied(p: Progress, keyword: Keyword, value: Seq<char>) -> Seq<HostView> {
    Seq::new(
        p.hosts.len(),
        |i: int|
            if i >= p.block {
                p.hosts[i].with(keyword, value)
            } else {
                p.hosts[i]
            },
    )
}

/// What one more line adds.
pub open spec fn advanced(p: Progress, line: Seq<char>) -> Progress {
    match directive(line) {
        None => p,
        Some((word, value)) => match keyword_of(word) {
            Keyword::Host => Progress {
                hosts: p.hosts + declared(split::words(value)),
                block: p.hosts.len() as int,
            },
            // A `Match` block ends the applicability of the current Host block.
            Keyword::Match => Progress { hosts: p.hosts, block: p.hosts.len() as int },
            keyword => if value.len() == 0 {
                p
            } else {
                Progress { hosts: applied(p, keyword, value), block: p.block }
            },
        },
    }
}

/// What some lines come to.
pub open spec fn progress_after(lines: Seq<Seq<char>>) -> Progress
    decreases lines.len(),
{
    if lines.len() == 0 {
        Progress { hosts: seq![], block: 0 }
    } else {
        advanced(progress_after(lines.drop_last()), lines.last())
    }
}

/// The importable hosts of an ssh config.
pub open spec fn parsed(document: Seq<char>) -> Seq<HostView> {
    progress_after(split::lines(document)).hosts
}

// ---------------------------------------------------------------- hosts

impl SshConfigHost {
    fn new(alias: String) -> (r: Self)
        ensures
            r@ == HostView::bare(alias@),
    {
        SshConfigHost {
            alias,
            hostname: None,
            user: None,
            port: None,
            identity_file: None,
            proxy_jump: None,
        }
    }

    /// The host ssh would actually dial: `HostName` when present, else the alias.
    pub fn effective_host(&self) -> (r: &str)
        ensures
            r@ == self@.effective_host(),
    {
        match &self.hostname {
            Some(h) => h.as_str(),
            None => self.alias.as_str(),
        }
    }

    pub fn to_connection(&self) -> (r: Connection)
        ensures
            r@ == self@.connection(),
    {
        let mut conn = Connection::new(self.alias.as_str(), self.effective_host());
        conn.user = text::copy_opt(&self.user);
        conn.port = match self.port {
            Some(p) => p,
            None => 22,
        };
        conn.identity_file = text::copy_opt(&self.identity_file);
        conn.jump_host = text::copy_opt(&self.proxy_jump);
        let mut tags: Vec<String> = Vec::new();
        tags.push("ssh-config".to_string());
        conn.tags = tags;
        assert(conn@.tags =~= seq!["ssh-config"@]);
        assert(conn@ =~= self@.connection());
        conn
    }

    /// Applies a setting, unless there is a value for it already.
    fn apply(&mut self, keyword: Keyword, value: &str)
        ensures
            final(self)@ == old(self)@.with(keyword, value@),
    {
        match keyword {
            Keyword::HostName => {
                if self.hostname.is_none() {
                    self.hostname = Some(value.to_string());
                }
            },
            Keyword::User => {
                if self.user.is_none() {
                    self.user = Some(value.to_string());
                }
            },
            Keyword::IdentityFile => {
                if self.identity_file.is_none() {
                    self.identity_file = Some(unquote(value));
                }
            },
            Keyword::ProxyJump => {
                if self.proxy_jump.is_none() {
                    self.proxy_jump = Some(value.to_string());
                }
            },
            Keyword::Port => {
                if let Some(port) = number::parse_u16(value) {
                    if self.port.is_none() {
                        self.port = Some(port);
                    }
                }
            },
            _ => {},
        }
    }
}

// ---------------------------------------------------------------- lines

/// What the directive with the given first word is about.
fn find_keyword(word: &str) -> (r: Keyword)
    ensures
        r == keyword_of(word@),
{
    let w = text::to_lower(word);
    let s = w.as_str();
    if text::same(s, "host") {
        Keyword::Host
    } else if text::same(s, "match") {
        Keyword::Match
    } else if text::same(s, "hostname") {
        Keyword::HostName
    } else if text::same(s, "user") {
        Keyword::User
    } else if text::same(s, "identityfile") {
        Keyword::IdentityFile
    } else if text::same(s, "proxyjump") {
        Keyword::ProxyJump
    } else if text::same(s, "port") {
        Keyword::Port
    } else {
        Keyword::Other
    }
}

fn without_equals(s: &str) -> (r: String)
    ensures
        r@ == strip_equals(s@),
{
    let v = text::to_chars(s);
    let n: usize = v.len();
    let mut i: usize = 0;
    assert(v@.skip(0) =~= v@);
    while i < n && v[i] == '='
        invariant
            n == v@.len(),
            i <= n,
            strip_equals(v@.skip(i as int)) == strip_equals(v@),
        decreases n - i,
    {
        assert(v@.skip(i as int).drop_first() =~= v@.skip(i + 1));
        i = i + 1;
    }
    proof {
        assert(v@.skip(i as int) =~= v@.subrange(i as int, n as int));
    }
    text::from_range(&v, i, n)
}

/// Split `Keyword value` or `Keyword = value`, skipping comments and blank lines.
pub fn split_directive(line: &str) -> (r: Option<(String, String)>)
    ensures
        match (r, directive(line@)) {
            (Some((k, v)), Some((keyword, value))) => k@ == keyword && v@ == value,
            (None, None) => true,
            _ => false,
        },
{
    let t = text::trim(line);
    let v = text::to_chars(t.as_str());
    let n: usize = v.len();
    if n == 0 || v[0] == '#' {
        return None;
    }
    let mut i: usize = 0;
    assert(v@.skip(0) =~= v@);
    while i < n && !text::white(v[i]) && v[i] != '='
        invariant
            n == v@.len(),
            i <= n,
            keyword_len(v@) == i + keyword_len(v@.skip(i as int)),
        decreases n - i,
    {
        assert(v@.skip(i as int).drop_first() =~= v@.skip(i + 1));
        i = i + 1;
    }
    assert(keyword_len(v@.skip(i as int)) == 0);
    if i == n {
        return None;
    }
    proof {
        assert(v@.subrange(0, i as int) =~= v@.take(i as int));
        assert(v@.subrange(i as int, n as int) =~= v@.skip(i as int));
    }
    let keyword = text::from_range(&v, 0, i);
    let rest = text::trim_left(text::from_range(&v, i, n).as_str());
    let value = text::trim(without_equals(rest.as_str()).as_str());
    Some((keyword, value))
}

pub fn is_pattern(alias: &str) -> (r: bool)
    ensures
        r == pattern(alias@),
{
    text::begins_with_char(alias, '!') || text::contains_char(alias, '*') || text::contains_char(
        alias,
        '?',
    )
}

pub fn unquote(value: &str) -> (r: String)
    ensures
        r@ == unquoted(value@),
{
    let v = text::to_chars(value);
    let n: usize = v.len();
    if n >= 2 && v[0] == '"' && v[n - 1] == '"' {
        text::from_range(&v, 1, n - 1)
    } else {
        value.to_string()
    }
}

// ---------------------------------------------------------------- documents

/// Puts the hosts that a `Host` line declares behind those that there are.
fn declare(hosts: &mut Vec<SshConfigHost>, value: &str)
    ensures
        host_views(final(hosts)@) == host_views(old(hosts)@) + declared(split::words(value@)),
{
    let aliases = split::split_words(value);
    let ghost all = text::texts(aliases@);
    let ghost before = host_views(hosts@);
    let mut i: usize = 0;
    assert(host_views(hosts@) =~= before + declared(all.take(0)));
    while i < aliases.len()
        invariant
            i <= aliases@.len(),
            all == text::texts(aliases@),
            host_views(hosts@) == before + declared(all.take(i as int)),
        decreases aliases@.len() - i,
    {
        proof {
            assert(all.take(i + 1).drop_last() =~= all.take(i as int));
            assert(all.take(i + 1).last() == aliases@[i as int]@);
        }
        if !is_pattern(aliases[i].as_str()) {
            let ghost now = host_views(hosts@);
            let host = SshConfigHost::new(aliases[i].clone());
            let ghost h = host@;
            hosts.push(host);
            assert(host_views(hosts@) =~= now.push(h));
            assert(before + declared(all.take(i as int)).push(h) =~= now.push(h));
        }
        i = i + 1;
    }
    assert(all.take(i as int) =~= all);
}

/// Applies a setting to the hosts from `block` on.
fn apply_to_block(hosts: &mut Vec<SshConfigHost>, block: usize, keyword: Keyword, value: &str)
    requires
        block <= old(hosts)@.len(),
    ensures
        host_views(final(hosts)@) == applied(
            Progress { hosts: host_views(old(hosts)@), block: block as int },
            keyword,
            value@,
        ),
{
    let ghost before = host_views(hosts@);
    let ghost goal = applied(Progress { hosts: before, block: block as int }, keyword, value@);
    let n: usize = hosts.len();
    let mut i: usize = block;
    while i < n
        invariant
            block <= i <= n,
            n == hosts@.len(),
            n == before.len(),
            goal == applied(Progress { hosts: before, block: block as int }, keyword, value@),
            forall|j: int| 0 <= j < i ==> #[trigger] hosts@[j]@ == goal[j],
            forall|j: int| i <= j < n ==> #[trigger] hosts@[j]@ == before[j],
        decreases n - i,
    {
        let host = &mut hosts[i];
        host.apply(keyword, value);
        i = i + 1;
    }
    assert(host_views(hosts@) =~= goal);
}

/// Parse the importable `Host` blocks out of an ssh_config document.
pub fn parse(document: &str) -> (r: Vec<SshConfigHost>)
    ensures
        host_views(r@) == parsed(document@),
{
    let lines = split::split_lines(document);
    let ghost all = text::texts(lines@);
    let mut hosts: Vec<SshConfigHost> = Vec::new();
    // A `Host` line may declare several aliases; they share the block's settings.
    let mut block: usize = 0;
    let mut i: usize = 0;
    proof {
        assert(host_views(hosts@) =~= seq![]);
        assert(all.take(0) =~= seq![]);
    }
    while i < lines.len()
        invariant
            i <= lines@.len(),
            all == text::texts(lines@),
            block <= hosts@.len(),
            progress_after(all.take(i as int)) == (Progress {
                hosts: host_views(hosts@),
                block: block as int,
            }),
        decreases lines@.len() - i,
    {
        proof {
            assert(all.take(i + 1).drop_last() =~= all.take(i as int));
            assert(all.take(i + 1).last() == lines@[i as int]@);
        }
        if let Some((word, value)) = split_directive(lines[i].as_str()) {
            match find_keyword(word.as_str()) {
                Keyword::Host => {
                    block = hosts.len();
                    declare(&mut hosts, value.as_str());
                },
                Keyword::Match => {
                    block = hosts.len();
                },
                keyword => {
                    if !value.as_str().is_empty() {
                        apply_to_block(&mut hosts, block, keyword, value.as_str());
                    }
                },
            }
        }
        assert(host_views(hosts@).len() == hosts@.len());
        i = i + 1;
    }
    assert(all.take(i as int) =~= all);
    hosts
}

// ---------------------------------------------------------------- laws

/// An alias that names a destination: one word that is no pattern.
pub open spec fn is_destination(alias: Seq<char>) -> bool {
    alias.len() > 0 && text::no_white(alias) && !pattern(alias)
}

proof fn lemma_declared(aliases: Seq<Seq<char>>)
    requires
        forall|i: int|
            0 <= i < aliases.len() ==> (#[trigger] aliases[i]).len() > 0 && text::no_white(aliases[i]),
    ensures
        forall|i: int|
            0 <= i < declared(aliases).len() ==> is_destination(#[trigger] declared(aliases)[i].alias),
    decreases aliases.len(),
{
    if aliases.len() > 0 {
        let front = aliases.drop_last();
        assert forall|i: int| 0 <= i < front.len() implies (#[trigger] front[i]).len() > 0
            && text::no_white(front[i]) by {
            assert(front[i] == aliases[i]);
        }
        lemma_declared(front);
        assert(aliases[aliases.len() - 1].len() > 0);
    }
}

proof fn lemma_words_are_words(s: Seq<char>)
    ensures
        forall|i: int|
            0 <= i < split::words(s).len() ==> (#[trigger] split::words(s)[i]).len() > 0
                && text::no_white(split::words(s)[i]),
{
    split::lemma_fields_shape(s, split::Separator::White);
    assert forall|i: int| 0 <= i < split::words(s).len() implies (#[trigger] split::words(
        s,
    )[i]).len() > 0 && text::no_white(split::words(s)[i]) by {
        let w = split::words(s)[i];
        assert(split::is_field(split::fields(s, split::Separator::White)[i], split::Separator::White));
        assert forall|j: int| 0 <= j < w.len() implies !text::is_white(#[trigger] w[j]) by {
            assert(!split::Separator::White.admits(w[j]));
        }
    }
}

proof fn lemma_aliases(lines: Seq<Seq<char>>)
    ensures
        forall|i: int|
            0 <= i < progress_after(lines).hosts.len() ==> is_destination(
                #[trigger] progress_after(lines).hosts[i].alias,
            ),
    decreases lines.len(),
{
    if lines.len() > 0 {
        let before = progress_after(lines.drop_last());
        let after = progress_after(lines);
        lemma_aliases(lines.drop_last());
        assert forall|i: int| 0 <= i < after.hosts.len() implies is_destination(
            #[trigger] after.hosts[i].alias,
        ) by {
            if i < before.hosts.len() {
                assert(is_destination(before.hosts[i].alias));
            } else if let Some((word, value)) = directive(lines.last()) {
                lemma_words_are_words(value);
                lemma_declared(split::words(value));
                assert(is_destination(
                    declared(split::words(value))[i - before.hosts.len()].alias,
                ));
            }
        }
    }
}

/// Every host that a document yields has an alias that names a destination: never empty,
/// never a wildcard or a negation.
pub proof fn law_only_destinations(document: Seq<char>)
    ensures
        forall|i: int|
            0 <= i < parsed(document).len() ==> is_destination(
                #[trigger] parsed(document)[i].alias,
            ),
{
    lemma_aliases(split::lines(document));
}

/// `b` says everything that `a` says, and perhaps more.
pub open spec fn extends(a: HostView, b: HostView) -> bool {
    &&& b.alias == a.alias
    &&& a.hostname is Some ==> b.hostname == a.hostname
    &&& a.user is Some ==> b.user == a.user
    &&& a.port is Some ==> b.port == a.port
    &&& a.identity_file is Some ==> b.identity_file == a.identity_file
    &&& a.proxy_jump is Some ==> b.proxy_jump == a.proxy_jump
}

/// The first value of a keyword wins: whatever lines follow, a host that was declared is
/// still there, and none of the values it has changes.
pub proof fn law_first_value_wins(lines: Seq<Seq<char>>, more: Seq<Seq<char>>)
    ensures
        progress_after(lines).hosts.len() <= progress_after(lines + more).hosts.len(),
        forall|i: int|
            0 <= i < progress_after(lines).hosts.len() ==> extends(
                #[trigger] progress_after(lines).hosts[i],
                progress_after(lines + more).hosts[i],
            ),
    decreases more.len(),
{
    if more.len() == 0 {
        assert(lines + more =~= lines);
    } else {
        let fewer = more.drop_last();
        law_first_value_wins(lines, fewer);
        assert((lines + more).drop_last() =~= lines + fewer);
        assert((lines + more).last() == more.last());
        let a = progress_after(lines);
        let b = progress_after(lines + fewer);
        let c = progress_after(lines + more);
        assert(c == advanced(b, more.last()));
        assert forall|i: int| 0 <= i < a.hosts.len() implies extends(
            #[trigger] a.hosts[i],
            c.hosts[i],
        ) by {
            assert(extends(a.hosts[i], b.hosts[i]));
        }
    }
}

/// No line between a `Match` line and the next `Host` line changes any host.
pub proof fn law_match_ends_the_block(lines: Seq<Seq<char>>, more: Seq<Seq<char>>)
    requires
        lines.len() > 0,
        directive(lines.last()) is Some,
        keyword_of((directive(lines.last())->0).0) is Match,
        forall|i: int|
            0 <= i < more.len() ==> directive(#[trigger] more[i]) is None || keyword_of(
                (directive(more[i])->0).0,
            ) !is Host,
    ensures
        progress_after(lines + more).hosts == progress_after(lines).hosts,
        progress_after(lines + more).block == progress_after(lines).hosts.len(),
    decreases more.len(),
{
    if more.len() == 0 {
        assert(lines + more =~= lines);
    } else {
        let fewer = more.drop_last();
        assert forall|i: int| 0 <= i < fewer.len() implies directive(#[trigger] fewer[i]) is None
            || keyword_of((directive(fewer[i])->0).0) !is Host by {
            assert(fewer[i] == more[i]);
        }
        law_match_ends_the_block(lines, fewer);
        assert((lines + more).drop_last() =~= lines + fewer);
        assert((lines + more).last() == more[more.len() - 1]);
        let b = progress_after(lines + fewer);
        let c = progress_after(lines + more);
        assert(c == advanced(b, more.last()));
        assert(c.hosts =~= b.hosts);
    }
}

/// A line that has nothing to say to an import: a comment, a blank line, a lone word, or a
/// directive with another keyword than those that map onto a saved connection.
pub open spec fn is_ignorable(line: Seq<char>) -> bool {
    ||| text::is_blank(line)
    ||| text::trimmed(line)[0] == '#'
    ||| directive(line) is None
    ||| keyword_of((directive(line)->0).0) is Other
}

proof fn lemma_ignorable(p: Progress, line: Seq<char>)
    requires
        is_ignorable(line),
    ensures
        advanced(p, line) == p,
{
    if let Some((word, value)) = directive(line) {
        assert(applied(p, Keyword::Other, value) =~= p.hosts);
    }
}

/// Anything but the few keywords that map onto a saved connection is ignored, `Include`
/// among it, and so are comments and blank lines: with such a line or without it, wherever
/// it stands, a config comes to the same.
pub proof fn law_anything_else_is_ignored(
    before: Seq<Seq<char>>,
    line: Seq<char>,
    after: Seq<Seq<char>>,
)
    requires
        is_ignorable(line),
    ensures
        progress_after(before.push(line) + after) == progress_after(before + after),
    decreases after.len(),
{
    let with = before.push(line) + after;
    let without = before + after;
    if after.len() == 0 {
        assert(with.drop_last() =~= before);
        assert(without =~= before);
        lemma_ignorable(progress_after(before), line);
    } else {
        let fewer = after.drop_last();
        law_anything_else_is_ignored(before, line, fewer);
        assert(with.drop_last() =~= before.push(line) + fewer);
        assert(without.drop_last() =~= before + fewer);
    }
}

/// The aliases of one `Host` line share the settings of its block: a setting that follows
/// the line reaches each of them.
pub proof fn law_aliases_share_settings(p: Progress, line: Seq<char>, i: int)
    requires
        directive(line) is Some,
        keyword_of((directive(line)->0).0) !is Host,
        keyword_of((directive(line)->0).0) !is Match,
        (directive(line)->0).1.len() > 0,
        0 <= p.block <= i < p.hosts.len(),
    ensures
        advanced(p, line).hosts[i] == p.hosts[i].with(
            keyword_of((directive(line)->0).0),
            (directive(line)->0).1,
        ),
{
}

/// The letters of a keyword may be capital or not, and each keyword has one meaning.
pub proof fn law_keywords(word: Seq<char>)
    ensures
        keyword_of(word) is Host <==> text::lower(word) == "host"@,
        keyword_of(word) is Match <==> text::lower(word) == "match"@,
        keyword_of(word) is HostName <==> text::lower(word) == "hostname"@,
        keyword_of(word) is User <==> text::lower(word) == "user"@,
        keyword_of(word) is IdentityFile <==> text::lower(word) == "identityfile"@,
        keyword_of(word) is ProxyJump <==> text::lower(word) == "proxyjump"@,
        keyword_of(word) is Port <==> text::lower(word) == "port"@,
{
    reveal_strlit("host");
    reveal_strlit("match");
    reveal_strlit("hostname");
    reveal_strlit("user");
    reveal_strlit("identityfile");
    reveal_strlit("proxyjump");
    reveal_strlit("port");
    assert("host"@[0] == 'h' && "match"@[0] == 'm' && "user"@[0] == 'u');
    assert("hostname"@.len() == 8 && "host"@.len() == 4);
    assert("identityfile"@[0] == 'i' && "proxyjump"@[1] == 'r' && "port"@[1] == 'o');
}

/// What may stand between a keyword and its value: white space, with equals signs in it or
/// without, but not nothing.
pub open spec fn is_gap(before: Seq<char>, equals: Seq<char>, after: Seq<char>) -> bool {
    &&& text::all_white(before)
    &&& forall|i: int| 0 <= i < equals.len() ==> #[trigger] equals[i] == '='
    &&& text::all_white(after)
    &&& before.len() + equals.len() > 0
}

/// A word that can be a keyword.
pub open spec fn is_keyword(word: Seq<char>) -> bool {
    &&& word.len() > 0
    &&& word[0] != '#'
    &&& forall|i: int|
        0 <= i < word.len() ==> !text::is_white(#[trigger] word[i]) && word[i] != '='
}

proof fn lemma_keyword_len(word: Seq<char>, rest: Seq<char>)
    requires
        forall|i: int|
            0 <= i < word.len() ==> !text::is_white(#[trigger] word[i]) && word[i] != '=',
        rest.len() > 0,
        text::is_white(rest[0]) || rest[0] == '=',
    ensures
        keyword_len(word + rest) == word.len(),
    decreases word.len(),
{
    let s = word + rest;
    if word.len() == 0 {
        assert(s =~= rest);
    } else {
        let shorter = word.drop_first();
        assert forall|i: int| 0 <= i < shorter.len() implies !text::is_white(
            #[trigger] shorter[i],
        ) && shorter[i] != '=' by {
            assert(shorter[i] == word[i + 1]);
        }
        lemma_keyword_len(shorter, rest);
        assert(s[0] == word[0]);
        assert(s.drop_first() =~= shorter + rest);
    }
}

proof fn lemma_strip_equals(equals: Seq<char>, rest: Seq<char>)
    requires
        forall|i: int| 0 <= i < equals.len() ==> #[trigger] equals[i] == '=',
        rest.len() == 0 || rest[0] != '=',
    ensures
        strip_equals(equals + rest) == rest,
    decreases equals.len(),
{
    let s = equals + rest;
    if equals.len() == 0 {
        assert(s =~= rest);
    } else {
        let fewer = equals.drop_first();
        assert forall|i: int| 0 <= i < fewer.len() implies #[trigger] fewer[i] == '=' by {
            assert(fewer[i] == equals[i + 1]);
        }
        lemma_strip_equals(fewer, rest);
        assert(s[0] == equals[0]);
        assert(s.drop_first() =~= fewer + rest);
    }
}

/// A line of a keyword and a value is read as just those, however it is indented, whatever
/// white space or equals signs stand between them, and whatever white space behind.
pub proof fn law_directive(
    indent: Seq<char>,
    word: Seq<char>,
    before: Seq<char>,
    equals: Seq<char>,
    after: Seq<char>,
    value: Seq<char>,
    tail: Seq<char>,
)
    requires
        text::all_white(indent),
        is_keyword(word),
        is_gap(before, equals, after),
        value.len() > 0,
        text::is_tight(value),
        value[0] != '=',
        text::all_white(tail),
    ensures
        directive(indent + (word + before + equals + after + value) + tail) == Some((word, value)),
{
    let gap = before + equals + after;
    let t = word + before + equals + after + value;
    let line = indent + t + tail;
    assert(t[0] == word[0] && t.last() == value.last());
    text::law_trimmed(indent, t, tail);
    let rest = gap + value;
    assert(t =~= word + rest);
    assert(text::is_white(rest[0]) || rest[0] == '=') by {
        if before.len() > 0 {
            assert(rest[0] == before[0]);
        } else {
            assert(rest[0] == equals[0]);
        }
    }
    lemma_keyword_len(word, rest);
    let n = word.len() as int;
    assert(t.take(n) =~= word);
    assert(t.skip(n) =~= rest);
    // What is left once the white space in front of the equals signs is gone.
    let none = Seq::<char>::empty();
    let spaced = after + value;
    if equals.len() > 0 {
        let body = equals + spaced;
        assert(rest =~= before + body + none);
        assert(body + none =~= body);
        assert(body[0] == equals[0] && body.last() == value.last());
        text::law_trimmed(before, body, none);
        assert(text::trim_start(rest) == body);
        if after.len() > 0 {
            assert(spaced[0] == after[0]);
        } else {
            assert(spaced[0] == value[0]);
        }
        lemma_strip_equals(equals, spaced);
        assert(spaced =~= after + value + none);
        text::law_trimmed(after, value, none);
    } else {
        let white = before + after;
        assert forall|i: int| 0 <= i < white.len() implies text::is_white(#[trigger] white[i]) by {
            if i < before.len() {
                assert(white[i] == before[i]);
            } else {
                assert(white[i] == after[i - before.len()]);
            }
        }
        assert(rest =~= white + value + none);
        assert(value + none =~= value);
        text::law_trimmed(white, value, none);
        text::law_trimmed(none, value, none);
        assert(none + value + none =~= value);
        lemma_strip_equals(none, value);
        assert(none + value =~= value);
    }
}

/// Quotes around a value are taken off, and any other value stays as it is.
pub proof fn law_unquoted(value: Seq<char>)
    ensures
        unquoted(seq!['"'] + value + seq!['"']) == value,
        value.len() > 0 && value[0] != '"' ==> unquoted(value) == value,
        value.len() > 0 && value.last() != '"' ==> unquoted(value) == value,
        value.len() < 2 ==> unquoted(value) == value,
{
    let q = seq!['"'] + value + seq!['"'];
    assert(q.subrange(1, q.len() - 1) =~= value);
}

/// Each alias of a `Host` line that names a destination declares one host, in the order of
/// the aliases, of which nothing else is known yet; patterns declare none.
pub proof fn law_declared(a: Seq<Seq<char>>, alias: Seq<char>, b: Seq<Seq<char>>)
    ensures
        declared(a + b) == declared(a) + declared(b),
        declared(Seq::empty()).len() == 0,
        alias.len() > 0 && alias[0] == '!' ==> declared(seq![alias]).len() == 0,
        alias.contains('*') || alias.contains('?') ==> declared(seq![alias]).len() == 0,
        !(alias.len() > 0 && alias[0] == '!') && !alias.contains('*') && !alias.contains('?') ==> {
            let hosts = declared(seq![alias]);
            &&& hosts.len() == 1
            &&& hosts[0].alias == alias
            &&& hosts[0].hostname is None && hosts[0].user is None && hosts[0].port is None
            &&& hosts[0].identity_file is None && hosts[0].proxy_jump is None
        },
    decreases b.len(),
{
    let one = seq![alias];
    assert(one.drop_last() =~= seq![]);
    assert(declared(one.drop_last()) =~= seq![]);
    assert(one.last() == alias);
    if b.len() == 0 {
        assert(a + b =~= a);
        assert(declared(a) + declared(b) =~= declared(a));
    } else {
        law_declared(a, alias, b.drop_last());
        assert((a + b).drop_last() =~= a + b.drop_last());
        assert((a + b).last() == b.last());
        assert(declared(a + b) =~= declared(a) + declared(b));
    }
}

/// A `Host` line starts a new block with the hosts that it declares, behind those that there
/// were, which it leaves alone.
pub proof fn law_host_line(p: Progress, line: Seq<char>)
    requires
        directive(line) is Some,
        keyword_of((directive(line)->0).0) is Host,
    ensures
        advanced(p, line).block == p.hosts.len(),
        advanced(p, line).hosts == p.hosts + declared(split::words((directive(line)->0).1)),
{
}

/// The setting that a line gives, with its value: not a `Host` or a `Match` line, and not
/// one without a value.
pub open spec fn gives(line: Seq<char>, keyword: Keyword, value: Seq<char>) -> bool {
    &&& directive(line) == Some(((directive(line)->0).0, value))
    &&& keyword_of((directive(line)->0).0) == keyword
    &&& value.len() > 0
    &&& keyword !is Host
    &&& keyword !is Match
}

/// A host of the current block takes a setting that it does not have yet, whatever else it
/// has, keeps one that it has, and keeps everything that the line does not speak of.
pub proof fn law_settings_are_independent(
    p: Progress,
    line: Seq<char>,
    keyword: Keyword,
    value: Seq<char>,
    i: int,
)
    requires
        gives(line, keyword, value),
        0 <= i < p.hosts.len(),
        p.block <= i,
    ensures
        ({
            let before = p.hosts[i];
            let after = advanced(p, line).hosts[i];
            &&& after.alias == before.alias
            &&& keyword !is HostName || before.hostname is Some ==> after.hostname
                == before.hostname
            &&& keyword is HostName && before.hostname is None ==> after.hostname == Some(value)
            &&& keyword !is User || before.user is Some ==> after.user == before.user
            &&& keyword is User && before.user is None ==> after.user == Some(value)
            &&& keyword !is IdentityFile || before.identity_file is Some ==> after.identity_file
                == before.identity_file
            &&& keyword is IdentityFile && before.identity_file is None ==> after.identity_file
                == Some(unquoted(value))
            &&& keyword !is ProxyJump || before.proxy_jump is Some ==> after.proxy_jump
                == before.proxy_jump
            &&& keyword is ProxyJump && before.proxy_jump is None ==> after.proxy_jump == Some(
                value,
            )
            &&& keyword !is Port || before.port is Some ==> after.port == before.port
            &&& keyword is Port && before.port is None ==> after.port == number::u16_in(value)
        }),
{
}

/// A setting reaches no host of an earlier block, adds no host, and leaves the block as it
/// is.
pub proof fn law_settings_stay_in_the_block(
    p: Progress,
    line: Seq<char>,
    keyword: Keyword,
    value: Seq<char>,
)
    requires
        gives(line, keyword, value),
    ensures
        advanced(p, line).hosts.len() == p.hosts.len(),
        advanced(p, line).block == p.block,
        forall|i: int|
            0 <= i < p.hosts.len() && i < p.block ==> #[trigger] advanced(p, line).hosts[i]
                == p.hosts[i],
{
}

/// Settings with different keywords come to the same in whatever order they stand.
pub proof fn law_order_of_settings_does_not_matter(
    p: Progress,
    first: Seq<char>,
    second: Seq<char>,
    a: Keyword,
    x: Seq<char>,
    b: Keyword,
    y: Seq<char>,
)
    requires
        gives(first, a, x),
        gives(second, b, y),
        a != b,
    ensures
        advanced(advanced(p, first), second) == advanced(advanced(p, second), first),
{
    let l = advanced(advanced(p, first), second);
    let r = advanced(advanced(p, second), first);
    assert forall|i: int| 0 <= i < p.hosts.len() implies #[trigger] l.hosts[i] == r.hosts[i] by {
        assert(l.hosts[i] =~= r.hosts[i]);
    }
    assert(l.hosts =~= r.hosts);
}

/// A host is saved under its alias, as the connection that ssh would make: to the host name
/// where there is one and else to the alias, with the user, port, key and jump host it has.
pub proof fn law_host_becomes_connection(h: HostView)
    ensures
        ({
            let c = h.connection();
            &&& c.name == h.alias
            &&& c.id == model::slug(h.alias)
            &&& h.hostname matches Some(name) ==> c.host == name
            &&& h.hostname is None ==> c.host == h.alias
            &&& c.user == h.user
            &&& h.port matches Some(port) ==> c.port == port
            &&& h.port is None ==> c.port == 22
            &&& c.identity_file == h.identity_file
            &&& c.jump_host == h.proxy_jump
            &&& c.tags.len() == 1 && c.tags[0] == "ssh-config"@
            &&& c.extra_ssh_args.len() == 0 && c.notes is None && c.last_connected_at is None
            &&& h.effective_host() == c.host
        }),
{
}

/// One more line at the end of a config does to its hosts what that line says, and nothing
/// comes of an empty config.
pub proof fn law_one_more_line(document: Seq<char>, line: Seq<char>)
    requires
        document.len() == 0 || document.last() == '\n',
        !line.contains('\n'),
    ensures
        parsed(Seq::empty()).len() == 0,
        ({
            let before = progress_after(split::lines(document));
            let after = progress_after(split::lines(document + line.push('\n')));
            &&& parsed(document) == before.hosts
            &&& parsed(document + line.push('\n')) == after.hosts
            &&& after == advanced(before, split::strip_return(line))
        }),
{
    let none = Seq::<char>::empty();
    split::law_lines(none, none);
    assert(progress_after(split::lines(none)).hosts.len() == 0);
    let stripped = split::strip_return(line);
    split::law_lines(line, none);
    assert(line.push('\n') + none =~= line.push('\n'));
    assert(seq![stripped] + split::lines(none) =~= seq![stripped]);
    let more = split::lines(document + line.push('\n'));
    if document.len() == 0 {
        assert(document + line.push('\n') =~= line.push('\n'));
        assert(document =~= none);
        assert(more =~= split::lines(document).push(stripped));
    } else {
        let front = document.drop_last();
        assert(front.push('\n') =~= document);
        split::law_lines_concat(front, line.push('\n'));
        assert(more =~= split::lines(document).push(stripped));
    }
    assert(more.drop_last() =~= split::lines(document));
}

} // verus!
