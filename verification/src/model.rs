//! The saved-connection data model, as persisted in `connections.toml`.

use crate::number;
use crate::rank;
use crate::rank::{Rank, RankView};
use crate::split;
use crate::split::Separator;
use crate::text;
use crate::time::Timestamp;
use vstd::prelude::*;

verus! {

broadcast use {text::lemma_texts_push, rank::lemma_rank_views_push};

/// The port that ssh uses unless told otherwise.
pub fn default_port() -> (r: u16)
    ensures
        r == 22,
{
    22
}

/// Is this the port that need not be written down?
pub fn is_default_port(port: &u16) -> (r: bool)
    ensures
        r == (*port == 22),
{
    *port == 22
}

/// One saved SSH destination.
#[derive(Debug, PartialEq, Eq)]
pub struct Connection {
    /// Stable slug, unique within the store. Used by `edit`/`remove`.
    pub id: String,
    /// Human label shown in the picker.
    pub name: String,
    pub host: String,
    pub port: u16,
    pub user: Option<String>,
    /// `-i` — may contain a leading `~`, expanded only when building the ssh argv.
    pub identity_file: Option<String>,
    /// `-J` / ProxyJump.
    pub jump_host: Option<String>,
    pub tags: Vec<String>,
    /// Extra flags appended verbatim to the ssh argv.
    pub extra_ssh_args: Vec<String>,
    /// Refreshed right before handing over to ssh.
    pub last_connected_at: Option<Timestamp>,
    pub notes: Option<String>,
}

/// The mathematical form of a [`Connection`].
#[verifier::ext_equal]
pub struct ConnectionView {
    pub id: Seq<char>,
    pub name: Seq<char>,
    pub host: Seq<char>,
    pub port: u16,
    pub user: Option<Seq<char>>,
    pub identity_file: Option<Seq<char>>,
    pub jump_host: Option<Seq<char>>,
    pub tags: Seq<Seq<char>>,
    pub extra_ssh_args: Seq<Seq<char>>,
    pub last_connected_at: Option<(int, int)>,
    pub notes: Option<Seq<char>>,
}

impl View for Connection {
    type V = ConnectionView;

    open spec fn view(&self) -> ConnectionView {
        ConnectionView {
            id: self.id@,
            name: self.name@,
            host: self.host@,
            port: self.port,
            user: text::opt_text(self.user),
            identity_file: text::opt_text(self.identity_file),
            jump_host: text::opt_text(self.jump_host),
            tags: text::texts(self.tags@),
            extra_ssh_args: text::texts(self.extra_ssh_args@),
            last_connected_at: rank::opt_instant(self.last_connected_at),
            notes: text::opt_text(self.notes),
        }
    }
}

impl Clone for Connection {
    fn clone(&self) -> (r: Self)
        ensures
            r@ == self@,
    {
        Connection {
            id: self.id.clone(),
            name: self.name.clone(),
            host: self.host.clone(),
            port: self.port,
            user: text::copy_opt(&self.user),
            identity_file: text::copy_opt(&self.identity_file),
            jump_host: text::copy_opt(&self.jump_host),
            tags: text::copy_list(&self.tags),
            extra_ssh_args: text::copy_list(&self.extra_ssh_args),
            last_connected_at: self.last_connected_at,
            notes: text::copy_opt(&self.notes),
        }
    }
}

impl ConnectionView {
    /// A connection with nothing but a name and a host.
    pub open spec fn plain(name: Seq<char>, host: Seq<char>) -> ConnectionView {
        ConnectionView {
            id: slug(name),
            name,
            host,
            port: 22,
            user: None,
            identity_file: None,
            jump_host: None,
            tags: seq![],
            extra_ssh_args: seq![],
            last_connected_at: None,
            notes: None,
        }
    }

    /// `user@host:port`, with the parts that are defaults left out.
    pub open spec fn destination(self) -> Seq<char> {
        let account = match self.user {
            Some(user) => user + "@"@,
            None => seq![],
        };
        let port = if self.port == 22 {
            seq![]
        } else {
            ":"@ + number::decimal(self.port as nat)
        };
        account + self.host + port
    }

    /// The name, the destination and the tags, with a space between neighbours.
    pub open spec fn search_text(self) -> Seq<char> {
        split::join(seq![self.name, self.destination()] + self.tags, " "@)
    }
}

impl Connection {
    /// A connection to `host` under the label `name`, with defaults for the rest.
    pub fn new(name: &str, host: &str) -> (r: Self)
        ensures
            r@ == ConnectionView::plain(name@, host@),
    {
        let r = Connection {
            id: slugify(name),
            name: name.to_string(),
            host: host.to_string(),
            port: default_port(),
            user: None,
            identity_file: None,
            jump_host: None,
            tags: Vec::new(),
            extra_ssh_args: Vec::new(),
            last_connected_at: None,
            notes: None,
        };
        assert(r@ =~= ConnectionView::plain(name@, host@));
        r
    }

    /// `user@host:port`, with the parts that are defaults left out.
    pub fn destination(&self) -> (r: String)
        ensures
            r@ == self@.destination(),
    {
        let mut s = String::new();
        if let Some(user) = &self.user {
            s.append(user.as_str());
            s.append("@");
        }
        s.append(self.host.as_str());
        if self.port != 22 {
            s.append(":");
            s.append(number::to_decimal(self.port as u128).as_str());
        }
        assert(s@ =~= self@.destination());
        s
    }

    /// The haystack the fuzzy matcher scores against.
    pub fn search_text(&self) -> (r: String)
        ensures
            r@ == self@.search_text(),
    {
        let mut parts: Vec<String> = Vec::new();
        parts.push(self.name.clone());
        parts.push(self.destination());
        let mut i: usize = 0;
        assert(text::texts(parts@) =~= seq![self@.name, self@.destination()] + self@.tags.take(0));
        while i < self.tags.len()
            invariant
                i <= self.tags@.len(),
                text::texts(parts@) == seq![self@.name, self@.destination()] + self@.tags.take(i as int),
            decreases self.tags@.len() - i,
        {
            parts.push(self.tags[i].clone());
            assert(text::texts(parts@) =~= seq![self@.name, self@.destination()] + self@.tags.take(
                i + 1,
            ));
            i = i + 1;
        }
        assert(self@.tags.take(i as int) =~= self@.tags);
        split::join_texts(&parts, " ")
    }
}

// ---------------------------------------------------------------- slugs

/// The texts of `parts`, each in lower case.
pub open spec fn lower_all(parts: Seq<Seq<char>>) -> Seq<Seq<char>> {
    Seq::new(parts.len(), |i: int| text::lower(parts[i]))
}

/// The ASCII letters and digits of `s` in lower case, with a single `-` for each run of
/// other characters between them; `connection` when there are none.
pub open spec fn slug(s: Seq<char>) -> Seq<char> {
    let parts = split::fields(s, Separator::NotAlphanumeric);
    if parts.len() == 0 {
        "connection"@
    } else {
        split::join(lower_all(parts), "-"@)
    }
}

/// Lowercase ASCII slug: runs of non-alphanumerics collapse to a single `-`.
pub fn slugify(input: &str) -> (r: String)
    ensures
        r@ == slug(input@),
{
    let parts = split::split_fields(input, Separator::NotAlphanumeric);
    if parts.len() == 0 {
        return "connection".to_string();
    }
    let mut lowered: Vec<String> = Vec::new();
    let mut i: usize = 0;
    let ghost all = lower_all(text::texts(parts@));
    assert(text::texts(lowered@) =~= all.take(0));
    while i < parts.len()
        invariant
            i <= parts@.len(),
            all == lower_all(text::texts(parts@)),
            text::texts(lowered@) == all.take(i as int),
        decreases parts@.len() - i,
    {
        lowered.push(text::to_lower(parts[i].as_str()));
        assert(text::texts(lowered@) =~= all.take(i + 1));
        i = i + 1;
    }
    assert(all.take(i as int) =~= all);
    split::join_texts(&lowered, "-")
}

// ---------------------------------------------------------------- the store

/// The whole `connections.toml` document.
#[derive(Debug, PartialEq, Eq)]
pub struct Store {
    pub connections: Vec<Connection>,
}

/// The mathematical form of a list of connections.
pub open spec fn views(v: Seq<Connection>) -> Seq<ConnectionView> {
    Seq::new(v.len(), |i: int| v[i]@)
}

/// The mathematical form of a list of borrowed connections.
pub open spec fn ref_views(v: Seq<&Connection>) -> Seq<ConnectionView> {
    Seq::new(v.len(), |i: int| v[i]@)
}

pub broadcast proof fn lemma_views_push(v: Seq<Connection>, c: Connection)
    ensures
        #[trigger] views(v.push(c)) == views(v).push(c@),
{
    assert(views(v.push(c)) =~= views(v).push(c@));
}

pub broadcast proof fn lemma_ref_views_push(v: Seq<&Connection>, c: &Connection)
    ensures
        #[trigger] ref_views(v.push(c)) == ref_views(v).push(c@),
{
    assert(ref_views(v.push(c)) =~= ref_views(v).push(c@));
}

impl View for Store {
    type V = Seq<ConnectionView>;

    open spec fn view(&self) -> Seq<ConnectionView> {
        views(self.connections@)
    }
}

impl Default for Store {
    fn default() -> (r: Self)
        ensures
            r@ == Seq::<ConnectionView>::empty(),
    {
        let r = Store { connections: Vec::new() };
        assert(r@ =~= Seq::<ConnectionView>::empty());
        r
    }
}

impl Clone for Store {
    fn clone(&self) -> (r: Self)
        ensures
            r@ == self@,
    {
        let mut out: Vec<Connection> = Vec::new();
        let mut i: usize = 0;
        while i < self.connections.len()
            invariant
                i <= self.connections@.len(),
                views(out@) == self@.take(i as int),
            decreases self.connections@.len() - i,
        {
            broadcast use lemma_views_push;

            out.push(self.connections[i].clone());
            assert(views(out@) =~= self@.take(i + 1));
            i = i + 1;
        }
        assert(self@.take(i as int) =~= self@);
        Store { connections: out }
    }
}

/// Does some entry hold the id?
pub open spec fn holds_id(all: Seq<ConnectionView>, id: Seq<char>) -> bool {
    exists|i: int| 0 <= i < all.len() && #[trigger] all[i].id == id
}

/// Entry `i` is the first that holds the id.
pub open spec fn is_first(all: Seq<ConnectionView>, id: Seq<char>, i: int) -> bool {
    &&& 0 <= i < all.len()
    &&& all[i].id == id
    &&& forall|j: int| 0 <= j < i ==> #[trigger] all[j].id != id
}

/// Where the first entry that holds the id stands.
pub open spec fn position(all: Seq<ConnectionView>, id: Seq<char>) -> Option<int> {
    if holds_id(all, id) {
        Some(choose|i: int| is_first(all, id, i))
    } else {
        None
    }
}

/// No two entries hold the same id.
pub open spec fn distinct_ids(all: Seq<ConnectionView>) -> bool {
    forall|i: int, j: int| 0 <= i < j < all.len() ==> #[trigger] all[i].id != #[trigger] all[j].id
}

proof fn lemma_first_exists(all: Seq<ConnectionView>, id: Seq<char>, upto: int)
    requires
        0 <= upto <= all.len(),
        forall|j: int| 0 <= j < upto ==> #[trigger] all[j].id != id,
        holds_id(all, id),
    ensures
        exists|i: int| is_first(all, id, i),
    decreases all.len() - upto,
{
    let k = choose|i: int| 0 <= i < all.len() && #[trigger] all[i].id == id;
    assert(upto <= k);
    if all[upto].id == id {
        assert(is_first(all, id, upto));
    } else {
        lemma_first_exists(all, id, upto + 1);
    }
}

/// The entry at `position` is the first that holds the id.
pub proof fn lemma_position(all: Seq<ConnectionView>, id: Seq<char>)
    ensures
        match position(all, id) {
            Some(i) => is_first(all, id, i),
            None => !holds_id(all, id),
        },
        forall|i: int| is_first(all, id, i) ==> position(all, id) == Some(i),
{
    if holds_id(all, id) {
        lemma_first_exists(all, id, 0);
    }
    assert forall|i: int| is_first(all, id, i) implies position(all, id) == Some(i) by {
        assert(all[i].id == id);
        let k = position(all, id)->0;
        assert(is_first(all, id, k));
        if i < k {
            assert(all[i].id != id);
        }
        if k < i {
            assert(all[k].id != id);
        }
    }
}

/// `base`, `base-2`, `base-3` and so on.
pub open spec fn numbered(base: Seq<char>, n: nat) -> Seq<char> {
    if n <= 1 {
        base
    } else {
        base + "-"@ + number::decimal(n)
    }
}

/// `id` is the first of `base`, `base-2`, `base-3`, ... that no entry holds.
pub open spec fn is_fresh_id(all: Seq<ConnectionView>, base: Seq<char>, id: Seq<char>) -> bool {
    exists|n: nat|
        n >= 1 && id == #[trigger] numbered(base, n) && !holds_id(all, id) && (forall|m: nat|
            1 <= m < n ==> holds_id(all, #[trigger] numbered(base, m)))
}

proof fn lemma_numbered_injective(base: Seq<char>, m: nat, n: nat)
    requires
        m >= 1,
        n >= 1,
        numbered(base, m) == numbered(base, n),
    ensures
        m == n,
{
    reveal_strlit("-");
    if m >= 2 && n >= 2 {
        let k = (base + "-"@).len() as int;
        assert(numbered(base, m).skip(k) =~= number::decimal(m));
        assert(numbered(base, n).skip(k) =~= number::decimal(n));
        number::lemma_decimal_injective(m, n);
    }
}

/// As many numbered names as are taken, so many entries there are at least.
proof fn lemma_taken_bounded(all: Seq<ConnectionView>, base: Seq<char>, n: nat)
    requires
        forall|m: nat| 1 <= m <= n ==> holds_id(all, #[trigger] numbered(base, m)),
    ensures
        n <= all.len(),
    decreases n,
{
    let at = Seq::new(
        n,
        |m: int|
            choose|i: int| 0 <= i < all.len() && #[trigger] all[i].id == numbered(base, (m + 1) as nat),
    );
    assert forall|m: int| 0 <= m < n implies 0 <= #[trigger] at[m] < all.len() && all[at[m]].id
        == numbered(base, (m + 1) as nat) by {
        assert(holds_id(all, numbered(base, (m + 1) as nat)));
    }
    assert(at.no_duplicates()) by {
        assert forall|i: int, j: int| 0 <= i < n && 0 <= j < n && i != j implies at[i] != at[j] by {
            if at[i] == at[j] {
                lemma_numbered_injective(base, (i + 1) as nat, (j + 1) as nat);
            }
        }
    }
    let used = at.to_set();
    let places = Set::new(|i: int| 0 <= i < all.len());
    at.unique_seq_to_set();
    lemma_range_len(all.len() as int);
    assert(used.subset_of(places));
    vstd::set_lib::lemma_len_subset(used, places);
}

proof fn lemma_range_len(n: int)
    requires
        0 <= n,
    ensures
        Set::new(|i: int| 0 <= i < n).finite(),
        Set::new(|i: int| 0 <= i < n).len() == n,
    decreases n,
{
    let s = Set::new(|i: int| 0 <= i < n);
    if n == 0 {
        assert(s =~= Set::<int>::empty());
    } else {
        lemma_range_len(n - 1);
        let t = Set::new(|i: int| 0 <= i < n - 1);
        assert(s =~= t.insert(n - 1));
    }
}

/// The ranks by which entries are put in order of recency.
pub open spec fn recency_ranks(all: Seq<ConnectionView>) -> Seq<Option<RankView>> {
    Seq::new(
        all.len(),
        |i: int| Some(RankView { score: 0, last_used: all[i].last_connected_at }),
    )
}

/// The entries at the positions `p`.
pub open spec fn picked(all: Seq<ConnectionView>, p: Seq<int>) -> Seq<ConnectionView> {
    Seq::new(p.len(), |i: int| all[p[i]])
}

/// The entries, most recently connected first; the others keep their order at the end.
pub open spec fn by_recency(all: Seq<ConnectionView>) -> Seq<ConnectionView> {
    picked(all, rank::ranking(recency_ranks(all)))
}

/// The first of `base`, `base-2`, `base-3`, ... that no entry holds.
pub open spec fn fresh_id(all: Seq<ConnectionView>, base: Seq<char>) -> Seq<char> {
    choose|id: Seq<char>| is_fresh_id(all, base, id)
}

/// The entries with one more at the end, under an id of its own.
pub open spec fn inserted(all: Seq<ConnectionView>, c: ConnectionView) -> Seq<ConnectionView> {
    all.push(ConnectionView { id: fresh_id(all, slug(c.name)), ..c })
}

/// The entries with some more at the end, each under an id of its own.
pub open spec fn inserted_all(all: Seq<ConnectionView>, more: Seq<ConnectionView>) -> Seq<
    ConnectionView,
>
    decreases more.len(),
{
    if more.len() == 0 {
        all
    } else {
        inserted(inserted_all(all, more.drop_last()), more.last())
    }
}

/// The entries once the first that holds the id was used at the time `now`.
pub open spec fn used(all: Seq<ConnectionView>, id: Seq<char>, now: (int, int)) -> Seq<
    ConnectionView,
> {
    match position(all, id) {
        Some(i) => all.update(i, ConnectionView { last_connected_at: Some(now), ..all[i] }),
        None => all,
    }
}

/// The entries without the first that holds the id.
pub open spec fn taken_out(all: Seq<ConnectionView>, id: Seq<char>) -> Seq<ConnectionView> {
    match position(all, id) {
        Some(i) => all.remove(i),
        None => all,
    }
}

impl Store {
    /// Where the first entry that holds the id stands.
    pub fn index_of(&self, id: &str) -> (r: Option<usize>)
        ensures
            match r {
                Some(i) => position(self@, id@) == Some(i as int) && i < self.connections@.len(),
                None => position(self@, id@) == None::<int>,
            },
    {
        let mut i: usize = 0;
        while i < self.connections.len()
            invariant
                i <= self.connections@.len(),
                forall|j: int| 0 <= j < i ==> #[trigger] self@[j].id != id@,
            decreases self.connections@.len() - i,
        {
            if text::same(self.connections[i].id.as_str(), id) {
                proof {
                    assert(is_first(self@, id@, i as int));
                    lemma_position(self@, id@);
                }
                return Some(i);
            }
            assert(self@[i as int].id != id@);
            i = i + 1;
        }
        None
    }

    pub fn get(&self, id: &str) -> (r: Option<&Connection>)
        ensures
            match (r, position(self@, id@)) {
                (Some(c), Some(i)) => c@ == self@[i],
                (None, None) => true,
                _ => false,
            },
    {
        match self.index_of(id) {
            Some(i) => Some(&self.connections[i]),
            None => None,
        }
    }

    pub fn get_mut(&mut self, id: &str) -> (r: Option<&mut Connection>)
        ensures
            match (r, position(old(self)@, id@)) {
                (Some(c), Some(i)) => {
                    &&& (*c)@ == old(self)@[i]
                    &&& final(self)@ == old(self)@.update(i, (*final(c))@)
                },
                (None, None) => final(self)@ == old(self)@,
                _ => false,
            },
    {
        match self.index_of(id) {
            Some(i) => {
                let r = &mut self.connections[i];
                Some(r)
            },
            None => None,
        }
    }

    /// Assign `conn` an id derived from its name that no other entry holds,
    /// then append it. Returns the id that was used.
    pub fn insert_unique(&mut self, conn: Connection) -> (r: String)
        ensures
            is_fresh_id(old(self)@, slug(conn@.name), r@),
            r@ == fresh_id(old(self)@, slug(conn@.name)),
            final(self)@ == inserted(old(self)@, conn@),
    {
        let ghost given = conn@;
        let mut conn = conn;
        let base = slugify(conn.name.as_str());
        let mut candidate = base.clone();
        let mut n: u128 = 1;
        let len: usize = self.connections.len();
        let ghost all = self@;
        while self.index_of(candidate.as_str()).is_some()
            invariant
                all == self@,
                len == all.len(),
                1 <= n <= all.len() + 1,
                candidate@ == numbered(base@, n as nat),
                forall|m: nat| 1 <= m < n ==> holds_id(all, #[trigger] numbered(base@, m)),
            decreases all.len() + 2 - n,
        {
            proof {
                lemma_position(all, candidate@);
                assert forall|m: nat| 1 <= m <= n implies holds_id(
                    all,
                    #[trigger] numbered(base@, m),
                ) by {
                    if m == n {
                        assert(holds_id(all, candidate@));
                    }
                }
                lemma_taken_bounded(all, base@, n as nat);
            }
            n = n + 1;
            candidate = text::concat3(base.as_str(), "-", number::to_decimal(n).as_str());
        }
        proof {
            lemma_position(all, candidate@);
        }
        conn.id = candidate.clone();
        self.connections.push(conn);
        proof {
            law_fresh_id_unique(all, base@);
            assert(self@ =~= inserted(all, given));
        }
        candidate
    }

    /// Append some entries, each under an id of its own.
    pub fn insert_all(&mut self, more: Vec<Connection>)
        ensures
            final(self)@ == inserted_all(old(self)@, views(more@)),
    {
        let ghost all = self@;
        let ghost added = views(more@);
        let mut i: usize = 0;
        assert(added.take(0) =~= seq![]);
        while i < more.len()
            invariant
                i <= more@.len(),
                added == views(more@),
                self@ == inserted_all(all, added.take(i as int)),
            decreases more@.len() - i,
        {
            proof {
                assert(added.take(i + 1).drop_last() =~= added.take(i as int));
                assert(added.take(i + 1).last() == more@[i as int]@);
            }
            self.insert_unique(more[i].clone());
            i = i + 1;
        }
        assert(added.take(i as int) =~= added);
    }

    /// Note down that the entry is used now.
    pub fn record_use(&mut self, id: &str, now: Timestamp)
        ensures
            final(self)@ == used(old(self)@, id@, now@),
    {
        if let Some(i) = self.index_of(id) {
            let ghost before = self@;
            self.connections[i].last_connected_at = Some(now);
            assert(self@ =~= used(before, id@, now@));
        }
    }

    /// Remove by id; returns the entry that was dropped.
    pub fn remove(&mut self, id: &str) -> (r: Option<Connection>)
        ensures
            final(self)@ == taken_out(old(self)@, id@),
            match (r, position(old(self)@, id@)) {
                (Some(c), Some(i)) => {
                    &&& c@ == old(self)@[i]
                    &&& final(self)@ == old(self)@.remove(i)
                },
                (None, None) => final(self)@ == old(self)@,
                _ => false,
            },
    {
        match self.index_of(id) {
            Some(i) => {
                let c = self.connections.remove(i);
                assert(self@ =~= old(self)@.remove(i as int));
                Some(c)
            },
            None => None,
        }
    }

    /// Most recently connected first; never-connected entries keep their
    /// insertion order at the end.
    pub fn sorted_by_recency(&self) -> (r: Vec<&Connection>)
        ensures
            ref_views(r@) == by_recency(self@),
    {
        let mut ranks: Vec<Option<Rank>> = Vec::new();
        let ghost expected = recency_ranks(self@);
        let mut i: usize = 0;
        while i < self.connections.len()
            invariant
                i <= self.connections@.len(),
                expected == recency_ranks(self@),
                rank::rank_views(ranks@) == expected.take(i as int),
            decreases self.connections@.len() - i,
        {
            ranks.push(Some(Rank { score: 0, last_used: self.connections[i].last_connected_at }));
            assert(rank::rank_views(ranks@) =~= expected.take(i + 1));
            i = i + 1;
        }
        assert(expected.take(i as int) =~= expected);
        let order = rank::rank_entries(&ranks);
        self.pick(&order)
    }

    /// The entries at the positions in `order`.
    pub fn pick(&self, order: &Vec<usize>) -> (r: Vec<&Connection>)
        requires
            forall|i: int| 0 <= i < order@.len() ==> #[trigger] order@[i] < self.connections@.len(),
        ensures
            ref_views(r@) == picked(self@, rank::positions(order@)),
    {
        let mut out: Vec<&Connection> = Vec::new();
        let ghost expected = picked(self@, rank::positions(order@));
        let mut i: usize = 0;
        while i < order.len()
            invariant
                i <= order@.len(),
                forall|i: int|
                    0 <= i < order@.len() ==> #[trigger] order@[i] < self.connections@.len(),
                expected == picked(self@, rank::positions(order@)),
                ref_views(out@) == expected.take(i as int),
            decreases order@.len() - i,
        {
            broadcast use lemma_ref_views_push;

            out.push(&self.connections[order[i]]);
            assert(ref_views(out@) =~= expected.take(i + 1));
            i = i + 1;
        }
        assert(expected.take(i as int) =~= expected);
        out
    }
}

// ---------------------------------------------------------------- laws

/// A character that a slug is made of, the dash left out.
pub open spec fn is_slug_char(c: char) -> bool {
    text::is_alphanumeric(c) && text::lower_char(c) == c
}

/// Lower-case letters and digits, with single dashes inside.
pub open spec fn is_slug(s: Seq<char>) -> bool {
    &&& s.len() > 0
    &&& forall|i: int| 0 <= i < s.len() ==> is_slug_char(#[trigger] s[i]) || s[i] == '-'
    &&& s[0] != '-'
    &&& s.last() != '-'
    &&& forall|i: int| 0 < i < s.len() && #[trigger] s[i] == '-' ==> s[i - 1] != '-'
}

/// At least one character, all of them fit for a slug and none a dash.
spec fn is_slug_word(w: Seq<char>) -> bool {
    w.len() > 0 && forall|i: int| 0 <= i < w.len() ==> is_slug_char(#[trigger] w[i])
}

proof fn lemma_join_words(ws: Seq<Seq<char>>)
    requires
        ws.len() > 0,
        forall|k: int| 0 <= k < ws.len() ==> is_slug_word(#[trigger] ws[k]),
    ensures
        is_slug(split::join(ws, "-"@)),
        split::fields(split::join(ws, "-"@), Separator::NotAlphanumeric) == ws,
    decreases ws.len(),
{
    reveal_strlit("-");
    let sep = Separator::NotAlphanumeric;
    let w = ws.last();
    let all = split::join(ws, "-"@);
    assert(is_slug_word(ws[ws.len() - 1]));
    assert(split::is_field(w, sep)) by {
        assert forall|i: int| 0 <= i < w.len() implies !sep.admits(#[trigger] w[i]) by {
            assert(is_slug_char(w[i]));
        }
    }
    if ws.len() == 1 {
        assert forall|i: int| 0 <= i < all.len() implies is_slug_char(#[trigger] all[i]) by {
            assert(all[i] == w[i]);
        }
        assert(is_slug_char(all[0]));
        assert(is_slug_char(all[all.len() - 1]));
        let none = Seq::<char>::empty();
        split::lemma_fields_append(none, w, sep);
        assert(none + w =~= w);
        assert(split::fields(none, sep).push(w) =~= ws);
    } else {
        let front = ws.drop_last();
        assert forall|k: int| 0 <= k < front.len() implies is_slug_word(#[trigger] front[k]) by {
            assert(front[k] == ws[k]);
        }
        lemma_join_words(front);
        let j = split::join(front, "-"@);
        let dashed = j.push('-');
        assert(all =~= dashed + w);
        split::lemma_fields_separator(j, '-', sep);
        split::lemma_fields_append(dashed, w, sep);
        assert(front.push(w) =~= ws);
        assert forall|i: int| 0 <= i < all.len() implies is_slug_char(#[trigger] all[i]) || all[i]
            == '-' by {
            if i < j.len() {
                assert(all[i] == j[i]);
            } else if i > j.len() {
                assert(is_slug_char(w[i - j.len() - 1]));
            }
        }
        assert(all[0] == j[0]);
        assert(is_slug_char(w[w.len() - 1]));
        assert(all.last() == w[w.len() - 1]);
        assert forall|i: int| 0 < i < all.len() && #[trigger] all[i] == '-' implies all[i - 1]
            != '-' by {
            if i < j.len() {
                assert(all[i] == j[i]);
                assert(all[i - 1] == j[i - 1]);
            } else if i == j.len() {
                assert(all[i - 1] == j.last());
            } else {
                assert(is_slug_char(w[i - j.len() - 1]));
            }
        }
    }
}

proof fn lemma_slug_words(s: Seq<char>)
    ensures
        forall|k: int|
            0 <= k < split::fields(s, Separator::NotAlphanumeric).len() ==> is_slug_word(
                #[trigger] lower_all(split::fields(s, Separator::NotAlphanumeric))[k],
            ),
{
    let parts = split::fields(s, Separator::NotAlphanumeric);
    split::lemma_fields_shape(s, Separator::NotAlphanumeric);
    assert forall|k: int| 0 <= k < parts.len() implies is_slug_word(
        #[trigger] lower_all(parts)[k],
    ) by {
        let w = lower_all(parts)[k];
        assert(split::is_field(parts[k], Separator::NotAlphanumeric));
        assert forall|i: int| 0 <= i < w.len() implies is_slug_char(#[trigger] w[i]) by {
            assert(!Separator::NotAlphanumeric.admits(parts[k][i]));
        }
    }
}

/// A slug is made of lower-case ASCII letters, digits and single dashes between them, and
/// is never empty.
pub proof fn law_slug_shape(s: Seq<char>)
    ensures
        is_slug(slug(s)),
{
    let parts = split::fields(s, Separator::NotAlphanumeric);
    if parts.len() == 0 {
        reveal_strlit("connection");
        assert(is_slug("connection"@));
    } else {
        lemma_slug_words(s);
        lemma_join_words(lower_all(parts));
    }
}

/// The slug of a slug is that slug.
pub proof fn law_slug_idempotent(s: Seq<char>)
    ensures
        slug(slug(s)) == slug(s),
{
    let parts = split::fields(s, Separator::NotAlphanumeric);
    let words = if parts.len() == 0 {
        seq!["connection"@]
    } else {
        lower_all(parts)
    };
    reveal_strlit("connection");
    lemma_slug_words(s);
    assert forall|k: int| 0 <= k < words.len() implies is_slug_word(#[trigger] words[k]) by {
        if parts.len() == 0 {
            assert(is_slug_word("connection"@));
        }
    }
    lemma_join_words(words);
    assert(split::join(words, "-"@) == slug(s));
    assert(lower_all(words) =~= words) by {
        assert forall|k: int| 0 <= k < words.len() implies #[trigger] lower_all(words)[k]
            == words[k] by {
            assert(is_slug_word(words[k]));
            assert(text::lower(words[k]) =~= words[k]) by {
                assert forall|i: int| 0 <= i < words[k].len() implies text::lower_char(
                    #[trigger] words[k][i],
                ) == words[k][i] by {
                    assert(is_slug_char(words[k][i]));
                }
            }
        }
    }
}

/// Adding an entry under a fresh id keeps the ids distinct.
pub proof fn law_insert_keeps_ids_distinct(all: Seq<ConnectionView>, c: ConnectionView)
    requires
        distinct_ids(all),
    ensures
        distinct_ids(inserted(all, c)),
{
    let more = inserted(all, c);
    law_fresh_id_unique(all, slug(c.name));
    assert forall|i: int, j: int| 0 <= i < j < more.len() implies #[trigger] more[i].id
        != #[trigger] more[j].id by {
        assert(all[i].id == more[i].id);
        if j < all.len() {
            assert(all[j].id == more[j].id);
        }
    }
}

/// Adding entries one after the other keeps the ids distinct.
pub proof fn law_insert_all_keeps_ids_distinct(
    all: Seq<ConnectionView>,
    more: Seq<ConnectionView>,
)
    requires
        distinct_ids(all),
    ensures
        distinct_ids(inserted_all(all, more)),
    decreases more.len(),
{
    if more.len() > 0 {
        law_insert_all_keeps_ids_distinct(all, more.drop_last());
        law_insert_keeps_ids_distinct(inserted_all(all, more.drop_last()), more.last());
    }
}

/// Using an entry changes the time that is noted down for it, and nothing else.
pub proof fn law_use_changes_one_time(all: Seq<ConnectionView>, id: Seq<char>, now: (int, int))
    ensures
        ({
            let after = used(all, id, now);
            &&& after.len() == all.len()
            &&& forall|j: int|
                0 <= j < all.len() ==> (#[trigger] after[j]).id == all[j].id && after[j]
                    == (ConnectionView {
                    last_connected_at: after[j].last_connected_at,
                    ..all[j]
                })
            &&& forall|j: int|
                0 <= j < all.len() && position(all, id) != Some(j) ==> #[trigger] after[j]
                    == all[j]
            &&& distinct_ids(all) ==> distinct_ids(after)
        }),
{
    lemma_position(all, id);
    let after = used(all, id, now);
    if distinct_ids(all) {
        assert forall|i: int, j: int| 0 <= i < j < after.len() implies #[trigger] after[i].id
            != #[trigger] after[j].id by {
            assert(all[i].id != all[j].id);
        }
    }
}

/// Whatever the store holds, some id for a new entry is fresh, and only one is.
pub proof fn law_fresh_id_unique(all: Seq<ConnectionView>, base: Seq<char>)
    ensures
        exists|id: Seq<char>| is_fresh_id(all, base, id),
        forall|a: Seq<char>, b: Seq<char>|
            is_fresh_id(all, base, a) && is_fresh_id(all, base, b) ==> a == b,
{
    lemma_fresh_exists(all, base, 1);
    assert forall|a: Seq<char>, b: Seq<char>|
        is_fresh_id(all, base, a) && is_fresh_id(all, base, b) implies a == b by {
        let m = choose|n: nat|
            n >= 1 && a == #[trigger] numbered(base, n) && !holds_id(all, a) && (forall|m: nat|
                1 <= m < n ==> holds_id(all, #[trigger] numbered(base, m)));
        let n = choose|n: nat|
            n >= 1 && b == #[trigger] numbered(base, n) && !holds_id(all, b) && (forall|m: nat|
                1 <= m < n ==> holds_id(all, #[trigger] numbered(base, m)));
        if m < n {
            assert(holds_id(all, numbered(base, m)));
        }
        if n < m {
            assert(holds_id(all, numbered(base, n)));
        }
    }
}

proof fn lemma_fresh_exists(all: Seq<ConnectionView>, base: Seq<char>, n: nat)
    requires
        n >= 1,
        forall|m: nat| 1 <= m < n ==> holds_id(all, #[trigger] numbered(base, m)),
    ensures
        exists|id: Seq<char>| is_fresh_id(all, base, id),
    decreases all.len() + 2 - n,
{
    if holds_id(all, numbered(base, n)) {
        assert forall|m: nat| 1 <= m <= n implies holds_id(all, #[trigger] numbered(base, m)) by {}
        lemma_taken_bounded(all, base, n);
        lemma_fresh_exists(all, base, n + 1);
    } else {
        assert(is_fresh_id(all, base, numbered(base, n)));
    }
}

/// What was added under a fresh id is found under that id, and removing it leaves the
/// store as it was before.
pub proof fn law_insert_then_remove(all: Seq<ConnectionView>, c: ConnectionView)
    ensures
        ({
            let id = fresh_id(all, slug(c.name));
            let more = inserted(all, c);
            &&& position(more, id) == Some(all.len() as int)
            &&& more[all.len() as int] == ConnectionView { id, ..c }
            &&& more.remove(all.len() as int) == all
        }),
{
    let id = fresh_id(all, slug(c.name));
    let more = inserted(all, c);
    law_fresh_id_unique(all, slug(c.name));
    assert(is_first(more, id, all.len() as int)) by {
        assert forall|j: int| 0 <= j < all.len() implies #[trigger] more[j].id != id by {
            assert(all[j].id == more[j].id);
        }
    }
    lemma_position(more, id);
    assert(more.remove(all.len() as int) =~= all);
}

/// Once an entry is removed from a store of distinct ids, no entry holds its id, and the
/// ids are still distinct.
pub proof fn law_removed_is_gone(all: Seq<ConnectionView>, id: Seq<char>)
    requires
        distinct_ids(all),
        position(all, id) is Some,
    ensures
        !holds_id(all.remove(position(all, id)->0), id),
        distinct_ids(all.remove(position(all, id)->0)),
{
    lemma_position(all, id);
    let i = position(all, id)->0;
    let rest = all.remove(i);
    assert forall|j: int| 0 <= j < rest.len() implies #[trigger] rest[j].id != id by {
        if j < i {
            assert(rest[j] == all[j]);
        } else {
            assert(rest[j] == all[j + 1]);
            assert(all[i].id != all[j + 1].id);
        }
    }
    assert forall|a: int, b: int| 0 <= a < b < rest.len() implies #[trigger] rest[a].id
        != #[trigger] rest[b].id by {
        let x = if a < i { a } else { a + 1 };
        let y = if b < i { b } else { b + 1 };
        assert(rest[a] == all[x]);
        assert(rest[b] == all[y]);
        assert(all[x].id != all[y].id);
    }
}

/// Sorting by recency keeps every entry once, puts a more recent one before a less recent
/// one, and leaves entries that were never used, or used at the same time, in their order.
pub proof fn law_by_recency(all: Seq<ConnectionView>)
    ensures
        exists|p: Seq<int>|
            {
                &&& #[trigger] picked(all, p) == by_recency(all)
                &&& p.len() == all.len()
                &&& forall|k: int| 0 <= k < all.len() ==> #[trigger] p.contains(k)
                &&& forall|i: int, j: int|
                    0 <= i < j < p.len() ==> {
                        ||| rank::more_recent(
                            all[#[trigger] p[i]].last_connected_at,
                            all[#[trigger] p[j]].last_connected_at,
                        )
                        ||| !rank::more_recent(all[p[j]].last_connected_at, all[p[i]].last_connected_at)
                            && p[i] < p[j]
                    }
            },
{
    let ranks = recency_ranks(all);
    rank::law_ranking_exists(ranks);
    let p = rank::ranking(ranks);
    assert(forall|k: int| 0 <= k < all.len() ==> ranks[k] is Some);
    assert forall|i: int, j: int| 0 <= i < j < p.len() implies {
        ||| rank::more_recent(
            all[#[trigger] p[i]].last_connected_at,
            all[#[trigger] p[j]].last_connected_at,
        )
        ||| !rank::more_recent(all[p[j]].last_connected_at, all[p[i]].last_connected_at) && p[i] < p[j]
    } by {
        assert(rank::precedes(ranks, p[i], p[j]));
    }
    assert forall|k: int| 0 <= k < all.len() implies #[trigger] p.contains(k) by {
        assert(ranks[k] is Some);
    }
    let places = Set::new(|i: int| 0 <= i < all.len());
    lemma_range_len(all.len() as int);
    assert(p.no_duplicates()) by {
        assert forall|i: int, j: int| 0 <= i < p.len() && 0 <= j < p.len() && i != j implies p[i]
            != p[j] by {
            if i < j {
                assert(rank::precedes(ranks, p[i], p[j]));
            } else {
                assert(rank::precedes(ranks, p[j], p[i]));
            }
        }
    }
    p.unique_seq_to_set();
    assert(p.to_set() =~= places);
    assert(picked(all, p) == by_recency(all));
}

/// A new connection has the name and the host it was made with, an id made from the name,
/// the usual port, and nothing else.
pub proof fn law_new_connection(name: Seq<char>, host: Seq<char>)
    ensures
        ({
            let c = ConnectionView::plain(name, host);
            &&& c.name == name && c.host == host && c.id == slug(name) && c.port == 22
            &&& c.user is None && c.identity_file is None && c.jump_host is None && c.notes is None
            &&& c.tags.len() == 0 && c.extra_ssh_args.len() == 0 && c.last_connected_at is None
        }),
{
}

/// The destination is the host. A user goes in front of it with an at sign, a port that is
/// not the usual one behind it with a colon, and no other field shows.
pub proof fn law_destination(c: ConnectionView, user: Seq<char>, port: u16)
    ensures
        c.user is None && c.port == 22 ==> c.destination() == c.host,
        (ConnectionView { user: Some(user), ..c }).destination() == user.push('@') + (
        ConnectionView { user: None, ..c }).destination(),
        port != 22 ==> (ConnectionView { port, ..c }).destination() == (ConnectionView {
            port: 22,
            ..c
        }).destination().push(':') + number::decimal(port as nat),
{
    reveal_strlit("@");
    reveal_strlit(":");
    let none = Seq::<char>::empty();
    if c.user is None && c.port == 22 {
        assert(none + c.host + none =~= c.host);
    }
    let with = ConnectionView { user: Some(user), ..c };
    let without = ConnectionView { user: None, ..c };
    assert(with.destination() =~= user.push('@') + without.destination());
    if port != 22 {
        let other = ConnectionView { port, ..c };
        let usual = ConnectionView { port: 22, ..c };
        assert(other.destination() =~= usual.destination().push(':') + number::decimal(
            port as nat,
        ));
    }
}

/// A search sees the name, the destination and every tag, with a space between them.
pub proof fn law_search_text(c: ConnectionView, tags: Seq<Seq<char>>, tag: Seq<char>)
    ensures
        (ConnectionView { tags: seq![], ..c }).search_text() == c.name.push(' ') + c.destination(),
        (ConnectionView { tags: tags.push(tag), ..c }).search_text() == (ConnectionView {
            tags,
            ..c
        }).search_text().push(' ') + tag,
{
    reveal_strlit(" ");
    let none = Seq::<Seq<char>>::empty();
    let two = seq![c.name, c.destination()];
    let bare = ConnectionView { tags: none, ..c };
    assert(bare.destination() == c.destination());
    assert(two + none =~= two);
    assert(two.drop_last() =~= seq![c.name]);
    assert(split::join(seq![c.name], " "@) == c.name);
    assert(bare.search_text() =~= c.name.push(' ') + c.destination());
    let fewer = ConnectionView { tags, ..c };
    let more = ConnectionView { tags: tags.push(tag), ..c };
    assert(fewer.destination() == c.destination() && more.destination() == c.destination());
    let all = two + tags.push(tag);
    assert(all.drop_last() =~= two + tags);
    assert(all.last() == tag);
    assert(more.search_text() =~= fewer.search_text().push(' ') + tag);
}

/// A slug is put together from the letters and digits of a text, in lower case: a row of
/// them stands as it is, what separates two of them becomes one dash, and nothing comes of
/// what stands in front or behind.
pub proof fn law_slug_of_parts(a: Seq<char>, c: char, b: Seq<char>)
    requires
        !text::is_alphanumeric(c),
    ensures
        has_letters(a) && has_letters(b) ==> slug(a.push(c) + b) == slug(a).push('-') + slug(b),
        !has_letters(a) ==> slug(a.push(c) + b) == slug(b),
        !has_letters(b) ==> slug(a.push(c) + b) == slug(a),
        !has_letters(a) ==> slug(a) == "connection"@,
        a.len() > 0 && (forall|i: int| 0 <= i < a.len() ==> text::is_alphanumeric(#[trigger] a[i]))
            ==> slug(a) == text::lower(a),
{
    let sep = Separator::NotAlphanumeric;
    reveal_strlit("-");
    split::law_fields_concat(a, c, b, sep);
    split::law_single_field(a, sep);
    lemma_has_letters(a);
    lemma_has_letters(b);
    let x = split::fields(a, sep);
    let y = split::fields(b, sep);
    assert(lower_all(x + y) =~= lower_all(x) + lower_all(y));
    if has_letters(a) && has_letters(b) {
        lemma_join_append(lower_all(x), lower_all(y), "-"@);
        assert(split::join(lower_all(x), "-"@) + "-"@ =~= split::join(lower_all(x), "-"@).push(
            '-',
        ));
    }
    if !has_letters(a) {
        assert(x + y =~= y);
    }
    if !has_letters(b) {
        assert(x + y =~= x);
    }
    if a.len() > 0 && (forall|i: int|
        0 <= i < a.len() ==> text::is_alphanumeric(#[trigger] a[i])) {
        assert(split::is_field(a, sep));
        assert(lower_all(x) =~= seq![text::lower(a)]);
    }
}

/// Some letter or digit of ASCII is there.
pub open spec fn has_letters(s: Seq<char>) -> bool {
    exists|i: int| 0 <= i < s.len() && text::is_alphanumeric(#[trigger] s[i])
}

proof fn lemma_has_letters(s: Seq<char>)
    ensures
        has_letters(s) <==> split::fields(s, Separator::NotAlphanumeric).len() > 0,
    decreases s.len(),
{
    let sep = Separator::NotAlphanumeric;
    if s.len() > 0 {
        let front = s.drop_last();
        lemma_has_letters(front);
        split::lemma_fields_shape(s, sep);
        if text::is_alphanumeric(s.last()) {
            assert(text::is_alphanumeric(s[s.len() - 1]));
        } else {
            if has_letters(front) {
                let i = choose|i: int| 0 <= i < front.len() && text::is_alphanumeric(#[trigger] front[i]);
                assert(text::is_alphanumeric(s[i]));
            }
            if has_letters(s) {
                let i = choose|i: int| 0 <= i < s.len() && text::is_alphanumeric(#[trigger] s[i]);
                assert(front[i] == s[i]);
            }
        }
    }
}

proof fn lemma_join_append(a: Seq<Seq<char>>, b: Seq<Seq<char>>, sep: Seq<char>)
    requires
        a.len() > 0,
        b.len() > 0,
    ensures
        split::join(a + b, sep) == split::join(a, sep) + sep + split::join(b, sep),
    decreases b.len(),
{
    let all = a + b;
    assert(all.last() == b.last());
    assert(all.drop_last() =~= a + b.drop_last());
    if b.len() == 1 {
        assert(a + b.drop_last() =~= a);
    } else {
        lemma_join_append(a, b.drop_last(), sep);
        assert(split::join(all, sep) =~= split::join(a, sep) + sep + split::join(b, sep));
    }
}

/// The id of a new entry is the base where that is free, and otherwise the base with a dash
/// and the least number from 2 on that is.
pub proof fn law_fresh_id(all: Seq<ConnectionView>, base: Seq<char>)
    ensures
        !holds_id(all, fresh_id(all, base)),
        !holds_id(all, base) ==> fresh_id(all, base) == base,
        holds_id(all, base) ==> exists|n: nat|
            {
                &&& n >= 2
                &&& fresh_id(all, base) == base.push('-') + #[trigger] number::decimal(n)
                &&& forall|m: nat|
                    2 <= m < n ==> holds_id(all, base.push('-') + #[trigger] number::decimal(m))
            },
{
    reveal_strlit("-");
    law_fresh_id_unique(all, base);
    let id = fresh_id(all, base);
    let n = choose|n: nat|
        n >= 1 && id == #[trigger] numbered(base, n) && !holds_id(all, id) && (forall|m: nat|
            1 <= m < n ==> holds_id(all, #[trigger] numbered(base, m)));
    assert(numbered(base, 1) == base);
    assert forall|m: nat| m >= 2 implies #[trigger] numbered(base, m) == base.push('-')
        + number::decimal(m) by {
        assert(base + "-"@ =~= base.push('-'));
    }
    if !holds_id(all, base) {
        if n > 1 {
            assert(holds_id(all, numbered(base, 1)));
        }
    } else {
        assert(n >= 2);
        assert forall|m: nat| 2 <= m < n implies holds_id(
            all,
            base.push('-') + #[trigger] number::decimal(m),
        ) by {
            assert(holds_id(all, numbered(base, m)));
        }
        assert(id == base.push('-') + number::decimal(n));
    }
}

/// A new entry goes to the end, with every field it has but for the id, and the entries
/// that were there stay where they are.
pub proof fn law_insert_appends(all: Seq<ConnectionView>, c: ConnectionView, more: Seq<
    ConnectionView,
>)
    ensures
        inserted(all, c).len() == all.len() + 1,
        all.is_prefix_of(inserted(all, c)),
        ({
            let added = inserted(all, c).last();
            &&& added.name == c.name && added.host == c.host && added.port == c.port
            &&& added.user == c.user && added.identity_file == c.identity_file
            &&& added.jump_host == c.jump_host && added.tags == c.tags
            &&& added.extra_ssh_args == c.extra_ssh_args && added.notes == c.notes
            &&& added.last_connected_at == c.last_connected_at
            &&& !holds_id(all, added.id)
            &&& !holds_id(all, slug(c.name)) ==> added.id == slug(c.name)
        }),
        inserted_all(all, seq![]) == all,
        inserted_all(all, more.push(c)) == inserted(inserted_all(all, more), c),
{
    law_fresh_id(all, slug(c.name));
    assert(all =~= inserted(all, c).subrange(0, all.len() as int));
    assert(more.push(c).drop_last() =~= more);
}

/// Using an entry notes down the time for it.
pub proof fn law_use_is_recorded(all: Seq<ConnectionView>, id: Seq<char>, now: (int, int), i: int)
    requires
        0 <= i < all.len(),
        all[i].id == id,
        forall|j: int| 0 <= j < i ==> #[trigger] all[j].id != id,
    ensures
        used(all, id, now)[i].last_connected_at == Some(now),
        position(all, id) == Some(i),
{
    assert(is_first(all, id, i));
    lemma_position(all, id);
}

/// `listed` are the entries of `all` at the places `p`, in that order.
pub open spec fn stand_at(
    listed: Seq<ConnectionView>,
    all: Seq<ConnectionView>,
    p: Seq<int>,
) -> bool {
    listed.len() == p.len() && forall|i: int|
        0 <= i < p.len() ==> 0 <= #[trigger] p[i] < all.len() && listed[i] == all[p[i]]
}

/// The most recently used entry is listed first, entries that were never used last, those
/// that were used at the same time in the order in which they are saved, and each once.
pub proof fn law_recency_list(all: Seq<ConnectionView>)
    ensures
        by_recency(all).len() == all.len(),
        exists|p: Seq<int>|
            {
                &&& #[trigger] stand_at(by_recency(all), all, p)
                &&& forall|k: int| 0 <= k < all.len() ==> #[trigger] p.contains(k)
                &&& forall|i: int, j: int|
                    0 <= i < j < p.len() ==> {
                        ||| rank::more_recent(
                            all[#[trigger] p[i]].last_connected_at,
                            all[#[trigger] p[j]].last_connected_at,
                        )
                        ||| !rank::more_recent(all[p[j]].last_connected_at, all[p[i]].last_connected_at)
                            && p[i] < p[j]
                    }
            },
{
    law_by_recency(all);
    let ranks = recency_ranks(all);
    rank::law_ranking_exists(ranks);
    let p = rank::ranking(ranks);
    assert(stand_at(by_recency(all), all, p));
    assert forall|k: int| 0 <= k < all.len() implies #[trigger] p.contains(k) by {
        assert(ranks[k] is Some);
    }
    assert forall|i: int, j: int| 0 <= i < j < p.len() implies {
        ||| rank::more_recent(
            all[#[trigger] p[i]].last_connected_at,
            all[#[trigger] p[j]].last_connected_at,
        )
        ||| !rank::more_recent(all[p[j]].last_connected_at, all[p[i]].last_connected_at) && p[i] < p[j]
    } by {
        assert(rank::precedes(ranks, p[i], p[j]));
    }
    let q = choose|q: Seq<int>|
        {
            &&& #[trigger] picked(all, q) == by_recency(all)
            &&& q.len() == all.len()
        };
    assert(by_recency(all).len() == q.len());
}

/// Removing takes out the first entry that holds the id and leaves every other as it is and
/// in its order; without such an entry nothing changes.
pub proof fn law_taken_out(
    before: Seq<ConnectionView>,
    c: ConnectionView,
    after: Seq<ConnectionView>,
)
    requires
        forall|j: int| 0 <= j < before.len() ==> #[trigger] before[j].id != c.id,
    ensures
        taken_out(before.push(c) + after, c.id) == before + after,
        taken_out(before, c.id) == before,
{
    let all = before.push(c) + after;
    let i = before.len() as int;
    assert(is_first(all, c.id, i)) by {
        assert forall|j: int| 0 <= j < i implies #[trigger] all[j].id != c.id by {
            assert(all[j] == before[j]);
        }
    }
    lemma_position(all, c.id);
    lemma_position(before, c.id);
    assert(all.remove(i) =~= before + after);
}

} // verus!
