//! What is written down of a connection: the fields of a `[[connection]]` table, with
//! those left out that say nothing.

use crate::model;
use crate::model::{Connection, ConnectionView, Store};
use crate::rank;
use crate::text;
use crate::time::Timestamp;
use vstd::prelude::*;

verus! {

broadcast use {text::lemma_texts_push, model::lemma_views_push};

/// The fields of one table, as far as they are there.
#[derive(Debug, PartialEq, Eq)]
pub struct Record {
    pub id: String,
    pub name: String,
    pub host: String,
    pub port: Option<u16>,
    pub user: Option<String>,
    pub identity_file: Option<String>,
    pub jump_host: Option<String>,
    pub tags: Option<Vec<String>>,
    pub extra_ssh_args: Option<Vec<String>>,
    /// In RFC 3339 form.
    pub last_connected_at: Option<Timestamp>,
    pub notes: Option<String>,
}

/// The mathematical form of a [`Record`].
#[verifier::ext_equal]
pub struct RecordView {
    pub id: Seq<char>,
    pub name: Seq<char>,
    pub host: Seq<char>,
    pub port: Option<u16>,
    pub user: Option<Seq<char>>,
    pub identity_file: Option<Seq<char>>,
    pub jump_host: Option<Seq<char>>,
    pub tags: Option<Seq<Seq<char>>>,
    pub extra_ssh_args: Option<Seq<Seq<char>>>,
    pub last_connected_at: Option<(int, int)>,
    pub notes: Option<Seq<char>>,
}

/// The texts of an optional list.
pub open spec fn opt_texts(list: Option<Vec<String>>) -> Option<Seq<Seq<char>>> {
    match list {
        Some(v) => Some(text::texts(v@)),
        None => None,
    }
}

impl View for Record {
    type V = RecordView;

    open spec fn view(&self) -> RecordView {
        RecordView {
            id: self.id@,
            name: self.name@,
            host: self.host@,
            port: self.port,
            user: text::opt_text(self.user),
            identity_file: text::opt_text(self.identity_file),
            jump_host: text::opt_text(self.jump_host),
            tags: opt_texts(self.tags),
            extra_ssh_args: opt_texts(self.extra_ssh_args),
            last_connected_at: rank::opt_instant(self.last_connected_at),
            notes: text::opt_text(self.notes),
        }
    }
}

pub open spec fn record_views(v: Seq<Record>) -> Seq<RecordView> {
    Seq::new(v.len(), |i: int| v[i]@)
}

pub broadcast proof fn lemma_record_views_push(v: Seq<Record>, r: Record)
    ensures
        #[trigger] record_views(v.push(r)) == record_views(v).push(r@),
{
    assert(record_views(v.push(r)) =~= record_views(v).push(r@));
}

/// A list that holds something.
pub open spec fn unless_empty(list: Seq<Seq<char>>) -> Option<Seq<Seq<char>>> {
    if list.len() == 0 {
        None
    } else {
        Some(list)
    }
}

/// A list, or an empty one.
pub open spec fn list_or_empty(list: Option<Seq<Seq<char>>>) -> Seq<Seq<char>> {
    match list {
        Some(v) => v,
        None => seq![],
    }
}

/// What is written down of a connection: neither the default port nor empty lists.
pub open spec fn written(c: ConnectionView) -> RecordView {
    RecordView {
        id: c.id,
        name: c.name,
        host: c.host,
        port: if c.port == 22 {
            None
        } else {
            Some(c.port)
        },
        user: c.user,
        identity_file: c.identity_file,
        jump_host: c.jump_host,
        tags: unless_empty(c.tags),
        extra_ssh_args: unless_empty(c.extra_ssh_args),
        last_connected_at: c.last_connected_at,
        notes: c.notes,
    }
}

/// The connection that a record describes.
pub open spec fn read_back(r: RecordView) -> ConnectionView {
    ConnectionView {
        id: r.id,
        name: r.name,
        host: r.host,
        port: match r.port {
            Some(p) => p,
            None => 22,
        },
        user: r.user,
        identity_file: r.identity_file,
        jump_host: r.jump_host,
        tags: list_or_empty(r.tags),
        extra_ssh_args: list_or_empty(r.extra_ssh_args),
        last_connected_at: r.last_connected_at,
        notes: r.notes,
    }
}

fn some_list(list: &Vec<String>) -> (r: Option<Vec<String>>)
    ensures
        opt_texts(r) == unless_empty(text::texts(list@)),
{
    if list.len() == 0 {
        None
    } else {
        Some(text::copy_list(list))
    }
}

fn full_list(list: &Option<Vec<String>>) -> (r: Vec<String>)
    ensures
        text::texts(r@) == list_or_empty(opt_texts(*list)),
{
    match list {
        Some(v) => text::copy_list(v),
        None => {
            let v: Vec<String> = Vec::new();
            assert(text::texts(v@) =~= seq![]);
            v
        },
    }
}

impl Record {
    /// What is written down of a connection.
    pub fn of(conn: &Connection) -> (r: Record)
        ensures
            r@ == written(conn@),
    {
        Record {
            id: conn.id.clone(),
            name: conn.name.clone(),
            host: conn.host.clone(),
            port: if model::is_default_port(&conn.port) {
                None
            } else {
                Some(conn.port)
            },
            user: text::copy_opt(&conn.user),
            identity_file: text::copy_opt(&conn.identity_file),
            jump_host: text::copy_opt(&conn.jump_host),
            tags: some_list(&conn.tags),
            extra_ssh_args: some_list(&conn.extra_ssh_args),
            last_connected_at: conn.last_connected_at,
            notes: text::copy_opt(&conn.notes),
        }
    }

    /// The connection that the record describes.
    pub fn connection(&self) -> (r: Connection)
        ensures
            r@ == read_back(self@),
    {
        Connection {
            id: self.id.clone(),
            name: self.name.clone(),
            host: self.host.clone(),
            port: match self.port {
                Some(p) => p,
                None => model::default_port(),
            },
            user: text::copy_opt(&self.user),
            identity_file: text::copy_opt(&self.identity_file),
            jump_host: text::copy_opt(&self.jump_host),
            tags: full_list(&self.tags),
            extra_ssh_args: full_list(&self.extra_ssh_args),
            last_connected_at: self.last_connected_at,
            notes: text::copy_opt(&self.notes),
        }
    }
}

/// What is written down of a store, entry by entry.
pub fn to_records(store: &Store) -> (r: Vec<Record>)
    ensures
        record_views(r@) == store@.map_values(|c: ConnectionView| written(c)),
{
    let ghost expected = store@.map_values(|c: ConnectionView| written(c));
    let mut out: Vec<Record> = Vec::new();
    let mut i: usize = 0;
    assert(record_views(out@) =~= expected.take(0));
    while i < store.connections.len()
        invariant
            i <= store.connections@.len(),
            expected == store@.map_values(|c: ConnectionView| written(c)),
            record_views(out@) == expected.take(i as int),
        decreases store.connections@.len() - i,
    {
        broadcast use lemma_record_views_push;

        out.push(Record::of(&store.connections[i]));
        assert(expected.take(i + 1) =~= expected.take(i as int).push(expected[i as int]));
        i = i + 1;
    }
    assert(expected.take(i as int) =~= expected);
    out
}

/// The store that records describe.
pub fn from_records(records: &Vec<Record>) -> (r: Store)
    ensures
        r@ == record_views(records@).map_values(|e: RecordView| read_back(e)),
{
    let ghost expected = record_views(records@).map_values(|e: RecordView| read_back(e));
    let mut connections: Vec<Connection> = Vec::new();
    let mut i: usize = 0;
    assert(model::views(connections@) =~= expected.take(0));
    while i < records.len()
        invariant
            i <= records@.len(),
            expected == record_views(records@).map_values(|e: RecordView| read_back(e)),
            model::views(connections@) == expected.take(i as int),
        decreases records@.len() - i,
    {
        connections.push(records[i].connection());
        assert(expected.take(i + 1) =~= expected.take(i as int).push(expected[i as int]));
        i = i + 1;
    }
    assert(expected.take(i as int) =~= expected);
    Store { connections }
}

// ---------------------------------------------------------------- laws

/// Reading what was written down of a connection gives the connection back.
pub proof fn law_read_gives_back_what_was_written(c: ConnectionView)
    ensures
        read_back(written(c)) == c,
{
    assert(read_back(written(c)) =~= c);
}

/// Reading what was written down of a store gives the store back, entry by entry.
pub proof fn law_store_round_trip(all: Seq<ConnectionView>)
    ensures
        all.map_values(|c: ConnectionView| written(c)).map_values(
            |r: RecordView| read_back(r),
        ) == all,
{
    let back = all.map_values(|c: ConnectionView| written(c)).map_values(
        |r: RecordView| read_back(r),
    );
    assert forall|i: int| 0 <= i < all.len() implies #[trigger] back[i] == all[i] by {
        law_read_gives_back_what_was_written(all[i]);
    }
    assert(back =~= all);
}

/// A field that is not there means its default, and a default is not written down.
pub proof fn law_defaults_are_left_out(c: ConnectionView, r: RecordView)
    ensures
        written(c).port is None <==> c.port == 22,
        r.port is None ==> read_back(r).port == 22,
        written(c).tags is None <==> c.tags.len() == 0,
        written(c).extra_ssh_args is None <==> c.extra_ssh_args.len() == 0,
{
}

/// Each field is written under its own name and read from there.
pub proof fn law_fields_keep_their_names(c: ConnectionView, r: RecordView)
    ensures
        written(c).id == c.id,
        written(c).name == c.name,
        written(c).host == c.host,
        written(c).user == c.user,
        written(c).identity_file == c.identity_file,
        written(c).jump_host == c.jump_host,
        written(c).notes == c.notes,
        written(c).last_connected_at == c.last_connected_at,
        c.port != 22 ==> written(c).port == Some(c.port),
        c.tags.len() > 0 ==> written(c).tags == Some(c.tags),
        c.extra_ssh_args.len() > 0 ==> written(c).extra_ssh_args == Some(c.extra_ssh_args),
        read_back(r).id == r.id,
        read_back(r).name == r.name,
        read_back(r).host == r.host,
        read_back(r).user == r.user,
        read_back(r).identity_file == r.identity_file,
        read_back(r).jump_host == r.jump_host,
        read_back(r).notes == r.notes,
        read_back(r).last_connected_at == r.last_connected_at,
        r.port matches Some(port) ==> read_back(r).port == port,
        r.tags matches Some(tags) ==> read_back(r).tags == tags,
        r.tags is None ==> read_back(r).tags.len() == 0,
        r.extra_ssh_args matches Some(args) ==> read_back(r).extra_ssh_args == args,
        r.extra_ssh_args is None ==> read_back(r).extra_ssh_args.len() == 0,
{
}

} // verus!
