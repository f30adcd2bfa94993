//! Which entries of an ssh config become saved connections.

use crate::cli::ImportArgs;
use crate::import;
use crate::import::{HostView, SshConfigHost};
use crate::model;
use crate::model::{Connection, ConnectionView, Store};
use crate::number;
use crate::ssh;
use crate::text;
use vstd::prelude::*;

verus! {

broadcast use {text::lemma_texts_push, model::lemma_views_push};

// ---------------------------------------------------------------- candidates

/// Do two entries lead to the same destination? Host, user and port decide.
pub open spec fn same_destination(a: ConnectionView, b: ConnectionView) -> bool {
    text::lower(a.host) == text::lower(b.host) && a.port == b.port && a.user == b.user
}

/// Does some entry lead where `c` does?
pub open spec fn is_saved(all: Seq<ConnectionView>, c: ConnectionView) -> bool {
    exists|i: int| 0 <= i < all.len() && same_destination(#[trigger] all[i], c)
}

/// Is `c` worth importing?
pub open spec fn is_candidate(all: Seq<ConnectionView>, c: ConnectionView) -> bool {
    !is_saved(all, c) && ssh::fault(c) is None
}

/// The hosts worth importing, as connections.
pub open spec fn candidates(all: Seq<ConnectionView>, hosts: Seq<HostView>) -> Seq<ConnectionView>
    decreases hosts.len(),
{
    if hosts.len() == 0 {
        seq![]
    } else {
        let before = candidates(all, hosts.drop_last());
        let c = hosts.last().connection();
        if is_candidate(all, c) {
            before.push(c)
        } else {
            before
        }
    }
}

fn same_user(a: &Option<String>, b: &Option<String>) -> (r: bool)
    ensures
        r == (text::opt_text(*a) == text::opt_text(*b)),
{
    match (a, b) {
        (Some(x), Some(y)) => text::same(x.as_str(), y.as_str()),
        (None, None) => true,
        _ => false,
    }
}

/// Treat host+user+port as the identity of a destination for dedup purposes.
pub fn already_saved(store: &Store, candidate: &Connection) -> (r: bool)
    ensures
        r == is_saved(store@, candidate@),
{
    let mut i: usize = 0;
    while i < store.connections.len()
        invariant
            i <= store.connections@.len(),
            forall|j: int| 0 <= j < i ==> !same_destination(#[trigger] store@[j], candidate@),
        decreases store.connections@.len() - i,
    {
        let c = &store.connections[i];
        assert(store@[i as int] == c@);
        if text::same_ignoring_case(c.host.as_str(), candidate.host.as_str()) && c.port
            == candidate.port && same_user(&c.user, &candidate.user) {
            return true;
        }
        i = i + 1;
    }
    false
}

/// The hosts worth importing, as connections.
pub fn find_candidates(store: &Store, hosts: &Vec<SshConfigHost>) -> (r: Vec<Connection>)
    ensures
        model::views(r@) == candidates(store@, import::host_views(hosts@)),
{
    let ghost all = import::host_views(hosts@);
    let mut out: Vec<Connection> = Vec::new();
    let mut i: usize = 0;
    assert(model::views(out@) =~= candidates(store@, all.take(0)));
    while i < hosts.len()
        invariant
            i <= hosts@.len(),
            all == import::host_views(hosts@),
            model::views(out@) == candidates(store@, all.take(i as int)),
        decreases hosts@.len() - i,
    {
        proof {
            assert(all.take(i + 1).drop_last() =~= all.take(i as int));
            assert(all.take(i + 1).last() == hosts@[i as int]@);
        }
        let c = hosts[i].to_connection();
        if !already_saved(store, &c) && ssh::validate(&c).is_ok() {
            out.push(c);
        }
        i = i + 1;
    }
    assert(all.take(i as int) =~= all);
    out
}

// ---------------------------------------------------------------- the command

/// How an import goes on.
#[derive(Debug)]
pub enum ImportStep {
    /// There is nothing to import, as this says.
    Nothing { message: String },
    /// Show these lines, and end there.
    Preview { lines: Vec<String> },
    /// Show these lines, then import all of these.
    TakeAll { lines: Vec<String>, candidates: Vec<Connection> },
    /// Show these lines, then ask which of these to import, under these labels.
    Ask { lines: Vec<String>, candidates: Vec<Connection>, labels: Vec<String> },
}

/// The mathematical form of an [`ImportStep`].
pub enum ImportStepView {
    Nothing { message: Seq<char> },
    Preview { lines: Seq<Seq<char>> },
    TakeAll { lines: Seq<Seq<char>>, candidates: Seq<ConnectionView> },
    Ask { lines: Seq<Seq<char>>, candidates: Seq<ConnectionView>, labels: Seq<Seq<char>> },
}

impl View for ImportStep {
    type V = ImportStepView;

    open spec fn view(&self) -> ImportStepView {
        match self {
            ImportStep::Nothing { message } => ImportStepView::Nothing { message: message@ },
            ImportStep::Preview { lines } => ImportStepView::Preview {
                lines: text::texts(lines@),
            },
            ImportStep::TakeAll { lines, candidates } => ImportStepView::TakeAll {
                lines: text::texts(lines@),
                candidates: model::views(candidates@),
            },
            ImportStep::Ask { lines, candidates, labels } => ImportStepView::Ask {
                lines: text::texts(lines@),
                candidates: model::views(candidates@),
                labels: text::texts(labels@),
            },
        }
    }
}

/// What to say when there is nothing to import from `path`, which lists `count` hosts.
pub open spec fn nothing_text(path: Seq<char>, count: nat) -> Seq<char> {
    "Nothing to import from "@ + path + ": "@ + number::decimal(count) + " host entr"@ + (if count
        == 1 {
        "y is"@
    } else {
        "ies are"@
    }) + " already saved or unusable."@
}

/// The line that shows a candidate.
pub open spec fn candidate_line(c: ConnectionView) -> Seq<char> {
    "  "@ + text::padded(c.name, 20) + " "@ + c.destination()
}

/// The lines that show the candidates from `path`.
pub open spec fn candidate_lines(path: Seq<char>, found: Seq<ConnectionView>) -> Seq<Seq<char>> {
    seq!["Importable from "@ + path + ":"@] + found.map_values(
        |c: ConnectionView| candidate_line(c),
    )
}

/// The label under which a candidate can be chosen.
pub open spec fn choice_label(c: ConnectionView) -> Seq<char> {
    c.name + " ("@ + c.destination() + ")"@
}

/// What importing `hosts` from `path` comes to.
pub open spec fn import_step(
    all: Seq<ConnectionView>,
    hosts: Seq<HostView>,
    path: Seq<char>,
    dry_run: bool,
    yes: bool,
) -> ImportStepView {
    let found = candidates(all, hosts);
    let lines = candidate_lines(path, found);
    if found.len() == 0 {
        ImportStepView::Nothing { message: nothing_text(path, hosts.len()) }
    } else if dry_run {
        ImportStepView::Preview { lines: lines.push("\n--dry-run: nothing was saved."@) }
    } else if yes {
        ImportStepView::TakeAll { lines, candidates: found }
    } else {
        ImportStepView::Ask {
            lines,
            candidates: found,
            labels: found.map_values(|c: ConnectionView| choice_label(c)),
        }
    }
}

fn nothing_message(path: &str, count: usize) -> (r: String)
    ensures
        r@ == nothing_text(path@, count as nat),
{
    let mut s = text::concat3("Nothing to import from ", path, ": ");
    s.append(number::to_decimal(count as u128).as_str());
    s.append(" host entr");
    s.append(
        if count == 1 {
            "y is"
        } else {
            "ies are"
        },
    );
    s.append(" already saved or unusable.");
    s
}

fn show_candidates(path: &str, found: &Vec<Connection>) -> (r: Vec<String>)
    ensures
        text::texts(r@) == candidate_lines(path@, model::views(found@)),
{
    let mut out: Vec<String> = Vec::new();
    out.push(text::concat3("Importable from ", path, ":"));
    let ghost expected = candidate_lines(path@, model::views(found@));
    let mut i: usize = 0;
    assert(text::texts(out@) =~= expected.take(1));
    while i < found.len()
        invariant
            i <= found@.len(),
            expected == candidate_lines(path@, model::views(found@)),
            text::texts(out@) == expected.take(i + 1),
        decreases found@.len() - i,
    {
        let mut line = text::concat3("  ", text::pad(found[i].name.as_str(), 20).as_str(), " ");
        line.append(found[i].destination().as_str());
        out.push(line);
        assert(expected.take(i + 2) =~= expected.take(i + 1).push(expected[i + 1]));
        i = i + 1;
    }
    assert(expected.take(i + 1) =~= expected);
    out
}

fn label_candidates(found: &Vec<Connection>) -> (r: Vec<String>)
    ensures
        text::texts(r@) == model::views(found@).map_values(|c: ConnectionView| choice_label(c)),
{
    let mut out: Vec<String> = Vec::new();
    let ghost expected = model::views(found@).map_values(|c: ConnectionView| choice_label(c));
    let mut i: usize = 0;
    assert(text::texts(out@) =~= expected.take(0));
    while i < found.len()
        invariant
            i <= found@.len(),
            expected == model::views(found@).map_values(|c: ConnectionView| choice_label(c)),
            text::texts(out@) == expected.take(i as int),
        decreases found@.len() - i,
    {
        let mut label = text::concat2(found[i].name.as_str(), " (");
        label.append(found[i].destination().as_str());
        label.append(")");
        out.push(label);
        assert(expected.take(i + 1) =~= expected.take(i as int).push(expected[i as int]));
        i = i + 1;
    }
    assert(expected.take(i as int) =~= expected);
    out
}

/// What importing the ssh config `document` from `path` comes to.
pub fn import(store: &Store, args: &ImportArgs, path: &str, document: &str) -> (r: ImportStep)
    ensures
        r@ == import_step(store@, import::parsed(document@), path@, args.dry_run, args.yes),
{
    let parsed = import::parse(document);
    let found = find_candidates(store, &parsed);
    assert(model::views(found@).len() == found@.len());
    assert(import::host_views(parsed@).len() == parsed@.len());
    if found.len() == 0 {
        return ImportStep::Nothing { message: nothing_message(path, parsed.len()) };
    }
    let mut lines = show_candidates(path, &found);
    if args.dry_run {
        lines.push("\n--dry-run: nothing was saved.".to_string());
        return ImportStep::Preview { lines };
    }
    if args.yes {
        return ImportStep::TakeAll { lines, candidates: found };
    }
    let labels = label_candidates(&found);
    ImportStep::Ask { lines, candidates: found, labels }
}

// ---------------------------------------------------------------- choosing

/// The candidates whose label is among those that were picked.
pub open spec fn chosen(
    found: Seq<ConnectionView>,
    labels: Seq<Seq<char>>,
    picked: Seq<Seq<char>>,
) -> Seq<ConnectionView>
    decreases found.len(),
{
    if found.len() == 0 {
        seq![]
    } else {
        let before = chosen(found.drop_last(), labels, picked);
        if picked.contains(labels[found.len() - 1]) {
            before.push(found.last())
        } else {
            before
        }
    }
}

fn among(label: &String, picked: &Vec<String>) -> (r: bool)
    ensures
        r == text::texts(picked@).contains(label@),
{
    let mut i: usize = 0;
    while i < picked.len()
        invariant
            i <= picked@.len(),
            forall|j: int| 0 <= j < i ==> #[trigger] text::texts(picked@)[j] != label@,
        decreases picked@.len() - i,
    {
        assert(text::texts(picked@)[i as int] == picked@[i as int]@);
        if text::same(picked[i].as_str(), label.as_str()) {
            return true;
        }
        i = i + 1;
    }
    false
}

/// The candidates whose label is among those that were picked.
pub fn choose_candidates(found: &Vec<Connection>, labels: &Vec<String>, picked: &Vec<String>) -> (r:
    Vec<Connection>)
    requires
        labels@.len() == found@.len(),
    ensures
        model::views(r@) == chosen(
            model::views(found@),
            text::texts(labels@),
            text::texts(picked@),
        ),
{
    let ghost all = model::views(found@);
    let mut out: Vec<Connection> = Vec::new();
    let mut i: usize = 0;
    assert(model::views(out@) =~= chosen(all.take(0), text::texts(labels@), text::texts(picked@)));
    while i < found.len()
        invariant
            i <= found@.len(),
            labels@.len() == found@.len(),
            all == model::views(found@),
            model::views(out@) == chosen(
                all.take(i as int),
                text::texts(labels@),
                text::texts(picked@),
            ),
        decreases found@.len() - i,
    {
        proof {
            assert(all.take(i + 1).drop_last() =~= all.take(i as int));
            assert(all.take(i + 1).last() == found@[i as int]@);
            assert(text::texts(labels@)[i as int] == labels@[i as int]@);
        }
        if among(&labels[i], picked) {
            out.push(found[i].clone());
        }
        i = i + 1;
    }
    assert(all.take(i as int) =~= all);
    out
}

/// What to say once `count` connections are imported.
pub fn imported_line(count: usize) -> (r: String)
    ensures
        r@ == "Imported "@ + number::decimal(count as nat) + " connection"@ + (if count == 1 {
            ""@
        } else {
            "s"@
        }) + "."@,
{
    let mut s = text::concat3("Imported ", number::to_decimal(count as u128).as_str(), " connection");
    s.append(
        if count == 1 {
            ""
        } else {
            "s"
        },
    );
    s.append(".");
    s
}

// ---------------------------------------------------------------- laws

/// Only what can be connected to, and leads nowhere that is saved already, is offered.
pub proof fn law_candidates_are_new_and_usable(all: Seq<ConnectionView>, hosts: Seq<HostView>)
    ensures
        forall|i: int|
            0 <= i < candidates(all, hosts).len() ==> is_candidate(
                all,
                #[trigger] candidates(all, hosts)[i],
            ),
    decreases hosts.len(),
{
    if hosts.len() > 0 {
        law_candidates_are_new_and_usable(all, hosts.drop_last());
        let before = candidates(all, hosts.drop_last());
        let after = candidates(all, hosts);
        assert forall|i: int| 0 <= i < after.len() implies is_candidate(all, #[trigger] after[i]) by {
            if i < before.len() {
                assert(after[i] == before[i]);
            }
        }
    }
}

/// What is inserted leads where it did before.
proof fn lemma_inserted_saved(all: Seq<ConnectionView>, more: Seq<ConnectionView>, c: ConnectionView)
    ensures
        is_saved(all, c) || is_saved(more, c) ==> is_saved(model::inserted_all(all, more), c),
    decreases more.len(),
{
    let after = model::inserted_all(all, more);
    if more.len() > 0 {
        let front = more.drop_last();
        let before = model::inserted_all(all, front);
        lemma_inserted_saved(all, front, c);
        assert(forall|i: int| 0 <= i < before.len() ==> #[trigger] after[i] == before[i]);
        if is_saved(before, c) {
            let i = choose|i: int| 0 <= i < before.len() && same_destination(#[trigger] before[i], c);
            assert(same_destination(after[i], c));
        } else if is_saved(more, c) {
            let i = choose|i: int| 0 <= i < more.len() && same_destination(#[trigger] more[i], c);
            if i < front.len() {
                assert(front[i] == more[i]);
                assert(is_saved(front, c));
            } else {
                assert(same_destination(after[before.len() as int], c));
            }
        }
    } else if is_saved(more, c) {
        assert(false);
    }
}

proof fn lemma_candidate_or_not(all: Seq<ConnectionView>, hosts: Seq<HostView>, k: int)
    requires
        0 <= k < hosts.len(),
    ensures
        is_candidate(all, hosts[k].connection()) ==> candidates(all, hosts).contains(
            hosts[k].connection(),
        ),
    decreases hosts.len(),
{
    let c = hosts[k].connection();
    let before = candidates(all, hosts.drop_last());
    let after = candidates(all, hosts);
    if is_candidate(all, c) {
        if k < hosts.len() - 1 {
            lemma_candidate_or_not(all, hosts.drop_last(), k);
            let i = choose|i: int| 0 <= i < before.len() && before[i] == c;
            assert(after[i] == c);
        } else {
            assert(after[before.len() as int] == c);
        }
    }
}

proof fn lemma_no_candidates(all: Seq<ConnectionView>, hosts: Seq<HostView>)
    requires
        forall|k: int| 0 <= k < hosts.len() ==> !is_candidate(all, (#[trigger] hosts[k]).connection()),
    ensures
        candidates(all, hosts).len() == 0,
    decreases hosts.len(),
{
    if hosts.len() > 0 {
        let front = hosts.drop_last();
        assert forall|k: int| 0 <= k < front.len() implies !is_candidate(
            all,
            (#[trigger] front[k]).connection(),
        ) by {
            assert(front[k] == hosts[k]);
        }
        lemma_no_candidates(all, front);
        assert(!is_candidate(all, hosts[hosts.len() - 1].connection()));
    }
}

/// Once everything on offer is imported, importing the same file again finds nothing more.
pub proof fn law_second_import_finds_nothing(all: Seq<ConnectionView>, hosts: Seq<HostView>)
    ensures
        candidates(model::inserted_all(all, candidates(all, hosts)), hosts).len() == 0,
{
    let found = candidates(all, hosts);
    let after = model::inserted_all(all, found);
    assert forall|k: int| 0 <= k < hosts.len() implies !is_candidate(
        after,
        (#[trigger] hosts[k]).connection(),
    ) by {
        let c = hosts[k].connection();
        lemma_inserted_saved(all, found, c);
        lemma_candidate_or_not(all, hosts, k);
        if is_candidate(all, c) {
            let i = choose|i: int| 0 <= i < found.len() && found[i] == c;
            assert(same_destination(found[i], c));
        }
    }
    lemma_no_candidates(after, hosts);
}

/// Every host that is neither saved yet nor unusable is a candidate, as the connection it
/// stands for, in the order of the hosts; no other host is.
pub proof fn law_candidates(
    all: Seq<ConnectionView>,
    before: Seq<HostView>,
    h: HostView,
    after: Seq<HostView>,
)
    ensures
        ({
            let c = h.connection();
            let saved = exists|i: int|
                {
                    &&& 0 <= i < all.len()
                    &&& text::lower((#[trigger] all[i]).host) == text::lower(c.host)
                    &&& all[i].port == c.port
                    &&& all[i].user == c.user
                };
            let found = candidates(all, before.push(h) + after);
            &&& !saved && ssh::fault(c) is None ==> found == candidates(all, before).push(c)
                + candidates(all, after)
            &&& saved || ssh::fault(c) is Some ==> found == candidates(all, before) + candidates(
                all,
                after,
            )
        }),
        candidates(all, Seq::empty()).len() == 0,
    decreases after.len(),
{
    let c = h.connection();
    let hosts = before.push(h) + after;
    if is_saved(all, c) {
        let i = choose|i: int| 0 <= i < all.len() && same_destination(#[trigger] all[i], c);
        assert(text::lower(all[i].host) == text::lower(c.host));
    }
    if exists|i: int|
        {
            &&& 0 <= i < all.len()
            &&& text::lower((#[trigger] all[i]).host) == text::lower(c.host)
            &&& all[i].port == c.port
            &&& all[i].user == c.user
        } {
        let i = choose|i: int|
            {
                &&& 0 <= i < all.len()
                &&& text::lower((#[trigger] all[i]).host) == text::lower(c.host)
                &&& all[i].port == c.port
                &&& all[i].user == c.user
            };
        assert(same_destination(all[i], c));
    }
    let x = candidates(all, before);
    if after.len() == 0 {
        assert(hosts =~= before.push(h));
        assert(hosts.drop_last() =~= before);
        assert(candidates(all, after) =~= seq![]);
        assert(x + candidates(all, after) =~= x);
        assert(x.push(c) + candidates(all, after) =~= x.push(c));
    } else {
        law_candidates(all, before, h, after.drop_last());
        assert(hosts.drop_last() =~= before.push(h) + after.drop_last());
        assert(hosts.last() == after.last());
        assert(is_candidate(all, c) ==> candidates(all, hosts) =~= x.push(c) + candidates(
            all,
            after,
        ));
        assert(!is_candidate(all, c) ==> candidates(all, hosts) =~= x + candidates(all, after));
    }
}

/// An import says so where there is nothing to import, saves nothing on a dry run, takes
/// every candidate where that was asked for, and else asks, with a label for each of them.
pub proof fn law_import_step(
    all: Seq<ConnectionView>,
    hosts: Seq<HostView>,
    path: Seq<char>,
    dry_run: bool,
    yes: bool,
)
    ensures
        ({
            let found = candidates(all, hosts);
            let step = import_step(all, hosts, path, dry_run, yes);
            &&& step is Nothing <==> found.len() == 0
            &&& step is Preview <==> found.len() > 0 && dry_run
            &&& step matches ImportStepView::TakeAll { candidates: taken, .. } ==> taken == found
                && yes
            &&& step matches ImportStepView::Preview { lines } ==> candidate_lines(
                path,
                found,
            ).is_prefix_of(lines)
            &&& step matches ImportStepView::TakeAll { lines, .. } ==> lines == candidate_lines(
                path,
                found,
            )
            &&& step matches ImportStepView::Ask { lines, .. } ==> lines == candidate_lines(
                path,
                found,
            )
            &&& found.len() > 0 && !dry_run && yes ==> step is TakeAll
            &&& found.len() > 0 && !dry_run && !yes ==> step is Ask
            &&& step matches ImportStepView::Ask { candidates: offered, labels, .. } ==> {
                &&& offered == found
                &&& labels.len() == found.len()
                &&& forall|i: int|
                    0 <= i < found.len() ==> #[trigger] labels[i] == found[i].name + seq![' ', '(']
                        + found[i].destination() + seq![')']
            }
        }),
{
    reveal_strlit(" (");
    reveal_strlit(")");
    assert(" ("@ =~= seq![' ', '(']);
    assert(")"@ =~= seq![')']);
    let found = candidates(all, hosts);
    let lines = candidate_lines(path, found);
    let more = lines.push("\n--dry-run: nothing was saved."@);
    assert(lines =~= more.subrange(0, lines.len() as int));
}

/// The candidates are shown below a heading that names the file, a line for each of them,
/// with its name and destination.
pub proof fn law_candidate_lines(path: Seq<char>, found: Seq<ConnectionView>, i: int)
    requires
        0 <= i < found.len(),
    ensures
        candidate_lines(path, found).len() == found.len() + 1,
        text::occurs_in(candidate_lines(path, found)[0], path),
        text::occurs_at(candidate_lines(path, found)[i + 1], found[i].name, 2),
        ({
            let line = candidate_lines(path, found)[i + 1];
            let end = found[i].destination();
            line.len() >= end.len() && line.skip(line.len() - end.len()) == end
        }),
{
    let lines = candidate_lines(path, found);
    let head = lines[0];
    let n = "Importable from "@.len() as int;
    assert(head.subrange(n, n + path.len()) =~= path);
    assert(text::occurs_at(head, path, n));
    let line = lines[i + 1];
    assert(line == candidate_line(found[i]));
    reveal_strlit("  ");
    let name = found[i].name;
    let p = text::padded(name, 20);
    text::law_padded(name, 20);
    assert(line.subrange(2, 2int + name.len()) =~= name) by {
        assert(name == p.subrange(0, name.len() as int));
        assert(line.subrange(2, 2int + p.len()) =~= p);
        assert forall|k: int| 0 <= k < name.len() implies line.subrange(2, 2int + name.len())[k]
            == name[k] by {
            assert(p.subrange(0, name.len() as int)[k] == p[k]);
            assert(line.subrange(2, 2int + p.len())[k] == p[k]);
        }
    }
    let end = found[i].destination();
    assert(line.skip(line.len() - end.len()) =~= end);
}

/// What is imported are the candidates whose labels were picked, all of them, in their
/// order.
pub proof fn law_chosen(
    found: Seq<ConnectionView>,
    c: ConnectionView,
    labels: Seq<Seq<char>>,
    picked: Seq<Seq<char>>,
)
    requires
        found.len() < labels.len(),
    ensures
        chosen(Seq::empty(), labels, picked).len() == 0,
        (exists|k: int| 0 <= k < picked.len() && #[trigger] picked[k] == labels[found.len() as int])
            ==> chosen(found.push(c), labels, picked) == chosen(found, labels, picked).push(c),
        (forall|k: int|
            0 <= k < picked.len() ==> #[trigger] picked[k] != labels[found.len() as int])
            ==> chosen(found.push(c), labels, picked) == chosen(found, labels, picked),
{
    assert(found.push(c).drop_last() =~= found);
    if exists|k: int| 0 <= k < picked.len() && #[trigger] picked[k] == labels[found.len() as int] {
        assert(picked.contains(labels[found.len() as int]));
    }
}

/// Where there is nothing to import that is told with the file and with how many hosts it
/// lists.
pub proof fn law_nothing_is_told(path: Seq<char>, count: nat)
    ensures
        text::occurs_in(nothing_text(path, count), path),
        text::occurs_in(nothing_text(path, count), number::decimal(count)),
{
    let s = nothing_text(path, count);
    let i = "Nothing to import from "@.len() as int;
    text::lemma_found(s, path, i);
    text::lemma_found(s, number::decimal(count), i + path.len() + ": "@.len());
}

} // verus!
