use chrono::{Duration, Utc};
use herdr_ssh_manager::config::Platform;
use herdr_ssh_manager::model::{Connection, Store};
use herdr_ssh_manager::picker::{
    centered_rect, filter, footer_hints, humanize, humanize_since, line_width, rank_matches, row,
    searchable, truncate, Area,
};
use herdr_ssh_manager::picker_state::{take_out, Action, FormOutcome, Key, Mode, Picker};
use herdr_ssh_manager::screen::{draw, Body, Footer};
use herdr_ssh_manager::ssh::FindSshError;
use herdr_ssh_manager::time::Timestamp;

fn store_with(names: &[(&str, &str)]) -> Store {
    let mut store = Store::default();
    for (name, host) in names {
        store.insert_unique(Connection::new(name, host));
    }
    store
}

fn stamp(t: chrono::DateTime<Utc>) -> Timestamp {
    Timestamp::new(t.timestamp(), t.timestamp_subsec_nanos()).unwrap()
}

fn ids(entries: &[&Connection]) -> Vec<String> {
    entries.iter().map(|c| c.id.clone()).collect()
}

#[test]
fn an_empty_query_returns_everything_in_recency_order() {
    let mut store = store_with(&[("web", "w.example"), ("db", "d.example")]);
    store.get_mut("db").unwrap().last_connected_at = Some(Timestamp::now());
    assert_eq!(ids(&filter(&store, "")), ["db", "web"]);
    assert_eq!(filter(&store, "   ").len(), 2);
}

#[test]
fn the_query_matches_name_host_and_tags() {
    let mut store = store_with(&[("Prod DB", "db.example.com"), ("staging web", "web.stg")]);
    store.get_mut("prod-db").unwrap().tags = vec!["critical".into()];

    assert_eq!(ids(&filter(&store, "prod")), ["prod-db"]);
    assert_eq!(ids(&filter(&store, "web.stg")), ["staging-web"]);
    assert_eq!(ids(&filter(&store, "critical")), ["prod-db"]);
}

#[test]
fn matching_is_fuzzy_and_case_insensitive() {
    let store = store_with(&[("Production Database", "db.example.com")]);
    assert_eq!(filter(&store, "proddb").len(), 1);
    assert_eq!(filter(&store, "PRODUCTION").len(), 1);
}

#[test]
fn a_query_that_matches_nothing_returns_nothing() {
    let store = store_with(&[("web", "w.example")]);
    assert!(filter(&store, "zzzzqqq").is_empty());
}

#[test]
fn humanize_since_uses_coarse_units() {
    let now = Utc::now();
    assert_eq!(humanize_since(&stamp(now)), "just now");
    assert_eq!(humanize_since(&stamp(now - Duration::minutes(5))), "5m ago");
    assert_eq!(humanize_since(&stamp(now - Duration::hours(3))), "3h ago");
    assert_eq!(humanize_since(&stamp(now - Duration::days(2))), "2d ago");
    assert_eq!(humanize_since(&stamp(now - Duration::days(90))), "3mo ago");
    assert_eq!(humanize_since(&stamp(now - Duration::days(800))), "2y ago");
    // A clock that jumped backwards must not render a negative age.
    assert_eq!(humanize_since(&stamp(now + Duration::hours(1))), "just now");
}

#[test]
fn ages_change_unit_at_their_limits() {
    for (secs, text) in [
        (i64::MIN, "just now"),
        (-1, "just now"),
        (59, "just now"),
        (60, "1m ago"),
        (3_599, "59m ago"),
        (3_600, "1h ago"),
        (86_399, "23h ago"),
        (86_400, "1d ago"),
        (2_591_999, "29d ago"),
        (2_592_000, "1mo ago"),
        (31_535_999, "12mo ago"),
        (31_536_000, "1y ago"),
        (i64::MAX, "292471208677y ago"),
    ] {
        assert_eq!(humanize(secs), text);
    }
}

#[test]
fn the_footer_fits_the_width_it_is_given() {
    // Wide enough for everything.
    let wide = footer_hints(100, 6);
    assert!(line_width(&wide) <= 100);
    let text: String = wide.concat();
    assert!(text.contains("^E edit"), "missing the edit hint: {text}");
    assert!(text.contains("6 saved"));

    // A 70%-of-100-columns popup: the full line does not fit, so the short one is used
    // and still names every key.
    let narrow = footer_hints(70, 6);
    assert!(
        line_width(&narrow) <= 70,
        "footer is {} wide in a 70-column pane",
        line_width(&narrow)
    );
    let text: String = narrow.concat();
    for key in ["^A", "^E", "^D", "esc"] {
        assert!(text.contains(key), "narrow footer lost {key}: {text}");
    }
}

#[test]
fn the_footer_is_worded_exactly() {
    assert_eq!(
        footer_hints(78, 6).concat(),
        "  ↑↓ move   enter connect   ^A add   ^E edit   ^D delete   esc close   6 saved"
    );
    assert_eq!(
        footer_hints(77, 6).concat(),
        "  ↑↓ move   ⏎ connect   ^A add   ^E edit   ^D del   esc close"
    );
    assert_eq!(line_width(&footer_hints(78, 6)), 78);
    assert_eq!(line_width(&footer_hints(61, 6)), 61);
    for width in [60, 55, 51, 0] {
        assert_eq!(
            footer_hints(width, 6).concat(),
            "  ↑↓ move ⏎ connect ^A add ^E edit ^D del esc close"
        );
        assert_eq!(line_width(&footer_hints(width, 6)), 51);
    }
}

#[test]
fn truncate_keeps_short_strings_and_ellipsises_long_ones() {
    assert_eq!(truncate("short", 10), "short");
    assert_eq!(truncate("abcdefghij", 10), "abcdefghij");
    assert_eq!(truncate("abcdefghijk", 10), "abcdefghi…");
    assert_eq!(truncate("ab", 1), "…");
    assert_eq!(truncate("ab", 0), "…");
    assert_eq!(truncate("", 0), "");
}

#[test]
fn centered_rect_fits_inside_a_small_area() {
    let area = Area {
        x: 0,
        y: 0,
        width: 20,
        height: 3,
    };
    let r = centered_rect(area, 60, 5);
    assert!(r.width <= area.width && r.height <= area.height);
    assert!(r.x + r.width <= area.x + area.width);
    assert!(r.y + r.height <= area.y + area.height);
    let big = Area {
        x: 10,
        y: 4,
        width: 100,
        height: 25,
    };
    assert_eq!(
        centered_rect(big, 60, 5),
        Area {
            x: 30,
            y: 14,
            width: 60,
            height: 5
        }
    );
    // Only what is computed has to be within reach.
    let edge = Area {
        x: 65_000,
        y: 65_535,
        width: 1000,
        height: 5,
    };
    assert_eq!(
        centered_rect(edge, 60, 5),
        Area {
            x: 65_470,
            y: 65_535,
            width: 60,
            height: 5
        }
    );
}

#[test]
fn higher_scores_come_first_and_ties_go_by_recency() {
    let mut store = store_with(&[("a", "h"), ("b", "h"), ("c", "h"), ("d", "h")]);
    store.record_use("c", Timestamp::new(9, 0).unwrap());
    store.record_use("a", Timestamp::new(5, 0).unwrap());
    let scores = vec![Some(7), Some(9), Some(7), None];
    assert_eq!(ids(&rank_matches(&store, &scores)), ["b", "c", "a"]);
}

#[test]
fn only_queries_of_a_sane_length_are_scored() {
    let store = store_with(&[("web", "w.example")]);
    assert!(searchable(&store, "web"));
    assert!(searchable(&store, &" ".repeat(5000)));
    assert!(searchable(&store, &"x".repeat(2520)));
    assert!(searchable(&Store::default(), &"x".repeat(2521)));
    // A word that is longer than the text does not match it, however long it is.
    assert!(searchable(&store, &"x".repeat(100_000)));
    assert!(filter(&store, &"x".repeat(100_000)).is_empty());
    let long = store_with(&[("x".repeat(3000).as_str(), "h")]);
    assert!(searchable(&long, &"x".repeat(2520)));
    assert!(!searchable(&long, &"x".repeat(2521)));
    assert!(!searchable(&long, &format!("a {}", "\\".repeat(1261))));
    assert_eq!(filter(&long, &"x".repeat(2520)).len(), 1);
    // It is the words that count, not the query.
    let words = format!("{} ", "x".repeat(100)).repeat(50);
    assert!(searchable(&long, &words));
    assert_eq!(filter(&long, &words).len(), 1);
    assert!(!searchable(&long, &words.replace(' ', "\\ ")));
}

#[test]
fn letters_with_two_lower_case_forms_are_scored_where_they_can_be() {
    let greek = store_with(&[("Γιάννης", "g"), ("ςσxé h", "h"), ("µs ſ", "m")]);
    assert!(searchable(&greek, "γιάννης"));
    assert_eq!(filter(&greek, "γιάννης").len(), 1);
    assert_eq!(filter(&greek, "σ").len(), 2);
    assert_eq!(filter(&greek, "μs").len(), 1);
    // Only a word with an accent that starts with a letter whose second form is there is
    // beyond the matcher.
    for query in ["σé", "Σé", "ςé", "x σé", "sé"] {
        assert!(!searchable(&greek, query), "{query}");
    }
    for query in ["é", "É", "xé", "éσ", "é σ", "σ é", "σx", "κé", "aé"] {
        assert!(searchable(&greek, query), "{query}");
    }
    assert_eq!(filter(&greek, "É").len(), 1);
    assert_eq!(filter(&greek, "xé").len(), 1);
    assert_eq!(filter(&greek, "é σ").len(), 1);
    let one = store_with(&[("διακομιστής", "d"), ("café", "c")]);
    assert!(searchable(&one, "é"));
    assert_eq!(filter(&one, "é").len(), 1);
    assert_eq!(filter(&one, "fé").len(), 1);
    // Escaped, the space is part of the word.
    assert!(searchable(&one, "σ é"));
    assert!(!searchable(&one, "σ\\ é"));
    let plain = store_with(&[("München", "m"), ("Øresund", "o")]);
    assert!(searchable(&plain, "ünch"));
    assert_eq!(filter(&plain, "ünch").len(), 1);
    assert_eq!(filter(&plain, "unch").len(), 1);
}

#[test]
fn rows_are_cut_and_padded_to_their_columns() {
    let mut c = Connection::new("a name that is far too long", "h");
    c.tags = vec!["x".into(), "y".into()];
    c.last_connected_at = Timestamp::new(1_000, 0);
    let r = row(&c, &Timestamp::new(1_120, 0).unwrap());
    assert_eq!(r.name, "a name that is fa…");
    assert_eq!(r.destination, format!("h{}", " ".repeat(29)));
    assert_eq!(r.tags, "x,y           ");
    assert_eq!(r.age.as_deref(), Some("2m ago"));
    assert_eq!(row(&Connection::new("a", "h"), &Timestamp::now()).age, None);
}

#[test]
fn typing_filters_and_esc_backs_out() {
    let store = store_with(&[("web", "w"), ("db", "d")]);
    let entries = store.sorted_by_recency();
    let mut p = Picker::new();
    p.selected = 1;
    assert_eq!(p.press(&entries, Key::Char('w'), false), Action::Stay);
    assert_eq!((p.query.as_str(), p.selected), ("w", 0));
    assert_eq!(p.press(&entries, Key::Char('q'), false), Action::Stay);
    assert_eq!(p.query, "wq");
    assert_eq!(p.press(&entries, Key::Backspace, false), Action::Stay);
    assert_eq!(p.query, "w");
    assert_eq!(p.press(&entries, Key::Esc, false), Action::Stay);
    assert_eq!(p.query, "");
    assert_eq!(p.press(&entries, Key::Esc, false), Action::Quit);
    assert_eq!(p.press(&entries, Key::Char('q'), false), Action::Stay);
    assert_eq!(p.query, "q");
    assert_eq!(p.press(&entries, Key::Char('q'), true), Action::Quit);
    assert_eq!(p.press(&entries, Key::Char('c'), true), Action::Quit);
    assert_eq!(p.press(&entries, Key::Other, false), Action::Stay);
}

#[test]
fn the_highlight_wraps_around() {
    let store = store_with(&[("a", "h"), ("b", "h"), ("c", "h")]);
    let entries = store.sorted_by_recency();
    let mut p = Picker::new();
    p.press(&entries, Key::Up, false);
    assert_eq!(p.selected, 2);
    p.press(&entries, Key::Down, false);
    assert_eq!(p.selected, 0);
    p.press(&entries, Key::Char('n'), true);
    assert_eq!(p.selected, 1);
    p.press(&entries, Key::Char('p'), true);
    assert_eq!(p.selected, 0);
    p.selected = 9;
    p.settle(3);
    assert_eq!(p.selected, 2);
    p.settle(0);
    assert_eq!(p.selected, 0);
    let none: Vec<&Connection> = Vec::new();
    p.press(&none, Key::Down, false);
    assert_eq!(p.selected, 0);
}

#[test]
fn deleting_takes_a_confirmation() {
    let mut store = store_with(&[("web", "w"), ("db", "d")]);
    let mut p = Picker::new();
    {
        let entries = store.sorted_by_recency();
        assert_eq!(p.press(&entries, Key::Char('d'), true), Action::Stay);
        assert_eq!(
            p.mode,
            Mode::ConfirmDelete {
                id: "web".into(),
                label: "web (w)".into()
            }
        );
        assert_eq!(p.press(&entries, Key::Char('x'), false), Action::Stay);
        assert_eq!(p.press(&entries, Key::Char('n'), false), Action::Stay);
        assert_eq!(p.mode, Mode::Normal);
        p.press(&entries, Key::Char('d'), true);
        assert_eq!(
            p.press(&entries, Key::Char('y'), false),
            Action::Delete { id: "web".into() }
        );
        assert_eq!(p.mode, Mode::Normal);
    }
    let before = store.connections.clone();
    let removed = take_out(&mut store, "web");
    assert_eq!(removed.as_ref().map(|r| r.place), Some(0));
    assert_eq!(store.connections.len(), 1);
    p.deleted(&mut store, removed, &Some("disk full".to_string()));
    assert_eq!(p.status.as_deref(), Some("Could not save: disk full"));
    assert_eq!(store.connections, before);
    let ids: Vec<&str> = store.connections.iter().map(|c| c.id.as_str()).collect();
    assert_eq!(ids, ["web", "db"]);
    assert!(take_out(&mut store, "gone").is_none());
    assert_eq!(store.connections, before);
    let removed = take_out(&mut store, "web");
    p.deleted(&mut store, removed, &None);
    assert_eq!(p.status.as_deref(), Some("Deleted `web`."));
    assert_eq!(store.connections.len(), 1);
}

#[test]
fn enter_connects_to_the_highlighted_entry() {
    let mut store = store_with(&[("web", "w"), ("bad", "-x")]);
    let mut p = Picker::new();
    let action = p.press(&store.sorted_by_recency(), Key::Enter, false);
    assert_eq!(action, Action::Connect(Connection::new("web", "w")));
    let now = Timestamp::new(77, 0).unwrap();
    let web = store.get("web").unwrap().clone();
    let bad = store.get("bad").unwrap().clone();

    let missing = Some(FindSshError::NotFound(Platform::Unix));
    assert!(!p.connecting(&mut store, &web, missing, now));
    assert!(p.status.as_deref().unwrap().contains("was not found on PATH"));
    assert!(!p.connecting(&mut store, &bad, None, now));
    assert!(p.status.as_deref().unwrap().contains("must not start with"));
    assert_eq!(store.get("web").unwrap().last_connected_at, None);

    assert!(p.connecting(&mut store, &web, None, now));
    assert_eq!(store.get("web").unwrap().last_connected_at, Some(now));

    let none: Vec<&Connection> = Vec::new();
    assert_eq!(p.press(&none, Key::Enter, false), Action::Stay);
    assert_eq!(p.status.as_deref(), Some("Nothing to connect to."));
}

#[test]
fn forms_report_how_they_ended() {
    let store = store_with(&[("web", "w")]);
    let entries = store.sorted_by_recency();
    let mut p = Picker::new();
    p.query = "w".into();
    assert_eq!(p.press(&entries, Key::Char('a'), true), Action::Add);
    assert_eq!(
        p.press(&entries, Key::Char('e'), true),
        Action::Edit { id: "web".into() }
    );
    p.edited(FormOutcome::Done("web".into()));
    assert_eq!(p.status.as_deref(), Some("Updated `web`."));
    assert_eq!(p.query, "w");
    p.edited(FormOutcome::Cancelled);
    assert_eq!(p.status.as_deref(), Some("Edit cancelled."));
    p.added(FormOutcome::Cancelled);
    assert_eq!(p.status.as_deref(), Some("Add cancelled."));
    p.added(FormOutcome::Failed("oops".into()));
    assert_eq!(p.status.as_deref(), Some("oops"));
    assert_eq!(p.query, "w");
    p.added(FormOutcome::Done("new".into()));
    assert_eq!(p.status.as_deref(), Some("Saved `new`."));
    assert_eq!(p.query, "");
    let none: Vec<&Connection> = Vec::new();
    assert_eq!(p.press(&none, Key::Char('e'), true), Action::Stay);
    assert_eq!(p.status.as_deref(), Some("Nothing to edit."));
}

#[test]
fn the_screen_shows_results_or_an_empty_state() {
    let now = Timestamp::new(1_000, 0).unwrap();
    let store = store_with(&[("web", "w")]);
    let entries = store.sorted_by_recency();
    let none: Vec<&Connection> = Vec::new();
    let mut p = Picker::new();

    let s = draw(&p, 0, &none, 100, &now);
    match s.body {
        Body::Welcome(lines) => assert_eq!(lines[1], "  No saved connections yet."),
        other => panic!("{other:?}"),
    }
    assert_eq!(s.footer, Footer::Hints(footer_hints(100, 0)));
    assert_eq!(s.confirm, None);

    p.query = "zzz".into();
    let s = draw(&p, 1, &none, 100, &now);
    assert_eq!(s.body, Body::NoMatch("    no match".into()));
    assert_eq!(s.query, "zzz");

    p.press(&entries, Key::Char('d'), true);
    p.status = Some("hello".into());
    let s = draw(&p, 1, &entries, 100, &now);
    match s.body {
        Body::Rows { rows, selected } => {
            assert_eq!(selected, 0);
            assert_eq!(rows, vec![row(entries[0], &now)]);
        }
        other => panic!("{other:?}"),
    }
    assert_eq!(s.footer, Footer::Status("  hello".into()));
    assert_eq!(s.confirm.as_deref(), Some("  Delete web (w)?"));
}
