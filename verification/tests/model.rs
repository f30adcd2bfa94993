use chrono::{DateTime, Utc};
use herdr_ssh_manager::model::{default_port, is_default_port, slugify, Connection, Store};
use herdr_ssh_manager::number::{parse_u16, to_decimal};
use herdr_ssh_manager::record::{from_records, to_records, Record};
use herdr_ssh_manager::split::{join_texts, split_lines, split_pieces, split_words};
use herdr_ssh_manager::time::Timestamp;

fn instant(text: &str) -> Timestamp {
    let t: DateTime<Utc> = text.parse().unwrap();
    Timestamp::new(t.timestamp(), t.timestamp_subsec_nanos()).unwrap()
}

fn sample() -> Store {
    let mut store = Store::default();
    let mut c = Connection::new("Prod DB", "db.example.com");
    c.user = Some("deploy".into());
    c.port = 2222;
    c.identity_file = Some("~/.ssh/id_ed25519".into());
    c.jump_host = Some("bastion.example.com".into());
    c.tags = vec!["prod".into(), "db".into()];
    c.extra_ssh_args = vec!["-o".into(), "ServerAliveInterval=30".into()];
    c.notes = Some("primary replica".into());
    c.last_connected_at = Some(instant("2025-03-04T05:06:07Z"));
    store.insert_unique(c);
    store.insert_unique(Connection::new("web", "web.example.com"));
    store
}

#[test]
fn slugify_collapses_and_lowercases() {
    assert_eq!(slugify("Prod DB"), "prod-db");
    assert_eq!(slugify("  web//01  "), "web-01");
    // Non-ASCII characters act as separators rather than being transliterated.
    assert_eq!(slugify("Ünïcode"), "n-code");
    assert_eq!(slugify("Café Prod"), "caf-prod");
    assert_eq!(slugify("!!!"), "connection");
}

#[test]
fn a_slug_is_its_own_slug() {
    for name in ["Prod DB", "  web//01  ", "Ünïcode", "!!!", "a-b", ""] {
        let slug = slugify(name);
        assert_eq!(slugify(&slug), slug);
    }
}

#[test]
fn insert_unique_disambiguates_colliding_names() {
    let mut store = Store::default();
    assert_eq!(
        store.insert_unique(Connection::new("Prod DB", "a")),
        "prod-db"
    );
    assert_eq!(
        store.insert_unique(Connection::new("Prod DB", "b")),
        "prod-db-2"
    );
    assert_eq!(
        store.insert_unique(Connection::new("prod db", "c")),
        "prod-db-3"
    );
    assert_eq!(store.connections.len(), 3);
}

#[test]
fn a_gap_in_the_numbering_is_filled_first() {
    let mut store = Store::default();
    for host in ["a", "b", "c"] {
        store.insert_unique(Connection::new("web", host));
    }
    store.remove("web-2");
    assert_eq!(store.insert_unique(Connection::new("web", "d")), "web-2");
    assert_eq!(store.insert_unique(Connection::new("web", "e")), "web-4");
    let ids: Vec<&str> = store.connections.iter().map(|c| c.id.as_str()).collect();
    assert_eq!(ids, ["web", "web-3", "web-2", "web-4"]);
}

#[test]
fn inserting_and_removing_leaves_the_store_as_it_was() {
    let mut store = sample();
    let before = store.clone();
    let id = store.insert_unique(Connection::new("web", "elsewhere"));
    assert_eq!(id, "web-2");
    assert_eq!(store.get(&id).unwrap().host, "elsewhere");
    assert_eq!(store.remove(&id).unwrap().host, "elsewhere");
    assert_eq!(store, before);
    assert!(store.get(&id).is_none());
}

#[test]
fn insert_all_gives_every_entry_an_id_of_its_own() {
    let mut store = sample();
    store.insert_all(vec![
        Connection::new("web", "one"),
        Connection::new("web", "two"),
    ]);
    let ids: Vec<&str> = store.connections.iter().map(|c| c.id.as_str()).collect();
    assert_eq!(ids, ["prod-db", "web", "web-2", "web-3"]);
}

#[test]
fn destination_omits_defaults() {
    let mut c = Connection::new("web", "example.com");
    assert_eq!(c.destination(), "example.com");
    c.user = Some("root".into());
    assert_eq!(c.destination(), "root@example.com");
    c.port = 2222;
    assert_eq!(c.destination(), "root@example.com:2222");
}

#[test]
fn search_text_holds_name_destination_and_tags() {
    let store = sample();
    assert_eq!(
        store.get("prod-db").unwrap().search_text(),
        "Prod DB deploy@db.example.com:2222 prod db"
    );
    assert_eq!(
        store.get("web").unwrap().search_text(),
        "web web.example.com"
    );
}

#[test]
fn remove_returns_the_dropped_entry() {
    let mut store = Store::default();
    store.insert_unique(Connection::new("a", "a.example"));
    store.insert_unique(Connection::new("b", "b.example"));
    assert_eq!(store.remove("a").unwrap().host, "a.example");
    assert!(store.remove("a").is_none());
    assert_eq!(store.connections.len(), 1);
}

#[test]
fn sorted_by_recency_puts_newest_first() {
    let mut store = Store::default();
    store.insert_unique(Connection::new("old", "o"));
    store.insert_unique(Connection::new("never", "n"));
    store.insert_unique(Connection::new("new", "w"));
    store.get_mut("old").unwrap().last_connected_at = Some(instant("2024-01-01T00:00:00Z"));
    store.get_mut("new").unwrap().last_connected_at = Some(instant("2025-01-01T00:00:00Z"));
    let order: Vec<&str> = store
        .sorted_by_recency()
        .iter()
        .map(|c| c.id.as_str())
        .collect();
    assert_eq!(order, ["new", "old", "never"]);
}

#[test]
fn entries_of_the_same_age_keep_their_order() {
    let mut store = Store::default();
    for name in ["a", "b", "c", "d"] {
        store.insert_unique(Connection::new(name, "h"));
    }
    let t = instant("2025-01-01T00:00:00Z");
    store.record_use("d", t);
    store.record_use("b", t);
    store.record_use("missing", t);
    let order: Vec<&str> = store
        .sorted_by_recency()
        .iter()
        .map(|c| c.id.as_str())
        .collect();
    assert_eq!(order, ["b", "d", "a", "c"]);
}

#[test]
fn the_default_port_is_22() {
    assert_eq!(default_port(), 22);
    assert!(is_default_port(&22));
    assert!(!is_default_port(&2222));
}

#[test]
fn records_give_back_what_was_written() {
    let original = sample();
    let records = to_records(&original);
    assert_eq!(records.len(), 2);
    assert_eq!(records[0].port, Some(2222));
    assert_eq!(
        records[0].tags,
        Some(vec!["prod".to_string(), "db".to_string()])
    );
    assert_eq!(from_records(&records), original);
}

#[test]
fn a_record_without_a_port_means_22() {
    let record = Record {
        id: "web".into(),
        name: "web".into(),
        host: "example.com".into(),
        port: None,
        user: None,
        identity_file: None,
        jump_host: None,
        tags: None,
        extra_ssh_args: None,
        last_connected_at: None,
        notes: None,
    };
    assert_eq!(record.connection(), Connection::new("web", "example.com"));
    assert_eq!(record.connection().port, 22);
}

#[test]
fn defaults_are_not_written_down() {
    let record = Record::of(&Connection::new("web", "example.com"));
    assert_eq!(record.port, None);
    assert_eq!(record.tags, None);
    assert_eq!(record.extra_ssh_args, None);
    assert_eq!(record.user, None);
}

#[test]
fn sixteen_bit_numbers_are_read_back() {
    for n in [0u16, 1, 9, 10, 22, 2222, 65535] {
        assert_eq!(parse_u16(&to_decimal(n as u128)), Some(n));
    }
    assert_eq!(parse_u16("+22"), Some(22));
    assert_eq!(parse_u16("007"), Some(7));
    for text in ["", "+", "-1", "65536", "99999999999999999999", "2 2", "0x10"] {
        assert_eq!(parse_u16(text), None, "{text}");
    }
}

#[test]
fn joining_undoes_splitting() {
    for text in ["", "a", "a,b", ",a,,b,", ",,,"] {
        assert_eq!(join_texts(&split_pieces(text, ','), ","), text);
    }
    assert_eq!(split_pieces(",a,", ','), ["", "a", ""]);
    assert_eq!(split_words("  a\tb \u{a0} c\n"), ["a", "b", "c"]);
    assert_eq!(split_lines("a\r\nb\n\nc"), ["a", "b", "", "c"]);
    assert!(split_lines("").is_empty());
}

#[test]
fn splitting_undoes_joining() {
    for parts in [vec!["a"], vec!["", "b c", ""], vec!["x", "y", "z"]] {
        let parts: Vec<String> = parts.into_iter().map(String::from).collect();
        assert_eq!(split_pieces(&join_texts(&parts, ","), ','), parts);
    }
}

#[test]
fn using_an_entry_changes_its_time_only() {
    let mut store = sample();
    let before = store.clone();
    let t = instant("2025-06-01T00:00:00Z");
    store.record_use("web", t);
    assert_eq!(store.connections[0], before.connections[0]);
    assert_eq!(store.connections[1].last_connected_at, Some(t));
    store.connections[1].last_connected_at = None;
    assert_eq!(store, before);
}

#[test]
fn timestamps_name_points_in_time() {
    let t = Timestamp::new(1_741_064_767, 5).unwrap();
    assert_eq!((t.secs(), t.nanos()), (1_741_064_767, 5));
    assert!(Timestamp::new(i64::MAX, 0).is_none());
    assert!(Timestamp::new(i64::MIN, 0).is_none());
    assert!(Timestamp::new(0, 2_000_000_000).is_none());
    // A leap second only fits the last second of a minute.
    assert!(Timestamp::new(59, 1_500_000_000).is_some());
    assert!(Timestamp::new(58, 1_500_000_000).is_none());
}

#[test]
fn timestamps_are_subtracted_and_stamped_like_chrono_does() {
    let a = instant("2025-03-04T05:06:07Z");
    let b = instant("2025-03-04T05:06:09.900Z");
    assert_eq!(b.seconds_since(&a), 2);
    assert_eq!(a.seconds_since(&b), -2);
    assert_eq!(a.file_stamp(), "20250304T050607Z");
    let now = Utc::now();
    let ours = Timestamp::now();
    assert!((ours.secs() - now.timestamp()).abs() <= 5);
}
