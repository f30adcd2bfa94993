use herdr_ssh_manager::bulk_import::{
    already_saved, choose_candidates, import, imported_line, ImportStep,
};
use herdr_ssh_manager::cli::ImportArgs;
use herdr_ssh_manager::import::{is_pattern, parse, split_directive, unquote, SshConfigHost};
use herdr_ssh_manager::model::{Connection, Store};

const FIXTURE: &str = r#"# Personal hosts.
Host *
    ServerAliveInterval 30

# The web tier
Host web
    HostName web01.example.com
    User deploy
    Port 2222
    IdentityFile ~/.ssh/id_ed25519

Host db-a db-b
    HostName db.example.com
    User postgres

Host web-? *.internal !prod
    User nobody

hOsT oddly-formatted
	hostname = odd.example.com
	USER=root
	pOrT   =   23

Host behind-bastion
    HostName 10.0.0.5
    ProxyJump bastion.example.com

Host repeated
    User first
    User second

Host bare

Host after-match
    HostName after.example.com

Match host somewhere
    User nobody
"#;

fn find<'a>(hosts: &'a [SshConfigHost], alias: &str) -> &'a SshConfigHost {
    hosts
        .iter()
        .find(|h| h.alias == alias)
        .unwrap_or_else(|| panic!("no host {alias:?} in {hosts:#?}"))
}

#[test]
fn parses_a_basic_block() {
    let hosts = parse(FIXTURE);
    let web = find(&hosts, "web");
    assert_eq!(web.hostname.as_deref(), Some("web01.example.com"));
    assert_eq!(web.user.as_deref(), Some("deploy"));
    assert_eq!(web.port, Some(2222));
    assert_eq!(web.identity_file.as_deref(), Some("~/.ssh/id_ed25519"));
}

#[test]
fn skips_comments_and_blank_lines() {
    let hosts = parse(FIXTURE);
    assert!(hosts.iter().all(|h| !h.alias.starts_with('#')));
    assert!(hosts.iter().all(|h| !h.alias.is_empty()));
}

#[test]
fn wildcard_and_negated_hosts_are_skipped() {
    let hosts = parse(FIXTURE);
    for alias in ["*", "!prod", "web-?", "*.internal"] {
        assert!(
            !hosts.iter().any(|h| h.alias == alias),
            "pattern {alias:?} should not be importable"
        );
    }
}

#[test]
fn one_host_line_with_several_aliases_yields_one_entry_each() {
    let hosts = parse(FIXTURE);
    let a = find(&hosts, "db-a");
    let b = find(&hosts, "db-b");
    assert_eq!(a.user.as_deref(), Some("postgres"));
    assert_eq!(b.user.as_deref(), Some("postgres"));
    assert_eq!(a.hostname.as_deref(), Some("db.example.com"));
    assert_eq!(b.hostname.as_deref(), Some("db.example.com"));
}

#[test]
fn keywords_are_case_insensitive_and_accept_equals() {
    let hosts = parse(FIXTURE);
    let odd = find(&hosts, "oddly-formatted");
    assert_eq!(odd.hostname.as_deref(), Some("odd.example.com"));
    assert_eq!(odd.user.as_deref(), Some("root"));
    assert_eq!(odd.port, Some(23));
}

#[test]
fn proxy_jump_is_captured() {
    let hosts = parse(FIXTURE);
    assert_eq!(
        find(&hosts, "behind-bastion").proxy_jump.as_deref(),
        Some("bastion.example.com")
    );
}

#[test]
fn the_first_value_of_a_repeated_keyword_wins_as_ssh_does() {
    let hosts = parse(FIXTURE);
    assert_eq!(find(&hosts, "repeated").user.as_deref(), Some("first"));
}

#[test]
fn a_host_without_hostname_dials_its_alias() {
    let hosts = parse(FIXTURE);
    let bare = find(&hosts, "bare");
    assert!(bare.hostname.is_none());
    assert_eq!(bare.effective_host(), "bare");
    assert_eq!(bare.to_connection().host, "bare");
}

#[test]
fn settings_after_a_match_block_are_not_attributed_to_the_last_host() {
    let hosts = parse(FIXTURE);
    // `after-match` is followed by `Match ...` then `User nobody`.
    assert_eq!(find(&hosts, "after-match").user.as_deref(), None);
}

#[test]
fn converting_carries_the_fields_over_and_tags_the_source() {
    let conn = find(&parse(FIXTURE), "web").to_connection();
    assert_eq!(conn.name, "web");
    assert_eq!(conn.host, "web01.example.com");
    assert_eq!(conn.user.as_deref(), Some("deploy"));
    assert_eq!(conn.port, 2222);
    assert_eq!(conn.identity_file.as_deref(), Some("~/.ssh/id_ed25519"));
    assert_eq!(conn.tags, vec!["ssh-config".to_string()]);
}

#[test]
fn a_host_with_no_settings_at_all_still_parses() {
    let hosts = parse("Host solo\n");
    assert_eq!(hosts.len(), 1);
    assert_eq!(hosts[0].effective_host(), "solo");
}

#[test]
fn an_empty_document_yields_nothing() {
    assert!(parse("").is_empty());
    assert!(parse("# only a comment\n\n   \n").is_empty());
}

#[test]
fn the_sample_names_its_hosts_in_order() {
    let aliases: Vec<String> = parse(FIXTURE).into_iter().map(|h| h.alias).collect();
    assert_eq!(
        aliases,
        [
            "web",
            "db-a",
            "db-b",
            "oddly-formatted",
            "behind-bastion",
            "repeated",
            "bare",
            "after-match"
        ]
    );
}

#[test]
fn comments_do_not_change_what_is_parsed() {
    let plain = "Host a\nUser x\n";
    let commented = "# c\nHost a\n  # User y\nUser x\n#\n";
    assert_eq!(parse(plain), parse(commented));
}

#[test]
fn directives_are_split_at_blanks_or_an_equals_sign() {
    assert_eq!(
        split_directive("  Port = 22 "),
        Some(("Port".to_string(), "22".to_string()))
    );
    assert_eq!(
        split_directive("User\tada lovelace"),
        Some(("User".to_string(), "ada lovelace".to_string()))
    );
    assert_eq!(split_directive("   "), None);
    assert_eq!(split_directive("# User x"), None);
    assert!(is_pattern("!a") && is_pattern("a*") && is_pattern("?"));
    assert!(!is_pattern("a!"));
    assert_eq!(unquote("\"a b\""), "a b");
    assert_eq!(unquote("\"a"), "\"a");
}

#[test]
fn dedup_matches_on_host_user_and_port_only() {
    let mut store = Store::default();
    let mut existing = Connection::new("web", "example.com");
    existing.user = Some("deploy".into());
    store.insert_unique(existing);

    let mut same = Connection::new("a different label", "EXAMPLE.COM");
    same.user = Some("deploy".into());
    assert!(already_saved(&store, &same));

    let mut other_user = Connection::new("web", "example.com");
    other_user.user = Some("root".into());
    assert!(!already_saved(&store, &other_user));

    let mut other_port = Connection::new("web", "example.com");
    other_port.user = Some("deploy".into());
    other_port.port = 2222;
    assert!(!already_saved(&store, &other_port));
}

fn args(dry_run: bool, yes: bool) -> ImportArgs {
    ImportArgs {
        path: None,
        dry_run,
        yes,
    }
}

#[test]
fn a_dry_run_only_shows_what_would_come() {
    let step = import(
        &Store::default(),
        &args(true, true),
        "cfg",
        "Host web\nUser ada\nPort 2222\n",
    );
    match step {
        ImportStep::Preview { lines } => assert_eq!(
            lines,
            [
                "Importable from cfg:",
                "  web                  ada@web:2222",
                "\n--dry-run: nothing was saved."
            ]
        ),
        other => panic!("{other:?}"),
    }
}

#[test]
fn importing_everything_twice_finds_nothing_more() {
    let mut store = Store::default();
    match import(&store, &args(false, true), "cfg", FIXTURE) {
        ImportStep::TakeAll { lines, candidates } => {
            assert_eq!(lines.len(), 9);
            assert_eq!(candidates.len(), 8);
            store.insert_all(candidates);
        }
        other => panic!("{other:?}"),
    }
    match import(&store, &args(false, true), "cfg", FIXTURE) {
        ImportStep::Nothing { message } => assert_eq!(
            message,
            "Nothing to import from cfg: 8 host entries are already saved or unusable."
        ),
        other => panic!("{other:?}"),
    }
}

#[test]
fn one_unusable_host_is_counted_in_the_singular() {
    match import(
        &Store::default(),
        &args(false, false),
        "cfg",
        "Host web\nHostName -x\n",
    ) {
        ImportStep::Nothing { message } => assert_eq!(
            message,
            "Nothing to import from cfg: 1 host entry is already saved or unusable."
        ),
        other => panic!("{other:?}"),
    }
}

#[test]
fn only_the_picked_labels_are_imported() {
    match import(
        &Store::default(),
        &args(false, false),
        "cfg",
        "Host a\nHost b\nUser x\nHost c\n",
    ) {
        ImportStep::Ask {
            candidates, labels, ..
        } => {
            assert_eq!(labels, ["a (a)", "b (x@b)", "c (c)"]);
            let picked = vec!["c (c)".to_string(), "a (a)".to_string()];
            let chosen = choose_candidates(&candidates, &labels, &picked);
            let names: Vec<&str> = chosen.iter().map(|c| c.name.as_str()).collect();
            assert_eq!(names, ["a", "c"]);
            assert!(choose_candidates(&candidates, &labels, &Vec::new()).is_empty());
        }
        other => panic!("{other:?}"),
    }
    assert_eq!(imported_line(1), "Imported 1 connection.");
    assert_eq!(imported_line(2), "Imported 2 connections.");
}

#[test]
fn anything_else_in_the_file_is_ignored() {
    let plain = "Host web\n  HostName w.example\n  User ada\nHost db\n  Port 2222\n";
    let busy = "Include other\nHost web\n# note\n  ForwardAgent yes\n  HostName w.example\n\n\
                lonely\n  User ada\n  SendEnv = LANG\nHost db\n  Compression no\n  Port 2222\n\
                Include more";
    assert_eq!(parse(busy), parse(plain));
    assert_eq!(parse(busy).clone().len(), 2);
}
