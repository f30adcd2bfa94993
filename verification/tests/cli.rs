use herdr_ssh_manager::cli::{
    carry_over_identity, check_connect, commit_edit, connect, deleted_line, edit, from_flags,
    has_name_and_host, is_popup, kept_line, list, open_pane, port_answer, prompt_for_connection,
    prompt_text, prompts, remove, saved_line, unchanged_line, unknown_id, unrecorded_warning,
    updated_line, AddArgs, Answers, CliError, ConnectArgs, ConnectStep, EditArgs, EditStep,
    ListArgs, OpenPaneError, RemoveArgs,
};
use herdr_ssh_manager::config::Platform;
use herdr_ssh_manager::edit::{
    blank_to_none, edit_form, edit_one_field, menu_cursor, menu_help, menu_options, menu_title, split_tags,
    Field, FormStep,
};
use herdr_ssh_manager::model::{Connection, Store};
use herdr_ssh_manager::order::{comes_first, sort};
use herdr_ssh_manager::ssh::FindSshError;
use herdr_ssh_manager::time::Timestamp;

fn home() -> Option<String> {
    Some("/home/ada".to_string())
}

fn two() -> Store {
    let mut store = Store::default();
    store.insert_unique(Connection::new("web", "w"));
    store.insert_unique(Connection::new("db", "d"));
    store
}

#[test]
fn from_flags_requires_a_non_empty_name_and_host() {
    let args = AddArgs {
        name: Some("  ".into()),
        host: Some("h".into()),
        ..Default::default()
    };
    assert!(from_flags(args).unwrap_err().message().contains("--name"));

    let args = AddArgs {
        name: Some("n".into()),
        host: Some(" ".into()),
        ..Default::default()
    };
    assert!(from_flags(args).unwrap_err().message().contains("--host"));
}

#[test]
fn from_flags_carries_every_field() {
    let args = AddArgs {
        name: Some("Prod DB".into()),
        host: Some("db.example.com".into()),
        user: Some("deploy".into()),
        port: Some(2222),
        identity_file: Some("~/.ssh/id".into()),
        jump_host: Some("bastion".into()),
        tags: vec!["prod".into()],
        extra_ssh_args: vec!["-C".into()],
        notes: Some("primary".into()),
    };
    assert!(has_name_and_host(&args));
    let c = from_flags(args).unwrap();
    assert_eq!(c.id, "prod-db");
    assert_eq!(c.name, "Prod DB");
    assert_eq!(c.port, 2222);
    assert_eq!(c.user.as_deref(), Some("deploy"));
    assert_eq!(c.jump_host.as_deref(), Some("bastion"));
    assert_eq!(c.tags, vec!["prod".to_string()]);
    assert_eq!(c.extra_ssh_args, vec!["-C".to_string()]);
    assert_eq!(c.identity_file.as_deref(), Some("~/.ssh/id"));
    assert_eq!(c.notes.as_deref(), Some("primary"));
}

#[test]
fn from_flags_rejects_a_host_that_would_inject_an_ssh_flag() {
    let args = AddArgs {
        name: Some("evil".into()),
        host: Some("-oProxyCommand=id".into()),
        ..Default::default()
    };
    assert!(from_flags(args).is_err());
}

#[test]
fn unknown_id_lists_what_is_available() {
    let store = two();
    let msg = unknown_id(&store, "wbe").message();
    assert!(msg.contains("db, web"), "got: {msg}");
    assert_eq!(msg, "no connection `wbe`. Known ids: db, web");

    assert!(unknown_id(&Store::default(), "x")
        .message()
        .contains("empty"));
    assert_eq!(
        unknown_id(&Store::default(), "x").message(),
        "no connection `x`: the store is empty"
    );
}

#[test]
fn blank_to_none_trims() {
    assert_eq!(blank_to_none("  x  ").as_deref(), Some("x"));
    assert_eq!(blank_to_none("   "), None);
}

#[test]
fn texts_are_sorted_as_std_sorts_them() {
    let list: Vec<String> = ["b", "a", "", "B", "ab", "é", "z", "a", "a-2", "\u{10000}", "\u{ffff}"]
        .iter()
        .map(|s| s.to_string())
        .collect();
    let mut expected = list.clone();
    expected.sort_unstable();
    assert_eq!(sort(&list), expected);
    assert!(comes_first("a", "a"));
    assert!(comes_first("a", "ab"));
    assert!(!comes_first("b", "ab"));
}

#[test]
fn flags_without_a_name_and_host_need_the_form() {
    assert!(!has_name_and_host(&AddArgs::default()));
    let args = AddArgs {
        name: Some("n".into()),
        ..Default::default()
    };
    assert!(!has_name_and_host(&args));
    assert_eq!(from_flags(args), Err(CliError::EmptyHost));
    assert_eq!(from_flags(AddArgs::default()), Err(CliError::EmptyName));
}

#[test]
fn an_edit_keeps_the_id_and_the_history() {
    let mut existing = Connection::new("web", "w");
    existing.last_connected_at = Timestamp::new(5, 0);
    let mut updated = Connection::new("renamed", "w2");
    carry_over_identity(&mut updated, &existing);
    assert_eq!(updated.id, "web");
    assert_eq!(updated.name, "renamed");
    assert_eq!(updated.last_connected_at, existing.last_connected_at);

    let mut store = two();
    let existing = store.get("web").unwrap().clone();
    commit_edit(&mut store, &existing, Connection::new("renamed", "w2"));
    let ids: Vec<&str> = store.connections.iter().map(|c| c.id.as_str()).collect();
    assert_eq!(ids, ["web", "db"]);
    assert_eq!(store.get("web").unwrap().name, "renamed");
    assert_eq!(store.get("web").unwrap().host, "w2");
    assert_eq!(store.get("db").unwrap().name, "db");
}

#[test]
fn edit_changes_what_the_flags_name() {
    let store = two();
    let args = EditArgs {
        id: "web".into(),
        fields: AddArgs {
            host: Some(" other ".into()),
            user: Some("  ".into()),
            tags: vec!["t".into()],
            ..Default::default()
        },
    };
    match edit(&store, &args).unwrap() {
        EditStep::Replace { existing, updated } => {
            assert_eq!(existing.host, "w");
            assert_eq!(updated.host, "other");
            assert_eq!(updated.name, "web");
            assert_eq!(updated.user, None);
            assert_eq!(updated.tags, vec!["t".to_string()]);
        }
        other => panic!("{other:?}"),
    }
    let nothing = EditArgs {
        id: "db".into(),
        fields: AddArgs::default(),
    };
    match edit(&store, &nothing).unwrap() {
        EditStep::Form { existing } => assert_eq!(existing.id, "db"),
        other => panic!("{other:?}"),
    }
}

#[test]
fn edit_refuses_what_it_cannot_do() {
    let store = two();
    let with = |id: &str, fields: AddArgs| {
        edit(
            &store,
            &EditArgs {
                id: id.into(),
                fields,
            },
        )
        .unwrap_err()
        .message()
    };
    assert_eq!(
        with("nope", AddArgs::default()),
        "no connection `nope`. Known ids: db, web"
    );
    let blank_name = AddArgs {
        name: Some(" ".into()),
        ..Default::default()
    };
    assert_eq!(with("web", blank_name), "--name must not be empty");
    let blank_host = AddArgs {
        host: Some("".into()),
        ..Default::default()
    };
    assert_eq!(with("web", blank_host), "--host must not be empty");
    let flag = AddArgs {
        host: Some("-x".into()),
        ..Default::default()
    };
    assert!(with("web", flag).contains("must not start with `-`"));
}

#[test]
fn remove_asks_unless_told_not_to() {
    let store = two();
    let ask = RemoveArgs {
        id: "web".into(),
        yes: false,
    };
    assert_eq!(
        remove(&store, &ask).unwrap(),
        Some("Delete `web` (w)?".to_string())
    );
    let sure = RemoveArgs {
        id: "web".into(),
        yes: true,
    };
    assert_eq!(remove(&store, &sure).unwrap(), None);
    let missing = RemoveArgs {
        id: "x".into(),
        yes: true,
    };
    assert!(remove(&store, &missing).is_err());
    assert_eq!(kept_line("web"), "Kept `web`.");
    assert_eq!(deleted_line("web"), "Deleted `web`.");
}

#[test]
fn connect_prints_or_runs() {
    let store = two();
    let print = ConnectArgs {
        id: "web".into(),
        print: true,
    };
    match connect(&store, &print, &home()).unwrap() {
        ConnectStep::Print(line) => assert_eq!(line, "ssh w"),
        other => panic!("{other:?}"),
    }
    let go = ConnectArgs {
        id: "db".into(),
        print: false,
    };
    match connect(&store, &go, &home()).unwrap() {
        ConnectStep::Run(c) => assert_eq!(c.host, "d"),
        other => panic!("{other:?}"),
    }
    let missing = ConnectArgs {
        id: "x".into(),
        print: false,
    };
    assert!(connect(&store, &missing, &home()).is_err());
    let conn = Connection::new("a", "-x");
    let gone = FindSshError::NotFound(Platform::Unix);
    assert_eq!(
        check_connect(Some(gone), &conn),
        Err(CliError::FindSsh(gone))
    );
    assert!(matches!(
        check_connect(None, &conn),
        Err(CliError::Ssh(_))
    ));
    assert_eq!(check_connect(None, &Connection::new("a", "b")), Ok(()));
    assert_eq!(
        unrecorded_warning("disk full"),
        "could not record the connection time: disk full"
    );
}

#[test]
fn reports_name_the_entry_and_its_command() {
    let mut c = Connection::new("web", "w");
    c.port = 23;
    assert_eq!(
        saved_line(&c, &home()).unwrap(),
        "Saved `web` — ssh -p 23 w"
    );
    assert_eq!(
        updated_line(&c, &home()).unwrap(),
        "Updated `web` — ssh -p 23 w"
    );
    assert_eq!(unchanged_line("web"), "No changes to `web`.");
    c.host = String::new();
    assert!(saved_line(&c, &home()).is_err());
}

#[test]
fn the_form_asks_eight_questions() {
    let defaults = AddArgs {
        name: Some("n".into()),
        user: Some(String::new()),
        tags: vec!["a".into(), "b".into()],
        ..Default::default()
    };
    let all = prompts(&defaults);
    let messages: Vec<&str> = all.iter().map(|p| p.message.as_str()).collect();
    assert_eq!(
        messages,
        [
            "Name",
            "Host",
            "User (optional)",
            "Port",
            "Identity file (optional, e.g. ~/.ssh/id_ed25519)",
            "Jump host / ProxyJump (optional)",
            "Tags (comma separated, optional)",
            "Notes (optional)",
        ]
    );
    assert_eq!(all[0].default.as_deref(), Some("n"));
    assert_eq!(all[2].default, None);
    assert_eq!(all[3].default.as_deref(), Some("22"));
    assert_eq!(all[6].default.as_deref(), Some("a, b"));
    assert!(all[0].required && all[1].required && !all[2].required);
    assert_eq!(
        prompt_text(&all[0], "  ").as_deref(),
        Some("  Name is required")
    );
    assert_eq!(prompt_text(&all[0], "x"), None);
    assert_eq!(prompt_text(&all[2], ""), None);
}

#[test]
fn ports_are_typed_as_numbers() {
    assert_eq!(port_answer("  "), Some(22));
    assert_eq!(port_answer(" 2222 "), Some(2222));
    assert_eq!(port_answer("65535"), Some(65535));
    for bad in ["0", "65536", "ssh", "-1", "2 2"] {
        assert_eq!(port_answer(bad), None, "{bad}");
    }
}

fn answers() -> Answers {
    Answers {
        name: " Prod DB ".into(),
        host: " db ".into(),
        user: "  ".into(),
        port: 23,
        identity_file: " ~/k ".into(),
        jump_host: String::new(),
        tags: "a, ,b,".into(),
        notes: " n ".into(),
    }
}

#[test]
fn answers_make_a_connection() {
    let c = prompt_for_connection(&answers(), vec!["-C".to_string()]).unwrap();
    assert_eq!(c.id, "prod-db");
    assert_eq!(c.name, "Prod DB");
    assert_eq!(c.host, "db");
    assert_eq!(c.user, None);
    assert_eq!(c.port, 23);
    assert_eq!(c.identity_file.as_deref(), Some("~/k"));
    assert_eq!(c.jump_host, None);
    assert_eq!(c.tags, vec!["a".to_string(), "b".to_string()]);
    assert_eq!(c.extra_ssh_args, vec!["-C".to_string()]);
    assert_eq!(c.notes.as_deref(), Some("n"));
    let mut bad = answers();
    bad.host = "-x".into();
    assert!(prompt_for_connection(&bad, Vec::new()).is_err());
}

#[test]
fn the_table_lines_up() {
    let mut store = two();
    store.get_mut("db").unwrap().user = Some("postgres".into());
    store.get_mut("db").unwrap().last_connected_at = Timestamp::new(1_000_000, 0);
    let now = Timestamp::new(1_000_000 + 7200, 0).unwrap();
    let lines = list(&ListArgs { json: false }, &store, &now).unwrap();
    assert_eq!(
        lines,
        [
            "ID   NAME  DESTINATION  LAST USED",
            "db   db    postgres@d   2h ago",
            "web  web   w            never",
        ]
    );
    assert_eq!(list(&ListArgs { json: true }, &store, &now), None);
    let empty = list(&ListArgs { json: false }, &Store::default(), &now).unwrap();
    assert_eq!(empty[0], "No saved connections yet.");
    assert_eq!(empty.len(), 2);
}

#[test]
fn the_menu_shows_the_whole_record() {
    let mut c = Connection::new("web", "w");
    c.tags = vec!["a".into(), "b".into()];
    assert_eq!(
        menu_options(&c),
        [
            "Name             web",
            "Host             w",
            "User             —",
            "Port             22",
            "Identity file    —",
            "Jump host        —",
            "Tags             a, b",
            "Extra ssh args   —",
            "Notes            —",
            "Save changes",
            "Discard",
        ]
    );
    assert_eq!(menu_title(&c), "Edit `web`");
    assert_eq!(menu_help(&c, &home()), "ssh w");
    c.host = String::new();
    assert_eq!(
        menu_help(&c, &home()),
        "this entry cannot be turned into an ssh command yet"
    );
}

#[test]
fn a_choice_asks_saves_or_discards() {
    let mut c = Connection::new("web", "w");
    assert_eq!(edit_form(&c, None), FormStep::Discard);
    assert_eq!(edit_form(&c, Some(10)), FormStep::Discard);
    assert_eq!(edit_form(&c, Some(9)), FormStep::Save);
    assert_eq!(edit_form(&c, Some(0)), FormStep::Ask(Field::Name));
    assert_eq!(edit_form(&c, Some(8)), FormStep::Ask(Field::Notes));
    c.host = "-x".into();
    assert!(matches!(edit_form(&c, Some(9)), FormStep::Refuse(_)));
}

#[test]
fn each_field_takes_what_was_typed() {
    let existing = Connection::new("web", "w");
    let mut draft = existing.clone();
    assert_eq!(
        edit_one_field(Field::Name, &mut draft, &existing, "  "),
        Some("  name is required; left unchanged")
    );
    assert_eq!(
        edit_one_field(Field::Host, &mut draft, &existing, ""),
        Some("  host is required; left unchanged")
    );
    assert_eq!(
        edit_one_field(Field::Port, &mut draft, &existing, "0"),
        Some("  not a valid port (1-65535); left unchanged")
    );
    assert_eq!(draft, existing);
    for (field, line) in [
        (Field::Name, " n "),
        (Field::Host, "h"),
        (Field::User, "u"),
        (Field::Port, " 23 "),
        (Field::IdentityFile, "i"),
        (Field::JumpHost, "j"),
        (Field::Tags, "a, b ,,"),
        (Field::ExtraSshArgs, "-o  X=1"),
        (Field::Notes, "note"),
    ] {
        assert_eq!(edit_one_field(field, &mut draft, &existing, line), None);
    }
    let mut expected = Connection::new("n", "h");
    expected.id = "web".into();
    expected.user = Some("u".into());
    expected.port = 23;
    expected.identity_file = Some("i".into());
    expected.jump_host = Some("j".into());
    expected.tags = vec!["a".into(), "b".into()];
    expected.extra_ssh_args = vec!["-o".into(), "X=1".into()];
    expected.notes = Some("note".into());
    assert_eq!(draft, expected);
}

#[test]
fn the_cursor_stays_on_the_field() {
    assert_eq!(menu_cursor(0, Some(5)), 5);
    assert_eq!(menu_cursor(5, Some(0)), 0);
    assert_eq!(menu_cursor(5, Some(8)), 8);
    // A refused save, Discard and Esc.
    assert_eq!(menu_cursor(5, Some(9)), 5);
    assert_eq!(menu_cursor(5, Some(10)), 5);
    assert_eq!(menu_cursor(5, None), 5);
}

#[test]
fn untouched_lists_stay_as_they_are() {
    let mut existing = Connection::new("web", "w");
    existing.extra_ssh_args = vec![
        "-o".into(),
        "ProxyCommand=ssh -W %h:%p bastion".into(),
    ];
    existing.tags = vec!["a b".into(), "c".into()];
    let mut draft = existing.clone();
    let line = Field::ExtraSshArgs.current(&draft);
    edit_one_field(Field::ExtraSshArgs, &mut draft, &existing, &line);
    let line = Field::Tags.current(&draft);
    edit_one_field(Field::Tags, &mut draft, &existing, &line);
    assert_eq!(draft, existing);
    // White space at either end of the line is part of the arguments.
    for saved in [vec!["-o", "X=a "], vec![" -v", "b c"], vec![" "]] {
        existing.extra_ssh_args = saved.iter().map(|s| s.to_string()).collect();
        let mut draft = existing.clone();
        let line = Field::ExtraSshArgs.current(&draft);
        edit_one_field(Field::ExtraSshArgs, &mut draft, &existing, &line);
        assert_eq!(draft, existing);
    }
    assert_eq!(Field::Tags.prompt(), "Tags (comma separated)");
    assert_eq!(
        Field::ExtraSshArgs.prompt(),
        "Extra ssh args (space separated)"
    );
    assert_eq!(Field::JumpHost.prompt(), "Jump host");
    assert!(split_tags(" , ").is_empty());
}

#[test]
fn popups_are_opened_through_herdr() {
    let call = open_pane(&Some("/bin/herdr".into()), "picker").unwrap();
    assert_eq!(call.program, "/bin/herdr");
    assert_eq!(
        call.args,
        [
            "plugin",
            "pane",
            "open",
            "--plugin",
            "herdr-ssh-manager",
            "--entrypoint",
            "picker",
            "--placement",
            "popup"
        ]
    );
    assert_eq!(
        open_pane(&Some(String::new()), "add"),
        Err(OpenPaneError::NoBinPath)
    );
    assert!(open_pane(&None, "add")
        .unwrap_err()
        .message()
        .starts_with("HERDR_BIN_PATH is not set. This subcommand is meant to be run by Herdr as a plugin action;"));
    assert_eq!(
        OpenPaneError::Failed {
            entrypoint: "add".into(),
            status: "exit status: 1".into()
        }
        .message(),
        "`herdr plugin pane open --entrypoint add` failed with exit status: 1"
    );
    assert_eq!(
        OpenPaneError::NotRun {
            bin: "h".into(),
            cause: "gone".into()
        }
        .message(),
        "could not run h: gone"
    );
    assert!(is_popup(&Some("picker".into())));
    assert!(!is_popup(&Some(String::new())));
    assert!(!is_popup(&None));
}
