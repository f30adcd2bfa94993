use herdr_ssh_manager::config::Location;
use herdr_ssh_manager::model::{Connection, Store};
use herdr_ssh_manager::store::{
    document, load, load_reporting, quarantine, recovered, save, Found, LoadOutcome, LoadStep,
    SaveStep, StoreFile,
};
use herdr_ssh_manager::time::Timestamp;

#[test]
fn missing_file_loads_as_empty() {
    match load(Found::Missing) {
        LoadStep::Loaded(store, outcome) => {
            assert!(store.connections.is_empty());
            assert_eq!(outcome, LoadOutcome::Clean);
        }
        other => panic!("{other:?}"),
    }
}

#[test]
fn a_parsed_file_is_loaded_as_it_is() {
    let mut original = Store::default();
    original.insert_unique(Connection::new("web", "web.example.com"));
    match load(Found::Parsed(original.clone())) {
        LoadStep::Loaded(store, outcome) => {
            assert_eq!(outcome, LoadOutcome::Clean);
            assert_eq!(store, original);
        }
        other => panic!("{other:?}"),
    }
}

#[test]
fn an_unreadable_file_is_set_aside_under_its_own_name() {
    let error = match load(Found::Corrupt("bad line".into())) {
        LoadStep::Quarantine { error } => error,
        other => panic!("{other:?}"),
    };
    let now = Timestamp::new(1_741_064_767, 0).unwrap();
    let name = quarantine(&Some("mine.toml".into()), &now);
    assert_eq!(name, "mine.toml.corrupt-20250304T050607Z");
    assert_eq!(
        quarantine(&None, &now),
        "connections.toml.corrupt-20250304T050607Z"
    );
    let (store, outcome) = recovered(name.clone(), error);
    assert!(store.connections.is_empty());
    assert_eq!(
        outcome,
        LoadOutcome::RecoveredFromCorrupt {
            backup: name,
            error: "bad line".into()
        }
    );
    assert_eq!(
        load_reporting("mine.toml", &outcome).unwrap(),
        "herdr-ssh-manager: mine.toml could not be parsed (bad line).\n\
         herdr-ssh-manager: it was saved as mine.toml.corrupt-20250304T050607Z \
         and a fresh, empty store was started."
    );
    assert_eq!(load_reporting("mine.toml", &LoadOutcome::Clean), None);
}

#[test]
fn the_heading_is_a_comment() {
    let text = document("[[connection]]\nid = \"web\"\n");
    assert!(text.starts_with("# Managed by herdr-ssh-manager. Hand edits are fine;"));
    let lines: Vec<&str> = text.lines().collect();
    assert!(lines[0].starts_with('#') && lines[1].starts_with('#'));
    assert_eq!(lines[2], "");
    assert_eq!(lines[3], "[[connection]]");
    let value: toml::Value = toml::from_str(&text).unwrap();
    assert_eq!(value["connection"][0]["id"].as_str(), Some("web"));
}

#[test]
fn the_target_is_replaced_last() {
    let steps = save();
    assert_eq!(
        steps,
        [
            SaveStep::MakeDirectory,
            SaveStep::Create,
            SaveStep::Write,
            SaveStep::Flush,
            SaveStep::Restrict,
            SaveStep::Replace
        ]
    );
    let said: Vec<String> = steps.iter().map(|s| s.failure("t", "t.tmp", "d")).collect();
    assert_eq!(
        said,
        [
            "could not create d",
            "could not create t.tmp",
            "could not write t.tmp",
            "could not flush t.tmp",
            "could not set permissions on t.tmp",
            "could not replace t with t.tmp"
        ]
    );
}

#[test]
fn a_store_file_keeps_its_place() {
    let file = StoreFile::at(Location::at("/tmp".to_string()).join("x.toml"));
    assert_eq!(file.path().base, "/tmp");
    assert_eq!(file.path().parts, vec!["x.toml".to_string()]);
}
