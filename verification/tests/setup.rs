use herdr_ssh_manager::config::Platform;
use herdr_ssh_manager::setup::{
    action_id, append_block, bindings, block, decide, plan, reload_line, run, Binding, Plan,
    SetupArgs, SetupError, SetupStep,
};
use herdr_ssh_manager::sweep::without_our_bindings;

const BOTH: [Platform; 2] = [Platform::Unix, Platform::Windows];

#[test]
fn a_config_without_keybindings_yields_none() {
    assert!(bindings("").unwrap().is_empty());
    assert!(bindings("[ui]\ntheme = \"dark\"\n").unwrap().is_empty());
}

#[test]
fn bindings_are_read_whatever_the_field_order() {
    let cfg = "[[keys.command]]\ncommand = \"other.thing\"\nkey = \"prefix+z\"\n";
    assert_eq!(
        bindings(cfg).unwrap(),
        vec![Binding {
            key: "prefix+z".into(),
            command: "other.thing".into()
        }]
    );
}

#[test]
fn broken_toml_is_refused_rather_than_appended_to() {
    let err = bindings("[[keys.command]\nkey =")
        .unwrap_err()
        .message(Platform::Unix, "config.toml");
    assert!(err.contains("not valid TOML"), "{err}");
}

#[test]
fn running_twice_changes_nothing_the_second_time() {
    for platform in BOTH {
        let cfg = block(platform, "prefix+shift+s");
        let plan = plan(platform, &bindings(&cfg).unwrap(), "prefix+shift+s");
        assert_eq!(
            plan,
            Plan::AlreadyDone {
                key: "prefix+shift+s".into()
            }
        );
    }
}

#[test]
fn a_binding_for_the_other_platform_is_named_as_the_problem() {
    // Exactly the trap: the id from the other platform is accepted by the TOML parser
    // and by `config check`, and fails only at the keyboard, silently.
    for platform in BOTH {
        let other = match platform {
            Platform::Windows => "herdr-ssh-manager.open-picker",
            Platform::Unix => "herdr-ssh-manager.open-picker-windows",
        };
        let cfg = format!(
            "[[keys.command]]\nkey = \"prefix+shift+s\"\ntype = \"plugin_action\"\ncommand = \"{other}\"\n"
        );
        assert_eq!(
            plan(platform, &bindings(&cfg).unwrap(), "prefix+shift+s"),
            Plan::WrongPlatformId {
                key: "prefix+shift+s".into(),
                command: other.into()
            }
        );
    }
}

#[test]
fn someone_elses_binding_on_that_key_is_not_stolen() {
    let cfg = "[[keys.command]]\nkey = \"prefix+shift+s\"\ncommand = \"other.thing\"\n";
    assert_eq!(
        plan(Platform::Unix, &bindings(cfg).unwrap(), "prefix+shift+s"),
        Plan::KeyTaken {
            key: "prefix+shift+s".into(),
            command: "other.thing".into()
        }
    );
}

#[test]
fn removing_takes_out_our_block_and_nothing_else() {
    for platform in BOTH {
        let cfg = format!(
            "# keep this comment\n[ui]\ntheme = \"dark\"\n\n\
             [[keys.command]]\nkey = \"prefix+g\"\ncommand = \"other.thing\"\n\n{}",
            block(platform, "prefix+shift+s")
        );
        let (out, removed) = without_our_bindings(&cfg);
        assert_eq!(removed, 1);
        assert!(out.contains("# keep this comment"), "{out}");
        assert!(out.contains("other.thing"), "{out}");
        assert!(!out.contains("herdr-ssh-manager"), "{out}");
        // Still valid TOML, and the untouched binding survives intact.
        assert_eq!(bindings(&out).unwrap().len(), 1);
    }
}

#[test]
fn add_then_remove_returns_the_file_to_where_it_started() {
    for platform in BOTH {
        let original = "[ui]\ntheme = \"dark\"\n";
        let mut with = original.to_string();
        with.push('\n');
        with.push_str(&block(platform, "prefix+shift+s"));
        let (back, removed) = without_our_bindings(&with);
        assert_eq!(removed, 1);
        assert_eq!(back, original);
    }
}

#[test]
fn comments_describing_the_block_leave_with_it() {
    // Found the hard way: left behind, these end up above the next table and read as
    // if they described that instead.
    let cfg = format!(
        "onboarding = false\n\n# Opens the picker.\n# prefix+s is taken.\n{}\n[ui]\nx = 1\n",
        block(Platform::Unix, "prefix+shift+s")
    );
    let (out, removed) = without_our_bindings(&cfg);
    assert_eq!(removed, 1);
    assert_eq!(out, "onboarding = false\n\n[ui]\nx = 1\n", "{out}");
}

#[test]
fn a_comment_separated_by_a_blank_line_belongs_to_someone_else() {
    let cfg = format!(
        "# unrelated note\n\n{}",
        block(Platform::Unix, "prefix+shift+s")
    );
    let (out, _) = without_our_bindings(&cfg);
    assert_eq!(out, "# unrelated note\n", "{out}");
}

#[test]
fn removing_from_a_config_without_our_binding_is_a_no_op() {
    let cfg = "[[keys.command]]\nkey = \"prefix+g\"\ncommand = \"other.thing\"\n";
    let (out, removed) = without_our_bindings(cfg);
    assert_eq!(removed, 0);
    assert_eq!(out, cfg);
}

#[test]
fn the_appended_block_parses_and_targets_this_platform() {
    for platform in BOTH {
        let parsed = bindings(&block(platform, "prefix+shift+s")).unwrap();
        assert_eq!(parsed.len(), 1);
        assert_eq!(parsed[0].command, action_id(platform));
        assert_eq!(parsed[0].key, "prefix+shift+s");
    }
}

#[test]
fn nothing_but_our_blocks_is_touched() {
    for cfg in ["", "\n", "a = 1\r\n", "no newline", "[[keys.command]]"] {
        assert_eq!(without_our_bindings(cfg), (cfg.to_string(), 0));
    }
    let two = format!(
        "{}\n{}",
        block(Platform::Unix, "a"),
        block(Platform::Windows, "b")
    );
    assert_eq!(without_our_bindings(&two), (String::new(), 2));
}

#[test]
fn sweeping_twice_finds_nothing_more() {
    let cfg = format!(
        "# note\n{}\n[[keys.command]]\nkey = \"g\"\ncommand = \"other\"\n\n{}\n\n[ui]\r\nx = 1",
        block(Platform::Unix, "a"),
        block(Platform::Windows, "b")
    );
    let (once, removed) = without_our_bindings(&cfg);
    assert_eq!(removed, 2);
    assert_eq!(
        once,
        "\n[[keys.command]]\nkey = \"g\"\ncommand = \"other\"\n\n\n[ui]\r\nx = 1"
    );
    assert_eq!(without_our_bindings(&once), (once.clone(), 0));
}

#[test]
fn what_is_parted_by_a_blank_line_stays() {
    let one = block(Platform::Unix, "k");
    assert_eq!(
        without_our_bindings(&format!("a = 1\n\n{one}\n# UI settings\n[ui]\nx = 1\n")),
        (
            "a = 1\n\n# UI settings\n[ui]\nx = 1\n".to_string(),
            1
        )
    );
    // Down to the end of the file, and though it names an action.
    assert_eq!(
        without_our_bindings(&format!("{one}\n\n# see \"herdr-ssh-manager.x\"\n\n# bye\n")),
        (
            "\n\n# see \"herdr-ssh-manager.x\"\n\n# bye\n".to_string(),
            1
        )
    );
    // A blank line inside the block does not end it, and a comment right below is its own.
    let split = one.replace("type", "\n# what it does\ntype");
    assert_eq!(
        without_our_bindings(&format!("{split}# glued\n\n[ui]\n")),
        ("\n[ui]\n".to_string(), 1)
    );
    // Two blocks in a row take no more with them than one does.
    let other = block(Platform::Windows, "b");
    assert_eq!(
        without_our_bindings(&format!("# unrelated note\n\n{one}{other}")),
        ("# unrelated note\n".to_string(), 2)
    );
    assert_eq!(
        without_our_bindings(&format!("# unrelated note\n\n# mine\n{one}\n# mine\n{other}")),
        ("# unrelated note\n".to_string(), 2)
    );
}

#[test]
fn a_comment_does_not_make_a_block_ours() {
    let cfg = "[[keys.command]]\nkey = \"g\"\n# command = \"herdr-ssh-manager.open-picker\"\n\
               command = \"other.thing\"\n";
    assert_eq!(without_our_bindings(cfg), (cfg.to_string(), 0));
}

#[test]
fn the_header_is_recognised_however_it_is_written() {
    let rest = "key = \"g\"\ncommand = \"herdr-ssh-manager.open-picker\"\n";
    for header in [
        "[[ keys.command ]]",
        "[[keys.command]] # note",
        "[[keys.command]]# a ] note",
        "  [[keys . command]]\t",
        "[[\"keys\".'command']]",
    ] {
        let cfg = format!("a = 1\n\n{header}\n{rest}\n[ui]\nx = 1\n");
        assert_eq!(bindings(&cfg).unwrap().len(), 1, "{header}");
        assert_eq!(
            without_our_bindings(&cfg),
            ("a = 1\n\n[ui]\nx = 1\n".to_string(), 1),
            "{header}"
        );
    }
    for header in [
        "[keys.command]",
        "[[keys.commands]]",
        "[[my.keys.command]]",
        "[[keys]]",
        "# [[keys.command]]",
        "[[keys.command] ]",
        "[[keys.command]] x",
        "[[keys.command]]]",
    ] {
        let cfg = format!("{header}\n{rest}");
        assert_eq!(without_our_bindings(&cfg), (cfg.clone(), 0), "{header}");
    }
    let args = SetupArgs::default();
    assert_eq!((args.key.as_str(), args.dry_run, args.remove), ("", false, false));
}

#[test]
fn every_printable_key_is_read_back() {
    let printable: String = (' '..='~').collect();
    let mut keys: Vec<String> = printable.chars().map(|c| c.to_string()).collect();
    keys.push(printable);
    keys.push(String::new());
    keys.push("\\\\\"\"'\"\\".to_string());
    for platform in BOTH {
        for key in &keys {
            let written = block(platform, key);
            let bound = bindings(&written).unwrap();
            assert_eq!(
                bound,
                vec![Binding {
                    key: key.clone(),
                    command: action_id(platform).to_string()
                }]
            );
            assert_eq!(
                run(&args("other", false, false), platform, &written).unwrap(),
                SetupStep::AlreadyDone { key: key.clone() }
            );
        }
    }
    assert_eq!(
        block(Platform::Unix, "a\"\\b"),
        "[[keys.command]]\nkey = \"a\\\"\\\\b\"\ntype = \"plugin_action\"\n\
         command = \"herdr-ssh-manager.open-picker\"\ndescription = \"SSH connections\"\n"
    );
}

#[test]
fn any_key_can_be_bound_and_taken_out_again() {
    for key in ["prefix+s", "a\nb", "\"", "é", ""] {
        for original in ["", "a = 1\n", "# only a comment\n", "[ui]\r\nx = 1\n"] {
            let with = append_block(original, &block(Platform::Unix, key));
            assert_eq!(without_our_bindings(&with), (original.to_string(), 1));
        }
    }
}

fn args(key: &str, dry_run: bool, remove: bool) -> SetupArgs {
    SetupArgs {
        key: key.to_string(),
        dry_run,
        remove,
    }
}

#[test]
fn setup_appends_a_stanza_of_its_own() {
    let step = run(
        &args("prefix+s", false, false),
        Platform::Unix,
        "[ui]\nx = 1",
    )
    .unwrap();
    let expected = format!("[ui]\nx = 1\n\n{}", block(Platform::Unix, "prefix+s"));
    assert_eq!(
        step,
        SetupStep::Append {
            backup: true,
            updated: expected.clone()
        }
    );
    assert_eq!(
        step.report("prefix+s", "c.toml", "c.bak"),
        "Bound prefix+s to the SSH picker in c.toml"
    );
    assert_eq!(
        run(&args("prefix+s", false, false), Platform::Unix, &expected).unwrap(),
        SetupStep::AlreadyDone {
            key: "prefix+s".into()
        }
    );
    let empty = run(&args("prefix+s", false, false), Platform::Unix, "").unwrap();
    assert_eq!(
        empty,
        SetupStep::Append {
            backup: false,
            updated: block(Platform::Unix, "prefix+s")
        }
    );
    assert_eq!(append_block("a\n", "b"), "a\n\nb");
}

#[test]
fn setup_shows_without_doing() {
    let step = run(&args("prefix+s", true, false), Platform::Windows, "").unwrap();
    let addition = block(Platform::Windows, "prefix+s");
    assert_eq!(
        step.report("prefix+s", "c.toml", "c.bak"),
        format!("Would append to c.toml:\n{addition}")
    );
    let step = run(&args("x", true, true), Platform::Windows, &addition).unwrap();
    assert_eq!(step, SetupStep::WouldRemove { removed: 1 });
    assert_eq!(
        step.report("x", "c.toml", "c.bak"),
        "Would remove 1 binding(s) from c.toml."
    );
}

#[test]
fn setup_takes_its_binding_out_again() {
    let cfg = format!("a = 1\n\n{}", block(Platform::Unix, "prefix+s"));
    let step = run(&args("x", false, true), Platform::Unix, &cfg).unwrap();
    assert_eq!(
        step,
        SetupStep::Remove {
            updated: "a = 1\n".into(),
            removed: 1
        }
    );
    assert_eq!(
        step.report("x", "c.toml", "c.bak"),
        "Removed 1 binding(s) from c.toml (backup at c.bak)."
    );
    let step = run(&args("x", false, true), Platform::Unix, "a = 1\n").unwrap();
    assert_eq!(step, SetupStep::NothingToRemove);
    assert_eq!(
        step.report("x", "c.toml", "c.bak"),
        "No SSH Manager keybinding in c.toml."
    );
}

#[test]
fn setup_refuses_what_it_would_break() {
    let taken = "[[keys.command]]\nkey = \"k\"\ncommand = \"other\"\n";
    let e = run(&args("k", false, false), Platform::Unix, taken).unwrap_err();
    assert_eq!(
        e,
        SetupError::KeyTaken {
            key: "k".into(),
            command: "other".into()
        }
    );
    assert_eq!(
        e.message(Platform::Unix, "c.toml"),
        "k is already bound to `other` in c.toml. Pick another with `--key`, e.g. `--key prefix+shift+h`."
    );
    let wrong = block(Platform::Windows, "k");
    let e = run(&args("z", false, false), Platform::Unix, &wrong).unwrap_err();
    let message = e.message(Platform::Unix, "c.toml");
    assert!(message.starts_with(
        "c.toml binds k to `herdr-ssh-manager.open-picker-windows`, which does not exist"
    ));
    assert!(message.ends_with("`command = \"herdr-ssh-manager.open-picker\"`."));
    for remove in [false, true] {
        let e = run(&args("k", false, remove), Platform::Unix, "a = ").unwrap_err();
        assert!(matches!(e, SetupError::InvalidToml { .. }));
    }
}

#[test]
fn bindings_that_were_read_decide_the_step() {
    let bound = vec![Binding {
        key: "k".into(),
        command: action_id(Platform::Unix).into(),
    }];
    let step = decide(&args("other", false, false), Platform::Unix, "x", &bound).unwrap();
    assert_eq!(
        step.report("other", "c.toml", "c.bak"),
        "Already bound: k opens the SSH picker (c.toml)."
    );
    assert_eq!(
        reload_line(true, "k"),
        "Herdr reloaded its config — press k to open it."
    );
    assert_eq!(
        reload_line(false, "k"),
        "Now run `herdr server reload-config` (or restart Herdr) and press k."
    );
}
