use herdr_ssh_manager::handoff::{advance, fallback_notice, hand_off, Next, Placement, Stage};
use herdr_ssh_manager::herdr::{
    bin_path, call, create_tab, create_tab_args, open_envelope, pane_is_free, pane_run,
    process_info_args, quote_command, rename_tab, shell_quote, Context, HerdrError, Output,
};
use serde_json::Value;

fn json(text: &str) -> Value {
    serde_json::from_str(text).unwrap()
}

fn list(items: &[&str]) -> Vec<String> {
    items.iter().map(|s| s.to_string()).collect()
}

#[test]
fn plain_arguments_are_left_alone() {
    for arg in [
        "ssh",
        "-p",
        "2222",
        "deploy@example.com",
        "/home/j/.ssh/id_ed25519",
        "-oX=1",
    ] {
        assert_eq!(shell_quote(arg), arg, "{arg} should not need quoting");
    }
}

#[test]
fn arguments_with_spaces_are_quoted() {
    assert_eq!(
        shell_quote("/home/jorge/mi clave.pem"),
        "'/home/jorge/mi clave.pem'"
    );
    assert_eq!(shell_quote(""), "''");
}

#[test]
fn shell_metacharacters_cannot_escape_the_quotes() {
    assert_eq!(shell_quote("a;rm -rf /"), "'a;rm -rf /'");
    assert_eq!(shell_quote("$(id)"), "'$(id)'");
    assert_eq!(shell_quote("`id`"), "'`id`'");
    assert_eq!(shell_quote("a&&b"), "'a&&b'");
    assert_eq!(shell_quote("a\nb"), "'a\nb'");
}

#[test]
fn embedded_single_quotes_are_closed_and_reopened() {
    assert_eq!(shell_quote("it's"), r"'it'\''s'");
    // The classic break-out attempt stays inert.
    assert_eq!(shell_quote("'; id; '"), r"''\''; id; '\'''");
}

#[test]
fn quote_command_joins_into_one_safe_line() {
    let args = vec![
        "-p".to_string(),
        "2222".to_string(),
        "-i".to_string(),
        "/home/jorge/mi clave.pem".to_string(),
        "deploy@example.com".to_string(),
    ];
    assert_eq!(
        quote_command("ssh", &args),
        "ssh -p 2222 -i '/home/jorge/mi clave.pem' deploy@example.com"
    );
}

#[test]
fn the_binary_has_to_be_named() {
    assert_eq!(bin_path(&Some("/bin/herdr".into())).unwrap(), "/bin/herdr");
    assert_eq!(bin_path(&Some(String::new())), Err(HerdrError::NoBinPath));
    assert_eq!(
        bin_path(&None).unwrap_err().message(),
        "HERDR_BIN_PATH is not set"
    );
}

fn output(success: bool, stdout: &str, stderr: &str) -> Output {
    Output {
        success,
        stdout: stdout.as_bytes().to_vec(),
        stderr: stderr.as_bytes().to_vec(),
    }
}

#[test]
fn silence_and_success_mean_done() {
    let args = list(&["pane", "run", "p", "ls"]);
    assert_eq!(call(&args, &output(true, " \n", "noise")), Ok(Value::Null));
}

#[test]
fn silence_and_failure_carry_what_stderr_says() {
    let args = list(&["pane", "run"]);
    assert_eq!(
        call(&args, &output(false, "", " no such pane \n"))
            .unwrap_err()
            .message(),
        "`herdr pane run` failed: no such pane"
    );
    assert_eq!(
        call(&args, &output(false, "", "")).unwrap_err().message(),
        "`herdr pane run` failed"
    );
}

#[test]
fn answers_are_taken_out_of_their_envelope() {
    let args = list(&["tab", "create"]);
    assert_eq!(
        call(&args, &output(true, "{\"result\": {\"a\": 1}}\n", "")),
        Ok(json("{\"a\": 1}"))
    );
    assert_eq!(call(&args, &output(true, "{}", "")), Ok(Value::Null));
    assert_eq!(
        call(&args, &output(false, "{\"error\": {\"message\": \"busy\"}}", ""))
            .unwrap_err()
            .message(),
        "`herdr tab create` failed: busy"
    );
    assert_eq!(
        call(&args, &output(false, "{\"error\": 7}", ""))
            .unwrap_err()
            .message(),
        "`herdr tab create` failed: unknown error"
    );
    assert_eq!(
        call(&args, &output(true, "oops", "")).unwrap_err().message(),
        "`herdr tab create` did not return JSON: oops"
    );
    assert_eq!(
        open_envelope(&args, &json("{\"result\": [1, 2]}")),
        Ok(json("[1, 2]"))
    );
}

#[test]
fn bytes_that_are_no_utf8_are_replaced() {
    let args = list(&["x"]);
    let odd = Output {
        success: true,
        stdout: vec![b'o', 0xff, b'k'],
        stderr: Vec::new(),
    };
    assert_eq!(
        call(&args, &odd).unwrap_err().message(),
        "`herdr x` did not return JSON: o\u{fffd}k"
    );
}

#[test]
fn a_herdr_that_cannot_be_run_is_named() {
    let e = HerdrError::NotRun {
        bin: "/bin/herdr".into(),
        args: list(&["a", "b"]),
        cause: "not found".into(),
    };
    assert_eq!(e.message(), "could not run /bin/herdr a b: not found");
}

#[test]
fn a_pane_is_free_when_its_shell_owns_the_foreground() {
    let idle = "{\"process_info\": {\"foreground_process_group_id\": 7, \"shell_pid\": 7}}";
    let busy = "{\"process_info\": {\"foreground_process_group_id\": 8, \"shell_pid\": 7}}";
    assert_eq!(pane_is_free("p", Ok(json(idle))), Ok(true));
    assert_eq!(pane_is_free("p", Ok(json(busy))), Ok(false));
    for (reply, message) in [
        ("{}", "pane p reported no process info"),
        (
            "{\"process_info\": {\"shell_pid\": 7}}",
            "pane p reported no foreground process group",
        ),
        (
            "{\"process_info\": {\"foreground_process_group_id\": 7.5}}",
            "pane p reported no foreground process group",
        ),
        (
            "{\"process_info\": {\"foreground_process_group_id\": 7, \"shell_pid\": 18446744073709551615}}",
            "pane p reported no shell pid",
        ),
    ] {
        assert_eq!(
            pane_is_free("p", Ok(json(reply))).unwrap_err().message(),
            message
        );
    }
    assert_eq!(
        pane_is_free("p", Err(HerdrError::NoBinPath)),
        Err(HerdrError::NoBinPath)
    );
}

#[test]
fn a_new_tab_names_its_root_pane() {
    assert_eq!(
        create_tab(Ok(json("{\"root_pane\": {\"pane_id\": \"w1:p9\"}}"))),
        Ok("w1:p9".to_string())
    );
    for reply in ["{}", "{\"root_pane\": {}}", "{\"root_pane\": {\"pane_id\": 9}}"] {
        assert_eq!(create_tab(Ok(json(reply))), Err(HerdrError::NoRootPane));
    }
    assert_eq!(
        HerdrError::NoRootPane.message(),
        "herdr created a tab but reported no root pane"
    );
    assert_eq!(
        create_tab_args(&Some("w1".into()), "web"),
        [
            "tab",
            "create",
            "--focus",
            "--label",
            "web",
            "--workspace",
            "w1"
        ]
    );
    assert_eq!(
        create_tab_args(&None, "web"),
        ["tab", "create", "--focus", "--label", "web"]
    );
}

#[test]
fn commands_are_done_or_not() {
    assert_eq!(rename_tab(Ok(Value::Null)), Ok(()));
    assert_eq!(pane_run(Ok(json("{}"))), Ok(()));
    assert_eq!(
        pane_run(Err(HerdrError::NoRootPane)),
        Err(HerdrError::NoRootPane)
    );
}

fn context() -> Context {
    Context {
        workspace_id: Some("w1".into()),
        tab_id: Some("w1:t1".into()),
        focused_pane_id: Some("w1:p1".into()),
    }
}

fn expect_call(next: Next) -> (Vec<String>, Stage) {
    match next {
        Next::Call { args, stage } => (args, stage),
        other => panic!("{other:?}"),
    }
}

#[test]
fn an_idle_pane_is_reused_and_its_tab_renamed() {
    let ctx = context();
    let (args, stage) = expect_call(hand_off(&ctx, "web"));
    assert_eq!(args, process_info_args("w1:p1"));
    assert_eq!(args, ["pane", "process-info", "--pane", "w1:p1"]);
    let idle = json("{\"process_info\": {\"foreground_process_group_id\": 7, \"shell_pid\": 7}}");
    let (args, stage) = expect_call(advance(&ctx, "web", "ssh h", stage, Ok(idle)));
    assert_eq!(args, ["pane", "run", "w1:p1", "ssh h"]);
    let (args, stage) = expect_call(advance(&ctx, "web", "ssh h", stage, Ok(Value::Null)));
    assert_eq!(args, ["tab", "rename", "w1:t1", "web"]);
    // A tab that cannot be renamed is no reason to give up the session.
    match advance(&ctx, "web", "ssh h", stage, Err(HerdrError::NoBinPath)) {
        Next::Done(Placement::ReusedPane) => {}
        other => panic!("{other:?}"),
    }
}

#[test]
fn a_busy_or_unreadable_pane_is_left_alone() {
    let ctx = context();
    let busy = json("{\"process_info\": {\"foreground_process_group_id\": 8, \"shell_pid\": 7}}");
    for reply in [Ok(busy), Ok(Value::Null), Err(HerdrError::NoBinPath)] {
        let (_, stage) = expect_call(hand_off(&ctx, "web"));
        let (args, stage) = expect_call(advance(&ctx, "web", "ssh h", stage, reply));
        assert_eq!(args, create_tab_args(&Some("w1".into()), "web"));
        let created = json("{\"root_pane\": {\"pane_id\": \"w1:p9\"}}");
        let (args, stage) = expect_call(advance(&ctx, "web", "ssh h", stage, Ok(created)));
        assert_eq!(args, ["pane", "run", "w1:p9", "ssh h"]);
        match advance(&ctx, "web", "ssh h", stage, Ok(Value::Null)) {
            Next::Done(Placement::NewTab) => {}
            other => panic!("{other:?}"),
        }
    }
}

#[test]
fn without_a_focused_pane_a_tab_is_made_at_once() {
    let mut ctx = context();
    ctx.focused_pane_id = None;
    let (args, stage) = expect_call(hand_off(&ctx, "web"));
    assert_eq!(args[0..2], ["tab".to_string(), "create".to_string()]);
    match advance(&ctx, "web", "ssh h", stage, Ok(json("{}"))) {
        Next::Failed(e) => assert_eq!(e, HerdrError::NoRootPane),
        other => panic!("{other:?}"),
    }
    assert_eq!(
        fallback_notice("busy"),
        "herdr-ssh-manager: could not open the session in a pane (busy).\n\
         herdr-ssh-manager: connecting here instead.\n"
    );
}
