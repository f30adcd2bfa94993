use herdr_ssh_manager::config::Platform;
use herdr_ssh_manager::handoff::session_command;
use herdr_ssh_manager::model::Connection;
use herdr_ssh_manager::ssh::{
    build_args, command_line, find_ssh, is_executable, non_blank, ssh_exe, FindSshError, SshError,
};

fn conn() -> Connection {
    Connection::new("web", "example.com")
}

fn home() -> Option<String> {
    Some("/home/ada".to_string())
}

#[test]
fn plain_host_needs_no_flags() {
    assert_eq!(build_args(&conn(), &home()).unwrap(), vec!["example.com"]);
}

#[test]
fn user_is_folded_into_the_destination() {
    let mut c = conn();
    c.user = Some("deploy".into());
    assert_eq!(build_args(&c, &home()).unwrap(), vec!["deploy@example.com"]);
}

#[test]
fn default_port_is_omitted_but_others_are_passed() {
    let mut c = conn();
    c.port = 22;
    assert_eq!(build_args(&c, &home()).unwrap(), vec!["example.com"]);
    c.port = 2222;
    assert_eq!(
        build_args(&c, &home()).unwrap(),
        vec!["-p", "2222", "example.com"]
    );
}

#[test]
fn identity_jump_and_extras_appear_in_order_before_the_destination() {
    let mut c = conn();
    c.user = Some("deploy".into());
    c.port = 2222;
    c.identity_file = Some("/keys/id_ed25519".into());
    c.jump_host = Some("bastion.example.com".into());
    c.extra_ssh_args = vec!["-o".into(), "ServerAliveInterval=30".into()];
    assert_eq!(
        build_args(&c, &home()).unwrap(),
        vec![
            "-p",
            "2222",
            "-i",
            "/keys/id_ed25519",
            "-J",
            "bastion.example.com",
            "-o",
            "ServerAliveInterval=30",
            "deploy@example.com",
        ]
    );
}

#[test]
fn identity_file_tilde_is_expanded() {
    let mut c = conn();
    c.identity_file = Some("~/.ssh/id_ed25519".into());
    let args = build_args(&c, &home()).unwrap();
    let identity = &args[args.iter().position(|a| a == "-i").unwrap() + 1];
    assert!(!identity.starts_with('~'), "tilde survived in {identity}");
    assert!(identity.ends_with("/.ssh/id_ed25519"));
    assert_eq!(identity, "/home/ada/.ssh/id_ed25519");
}

#[test]
fn blank_optional_fields_are_treated_as_absent() {
    let mut c = conn();
    c.user = Some("  ".into());
    c.identity_file = Some(String::new());
    c.jump_host = Some("   ".into());
    c.extra_ssh_args = vec![String::new(), "  ".into()];
    assert_eq!(build_args(&c, &home()).unwrap(), vec!["example.com"]);
}

#[test]
fn a_host_that_looks_like_a_flag_is_rejected() {
    let mut c = conn();
    c.host = "-oProxyCommand=touch /tmp/pwned".into();
    let err = build_args(&c, &home()).unwrap_err().message();
    assert!(err.contains("must not start with `-`"), "got: {err}");
}

#[test]
fn empty_or_whitespace_hosts_are_rejected() {
    let mut c = conn();
    c.host = "   ".into();
    assert!(build_args(&c, &home())
        .unwrap_err()
        .message()
        .contains("no host"));

    c.host = "a b".into();
    assert!(build_args(&c, &home())
        .unwrap_err()
        .message()
        .contains("must not contain whitespace"));
}

#[test]
fn a_user_containing_an_at_sign_is_rejected() {
    let mut c = conn();
    c.user = Some("deploy@evil".into());
    assert!(build_args(&c, &home())
        .unwrap_err()
        .message()
        .contains("invalid user"));
}

#[test]
fn a_user_that_looks_like_a_flag_is_rejected() {
    let mut c = conn();
    c.user = Some(" -oProxyCommand=x".into());
    assert!(build_args(&c, &home())
        .unwrap_err()
        .message()
        .contains("invalid user"));
    c.user = Some("de-ploy".into());
    assert_eq!(
        build_args(&c, &home()).unwrap(),
        vec!["de-ploy@example.com"]
    );
}

#[test]
fn command_line_is_readable() {
    let mut c = conn();
    c.port = 2222;
    c.user = Some("deploy".into());
    assert_eq!(
        command_line(&c, &home()).unwrap(),
        "ssh -p 2222 deploy@example.com"
    );
}

#[test]
fn arguments_with_spaces_are_shown_quoted() {
    let mut c = conn();
    c.identity_file = Some("/keys/my \"key\".pem".into());
    assert_eq!(
        command_line(&c, &home()).unwrap(),
        "ssh -i \"/keys/my \\\"key\\\".pem\" example.com"
    );
}

#[test]
fn every_fault_has_its_message() {
    let mut c = conn();
    c.host = " ".into();
    assert_eq!(
        build_args(&c, &home()).unwrap_err().message(),
        "connection `web` has no host; fix it with `herdr-ssh-manager edit web`"
    );
    c.host = " -x ".into();
    assert_eq!(
        build_args(&c, &home()).unwrap_err(),
        SshError::HostIsFlag {
            name: "web".into(),
            host: "-x".into()
        }
    );
    assert_eq!(
        build_args(&c, &home()).unwrap_err().message(),
        "connection `web` has an invalid host \"-x\": it must not start with `-`"
    );
    c.host = "a\tb".into();
    assert_eq!(
        command_line(&c, &home()).unwrap_err().message(),
        "connection `web` has an invalid host \"a\\tb\": it must not contain whitespace"
    );
    c.host = "h".into();
    c.user = Some("a b".into());
    assert_eq!(
        build_args(&c, &home()).unwrap_err().message(),
        "connection `web` has an invalid user \"a b\""
    );
}

#[test]
fn without_a_home_the_tilde_stays() {
    let mut c = conn();
    c.identity_file = Some("~/.ssh/id".into());
    assert_eq!(
        build_args(&c, &None).unwrap(),
        vec!["-i", "~/.ssh/id", "example.com"]
    );
}

#[test]
fn non_blank_trims_and_drops() {
    assert_eq!(
        non_blank(&Some("  x ".to_string())),
        Some("x".to_string())
    );
    assert_eq!(non_blank(&Some("  ".to_string())), None);
    assert_eq!(non_blank(&None), None);
}

#[test]
fn the_first_executable_on_path_is_taken() {
    assert_eq!(
        find_ssh(Platform::Unix, &Some(vec![false, true, true])),
        Ok(1)
    );
    assert_eq!(
        find_ssh(Platform::Unix, &Some(vec![false])),
        Err(FindSshError::NotFound(Platform::Unix))
    );
    assert_eq!(
        find_ssh(Platform::Windows, &None),
        Err(FindSshError::PathNotSet)
    );
    assert!(FindSshError::NotFound(Platform::Windows)
        .message()
        .starts_with("`ssh.exe` was not found on PATH. Install an OpenSSH client (Debian/Ubuntu:"));
    assert_eq!(
        FindSshError::PathNotSet.message(),
        "PATH is not set, so `ssh` cannot be located"
    );
    assert_eq!(ssh_exe(Platform::Unix), "ssh");
    assert_eq!(ssh_exe(Platform::Windows), "ssh.exe");
}

#[test]
fn executables_are_files_that_somebody_may_run() {
    assert!(is_executable(true, 0o755));
    assert!(is_executable(true, 0o001));
    assert!(!is_executable(true, 0o644));
    assert!(!is_executable(false, 0o755));
}

#[test]
fn the_session_command_is_safe_to_type() {
    let mut c = conn();
    c.identity_file = Some("/keys/it's mine".into());
    assert_eq!(
        session_command("/usr/bin/ssh", &c, &home()).unwrap(),
        r"/usr/bin/ssh -i '/keys/it'\''s mine' example.com"
    );
    c.host = String::new();
    assert!(session_command("ssh", &c, &home()).is_err());
}
