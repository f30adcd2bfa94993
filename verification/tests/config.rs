use herdr_ssh_manager::config::{
    config_dir, default_ssh_config_path, expand_tilde, herdr_config_path, home_dir, non_empty_env,
    ConfigError, Environment, Platform,
};
use herdr_ssh_manager::store::StoreFile;

fn unix() -> Environment {
    Environment {
        platform: Platform::Unix,
        plugin_config_dir: None,
        appdata: Some("C:\\Data".into()),
        xdg_config_home: None,
        home: Some("/home/ada".into()),
        user_profile: None,
    }
}

fn windows() -> Environment {
    Environment {
        platform: Platform::Windows,
        plugin_config_dir: None,
        appdata: None,
        xdg_config_home: Some("/x".into()),
        home: Some("/home/ada".into()),
        user_profile: Some("C:\\Users\\ada".into()),
    }
}

fn parts(list: &[&str]) -> Vec<String> {
    list.iter().map(|s| s.to_string()).collect()
}

#[test]
fn expand_tilde_leaves_other_paths_alone() {
    let home = home_dir(&unix());
    assert_eq!(expand_tilde("/etc/ssh/key", &home), "/etc/ssh/key");
    assert_eq!(expand_tilde("relative/key", &home), "relative/key");
    // `~otheruser` is ssh's business, not ours.
    assert_eq!(expand_tilde("~root/.ssh/id", &home), "~root/.ssh/id");
}

#[test]
fn expand_tilde_uses_home_when_set() {
    if let Some(home) = home_dir(&unix()) {
        let expanded = expand_tilde("~/.ssh/id_ed25519", &Some(home.clone()));
        assert_eq!(expanded, format!("{}/.ssh/id_ed25519", home));
        assert!(!expanded.starts_with('~'));
    }
    assert_eq!(expand_tilde("~", &home_dir(&unix())), "/home/ada");
}

#[test]
fn blank_variables_count_as_unset() {
    assert_eq!(non_empty_env(&Some("  ".into())), None);
    assert_eq!(non_empty_env(&Some(" x".into())), Some(" x".to_string()));
    assert_eq!(non_empty_env(&None), None);
    let mut env = unix();
    env.home = Some(" ".into());
    assert_eq!(home_dir(&env), None);
}

#[test]
fn the_plugin_directory_wins_over_the_platforms() {
    let mut env = unix();
    env.plugin_config_dir = Some("/plugin".into());
    let dir = config_dir(&env).unwrap();
    assert_eq!((dir.base.as_str(), dir.parts.len()), ("/plugin", 0));
    let file = StoreFile::discover(&env).unwrap();
    assert_eq!(file.path().base, "/plugin");
    assert_eq!(file.path().parts, parts(&["connections.toml"]));
}

#[test]
fn each_platform_has_its_own_directories() {
    let dir = config_dir(&unix()).unwrap();
    assert_eq!(dir.base, "/home/ada");
    assert_eq!(dir.parts, parts(&[".config", "herdr-ssh-manager"]));

    let mut env = unix();
    env.xdg_config_home = Some("/xdg".into());
    let dir = config_dir(&env).unwrap();
    assert_eq!(dir.base, "/xdg");
    assert_eq!(dir.parts, parts(&["herdr-ssh-manager"]));

    let dir = config_dir(&windows()).unwrap();
    assert_eq!(dir.base, "C:\\Users\\ada");
    assert_eq!(
        dir.parts,
        parts(&["AppData", "Roaming", "herdr-ssh-manager"])
    );

    let herdr = herdr_config_path(&unix()).unwrap();
    assert_eq!(herdr.parts, parts(&[".config", "herdr", "config.toml"]));
    let ssh = default_ssh_config_path(&windows()).unwrap();
    assert_eq!(ssh.base, "C:\\Users\\ada");
    assert_eq!(ssh.parts, parts(&[".ssh", "config"]));
}

#[test]
fn without_a_home_there_is_no_directory() {
    let mut env = unix();
    env.home = None;
    assert_eq!(
        config_dir(&env),
        Err(ConfigError::NoConfigDir(Platform::Unix))
    );
    assert_eq!(
        StoreFile::discover(&env),
        Err(ConfigError::NoConfigDir(Platform::Unix))
    );
    assert_eq!(
        herdr_config_path(&env).unwrap_err().message(),
        "cannot locate Herdr's config directory: set HOME or XDG_CONFIG_HOME"
    );
    assert!(default_ssh_config_path(&env).is_none());
    let mut env = windows();
    env.user_profile = None;
    assert_eq!(
        config_dir(&env).unwrap_err().message(),
        "cannot locate a config directory: set APPDATA"
    );
}
