//! Where the plugin keeps its files.
//!
//! Under Herdr this is `$HERDR_PLUGIN_CONFIG_DIR`, which Herdr guarantees is outside the
//! managed plugin checkout. Run from a plain shell there is no such variable, so we fall
//! back to the platform's usual per-user config location. `$HERDR_PLUGIN_ROOT` is
//! deliberately never used: it is a managed checkout that `herdr plugin install`
//! overwrites on update.

use crate::text;
use vstd::prelude::*;

verus! {

broadcast use text::lemma_texts_push;

pub const CONNECTIONS_FILE: &'static str = "connections.toml";

/// The kinds of platform that differ in what this library does.
#[derive(Clone, Copy, Debug, PartialEq, Eq, Structural)]
pub enum Platform {
    Unix,
    Windows,
}

/// The platform and the environment variables that decide where files are kept, each as it
/// is set.
#[derive(Debug)]
pub struct Environment {
    pub platform: Platform,
    /// `HERDR_PLUGIN_CONFIG_DIR`.
    pub plugin_config_dir: Option<String>,
    /// `APPDATA`.
    pub appdata: Option<String>,
    /// `XDG_CONFIG_HOME`.
    pub xdg_config_home: Option<String>,
    /// `HOME`.
    pub home: Option<String>,
    /// `USERPROFILE`.
    pub user_profile: Option<String>,
}

/// A file or directory: where to start, and the components to go down from there.
#[derive(Debug, PartialEq, Eq)]
pub struct Location {
    pub base: String,
    pub parts: Vec<String>,
}

/// The mathematical form of a [`Location`].
pub struct LocationView {
    pub base: Seq<char>,
    pub parts: Seq<Seq<char>>,
}

impl View for Location {
    type V = LocationView;

    open spec fn view(&self) -> LocationView {
        LocationView { base: self.base@, parts: text::texts(self.parts@) }
    }
}

impl LocationView {
    /// What lies one component further down.
    pub open spec fn down(self, part: Seq<char>) -> LocationView {
        LocationView { base: self.base, parts: self.parts.push(part) }
    }
}

impl Location {
    /// The directory `base` itself.
    pub fn at(base: String) -> (r: Location)
        ensures
            r@ == (LocationView { base: base@, parts: seq![] }),
    {
        let r = Location { base, parts: Vec::new() };
        assert(r@.parts =~= seq![]);
        r
    }

    /// What lies one component further down.
    pub fn join(self, part: &str) -> (r: Location)
        ensures
            r@ == self@.down(part@),
    {
        let mut parts = self.parts;
        parts.push(part.to_string());
        Location { base: self.base, parts }
    }
}

impl Clone for Location {
    fn clone(&self) -> (r: Self)
        ensures
            r@ == self@,
    {
        Location { base: self.base.clone(), parts: text::copy_list(&self.parts) }
    }
}

/// No place for a directory could be found.
#[derive(Clone, Copy, Debug, PartialEq, Eq, Structural)]
pub enum ConfigError {
    /// None for the plugin's own files.
    NoConfigDir(Platform),
    /// None for Herdr's.
    NoHerdrConfigDir(Platform),
}

impl ConfigError {
    pub open spec fn text(self) -> Seq<char> {
        match self {
            ConfigError::NoConfigDir(
                Platform::Windows,
            ) => "cannot locate a config directory: set APPDATA"@,
            ConfigError::NoConfigDir(
                Platform::Unix,
            ) => "cannot locate a config directory: set HOME or XDG_CONFIG_HOME"@,
            ConfigError::NoHerdrConfigDir(
                Platform::Windows,
            ) => "cannot locate Herdr's config directory: set APPDATA"@,
            ConfigError::NoHerdrConfigDir(
                Platform::Unix,
            ) => "cannot locate Herdr's config directory: set HOME or XDG_CONFIG_HOME"@,
        }
    }

    /// What to tell the user.
    pub fn message(&self) -> (r: String)
        ensures
            r@ == self.text(),
    {
        match self {
            ConfigError::NoConfigDir(
                Platform::Windows,
            ) => "cannot locate a config directory: set APPDATA".to_string(),
            ConfigError::NoConfigDir(
                Platform::Unix,
            ) => "cannot locate a config directory: set HOME or XDG_CONFIG_HOME".to_string(),
            ConfigError::NoHerdrConfigDir(
                Platform::Windows,
            ) => "cannot locate Herdr's config directory: set APPDATA".to_string(),
            ConfigError::NoHerdrConfigDir(
                Platform::Unix,
            ) => "cannot locate Herdr's config directory: set HOME or XDG_CONFIG_HOME".to_string(),
        }
    }
}

/// The value of a variable that is set to something other than white space.
pub open spec fn non_empty(value: Option<Seq<char>>) -> Option<Seq<char>> {
    match value {
        Some(v) => if text::is_blank(v) {
            None
        } else {
            Some(v)
        },
        None => None,
    }
}

impl Environment {
    /// The user's home directory.
    pub open spec fn home_text(self) -> Option<Seq<char>> {
        match self.platform {
            Platform::Windows => non_empty(text::opt_text(self.user_profile)),
            Platform::Unix => non_empty(text::opt_text(self.home)),
        }
    }

    /// The directory under which programs keep their per-user configuration.
    pub open spec fn config_base(self) -> Option<LocationView> {
        match self.platform {
            Platform::Windows => match (
                non_empty(text::opt_text(self.appdata)),
                self.home_text(),
            ) {
                (Some(dir), _) => Some(LocationView { base: dir, parts: seq![] }),
                (None, Some(home)) => Some(
                    LocationView { base: home, parts: seq!["AppData"@, "Roaming"@] },
                ),
                (None, None) => None,
            },
            Platform::Unix => match (
                non_empty(text::opt_text(self.xdg_config_home)),
                self.home_text(),
            ) {
                (Some(dir), _) => Some(LocationView { base: dir, parts: seq![] }),
                (None, Some(home)) => Some(LocationView { base: home, parts: seq![".config"@] }),
                (None, None) => None,
            },
        }
    }

    /// Herdr's own config file.
    pub open spec fn herdr_config(self) -> Option<LocationView> {
        match self.config_base() {
            Some(base) => Some(base.down("herdr"@).down("config.toml"@)),
            None => None,
        }
    }

    /// The user's ssh config.
    pub open spec fn ssh_config(self) -> Option<LocationView> {
        match self.home_text() {
            Some(home) => Some(LocationView { base: home, parts: seq![".ssh"@, "config"@] }),
            None => None,
        }
    }

    /// The directory that holds `connections.toml`.
    pub open spec fn plugin_dir(self) -> Option<LocationView> {
        match (non_empty(text::opt_text(self.plugin_config_dir)), self.config_base()) {
            (Some(dir), _) => Some(LocationView { base: dir, parts: seq![] }),
            (None, Some(base)) => Some(base.down("herdr-ssh-manager"@)),
            (None, None) => None,
        }
    }
}

/// The value of a variable that is set to something other than white space.
pub fn non_empty_env(value: &Option<String>) -> (r: Option<String>)
    ensures
        text::opt_text(r) == non_empty(text::opt_text(*value)),
{
    match value {
        Some(v) => if text::blank(v.as_str()) {
            None
        } else {
            Some(v.clone())
        },
        None => None,
    }
}

/// The user's home directory.
pub fn home_dir(env: &Environment) -> (r: Option<String>)
    ensures
        text::opt_text(r) == env.home_text(),
{
    match env.platform {
        Platform::Windows => non_empty_env(&env.user_profile),
        Platform::Unix => non_empty_env(&env.home),
    }
}

/// The directory under which programs keep their per-user configuration.
fn config_base_dir(env: &Environment) -> (r: Option<Location>)
    ensures
        match (r, env.config_base()) {
            (Some(l), Some(expected)) => l@ == expected,
            (None, None) => true,
            _ => false,
        },
{
    let own = match env.platform {
        Platform::Windows => non_empty_env(&env.appdata),
        Platform::Unix => non_empty_env(&env.xdg_config_home),
    };
    if let Some(dir) = own {
        return Some(Location::at(dir));
    }
    match home_dir(env) {
        Some(home) => {
            let start = Location::at(home);
            let r = match env.platform {
                Platform::Windows => start.join("AppData").join("Roaming"),
                Platform::Unix => start.join(".config"),
            };
            assert(env.config_base() is Some);
            assert(r@.parts =~= env.config_base()->0.parts);
            Some(r)
        },
        None => None,
    }
}

/// The directory that holds the plugin's files when Herdr names none.
fn fallback_config_dir(env: &Environment) -> (r: Result<Location, ConfigError>)
    ensures
        match (r, env.config_base()) {
            (Ok(l), Some(base)) => l@ == base.down("herdr-ssh-manager"@),
            (Err(e), None) => e == ConfigError::NoConfigDir(env.platform),
            _ => false,
        },
{
    match config_base_dir(env) {
        Some(base) => Ok(base.join("herdr-ssh-manager")),
        None => Err(ConfigError::NoConfigDir(env.platform)),
    }
}

/// Resolve the directory holding `connections.toml`.
pub fn config_dir(env: &Environment) -> (r: Result<Location, ConfigError>)
    ensures
        match (r, env.plugin_dir()) {
            (Ok(l), Some(expected)) => l@ == expected,
            (Err(e), None) => e == ConfigError::NoConfigDir(env.platform),
            _ => false,
        },
{
    match non_empty_env(&env.plugin_config_dir) {
        Some(dir) => Ok(Location::at(dir)),
        None => fallback_config_dir(env),
    }
}

/// Herdr's own config file — not this plugin's.
pub fn herdr_config_path(env: &Environment) -> (r: Result<Location, ConfigError>)
    ensures
        match (r, env.herdr_config()) {
            (Ok(l), Some(expected)) => l@ == expected,
            (Err(e), None) => e == ConfigError::NoHerdrConfigDir(env.platform),
            _ => false,
        },
        match (r, env.config_base()) {
            (Ok(l), Some(base)) => l@ == base.down("herdr"@).down("config.toml"@),
            (Err(e), None) => e == ConfigError::NoHerdrConfigDir(env.platform),
            _ => false,
        },
{
    match config_base_dir(env) {
        Some(base) => Ok(base.join("herdr").join("config.toml")),
        None => Err(ConfigError::NoHerdrConfigDir(env.platform)),
    }
}

/// Default path of the user's ssh config.
pub fn default_ssh_config_path(env: &Environment) -> (r: Option<Location>)
    ensures
        match (r, env.ssh_config()) {
            (Some(l), Some(expected)) => l@ == expected,
            (None, None) => true,
            _ => false,
        },
        match (r, env.home_text()) {
            (Some(l), Some(home)) => l@ == (LocationView {
                base: home,
                parts: seq![".ssh"@, "config"@],
            }),
            (None, None) => true,
            _ => false,
        },
{
    match home_dir(env) {
        Some(home) => {
            let r = Location::at(home).join(".ssh").join("config");
            assert(r@.parts =~= seq![".ssh"@, "config"@]);
            Some(r)
        },
        None => None,
    }
}

/// `path` with a `~` in front of a separator, or alone, replaced by the home directory.
/// `~user/...` stays as it is, and so does everything when there is no home directory.
pub open spec fn expanded(path: Seq<char>, home: Option<Seq<char>>) -> Seq<char> {
    let rest = path.drop_first();
    match home {
        Some(home) if text::starts_with_char(path, '~') && (rest.len() == 0 || rest[0] == '/'
            || rest[0] == '\\') => home + rest,
        _ => path,
    }
}

/// Expand a leading `~` against the user's home directory.
pub fn expand_tilde(path: &str, home: &Option<String>) -> (r: String)
    ensures
        r@ == expanded(path@, text::opt_text(*home)),
{
    let v = text::to_chars(path);
    let n: usize = v.len();
    if n == 0 || v[0] != '~' {
        return path.to_string();
    }
    if n > 1 && v[1] != '/' && v[1] != '\\' {
        // `~user/...` — not ours to expand; leave it for ssh.
        assert(path@.drop_first()[0] == v@[1]);
        return path.to_string();
    }
    match home {
        Some(home) => {
            proof {
                assert(v@.subrange(1, n as int) =~= path@.drop_first());
            }
            let rest = text::from_range(&v, 1, n);
            text::concat2(home.as_str(), rest.as_str())
        },
        None => path.to_string(),
    }
}

/// A path that does not start with `~` is left alone, whatever the home directory.
pub proof fn law_other_paths_left_alone(path: Seq<char>, home: Option<Seq<char>>)
    requires
        !text::starts_with_char(path, '~'),
    ensures
        expanded(path, home) == path,
{
}

/// The home directory of another user is left for ssh to find.
pub proof fn law_other_users_left_alone(path: Seq<char>, home: Option<Seq<char>>)
    requires
        path.len() >= 2,
        path[1] != '/',
        path[1] != '\\',
    ensures
        expanded(path, home) == path,
{
    assert(path.drop_first()[0] == path[1]);
}

/// A leading `~` that stands alone or in front of a separator is the home directory, with
/// what follows it behind it; without a home directory it stays.
pub proof fn law_home_is_expanded(rest: Seq<char>, home: Seq<char>)
    requires
        rest.len() == 0 || rest[0] == '/' || rest[0] == '\\',
    ensures
        expanded(seq!['~'] + rest, Some(home)) == home + rest,
        expanded(seq!['~'] + rest, None) == seq!['~'] + rest,
{
    let path = seq!['~'] + rest;
    assert(path.drop_first() =~= rest);
}

/// A variable is set, and not to nothing but white space.
pub open spec fn is_given(value: Option<String>) -> bool {
    value is Some && !text::all_white(value->0@)
}

proof fn lemma_given(value: Option<String>)
    ensures
        is_given(value) ==> non_empty(text::opt_text(value)) == Some(value->0@),
        !is_given(value) ==> non_empty(text::opt_text(value)) is None,
{
    if let Some(v) = value {
        text::law_blank(v@);
    }
}

/// The home directory is that of the platform, whatever the other variables are, and a
/// blank one counts as none.
pub proof fn law_home(env: Environment)
    ensures
        env.platform is Unix && is_given(env.home) ==> env.home_text() == Some(env.home->0@),
        env.platform is Unix && !is_given(env.home) ==> env.home_text() is None,
        env.platform is Windows && is_given(env.user_profile) ==> env.home_text() == Some(
            env.user_profile->0@,
        ),
        env.platform is Windows && !is_given(env.user_profile) ==> env.home_text() is None,
{
    lemma_given(env.home);
    lemma_given(env.user_profile);
}

/// The platform's own variable says where configuration is kept. Without it a directory
/// below the home directory is taken, and without a home directory there is none.
pub proof fn law_config_base(env: Environment)
    ensures
        env.platform is Unix && is_given(env.xdg_config_home) ==> env.config_base() == Some(
            LocationView { base: env.xdg_config_home->0@, parts: seq![] },
        ),
        env.platform is Unix && !is_given(env.xdg_config_home) && is_given(env.home)
            ==> env.config_base() == Some(
            LocationView { base: env.home->0@, parts: seq![".config"@] },
        ),
        env.platform is Unix ==> (env.config_base() is None <==> !is_given(env.xdg_config_home)
            && !is_given(env.home)),
        env.platform is Windows && is_given(env.appdata) ==> env.config_base() == Some(
            LocationView { base: env.appdata->0@, parts: seq![] },
        ),
        env.platform is Windows && !is_given(env.appdata) && is_given(env.user_profile)
            ==> env.config_base() == Some(
            LocationView { base: env.user_profile->0@, parts: seq!["AppData"@, "Roaming"@] },
        ),
        env.platform is Windows ==> (env.config_base() is None <==> !is_given(env.appdata)
            && !is_given(env.user_profile)),
{
    lemma_given(env.home);
    lemma_given(env.user_profile);
    lemma_given(env.xdg_config_home);
    lemma_given(env.appdata);
}

/// The directory that Herdr hands over wins over all others; without one the plugin keeps
/// its files in a directory of its own below that for configuration.
pub proof fn law_plugin_dir(env: Environment)
    ensures
        is_given(env.plugin_config_dir) ==> env.plugin_dir() == Some(
            LocationView { base: env.plugin_config_dir->0@, parts: seq![] },
        ),
        !is_given(env.plugin_config_dir) ==> (env.plugin_dir() is None <==> env.config_base()
            is None),
        !is_given(env.plugin_config_dir) && env.config_base() is Some ==> {
            let base = env.config_base()->0;
            env.plugin_dir() == Some(
                LocationView { base: base.base, parts: base.parts.push("herdr-ssh-manager"@) },
            )
        },
{
    lemma_given(env.plugin_config_dir);
}

/// Herdr's config is `herdr/config.toml` below the directory for configuration, and the
/// user's ssh config is `.ssh/config` below the home directory; without those directories
/// there is none.
pub proof fn law_other_files(env: Environment)
    ensures
        env.herdr_config() is None <==> env.config_base() is None,
        env.config_base() matches Some(base) ==> env.herdr_config() == Some(
            LocationView {
                base: base.base,
                parts: base.parts + seq!["herdr"@, "config.toml"@],
            },
        ),
        env.ssh_config() is None <==> env.home_text() is None,
        env.home_text() matches Some(home) ==> env.ssh_config() == Some(
            LocationView { base: home, parts: seq![".ssh"@, "config"@] },
        ),
{
    if let Some(base) = env.config_base() {
        assert(base.parts.push("herdr"@).push("config.toml"@) =~= base.parts + seq![
            "herdr"@,
            "config.toml"@,
        ]);
    }
}

} // verus!
