//! Where the settings live, and the defaults of the settings that may be
//! missing from a stored file.
use vstd::prelude::*;
use crate::text::ends_with;

verus! {

/// The volume (percent) of settings that do not record one.
pub fn default_volume() -> (res: u32)
    ensures
        res == 100,
{
    100
}

/// Whether settings that do not record it advance through the queue on
/// their own.
pub fn default_autoplay() -> (res: bool)
    ensures
        res == false,
{
    false
}

/// Failures to locate the settings.
#[derive(Debug, Clone, Copy, PartialEq, Eq)]
pub enum ConfigError {
    /// The operating system gives no home directory to place the project's
    /// directories in.
    NoProjectDirs,
}

/// What `Path::join` gives for `base` and `name`.
pub uninterp spec fn joined_path(base: Seq<char>, name: Seq<char>) -> Seq<char>;

/// A plain relative file name of one component: an ASCII letter, then ASCII
/// letters, digits, `.`, `_` or `-` (no separator, drive or root).
pub open spec fn plain_file_name(name: Seq<char>) -> bool {
    &&& name.len() > 0
    &&& ('a' <= name[0] && name[0] <= 'z') || ('A' <= name[0] && name[0] <= 'Z')
    &&& forall|k: int|
        0 <= k < name.len() ==> ('a' <= #[trigger] name[k] && name[k] <= 'z') || ('A' <= name[k]
            && name[k] <= 'Z') || ('0' <= name[k] && name[k] <= '9') || name[k] == '.' || name[k]
            == '_' || name[k] == '-'
}

/// A directory written from the root with `/` (as on Unix) and not ending
/// in `\`.
pub open spec fn rooted_dir(dir: Seq<char>) -> bool {
    dir.len() > 0 && dir[0] == '/' && dir.last() != '\\'
}

/// `p` is `dir` followed by `name`, with a path separator between them
/// (`/`, or `\` on platforms that write it) unless `dir` ends with `/`.
pub open spec fn adjoined(dir: Seq<char>, name: Seq<char>, p: Seq<char>) -> bool {
    if dir.len() > 0 && dir.last() == '/' {
        p == dir + name
    } else {
        p == dir + seq!['/'] + name || p == dir + seq!['\\'] + name
    }
}

/// Calls `std::path::Path::join` (read back as text; both inputs are valid
/// UTF-8 and the separator is ASCII, so nothing is lost). The result is
/// named: it depends only on the two paths. The documentation of `join`
/// and `PathBuf::push` says that a relative path is adjoined to `base`,
/// extending it with a separator where `base` does not end with one; so a
/// plain file name ends the result, and after a rooted directory it follows
/// one separator. For other directories (drive prefixes, verbatim paths)
/// only the suffix is stated.
#[verifier::external_body]
fn path_join(base: &str, name: &str) -> (res: String)
    ensures
        res@ == joined_path(base@, name@),
        plain_file_name(name@) ==> ends_with(res@, name@),
        plain_file_name(name@) && base@.len() > 0 ==> res@.len() > name@.len(),
        plain_file_name(name@) && rooted_dir(base@) ==> adjoined(base@, name@, res@),
{
    std::path::Path::new(base).join(name).to_string_lossy().into_owned()
}

/// Declares `directories::ProjectDirs`, the operating system's directories
/// for a project; its contents are read only through the wrappers below.
#[verifier::external_type_specification]
#[verifier::external_body]
pub struct ExProjectDirs(directories::ProjectDirs);

/// Calls `directories::ProjectDirs::from(qualifier, organization,
/// application)`. It gives `None` when the system has no home directory,
/// which depends on the environment, so nothing is stated of the result.
#[verifier::external_body]
fn project_dirs_from(qualifier: &str, organization: &str, application: &str) -> Option<
    directories::ProjectDirs,
> {
    directories::ProjectDirs::from(qualifier, organization, application)
}

/// Calls `directories::ProjectDirs::config_dir` (read back as text). The
/// directory comes from the environment (`XDG_CONFIG_HOME`, the home
/// directory), so nothing is stated of it.
#[verifier::external_body]
fn config_dir_of(dirs: &directories::ProjectDirs) -> String {
    dirs.config_dir().to_string_lossy().into_owned()
}

/// Calls `directories::ProjectDirs::data_local_dir` (read back as text).
/// The directory comes from the environment, so nothing is stated of it.
#[verifier::external_body]
fn data_local_dir_of(dirs: &directories::ProjectDirs) -> String {
    dirs.data_local_dir().to_string_lossy().into_owned()
}

/// The names under which the operating system keeps the project's
/// directories: no qualifier, organization and application `LetrasSync`.
pub fn project_names() -> (res: (&'static str, &'static str, &'static str))
    ensures
        res.0@ == ""@,
        res.1@ == "LetrasSync"@,
        res.2@ == "LetrasSync"@,
{
    ("", "LetrasSync", "LetrasSync")
}

/// The settings file inside a configuration directory: `config.toml`.
pub fn config_file_in(config_dir: &str) -> (res: String)
    ensures
        res@ == joined_path(config_dir@, "config.toml"@),
        ends_with(res@, "config.toml"@),
        config_dir@.len() > 0 ==> res@.len() > "config.toml"@.len(),
        rooted_dir(config_dir@) ==> adjoined(config_dir@, "config.toml"@, res@),
{
    proof {
        reveal_strlit("config.toml");
    }
    path_join(config_dir, "config.toml")
}

/// The audio cache inside a local data directory: `cache`.
pub fn cache_dir_in(data_local_dir: &str) -> (res: String)
    ensures
        res@ == joined_path(data_local_dir@, "cache"@),
        ends_with(res@, "cache"@),
        data_local_dir@.len() > 0 ==> res@.len() > "cache"@.len(),
        rooted_dir(data_local_dir@) ==> adjoined(data_local_dir@, "cache"@, res@),
{
    proof {
        reveal_strlit("cache");
    }
    path_join(data_local_dir, "cache")
}

/// The settings file `config.toml` in the configuration directory that the
/// operating system gives for the project's names (`project_names`); an
/// error when the system gives no home directory.
pub fn config_file_path() -> (res: Result<String, ConfigError>)
    ensures
        res matches Ok(p) ==> ends_with(p@, "config.toml"@) && exists|d: Seq<char>|
            p@ == joined_path(d, "config.toml"@) && (rooted_dir(d) ==> adjoined(
                d,
                "config.toml"@,
                p@,
            )),
{
    let (qualifier, organization, application) = project_names();
    match project_dirs_from(qualifier, organization, application) {
        Some(dirs) => {
            let dir = config_dir_of(&dirs);
            let p = config_file_in(dir.as_str());
            Ok(p)
        },
        None => Err(ConfigError::NoProjectDirs),
    }
}

/// The default audio cache: `cache` in the local data directory that the
/// operating system gives for the project's names (`project_names`); an
/// error when the system gives no home directory.
pub fn default_cache_path() -> (res: Result<String, ConfigError>)
    ensures
        res matches Ok(p) ==> ends_with(p@, "cache"@) && exists|d: Seq<char>|
            p@ == joined_path(d, "cache"@) && (rooted_dir(d) ==> adjoined(d, "cache"@, p@)),
{
    let (qualifier, organization, application) = project_names();
    match project_dirs_from(qualifier, organization, application) {
        Some(dirs) => {
            let dir = data_local_dir_of(&dirs);
            let p = cache_dir_in(dir.as_str());
            Ok(p)
        },
        None => Err(ConfigError::NoProjectDirs),
    }
}

/// What reading the settings file gave.
#[derive(Debug, Clone, Copy, PartialEq, Eq, Structural)]
pub enum SettingsRead {
    /// The file was read and parsed.
    Parsed,
    /// The file was read but is not valid settings.
    Invalid,
    /// There is no file.
    Missing,
    /// The file could not be read for another reason.
    Unreadable,
}

/// What loading the settings does next.
#[derive(Debug, Clone, Copy, PartialEq, Eq, Structural)]
pub enum SettingsAction {
    /// Use the settings read.
    UseStored,
    /// Make the default settings, write them to the file and use them.
    WriteDefaults,
    /// Fail with the read error.
    Fail,
}

/// Loading the settings: a missing or invalid file is replaced by the
/// defaults; an unreadable one is an error.
pub fn settings_action(read: SettingsRead) -> (res: SettingsAction)
    ensures
        res == match read {
            SettingsRead::Parsed => SettingsAction::UseStored,
            SettingsRead::Invalid | SettingsRead::Missing => SettingsAction::WriteDefaults,
            SettingsRead::Unreadable => SettingsAction::Fail,
        },
{
    match read {
        SettingsRead::Parsed => SettingsAction::UseStored,
        SettingsRead::Invalid | SettingsRead::Missing => SettingsAction::WriteDefaults,
        SettingsRead::Unreadable => SettingsAction::Fail,
    }
}

} // verus!
