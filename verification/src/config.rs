//! Settings, the config folder that holds them, and the startup command.
//!
//! Paths are Windows paths, held as text.
use vstd::prelude::*;
use vstd::string::*;
use crate::identity::{is_separator, opt_string, ManagedApplication};
use crate::language::Language;
use crate::text::chars_of;

verus! {

/// The file that holds the settings, in the config folder.
pub const SETTINGS_FILE_NAME: &'static str = "settings.json";

/// The file, in the default config folder, that records a custom config folder.
pub const LOCATION_FILE_NAME: &'static str = "location.json";

/// The file that records the programs whose mutes are outstanding.
pub const MUTED_FILE_NAME: &'static str = "muted.json";

/// Everything the user configures.
#[derive(Debug)]
pub struct Settings {
    pub apps: Vec<ManagedApplication>,
    pub start_with_windows: bool,
    pub language: Language,
}

impl Default for Settings {
    fn default() -> (r: Self)
        ensures
            r.apps@.len() == 0,
            !r.start_with_windows,
            r.language == Language::System,
    {
        Settings { apps: Vec::new(), start_with_windows: false, language: Language::System }
    }
}

/// Where the settings live: a custom folder, or the default folder when none.
#[derive(Debug)]
pub struct ConfigLocation {
    pub directory: Option<String>,
}

impl Default for ConfigLocation {
    fn default() -> (r: Self)
        ensures
            r.directory is None,
    {
        ConfigLocation { directory: None }
    }
}

/// Whether `d` is a bare drive such as `C:`, to which Windows joins a relative
/// name without a separator.
pub open spec fn is_bare_drive(d: Seq<char>) -> bool {
    &&& d.len() == 2
    &&& (('a' <= d[0] <= 'z') || ('A' <= d[0] <= 'Z'))
    &&& d[1] == ':'
}

/// Whether `d` is a verbatim path (`\\?\...`), in which only `\` separates
/// components.
pub open spec fn is_verbatim(d: Seq<char>) -> bool {
    d.len() >= 4 && d[0] == '\\' && d[1] == '\\' && d[2] == '?' && d[3] == '\\'
}

/// Whether `d` ends with a separator: `\`, or in a path that is not verbatim
/// also `/`.
pub open spec fn ends_with_separator(d: Seq<char>) -> bool {
    d.len() > 0 && (d.last() == '\\' || (d.last() == '/' && !is_verbatim(d)))
}

/// A relative file name joined to a directory the way Windows joins paths: a
/// `\` goes between them unless the directory is empty, already ends with a
/// separator, or is a bare drive.
pub open spec fn joined_path(dir: Seq<char>, name: Seq<char>) -> Seq<char> {
    if dir.len() > 0 && !ends_with_separator(dir) && !is_bare_drive(dir) {
        dir + seq!['\\'] + name
    } else {
        dir + name
    }
}

/// The folder that holds the settings.
pub open spec fn config_folder(directory: Option<Seq<char>>, default_dir: Seq<char>) -> Seq<char> {
    match directory {
        Some(d) => d,
        None => default_dir,
    }
}

/// `"<executable>" --minimized`.
pub open spec fn startup_text(executable: Seq<char>) -> Seq<char> {
    seq!['"'] + executable + seq!['"', ' ', '-', '-', 'm', 'i', 'n', 'i', 'm', 'i', 'z', 'e', 'd']
}

/// `name` joined to the directory `dir`.
pub fn join_path(dir: &str, name: &str) -> (r: String)
    ensures
        r@ == joined_path(dir@, name@),
{
    let d = chars_of(dir);
    let n = d.len();
    let bare_drive = n == 2 && (('a' <= d[0] && d[0] <= 'z') || ('A' <= d[0] && d[0] <= 'Z'))
        && d[1] == ':';
    let verbatim = n >= 4 && d[0] == '\\' && d[1] == '\\' && d[2] == '?' && d[3] == '\\';
    let mut r = String::from_str(dir);
    if n > 0 && !(d[n - 1] == '\\' || (d[n - 1] == '/' && !verbatim)) && !bare_drive {
        r.append("\\");
        proof {
            reveal_strlit("\\");
            assert("\\"@ =~= seq!['\\']);
        }
    }
    r.append(name);
    r
}

/// What `==` on `std::path::Path` says of two path texts: whether their
/// components are the same under the path rules of the target the program is
/// built for (on Windows `/` and `\` both separate components, and repeated or
/// trailing separators do not count). It depends on the two texts alone.
pub uninterp spec fn same_path_result(a: Seq<char>, b: Seq<char>) -> bool;

/// Calls `==` on `std::path::Path`: the result is the named `same_path_result`
/// of the two texts, and equal texts are the same path.
#[verifier::external_body]
pub(crate) fn same_path(a: &str, b: &str) -> (r: bool)
    ensures
        r == same_path_result(a@, b@),
        a@ == b@ ==> r,
{
    std::path::Path::new(a) == std::path::Path::new(b)
}

impl ConfigLocation {
    /// The folder that holds the settings.
    pub fn config_dir(&self, default_dir: &str) -> (r: String)
        ensures
            r@ == config_folder(opt_string(self.directory), default_dir@),
    {
        match &self.directory {
            Some(directory) => directory.clone(),
            None => String::from_str(default_dir),
        }
    }

    /// The path of the settings file: in the custom folder when there is one,
    /// else in `default_dir`.
    pub fn settings_path(&self, default_dir: &str) -> (r: String)
        ensures
            r@ == joined_path(config_folder(opt_string(self.directory), default_dir@), "settings.json"@),
    {
        match &self.directory {
            Some(directory) => join_path(directory.as_str(), SETTINGS_FILE_NAME),
            None => join_path(default_dir, SETTINGS_FILE_NAME),
        }
    }
}

/// The command that starts WindowWarden minimized with Windows: the quoted
/// executable path followed by `--minimized`.
pub fn startup_command(executable: &str) -> (r: String)
    ensures
        r@ == startup_text(executable@),
{
    let mut r = String::from_str("\"");
    r.append(executable);
    r.append("\" --minimized");
    proof {
        reveal_strlit("\"");
        reveal_strlit("\" --minimized");
        assert(r@ =~= startup_text(executable@));
    }
    r
}

impl Settings {
    /// Puts `app` in place of the application at `row`; tells whether there is
    /// such a row (when there is none nothing changes).
    pub fn replace_app(&mut self, row: usize, app: ManagedApplication) -> (r: bool)
        ensures
            r == (row < old(self).apps@.len()),
            final(self).apps@ == (if r {
                old(self).apps@.update(row as int, app)
            } else {
                old(self).apps@
            }),
            final(self).start_with_windows == old(self).start_with_windows,
            final(self).language == old(self).language,
    {
        if row < self.apps.len() {
            self.apps.set(row, app);
            true
        } else {
            false
        }
    }

    /// Removes the application at `row`; tells whether there is such a row
    /// (when there is none nothing changes).
    pub fn remove_app(&mut self, row: usize) -> (r: bool)
        ensures
            r == (row < old(self).apps@.len()),
            final(self).apps@ == (if r {
                old(self).apps@.remove(row as int)
            } else {
                old(self).apps@
            }),
            final(self).start_with_windows == old(self).start_with_windows,
            final(self).language == old(self).language,
    {
        if row < self.apps.len() {
            self.apps.remove(row);
            true
        } else {
            false
        }
    }
}

/// Why the settings in use are not the ones the user chose.
#[derive(Debug, PartialEq)]
pub enum ConfigProblem {
    /// The custom config folder could not be used (the detail says why); the
    /// default folder's settings are in use.
    LocationFailed(String),
    /// The settings could not be read (the detail says why); defaults are in use.
    LoadFailed(String),
}

/// Which settings are being read at start-up.
#[derive(Debug)]
pub enum LoadStage {
    /// The settings of the recorded location.
    Recorded(ConfigLocation),
    /// The default folder's settings, because the recorded custom folder could
    /// not be used for the reason given.
    Fallback(String),
}

/// The settings WindowWarden starts with, where they live, and what went wrong
/// on the way, if anything.
#[derive(Debug)]
pub struct LoadedConfig {
    pub location: ConfigLocation,
    pub settings: Settings,
    pub problem: Option<ConfigProblem>,
}

/// What to read after reading the location file: `location` is its content or
/// the reason it could not be read, and `folder_exists` tells whether the custom
/// folder it records exists (it is not consulted when it records none).
pub fn after_location(location: Result<ConfigLocation, String>, folder_exists: bool) -> (r: LoadStage)
    ensures
        match location {
            Err(reason) => r == LoadStage::Fallback(reason),
            Ok(l) => match l.directory {
                Some(d) => if folder_exists {
                    r == LoadStage::Recorded(l)
                } else {
                    r matches LoadStage::Fallback(detail) && detail@ == d@
                },
                None => r == LoadStage::Recorded(l),
            },
        },
{
    match location {
        Err(reason) => LoadStage::Fallback(reason),
        Ok(l) => match &l.directory {
            Some(d) => if folder_exists {
                LoadStage::Recorded(l)
            } else {
                LoadStage::Fallback(d.clone())
            },
            None => LoadStage::Recorded(l),
        },
    }
}

/// The settings file to read at a stage.
pub fn stage_settings_path(stage: &LoadStage, default_dir: &str) -> (r: String)
    ensures
        r@ == joined_path(
            match stage {
                LoadStage::Recorded(l) => config_folder(opt_string(l.directory), default_dir@),
                LoadStage::Fallback(_) => default_dir@,
            },
            "settings.json"@,
        ),
{
    match stage {
        LoadStage::Recorded(location) => location.settings_path(default_dir),
        LoadStage::Fallback(_) => join_path(default_dir, SETTINGS_FILE_NAME),
    }
}

/// What reading the settings at a stage leads to: the configuration to start
/// with, or, when the settings of a custom folder could not be read, the
/// fallback stage to read next. Settings that cannot be read anywhere else are
/// replaced by the defaults.
pub fn after_settings(stage: LoadStage, settings: Result<Settings, String>) -> (r: Result<
    LoadedConfig,
    LoadStage,
>)
    ensures
        match (stage, settings) {
            (LoadStage::Recorded(l), Ok(s)) => r == Ok::<LoadedConfig, LoadStage>(
                LoadedConfig { location: l, settings: s, problem: None },
            ),
            (LoadStage::Recorded(l), Err(reason)) => if l.directory is Some {
                r == Err::<LoadedConfig, LoadStage>(LoadStage::Fallback(reason))
            } else {
                r matches Ok(c) && c.location == l && c.settings.apps@.len() == 0
                    && !c.settings.start_with_windows && c.settings.language == Language::System
                    && c.problem == Some(ConfigProblem::LoadFailed(reason))
            },
            (LoadStage::Fallback(detail), Ok(s)) => r matches Ok(c) && c.location.directory is None
                && c.settings == s && c.problem == Some(ConfigProblem::LocationFailed(detail)),
            (LoadStage::Fallback(_), Err(reason)) => r matches Ok(c) && c.location.directory is None
                && c.settings.apps@.len() == 0 && !c.settings.start_with_windows
                && c.settings.language == Language::System && c.problem == Some(
                ConfigProblem::LoadFailed(reason),
            ),
        },
{
    match stage {
        LoadStage::Recorded(location) => match settings {
            Ok(settings) => Ok(LoadedConfig { location, settings, problem: None }),
            Err(reason) => if location.directory.is_some() {
                Err(LoadStage::Fallback(reason))
            } else {
                Ok(
                    LoadedConfig {
                        location,
                        settings: Settings::default(),
                        problem: Some(ConfigProblem::LoadFailed(reason)),
                    },
                )
            },
        },
        LoadStage::Fallback(detail) => match settings {
            Ok(settings) => Ok(
                LoadedConfig {
                    location: ConfigLocation::default(),
                    settings,
                    problem: Some(ConfigProblem::LocationFailed(detail)),
                },
            ),
            Err(reason) => Ok(
                LoadedConfig {
                    location: ConfigLocation::default(),
                    settings: Settings::default(),
                    problem: Some(ConfigProblem::LoadFailed(reason)),
                },
            ),
        },
    }
}

/// Whether the settings of the former installation are to be carried over: only
/// when the new folder has no settings yet and the former one has.
pub fn should_migrate(target_exists: bool, source_exists: bool) -> (r: bool)
    ensures
        r == (!target_exists && source_exists),
{
    !target_exists && source_exists
}

} // verus!
