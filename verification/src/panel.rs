//! The decisions of the settings window: opening the editor, saving an entry,
//! asking before an edit or a removal takes effect, importing settings and
//! choosing the config folder. The window shows what these decide and does the
//! file and registry work they call for.
use vstd::prelude::*;
use crate::config::{
    config_folder, joined_path, same_path, same_path_result, ConfigLocation, Settings,
};
use crate::editor::{entry_problem, is_entry, prepare_entry, EntryProblem};
use crate::identity::{opt_string, shown_name, LockTarget, ManagedApplication};
use crate::language::{language_at, Language};
use crate::processes::{choice_identity, ProcessChoice};

verus! {

/// A question the window asks before a change takes effect.
#[derive(Clone, Copy, Debug, PartialEq, Eq, Structural)]
pub enum Question {
    /// Whether to save the edited application.
    ConfirmEdit,
    /// Whether to remove an application.
    ConfirmRemove,
    /// Whether to replace all settings with imported ones.
    ConfirmImport,
    /// The chosen config folder already holds settings: load them (the
    /// accepting answer) or overwrite them with the current ones (the
    /// alternate answer).
    ConfigExists,
}

/// What the editor shows when it opens.
#[derive(Debug)]
pub struct EditorFields {
    pub name: String,
    pub identity: String,
    pub target: LockTarget,
    pub lock_cursor: bool,
    pub mute_in_background: bool,
}

/// What saving the editor led to.
#[derive(Debug)]
pub enum Saved {
    /// The new application was added to the settings.
    Added,
    /// The edited application waits for confirmation; the text is its name.
    ConfirmEdit(String),
}

/// What accepting a question led to.
#[derive(Debug)]
pub enum Accepted {
    /// Nothing waited for this answer.
    Nothing,
    /// The edited application took the place of the one it was opened for.
    Edited,
    /// The application was removed.
    Removed,
    /// These settings are to replace the current ones.
    Import(Settings),
    /// The settings kept at this location are to be loaded, and the location
    /// recorded.
    LoadFrom(ConfigLocation),
}

/// What choosing a config folder calls for.
#[derive(Debug)]
pub enum Relocation {
    /// The settings file stays where it is: record the location.
    Commit(ConfigLocation),
    /// The chosen folder, whose text is given, already holds settings: ask
    /// whether to load or overwrite them.
    AskExisting(String),
    /// Write the current settings into the chosen folder, then record the
    /// location.
    Move(ConfigLocation),
}

/// The state of the settings window.
#[derive(Debug)]
pub struct Panel {
    pub settings: Settings,
    pub location: ConfigLocation,
    /// The running applications offered in the editor.
    pub running: Vec<ProcessChoice>,
    /// The row the editor was opened for; none for a new entry.
    pub editing: Option<usize>,
    /// An edited application waiting for confirmation.
    pub pending_edit: Option<ManagedApplication>,
    /// A row waiting for the confirmation of its removal.
    pub pending_remove: Option<usize>,
    /// Imported settings waiting for confirmation.
    pub pending_import: Option<Settings>,
    /// A config folder that already holds settings, waiting for the user to
    /// say what to do.
    pub pending_location: Option<ConfigLocation>,
}

/// Nothing waits for an answer.
pub open spec fn nothing_pending(p: Panel) -> bool {
    &&& p.pending_edit is None
    &&& p.pending_remove is None
    &&& p.pending_import is None
    &&& p.pending_location is None
}

/// The name shown for an application.
pub open spec fn name_of(app: ManagedApplication) -> Seq<char> {
    shown_name(app.identity@, opt_string(app.name))
}

/// Asking to remove the application at `row`: when there is one, its removal
/// waits for confirmation and `shown` is its name; nothing else changes.
pub open spec fn removal_asked(before: Panel, row: i32, shown: Option<Seq<char>>, after: Panel) -> bool {
    if 0 <= row < before.settings.apps@.len() {
        &&& shown == Some(name_of(before.settings.apps@[row as int]))
        &&& after == (Panel { pending_remove: Some(row as usize), ..before })
    } else {
        shown is None && after == before
    }
}

/// Whether the editor fields `f` show the application `app`.
pub open spec fn shows(f: EditorFields, app: ManagedApplication) -> bool {
    &&& f.name@ == (match opt_string(app.name) {
        Some(n) => n,
        None => Seq::<char>::empty(),
    })
    &&& f.identity@ == app.identity@
    &&& f.target == app.target
    &&& f.lock_cursor == app.lock_cursor
    &&& f.mute_in_background == app.mute_in_background
}

/// Opening the editor for the application at `row`, or for a new entry when
/// `row` is none: the fields shown are that application's, or blank; a row
/// that does not exist opens nothing and changes nothing.
pub open spec fn editor_opened(before: Panel, row: Option<usize>, r: Option<EditorFields>, after: Panel) -> bool {
    match row {
        Some(i) => if i < before.settings.apps@.len() {
            &&& r matches Some(f) && shows(f, before.settings.apps@[i as int])
            &&& after == (Panel { editing: row, ..before })
        } else {
            r is None && after == before
        },
        None => r matches Some(f) && blank(f) && after == (Panel { editing: None, ..before }),
    }
}

/// Whether the editor fields `f` are those of a new entry: blank, locking the
/// cursor in the application window, not muting.
pub open spec fn blank(f: EditorFields) -> bool {
    &&& f.name@.len() == 0
    &&& f.identity@.len() == 0
    &&& f.target == LockTarget::Window
    &&& f.lock_cursor
    &&& !f.mute_in_background
}

/// Saving the editor with the identity `identity`, the name `name`, the lock
/// target `target` and the features chosen. An entry that cannot be saved
/// changes nothing. A new entry is added at once; an edited one waits for
/// confirmation and leaves the settings as they are.
pub open spec fn entry_saved(
    before: Panel,
    identity: Seq<char>,
    name: Seq<char>,
    target: LockTarget,
    lock_cursor: bool,
    mute_in_background: bool,
    r: Result<Saved, EntryProblem>,
    after: Panel,
) -> bool {
    match entry_problem(before.settings.apps@, before.editing, identity) {
        Some(problem) => r == Err::<Saved, EntryProblem>(problem) && after == before,
        None => match before.editing {
            Some(_) => {
                &&& match (after.pending_edit, r) {
                    (Some(app), Ok(Saved::ConfirmEdit(shown))) => {
                        &&& is_entry(app, identity, name, target, lock_cursor, mute_in_background)
                        &&& shown@ == name_of(app)
                    },
                    _ => false,
                }
                &&& after == (Panel { pending_edit: after.pending_edit, ..before })
            },
            None => {
                &&& r matches Ok(Saved::Added)
                &&& after.settings.apps@.len() == before.settings.apps@.len() + 1
                &&& after.settings.apps@.drop_last() == before.settings.apps@
                &&& is_entry(
                    after.settings.apps@.last(),
                    identity,
                    name,
                    target,
                    lock_cursor,
                    mute_in_background,
                )
                &&& after == (Panel {
                    settings: Settings { apps: after.settings.apps, ..before.settings },
                    ..before
                })
            },
        },
    }
}

/// Accepting the question `q`. A confirmed edit takes the place of the row the
/// editor was opened for, a confirmed removal removes its row, and accepted
/// imported settings or an existing config folder are handed on; whatever
/// waited for this answer is dropped, and nothing else changes.
pub open spec fn answered(before: Panel, q: Question, r: Accepted, after: Panel) -> bool {
    match q {
        Question::ConfirmEdit => match (before.editing, before.pending_edit) {
            (Some(row), Some(app)) => if row < before.settings.apps@.len() {
                &&& r is Edited
                &&& after.settings.apps@ == before.settings.apps@.update(row as int, app)
                &&& after == (Panel {
                    settings: Settings { apps: after.settings.apps, ..before.settings },
                    pending_edit: None,
                    ..before
                })
            } else {
                r is Nothing && after == (Panel { pending_edit: None, ..before })
            },
            _ => r is Nothing && after == (Panel { pending_edit: None, ..before }),
        },
        Question::ConfirmRemove => match before.pending_remove {
            Some(row) => if row < before.settings.apps@.len() {
                &&& r is Removed
                &&& after.settings.apps@ == before.settings.apps@.remove(row as int)
                &&& after == (Panel {
                    settings: Settings { apps: after.settings.apps, ..before.settings },
                    pending_remove: None,
                    ..before
                })
            } else {
                r is Nothing && after == (Panel { pending_remove: None, ..before })
            },
            None => r is Nothing && after == before,
        },
        Question::ConfirmImport => {
            &&& r == (match before.pending_import {
                Some(s) => Accepted::Import(s),
                None => Accepted::Nothing,
            })
            &&& after == (Panel { pending_import: None, ..before })
        },
        Question::ConfigExists => {
            &&& r == (match before.pending_location {
                Some(l) => Accepted::LoadFrom(l),
                None => Accepted::Nothing,
            })
            &&& after == (Panel { pending_location: None, ..before })
        },
    }
}

/// The settings file of the config folder `directory` (the default folder
/// `default_dir` when none).
pub open spec fn settings_file(directory: Option<Seq<char>>, default_dir: Seq<char>) -> Seq<char> {
    joined_path(config_folder(directory, default_dir), "settings.json"@)
}

/// Choosing the config folder of `location`, given whether its settings file
/// is the same path as the one in use (`same_file`) and whether it exists
/// (`target_exists`). When it is the same file only the location is to be
/// recorded; when it is another file that exists the user is asked, and the
/// location waits for the answer; else the settings are to move there.
pub open spec fn relocated(
    before: Panel,
    location: ConfigLocation,
    default_dir: Seq<char>,
    same_file: bool,
    target_exists: bool,
    r: Relocation,
    after: Panel,
) -> bool {
    if same_file {
        r == Relocation::Commit(location) && after == before
    } else if target_exists {
        &&& r matches Relocation::AskExisting(folder) && folder@ == config_folder(
            opt_string(location.directory),
            default_dir,
        )
        &&& after == (Panel { pending_location: Some(location), ..before })
    } else {
        r == Relocation::Move(location) && after == before
    }
}

/// Recording `location` as the config folder, given whether the location file
/// was written (`saved`): only then does the location in use change.
pub open spec fn location_committed(before: Panel, location: ConfigLocation, saved: bool, r: bool, after: Panel) -> bool {
    &&& r == saved
    &&& saved ==> after == (Panel { location: location, ..before })
    &&& !saved ==> after == before
}

/// Cancelling a question drops everything that waits for an answer.
pub open spec fn canceled(before: Panel, after: Panel) -> bool {
    after == (Panel {
        pending_edit: None,
        pending_remove: None,
        pending_import: None,
        pending_location: None,
        ..before
    })
}

/// The location for a folder the user picked, given whether it is the same
/// path as the default folder: the default location when it is.
pub fn location_for(directory: String, is_default: bool) -> (r: ConfigLocation)
    ensures
        is_default ==> r.directory is None,
        !is_default ==> r.directory == Some(directory),
{
    if is_default {
        ConfigLocation { directory: None }
    } else {
        ConfigLocation { directory: Some(directory) }
    }
}

/// The location for a folder the user picked: the default location when it is
/// the same path as the default folder `default_dir`, which it is at least when
/// the texts are equal.
pub fn chosen_location(directory: String, default_dir: &str) -> (r: ConfigLocation)
    ensures
        r.directory == (if same_path_result(directory@, default_dir@) {
            None
        } else {
            Some(directory)
        }),
        directory@ == default_dir@ ==> r.directory is None,
{
    let is_default = same_path(directory.as_str(), default_dir);
    location_for(directory, is_default)
}

impl Panel {
    /// The window's state for `settings` kept at `location`, with the editor
    /// closed and no question open.
    pub fn new(settings: Settings, location: ConfigLocation) -> (r: Panel)
        ensures
            r.settings == settings,
            r.location == location,
            r.running@.len() == 0,
            r.editing is None,
            nothing_pending(r),
    {
        Panel {
            settings,
            location,
            running: Vec::new(),
            editing: None,
            pending_edit: None,
            pending_remove: None,
            pending_import: None,
            pending_location: None,
        }
    }

    /// Opens the editor for the application at `row`, or for a new entry when
    /// `row` is none; returns what the editor shows, or none (and changes
    /// nothing) when there is no such row.
    pub fn open_editor(&mut self, row: Option<usize>) -> (r: Option<EditorFields>)
        ensures
            editor_opened(*old(self), row, r, *final(self)),
    {
        let fields = match row {
            Some(i) => {
                if i >= self.settings.apps.len() {
                    return None;
                }
                let app = &self.settings.apps[i];
                let name = match &app.name {
                    Some(name) => name.clone(),
                    None => String::new(),
                };
                EditorFields {
                    name,
                    identity: app.identity.clone(),
                    target: app.target,
                    lock_cursor: app.lock_cursor,
                    mute_in_background: app.mute_in_background,
                }
            },
            None => EditorFields {
                name: String::new(),
                identity: String::new(),
                target: LockTarget::Window,
                lock_cursor: true,
                mute_in_background: false,
            },
        };
        self.editing = row;
        Some(fields)
    }

    /// The identity of the running application at `index` in the editor's
    /// list, or none when there is no such entry.
    pub fn running_selected(&self, index: i32) -> (r: Option<String>)
        ensures
            0 <= index < self.running@.len() ==> (r matches Some(id) && id@ == choice_identity(
                self.running@[index as int].name_text(),
                self.running@[index as int].path_text(),
            )),
            !(0 <= index < self.running@.len()) ==> r is None,
    {
        if index < 0 || index as usize >= self.running.len() {
            return None;
        }
        Some(self.running[index as usize].identity())
    }

    /// Saves the editor: `identity` and `name` as entered, the lock target
    /// `target` and the features chosen.
    pub fn editor_saved(
        &mut self,
        identity: &str,
        name: &str,
        target: LockTarget,
        lock_cursor: bool,
        mute_in_background: bool,
    ) -> (r: Result<Saved, EntryProblem>)
        ensures
            entry_saved(
                *old(self),
                identity@,
                name@,
                target,
                lock_cursor,
                mute_in_background,
                r,
                *final(self),
            ),
    {
        let app = match prepare_entry(
            self.settings.apps.as_slice(),
            self.editing,
            identity,
            name,
            target,
            lock_cursor,
            mute_in_background,
        ) {
            Ok(app) => app,
            Err(problem) => return Err(problem),
        };
        if self.editing.is_some() {
            let shown = String::from_str(app.display_name());
            self.pending_edit = Some(app);
            Ok(Saved::ConfirmEdit(shown))
        } else {
            self.settings.apps.push(app);
            proof {
                assert(self.settings.apps@.drop_last() =~= old(self).settings.apps@);
            }
            Ok(Saved::Added)
        }
    }

    /// The user accepts the question `question`.
    pub fn prompt_accepted(&mut self, question: Question) -> (r: Accepted)
        ensures
            answered(*old(self), question, r, *final(self)),
    {
        match question {
            Question::ConfirmEdit => {
                let pending = self.pending_edit.take();
                match (self.editing, pending) {
                    (Some(row), Some(app)) => if row < self.settings.apps.len() {
                        self.settings.apps.set(row, app);
                        Accepted::Edited
                    } else {
                        Accepted::Nothing
                    },
                    _ => Accepted::Nothing,
                }
            },
            Question::ConfirmRemove => match self.pending_remove.take() {
                Some(row) => if row < self.settings.apps.len() {
                    self.settings.apps.remove(row);
                    Accepted::Removed
                } else {
                    Accepted::Nothing
                },
                None => Accepted::Nothing,
            },
            Question::ConfirmImport => match self.pending_import.take() {
                Some(settings) => Accepted::Import(settings),
                None => Accepted::Nothing,
            },
            Question::ConfigExists => match self.pending_location.take() {
                Some(location) => Accepted::LoadFrom(location),
                None => Accepted::Nothing,
            },
        }
    }

    /// The user gives the alternate answer to `question`: for an existing
    /// config folder, overwrite its settings. Returns the location whose
    /// settings are to be overwritten, or none when nothing waited for it.
    pub fn prompt_alternate(&mut self, question: Question) -> (r: Option<ConfigLocation>)
        ensures
            question == Question::ConfigExists ==> r == old(self).pending_location && *final(self)
                == (Panel { pending_location: None, ..*old(self) }),
            question != Question::ConfigExists ==> r is None && *final(self) == *old(self),
    {
        if question == Question::ConfigExists {
            self.pending_location.take()
        } else {
            None
        }
    }

    /// The user chose the config folder of `location`; `same_file` tells
    /// whether its settings file is the same path as the one in use, and
    /// `target_exists` whether that file exists.
    pub fn relocate_decided(
        &mut self,
        location: ConfigLocation,
        default_dir: &str,
        same_file: bool,
        target_exists: bool,
    ) -> (r: Relocation)
        ensures
            relocated(*old(self), location, default_dir@, same_file, target_exists, r, *final(self)),
    {
        if same_file {
            Relocation::Commit(location)
        } else if target_exists {
            let folder = location.config_dir(default_dir);
            self.pending_location = Some(location);
            Relocation::AskExisting(folder)
        } else {
            Relocation::Move(location)
        }
    }

    /// The user chose the config folder of `location`; `target_exists` tells
    /// whether its settings file exists. The settings files of the chosen and
    /// the current location are compared as paths; they are the same path at
    /// least when their texts are equal.
    pub fn relocate(&mut self, location: ConfigLocation, default_dir: &str, target_exists: bool) -> (r:
        Relocation)
        ensures
            relocated(
                *old(self),
                location,
                default_dir@,
                same_path_result(
                    settings_file(opt_string(location.directory), default_dir@),
                    settings_file(opt_string(old(self).location.directory), default_dir@),
                ),
                target_exists,
                r,
                *final(self),
            ),
            settings_file(opt_string(location.directory), default_dir@) == settings_file(
                opt_string(old(self).location.directory),
                default_dir@,
            ) ==> r is Commit,
    {
        let target = location.settings_path(default_dir);
        let current = self.location.settings_path(default_dir);
        proof {
            reveal_strlit("settings.json");
        }
        let same_file = same_path(target.as_str(), current.as_str());
        self.relocate_decided(location, default_dir, same_file, target_exists)
    }

    /// Records `location` as the config folder once its location file was
    /// written (`saved`); returns whether it was.
    pub fn commit_location(&mut self, location: ConfigLocation, saved: bool) -> (r: bool)
        ensures
            location_committed(*old(self), location, saved, r, *final(self)),
    {
        if saved {
            self.location = location;
        }
        saved
    }

    /// Whether taking on `settings` changes whether WindowWarden starts with
    /// Windows, so that the startup registration has to change too.
    pub fn startup_changes(&self, settings: &Settings) -> (r: bool)
        ensures
            r == (settings.start_with_windows != self.settings.start_with_windows),
    {
        settings.start_with_windows != self.settings.start_with_windows
    }

    /// The user turned starting with Windows on or off (`enabled`);
    /// `registered` tells whether the startup registration changed
    /// accordingly. Only then does the setting change; returns whether it did.
    pub fn start_with_windows_toggled(&mut self, enabled: bool, registered: bool) -> (r: bool)
        ensures
            r == registered,
            registered ==> *final(self) == (Panel {
                settings: Settings { start_with_windows: enabled, ..old(self).settings },
                ..*old(self)
            }),
            !registered ==> *final(self) == *old(self),
    {
        if registered {
            self.settings.start_with_windows = enabled;
        }
        registered
    }

    /// The user chose the language at `index` in the language list; returns
    /// the language now set.
    pub fn language_selected(&mut self, index: i32) -> (r: Language)
        ensures
            r == language_at(index),
            *final(self) == (Panel {
                settings: Settings { language: r, ..old(self).settings },
                ..*old(self)
            }),
    {
        let language = Language::from_index(index);
        self.settings.language = language;
        language
    }

    /// Replaces all settings with `settings`. When that changes whether
    /// WindowWarden starts with Windows and changing the registration failed
    /// (`startup_failed`), the current choice is kept. Returns whether the
    /// language changed.
    pub fn replace_settings(&mut self, settings: Settings, startup_failed: bool) -> (r: bool)
        ensures
            r == (settings.language != old(self).settings.language),
            final(self).settings.apps == settings.apps,
            final(self).settings.language == settings.language,
            final(self).settings.start_with_windows == (if settings.start_with_windows
                != old(self).settings.start_with_windows && startup_failed {
                old(self).settings.start_with_windows
            } else {
                settings.start_with_windows
            }),
            *final(self) == (Panel { settings: final(self).settings, ..*old(self) }),
    {
        let mut settings = settings;
        if settings.start_with_windows != self.settings.start_with_windows && startup_failed {
            settings.start_with_windows = self.settings.start_with_windows;
        }
        let changed = settings.language != self.settings.language;
        self.settings = settings;
        changed
    }

    /// The user asks to remove the application at `row`; the removal waits for
    /// confirmation. Returns the name to ask about, or none when there is no
    /// such row.
    pub fn remove_clicked(&mut self, row: i32) -> (r: Option<String>)
        ensures
            removal_asked(*old(self), row, opt_string(r), *final(self)),
    {
        if row < 0 || row as usize >= self.settings.apps.len() {
            return None;
        }
        let shown = String::from_str(self.settings.apps[row as usize].display_name());
        self.pending_remove = Some(row as usize);
        Some(shown)
    }

    /// The user cancels the open question: nothing that waited for an answer
    /// takes effect.
    pub fn prompt_canceled(&mut self)
        ensures
            canceled(*old(self), *final(self)),
    {
        self.pending_edit = None;
        self.pending_remove = None;
        self.pending_import = None;
        self.pending_location = None;
    }
}

/// Asking to remove an application changes no setting: the removal waits for
/// confirmation.
pub proof fn law_removal_waits_for_confirmation(before: Panel, row: i32, shown: Option<Seq<char>>, after: Panel)
    requires
        removal_asked(before, row, shown, after),
    ensures
        after.settings == before.settings,
{
}

/// Saving an edited application changes no setting: the edit waits for
/// confirmation.
pub proof fn law_edit_waits_for_confirmation(
    before: Panel,
    identity: Seq<char>,
    name: Seq<char>,
    target: LockTarget,
    lock_cursor: bool,
    mute_in_background: bool,
    r: Result<Saved, EntryProblem>,
    after: Panel,
)
    requires
        entry_saved(before, identity, name, target, lock_cursor, mute_in_background, r, after),
        before.editing is Some,
    ensures
        after.settings == before.settings,
{
}

/// A removal that is asked about and then confirmed removes exactly the row
/// asked about.
pub proof fn law_confirmed_removal_removes_that_row(
    p0: Panel,
    row: i32,
    shown: Option<Seq<char>>,
    p1: Panel,
    a: Accepted,
    p2: Panel,
)
    requires
        removal_asked(p0, row, shown, p1),
        shown is Some,
        answered(p1, Question::ConfirmRemove, a, p2),
    ensures
        a is Removed,
        p2.settings.apps@ == p0.settings.apps@.remove(row as int),
        p2.settings.start_with_windows == p0.settings.start_with_windows,
        p2.settings.language == p0.settings.language,
        p2.pending_remove is None,
{
}

/// An edit that is saved and then confirmed puts the entered application in
/// the row the editor was opened for, and leaves every other row as it was.
pub proof fn law_confirmed_edit_replaces_that_row(
    p0: Panel,
    identity: Seq<char>,
    name: Seq<char>,
    target: LockTarget,
    lock_cursor: bool,
    mute_in_background: bool,
    r: Result<Saved, EntryProblem>,
    p1: Panel,
    a: Accepted,
    p2: Panel,
)
    requires
        p0.editing matches Some(row) && row < p0.settings.apps@.len(),
        entry_saved(p0, identity, name, target, lock_cursor, mute_in_background, r, p1),
        r is Ok,
        answered(p1, Question::ConfirmEdit, a, p2),
    ensures
        a is Edited,
        p2.settings.apps@.len() == p0.settings.apps@.len(),
        is_entry(
            p2.settings.apps@[p0.editing->0 as int],
            identity,
            name,
            target,
            lock_cursor,
            mute_in_background,
        ),
        forall|j: int|
            0 <= j < p0.settings.apps@.len() && j != p0.editing->0 ==> p2.settings.apps@[j]
                == p0.settings.apps@[j],
        p2.settings.start_with_windows == p0.settings.start_with_windows,
        p2.settings.language == p0.settings.language,
{
}

/// A removal that is asked about and then cancelled leaves the settings as they
/// were, with nothing left waiting.
pub proof fn law_canceled_removal_changes_nothing(
    p0: Panel,
    row: i32,
    shown: Option<Seq<char>>,
    p1: Panel,
    p2: Panel,
)
    requires
        removal_asked(p0, row, shown, p1),
        canceled(p1, p2),
    ensures
        p2.settings == p0.settings,
        nothing_pending(p2),
{
}

/// An edit that is saved and then cancelled leaves the settings as they were,
/// with nothing left waiting.
pub proof fn law_canceled_edit_changes_nothing(
    p0: Panel,
    identity: Seq<char>,
    name: Seq<char>,
    target: LockTarget,
    lock_cursor: bool,
    mute_in_background: bool,
    r: Result<Saved, EntryProblem>,
    p1: Panel,
    p2: Panel,
)
    requires
        p0.editing is Some,
        entry_saved(p0, identity, name, target, lock_cursor, mute_in_background, r, p1),
        canceled(p1, p2),
    ensures
        p2.settings == p0.settings,
        nothing_pending(p2),
{
}

/// An answer takes effect once: accepting the same question again does
/// nothing.
pub proof fn law_accepting_twice_does_nothing_more(
    p0: Panel,
    q: Question,
    a: Accepted,
    p1: Panel,
    b: Accepted,
    p2: Panel,
)
    requires
        answered(p0, q, a, p1),
        answered(p1, q, b, p2),
    ensures
        b is Nothing,
        p2 == p1,
{
}

/// Choosing a new config folder that holds no settings moves the settings
/// there, and once the location file is written that folder is the location in
/// use, with the settings as they were.
pub proof fn law_moved_folder_is_recorded(
    p0: Panel,
    location: ConfigLocation,
    default_dir: Seq<char>,
    r: Relocation,
    p1: Panel,
    moved: ConfigLocation,
    b: bool,
    p2: Panel,
)
    requires
        relocated(p0, location, default_dir, false, false, r, p1),
        r == Relocation::Move(moved),
        location_committed(p1, moved, true, b, p2),
    ensures
        b,
        p2.location == location,
        p2.settings == p0.settings,
        p2.pending_location == p0.pending_location,
{
}

/// Choosing a config folder that already holds settings and answering to load
/// them hands on that folder's location, and once the location file is written
/// it is the location in use, with nothing left waiting for it.
pub proof fn law_loaded_folder_is_recorded(
    p0: Panel,
    location: ConfigLocation,
    default_dir: Seq<char>,
    r: Relocation,
    p1: Panel,
    a: Accepted,
    p2: Panel,
    loaded: ConfigLocation,
    b: bool,
    p3: Panel,
)
    requires
        relocated(p0, location, default_dir, false, true, r, p1),
        answered(p1, Question::ConfigExists, a, p2),
        a == Accepted::LoadFrom(loaded),
        location_committed(p2, loaded, true, b, p3),
    ensures
        b,
        p3.location == location,
        p3.pending_location is None,
{
}

/// Choosing a config folder that already holds settings and answering to
/// overwrite them hands on that folder's location to move the settings to, and
/// once the location file is written it is the location in use.
pub proof fn law_overwritten_folder_is_recorded(
    p0: Panel,
    location: ConfigLocation,
    default_dir: Seq<char>,
    r: Relocation,
    p1: Panel,
    p2: Panel,
    b: bool,
    p3: Panel,
)
    requires
        relocated(p0, location, default_dir, false, true, r, p1),
        p2 == (Panel { pending_location: None, ..p1 }),
        location_committed(p2, p1.pending_location->0, true, b, p3),
    ensures
        b,
        p3.location == location,
        p3.settings == p0.settings,
        p3.pending_location is None,
{
}

/// Opening the editor for an existing row shows that row as it is: its
/// identity, its lock target and its chosen features, and the editor edits
/// that row.
pub proof fn law_editor_shows_the_row(p0: Panel, i: usize, r: Option<EditorFields>, p1: Panel)
    requires
        editor_opened(p0, Some(i), r, p1),
        i < p0.settings.apps@.len(),
    ensures
        r matches Some(f) && f.identity@ == p0.settings.apps@[i as int].identity@
            && f.name@ == (match opt_string(p0.settings.apps@[i as int].name) {
                Some(n) => n,
                None => Seq::<char>::empty(),
            })
            && f.target == p0.settings.apps@[i as int].target
            && f.lock_cursor == p0.settings.apps@[i as int].lock_cursor
            && f.mute_in_background == p0.settings.apps@[i as int].mute_in_background,
        p1.editing == Some(i),
        p1.settings == p0.settings,
{
}

/// Saving an opened row without changing its fields, once confirmed, keeps
/// that row's lock target and features, and every other row as it was.
pub proof fn law_unchanged_edit_keeps_the_row(
    p0: Panel,
    i: usize,
    f: EditorFields,
    p1: Panel,
    r: Result<Saved, EntryProblem>,
    p2: Panel,
    a: Accepted,
    p3: Panel,
)
    requires
        i < p0.settings.apps@.len(),
        editor_opened(p0, Some(i), Some(f), p1),
        entry_saved(p1, f.identity@, f.name@, f.target, f.lock_cursor, f.mute_in_background, r, p2),
        r is Ok,
        answered(p2, Question::ConfirmEdit, a, p3),
    ensures
        a is Edited,
        p3.settings.apps@.len() == p0.settings.apps@.len(),
        p3.settings.apps@[i as int].target == p0.settings.apps@[i as int].target,
        p3.settings.apps@[i as int].lock_cursor == p0.settings.apps@[i as int].lock_cursor,
        p3.settings.apps@[i as int].mute_in_background == p0.settings.apps@[i as int].mute_in_background,
        forall|j: int|
            0 <= j < p0.settings.apps@.len() && j != i ==> p3.settings.apps@[j] == p0.settings.apps@[j],
{
}

/// Opening the editor for a new entry shows blank text, the application
/// window as lock target, the cursor lock chosen and the background mute not,
/// and the editor adds rather than edits.
pub proof fn law_new_entry_opens_blank(p0: Panel, r: Option<EditorFields>, p1: Panel)
    requires
        editor_opened(p0, None, r, p1),
    ensures
        r matches Some(f) && f.name@.len() == 0 && f.identity@.len() == 0 && f.target
            == LockTarget::Window && f.lock_cursor && !f.mute_in_background,
        p1.editing is None,
        p1.settings == p0.settings,
{
}

} // verus!
