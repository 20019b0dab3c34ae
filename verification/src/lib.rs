//! WindowWarden's rules: which managed application a process is, which sessions
//! to mute in the background and restore, what the cursor lock does, which
//! translation to use, and where the settings live.
pub mod collections;
pub mod config;
pub mod editor;
pub mod identity;
pub mod language;
pub mod lock;
pub mod mute;
pub mod mute_laws;
pub mod panel;
pub mod processes;
pub mod shell;
pub mod stored;
pub mod text;

pub use editor::{prepare_entry, EntryProblem};
pub use config::{
    after_location, after_settings, join_path, should_migrate, stage_settings_path,
    startup_command, ConfigLocation, ConfigProblem, LoadStage, LoadedConfig, Settings,
    LOCATION_FILE_NAME, MUTED_FILE_NAME, SETTINGS_FILE_NAME,
};
pub use identity::{LockTarget, ManagedApplication};
pub use language::Language;
pub use lock::{clip_in_force, same_rect, CursorLock, LockStatus, Rect};
pub use mute::{AudioSession, BackgroundMute, MuteActions};
pub use processes::{arrange_choices, offers_window, ProcessChoice, ProcessIdentity};
pub use stored::{encode_muted_owners, load_muted_owners, LoadError};
pub use text::{wide, wide_array_to_string};
