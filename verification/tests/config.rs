use window_warden::{join_path, should_migrate, startup_command, ConfigLocation, SETTINGS_FILE_NAME};

#[test]
fn config_location_uses_default_directory_until_customized() {
    let default_dir = r"C:\Users\me\AppData\Roaming\WindowWarden";
    let mut location = ConfigLocation::default();
    assert_eq!(
        location.settings_path(default_dir),
        join_path(default_dir, SETTINGS_FILE_NAME)
    );
    assert_eq!(
        location.settings_path(default_dir),
        r"C:\Users\me\AppData\Roaming\WindowWarden\settings.json"
    );

    location.directory = Some(r"D:\Sync\WindowWarden".to_string());
    assert_eq!(
        location.settings_path(default_dir),
        r"D:\Sync\WindowWarden\settings.json"
    );
}

#[test]
fn startup_command_quotes_executable_and_starts_minimized() {
    assert_eq!(
        startup_command(r"C:\Program Files\WindowWarden\window-warden.exe"),
        r#""C:\Program Files\WindowWarden\window-warden.exe" --minimized"#
    );
}

#[test]
fn joining_adds_a_separator_only_where_windows_does() {
    assert_eq!(join_path(r"D:\Sync\", "settings.json"), r"D:\Sync\settings.json");
    assert_eq!(join_path("D:/Sync/", "settings.json"), "D:/Sync/settings.json");
    assert_eq!(join_path("D:", "settings.json"), "D:settings.json");
    assert_eq!(join_path("", "settings.json"), "settings.json");
    assert_eq!(join_path("1:", "settings.json"), r"1:\settings.json");
    assert_eq!(join_path(r"\\server\share", "settings.json"), r"\\server\share\settings.json");
}

#[test]
fn settings_migrate_only_into_an_empty_folder() {
    assert!(should_migrate(false, true));
    assert!(!should_migrate(true, true));
    assert!(!should_migrate(false, false));
    assert!(!should_migrate(true, false));
}

#[test]
fn settings_default_to_no_apps_no_startup_and_the_system_language() {
    let settings = window_warden::Settings::default();
    assert!(settings.apps.is_empty());
    assert!(!settings.start_with_windows);
    assert_eq!(settings.language, window_warden::Language::System);
}

use window_warden::{
    after_location, after_settings, stage_settings_path, ConfigProblem, Language, LoadStage,
    LockTarget, ManagedApplication, Settings,
};

fn some_settings() -> Settings {
    Settings {
        apps: vec![ManagedApplication {
            identity: "game.exe".into(),
            target: LockTarget::Monitor,
            name: None,
            lock_cursor: true,
            mute_in_background: true,
        }],
        start_with_windows: true,
        language: Language::English,
    }
}

const DEFAULT_DIR: &str = r"C:\Users\me\AppData\Roaming\WindowWarden";

#[test]
fn the_config_dir_is_the_custom_folder_or_the_default() {
    let mut location = ConfigLocation::default();
    assert_eq!(location.config_dir(DEFAULT_DIR), DEFAULT_DIR);
    location.directory = Some(r"D:\Sync".into());
    assert_eq!(location.config_dir(DEFAULT_DIR), r"D:\Sync");
}

#[test]
fn startup_reads_the_recorded_folder_when_it_exists() {
    let custom = ConfigLocation { directory: Some(r"D:\Sync".into()) };
    let stage = after_location(Ok(custom), true);
    assert_eq!(stage_settings_path(&stage, DEFAULT_DIR), r"D:\Sync\settings.json");
    let loaded = after_settings(stage, Ok(some_settings())).unwrap();
    assert_eq!(loaded.location.directory.as_deref(), Some(r"D:\Sync"));
    assert_eq!(loaded.settings.apps.len(), 1);
    assert_eq!(loaded.problem, None);
}

#[test]
fn a_missing_custom_folder_falls_back_to_the_default_folder() {
    let custom = ConfigLocation { directory: Some(r"D:\Gone".into()) };
    let stage = after_location(Ok(custom), false);
    assert_eq!(
        stage_settings_path(&stage, DEFAULT_DIR),
        format!(r"{}\settings.json", DEFAULT_DIR)
    );
    let loaded = after_settings(stage, Ok(some_settings())).unwrap();
    assert_eq!(loaded.location.directory, None);
    assert!(loaded.settings.start_with_windows);
    assert_eq!(loaded.problem, Some(ConfigProblem::LocationFailed(r"D:\Gone".into())));
}

#[test]
fn unreadable_custom_settings_fall_back_and_then_to_defaults() {
    let custom = ConfigLocation { directory: Some(r"D:\Sync".into()) };
    let stage = after_location(Ok(custom), true);
    let fallback = after_settings(stage, Err("bad json".into())).unwrap_err();
    assert!(matches!(fallback, LoadStage::Fallback(ref detail) if detail == "bad json"));
    let loaded = after_settings(fallback, Err("also bad".into())).unwrap();
    assert_eq!(loaded.location.directory, None);
    assert!(loaded.settings.apps.is_empty());
    assert_eq!(loaded.problem, Some(ConfigProblem::LoadFailed("also bad".into())));
}

#[test]
fn unreadable_default_settings_start_with_defaults() {
    let stage = after_location(Ok(ConfigLocation::default()), false);
    let loaded = after_settings(stage, Err("bad json".into())).unwrap();
    assert_eq!(loaded.location.directory, None);
    assert!(!loaded.settings.start_with_windows);
    assert_eq!(loaded.settings.language, Language::System);
    assert_eq!(loaded.problem, Some(ConfigProblem::LoadFailed("bad json".into())));
}

#[test]
fn an_unreadable_location_file_falls_back() {
    let stage = after_location(Err("denied".into()), true);
    let loaded = after_settings(stage, Ok(some_settings())).unwrap();
    assert_eq!(loaded.problem, Some(ConfigProblem::LocationFailed("denied".into())));
}

#[test]
fn rows_are_replaced_and_removed_only_when_they_exist() {
    let mut settings = some_settings();
    let other = ManagedApplication {
        identity: "music.exe".into(),
        target: LockTarget::Window,
        name: None,
        lock_cursor: false,
        mute_in_background: true,
    };
    assert!(!settings.replace_app(1, other.clone()));
    assert_eq!(settings.apps[0].identity, "game.exe");
    assert!(settings.replace_app(0, other));
    assert_eq!(settings.apps[0].identity, "music.exe");
    assert!(!settings.remove_app(1));
    assert!(settings.remove_app(0));
    assert!(settings.apps.is_empty());
    assert!(settings.start_with_windows);
}

#[test]
fn a_verbatim_folder_is_joined_with_a_backslash_after_a_slash() {
    assert_eq!(
        join_path(r"\\?\C:\Sync/", SETTINGS_FILE_NAME),
        r"\\?\C:\Sync/\settings.json"
    );
    assert_eq!(join_path(r"\\?\C:\Sync\", SETTINGS_FILE_NAME), r"\\?\C:\Sync\settings.json");
    assert_eq!(join_path("C:/Sync/", SETTINGS_FILE_NAME), "C:/Sync/settings.json");
    assert_eq!(join_path("C:", SETTINGS_FILE_NAME), "C:settings.json");
}
