use window_warden::panel::{chosen_location, location_for, Accepted, Panel, Question, Relocation, Saved};
use window_warden::{
    ConfigLocation, EntryProblem, Language, LockTarget, ManagedApplication, ProcessChoice,
    ProcessIdentity, Settings,
};

const DEFAULT_DIR: &str = r"C:\Users\me\AppData\Roaming\WindowWarden";

fn app(identity: &str, name: Option<&str>) -> ManagedApplication {
    ManagedApplication {
        identity: identity.into(),
        target: LockTarget::Window,
        name: name.map(Into::into),
        lock_cursor: true,
        mute_in_background: false,
    }
}

fn panel() -> Panel {
    Panel::new(
        Settings {
            apps: vec![
                app(r"C:\Games\game.exe", Some("Game")),
                app("notes.exe", None),
                app("player.exe", Some("  Player  ")),
            ],
            start_with_windows: false,
            language: Language::System,
        },
        ConfigLocation::default(),
    )
}

fn identities(panel: &Panel) -> Vec<&str> {
    panel.settings.apps.iter().map(|app| app.identity.as_str()).collect()
}

fn nothing_pending(panel: &Panel) -> bool {
    panel.pending_edit.is_none()
        && panel.pending_remove.is_none()
        && panel.pending_import.is_none()
        && panel.pending_location.is_none()
}

#[test]
fn a_new_panel_waits_for_nothing() {
    let panel = panel();
    assert!(nothing_pending(&panel));
    assert_eq!(panel.editing, None);
    assert!(panel.running.is_empty());
    assert_eq!(identities(&panel).len(), 3);
}

#[test]
fn removing_asks_first_and_removes_that_row_when_confirmed() {
    let mut panel = panel();
    assert_eq!(panel.remove_clicked(2).as_deref(), Some("Player"));
    assert_eq!(identities(&panel).len(), 3);
    assert_eq!(panel.pending_remove, Some(2));

    assert!(matches!(panel.prompt_accepted(Question::ConfirmRemove), Accepted::Removed));
    assert_eq!(identities(&panel), vec![r"C:\Games\game.exe", "notes.exe"]);
    assert!(nothing_pending(&panel));

    assert!(matches!(panel.prompt_accepted(Question::ConfirmRemove), Accepted::Nothing));
    assert_eq!(identities(&panel).len(), 2);
}

#[test]
fn removing_a_missing_row_asks_nothing() {
    let mut panel = panel();
    assert_eq!(panel.remove_clicked(3), None);
    assert_eq!(panel.remove_clicked(-1), None);
    assert!(nothing_pending(&panel));
}

#[test]
fn a_canceled_removal_keeps_the_application() {
    let mut panel = panel();
    assert_eq!(panel.remove_clicked(1).as_deref(), Some("notes.exe"));
    panel.prompt_canceled();
    assert!(nothing_pending(&panel));
    assert!(matches!(panel.prompt_accepted(Question::ConfirmRemove), Accepted::Nothing));
    assert_eq!(identities(&panel).len(), 3);
}

#[test]
fn the_editor_opens_blank_for_a_new_entry_and_filled_for_a_row() {
    let mut panel = panel();
    let blank = panel.open_editor(None).unwrap();
    assert_eq!(blank.name, "");
    assert_eq!(blank.identity, "");
    assert_eq!(blank.target, LockTarget::Window);
    assert!(blank.lock_cursor);
    assert!(!blank.mute_in_background);
    assert_eq!(panel.editing, None);

    let filled = panel.open_editor(Some(2)).unwrap();
    assert_eq!(filled.name, "  Player  ");
    assert_eq!(filled.identity, "player.exe");
    assert_eq!(panel.editing, Some(2));

    assert!(panel.open_editor(Some(3)).is_none());
    assert_eq!(panel.editing, Some(2));
}

#[test]
fn a_new_entry_is_added_at_once() {
    let mut panel = panel();
    panel.open_editor(None);
    let saved = panel.editor_saved(
        r#"  "D:\Tools\editor.exe"  "#,
        "  Editor ",
        LockTarget::Monitor,
        false,
        true,
    );
    assert!(matches!(saved, Ok(Saved::Added)));
    let added = panel.settings.apps.last().unwrap();
    assert_eq!(added.identity, r"D:\Tools\editor.exe");
    assert_eq!(added.name.as_deref(), Some("Editor"));
    assert_eq!(added.target, LockTarget::Monitor);
    assert!(!added.lock_cursor);
    assert!(added.mute_in_background);
    assert!(nothing_pending(&panel));
}

#[test]
fn an_entry_that_cannot_be_saved_changes_nothing() {
    let mut panel = panel();
    panel.open_editor(None);
    assert_eq!(
        panel.editor_saved("  \"\" ", "x", LockTarget::Window, true, false).err(),
        Some(EntryProblem::IdentityEmpty)
    );
    assert_eq!(
        panel.editor_saved("NOTES", "", LockTarget::Window, true, false).err(),
        Some(EntryProblem::IdentityDuplicate)
    );
    assert_eq!(identities(&panel).len(), 3);
    assert!(nothing_pending(&panel));
}

#[test]
fn an_edit_waits_for_confirmation_then_replaces_its_row() {
    let mut panel = panel();
    panel.open_editor(Some(1));
    let saved = panel.editor_saved("notes.exe", "Notes", LockTarget::Monitor, true, true);
    match saved {
        Ok(Saved::ConfirmEdit(shown)) => assert_eq!(shown, "Notes"),
        other => panic!("unexpected {other:?}"),
    }
    assert_eq!(panel.settings.apps[1].name, None);

    assert!(matches!(panel.prompt_accepted(Question::ConfirmEdit), Accepted::Edited));
    assert_eq!(panel.settings.apps[1].name.as_deref(), Some("Notes"));
    assert_eq!(panel.settings.apps[1].target, LockTarget::Monitor);
    assert!(panel.settings.apps[1].mute_in_background);
    assert_eq!(identities(&panel), vec![r"C:\Games\game.exe", "notes.exe", "player.exe"]);
    assert!(nothing_pending(&panel));
}

#[test]
fn a_canceled_edit_keeps_the_row() {
    let mut panel = panel();
    panel.open_editor(Some(0));
    assert!(panel.editor_saved("other.exe", "", LockTarget::Window, true, false).is_ok());
    panel.prompt_canceled();
    assert!(matches!(panel.prompt_accepted(Question::ConfirmEdit), Accepted::Nothing));
    assert_eq!(panel.settings.apps[0].identity, r"C:\Games\game.exe");
}

#[test]
fn an_edited_row_may_keep_its_own_identity_but_not_another() {
    let mut panel = panel();
    panel.open_editor(Some(0));
    assert!(panel.editor_saved(r"c:/games/GAME.EXE", "", LockTarget::Window, true, false).is_ok());
    panel.prompt_canceled();
    assert_eq!(
        panel.editor_saved("player", "", LockTarget::Window, true, false).err(),
        Some(EntryProblem::IdentityDuplicate)
    );
}

#[test]
fn selecting_a_running_application_gives_its_identity() {
    let mut panel = panel();
    panel.running = vec![
        ProcessChoice::new(
            "Game".into(),
            ProcessIdentity { name: "game.exe".into(), path: Some(r"C:\Games\game.exe".into()) },
        ),
        ProcessChoice::new("".into(), ProcessIdentity { name: "tool.exe".into(), path: None }),
    ];
    assert_eq!(panel.running_selected(0).as_deref(), Some(r"C:\Games\game.exe"));
    assert_eq!(panel.running_selected(1).as_deref(), Some("tool.exe"));
    assert_eq!(panel.running_selected(2), None);
    assert_eq!(panel.running_selected(-1), None);
}

#[test]
fn imported_settings_wait_for_confirmation() {
    let mut panel = panel();
    assert!(matches!(panel.prompt_accepted(Question::ConfirmImport), Accepted::Nothing));
    panel.pending_import = Some(Settings {
        apps: vec![app("x.exe", None)],
        start_with_windows: true,
        language: Language::English,
    });
    match panel.prompt_accepted(Question::ConfirmImport) {
        Accepted::Import(settings) => {
            assert_eq!(settings.apps.len(), 1);
            assert!(settings.start_with_windows);
        }
        other => panic!("unexpected {other:?}"),
    }
    assert!(nothing_pending(&panel));
}

#[test]
fn replacing_settings_keeps_startup_when_its_registration_fails() {
    let mut panel = panel();
    let imported = || Settings {
        apps: vec![app("x.exe", None)],
        start_with_windows: true,
        language: Language::TraditionalChinese,
    };
    assert!(panel.startup_changes(&imported()));
    assert!(panel.replace_settings(imported(), true));
    assert!(!panel.settings.start_with_windows);
    assert_eq!(panel.settings.language, Language::TraditionalChinese);
    assert_eq!(identities(&panel), vec!["x.exe"]);

    assert!(!panel.replace_settings(imported(), false));
    assert!(panel.settings.start_with_windows);
    assert!(!panel.startup_changes(&imported()));
}

#[test]
fn starting_with_windows_changes_only_when_registered() {
    let mut panel = panel();
    assert!(!panel.start_with_windows_toggled(true, false));
    assert!(!panel.settings.start_with_windows);
    assert!(panel.start_with_windows_toggled(true, true));
    assert!(panel.settings.start_with_windows);
}

#[test]
fn the_language_follows_its_list_position() {
    let mut panel = panel();
    assert_eq!(panel.language_selected(2), Language::TraditionalChinese);
    assert_eq!(panel.settings.language, Language::TraditionalChinese);
    assert_eq!(panel.language_selected(1), Language::English);
    assert_eq!(panel.language_selected(7), Language::System);
    assert_eq!(panel.settings.language, Language::System);
}

#[test]
fn picking_the_default_folder_means_the_default_location() {
    assert_eq!(chosen_location(DEFAULT_DIR.into(), DEFAULT_DIR).directory, None);
    assert_eq!(
        chosen_location(r"D:\Sync".into(), DEFAULT_DIR).directory.as_deref(),
        Some(r"D:\Sync")
    );
}

#[test]
fn relocating_commits_asks_or_moves() {
    let mut panel = panel();
    let same = panel.relocate(ConfigLocation::default(), DEFAULT_DIR, true);
    assert!(matches!(same, Relocation::Commit(location) if location.directory.is_none()));
    assert!(nothing_pending(&panel));

    let elsewhere = || ConfigLocation { directory: Some(r"D:\Sync".into()) };
    match panel.relocate(elsewhere(), DEFAULT_DIR, false) {
        Relocation::Move(location) => assert_eq!(location.directory.as_deref(), Some(r"D:\Sync")),
        other => panic!("unexpected {other:?}"),
    }
    assert!(nothing_pending(&panel));

    match panel.relocate(elsewhere(), DEFAULT_DIR, true) {
        Relocation::AskExisting(folder) => assert_eq!(folder, r"D:\Sync"),
        other => panic!("unexpected {other:?}"),
    }
    assert_eq!(panel.pending_location.as_ref().unwrap().directory.as_deref(), Some(r"D:\Sync"));
    assert_eq!(panel.prompt_alternate(Question::ConfirmImport).map(|l| l.directory), None);
    let overwrite = panel.prompt_alternate(Question::ConfigExists).unwrap();
    assert_eq!(overwrite.directory.as_deref(), Some(r"D:\Sync"));
    assert!(nothing_pending(&panel));

    panel.relocate(elsewhere(), DEFAULT_DIR, true);
    match panel.prompt_accepted(Question::ConfigExists) {
        Accepted::LoadFrom(location) => assert_eq!(location.directory.as_deref(), Some(r"D:\Sync")),
        other => panic!("unexpected {other:?}"),
    }
    assert!(nothing_pending(&panel));
}

#[test]
fn a_moved_or_loaded_folder_is_recorded_once_its_location_is_saved() {
    let mut panel = panel();
    let elsewhere = || ConfigLocation { directory: Some(r"D:\Sync".into()) };
    let moved = match panel.relocate(elsewhere(), DEFAULT_DIR, false) {
        Relocation::Move(location) => location,
        other => panic!("unexpected {other:?}"),
    };
    assert!(!panel.commit_location(elsewhere(), false));
    assert_eq!(panel.location.directory, None);
    assert!(panel.commit_location(moved, true));
    assert_eq!(panel.location.directory.as_deref(), Some(r"D:\Sync"));

    let back = match panel.relocate(ConfigLocation::default(), DEFAULT_DIR, true) {
        Relocation::AskExisting(folder) => {
            assert_eq!(folder, DEFAULT_DIR);
            match panel.prompt_accepted(Question::ConfigExists) {
                Accepted::LoadFrom(location) => location,
                other => panic!("unexpected {other:?}"),
            }
        }
        other => panic!("unexpected {other:?}"),
    };
    assert!(panel.commit_location(back, true));
    assert_eq!(panel.location.directory, None);
}

#[test]
fn relocating_decides_from_whether_the_files_are_the_same() {
    let mut panel = panel();
    let elsewhere = || ConfigLocation { directory: Some(r"D:\Sync".into()) };
    assert!(matches!(
        panel.relocate_decided(elsewhere(), DEFAULT_DIR, true, true),
        Relocation::Commit(_)
    ));
    assert!(nothing_pending(&panel));
    assert!(matches!(
        panel.relocate_decided(elsewhere(), DEFAULT_DIR, false, false),
        Relocation::Move(_)
    ));
    assert!(matches!(
        panel.relocate_decided(elsewhere(), DEFAULT_DIR, false, true),
        Relocation::AskExisting(_)
    ));
    assert!(panel.pending_location.is_some());
}

#[test]
fn the_location_for_a_picked_folder_follows_the_path_comparison() {
    assert_eq!(location_for(r"D:\Sync".into(), true).directory, None);
    assert_eq!(location_for(r"D:\Sync".into(), false).directory.as_deref(), Some(r"D:\Sync"));
}
