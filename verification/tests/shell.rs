use window_warden::shell::{
    light_taskbar, registry_outcome, small_tray_icon, TrayKeeper, STATUS_FILE_NOT_FOUND,
    STATUS_SUCCESS,
};

#[test]
fn deleting_a_missing_registry_value_succeeds() {
    assert_eq!(registry_outcome(STATUS_SUCCESS, false), Ok(()));
    assert_eq!(registry_outcome(STATUS_SUCCESS, true), Ok(()));
    assert_eq!(registry_outcome(STATUS_FILE_NOT_FOUND, true), Ok(()));
    assert_eq!(registry_outcome(STATUS_FILE_NOT_FOUND, false), Err(2));
    assert_eq!(registry_outcome(5, true), Err(5));
}

#[test]
fn the_taskbar_is_dark_unless_the_theme_value_says_light() {
    assert!(light_taskbar(Some(1)));
    assert!(!light_taskbar(Some(0)));
    assert!(!light_taskbar(None));
    assert!(small_tray_icon(16));
    assert!(!small_tray_icon(20));
}

#[test]
fn the_tray_is_created_once_the_taskbar_exists_and_follows_its_theme() {
    let mut keeper = TrayKeeper::new();
    assert!(!keeper.should_create(false));
    assert!(!keeper.theme_checked(true));
    assert!(keeper.should_create(true));
    keeper.tray_created(false);
    assert!(!keeper.should_create(true));
    assert!(!keeper.theme_checked(false));
    assert!(keeper.theme_checked(true));
    assert!(keeper.light);
    assert!(!keeper.theme_checked(true));
}
