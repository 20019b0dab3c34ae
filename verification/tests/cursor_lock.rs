use window_warden::{CursorLock, LockStatus, LockTarget, ManagedApplication};

fn app(identity: &str, target: LockTarget, lock_cursor: bool) -> ManagedApplication {
    ManagedApplication {
        identity: identity.into(),
        target,
        name: Some(" Game ".into()),
        lock_cursor,
        mute_in_background: false,
    }
}

#[test]
fn the_lock_follows_the_foreground_application() {
    let apps = [app("game.exe", LockTarget::Monitor, true)];
    let mut lock = CursorLock::default();
    assert!(lock.foreground_changed(7));
    lock.select(7, Some(("game.exe", None)), &apps);
    assert!(!lock.foreground_changed(7));
    assert_eq!(lock.lock_target(), Some(LockTarget::Monitor));
    assert_eq!(lock.settle(true), (LockStatus::Locked("Game".into()), false));

    // Focus moves to another program: the clip set here is released.
    lock.select(9, Some(("chrome.exe", None)), &apps);
    assert_eq!(lock.lock_target(), None);
    assert_eq!(lock.settle(true), (LockStatus::Unlocked, true));
    assert_eq!(lock.settle(true), (LockStatus::Unlocked, false));
}

#[test]
fn a_failed_clip_unlocks() {
    let apps = [app("game.exe", LockTarget::Window, true)];
    let mut lock = CursorLock::default();
    lock.select(7, Some(("game.exe", None)), &apps);
    assert_eq!(lock.settle(true), (LockStatus::Locked("Game".into()), false));
    assert_eq!(lock.settle(false), (LockStatus::Unlocked, true));
}

#[test]
fn no_foreground_window_means_no_lock() {
    let apps = [app("game.exe", LockTarget::Window, true)];
    let mut lock = CursorLock::default();
    lock.select(0, Some(("game.exe", None)), &apps);
    assert_eq!(lock.lock_target(), None);
    lock.select(5, None, &apps);
    assert_eq!(lock.lock_target(), None);
}

#[test]
fn applications_without_cursor_lock_are_not_locked() {
    let apps = [
        app("game.exe", LockTarget::Monitor, false),
        app(r"C:\Games\game.exe", LockTarget::Window, true),
    ];
    let mut lock = CursorLock::default();
    // The first matching entry decides, and it does not lock the cursor.
    lock.select(3, Some(("game.exe", Some(r"C:\Games\game.exe"))), &apps);
    assert_eq!(lock.lock_target(), None);
    lock.select(4, Some(("game.exe", Some(r"D:\game.exe"))), &apps);
    assert_eq!(lock.lock_target(), None);

    let reversed = [apps[1].clone(), apps[0].clone()];
    lock.select(5, Some(("game.exe", Some(r"C:\Games\game.exe"))), &reversed);
    assert_eq!(lock.lock_target(), Some(LockTarget::Window));
    lock.select(6, Some(("game.exe", Some(r"D:\game.exe"))), &reversed);
    assert_eq!(lock.lock_target(), None);
}

#[test]
fn unlock_reports_only_a_clip_set_here() {
    let apps = [app("game.exe", LockTarget::Window, true)];
    let mut lock = CursorLock::default();
    assert!(!lock.unlock());
    lock.select(7, Some(("game.exe", None)), &apps);
    lock.settle(true);
    assert!(lock.unlock());
    assert!(!lock.unlock());
}

use window_warden::{same_rect, Rect};

#[test]
fn rectangles_are_the_same_only_when_every_side_is() {
    let a = Rect { left: 0, top: 10, right: 100, bottom: 200 };
    assert!(same_rect(a, a));
    assert!(!same_rect(a, Rect { bottom: 201, ..a }));
    assert!(!same_rect(a, Rect { left: -1, ..a }));
}

#[test]
fn a_clip_is_in_force_only_when_read_back_as_wanted() {
    let wanted = Rect { left: 0, top: 0, right: 800, bottom: 600 };
    assert!(window_warden::clip_in_force(Some(wanted), wanted));
    assert!(!window_warden::clip_in_force(Some(Rect { right: 801, ..wanted }), wanted));
    assert!(!window_warden::clip_in_force(None, wanted));
}

#[test]
fn owner_lists_compare_as_sets() {
    let a = vec!["game".to_string(), "music".to_string()];
    let b = vec!["music".to_string(), "game".to_string()];
    let c = vec!["game".to_string()];
    assert!(window_warden::collections::same_texts(&a, &b));
    assert!(!window_warden::collections::same_texts(&a, &c));
    assert!(!window_warden::collections::same_texts(&c, &a));
    assert!(window_warden::collections::same_texts(&Vec::new(), &Vec::new()));
}
