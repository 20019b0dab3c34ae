use window_warden::{LockTarget, ManagedApplication};

fn app(identity: &str, name: Option<&str>) -> ManagedApplication {
    ManagedApplication {
        identity: identity.into(),
        target: LockTarget::Window,
        name: name.map(|name| name.to_string()),
        lock_cursor: true,
        mute_in_background: false,
    }
}

#[test]
fn one_identity_matches_path_or_process_name() {
    let by_path = ManagedApplication {
        identity: r"C:\Games\ZZZ\zzz.exe".into(),
        target: LockTarget::Window,
        name: None,
        lock_cursor: true,
        mute_in_background: false,
    };
    let by_name = ManagedApplication {
        identity: "ZZZ.EXE".into(),
        target: LockTarget::Window,
        name: None,
        lock_cursor: true,
        mute_in_background: false,
    };

    assert!(by_path.matches("zzz.exe", Some(r"c:\games\zzz\ZZZ.EXE")));
    assert!(by_path.matches("zzz.exe", None));
    assert!(by_name.matches("zzz", Some(r"D:\Other\zzz.exe")));
    assert!(!by_path.matches("zzz.exe", Some(r"D:\Other\zzz.exe")));
    assert!(by_name.same_identity("zzz"));
    assert!(ManagedApplication {
        identity: "ŻÓŁĆ.EXE".into(),
        target: LockTarget::Window,
        name: None,
        lock_cursor: true,
        mute_in_background: false,
    }
    .matches("żółć", None));
}

#[test]
fn display_name_falls_back_to_identity() {
    let mut app = ManagedApplication {
        identity: r"C:\Games\zzz.exe".into(),
        target: LockTarget::default(),
        name: None,
        lock_cursor: true,
        mute_in_background: false,
    };
    assert_eq!(app.display_name(), r"C:\Games\zzz.exe");

    app.name = Some("  ".into());
    assert_eq!(app.display_name(), r"C:\Games\zzz.exe");

    app.name = Some(" ZZZ ".into());
    assert_eq!(app.display_name(), "ZZZ");
}

#[test]
fn display_name_trims_unicode_white_space() {
    let app = app("game.exe", Some("\u{3000}\tGame\u{a0}\n"));
    assert_eq!(app.display_name(), "Game");
    let blank = app_with_name("\u{2003}\u{85}");
    assert_eq!(blank.display_name(), "game.exe");
}

fn app_with_name(name: &str) -> ManagedApplication {
    app("game.exe", Some(name))
}

#[test]
fn forward_slashes_and_case_do_not_matter_in_paths() {
    let app = app(" C:/Games/ZZZ/ZZZ.exe ", None);
    assert!(app.matches("other.exe", Some(r"c:\games\zzz\zzz.EXE")));
    assert!(!app.matches("zzz.exe", Some(r"c:\games\zzz\zzz.exe.bak")));
}

#[test]
fn a_name_matches_the_last_path_component_without_exe() {
    let app = app("Game", None);
    assert!(app.matches(r"C:\Games\GAME.EXE", None));
    assert!(app.matches("game.exe", Some(r"D:\Anywhere\game.exe")));
    assert!(!app.matches("game.exe.old", None));
    assert!(!app.matches("gamex", None));
}

#[test]
fn a_path_identity_falls_back_to_the_name_without_a_path() {
    let app = app(r"C:\Games\game.exe", None);
    assert!(app.matches("GAME", None));
    assert!(!app.matches("other", None));
}

#[test]
fn a_colon_makes_an_identity_a_path() {
    let app = app("C:game.exe", None);
    assert!(app.matches("x", Some("c:GAME.exe")));
    assert!(!app.matches("game.exe", Some(r"C:\game.exe")));
}

#[test]
fn same_identity_compares_like_with_like() {
    let by_path = app(r"C:\Games\game.exe", None);
    let by_name = app("Game.exe", None);
    assert!(by_path.same_identity("c:/games/GAME.EXE"));
    assert!(!by_path.same_identity("game.exe"));
    assert!(by_name.same_identity(" game "));
    assert!(!by_name.same_identity(r"C:\Games\game.exe"));
}

#[test]
fn same_identity_is_symmetric() {
    let pairs = [
        ("game.exe", "GAME"),
        (r"C:\a\b.exe", "c:/A/B.EXE"),
        ("game.exe", r"C:\game.exe"),
        ("one", "two"),
    ];
    for (a, b) in pairs {
        assert_eq!(app(a, None).same_identity(b), app(b, None).same_identity(a));
    }
}

#[test]
fn clone_keeps_every_field() {
    let source = ManagedApplication {
        identity: "game.exe".into(),
        target: LockTarget::Monitor,
        name: Some("Game".into()),
        lock_cursor: false,
        mute_in_background: true,
    };
    let copy = source.clone();
    assert_eq!(copy.identity, "game.exe");
    assert_eq!(copy.target, LockTarget::Monitor);
    assert_eq!(copy.name.as_deref(), Some("Game"));
    assert!(!copy.lock_cursor);
    assert!(copy.mute_in_background);
}
