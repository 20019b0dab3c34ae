use window_warden::{prepare_entry, EntryProblem, Language, LockTarget, ManagedApplication};

fn existing() -> Vec<ManagedApplication> {
    vec![
        ManagedApplication {
            identity: r"C:\Games\game.exe".into(),
            target: LockTarget::Window,
            name: None,
            lock_cursor: true,
            mute_in_background: false,
        },
        ManagedApplication {
            identity: "music.exe".into(),
            target: LockTarget::Window,
            name: None,
            lock_cursor: false,
            mute_in_background: true,
        },
    ]
}

#[test]
fn an_entry_is_trimmed_and_unquoted() {
    let app = prepare_entry(
        &existing(),
        None,
        "  \"D:\\Tools\\tool.exe\"  ",
        "  Tool ",
        LockTarget::Monitor,
        true,
        true,
    )
    .unwrap();
    assert_eq!(app.identity, r"D:\Tools\tool.exe");
    assert_eq!(app.name.as_deref(), Some("Tool"));
    assert_eq!(app.target, LockTarget::Monitor);
    assert!(app.lock_cursor && app.mute_in_background);
}

#[test]
fn a_blank_name_is_no_name() {
    let app = prepare_entry(&[], None, "tool.exe", " \t ", LockTarget::Window, true, false).unwrap();
    assert_eq!(app.name, None);
}

#[test]
fn an_empty_identity_is_refused() {
    assert_eq!(
        prepare_entry(&[], None, "  \"\"  ", "x", LockTarget::Window, true, false).unwrap_err(),
        EntryProblem::IdentityEmpty
    );
    assert_eq!(
        prepare_entry(&existing(), None, "", "", LockTarget::Window, true, false).unwrap_err(),
        EntryProblem::IdentityEmpty
    );
}

#[test]
fn a_duplicate_identity_is_refused_unless_it_is_the_edited_row() {
    let apps = existing();
    assert_eq!(
        prepare_entry(&apps, None, "C:/games/GAME.EXE", "", LockTarget::Window, true, false)
            .unwrap_err(),
        EntryProblem::IdentityDuplicate
    );
    assert_eq!(
        prepare_entry(&apps, Some(1), "Music", "", LockTarget::Window, true, false).unwrap().identity,
        "Music"
    );
    assert_eq!(
        prepare_entry(&apps, Some(0), "music.exe", "", LockTarget::Window, true, false)
            .unwrap_err(),
        EntryProblem::IdentityDuplicate
    );
    // A name is not a duplicate of a path, and the other way round.
    assert!(prepare_entry(&apps, None, "game.exe", "", LockTarget::Window, true, false).is_ok());
}

#[test]
fn choices_map_to_positions_and_back() {
    for target in [LockTarget::Window, LockTarget::Monitor] {
        assert_eq!(LockTarget::from_index(target.index()), target);
    }
    assert_eq!(LockTarget::from_index(7), LockTarget::Window);
    for language in [Language::System, Language::English, Language::TraditionalChinese] {
        assert_eq!(Language::from_index(language.index()), language);
    }
    assert_eq!(Language::TraditionalChinese.index(), 2);
    assert_eq!(Language::from_index(-1), Language::System);
}
