use std::collections::BTreeSet;
use window_warden::{AudioSession, BackgroundMute, LockTarget, ManagedApplication, MuteActions};

fn managed(identity: &str, mute: bool) -> ManagedApplication {
    ManagedApplication {
        identity: identity.into(),
        target: LockTarget::Window,
        name: None,
        lock_cursor: true,
        mute_in_background: mute,
    }
}

fn session(key: &str, exe: &str, muted: bool) -> AudioSession {
    AudioSession {
        key: key.into(),
        process_name: exe.into(),
        process_path: None,
        muted,
    }
}

fn keys(values: &[&str]) -> Vec<String> {
    values.iter().map(|value| value.to_string()).collect()
}

fn owner_set(mute: &BackgroundMute) -> BTreeSet<String> {
    mute.owners().into_iter().collect()
}

fn pending(owners: &[&str]) -> BackgroundMute {
    let owners: BTreeSet<String> = owners.iter().map(|owner| owner.to_string()).collect();
    BackgroundMute::with_pending(owners.into_iter().collect())
}

const CHROME: Option<(&str, Option<&str>)> = Some(("chrome.exe", None));
const GAME: Option<(&str, Option<&str>)> = Some(("game.exe", None));

#[test]
fn background_mute_follows_the_foreground() {
    let apps = [managed("game.exe", true)];
    let mut mute = BackgroundMute::default();

    let actions = mute.plan(&apps, CHROME, &[session("s1", "game.exe", false)]);
    assert_eq!(actions.mute, keys(&["s1"]));

    let actions = mute.plan(&apps, GAME, &[session("s1", "game.exe", true)]);
    assert_eq!(actions.unmute, keys(&["s1"]));
    assert!(owner_set(&mute).is_empty());
}

#[test]
fn background_mute_leaves_a_user_mute_alone() {
    let apps = [managed("game.exe", true)];
    let mut mute = BackgroundMute::default();

    let muted = [session("s1", "game.exe", true)];
    assert_eq!(mute.plan(&apps, CHROME, &muted), MuteActions::default());
    assert_eq!(mute.plan(&apps, GAME, &muted), MuteActions::default());
}

#[test]
fn background_mute_respects_a_manual_unmute_until_the_next_switch() {
    let apps = [managed("game.exe", true)];
    let mut mute = BackgroundMute::default();
    let unmuted = [session("s1", "game.exe", false)];
    mute.plan(&apps, CHROME, &unmuted);

    // The user unmutes the game in the volume mixer while it is in the background.
    assert_eq!(mute.plan(&apps, CHROME, &unmuted), MuteActions::default());
    assert_eq!(mute.plan(&apps, GAME, &unmuted), MuteActions::default());

    let actions = mute.plan(&apps, CHROME, &unmuted);
    assert_eq!(actions.mute, keys(&["s1"]));
}

#[test]
fn background_mute_restores_a_program_closed_while_muted() {
    let apps = [managed("game.exe", true)];
    let mut mute = BackgroundMute::default();
    mute.plan(&apps, CHROME, &[session("s1", "game.exe", false)]);

    mute.plan(&apps, CHROME, &[]);
    assert_eq!(owner_set(&mute), BTreeSet::from(["game".to_string()]));

    // Windows hands the saved mute to the program's next session.
    let actions = mute.plan(&apps, GAME, &[session("s2", "game.exe", true)]);
    assert_eq!(actions.unmute, keys(&["s2"]));
    assert!(owner_set(&mute).is_empty());
}

#[test]
fn background_mute_recovers_after_a_crash() {
    let apps = [managed("game.exe", true)];
    let muted = [session("s1", "game.exe", true)];

    let mut restored = pending(&["game"]);
    assert_eq!(restored.plan(&apps, GAME, &muted).unmute, keys(&["s1"]));

    let mut adopted = pending(&["game"]);
    assert_eq!(adopted.plan(&apps, CHROME, &muted), MuteActions::default());
    assert_eq!(adopted.plan(&apps, GAME, &muted).unmute, keys(&["s1"]));
}

#[test]
fn background_mute_restores_sound_when_turned_off() {
    let mut mute = BackgroundMute::default();
    mute.plan(
        &[managed("game.exe", true)],
        CHROME,
        &[session("s1", "game.exe", false)],
    );

    let actions = mute.plan(
        &[managed("game.exe", false)],
        CHROME,
        &[session("s1", "game.exe", true)],
    );
    assert_eq!(actions.unmute, keys(&["s1"]));
}

#[test]
fn releasing_background_mute_keeps_closed_programs_for_later() {
    let apps = [managed("game.exe", true), managed("music.exe", true)];
    let mut mute = BackgroundMute::default();
    mute.plan(
        &apps,
        CHROME,
        &[
            session("s1", "game.exe", false),
            session("s2", "music.exe", false),
        ],
    );

    let actions = mute.release_all(&[session("s1", "game.exe", true)]);
    assert_eq!(actions.unmute, keys(&["s1"]));
    assert_eq!(owner_set(&mute), BTreeSet::from(["music".to_string()]));
}

#[test]
fn a_new_background_mute_is_idle() {
    let mute = BackgroundMute::default();
    assert!(mute.is_idle());
    assert!(mute.owners().is_empty());
}

#[test]
fn idle_exactly_without_owners() {
    let apps = [managed("game.exe", true)];
    let mut mute = BackgroundMute::default();
    mute.plan(&apps, CHROME, &[session("s1", "game.exe", false)]);
    assert!(!mute.is_idle());
    assert!(!mute.owners().is_empty());
    mute.plan(&apps, GAME, &[session("s1", "game.exe", true)]);
    assert!(mute.is_idle());
    assert!(mute.owners().is_empty());
    let waiting = pending(&["game"]);
    assert!(!waiting.is_idle());
}

#[test]
fn with_pending_owners_round_trip_each_once() {
    let mute = BackgroundMute::with_pending(keys(&["game", "music", "game"]));
    let owners = mute.owners();
    assert_eq!(owners.len(), 2);
    assert_eq!(
        owners.into_iter().collect::<BTreeSet<_>>(),
        BTreeSet::from(["game".to_string(), "music".to_string()])
    );
}

#[test]
fn the_foreground_application_is_never_muted() {
    let apps = [managed("game.exe", true)];
    let mut mute = BackgroundMute::default();
    let actions = mute.plan(&apps, GAME, &[session("s1", "game.exe", false)]);
    assert_eq!(actions, MuteActions::default());
    assert!(mute.is_idle());
}

#[test]
fn only_applications_that_mute_in_the_background_are_muted() {
    let apps = [managed("game.exe", false), managed("music.exe", true)];
    let mut mute = BackgroundMute::default();
    let actions = mute.plan(
        &apps,
        None,
        &[
            session("s1", "game.exe", false),
            session("s2", "music.exe", false),
            session("s3", "other.exe", false),
        ],
    );
    assert_eq!(actions.mute, keys(&["s2"]));
    assert!(actions.unmute.is_empty());
}

#[test]
fn sessions_are_owned_by_their_executable_path_when_known() {
    let with_path = AudioSession {
        key: "s1".into(),
        process_name: "game.exe".into(),
        process_path: Some(" C:/Games/GAME.exe".into()),
        muted: false,
    };
    assert_eq!(with_path.owner(), r"c:\games\game.exe");
    assert_eq!(session("s2", r"D:\Apps\Music.EXE", false).owner(), "music");
}

#[test]
fn a_path_owned_session_follows_a_path_identity() {
    let apps = [managed(r"C:\Games\game.exe", true)];
    let s1 = AudioSession {
        key: "s1".into(),
        process_name: "game.exe".into(),
        process_path: Some(r"c:\games\GAME.EXE".into()),
        muted: false,
    };
    let mut mute = BackgroundMute::default();
    assert_eq!(mute.plan(&apps, CHROME, &[s1.clone()]).mute, keys(&["s1"]));
    assert_eq!(owner_set(&mute), BTreeSet::from([r"c:\games\game.exe".to_string()]));
    let mut muted = s1.clone();
    muted.muted = true;
    let in_front = Some(("game.exe", Some(r"C:\Games\game.exe")));
    assert_eq!(mute.plan(&apps, in_front, &[muted]).unmute, keys(&["s1"]));
}

#[test]
fn release_all_restores_and_forgets_everything_live() {
    let apps = [managed("game.exe", true)];
    let mut mute = BackgroundMute::default();
    mute.plan(&apps, CHROME, &[session("s1", "game.exe", false)]);
    let actions = mute.release_all(&[session("s1", "game.exe", true)]);
    assert_eq!(actions.unmute, keys(&["s1"]));
    assert!(actions.mute.is_empty());
    assert!(mute.is_idle());
}

#[test]
fn release_all_leaves_a_user_mute_alone() {
    let mut mute = BackgroundMute::default();
    let actions = mute.release_all(&[session("s1", "game.exe", true)]);
    assert_eq!(actions, MuteActions::default());
}

#[test]
fn release_all_forgets_a_manual_unmute() {
    let apps = [managed("game.exe", true)];
    let unmuted = [session("s1", "game.exe", false)];
    let mut mute = BackgroundMute::default();
    mute.plan(&apps, CHROME, &unmuted);
    mute.plan(&apps, CHROME, &unmuted);
    mute.release_all(&unmuted);
    // With the override gone the next background pass mutes again.
    assert_eq!(mute.plan(&apps, CHROME, &unmuted).mute, keys(&["s1"]));
}

#[test]
fn requested_mute_prefers_muting() {
    let actions = MuteActions {
        mute: keys(&["s1", "s3"]),
        unmute: keys(&["s2", "s3"]),
    };
    assert_eq!(actions.requested(&"s1".to_string()), Some(true));
    assert_eq!(actions.requested(&"s2".to_string()), Some(false));
    assert_eq!(actions.requested(&"s3".to_string()), Some(true));
    assert_eq!(actions.requested(&"s4".to_string()), None);
}

#[test]
fn an_owner_ignores_ascii_case_slashes_key_and_mute() {
    assert_eq!(
        session("a", "GAME.exe", true).owner(),
        session("b", "game.EXE", false).owner()
    );
    let with_path = |key: &str, path: &str, muted: bool| AudioSession {
        key: key.into(),
        process_name: "other.exe".into(),
        process_path: Some(path.into()),
        muted,
    };
    assert_eq!(
        with_path("a", "C:/Games/Game.exe", true).owner(),
        with_path("b", r"c:\GAMES\game.EXE", false).owner()
    );
    assert_eq!(with_path("a", " C:/Games/Game.exe ", true).owner(), r"c:\games\game.exe");
}

#[test]
fn a_plan_lists_each_session_once_and_release_settles_every_owner() {
    let apps = vec![managed("game.exe", true), managed("music.exe", true)];
    let sessions = vec![
        session("g1", "game.exe", false),
        session("g2", "game.exe", true),
        session("m1", "music.exe", false),
    ];
    let mut mute = BackgroundMute::default();
    let actions = mute.plan(&apps, Some(("editor.exe", None)), &sessions);
    assert_eq!(actions.mute, keys(&["g1", "m1"]));
    assert!(actions.unmute.is_empty());
    assert_eq!(owner_set(&mute), BTreeSet::from(["game".to_string(), "music".to_string()]));

    let released = mute.release_all(&[
        session("g1", "game.exe", true),
        session("m1", "music.exe", true),
        session("x", "other.exe", true),
    ]);
    assert!(released.mute.is_empty());
    assert_eq!(released.unmute, keys(&["g1", "m1"]));
    assert!(owner_set(&mute).is_empty());
    assert!(mute.is_idle());
}

#[test]
fn owners_come_each_once_in_increasing_order() {
    let mut mute = BackgroundMute::with_pending(keys(&["zeta", "alpha", "zeta"]));
    assert_eq!(mute.owners(), keys(&["alpha", "zeta"]));
    let apps = vec![managed("music.exe", true)];
    mute.plan(&apps, None, &[session("m", "music.exe", false)]);
    assert_eq!(mute.owners(), keys(&["alpha", "music", "zeta"]));
}
