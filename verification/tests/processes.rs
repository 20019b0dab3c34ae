use window_warden::{offers_window, wide, wide_array_to_string, ProcessChoice, ProcessIdentity};

#[test]
fn a_choice_is_identified_by_its_path_when_known() {
    let with_path = ProcessChoice::new(
        "Game".into(),
        ProcessIdentity {
            name: "game.exe".into(),
            path: Some(r"C:\Games\game.exe".into()),
        },
    );
    assert_eq!(with_path.identity(), r"C:\Games\game.exe");
    assert_eq!(with_path.label(), "Game — C:\\Games\\game.exe");

    let by_name = ProcessChoice::new(
        "Notes".into(),
        ProcessIdentity {
            name: "notes.exe".into(),
            path: None,
        },
    );
    assert_eq!(by_name.identity(), "notes.exe");
    assert_eq!(by_name.clone().label(), "Notes — notes.exe");
}

#[test]
fn wide_text_is_utf16_with_a_terminating_zero() {
    assert_eq!(wide("ab"), vec![0x61, 0x62, 0]);
    assert_eq!(wide(""), vec![0]);
    assert_eq!(wide("é😀"), vec![0xe9, 0xd83d, 0xde00, 0]);
    assert_eq!(wide("Local\\X"), "Local\\X".encode_utf16().chain(Some(0)).collect::<Vec<u16>>());
}

#[test]
fn a_wide_buffer_reads_up_to_its_first_zero() {
    assert_eq!(wide_array_to_string(&[0x67, 0x61, 0x6d, 0x65, 0, 0x78]), "game");
    assert_eq!(wide_array_to_string(&[0x61, 0x62]), "ab");
    assert_eq!(wide_array_to_string(&[0, 0x61]), "");
    assert_eq!(wide_array_to_string(&[0xd83d, 0xde00, 0]), "😀");
    assert_eq!(wide_array_to_string(&[0xd83d, 0x61, 0]), "\u{fffd}a");
}

#[test]
fn wide_round_trips_through_a_buffer() {
    for text in ["window-warden.exe", "żółć", "🎮 game"] {
        assert_eq!(wide_array_to_string(&wide(text)), text);
    }
}

use window_warden::arrange_choices;

fn choice(title: &str, name: &str, path: Option<&str>) -> ProcessChoice {
    ProcessChoice::new(
        title.into(),
        ProcessIdentity {
            name: name.into(),
            path: path.map(|path| path.to_string()),
        },
    )
}

#[test]
fn a_window_without_text_is_titled_by_its_process() {
    let untitled = choice("", "game.exe", None);
    assert_eq!(untitled.label(), "game.exe — game.exe");
}

#[test]
fn running_applications_are_listed_once_in_label_order() {
    let arranged = arrange_choices(vec![
        choice("Zeta", "zeta.exe", Some(r"C:\Apps\zeta.exe")),
        choice("alpha", "alpha.exe", Some(r"C:\Apps\Alpha.exe")),
        choice("Alpha two", "alpha.exe", Some(r"c:\apps\alpha.EXE")),
        choice("Beta", "beta.exe", None),
    ]);
    let labels: Vec<String> = arranged.iter().map(|choice| choice.label()).collect();
    assert_eq!(
        labels,
        vec![
            r"alpha — C:\Apps\Alpha.exe".to_string(),
            "Beta — beta.exe".to_string(),
            r"Zeta — C:\Apps\zeta.exe".to_string(),
        ]
    );
}

#[test]
fn case_variants_of_one_identity_are_listed_once() {
    let arranged = arrange_choices(vec![
        choice("Same", "b.exe", None),
        choice("Same", "a.exe", None),
        choice("Same", "B.EXE", None),
    ]);
    let identities: Vec<String> = arranged.iter().map(|choice| choice.identity()).collect();
    assert_eq!(identities, vec!["a.exe".to_string(), "b.exe".to_string()]);
    assert!(arrange_choices(Vec::new()).is_empty());
}

#[test]
fn choices_equal_without_regard_to_case_keep_their_order() {
    let upper_first = arrange_choices(vec![choice("T", "\u{c9}.exe", None), choice("t", "\u{e9}.exe", None)]);
    let identities: Vec<String> = upper_first.iter().map(|choice| choice.identity()).collect();
    assert_eq!(identities, vec!["\u{c9}.exe".to_string(), "\u{e9}.exe".to_string()]);

    let lower_first = arrange_choices(vec![choice("t", "\u{e9}.exe", None), choice("T", "\u{c9}.exe", None)]);
    let identities: Vec<String> = lower_first.iter().map(|choice| choice.identity()).collect();
    assert_eq!(identities, vec!["\u{e9}.exe".to_string(), "\u{c9}.exe".to_string()]);
}

#[test]
fn unpaired_surrogates_read_as_replacement_characters() {
    assert_eq!(
        wide_array_to_string(&[0xdc00, 0xd800, 0xd83d, 0xde00, 0x41]),
        "\u{fffd}\u{fffd}😀A"
    );
    assert_eq!(wide_array_to_string(&[0x41, 0xd83d]), "A\u{fffd}");
}

#[test]
fn only_visible_windows_of_other_processes_are_offered() {
    assert!(offers_window(true, 42, 7));
    assert!(!offers_window(false, 42, 7));
    assert!(!offers_window(true, 0, 7));
    assert!(!offers_window(true, 7, 7));
}

#[test]
fn the_offered_list_names_each_identity_once_ignoring_ascii_case() {
    let choice = |title: &str, name: &str| {
        ProcessChoice::new(title.into(), ProcessIdentity { name: name.into(), path: None })
    };
    let arranged = window_warden::arrange_choices(vec![
        choice("Zed", "zed.exe"),
        choice("Alpha", "ALPHA.EXE"),
        choice("alpha two", "alpha.exe"),
        choice("Zed again", "Zed.exe"),
        choice("Mid", "mid.exe"),
    ]);
    let identities: Vec<String> = arranged.iter().map(|c| c.identity()).collect();
    assert_eq!(identities.len(), 3);
    for (i, a) in identities.iter().enumerate() {
        for b in &identities[i + 1..] {
            assert!(!a.eq_ignore_ascii_case(b));
        }
    }
    for found in ["zed.exe", "alpha.exe", "mid.exe"] {
        assert!(identities.iter().any(|id| id.eq_ignore_ascii_case(found)));
    }
}
