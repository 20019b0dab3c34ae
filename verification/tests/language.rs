use window_warden::Language;

#[test]
fn language_selects_bundled_translation() {
    assert_eq!(Language::English.translation(Some("zh-TW")), "");
    assert_eq!(
        Language::TraditionalChinese.translation(Some("en-US")),
        "zh-TW"
    );
    assert_eq!(Language::System.translation(Some("zh-TW")), "zh-TW");
    assert_eq!(Language::System.translation(Some("zh-HK")), "zh-TW");
    assert_eq!(Language::System.translation(Some("en-US")), "");
    assert_eq!(Language::System.translation(None), "");
}

#[test]
fn system_language_matches_the_language_part_of_any_form() {
    assert_eq!(Language::System.translation(Some("zh")), "zh-TW");
    assert_eq!(Language::System.translation(Some("zh_CN")), "zh-TW");
    assert_eq!(Language::System.translation(Some("zh@stroke")), "zh-TW");
    assert_eq!(Language::System.translation(Some("zhx-TW")), "");
    assert_eq!(Language::System.translation(Some("")), "");
    assert_eq!(Language::System.translation(Some("ZH-TW")), "");
}

#[test]
fn the_default_language_follows_the_system() {
    assert_eq!(Language::default(), Language::System);
}
