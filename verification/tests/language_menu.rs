use glance::locale::{
    apple_languages_prefer_chinese, langid_is_chinese, locale_prefers_chinese,
    locale_tag_is_chinese, locale_variables,
};
use glance::menu::{menu_action, menu_model, MenuAction};

#[test]
fn apple_languages_first_entry_decides() {
    assert!(apple_languages_prefer_chinese("(\n    \"zh-Hans-CN\",\n    en,\n)\n"));
    assert!(!apple_languages_prefer_chinese("(\n    \"en-US\",\n    \"zh-Hans-CN\"\n)\n"));
    assert!(apple_languages_prefer_chinese("(\r\n    zh-Hant\r\n)"));
    assert!(!apple_languages_prefer_chinese(""));
    assert!(!apple_languages_prefer_chinese("(\n)\n"));
    assert!(!apple_languages_prefer_chinese("(\n    \"Zh-Hans\"\n)\n"));
}

#[test]
fn linux_locale_variables_in_order() {
    assert_eq!(locale_variables(), vec!["LC_ALL", "LC_MESSAGES", "LANG"]);
    let vals = vec![None, Some(String::new()), Some("ZH_CN.UTF-8".to_string())];
    assert!(locale_prefers_chinese(&vals));
    let vals = vec![Some("en_US.UTF-8".to_string()), Some("zh_CN".to_string())];
    assert!(!locale_prefers_chinese(&vals));
    assert!(!locale_prefers_chinese(&vec![]));
    assert!(!locale_prefers_chinese(&vec![None, None, None]));
}

#[test]
fn locale_tags() {
    assert!(locale_tag_is_chinese("zh-hans"));
    assert!(locale_tag_is_chinese("zh"));
    assert!(!locale_tag_is_chinese("z"));
    assert!(!locale_tag_is_chinese("en-zh"));
}

#[test]
fn windows_language_ids() {
    assert!(langid_is_chinese(0x0804));
    assert!(langid_is_chinese(0x0404));
    assert!(langid_is_chinese(0x0004));
    assert!(!langid_is_chinese(0x0409));
    assert!(!langid_is_chinese(0x0411));
}

#[test]
fn menu_labels_follow_the_language() {
    let m = menu_model(true, Some(true));
    assert_eq!(m.autostart_label, "开机启动");
    assert_eq!(m.quit_label, "退出");
    assert!(m.autostart_checked);
    let m = menu_model(false, None);
    assert_eq!(m.autostart_label, "Launch at Login");
    assert_eq!(m.quit_label, "Quit");
    assert!(!m.autostart_checked);
    assert!(!menu_model(false, Some(false)).autostart_checked);
}

#[test]
fn autostart_item_toggles() {
    assert_eq!(menu_action("autostart", Some(true)), MenuAction::DisableAutostart);
    assert_eq!(menu_action("autostart", Some(false)), MenuAction::EnableAutostart);
    assert_eq!(menu_action("autostart", None), MenuAction::EnableAutostart);
    assert_eq!(menu_action("quit", Some(true)), MenuAction::Nothing);
    assert_eq!(menu_action("autostart2", Some(true)), MenuAction::Nothing);
}
