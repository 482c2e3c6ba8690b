use dsh_desktop::i18n::{detect_zh, locale_is_zh, tr, ui_is_zh};

#[test]
fn locale_detection_is_case_insensitive() {
    assert!(locale_is_zh("zh_CN.UTF-8"));
    assert!(locale_is_zh("ZH-tw"));
    assert!(locale_is_zh("zH"));
    assert!(!locale_is_zh("en_US.UTF-8"));
    assert!(!locale_is_zh("z"));
    assert!(!locale_is_zh(""));
    assert!(!locale_is_zh("C.UTF-8"));
}

#[test]
fn any_locale_variable_may_name_chinese() {
    assert!(detect_zh(&vec!["en_US".to_string(), "zh_CN".to_string()]));
    assert!(!detect_zh(&vec!["en_US".to_string(), "fr_FR".to_string()]));
    assert!(!detect_zh(&vec![]));
}

#[test]
fn frontend_choice_wins_over_environment() {
    let env = vec!["zh_CN.UTF-8".to_string()];
    assert!(!ui_is_zh(Some(false), &env));
    assert!(ui_is_zh(Some(true), &vec![]));
    assert!(ui_is_zh(None, &env));
    assert!(!ui_is_zh(None, &vec!["en".to_string()]));
}

#[test]
fn tr_picks_language() {
    assert_eq!(tr(false, "Quit", "退出"), "Quit");
    assert_eq!(tr(true, "Quit", "退出"), "退出");
}
