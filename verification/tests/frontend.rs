use blp1::error::BlpError;
use blp1::input::{
    all_visible, any_visible, hotkey_in_events, platform_cmd_shortcut, poll_step,
    push_front_unique, take_cmdv_event, FilePickInput, KeyEvent, PollAction, PollError,
    WorkerAnswer,
};
use blp1::lang::{
    contains, has_traditional_region, lang_of_locale, lang_of_lowercase, range_is, subtag_end,
    LngList, LngPrefs,
};
use blp1::pathfold::{
    fold_home, fold_var, fold_windows, longest_prefix, to_backslashes, windows_prefix,
};
use blp1::save::{
    default_names, ensure_ext, has_ext, preview_save_path, trim_dot, SavePreview,
};
use blp1::text::{
    ascii_lower, has_prefix_boundary, trim_trailing_bslash, trim_trailing_slash, trimmed_len,
};

#[test]
fn trailing_slashes_are_trimmed_but_the_root_stays() {
    assert_eq!(trim_trailing_slash("/home/me///".to_string()), "/home/me");
    assert_eq!(trim_trailing_slash("/home/me".to_string()), "/home/me");
    assert_eq!(trim_trailing_slash("/".to_string()), "/");
    assert_eq!(trim_trailing_slash("///".to_string()), "/");
    assert_eq!(trim_trailing_slash("".to_string()), "");
    assert_eq!(trim_trailing_slash("é/".to_string()), "é");
    assert_eq!(trimmed_len("abc//", '/', 1), 3);
    assert_eq!(trimmed_len("//", '/', 0), 0);
}

#[test]
fn trailing_backslashes_are_trimmed_but_roots_stay() {
    assert_eq!(trim_trailing_bslash("C:\\Users\\me\\".to_string()), "C:\\Users\\me");
    assert_eq!(trim_trailing_bslash("C:\\Users\\me\\\\".to_string()), "C:\\Users\\me");
    assert_eq!(trim_trailing_bslash("C:\\".to_string()), "C:\\");
    assert_eq!(trim_trailing_bslash("é:\\".to_string()), "é:");
    assert_eq!(trim_trailing_bslash("\\\\".to_string()), "\\\\");
    assert_eq!(trim_trailing_bslash("\\\\server\\".to_string()), "\\\\server");
    assert_eq!(trim_trailing_bslash("\\\\\\".to_string()), "");
    assert_eq!(trim_trailing_bslash("\\".to_string()), "");
    assert_eq!(trim_trailing_bslash("plain".to_string()), "plain");
    assert_eq!(trim_trailing_bslash("".to_string()), "");
}

#[test]
fn prefixes_match_on_segment_boundaries() {
    assert!(has_prefix_boundary("/home/me/file", "/home/me", false));
    assert!(has_prefix_boundary("/home/me", "/home/me", false));
    assert!(!has_prefix_boundary("/home/meme", "/home/me", false));
    assert!(!has_prefix_boundary("/home", "/home/me", false));
    assert!(!has_prefix_boundary("/Home/me/x", "/home/me", false));
    assert!(has_prefix_boundary("/Home/ME/x", "/home/me", true));
    assert!(has_prefix_boundary("C:\\Users\\Me\\x", "c:\\users\\me", true));
    assert!(has_prefix_boundary("anything", "", false) == false);
    assert!(has_prefix_boundary("/x", "", false));
    assert!(has_prefix_boundary("", "", true));
    assert!(has_prefix_boundary("/дом/я/x", "/дом/я", false));
    assert!(!has_prefix_boundary("/дом/Я/x", "/дом/я", true));
    assert_eq!(ascii_lower('A'), 'a' as u32);
    assert_eq!(ascii_lower('z'), 'z' as u32);
    assert_eq!(ascii_lower('Я'), 'Я' as u32);
}

#[test]
fn home_is_folded_to_a_tilde() {
    assert_eq!(fold_home("/home/me/pics/a.blp", "/home/me"), "~/pics/a.blp");
    assert_eq!(fold_home("/home/me/pics/a.blp", "/home/me/"), "~/pics/a.blp");
    assert_eq!(fold_home("/home/me", "/home/me"), "~");
    assert_eq!(fold_home("/home/meme/a", "/home/me"), "/home/meme/a");
    assert_eq!(fold_home("/etc/passwd", "/home/me"), "/etc/passwd");
    assert_eq!(fold_home("/etc/passwd", "/"), "/etc/passwd");
    assert_eq!(fold_home("/", "/"), "~");
}

#[test]
fn windows_folders_are_folded_to_variables() {
    assert_eq!(to_backslashes("C:/Users/me/"), "C:\\Users\\me\\");
    assert_eq!(windows_prefix("C:/Users/me/"), "C:\\Users\\me");
    assert_eq!(windows_prefix("C:/"), "C:\\");
    let names = vec!["USERPROFILE".to_string(), "HOME".to_string(), "OneDrive".to_string()];
    let prefs = vec![
        "C:\\Users\\me".to_string(),
        "C:\\Users\\me".to_string(),
        "C:\\Users\\me\\OneDrive".to_string(),
    ];
    assert_eq!(longest_prefix("C:\\Users\\me\\a.blp", &prefs), Some(0));
    assert_eq!(longest_prefix("c:\\users\\ME\\onedrive\\a.blp", &prefs), Some(2));
    assert_eq!(longest_prefix("D:\\a.blp", &prefs), None);
    assert_eq!(longest_prefix("D:\\a.blp", &Vec::new()), None);
    assert_eq!(
        fold_windows("C:\\Users\\me\\a.blp", &names, &prefs),
        "%USERPROFILE%\\a.blp"
    );
    assert_eq!(
        fold_windows("C:\\Users\\me\\OneDrive\\a.blp", &names, &prefs),
        "%OneDrive%\\a.blp"
    );
    assert_eq!(fold_windows("D:\\a.blp", &names, &prefs), "D:\\a.blp");
    assert_eq!(fold_var("C:\\x\\y", "X", 4), "%X%\\y");
}

#[test]
fn extensions_are_added_once() {
    assert_eq!(trim_dot(".png"), "png");
    assert_eq!(trim_dot("png"), "png");
    assert_eq!(trim_dot("..png"), ".png");
    assert_eq!(trim_dot(""), "");
    assert_eq!(ensure_ext("picture", "png"), "picture.png");
    assert_eq!(ensure_ext("picture", ".png"), "picture.png");
    assert_eq!(ensure_ext("picture.png", ".png"), "picture.png");
    assert_eq!(ensure_ext("picture.PNG", "png"), "picture.PNG");
    assert_eq!(ensure_ext("picture.blp", "png"), "picture.blp.png");
    assert_eq!(ensure_ext("png", "png"), "png");
    assert_eq!(ensure_ext("a.b.png", "png"), "a.b.png");
    assert_eq!(ensure_ext("picture.", "png"), "picture..png");
    assert_eq!(ensure_ext("", "png"), ".png");
    assert!(has_ext("a.blp", "BLP"));
    assert!(!has_ext("a.blp", "bl"));
    assert!(has_ext("a.", ""));
}

#[test]
fn default_names_follow_the_source() {
    assert_eq!(
        default_names(true, Some("hero")),
        ("hero.blp".to_string(), "hero.png".to_string())
    );
    assert_eq!(
        default_names(true, None),
        ("texture.blp".to_string(), "texture.png".to_string())
    );
    assert_eq!(
        default_names(false, None),
        ("clipboard.blp".to_string(), "clipboard.png".to_string())
    );
    assert_eq!(
        default_names(false, Some("ignored")),
        ("clipboard.blp".to_string(), "clipboard.png".to_string())
    );
}

#[test]
fn save_preview_prefers_the_folder_of_the_source() {
    match preview_save_path(true, Some("/pics".to_string()), Some("/last".to_string()), "a", "png") {
        SavePreview::Direct { dir, name } => {
            assert_eq!(dir, "/pics");
            assert_eq!(name, "a.png");
        }
        SavePreview::Dialog { .. } => panic!("a direct save was expected"),
    }
    match preview_save_path(false, Some("/pics".to_string()), Some("/last".to_string()), "a", "png") {
        SavePreview::Dialog { start_dir, name } => {
            assert_eq!(start_dir.as_deref(), Some("/last"));
            assert_eq!(name, "a.png");
        }
        SavePreview::Direct { .. } => panic!("a dialog was expected"),
    }
    match preview_save_path(false, Some("/pics".to_string()), None, "a.blp", ".blp") {
        SavePreview::Dialog { start_dir, name } => {
            assert_eq!(start_dir.as_deref(), Some("/pics"));
            assert_eq!(name, "a.blp");
        }
        SavePreview::Direct { .. } => panic!("a dialog was expected"),
    }
    match preview_save_path(true, None, None, "a", "blp") {
        SavePreview::Dialog { start_dir, name } => {
            assert_eq!(start_dir, None);
            assert_eq!(name, "a.blp");
        }
        SavePreview::Direct { .. } => panic!("a dialog was expected"),
    }
    match preview_save_path(true, None, Some("/last".to_string()), "a", "blp") {
        SavePreview::Dialog { start_dir, .. } => assert_eq!(start_dir.as_deref(), Some("/last")),
        SavePreview::Direct { .. } => panic!("a dialog was expected"),
    }
}

#[test]
fn languages_have_names_and_tags() {
    assert_eq!(LngList::En.name(), "English");
    assert_eq!(LngList::Ru.name(), "Русский");
    assert_eq!(LngList::Uk.name(), "Українська");
    assert_eq!(LngList::Zh.name(), "简体中文");
    assert_eq!(LngList::Tc.name(), "繁體中文");
    assert_eq!(LngList::En.code(), "en");
    assert_eq!(LngList::Ru.code(), "ru");
    assert_eq!(LngList::Uk.code(), "uk");
    assert_eq!(LngList::Zh.code(), "zh");
    assert_eq!(LngList::Tc.code(), "tc");
    assert_eq!(LngList::default(), LngList::En);
    assert_eq!(LngPrefs::default(), LngPrefs { lang: LngList::En, initialized: false });
}

#[test]
fn stored_language_wins_over_the_system() {
    let fresh = LngPrefs::default();
    assert_eq!(
        fresh.settle(LngList::Uk),
        (LngPrefs { lang: LngList::Uk, initialized: true }, true)
    );
    let chosen = LngPrefs { lang: LngList::Ru, initialized: true };
    assert_eq!(chosen.settle(LngList::Uk), (chosen, false));
}

#[test]
fn locales_map_to_languages() {
    assert_eq!(lang_of_locale("uk-UA"), LngList::Uk);
    assert_eq!(lang_of_locale("ru_RU"), LngList::Ru);
    assert_eq!(lang_of_locale("RU"), LngList::Ru);
    assert_eq!(lang_of_locale("en-US"), LngList::En);
    assert_eq!(lang_of_locale(""), LngList::En);
    assert_eq!(lang_of_locale("de-DE"), LngList::En);
    assert_eq!(lang_of_locale("sc"), LngList::Zh);
    assert_eq!(lang_of_locale("tc"), LngList::Tc);
    assert_eq!(lang_of_locale("yue-HK"), LngList::Tc);
    assert_eq!(lang_of_locale("zh"), LngList::Zh);
    assert_eq!(lang_of_locale("zh-CN"), LngList::Zh);
    assert_eq!(lang_of_locale("zh-Hans-CN"), LngList::Zh);
    assert_eq!(lang_of_locale("zh-SG"), LngList::Zh);
    assert_eq!(lang_of_locale("zh-TW"), LngList::Tc);
    assert_eq!(lang_of_locale("zh_HK"), LngList::Tc);
    assert_eq!(lang_of_locale("zh-MO"), LngList::Tc);
    assert_eq!(lang_of_locale("zh-Hant"), LngList::Tc);
    assert_eq!(lang_of_locale("zh-Hant-CN"), LngList::Tc);
    assert_eq!(lang_of_locale("zh-CHT"), LngList::Tc);
    assert_eq!(lang_of_locale("zh-yue"), LngList::Tc);
    assert_eq!(lang_of_locale("zh-"), LngList::Zh);
    assert_eq!(lang_of_locale("zhx-TW"), LngList::En);
    assert_eq!(lang_of_locale("ukr"), LngList::En);
    assert_eq!(lang_of_lowercase("ZH-TW"), LngList::En);
    assert_eq!(lang_of_lowercase("zh-tw"), LngList::Tc);
    assert_eq!(lang_of_lowercase("zh-twx"), LngList::Zh);
}

#[test]
fn text_search_helpers() {
    assert_eq!(subtag_end("zh-hant_tw", 0), 2);
    assert_eq!(subtag_end("zh-hant_tw", 3), 7);
    assert_eq!(subtag_end("zh-hant_tw", 8), 10);
    assert_eq!(subtag_end("zh", 2), 2);
    assert!(range_is("zh-tw", 3, 5, "tw"));
    assert!(!range_is("zh-tw", 3, 5, "t"));
    assert!(range_is("zh-tw", 2, 2, ""));
    assert!(contains("zh-hant-tw", "hant"));
    assert!(contains("hant", "hant"));
    assert!(!contains("han", "hant"));
    assert!(contains("abc", ""));
    assert!(!contains("zh-hans", "hant"));
    assert!(has_traditional_region("zh-hans-hk", 3));
    assert!(!has_traditional_region("zh-hans-hkx", 3));
    assert!(!has_traditional_region("zh", 2));
}

#[test]
fn shortcut_label_names_the_platform_key() {
    assert_eq!(platform_cmd_shortcut("V", false), "Ctrl+V");
    assert_eq!(platform_cmd_shortcut("V", true), "⌘V");
    assert_eq!(platform_cmd_shortcut("", false), "Ctrl+");
}

#[test]
fn paste_flag_is_taken_once() {
    let mut flag = true;
    assert!(take_cmdv_event(&mut flag));
    assert!(!flag);
    assert!(!take_cmdv_event(&mut flag));
    assert!(!flag);
}

#[test]
fn poll_decides_by_the_answer() {
    assert_eq!(poll_step(false, WorkerAnswer::Decoded), (PollAction::Idle, false));
    assert_eq!(poll_step(false, WorkerAnswer::Pending), (PollAction::Idle, false));
    assert_eq!(poll_step(true, WorkerAnswer::NoChannel), (PollAction::GiveUp, false));
    assert_eq!(poll_step(true, WorkerAnswer::Pending), (PollAction::KeepWaiting, true));
    assert_eq!(poll_step(true, WorkerAnswer::Decoded), (PollAction::ShowImage, false));
    assert_eq!(
        poll_step(true, WorkerAnswer::Failed(BlpError::InvalidHeader)),
        (PollAction::ShowError(PollError::Decoder(BlpError::InvalidHeader)), false)
    );
    assert_eq!(
        poll_step(true, WorkerAnswer::Disconnected),
        (PollAction::ShowError(PollError::ThreadDisconnected), false)
    );
}

#[test]
fn picked_input_is_a_path_or_bytes() {
    let a = FilePickInput::Path("/tmp/a.blp".to_string());
    let b = FilePickInput::Bytes(vec![1, 2, 3]);
    assert!(matches!(a, FilePickInput::Path(ref p) if p == "/tmp/a.blp"));
    assert!(matches!(b, FilePickInput::Bytes(ref v) if v.len() == 3));
}

#[test]
fn level_switches_are_summed_up() {
    let mut mask = [true; 16];
    assert!(all_visible(&mask));
    assert!(any_visible(&mask));
    mask[15] = false;
    assert!(!all_visible(&mask));
    assert!(any_visible(&mask));
    let mut none = [false; 16];
    assert!(!all_visible(&none));
    assert!(!any_visible(&none));
    none[7] = true;
    assert!(any_visible(&none));
}

#[test]
fn hotkey_is_the_first_press_with_command() {
    let hit = KeyEvent { same_key: true, pressed: true, repeat: false, command: true, alt: false };
    assert!(hotkey_in_events(&[hit]));
    assert!(!hotkey_in_events(&[]));
    assert!(!hotkey_in_events(&[KeyEvent { same_key: false, ..hit }]));
    assert!(!hotkey_in_events(&[KeyEvent { pressed: false, ..hit }]));
    assert!(!hotkey_in_events(&[KeyEvent { repeat: true, ..hit }]));
    assert!(!hotkey_in_events(&[KeyEvent { command: false, ..hit }]));
    assert!(!hotkey_in_events(&[KeyEvent { alt: true, ..hit }]));
    assert!(hotkey_in_events(&[KeyEvent { alt: true, ..hit }, KeyEvent { repeat: true, ..hit }, hit]));
}

#[test]
fn registered_font_moves_to_the_front() {
    let mut list = vec!["a".to_string(), "b".to_string(), "c".to_string(), "b".to_string()];
    push_front_unique(&mut list, "b", true);
    assert_eq!(list, vec!["b", "a", "c", "b"]);
    push_front_unique(&mut list, "z", true);
    assert_eq!(list, vec!["z", "b", "a", "c", "b"]);
    push_front_unique(&mut list, "c", false);
    assert_eq!(list, vec!["z", "b", "a", "c", "b"]);
    push_front_unique(&mut list, "z", true);
    assert_eq!(list, vec!["z", "b", "a", "c", "b"]);
    let mut empty: Vec<String> = Vec::new();
    push_front_unique(&mut empty, "x", true);
    assert_eq!(empty, vec!["x"]);
}
